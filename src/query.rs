//! Read-only views of the marketplace.

use vstd::prelude::*;
use crate::collection::{MarketError, SaleRecord, TradingTotals};
use crate::keyed::IdMap;
use crate::market::{Market, TvlInfo, index_of, present, registered};
use crate::offerings::{Offering, batch_spec};
use crate::portion::{Payee, Portion};

verus! {

/// A collection's configuration and counters.
#[derive(Clone, Debug, PartialEq, Eq)]
pub struct CollectionInfo {
    pub nft_address: String,
    pub offering_id: u64,
    pub royalty_portion: Portion,
    pub sale_id: u64,
}

/// Value locked in collection `address` in denomination `d`; zero where
/// nothing is held under the address or the denomination was never written.
pub open spec fn tvl_of(m: Market, address: Seq<char>, d: Seq<char>) -> u128 {
    if present(m.collections@, address) {
        m.collections@[index_of(m.collections@, address)].tvl_amount(d)
    } else {
        0
    }
}

/// The records that `ids` asks for, in the order asked, absent ones skipped.
pub open spec fn history_batch(h: IdMap<SaleRecord>, ids: Seq<u64>) -> Seq<SaleRecord>
    decreases ids.len(),
{
    if ids.len() == 0 {
        Seq::empty()
    } else {
        let front = history_batch(h, ids.drop_last());
        match h.value(ids.last()) {
            Some(rec) => front.push(rec),
            None => front,
        }
    }
}

/// Reading the value locked in a denomination that was never written gives
/// zero, as does reading it under an address that holds nothing.
pub proof fn lemma_unwritten_tvl_is_zero(m: Market, address: Seq<char>, d: Seq<char>)
    requires
        present(m.collections@, address) ==> m.collections@[index_of(
            m.collections@,
            address,
        )].tvl.value(d) is None,
    ensures
        tvl_of(m, address, d) == 0,
{
}

/// The administrator.
pub fn query_state_info(m: &Market) -> (r: String)
    ensures
        r == m.owner,
{
    m.owner.clone()
}

/// The configuration of collection `address`.
pub fn query_collection_info(m: &Market, address: &String) -> (r: Result<
    CollectionInfo,
    MarketError,
>)
    requires
        m.wf(),
    ensures
        !registered(m.collections@, address@) ==> r == Err::<CollectionInfo, MarketError>(
            MarketError::UnknownCollection,
        ),
        registered(m.collections@, address@) ==> {
            let c = m.collections@[index_of(m.collections@, address@)];
            r == Ok::<CollectionInfo, MarketError>(
                CollectionInfo {
                    nft_address: c.id,
                    offering_id: c.offerings.next_slot,
                    royalty_portion: c.royalty,
                    sale_id: c.sale_counter,
                },
            )
        },
{
    match m.find_collection(address) {
        Some(i) if m.collections[i].registered => {
            let c = &m.collections[i];
            Ok(
                CollectionInfo {
                    nft_address: c.id.clone(),
                    offering_id: c.offerings.next_slot,
                    royalty_portion: c.royalty,
                    sale_id: c.sale_counter,
                },
            )
        },
        _ => Err(MarketError::UnknownCollection),
    }
}

/// Value locked in collection `address` in denomination `symbol`.
pub fn query_get_tvl(m: &Market, address: &String, symbol: &String) -> (r: u128)
    requires
        m.wf(),
    ensures
        r == tvl_of(*m, address@, symbol@),
{
    match m.find_collection(address) {
        Some(i) => {
            assert(m.collections@[i as int].wf());
            m.collections[i].get_tvl(symbol)
        },
        None => 0,
    }
}

/// Value locked in collection `address` for each of `symbols`, in order,
/// zero where none was written.
pub fn query_all_tvl(m: &Market, address: &String, symbols: &Vec<String>) -> (r: Vec<TvlInfo>)
    requires
        m.wf(),
    ensures
        r@.len() == symbols@.len(),
        forall|k: int|
            0 <= k < symbols@.len() ==> (#[trigger] r@[k]).denom == symbols@[k] && r@[k].amount
                == tvl_of(*m, address@, symbols@[k]@),
{
    let mut r: Vec<TvlInfo> = Vec::new();
    let mut k: usize = 0;
    while k < symbols.len()
        invariant
            m.wf(),
            k <= symbols@.len(),
            r@.len() == k,
            forall|j: int|
                0 <= j < k ==> (#[trigger] r@[j]).denom == symbols@[j] && r@[j].amount == tvl_of(
                    *m,
                    address@,
                    symbols@[j]@,
                ),
        decreases symbols@.len() - k,
    {
        let amount = query_get_tvl(m, address, &symbols[k]);
        r.push(TvlInfo { denom: symbols[k].clone(), amount });
        k = k + 1;
    }
    r
}

/// The royalty payees of collection `address`.
pub fn query_get_members(m: &Market, address: &String) -> (r: Result<Vec<Payee>, MarketError>)
    requires
        m.wf(),
    ensures
        !registered(m.collections@, address@) ==> r == Err::<Vec<Payee>, MarketError>(
            MarketError::UnknownCollection,
        ),
        registered(m.collections@, address@) ==> r is Ok && r->Ok_0@ == m.collections@[index_of(
            m.collections@,
            address@,
        )].payees@,
{
    match m.find_collection(address) {
        Some(i) if m.collections[i].registered => {
            let payees = &m.collections[i].payees;
            let mut r: Vec<Payee> = Vec::new();
            let mut k: usize = 0;
            while k < payees.len()
                invariant
                    k <= payees@.len(),
                    r@ == payees@.take(k as int),
                decreases payees@.len() - k,
            {
                r.push(payees[k].duplicate());
                k = k + 1;
                assert(r@ =~= payees@.take(k as int));
            }
            assert(payees@.take(k as int) =~= payees@);
            Ok(r)
        },
        _ => Err(MarketError::UnknownCollection),
    }
}

/// The trading volume of collection `address`; zero where nothing is held.
pub fn query_get_trading(m: &Market, address: &String) -> (r: TradingTotals)
    requires
        m.wf(),
    ensures
        present(m.collections@, address@) ==> r == m.collections@[index_of(
            m.collections@,
            address@,
        )].totals,
        !present(m.collections@, address@) ==> r == (TradingTotals {
            total_native: 0,
            total_token: 0,
        }),
{
    match m.find_collection(address) {
        Some(i) => m.collections[i].totals,
        None => TradingTotals { total_native: 0, total_token: 0 },
    }
}

/// The ids of the active offerings of collection `address`, ascending;
/// none where nothing is held under the address.
pub fn query_get_ids(m: &Market, address: &String) -> (r: Vec<u64>)
    requires
        m.wf(),
    ensures
        present(m.collections@, address@) ==> r@ == m.collections@[index_of(
            m.collections@,
            address@,
        )].offerings.entries@.map_values(|e: (u64, Offering)| e.0),
        !present(m.collections@, address@) ==> r@.len() == 0,
{
    match m.find_collection(address) {
        Some(i) => {
            assert(m.collections@[i as int].wf());
            m.collections[i].offerings.list_ids()
        },
        None => Vec::new(),
    }
}

/// The offerings of collection `address` under `ids`, in the order asked,
/// absent ids skipped; none where nothing is held under the address.
pub fn query_get_offering(m: &Market, ids: &Vec<u64>, address: &String) -> (r: Vec<
    (u64, Offering),
>)
    requires
        m.wf(),
    ensures
        present(m.collections@, address@) ==> r@ == batch_spec(
            m.collections@[index_of(m.collections@, address@)].offerings.entries@,
            ids@,
        ),
        !present(m.collections@, address@) ==> r@.len() == 0,
{
    match m.find_collection(address) {
        Some(i) => {
            assert(m.collections@[i as int].wf());
            m.collections[i].offerings.batch_get(ids)
        },
        None => Vec::new(),
    }
}

/// The sale records of collection `address` under `ids`, in the order
/// asked, absent ones skipped; none where nothing is held under the address.
pub fn query_get_history(m: &Market, address: &String, ids: &Vec<u64>) -> (r: Vec<SaleRecord>)
    requires
        m.wf(),
    ensures
        present(m.collections@, address@) ==> r@ == history_batch(
            m.collections@[index_of(m.collections@, address@)].history,
            ids@,
        ),
        !present(m.collections@, address@) ==> r@.len() == 0,
{
    match m.find_collection(address) {
        Some(i) => {
            assert(m.collections@[i as int].wf());
            let h = &m.collections[i].history;
            let mut r: Vec<SaleRecord> = Vec::new();
            let mut k: usize = 0;
            while k < ids.len()
                invariant
                    h.wf(),
                    k <= ids@.len(),
                    r@ == history_batch(*h, ids@.take(k as int)),
                decreases ids@.len() - k,
            {
                assert(ids@.take(k as int + 1).drop_last() =~= ids@.take(k as int));
                match h.find(ids[k]) {
                    Some(j) => {
                        r.push(h.entries[j].1.duplicate());
                    },
                    None => {},
                }
                k = k + 1;
            }
            assert(ids@.take(k as int) =~= ids@);
            r
        },
        None => Vec::new(),
    }
}

} // verus!
