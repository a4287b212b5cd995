//! The marketplace: its administrator, the registered token rails and the
//! registered collections, and the requests that change them.

use vstd::prelude::*;
use crate::collection::{Collection, MarketError, Rail, SaleRecord, Settlement, TradingTotals};
use crate::keyed::NameMap;
use crate::offerings::{Asset, Offering, OfferingStore, lookup};
use crate::portion::{Payee, Portion, portion_sum, sum_portions, ONE_ATOMICS};

verus! {

/// The whole marketplace state.
#[derive(Debug)]
pub struct Market {
    pub owner: String,
    /// Token contract address to the denomination it pays in.
    pub rails: NameMap<String>,
    pub collections: Vec<Collection>,
}

pub open spec fn ids_distinct(cs: Seq<Collection>) -> bool {
    forall|i: int, j: int|
        0 <= i < cs.len() && 0 <= j < cs.len() && i != j ==> cs[i].id@ != cs[j].id@
}

/// Something is held under collection address `id`.
pub open spec fn present(cs: Seq<Collection>, id: Seq<char>) -> bool {
    exists|i: int| 0 <= i < cs.len() && cs[i].id@ == id
}

/// Collection `id` is registered.
pub open spec fn registered(cs: Seq<Collection>, id: Seq<char>) -> bool {
    exists|i: int| 0 <= i < cs.len() && cs[i].id@ == id && cs[i].registered
}

/// Where the collection `id` stands.
pub open spec fn index_of(cs: Seq<Collection>, id: Seq<char>) -> int {
    choose|i: int| 0 <= i < cs.len() && cs[i].id@ == id
}

/// `post` is `pre` but for the collection at `i`.
pub open spec fn rest_same(pre: Market, post: Market, i: int) -> bool {
    &&& post.owner == pre.owner
    &&& post.rails == pre.rails
    &&& post.collections@.len() == pre.collections@.len()
    &&& forall|j: int|
        0 <= j < pre.collections@.len() && j != i ==> #[trigger] post.collections@[j]
            == pre.collections@[j]
}

/// `post` is `pre` with one more collection at the end.
pub open spec fn appended(pre: Market, post: Market) -> bool {
    &&& post.owner == pre.owner
    &&& post.rails == pre.rails
    &&& post.collections@.len() == pre.collections@.len() + 1
    &&& forall|j: int|
        0 <= j < pre.collections@.len() ==> #[trigger] post.collections@[j]
            == pre.collections@[j]
}

/// A collection just registered, with no offerings, sales or statistics.
pub open spec fn fresh(
    c: Collection,
    id: String,
    royalty: Portion,
    payees: Vec<Payee>,
    next_slot: u64,
    sale_counter: u64,
) -> bool {
    &&& c.id == id
    &&& c.registered
    &&& c.royalty == royalty
    &&& c.payees == payees
    &&& c.offerings.next_slot == next_slot
    &&& c.offerings.entries@.len() == 0
    &&& c.sale_counter == sale_counter
    &&& c.totals == TradingTotals { total_native: 0, total_token: 0 }
    &&& forall|d: Seq<char>| #[trigger] c.tvl.value(d) is None
    &&& forall|k: u64| #[trigger] c.history.value(k) is None
}

/// Why registering or updating a collection with `royalty` and `payees` is
/// refused, if it is, in the order of the checks: the collection's address,
/// the caller, the collection's registration (`unknown` says that it must be
/// registered and is not), the payees' addresses, their portions, the
/// royalty.
pub open spec fn config_error(
    m: Market,
    caller: Seq<char>,
    royalty: Portion,
    payees: Seq<Payee>,
    collection_valid: bool,
    payees_valid: bool,
    unknown: bool,
) -> Option<MarketError> {
    if !collection_valid {
        Some(MarketError::InvalidAddress)
    } else if caller != m.owner@ {
        Some(MarketError::Unauthorized)
    } else if unknown {
        Some(MarketError::UnknownCollection)
    } else if !payees_valid {
        Some(MarketError::InvalidAddress)
    } else if portion_sum(payees) != ONE_ATOMICS as int {
        Some(MarketError::PortionSum)
    } else if !royalty.wf() {
        Some(MarketError::PortionRange)
    } else {
        None
    }
}

/// What a native-currency payment in `funds` holds of denomination `d`: the
/// amount of the first coin in `d`, or zero.
pub open spec fn paid_in(funds: Seq<Asset>, d: Seq<char>) -> u128
    decreases funds.len(),
{
    if funds.len() == 0 {
        0
    } else if funds[0].denom@ == d {
        funds[0].amount
    } else {
        paid_in(funds.subrange(1, funds.len() as int), d)
    }
}

/// A request to hand token `token_id` of an NFT contract to `recipient`.
#[derive(Clone, Debug, PartialEq, Eq)]
pub struct NftTransfer {
    pub recipient: String,
    pub token_id: String,
}

/// One denomination's value locked.
#[derive(Clone, Debug, PartialEq, Eq)]
pub struct TvlInfo {
    pub denom: String,
    pub amount: u128,
}

impl TvlInfo {
    pub fn duplicate(&self) -> (r: TvlInfo)
        ensures
            r == *self,
    {
        TvlInfo { denom: self.denom.clone(), amount: self.amount }
    }
}

/// The last amount that `ts` gives for `d`, if any.
pub open spec fn last_tvl(ts: Seq<TvlInfo>, d: Seq<char>) -> Option<u128>
    decreases ts.len(),
{
    if ts.len() == 0 {
        None
    } else if ts.last().denom@ == d {
        Some(ts.last().amount)
    } else {
        last_tvl(ts.drop_last(), d)
    }
}

/// The last offering that `es` gives for `k`, if any.
pub open spec fn last_offering(es: Seq<(u64, Offering)>, k: u64) -> Option<Offering>
    decreases es.len(),
{
    if es.len() == 0 {
        None
    } else if es.last().0 == k {
        Some(es.last().1)
    } else {
        last_offering(es.drop_last(), k)
    }
}

/// `post` is `pre` with the amounts of `ts` written over its value locked.
pub open spec fn tvl_loaded(pre: Collection, post: Collection, ts: Seq<TvlInfo>) -> bool {
    &&& post.id == pre.id && post.royalty == pre.royalty && post.payees == pre.payees
    &&& post.offerings == pre.offerings && post.sale_counter == pre.sale_counter
    &&& post.totals == pre.totals && post.history == pre.history
    &&& forall|d: Seq<char>|
        #[trigger] post.tvl.value(d) == match last_tvl(ts, d) {
            Some(a) => Some(a),
            None => pre.tvl.value(d),
        }
}

/// `post` is `pre` with the offerings of `es` written into its store; the
/// slot counter stays.
pub open spec fn offerings_loaded(pre: Collection, post: Collection, es: Seq<(u64, Offering)>) -> bool {
    &&& post.id == pre.id && post.royalty == pre.royalty && post.payees == pre.payees
    &&& post.offerings.next_slot == pre.offerings.next_slot
    &&& post.sale_counter == pre.sale_counter
    &&& post.totals == pre.totals && post.tvl == pre.tvl && post.history == pre.history
    &&& forall|k: u64|
        #[trigger] lookup(post.offerings.entries@, k) == match last_offering(es, k) {
            Some(o) => Some(o),
            None => lookup(pre.offerings.entries@, k),
        }
}

/// `post` is `pre` with the records of `rs` written under sale numbers
/// `1, 2, ...` in order.
pub open spec fn history_loaded(pre: Collection, post: Collection, rs: Seq<SaleRecord>) -> bool {
    &&& post.id == pre.id && post.royalty == pre.royalty && post.payees == pre.payees
    &&& post.offerings == pre.offerings && post.sale_counter == pre.sale_counter
    &&& post.totals == pre.totals && post.tvl == pre.tvl
    &&& forall|k: u64|
        #[trigger] post.history.value(k) == if 1 <= k <= rs.len() {
            Some(rs[k - 1])
        } else {
            pre.history.value(k)
        }
}

/// The amount that `funds` holds of `denom`: that of the first coin in
/// `denom`, or zero.
pub fn paid_amount(funds: &Vec<Asset>, denom: &String) -> (r: u128)
    ensures
        r == paid_in(funds@, denom@),
{
    let mut i: usize = 0;
    assert(funds@.subrange(0, funds@.len() as int) =~= funds@);
    while i < funds.len()
        invariant
            i <= funds@.len(),
            paid_in(funds@, denom@) == paid_in(funds@.subrange(i as int, funds@.len() as int), denom@),
        decreases funds@.len() - i,
    {
        let ghost rest = funds@.subrange(i as int, funds@.len() as int);
        assert(rest[0] == funds@[i as int]);
        if funds[i].denom == *denom {
            return funds[i].amount;
        }
        assert(rest.subrange(1, rest.len() as int) =~= funds@.subrange(i as int + 1, funds@.len() as int));
        i = i + 1;
    }
    0
}

/// A new marketplace administered by `owner`, with no rails and no
/// collections.
pub fn instantiate(owner: String) -> (r: Market)
    ensures
        r.wf(),
        r.owner == owner,
        forall|k: Seq<char>| #[trigger] r.rails.value(k) is None,
        r.collections@.len() == 0,
{
    Market { owner, rails: NameMap::new(), collections: Vec::new() }
}

impl Market {
    pub open spec fn wf(&self) -> bool {
        &&& self.rails.wf()
        &&& ids_distinct(self.collections@)
        &&& forall|i: int| 0 <= i < self.collections@.len() ==> (#[trigger] self.collections@[i]).wf()
    }

    /// Where the collection `id` stands, if it is registered.
    pub fn find_collection(&self, id: &String) -> (r: Option<usize>)
        requires
            self.wf(),
        ensures
            r is None <==> !present(self.collections@, id@),
            r matches Some(i) ==> i == index_of(self.collections@, id@) && i
                < self.collections@.len() && self.collections@[i as int].id@ == id@,
            registered(self.collections@, id@) <==> (r matches Some(i)
                && self.collections@[i as int].registered),
    {
        let mut i: usize = 0;
        while i < self.collections.len()
            invariant
                self.wf(),
                i <= self.collections@.len(),
                forall|j: int| 0 <= j < i ==> self.collections@[j].id@ != id@,
            decreases self.collections@.len() - i,
        {
            if self.collections[i].id == *id {
                proof {
                    let k = index_of(self.collections@, id@);
                    assert(present(self.collections@, id@));
                    assert(self.collections@[k].id@ == id@);
                    if registered(self.collections@, id@) {
                        let j = choose|j: int|
                            0 <= j < self.collections@.len() && self.collections@[j].id@ == id@
                                && self.collections@[j].registered;
                        assert(j == i);
                    }
                }
                return Some(i);
            }
            i = i + 1;
        }
        None
    }

    /// Whether `wf` holds: unique rail and collection addresses, and every
    /// collection well formed. A state rebuilt from storage is checked so.
    pub fn is_wf(&self) -> (r: bool)
        ensures
            r ==> self.wf(),
    {
        if !self.rails.check_unique() {
            return false;
        }
        let n = self.collections.len();
        let mut i: usize = 0;
        while i < n
            invariant
                n == self.collections@.len(),
                i <= n,
                forall|a: int| 0 <= a < i ==> (#[trigger] self.collections@[a]).wf(),
                forall|a: int, b: int|
                    0 <= a < i && 0 <= b < n && a != b ==> self.collections@[a].id@
                        != self.collections@[b].id@,
            decreases n - i,
        {
            if !self.collections[i].check() {
                return false;
            }
            let mut j: usize = 0;
            while j < n
                invariant
                    n == self.collections@.len(),
                    i < n,
                    j <= n,
                    forall|b: int|
                        0 <= b < j && b != i ==> self.collections@[i as int].id@
                            != self.collections@[b].id@,
                decreases n - j,
            {
                if j != i && self.collections[i].id == self.collections[j].id {
                    return false;
                }
                j = j + 1;
            }
            i = i + 1;
        }
        true
    }

    /// Puts `c` back at `i`, where it was taken from.
    fn restore(&mut self, i: usize, c: Collection)
        requires
            old(self).wf(),
            i <= old(self).collections@.len(),
            c.wf(),
            forall|j: int|
                0 <= j < old(self).collections@.len() ==> old(self).collections@[j].id@ != c.id@,
        ensures
            final(self).wf(),
            final(self).owner == old(self).owner,
            final(self).rails == old(self).rails,
            final(self).collections@ == old(self).collections@.insert(i as int, c),
    {
        self.collections.insert(i, c);
        proof {
            let cs = self.collections@;
            assert forall|a: int, b: int|
                0 <= a < cs.len() && 0 <= b < cs.len() && a != b implies cs[a].id@
                != cs[b].id@ by {
                let o = old(self).collections@;
                if a != i && b != i {
                    let a2 = if a < i { a } else { a - 1 };
                    let b2 = if b < i { b } else { b - 1 };
                    assert(cs[a] == o[a2]);
                    assert(cs[b] == o[b2]);
                } else if a == i {
                    let b2 = if b < i { b } else { b - 1 };
                    assert(cs[b] == o[b2]);
                } else {
                    let a2 = if a < i { a } else { a - 1 };
                    assert(cs[a] == o[a2]);
                }
            }
            assert forall|j: int| 0 <= j < cs.len() implies (#[trigger] cs[j]).wf() by {
                let o = old(self).collections@;
                if j < i {
                    assert(cs[j] == o[j]);
                } else if j > i {
                    assert(cs[j] == o[j - 1]);
                }
            }
        }
    }

    /// Takes out the collection at `i`, to be put back with `restore`.
    fn take(&mut self, i: usize) -> (c: Collection)
        requires
            old(self).wf(),
            i < old(self).collections@.len(),
        ensures
            final(self).wf(),
            c == old(self).collections@[i as int],
            c.wf(),
            final(self).owner == old(self).owner,
            final(self).rails == old(self).rails,
            final(self).collections@ == old(self).collections@.remove(i as int),
            forall|j: int|
                0 <= j < final(self).collections@.len() ==> final(self).collections@[j].id@
                    != c.id@,
    {
        let c = self.collections.remove(i);
        proof {
            let cs = self.collections@;
            let o = old(self).collections@;
            assert(o[i as int].wf());
            assert forall|j: int| 0 <= j < cs.len() implies cs[j].id@ != c.id@ by {
                if j < i {
                    assert(cs[j] == o[j]);
                } else {
                    assert(cs[j] == o[j + 1]);
                }
            }
            assert forall|a: int, b: int|
                0 <= a < cs.len() && 0 <= b < cs.len() && a != b implies cs[a].id@
                != cs[b].id@ by {
                let a2 = if a < i { a } else { a + 1 };
                let b2 = if b < i { b } else { b + 1 };
                assert(cs[a] == o[a2]);
                assert(cs[b] == o[b2]);
            }
            assert forall|j: int| 0 <= j < cs.len() implies (#[trigger] cs[j]).wf() by {
                if j < i {
                    assert(cs[j] == o[j]);
                } else {
                    assert(cs[j] == o[j + 1]);
                }
            }
        }
        c
    }

    /// Takes out what is held under `id`, or a blank collection where
    /// nothing is, with the place to put it back with `restore`.
    fn take_or_empty(&mut self, id: &String) -> (r: (usize, Collection))
        requires
            old(self).wf(),
        ensures
            final(self).wf(),
            r.1.wf(),
            r.1.id@ == id@,
            final(self).owner == old(self).owner,
            final(self).rails == old(self).rails,
            r.0 <= final(self).collections@.len(),
            forall|j: int|
                0 <= j < final(self).collections@.len() ==> final(self).collections@[j].id@
                    != r.1.id@,
            present(old(self).collections@, id@) ==> {
                &&& r.0 == index_of(old(self).collections@, id@)
                &&& r.1 == old(self).collections@[r.0 as int]
                &&& final(self).collections@ == old(self).collections@.remove(r.0 as int)
            },
            !present(old(self).collections@, id@) ==> {
                &&& r.0 == old(self).collections@.len()
                &&& r.1.blank(id@)
                &&& final(self).collections@ == old(self).collections@
            },
    {
        match self.find_collection(id) {
            Some(i) => {
                let c = self.take(i);
                (i, c)
            },
            None => {
                let c = Collection::empty(id.clone());
                (self.collections.len(), c)
            },
        }
    }

    /// `Ok` where `caller` administers the marketplace, `Unauthorized`
    /// otherwise.
    pub fn check_owner(&self, caller: &String) -> (r: Result<(), MarketError>)
        ensures
            r is Ok <==> caller@ == self.owner@,
            r is Err ==> r == Err::<(), MarketError>(MarketError::Unauthorized),
    {
        if *caller == self.owner {
            Ok(())
        } else {
            Err(MarketError::Unauthorized)
        }
    }

    /// Hands the administration to `new_owner`. Refused with `Unauthorized`
    /// for anyone but the administrator, then with `InvalidAddress` for a
    /// malformed address.
    pub fn change_owner(&mut self, caller: &String, new_owner: String, address_valid: bool) -> (r:
        Result<(), MarketError>)
        requires
            old(self).wf(),
        ensures
            final(self).wf(),
            caller@ != old(self).owner@ ==> r == Err::<(), MarketError>(MarketError::Unauthorized)
                && *final(self) == *old(self),
            caller@ == old(self).owner@ && !address_valid ==> r == Err::<(), MarketError>(
                MarketError::InvalidAddress,
            ) && *final(self) == *old(self),
            caller@ == old(self).owner@ && address_valid ==> r == Ok::<(), MarketError>(())
                && final(self).owner == new_owner && final(self).rails == old(self).rails
                && final(self).collections == old(self).collections,
    {
        self.check_owner(caller)?;
        if !address_valid {
            return Err(MarketError::InvalidAddress);
        }
        self.owner = new_owner;
        Ok(())
    }

    /// Registers the token contract `address` as paying in `symbol`.
    /// Refused with `InvalidAddress` for a malformed address, then with
    /// `Unauthorized` for anyone but the administrator.
    pub fn add_token_rail(
        &mut self,
        caller: &String,
        symbol: String,
        address: String,
        address_valid: bool,
    ) -> (r: Result<(), MarketError>)
        requires
            old(self).wf(),
        ensures
            final(self).wf(),
            !address_valid ==> r == Err::<(), MarketError>(MarketError::InvalidAddress)
                && *final(self) == *old(self),
            address_valid && caller@ != old(self).owner@ ==> r == Err::<(), MarketError>(
                MarketError::Unauthorized,
            ) && *final(self) == *old(self),
            address_valid && caller@ == old(self).owner@ ==> {
                &&& r == Ok::<(), MarketError>(())
                &&& final(self).owner == old(self).owner
                &&& final(self).collections == old(self).collections
                &&& forall|k: Seq<char>|
                    #[trigger] final(self).rails.value(k) == if k == address@ {
                        Some(symbol)
                    } else {
                        old(self).rails.value(k)
                    }
            },
    {
        if !address_valid {
            return Err(MarketError::InvalidAddress);
        }
        self.check_owner(caller)?;
        self.rails.put(address, symbol);
        Ok(())
    }

    /// Registers collection `id`, or overwrites its configuration where it is
    /// registered already: royalty, payees, the slot counter and the sale
    /// counter are replaced; its offerings, value locked, volume and history
    /// stay.
    pub fn register_collection(
        &mut self,
        caller: &String,
        id: String,
        royalty: Portion,
        payees: Vec<Payee>,
        next_slot: u64,
        sale_counter: u64,
        collection_valid: bool,
        payees_valid: bool,
    ) -> (r: Result<(), MarketError>)
        requires
            old(self).wf(),
        ensures
            final(self).wf(),
            config_error(
                *old(self),
                caller@,
                royalty,
                payees@,
                collection_valid,
                payees_valid,
                false,
            ) matches Some(
                e,
            ) ==> r == Err::<(), MarketError>(e) && *final(self) == *old(self),
            config_error(
                *old(self),
                caller@,
                royalty,
                payees@,
                collection_valid,
                payees_valid,
                false,
            ) is None ==> {
                &&& r == Ok::<(), MarketError>(())
                &&& if present(old(self).collections@, id@) {
                    let i = index_of(old(self).collections@, id@);
                    let pre = old(self).collections@[i];
                    let post = final(self).collections@[i];
                    &&& rest_same(*old(self), *final(self), i)
                    &&& post.id == pre.id
                    &&& post.registered
                    &&& post.royalty == royalty
                    &&& post.payees == payees
                    &&& post.offerings.entries == pre.offerings.entries
                    &&& post.offerings.next_slot == next_slot
                    &&& post.sale_counter == sale_counter
                    &&& post.totals == pre.totals
                    &&& post.tvl == pre.tvl
                    &&& post.history == pre.history
                } else {
                    &&& final(self).owner == old(self).owner
                    &&& final(self).rails == old(self).rails
                    &&& final(self).collections@.len() == old(self).collections@.len() + 1
                    &&& forall|j: int|
                        0 <= j < old(self).collections@.len() ==> #[trigger] final(self).collections@[j]
                            == old(self).collections@[j]
                    &&& fresh(
                        final(self).collections@[old(self).collections@.len() as int],
                        id,
                        royalty,
                        payees,
                        next_slot,
                        sale_counter,
                    )
                }
            },
    {
        if !collection_valid {
            return Err(MarketError::InvalidAddress);
        }
        self.check_owner(caller)?;
        if !payees_valid {
            return Err(MarketError::InvalidAddress);
        }
        match sum_portions(&payees) {
            Some(s) => {
                if s != ONE_ATOMICS {
                    return Err(MarketError::PortionSum);
                }
            },
            None => {
                return Err(MarketError::PortionSum);
            },
        }
        if royalty.atomics > ONE_ATOMICS {
            return Err(MarketError::PortionRange);
        }
        proof {
            crate::portion::lemma_sum_one_complete(payees@);
        }
        match self.find_collection(&id) {
            Some(i) => {
                let old_c = self.take(i);
                let c = Collection {
                    id: old_c.id,
                    registered: true,
                    royalty,
                    payees,
                    offerings: OfferingStore { entries: old_c.offerings.entries, next_slot },
                    sale_counter,
                    totals: old_c.totals,
                    tvl: old_c.tvl,
                    history: old_c.history,
                };
                self.restore(i, c);
                proof {
                    assert(self.collections@ =~= old(self).collections@.update(i as int, c));
                }
            },
            None => {
                let c = Collection::new(id, royalty, payees, next_slot, sale_counter);
                let n = self.collections.len();
                self.restore(n, c);
                proof {
                    assert(self.collections@ =~= old(self).collections@.push(c));
                }
            },
        }
        Ok(())
    }

    /// Replaces the royalty and the payees of the registered collection
    /// `id`, keeping everything else.
    pub fn update_collection(
        &mut self,
        caller: &String,
        id: &String,
        royalty: Portion,
        payees: Vec<Payee>,
        collection_valid: bool,
        payees_valid: bool,
    ) -> (r: Result<(), MarketError>)
        requires
            old(self).wf(),
        ensures
            final(self).wf(),
            config_error(
                *old(self),
                caller@,
                royalty,
                payees@,
                collection_valid,
                payees_valid,
                !registered(old(self).collections@, id@),
            ) matches Some(e) ==> r == Err::<(), MarketError>(e) && *final(self) == *old(self),
            config_error(
                *old(self),
                caller@,
                royalty,
                payees@,
                collection_valid,
                payees_valid,
                !registered(old(self).collections@, id@),
            ) is None ==> {
                let i = index_of(old(self).collections@, id@);
                let pre = old(self).collections@[i];
                let post = final(self).collections@[i];
                &&& r == Ok::<(), MarketError>(())
                &&& rest_same(*old(self), *final(self), i)
                &&& post.id == pre.id
                &&& post.registered
                &&& post.royalty == royalty
                &&& post.payees == payees
                &&& post.offerings == pre.offerings
                &&& post.sale_counter == pre.sale_counter
                &&& post.totals == pre.totals
                &&& post.tvl == pre.tvl
                &&& post.history == pre.history
            },
    {
        if !collection_valid {
            return Err(MarketError::InvalidAddress);
        }
        self.check_owner(caller)?;
        let i = match self.find_collection(id) {
            Some(i) => i,
            None => {
                return Err(MarketError::UnknownCollection);
            },
        };
        if !self.collections[i].registered {
            return Err(MarketError::UnknownCollection);
        }
        if !payees_valid {
            return Err(MarketError::InvalidAddress);
        }
        match sum_portions(&payees) {
            Some(s) => {
                if s != ONE_ATOMICS {
                    return Err(MarketError::PortionSum);
                }
            },
            None => {
                return Err(MarketError::PortionSum);
            },
        }
        if royalty.atomics > ONE_ATOMICS {
            return Err(MarketError::PortionRange);
        }
        proof {
            crate::portion::lemma_sum_one_complete(payees@);
        }
        let old_c = self.take(i);
        let c = Collection {
            id: old_c.id,
            registered: true,
            royalty,
            payees,
            offerings: old_c.offerings,
            sale_counter: old_c.sale_counter,
            totals: old_c.totals,
            tvl: old_c.tvl,
            history: old_c.history,
        };
        self.restore(i, c);
        proof {
            assert(self.collections@ =~= old(self).collections@.update(i as int, c));
        }
        Ok(())
    }
    /// Lists token `token_id` of collection `collection_id` for `seller` at
    /// `price` and returns its offering id. Refused with `UnknownCollection`
    /// for an unregistered collection, then with `InvalidAddress` for a
    /// malformed seller address.
    pub fn list_offering(
        &mut self,
        collection_id: &String,
        token_id: String,
        seller: String,
        price: Asset,
        seller_valid: bool,
    ) -> (r: Result<u64, MarketError>)
        requires
            old(self).wf(),
        ensures
            final(self).wf(),
            !registered(old(self).collections@, collection_id@) ==> r == Err::<u64, MarketError>(
                MarketError::UnknownCollection,
            ) && *final(self) == *old(self),
            registered(old(self).collections@, collection_id@) && !seller_valid ==> r == Err::<
                u64,
                MarketError,
            >(MarketError::InvalidAddress) && *final(self) == *old(self),
            registered(old(self).collections@, collection_id@) && seller_valid ==> {
                let i = index_of(old(self).collections@, collection_id@);
                &&& rest_same(*old(self), *final(self), i)
                &&& Collection::list_outcome(
                    old(self).collections@[i],
                    final(self).collections@[i],
                    Offering { token_id, seller, list_price: price },
                    r,
                )
            },
    {
        let i = match self.find_collection(collection_id) {
            Some(i) => i,
            None => {
                return Err(MarketError::UnknownCollection);
            },
        };
        if !self.collections[i].registered {
            return Err(MarketError::UnknownCollection);
        }
        if !seller_valid {
            return Err(MarketError::InvalidAddress);
        }
        let mut c = self.take(i);
        let r = c.list(Offering { token_id, seller, list_price: price });
        let ghost cg = c;
        self.restore(i, c);
        proof {
            assert(self.collections@ =~= old(self).collections@.update(i as int, cg));
        }
        r
    }

    /// Buys offering `dense_id` of collection `collection_id` with the
    /// native coins `funds`; what counts as paid is the amount of the first
    /// coin in the listed denomination. Refused with `UnknownCollection`,
    /// `OfferingNotFound`, `PriceMismatch` or `Overflow`, changing nothing.
    pub fn buy_native(
        &mut self,
        collection_id: &String,
        dense_id: u64,
        funds: &Vec<Asset>,
        buyer: &String,
        time: u64,
    ) -> (r: Result<Settlement, MarketError>)
        requires
            old(self).wf(),
        ensures
            final(self).wf(),
            !registered(old(self).collections@, collection_id@) ==> r == Err::<
                Settlement,
                MarketError,
            >(MarketError::UnknownCollection) && *final(self) == *old(self),
            registered(old(self).collections@, collection_id@) ==> {
                let i = index_of(old(self).collections@, collection_id@);
                let pre = old(self).collections@[i];
                match lookup(pre.offerings.entries@, dense_id) {
                    None => r == Err::<Settlement, MarketError>(MarketError::OfferingNotFound)
                        && *final(self) == *old(self),
                    Some(o) => {
                        &&& rest_same(*old(self), *final(self), i)
                        &&& Collection::buy_outcome(
                            pre,
                            final(self).collections@[i],
                            dense_id,
                            Asset {
                                denom: o.list_price.denom,
                                amount: paid_in(funds@, o.list_price.denom@),
                            },
                            *buyer,
                            Rail::Native,
                            time,
                            r,
                        )
                    },
                }
            },
    {
        let i = match self.find_collection(collection_id) {
            Some(i) => i,
            None => {
                return Err(MarketError::UnknownCollection);
            },
        };
        if !self.collections[i].registered {
            return Err(MarketError::UnknownCollection);
        }
        assert(self.collections@[i as int].wf());
        let o = match self.collections[i].offerings.load(dense_id) {
            Some(o) => o,
            None => {
                return Err(MarketError::OfferingNotFound);
            },
        };
        let amount = paid_amount(funds, &o.list_price.denom);
        let payment = Asset { denom: o.list_price.denom.clone(), amount };
        let mut c = self.take(i);
        let r = c.buy(dense_id, &payment, buyer, Rail::Native, time);
        let ghost cg = c;
        self.restore(i, c);
        proof {
            assert(self.collections@ =~= old(self).collections@.update(i as int, cg));
        }
        r
    }

    /// Buys offering `dense_id` of collection `collection_id` with `amount`
    /// of the fungible token that contract `token_contract` pays in. Refused
    /// with `UnknownTokenRail` for an unregistered contract, then as
    /// `buy_native` is, changing nothing.
    pub fn buy_with_token(
        &mut self,
        token_contract: &String,
        collection_id: &String,
        dense_id: u64,
        amount: u128,
        buyer: &String,
        time: u64,
    ) -> (r: Result<Settlement, MarketError>)
        requires
            old(self).wf(),
        ensures
            final(self).wf(),
            old(self).rails.value(token_contract@) is None ==> r == Err::<
                Settlement,
                MarketError,
            >(MarketError::UnknownTokenRail) && *final(self) == *old(self),
            old(self).rails.value(token_contract@) is Some && !registered(
                old(self).collections@,
                collection_id@,
            ) ==> r == Err::<Settlement, MarketError>(MarketError::UnknownCollection)
                && *final(self) == *old(self),
            registered(old(self).collections@, collection_id@) ==> match old(self).rails.value(
                token_contract@,
            ) {
                None => true,
                Some(symbol) => {
                    let i = index_of(old(self).collections@, collection_id@);
                    &&& rest_same(*old(self), *final(self), i)
                    &&& Collection::buy_outcome(
                        old(self).collections@[i],
                        final(self).collections@[i],
                        dense_id,
                        Asset { denom: symbol, amount },
                        *buyer,
                        Rail::Token,
                        time,
                        r,
                    )
                },
            },
    {
        let symbol = match self.rails.find(token_contract) {
            Some(j) => self.rails.entries[j].1.clone(),
            None => {
                return Err(MarketError::UnknownTokenRail);
            },
        };
        let i = match self.find_collection(collection_id) {
            Some(i) => i,
            None => {
                return Err(MarketError::UnknownCollection);
            },
        };
        if !self.collections[i].registered {
            return Err(MarketError::UnknownCollection);
        }
        let payment = Asset { denom: symbol, amount };
        let mut c = self.take(i);
        let r = c.buy(dense_id, &payment, buyer, Rail::Token, time);
        let ghost cg = c;
        self.restore(i, c);
        proof {
            assert(self.collections@ =~= old(self).collections@.update(i as int, cg));
        }
        r
    }

    /// Takes offering `dense_id` of collection `collection_id` off the
    /// market for its seller `caller` and returns it, the token to go back
    /// to the seller.
    pub fn withdraw(&mut self, collection_id: &String, dense_id: u64, caller: &String) -> (r:
        Result<Offering, MarketError>)
        requires
            old(self).wf(),
        ensures
            final(self).wf(),
            !registered(old(self).collections@, collection_id@) ==> r == Err::<
                Offering,
                MarketError,
            >(MarketError::UnknownCollection) && *final(self) == *old(self),
            registered(old(self).collections@, collection_id@) ==> {
                let i = index_of(old(self).collections@, collection_id@);
                &&& rest_same(*old(self), *final(self), i)
                &&& Collection::withdraw_outcome(
                    old(self).collections@[i],
                    final(self).collections@[i],
                    dense_id,
                    *caller,
                    r,
                )
            },
    {
        let i = match self.find_collection(collection_id) {
            Some(i) => i,
            None => {
                return Err(MarketError::UnknownCollection);
            },
        };
        if !self.collections[i].registered {
            return Err(MarketError::UnknownCollection);
        }
        let mut c = self.take(i);
        let r = c.withdraw(dense_id, caller);
        let ghost cg = c;
        self.restore(i, c);
        proof {
            assert(self.collections@ =~= old(self).collections@.update(i as int, cg));
        }
        r
    }
    /// Writes the amounts of `tvls` over the value locked of collection
    /// `collection_id`, a later entry for a denomination winning over an
    /// earlier one. For the administrator only, whether or not the
    /// collection is registered; no other check is made.
    pub fn set_tvl(&mut self, caller: &String, collection_id: &String, tvls: &Vec<TvlInfo>) -> (r:
        Result<(), MarketError>)
        requires
            old(self).wf(),
        ensures
            final(self).wf(),
            caller@ != old(self).owner@ ==> r == Err::<(), MarketError>(MarketError::Unauthorized)
                && *final(self) == *old(self),
            caller@ == old(self).owner@ ==> r == Ok::<(), MarketError>(()),
            caller@ == old(self).owner@ && present(old(self).collections@, collection_id@) ==> {
                let i = index_of(old(self).collections@, collection_id@);
                &&& rest_same(*old(self), *final(self), i)
                &&& tvl_loaded(old(self).collections@[i], final(self).collections@[i], tvls@)
            },
            caller@ == old(self).owner@ && !present(old(self).collections@, collection_id@) ==> {
                let n = old(self).collections@.len() as int;
                &&& appended(*old(self), *final(self))
                &&& exists|b: Collection| #[trigger] b.blank(collection_id@) && tvl_loaded(
                    b,
                    final(self).collections@[n],
                    tvls@,
                )
            },
    {
        self.check_owner(caller)?;
        let (i, mut c) = self.take_or_empty(collection_id);
        let ghost c0 = c;
        let mut k: usize = 0;
        assert(tvls@.take(0) =~= Seq::<TvlInfo>::empty());
        while k < tvls.len()
            invariant
                k <= tvls@.len(),
                c.wf(),
                tvl_loaded(c0, c, tvls@.take(k as int)),
            decreases tvls@.len() - k,
        {
            assert(tvls@.take(k as int + 1).drop_last() =~= tvls@.take(k as int));
            assert(tvls@.take(k as int + 1).last() == tvls@[k as int]);
            c.tvl.put(tvls[k].denom.clone(), tvls[k].amount);
            k = k + 1;
        }
        assert(tvls@.take(k as int) =~= tvls@);
        let ghost cg = c;
        self.restore(i, c);
        proof {
            if present(old(self).collections@, collection_id@) {
                assert(self.collections@ =~= old(self).collections@.update(i as int, cg));
            } else {
                assert(self.collections@ =~= old(self).collections@.push(cg));
            }
        }
        Ok(())
    }

    /// Writes the offerings of `offerings` into the store of collection
    /// `collection_id` under their ids, leaving the slot counter as it is.
    /// For the administrator only, whether or not the
    /// collection is registered; no other check is made.
    pub fn set_offerings(
        &mut self,
        caller: &String,
        collection_id: &String,
        offerings: &Vec<(u64, Offering)>,
    ) -> (r: Result<(), MarketError>)
        requires
            old(self).wf(),
        ensures
            final(self).wf(),
            caller@ != old(self).owner@ ==> r == Err::<(), MarketError>(MarketError::Unauthorized)
                && *final(self) == *old(self),
            caller@ == old(self).owner@ ==> r == Ok::<(), MarketError>(()),
            caller@ == old(self).owner@ && present(old(self).collections@, collection_id@) ==> {
                let i = index_of(old(self).collections@, collection_id@);
                &&& rest_same(*old(self), *final(self), i)
                &&& offerings_loaded(
                    old(self).collections@[i],
                    final(self).collections@[i],
                    offerings@,
                )
            },
            caller@ == old(self).owner@ && !present(old(self).collections@, collection_id@) ==> {
                let n = old(self).collections@.len() as int;
                &&& appended(*old(self), *final(self))
                &&& exists|b: Collection| #[trigger] b.blank(collection_id@) && offerings_loaded(
                    b,
                    final(self).collections@[n],
                    offerings@,
                )
            },
    {
        self.check_owner(caller)?;
        let (i, mut c) = self.take_or_empty(collection_id);
        let ghost c0 = c;
        let mut k: usize = 0;
        assert(offerings@.take(0) =~= Seq::<(u64, Offering)>::empty());
        while k < offerings.len()
            invariant
                k <= offerings@.len(),
                c.wf(),
                offerings_loaded(c0, c, offerings@.take(k as int)),
            decreases offerings@.len() - k,
        {
            assert(offerings@.take(k as int + 1).drop_last() =~= offerings@.take(k as int));
            assert(offerings@.take(k as int + 1).last() == offerings@[k as int]);
            c.offerings.set(offerings[k].0, offerings[k].1.duplicate());
            k = k + 1;
        }
        assert(offerings@.take(k as int) =~= offerings@);
        let ghost cg = c;
        self.restore(i, c);
        proof {
            if present(old(self).collections@, collection_id@) {
                assert(self.collections@ =~= old(self).collections@.update(i as int, cg));
            } else {
                assert(self.collections@ =~= old(self).collections@.push(cg));
            }
        }
        Ok(())
    }

    /// Writes `records` into the sale history of collection `collection_id`
    /// under sale numbers `1, 2, ...` in order. For the administrator only;
    /// no other check is made.
    pub fn set_history(
        &mut self,
        caller: &String,
        collection_id: &String,
        records: &Vec<SaleRecord>,
    ) -> (r: Result<(), MarketError>)
        requires
            old(self).wf(),
        ensures
            final(self).wf(),
            caller@ != old(self).owner@ ==> r == Err::<(), MarketError>(MarketError::Unauthorized)
                && *final(self) == *old(self),
            caller@ == old(self).owner@ ==> r == Ok::<(), MarketError>(()),
            caller@ == old(self).owner@ && present(old(self).collections@, collection_id@) ==> {
                let i = index_of(old(self).collections@, collection_id@);
                &&& rest_same(*old(self), *final(self), i)
                &&& history_loaded(old(self).collections@[i], final(self).collections@[i], records@)
            },
            caller@ == old(self).owner@ && !present(old(self).collections@, collection_id@) ==> {
                let n = old(self).collections@.len() as int;
                &&& appended(*old(self), *final(self))
                &&& exists|b: Collection| #[trigger] b.blank(collection_id@) && history_loaded(
                    b,
                    final(self).collections@[n],
                    records@,
                )
            },
    {
        self.check_owner(caller)?;
        let (i, mut c) = self.take_or_empty(collection_id);
        let ghost c0 = c;
        let mut k: usize = 0;
        while k < records.len()
            invariant
                k <= records@.len(),
                c.wf(),
                history_loaded(c0, c, records@.take(k as int)),
            decreases records@.len() - k,
        {
            let n: u64 = (k + 1) as u64;
            c.history.put(n, records[k].duplicate());
            k = k + 1;
            assert forall|j: u64| #[trigger]
                c.history.value(j) == if 1 <= j <= records@.take(k as int).len() {
                    Some(records@.take(k as int)[j - 1])
                } else {
                    c0.history.value(j)
                } by {
                if 1 <= j < k {
                    assert(records@.take(k as int)[j - 1] == records@.take(k as int - 1)[j - 1]);
                }
            }
        }
        assert(records@.take(k as int) =~= records@);
        let ghost cg = c;
        self.restore(i, c);
        proof {
            if present(old(self).collections@, collection_id@) {
                assert(self.collections@ =~= old(self).collections@.update(i as int, cg));
            } else {
                assert(self.collections@ =~= old(self).collections@.push(cg));
            }
        }
        Ok(())
    }
    /// The transfer that hands a stuck token `token_id` of a contract to the
    /// administrator `caller`. Refused with `InvalidAddress` for a malformed
    /// contract address, then with `Unauthorized` for anyone else.
    pub fn fix_nft(&self, caller: &String, token_id: String, address_valid: bool) -> (r: Result<
        NftTransfer,
        MarketError,
    >)
        ensures
            !address_valid ==> r == Err::<NftTransfer, MarketError>(MarketError::InvalidAddress),
            address_valid && caller@ != self.owner@ ==> r == Err::<NftTransfer, MarketError>(
                MarketError::Unauthorized,
            ),
            address_valid && caller@ == self.owner@ ==> r == Ok::<NftTransfer, MarketError>(
                NftTransfer { recipient: *caller, token_id },
            ),
    {
        if !address_valid {
            return Err(MarketError::InvalidAddress);
        }
        self.check_owner(caller)?;
        Ok(NftTransfer { recipient: caller.clone(), token_id })
    }

    /// The transfers that move tokens `token_ids` of a contract to `dest`,
    /// one per token in order. Refused with `InvalidAddress` for a malformed
    /// address, then with `Unauthorized` for anyone but the administrator.
    pub fn migrate_tokens(
        &self,
        caller: &String,
        dest: &String,
        token_ids: &Vec<String>,
        addresses_valid: bool,
    ) -> (r: Result<Vec<NftTransfer>, MarketError>)
        ensures
            !addresses_valid ==> r == Err::<Vec<NftTransfer>, MarketError>(
                MarketError::InvalidAddress,
            ),
            addresses_valid && caller@ != self.owner@ ==> r == Err::<Vec<NftTransfer>, MarketError>(
                MarketError::Unauthorized,
            ),
            addresses_valid && caller@ == self.owner@ ==> r is Ok && r->Ok_0@.len()
                == token_ids@.len() && forall|k: int|
                0 <= k < token_ids@.len() ==> #[trigger] r->Ok_0@[k] == (NftTransfer {
                    recipient: *dest,
                    token_id: token_ids@[k],
                }),
    {
        if !addresses_valid {
            return Err(MarketError::InvalidAddress);
        }
        self.check_owner(caller)?;
        let mut r: Vec<NftTransfer> = Vec::new();
        let mut k: usize = 0;
        while k < token_ids.len()
            invariant
                k <= token_ids@.len(),
                r@.len() == k,
                forall|j: int|
                    0 <= j < k ==> #[trigger] r@[j] == (NftTransfer {
                        recipient: *dest,
                        token_id: token_ids@[j],
                    }),
            decreases token_ids@.len() - k,
        {
            r.push(NftTransfer { recipient: dest.clone(), token_id: token_ids[k].clone() });
            k = k + 1;
        }
        Ok(r)
    }
}

/// Every registered collection's payee portions sum to one exactly.
pub proof fn lemma_registered_portions_sum_to_one(m: Market, i: int)
    requires
        m.wf(),
        0 <= i < m.collections@.len(),
        m.collections@[i].registered,
    ensures
        portion_sum(m.collections@[i].payees@) == ONE_ATOMICS as int,
{
    assert(m.collections@[i].wf());
}

} // verus!
