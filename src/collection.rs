//! One collection's configuration, offerings and trading statistics, and the
//! listing, settlement and withdrawal that change them.

use vstd::prelude::*;
use crate::keyed::{IdMap, NameMap};
use crate::offerings::{Asset, Offering, OfferingStore, lookup};
use crate::portion::{
    Payee, Portion, payee_share, payees_complete, seller_share, split_payment, shares_total,
    lemma_split_conserves, ONE_ATOMICS, ONE_SQUARED,
};

verus! {

/// Why a request was refused.
#[derive(Clone, Copy, Debug, PartialEq, Eq, Structural)]
pub enum MarketError {
    Unauthorized,
    UnknownCollection,
    UnknownTokenRail,
    OfferingNotFound,
    PriceMismatch,
    PortionSum,
    PortionRange,
    InvalidAddress,
    Overflow,
}

/// How a payment arrived: in the chain's native currency, or through a
/// registered fungible-token contract.
#[derive(Clone, Copy, Debug, PartialEq, Eq, Structural)]
pub enum Rail {
    Native,
    Token,
}

/// One completed sale.
#[derive(Clone, Debug, PartialEq, Eq)]
pub struct SaleRecord {
    pub from: String,
    pub to: String,
    pub denom: String,
    pub amount: u128,
    pub time: u64,
    pub collection_id: String,
    pub token_id: String,
}

impl SaleRecord {
    pub fn duplicate(&self) -> (r: SaleRecord)
        ensures
            r == *self,
    {
        SaleRecord {
            from: self.from.clone(),
            to: self.to.clone(),
            denom: self.denom.clone(),
            amount: self.amount,
            time: self.time,
            collection_id: self.collection_id.clone(),
            token_id: self.token_id.clone(),
        }
    }
}

/// Running volume of a collection, by rail.
#[derive(Clone, Copy, Debug, PartialEq, Eq, Structural)]
pub struct TradingTotals {
    pub total_native: u128,
    pub total_token: u128,
}

pub open spec fn rail_total(t: TradingTotals, rail: Rail) -> int {
    match rail {
        Rail::Native => t.total_native as int,
        Rail::Token => t.total_token as int,
    }
}

pub open spec fn add_volume(t: TradingTotals, rail: Rail, amount: u128) -> TradingTotals {
    match rail {
        Rail::Native => TradingTotals {
            total_native: (t.total_native + amount) as u128,
            total_token: t.total_token,
        },
        Rail::Token => TradingTotals {
            total_native: t.total_native,
            total_token: (t.total_token + amount) as u128,
        },
    }
}

/// A request to pay `amount` to `recipient`.
#[derive(Clone, Debug, PartialEq, Eq)]
pub struct Transfer {
    pub recipient: String,
    pub amount: u128,
}

/// The transfers that a sale asks for: the token to the buyer, the seller's
/// share, and each payee's positive share, all in the payment's denomination
/// and over the payment's rail.
#[derive(Clone, Debug, PartialEq, Eq)]
pub struct Settlement {
    pub buyer: String,
    pub token_id: String,
    pub denom: String,
    pub rail: Rail,
    pub seller: Transfer,
    pub payees: Vec<Transfer>,
}

/// The payees' transfers of a sale at `amount`: one per payee whose share is
/// positive, in the payees' order.
pub open spec fn payee_transfers(amount: int, royalty: int, ps: Seq<Payee>) -> Seq<Transfer>
    decreases ps.len(),
{
    if ps.len() == 0 {
        Seq::empty()
    } else {
        let front = payee_transfers(amount, royalty, ps.drop_last());
        let share = payee_share(amount, royalty, ps.last().portion.atomics as int);
        if share > 0 {
            front.push(Transfer { recipient: ps.last().address, amount: share as u128 })
        } else {
            front
        }
    }
}

pub open spec fn transfers_total(ts: Seq<Transfer>) -> int
    decreases ts.len(),
{
    if ts.len() == 0 {
        0
    } else {
        transfers_total(ts.drop_last()) + ts.last().amount
    }
}

/// The payees' transfers carry exactly the payees' shares.
proof fn lemma_payee_transfers_total(amount: int, royalty: int, ps: Seq<Payee>)
    requires
        0 <= amount <= u128::MAX as int,
        0 <= royalty <= ONE_ATOMICS as int,
        crate::portion::payees_wf(ps),
    ensures
        transfers_total(payee_transfers(amount, royalty, ps)) == shares_total(amount, royalty, ps),
    decreases ps.len(),
{
    if ps.len() > 0 {
        let init = ps.drop_last();
        assert(crate::portion::payees_wf(init)) by {
            assert forall|i: int| 0 <= i < init.len() implies (#[trigger] init[i]).portion.wf() by {
                assert(init[i] == ps[i]);
            }
        }
        lemma_payee_transfers_total(amount, royalty, init);
        let front = payee_transfers(amount, royalty, init);
        let share = payee_share(amount, royalty, ps.last().portion.atomics as int);
        assert(ps.last() == ps[ps.len() - 1]);
        let p = ps.last().portion.atomics as int;
        assert(0 <= royalty * p <= ONE_SQUARED as int) by (nonlinear_arith)
            requires
                0 <= royalty <= ONE_ATOMICS as int,
                0 <= p <= ONE_ATOMICS as int,
        ;
        crate::portion::lemma_ratio_le(amount, royalty * p, ONE_SQUARED as int);
        if share > 0 {
            let t = front.push(Transfer { recipient: ps.last().address, amount: share as u128 });
            assert(t.drop_last() =~= front);
        }
    }
}

/// A settlement never pays out more than the payment: the seller's transfer
/// and all the payees' transfers together stay within the paid amount.
pub proof fn lemma_settlement_conserves(amount: u128, royalty: Portion, payees: Seq<Payee>)
    requires
        royalty.wf(),
        payees_complete(payees),
    ensures
        seller_share(amount as int, royalty.atomics as int) + transfers_total(
            payee_transfers(amount as int, royalty.atomics as int, payees),
        ) <= amount as int,
{
    lemma_payee_transfers_total(amount as int, royalty.atomics as int, payees);
    lemma_split_conserves(amount, royalty, payees);
}

/// What the marketplace holds under one collection address. Its offerings,
/// value locked and history may be loaded before the collection is
/// registered; the royalty configuration counts only once it is.
#[derive(Debug)]
pub struct Collection {
    pub id: String,
    pub registered: bool,
    pub royalty: Portion,
    pub payees: Vec<Payee>,
    pub offerings: OfferingStore,
    pub sale_counter: u64,
    pub totals: TradingTotals,
    pub tvl: NameMap<u128>,
    pub history: IdMap<SaleRecord>,
}

impl Collection {
    pub open spec fn wf(&self) -> bool {
        &&& self.registered ==> self.royalty.wf() && payees_complete(self.payees@)
        &&& self.offerings.wf()
        &&& self.tvl.wf()
        &&& self.history.wf()
    }

    /// Value locked in denomination `d`; zero where none was recorded.
    pub open spec fn tvl_amount(&self, d: Seq<char>) -> u128 {
        match self.tvl.value(d) {
            Some(a) => a,
            None => 0,
        }
    }

    /// Why buying offering `dense_id` with `payment` over `rail` fails, if it
    /// does.
    pub open spec fn buy_error(&self, dense_id: u64, payment: Asset, rail: Rail) -> Option<
        MarketError,
    > {
        match lookup(self.offerings.entries@, dense_id) {
            None => Some(MarketError::OfferingNotFound),
            Some(o) => if payment.denom@ != o.list_price.denom@ || payment.amount
                != o.list_price.amount {
                Some(MarketError::PriceMismatch)
            } else if self.sale_counter == u64::MAX || self.tvl_amount(payment.denom@)
                + payment.amount > u128::MAX || rail_total(self.totals, rail) + payment.amount
                > u128::MAX {
                Some(MarketError::Overflow)
            } else {
                None
            },
        }
    }

    /// What a successful purchase of offering `o` under `dense_id` makes of
    /// `pre`.
    pub open spec fn bought(
        pre: Collection,
        post: Collection,
        dense_id: u64,
        o: Offering,
        payment: Asset,
        buyer: String,
        rail: Rail,
        time: u64,
    ) -> bool {
        &&& post.id == pre.id
        &&& post.royalty == pre.royalty
        &&& post.payees == pre.payees
        &&& post.registered == pre.registered
        &&& OfferingStore::compacted(pre.offerings, post.offerings, dense_id)
        &&& pre.offerings.dense() ==> post.offerings.dense()
        &&& post.sale_counter == pre.sale_counter + 1
        &&& forall|k: u64|
            #[trigger] post.history.value(k) == if k == post.sale_counter {
                Some(
                    SaleRecord {
                        from: o.seller,
                        to: buyer,
                        denom: payment.denom,
                        amount: payment.amount,
                        time,
                        collection_id: pre.id,
                        token_id: o.token_id,
                    },
                )
            } else {
                pre.history.value(k)
            }
        &&& forall|d: Seq<char>|
            #[trigger] post.tvl.value(d) == if d == payment.denom@ {
                Some((pre.tvl_amount(d) + payment.amount) as u128)
            } else {
                pre.tvl.value(d)
            }
        &&& post.totals == add_volume(pre.totals, rail, payment.amount)
    }

    /// The transfers that the purchase of `o` with `payment` asks for.
    pub open spec fn settlement_of(
        &self,
        o: Offering,
        payment: Asset,
        buyer: String,
        rail: Rail,
        s: Settlement,
    ) -> bool {
        &&& s.buyer == buyer
        &&& s.token_id == o.token_id
        &&& s.denom == payment.denom
        &&& s.rail == rail
        &&& s.seller == Transfer {
            recipient: o.seller,
            amount: seller_share(payment.amount as int, self.royalty.atomics as int) as u128,
        }
        &&& s.payees@ == payee_transfers(
            payment.amount as int,
            self.royalty.atomics as int,
            self.payees@,
        )
    }

    /// A new collection with no offerings, sales or statistics.
    pub fn new(
        id: String,
        royalty: Portion,
        payees: Vec<Payee>,
        next_slot: u64,
        sale_counter: u64,
    ) -> (r: Collection)
        requires
            royalty.wf(),
            payees_complete(payees@),
        ensures
            r.wf(),
            r.id == id,
            r.registered,
            r.royalty == royalty,
            r.payees == payees,
            r.offerings.next_slot == next_slot,
            r.offerings.entries@.len() == 0,
            r.sale_counter == sale_counter,
            r.totals == (TradingTotals { total_native: 0, total_token: 0 }),
            forall|d: Seq<char>| #[trigger] r.tvl.value(d) is None,
            forall|k: u64| #[trigger] r.history.value(k) is None,
    {
        Collection {
            id,
            registered: true,
            royalty,
            payees,
            offerings: OfferingStore::new(next_slot),
            sale_counter,
            totals: TradingTotals { total_native: 0, total_token: 0 },
            tvl: NameMap::new(),
            history: IdMap::new(),
        }
    }

    /// Nothing held under `id` yet: no configuration, offerings, sales or
    /// statistics.
    pub open spec fn blank(&self, id: Seq<char>) -> bool {
        &&& self.id@ == id
        &&& !self.registered
        &&& self.royalty.atomics == 0
        &&& self.payees@.len() == 0
        &&& self.offerings.next_slot == 0
        &&& self.offerings.entries@.len() == 0
        &&& self.sale_counter == 0
        &&& self.totals == TradingTotals { total_native: 0, total_token: 0 }
        &&& forall|d: Seq<char>| #[trigger] self.tvl.value(d) is None
        &&& forall|k: u64| #[trigger] self.history.value(k) is None
    }

    pub fn empty(id: String) -> (r: Collection)
        ensures
            r.wf(),
            r.blank(id@),
            r.id == id,
    {
        Collection {
            id,
            registered: false,
            royalty: Portion::zero(),
            payees: Vec::new(),
            offerings: OfferingStore::new(0),
            sale_counter: 0,
            totals: TradingTotals { total_native: 0, total_token: 0 },
            tvl: NameMap::new(),
            history: IdMap::new(),
        }
    }

    /// Whether `wf` holds: sorted offering ids, unique keys, and for a
    /// registered collection a royalty of at most one and payee portions
    /// summing to one.
    pub fn check(&self) -> (r: bool)
        ensures
            r ==> self.wf(),
    {
        if !self.offerings.check_sorted() || !self.tvl.check_unique()
            || !self.history.check_unique() {
            return false;
        }
        if self.registered {
            if self.royalty.atomics > ONE_ATOMICS {
                return false;
            }
            match crate::portion::sum_portions(&self.payees) {
                Some(total) => {
                    if total != ONE_ATOMICS {
                        return false;
                    }
                    proof {
                        crate::portion::lemma_sum_one_complete(self.payees@);
                    }
                },
                None => {
                    return false;
                },
            }
        }
        true
    }

    /// Value locked in `denom`; zero where none was recorded.
    pub fn get_tvl(&self, denom: &String) -> (r: u128)
        requires
            self.wf(),
        ensures
            r == self.tvl_amount(denom@),
    {
        match self.tvl.find(denom) {
            Some(i) => self.tvl.entries[i].1,
            None => 0,
        }
    }

    /// Everything but the offering store is as in `other`.
    pub open spec fn same_but_offerings(&self, other: Collection) -> bool {
        &&& self.id == other.id
        &&& self.registered == other.registered
        &&& self.royalty == other.royalty
        &&& self.payees == other.payees
        &&& self.sale_counter == other.sale_counter
        &&& self.totals == other.totals
        &&& self.tvl == other.tvl
        &&& self.history == other.history
    }

    /// What `list` does.
    pub open spec fn list_outcome(
        pre: Collection,
        post: Collection,
        o: Offering,
        r: Result<u64, MarketError>,
    ) -> bool {
        &&& post.same_but_offerings(pre)
        &&& if pre.offerings.next_slot == u64::MAX {
            r == Err::<u64, MarketError>(MarketError::Overflow) && post == pre
        } else {
            let id = (pre.offerings.next_slot + 1) as u64;
            &&& r == Ok::<u64, MarketError>(id)
            &&& post.offerings.next_slot == id
            &&& forall|k: u64|
                #[trigger] lookup(post.offerings.entries@, k) == if k == id {
                    Some(o)
                } else {
                    lookup(pre.offerings.entries@, k)
                }
        }
        &&& pre.offerings.dense() ==> post.offerings.dense()
    }

    /// Lists `o` in the next slot and returns its id; fails with `Overflow`,
    /// changing nothing, where the slot counter is at its largest value.
    pub fn list(&mut self, o: Offering) -> (r: Result<u64, MarketError>)
        requires
            old(self).wf(),
        ensures
            final(self).wf(),
            Collection::list_outcome(*old(self), *final(self), o, r),
    {
        match self.offerings.insert(o) {
            Some(id) => Ok(id),
            None => Err(MarketError::Overflow),
        }
    }

    /// What `withdraw` does.
    pub open spec fn withdraw_outcome(
        pre: Collection,
        post: Collection,
        dense_id: u64,
        caller: String,
        r: Result<Offering, MarketError>,
    ) -> bool {
        &&& post.same_but_offerings(pre)
        &&& match lookup(pre.offerings.entries@, dense_id) {
            None => r == Err::<Offering, MarketError>(MarketError::OfferingNotFound) && post == pre,
            Some(o) => if o.seller@ == caller@ {
                &&& r == Ok::<Offering, MarketError>(o)
                &&& OfferingStore::compacted(pre.offerings, post.offerings, dense_id)
            } else {
                r == Err::<Offering, MarketError>(MarketError::Unauthorized) && post == pre
            },
        }
        &&& pre.offerings.dense() ==> post.offerings.dense()
    }

    /// Takes offering `dense_id` off the market for its seller, by compacting
    /// delete, and returns it; fails with `OfferingNotFound` where there is
    /// none and with `Unauthorized` where `caller` is not its seller, changing
    /// nothing.
    pub fn withdraw(&mut self, dense_id: u64, caller: &String) -> (r: Result<
        Offering,
        MarketError,
    >)
        requires
            old(self).wf(),
        ensures
            final(self).wf(),
            Collection::withdraw_outcome(*old(self), *final(self), dense_id, *caller, r),
    {
        let o = match self.offerings.load(dense_id) {
            Some(o) => o,
            None => {
                return Err(MarketError::OfferingNotFound);
            },
        };
        if o.seller != *caller {
            return Err(MarketError::Unauthorized);
        }
        proof {
            if old(self).offerings.dense() {
                assert(1 <= dense_id <= old(self).offerings.next_slot) by {
                    let i = choose|i: int|
                        0 <= i < old(self).offerings.entries@.len()
                            && old(self).offerings.entries@[i].0 == dense_id;
                    assert(old(self).offerings.entries@[i].0 == i + 1);
                }
            }
        }
        self.offerings.remove(dense_id);
        Ok(o)
    }

    /// What `buy` does: on a refusal, the refusal and no change; otherwise
    /// the purchase and its settlement.
    pub open spec fn buy_outcome(
        pre: Collection,
        post: Collection,
        dense_id: u64,
        payment: Asset,
        buyer: String,
        rail: Rail,
        time: u64,
        r: Result<Settlement, MarketError>,
    ) -> bool {
        match pre.buy_error(dense_id, payment, rail) {
            Some(e) => r == Err::<Settlement, MarketError>(e) && post == pre,
            None => {
                let o = lookup(pre.offerings.entries@, dense_id)->0;
                &&& r is Ok
                &&& Collection::bought(pre, post, dense_id, o, payment, buyer, rail, time)
                &&& pre.settlement_of(o, payment, buyer, rail, r->Ok_0)
            },
        }
    }

    /// Buys offering `dense_id` with `payment`. On success the offering
    /// leaves the store by compacting delete, the sale is recorded under the
    /// next sale number, value locked and trading volume grow by the amount,
    /// and the transfers of the split are returned. On failure nothing
    /// changes.
    pub fn buy(
        &mut self,
        dense_id: u64,
        payment: &Asset,
        buyer: &String,
        rail: Rail,
        time: u64,
    ) -> (r: Result<Settlement, MarketError>)
        requires
            old(self).wf(),
            old(self).registered,
        ensures
            final(self).wf(),
            Collection::buy_outcome(
                *old(self),
                *final(self),
                dense_id,
                *payment,
                *buyer,
                rail,
                time,
                r,
            ),
    {
        let o = match self.offerings.load(dense_id) {
            Some(o) => o,
            None => {
                return Err(MarketError::OfferingNotFound);
            },
        };
        if payment.denom != o.list_price.denom || payment.amount != o.list_price.amount {
            return Err(MarketError::PriceMismatch);
        }
        if self.sale_counter == u64::MAX {
            return Err(MarketError::Overflow);
        }
        let locked = self.get_tvl(&payment.denom);
        if locked > u128::MAX - payment.amount {
            return Err(MarketError::Overflow);
        }
        let volume = match rail {
            Rail::Native => self.totals.total_native,
            Rail::Token => self.totals.total_token,
        };
        if volume > u128::MAX - payment.amount {
            return Err(MarketError::Overflow);
        }
        proof {
            assert(crate::portion::payees_wf(self.payees@));
            if old(self).offerings.dense() {
                assert(1 <= dense_id <= old(self).offerings.next_slot) by {
                    let i = choose|i: int|
                        0 <= i < old(self).offerings.entries@.len()
                            && old(self).offerings.entries@[i].0 == dense_id;
                    assert(old(self).offerings.entries@[i].0 == i + 1);
                }
            }
        }
        self.offerings.remove(dense_id);
        let (seller_amount, shares) = split_payment(payment.amount, self.royalty, &self.payees);
        let mut transfers: Vec<Transfer> = Vec::new();
        let mut i: usize = 0;
        while i < self.payees.len()
            invariant
                i <= self.payees@.len(),
                shares@.len() == self.payees@.len(),
                forall|j: int|
                    0 <= j < self.payees@.len() ==> #[trigger] shares@[j] as int == payee_share(
                        payment.amount as int,
                        self.royalty.atomics as int,
                        self.payees@[j].portion.atomics as int,
                    ),
                transfers@ == payee_transfers(
                    payment.amount as int,
                    self.royalty.atomics as int,
                    self.payees@.take(i as int),
                ),
            decreases self.payees@.len() - i,
        {
            assert(self.payees@.take(i as int + 1).drop_last() =~= self.payees@.take(i as int));
            assert(self.payees@.take(i as int + 1).last() == self.payees@[i as int]);
            let share = shares[i];
            if share > 0 {
                transfers.push(Transfer { recipient: self.payees[i].address.clone(), amount: share });
            }
            i = i + 1;
        }
        assert(self.payees@.take(i as int) =~= self.payees@);
        let sale_id = self.sale_counter + 1;
        let record = SaleRecord {
            from: o.seller.clone(),
            to: buyer.clone(),
            denom: payment.denom.clone(),
            amount: payment.amount,
            time,
            collection_id: self.id.clone(),
            token_id: o.token_id.clone(),
        };
        self.history.put(sale_id, record);
        self.sale_counter = sale_id;
        self.tvl.put(payment.denom.clone(), locked + payment.amount);
        self.totals = match rail {
            Rail::Native => TradingTotals {
                total_native: self.totals.total_native + payment.amount,
                total_token: self.totals.total_token,
            },
            Rail::Token => TradingTotals {
                total_native: self.totals.total_native,
                total_token: self.totals.total_token + payment.amount,
            },
        };
        Ok(
            Settlement {
                buyer: buyer.clone(),
                token_id: o.token_id,
                denom: payment.denom.clone(),
                rail,
                seller: Transfer { recipient: o.seller, amount: seller_amount },
                payees: transfers,
            },
        )
    }
}

/// The transfers of a settlement never add up to more than the payment: the
/// seller's transfer and all the payees' transfers stay within the paid
/// amount, whatever rounding leaves unassigned.
pub proof fn lemma_settlement_within_payment(
    c: Collection,
    o: Offering,
    payment: Asset,
    buyer: String,
    rail: Rail,
    s: Settlement,
)
    requires
        c.wf(),
        c.registered,
        c.settlement_of(o, payment, buyer, rail, s),
    ensures
        s.seller.amount + transfers_total(s.payees@) <= payment.amount,
{
    lemma_settlement_conserves(payment.amount, c.royalty, c.payees@);
    crate::portion::lemma_mul_floor_le(
        payment.amount as int,
        ONE_ATOMICS as int - c.royalty.atomics,
    );
}

/// Any successful purchase, on either rail, pays out at most what was paid:
/// the seller's transfer and the payees' transfers of its settlement stay
/// within the payment.
pub proof fn lemma_buy_conserves(
    pre: Collection,
    post: Collection,
    dense_id: u64,
    payment: Asset,
    buyer: String,
    rail: Rail,
    time: u64,
    r: Result<Settlement, MarketError>,
)
    requires
        pre.wf(),
        pre.registered,
        Collection::buy_outcome(pre, post, dense_id, payment, buyer, rail, time, r),
        r is Ok,
    ensures
        r->Ok_0.seller.amount + transfers_total(r->Ok_0.payees@) <= payment.amount,
{
    let o = lookup(pre.offerings.entries@, dense_id)->0;
    lemma_settlement_within_payment(pre, o, payment, buyer, rail, r->Ok_0);
}

/// Value locked never goes down through a purchase, in any denomination.
pub proof fn lemma_buy_tvl_monotone(
    pre: Collection,
    post: Collection,
    dense_id: u64,
    o: Offering,
    payment: Asset,
    buyer: String,
    rail: Rail,
    time: u64,
)
    requires
        pre.buy_error(dense_id, payment, rail) is None,
        Collection::bought(pre, post, dense_id, o, payment, buyer, rail, time),
    ensures
        forall|d: Seq<char>| #[trigger] post.tvl_amount(d) >= pre.tvl_amount(d),
        post.tvl_amount(payment.denom@) == pre.tvl_amount(payment.denom@) + payment.amount,
{
    assert forall|d: Seq<char>| #[trigger] post.tvl_amount(d) >= pre.tvl_amount(d) by {
        assert(post.tvl.value(d) == if d == payment.denom@ {
            Some((pre.tvl_amount(d) + payment.amount) as u128)
        } else {
            pre.tvl.value(d)
        });
    }
    assert(post.tvl.value(payment.denom@) == Some(
        (pre.tvl_amount(payment.denom@) + payment.amount) as u128,
    ));
}

} // verus!
