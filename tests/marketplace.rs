use nftea_market::collection::{MarketError, Rail, SaleRecord, Settlement, Transfer};
use nftea_market::market::{instantiate, paid_amount, Market, NftTransfer, TvlInfo};
use nftea_market::offerings::{Asset, Offering};
use nftea_market::portion::{split_payment, sum_portions, Payee, Portion, ONE_ATOMICS};
use nftea_market::query::{
    query_all_tvl, query_collection_info, query_get_history, query_get_ids, query_get_members,
    query_get_offering, query_get_trading, query_get_tvl, query_state_info,
};

const BLOCK_TIME: u64 = 1571797419;

fn s(x: &str) -> String {
    x.to_string()
}

fn asset(denom: &str, amount: u128) -> Asset {
    Asset { denom: s(denom), amount }
}

fn offering(token_id: &str, seller: &str, denom: &str, amount: u128) -> Offering {
    Offering { token_id: s(token_id), seller: s(seller), list_price: asset(denom, amount) }
}

fn ratio(n: u128, d: u128) -> Portion {
    Portion::from_ratio(n, d).unwrap()
}

fn payees() -> Vec<Payee> {
    vec![
        Payee { address: s("admin1"), portion: ratio(3, 10) },
        Payee { address: s("admin2"), portion: ratio(7, 10) },
    ]
}

fn transfer(to: &str, amount: u128) -> Transfer {
    Transfer { recipient: s(to), amount }
}

/// A market administered by "owner" with collection "hope1_address" at a
/// five percent royalty split 3:7 between admin1 and admin2.
fn hope_market() -> Market {
    let mut m = instantiate(s("owner"));
    m.register_collection(&s("owner"), s("hope1_address"), ratio(5, 100), payees(), 0, 0, true, true)
        .unwrap();
    m
}

fn list(m: &mut Market, token: &str, seller: &str, denom: &str, amount: u128) -> u64 {
    m.list_offering(&s("hope1_address"), s(token), s(seller), asset(denom, amount), true).unwrap()
}

fn ids(m: &Market) -> Vec<u64> {
    query_get_ids(m, &s("hope1_address"))
}

#[test]
fn testing() {
    let mut m = instantiate(s("creator"));
    assert_eq!(query_state_info(&m), s("creator"));

    m.change_owner(&s("creator"), s("owner"), true).unwrap();
    assert_eq!(query_state_info(&m), s("owner"));

    m.add_token_rail(&s("owner"), s("hope"), s("token_address"), true).unwrap();
    m.add_token_rail(&s("owner"), s("raw"), s("raw_address"), true).unwrap();

    m.register_collection(&s("owner"), s("hope1_address"), ratio(5, 100), payees(), 0, 0, true, true)
        .unwrap();

    list(&mut m, "Hope.1", "owner1", "ujuno", 1000000);
    let info = query_collection_info(&m, &s("hope1_address")).unwrap();
    assert_eq!(info.nft_address, s("hope1_address"));
    assert_eq!(info.offering_id, 1);
    assert_eq!(info.royalty_portion, ratio(5, 100));
    assert_eq!(info.sale_id, 0);

    let offerings = query_get_offering(&m, &vec![1, 2], &s("hope1_address"));
    assert_eq!(offerings, vec![(1, offering("Hope.1", "owner1", "ujuno", 1000000))]);

    let settlement = m
        .buy_native(&s("hope1_address"), 1, &vec![asset("ujuno", 1000000)], &s("test_buyer1"), BLOCK_TIME)
        .unwrap();
    assert_eq!(1 + 1 + settlement.payees.len(), 4);
    assert_eq!(query_collection_info(&m, &s("hope1_address")).unwrap().offering_id, 0);
    assert_eq!(settlement.buyer, s("test_buyer1"));
    assert_eq!(settlement.token_id, s("Hope.1"));
    assert_eq!(settlement.denom, s("ujuno"));
    assert_eq!(settlement.rail, Rail::Native);
    assert_eq!(settlement.seller, transfer("owner1", 950000));
    assert_eq!(settlement.payees[0], transfer("admin1", 15000));
    assert_eq!(settlement.payees[1], transfer("admin2", 35000));
    let empty: Vec<u64> = vec![];
    assert_eq!(ids(&m), empty);

    list(&mut m, "Hope.1", "buyer1", "osmos", 2000000);
    list(&mut m, "Hope.2", "buyer2", "ujuno", 2000000);
    m.buy_native(&s("hope1_address"), 1, &vec![asset("osmos", 2000000)], &s("test_buyer2"), BLOCK_TIME)
        .unwrap();
    assert_eq!(query_collection_info(&m, &s("hope1_address")).unwrap().offering_id, 1);
    assert_eq!(ids(&m), vec![1]);

    list(&mut m, "Hope.3", "buyer3", "hope", 2000000);
    assert_eq!(ids(&m), vec![1, 2]);
    let offerings = query_get_offering(&m, &vec![1, 2], &s("hope1_address"));
    assert_eq!(
        offerings,
        vec![
            (1, offering("Hope.2", "buyer2", "ujuno", 2000000)),
            (2, offering("Hope.3", "buyer3", "hope", 2000000)),
        ]
    );

    let settlement = m
        .buy_with_token(&s("token_address"), &s("hope1_address"), 2, 2000000, &s("test_buyer3"), BLOCK_TIME)
        .unwrap();
    assert_eq!(settlement.rail, Rail::Token);
    assert_eq!(settlement.seller, transfer("buyer3", 1900000));
    assert_eq!(settlement.payees[0], transfer("admin1", 30000));
    assert_eq!(settlement.payees[1], transfer("admin2", 70000));

    let offerings = query_get_offering(&m, &vec![1, 2], &s("hope1_address"));
    assert_eq!(offerings, vec![(1, offering("Hope.2", "buyer2", "ujuno", 2000000))]);

    list(&mut m, "Hope.1", "owner1", "raw", 2000000);
    m.buy_with_token(&s("raw_address"), &s("hope1_address"), 2, 2000000, &s("test_buyer4"), BLOCK_TIME)
        .unwrap();
    assert_eq!(offerings, vec![(1, offering("Hope.2", "buyer2", "ujuno", 2000000))]);

    let tvl = |d: &str| query_get_tvl(&m, &s("hope1_address"), &s(d));
    assert_eq!(tvl("ujuno"), 1000000);
    assert_eq!(tvl("hope"), 2000000);
    assert_eq!(tvl("osmos"), 2000000);
    assert_eq!(tvl("raw"), 2000000);

    assert_eq!(query_collection_info(&m, &s("hope1_address")).unwrap().sale_id, 4);
    let history = query_get_history(&m, &s("hope1_address"), &vec![1, 2, 3, 4]);
    assert_eq!(history.len(), 4);

    let all = query_all_tvl(&m, &s("hope1_address"), &vec![s("ujuno"), s("hope"), s("osmos"), s("xyz")]);
    assert_eq!(
        all,
        vec![
            TvlInfo { denom: s("ujuno"), amount: 1000000 },
            TvlInfo { denom: s("hope"), amount: 2000000 },
            TvlInfo { denom: s("osmos"), amount: 2000000 },
            TvlInfo { denom: s("xyz"), amount: 0 },
        ]
    );

    m.set_tvl(&s("owner"), &s("hope1_address"), &vec![TvlInfo { denom: s("ujuno"), amount: 0 }])
        .unwrap();
    let all = query_all_tvl(&m, &s("hope1_address"), &vec![s("ujuno")]);
    assert_eq!(all, vec![TvlInfo { denom: s("ujuno"), amount: 0 }]);
}

#[test]
fn first_sale_splits_and_empties_the_store() {
    let mut m = hope_market();
    assert_eq!(list(&mut m, "Hope.1", "owner1", "ujuno", 1000000), 1);
    let st: Settlement = m
        .buy_native(&s("hope1_address"), 1, &vec![asset("ujuno", 1000000)], &s("buyer"), BLOCK_TIME)
        .unwrap();
    assert_eq!(st.token_id, s("Hope.1"));
    assert_eq!(st.buyer, s("buyer"));
    assert_eq!(st.seller, transfer("owner1", 950000));
    assert_eq!(st.payees, vec![transfer("admin1", 15000), transfer("admin2", 35000)]);
    assert!(ids(&m).is_empty());
    assert_eq!(query_get_tvl(&m, &s("hope1_address"), &s("ujuno")), 1000000);
    let history = query_get_history(&m, &s("hope1_address"), &vec![1]);
    assert_eq!(
        history,
        vec![SaleRecord {
            from: s("owner1"),
            to: s("buyer"),
            denom: s("ujuno"),
            amount: 1000000,
            time: BLOCK_TIME,
            collection_id: s("hope1_address"),
            token_id: s("Hope.1"),
        }]
    );
}

#[test]
fn buying_a_middle_offering_moves_the_tail_into_its_slot() {
    let mut m = hope_market();
    list(&mut m, "Hope.1", "a", "ujuno", 10);
    list(&mut m, "Hope.2", "b", "ujuno", 20);
    assert_eq!(ids(&m), vec![1, 2]);
    m.buy_native(&s("hope1_address"), 1, &vec![asset("ujuno", 10)], &s("x"), BLOCK_TIME).unwrap();
    assert_eq!(ids(&m), vec![1]);
    let page = query_get_offering(&m, &vec![1, 2], &s("hope1_address"));
    assert_eq!(page, vec![(1, offering("Hope.2", "b", "ujuno", 20))]);
}

#[test]
fn ids_stay_dense_through_listings_and_removals() {
    let mut m = hope_market();
    for k in 0..5u128 {
        list(&mut m, &format!("T.{}", k), "seller", "ujuno", 100 + k);
    }
    assert_eq!(ids(&m), vec![1, 2, 3, 4, 5]);
    m.withdraw(&s("hope1_address"), 2, &s("seller")).unwrap();
    assert_eq!(ids(&m), vec![1, 2, 3, 4]);
    m.buy_native(&s("hope1_address"), 4, &vec![asset("ujuno", 103)], &s("x"), BLOCK_TIME).unwrap();
    assert_eq!(ids(&m), vec![1, 2, 3]);
    list(&mut m, "T.9", "seller", "ujuno", 7);
    assert_eq!(ids(&m), vec![1, 2, 3, 4]);
    assert_eq!(query_collection_info(&m, &s("hope1_address")).unwrap().offering_id, 4);
}

#[test]
fn failing_payments_change_nothing() {
    let mut m = hope_market();
    list(&mut m, "Hope.1", "owner1", "ujuno", 1000);
    let before_ids = ids(&m);
    let r = m.buy_native(&s("hope1_address"), 1, &vec![asset("ujuno", 999)], &s("x"), BLOCK_TIME);
    assert_eq!(r.unwrap_err(), MarketError::PriceMismatch);
    let r = m.buy_native(&s("hope1_address"), 1, &vec![asset("uatom", 1000)], &s("x"), BLOCK_TIME);
    assert_eq!(r.unwrap_err(), MarketError::PriceMismatch);
    let r = m.buy_native(&s("hope1_address"), 1, &vec![asset("ujuno", 1001)], &s("x"), BLOCK_TIME);
    assert_eq!(r.unwrap_err(), MarketError::PriceMismatch);
    assert_eq!(ids(&m), before_ids);
    assert_eq!(
        query_get_offering(&m, &vec![1], &s("hope1_address")),
        vec![(1, offering("Hope.1", "owner1", "ujuno", 1000))]
    );
    assert_eq!(query_get_tvl(&m, &s("hope1_address"), &s("ujuno")), 0);
    let totals = query_get_trading(&m, &s("hope1_address"));
    assert_eq!((totals.total_native, totals.total_token), (0, 0));
    assert_eq!(query_collection_info(&m, &s("hope1_address")).unwrap().sale_id, 0);
    assert!(query_get_history(&m, &s("hope1_address"), &vec![1]).is_empty());
}

#[test]
fn payouts_never_exceed_the_payment() {
    let royalty = ratio(1, 3);
    let ps = vec![
        Payee { address: s("a"), portion: ratio(1, 3) },
        Payee { address: s("b"), portion: ratio(1, 3) },
        Payee { address: s("c"), portion: Portion { atomics: ONE_ATOMICS - 2 * ratio(1, 3).atomics } },
    ];
    assert_eq!(sum_portions(&ps), Some(ONE_ATOMICS));
    for amount in [0u128, 1, 7, 100, 1000001, 99999999999] {
        let (seller, shares) = split_payment(amount, royalty, &ps);
        assert!(seller + shares.iter().sum::<u128>() <= amount);
    }
    let (seller, shares) = split_payment(100, royalty, &ps);
    assert_eq!(seller, 66);
    assert_eq!(shares, vec![11, 11, 11]);
}

#[test]
fn tvl_grows_with_every_buy() {
    let mut m = hope_market();
    let mut last = 0;
    for k in 1..=4u128 {
        list(&mut m, "T", "seller", "ujuno", k * 10);
        m.buy_native(&s("hope1_address"), 1, &vec![asset("ujuno", k * 10)], &s("x"), BLOCK_TIME).unwrap();
        let now = query_get_tvl(&m, &s("hope1_address"), &s("ujuno"));
        assert!(now >= last);
        assert_eq!(now, last + k * 10);
        last = now;
    }
    assert_eq!(last, 100);
    assert_eq!(query_get_trading(&m, &s("hope1_address")).total_native, 100);
}

#[test]
fn reads_of_absent_things_are_empty_or_zero() {
    let mut m = hope_market();
    assert_eq!(query_get_tvl(&m, &s("hope1_address"), &s("never")), 0);
    assert_eq!(query_get_tvl(&m, &s("unknown"), &s("ujuno")), 0);
    list(&mut m, "Hope.1", "a", "ujuno", 5);
    let page = query_get_offering(&m, &vec![7, 1, 3], &s("hope1_address"));
    assert_eq!(page, vec![(1, offering("Hope.1", "a", "ujuno", 5))]);
    assert!(query_get_offering(&m, &vec![1], &s("unknown")).is_empty());
    assert!(query_get_ids(&m, &s("unknown")).is_empty());
}

#[test]
fn registration_checks_portions_and_rights() {
    let mut m = instantiate(s("owner"));
    let short = vec![Payee { address: s("a"), portion: ratio(1, 2) }];
    let r = m.register_collection(&s("owner"), s("c"), ratio(1, 10), short, 0, 0, true, true);
    assert_eq!(r, Err(MarketError::PortionSum));
    let r = m.register_collection(&s("intruder"), s("c"), ratio(1, 10), payees(), 0, 0, true, true);
    assert_eq!(r, Err(MarketError::Unauthorized));
    let r = m.register_collection(&s("owner"), s("c"), ratio(1, 10), payees(), 0, 0, false, true);
    assert_eq!(r, Err(MarketError::InvalidAddress));
    let r = m.register_collection(&s("owner"), s("c"), ratio(3, 2), payees(), 0, 0, true, true);
    assert_eq!(r, Err(MarketError::PortionRange));
    let r = m.register_collection(&s("intruder"), s("c"), ratio(1, 10), payees(), 0, 0, true, false);
    assert_eq!(r, Err(MarketError::Unauthorized));
    let r = m.register_collection(&s("owner"), s("c"), ratio(1, 10), payees(), 0, 0, true, false);
    assert_eq!(r, Err(MarketError::InvalidAddress));
    let r = m.update_collection(&s("owner"), &s("c"), ratio(1, 10), payees(), true, false);
    assert_eq!(r, Err(MarketError::UnknownCollection));
    assert!(query_collection_info(&m, &s("c")).is_err());
    let r = m.update_collection(&s("owner"), &s("c"), ratio(1, 10), payees(), true, true);
    assert_eq!(r, Err(MarketError::UnknownCollection));
    m.register_collection(&s("owner"), s("c"), ratio(1, 10), payees(), 3, 9, true, true).unwrap();
    let info = query_collection_info(&m, &s("c")).unwrap();
    assert_eq!((info.offering_id, info.sale_id), (3, 9));
    let single = vec![Payee { address: s("z"), portion: Portion::one() }];
    m.update_collection(&s("owner"), &s("c"), ratio(2, 10), single.clone(), true, true).unwrap();
    assert_eq!(query_get_members(&m, &s("c")).unwrap(), single);
    let info = query_collection_info(&m, &s("c")).unwrap();
    assert_eq!((info.offering_id, info.sale_id, info.royalty_portion), (3, 9, ratio(2, 10)));
}

#[test]
fn request_errors() {
    let mut m = hope_market();
    let r = m.list_offering(&s("nope"), s("T"), s("a"), asset("ujuno", 1), true);
    assert_eq!(r, Err(MarketError::UnknownCollection));
    let r = m.list_offering(&s("hope1_address"), s("T"), s("a"), asset("ujuno", 1), false);
    assert_eq!(r, Err(MarketError::InvalidAddress));
    let r = m.buy_native(&s("hope1_address"), 1, &vec![], &s("x"), BLOCK_TIME);
    assert_eq!(r.unwrap_err(), MarketError::OfferingNotFound);
    let r = m.buy_with_token(&s("no_token"), &s("hope1_address"), 1, 1, &s("x"), BLOCK_TIME);
    assert_eq!(r.unwrap_err(), MarketError::UnknownTokenRail);
    list(&mut m, "T", "a", "ujuno", 1);
    let r = m.withdraw(&s("hope1_address"), 1, &s("b"));
    assert_eq!(r, Err(MarketError::Unauthorized));
    assert_eq!(m.withdraw(&s("hope1_address"), 1, &s("a")), Ok(offering("T", "a", "ujuno", 1)));
    assert_eq!(m.change_owner(&s("x"), s("y"), true), Err(MarketError::Unauthorized));
    assert_eq!(m.change_owner(&s("owner"), s("y"), false), Err(MarketError::InvalidAddress));
    assert_eq!(m.set_tvl(&s("x"), &s("hope1_address"), &vec![]), Err(MarketError::Unauthorized));
    assert_eq!(m.check_owner(&s("owner")), Ok(()));
}

#[test]
fn overflowing_counters_are_refused() {
    let mut m = instantiate(s("owner"));
    m.register_collection(&s("owner"), s("c"), ratio(1, 10), payees(), u64::MAX, 0, true, true).unwrap();
    let r = m.list_offering(&s("c"), s("T"), s("a"), asset("ujuno", 1), true);
    assert_eq!(r, Err(MarketError::Overflow));
    let mut m = instantiate(s("owner"));
    m.register_collection(&s("owner"), s("c"), ratio(1, 10), payees(), 0, u64::MAX, true, true).unwrap();
    m.list_offering(&s("c"), s("T"), s("a"), asset("ujuno", 1), true).unwrap();
    let r = m.buy_native(&s("c"), 1, &vec![asset("ujuno", 1)], &s("x"), BLOCK_TIME);
    assert_eq!(r.unwrap_err(), MarketError::Overflow);
    assert_eq!(query_get_ids(&m, &s("c")), vec![1]);
}

#[test]
fn portions_come_from_the_decimal_type() {
    assert_eq!(ratio(5, 100).atomics, 50_000_000_000_000_000);
    assert_eq!(ratio(1, 3).atomics, 333_333_333_333_333_333);
    assert_eq!(Portion::from_ratio(1, 0), None);
    assert_eq!(Portion::from_ratio(u128::MAX, 1), None);
    assert_eq!(ratio(5, 100).apply(1000000), 50000);
    assert_eq!(ratio(1, 3).apply(10), 3);
    assert_eq!(Portion::zero().apply(10), 0);
    assert_eq!(ratio(5, 100).complement().apply(1000000), 950000);
}

#[test]
fn native_payment_counts_the_first_matching_coin() {
    let funds = vec![asset("a", 1), asset("b", 2), asset("b", 3)];
    assert_eq!(paid_amount(&funds, &s("b")), 2);
    assert_eq!(paid_amount(&funds, &s("c")), 0);
}

#[test]
fn bulk_loads_write_over_state() {
    let mut m = hope_market();
    let loaded = vec![(4u64, offering("X", "s", "ujuno", 1)), (2u64, offering("Y", "s", "ujuno", 2))];
    m.set_offerings(&s("owner"), &s("hope1_address"), &loaded).unwrap();
    assert_eq!(ids(&m), vec![2, 4]);
    let rec = SaleRecord {
        from: s("f"),
        to: s("t"),
        denom: s("ujuno"),
        amount: 5,
        time: 1,
        collection_id: s("hope1_address"),
        token_id: s("X"),
    };
    m.set_history(&s("owner"), &s("hope1_address"), &vec![rec.clone(), rec.clone()]).unwrap();
    assert_eq!(query_get_history(&m, &s("hope1_address"), &vec![3, 2, 1]), vec![rec.clone(), rec]);
    m.set_tvl(
        &s("owner"),
        &s("hope1_address"),
        &vec![TvlInfo { denom: s("d"), amount: 1 }, TvlInfo { denom: s("d"), amount: 8 }],
    )
    .unwrap();
    assert_eq!(query_get_tvl(&m, &s("hope1_address"), &s("d")), 8);
}

#[test]
fn admin_token_moves() {
    let m = hope_market();
    let t = m.fix_nft(&s("owner"), s("Stuck.1"), true).unwrap();
    assert_eq!(t, NftTransfer { recipient: s("owner"), token_id: s("Stuck.1") });
    assert_eq!(m.fix_nft(&s("x"), s("Stuck.1"), true), Err(MarketError::Unauthorized));
    assert_eq!(m.fix_nft(&s("owner"), s("Stuck.1"), false), Err(MarketError::InvalidAddress));
    let moves = m.migrate_tokens(&s("owner"), &s("dest"), &vec![s("A"), s("B")], true).unwrap();
    assert_eq!(
        moves,
        vec![
            NftTransfer { recipient: s("dest"), token_id: s("A") },
            NftTransfer { recipient: s("dest"), token_id: s("B") },
        ]
    );
    assert_eq!(m.migrate_tokens(&s("x"), &s("dest"), &vec![], true), Err(MarketError::Unauthorized));
}

#[test]
fn each_payee_share_is_floored_once() {
    let mut m = instantiate(s("owner"));
    let ps = vec![
        Payee { address: s("p1"), portion: ratio(9, 10) },
        Payee { address: s("p2"), portion: ratio(1, 10) },
    ];
    m.register_collection(&s("owner"), s("c"), ratio(1, 2), ps, 0, 0, true, true).unwrap();
    m.list_offering(&s("c"), s("T"), s("seller"), asset("ujuno", 3), true).unwrap();
    let st = m.buy_native(&s("c"), 1, &vec![asset("ujuno", 3)], &s("x"), BLOCK_TIME).unwrap();
    assert_eq!(st.seller, transfer("seller", 1));
    assert_eq!(st.payees, vec![transfer("p1", 1)]);
}

#[test]
fn bulk_loads_work_before_registration() {
    let mut m = instantiate(s("owner"));
    m.set_tvl(&s("owner"), &s("later"), &vec![TvlInfo { denom: s("ujuno"), amount: 42 }]).unwrap();
    m.set_offerings(&s("owner"), &s("later"), &vec![(1u64, offering("T", "a", "ujuno", 5))]).unwrap();
    let rec = SaleRecord {
        from: s("f"),
        to: s("t"),
        denom: s("ujuno"),
        amount: 5,
        time: 1,
        collection_id: s("later"),
        token_id: s("T"),
    };
    m.set_history(&s("owner"), &s("later"), &vec![rec.clone()]).unwrap();
    assert_eq!(query_get_tvl(&m, &s("later"), &s("ujuno")), 42);
    assert_eq!(query_get_ids(&m, &s("later")), vec![1]);
    assert!(query_collection_info(&m, &s("later")).is_err());
    let r = m.list_offering(&s("later"), s("U"), s("a"), asset("ujuno", 1), true);
    assert_eq!(r, Err(MarketError::UnknownCollection));
    m.register_collection(&s("owner"), s("later"), ratio(1, 10), payees(), 1, 1, true, true).unwrap();
    assert_eq!(query_get_tvl(&m, &s("later"), &s("ujuno")), 42);
    assert_eq!(query_get_history(&m, &s("later"), &vec![1]), vec![rec]);
    let st = m.buy_native(&s("later"), 1, &vec![asset("ujuno", 5)], &s("x"), BLOCK_TIME).unwrap();
    assert_eq!(st.token_id, s("T"));
    assert_eq!(query_get_tvl(&m, &s("later"), &s("ujuno")), 47);
    assert_eq!(query_collection_info(&m, &s("later")).unwrap().sale_id, 2);
}
