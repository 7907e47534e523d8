use price_oracle::api::{
    get_latest_price, get_price_at_date, get_price_at_height, get_price_range, health_check,
    range_fits, Ask, DatePriceResponse, ErrorResponse, HealthResponse, LatestResponse,
    PriceResponse, RangeParams, Reply, Session, Status,
};
use price_oracle::storage::PriceStore;

const DAY: u32 = 86400;

/// Block `h` has price `1000 + h` and is an hour after block `h - 1`, from 2020-01-01 on.
fn time_of(height: usize) -> u32 {
    1577836800 + 3600 * height as u32
}

fn store_of(len: usize) -> PriceStore {
    PriceStore::open(8 * len as u64, 4 * len as u64)
}

fn answer(mut session: Session, store: &PriceStore) -> Reply {
    loop {
        match session.ask() {
            Some(Ask::Timestamp(h)) => {
                let ts = if h < store.len() { Some(time_of(h)) } else { None };
                session = session.with_timestamp(ts, store);
            }
            Some(Ask::Record(h)) => {
                session = if h < store.len() {
                    session.with_record(Some(1000 + h as u64), Some(time_of(h)))
                } else {
                    session.with_record(None, None)
                };
            }
            None => return session.into_reply().unwrap(),
        }
    }
}

fn refusal(status: Status, error: &str) -> Reply {
    Reply::Refused(status, ErrorResponse { error: error.to_string() })
}

fn range(from: &str, to: &str, store: &PriceStore) -> Reply {
    let params = RangeParams { from: from.to_string(), to: to.to_string() };
    assert!(range_fits(&params));
    answer(get_price_range(&params, store), store)
}

fn rows(from: usize, to: usize) -> Reply {
    Reply::Range((from..to).map(|h| (h, 1000 + h as u64, time_of(h))).collect())
}

#[test]
fn price_at_a_height() {
    let store = store_of(100);
    assert_eq!(
        answer(get_price_at_height(42), &store),
        Reply::Price(PriceResponse { height: 42, price: 1042, timestamp: time_of(42) })
    );
}

#[test]
fn unknown_height_is_not_found() {
    let store = store_of(100);
    assert_eq!(
        answer(get_price_at_height(100), &store),
        refusal(Status::NotFound, "Height 100 not yet synced or out of range")
    );
    assert_eq!(
        answer(get_price_at_height(0), &store_of(0)),
        refusal(Status::NotFound, "Height 0 not yet synced or out of range")
    );
}

#[test]
fn half_a_record_is_not_found() {
    let session = get_price_at_height(7);
    assert_eq!(session.ask(), Some(Ask::Record(7)));
    assert_eq!(
        session.with_record(Some(1), None).into_reply(),
        Some(refusal(Status::NotFound, "Height 7 not yet synced or out of range"))
    );
}

#[test]
fn latest_price() {
    let store = store_of(100);
    assert_eq!(
        answer(get_latest_price(&store), &store),
        Reply::Latest(LatestResponse { height: 99, price: 1099, timestamp: time_of(99) })
    );
}

#[test]
fn latest_price_of_an_empty_store() {
    let store = store_of(0);
    assert_eq!(
        answer(get_latest_price(&store), &store),
        refusal(Status::ServiceUnavailable, "Not yet synced")
    );
}

#[test]
fn latest_price_that_cannot_be_read() {
    let session = get_latest_price(&store_of(3));
    assert_eq!(session.ask(), Some(Ask::Record(2)));
    assert_eq!(
        session.with_record(None, Some(5)).into_reply(),
        Some(refusal(Status::ServiceUnavailable, "No data yet"))
    );
}

#[test]
fn price_at_a_date() {
    let store = store_of(100);
    assert_eq!(
        answer(get_price_at_date("2020-01-03".to_string(), &store), &store),
        Reply::DatePrice(DatePriceResponse {
            date: "2020-01-03".to_string(),
            height: 48,
            price: 1048,
            timestamp: 1577836800 + 2 * DAY,
        })
    );
    match answer(get_price_at_date("2009-01-03".to_string(), &store), &store) {
        Reply::DatePrice(r) => assert_eq!(r.height, 0),
        other => panic!("{:?}", other),
    }
}

#[test]
fn date_that_is_none() {
    let store = store_of(100);
    assert_eq!(
        answer(get_price_at_date("yesterday".to_string(), &store), &store),
        refusal(Status::BadRequest, "Invalid date format. Use YYYY-MM-DD")
    );
}

#[test]
fn date_without_blocks() {
    let store = store_of(100);
    assert_eq!(
        answer(get_price_at_date("2021-01-01".to_string(), &store), &store),
        refusal(Status::NotFound, "No blocks found for this date")
    );
    let empty = store_of(0);
    assert_eq!(
        answer(get_price_at_date("2020-01-01".to_string(), &empty), &empty),
        refusal(Status::NotFound, "No blocks found for this date")
    );
}

#[test]
fn date_whose_record_cannot_be_read() {
    let store = store_of(1);
    let session = get_price_at_date("2020-01-01".to_string(), &store);
    assert_eq!(session.ask(), Some(Ask::Timestamp(0)));
    let session = session.with_timestamp(Some(time_of(0)), &store);
    assert_eq!(session.ask(), Some(Ask::Record(0)));
    assert_eq!(
        session.with_record(None, Some(1)).into_reply(),
        Some(refusal(Status::NotFound, "Price data not available for this date"))
    );
}

#[test]
fn range_of_heights_includes_its_end() {
    let store = store_of(100);
    assert_eq!(range("10", "12", &store), rows(10, 13));
    assert_eq!(range("98", "500", &store), rows(98, 100));
    assert_eq!(range("12", "10", &store), rows(0, 0));
}

#[test]
fn heights_that_are_none_count_as_zero() {
    let store = store_of(100);
    assert_eq!(range("x", "2", &store), rows(0, 3));
    assert_eq!(range("", "", &store), rows(0, 1));
    assert_eq!(range("0", "-5", &store), rows(0, 1));
    assert_eq!(range("0", "99999999999999999999999", &store), rows(0, 1));
}

#[test]
fn range_of_dates_includes_its_last_day() {
    let store = store_of(100);
    assert_eq!(range("2020-01-01", "2020-01-01", &store), rows(0, 24));
    assert_eq!(range("2020-01-02", "2020-01-03", &store), rows(24, 72));
    assert_eq!(range("2020-01-04", "2020-12-31", &store), rows(72, 100));
    assert_eq!(range("2020-01-03", "2020-01-01", &store), rows(0, 0));
}

#[test]
fn range_of_dates_after_the_last_block_begins_at_zero() {
    let store = store_of(100);
    assert_eq!(range("2030-01-01", "2030-01-02", &store), rows(0, 100));
}

#[test]
fn range_with_bad_dates() {
    let store = store_of(100);
    assert_eq!(range("2020-01", "2020-01-01", &store), refusal(Status::BadRequest, "Invalid 'from' date"));
    assert_eq!(range("-5", "7", &store), refusal(Status::BadRequest, "Invalid 'from' date"));
    assert_eq!(range("2020-01-01", "7", &store), refusal(Status::BadRequest, "Invalid 'to' date"));
}

#[test]
fn ranges_are_capped() {
    let store = store_of(25_000);
    assert_eq!(range("5", "24000", &store), rows(5, 10_005));
    assert_eq!(range("2020-01-01", "2024-01-01", &store), rows(0, 10_000));
}

#[test]
fn ranges_that_overflow_do_not_fit() {
    let fits = |from: &str, to: &str| {
        range_fits(&RangeParams { from: from.to_string(), to: to.to_string() })
    };
    let max = usize::MAX.to_string();
    assert!(!fits("0", &max));
    assert!(fits("0", &(usize::MAX - 1).to_string()));
    assert!(!fits(&(usize::MAX - 9_999).to_string(), "0"));
    assert!(fits(&(usize::MAX - 10_000).to_string(), "0"));
    assert!(!fits("2020-01-01", "1969-12-31"));
    assert!(!fits("2020-01-01", "2106-02-07"));
    assert!(fits("2020-01-01", "2106-02-06"));
    assert!(fits("2020-01-xx", "1969-12-31"));
}

#[test]
fn health_of_the_store() {
    assert_eq!(
        health_check(&store_of(100), 200),
        HealthResponse { synced_height: 99, chain_tip: 200, syncing: true }
    );
    assert_eq!(
        health_check(&store_of(101), 100),
        HealthResponse { synced_height: 100, chain_tip: 100, syncing: false }
    );
    assert_eq!(
        health_check(&store_of(0), 0),
        HealthResponse { synced_height: 0, chain_tip: 0, syncing: false }
    );
}
