//! What the HTTP interface answers.
//!
//! A request becomes a [`Session`]. The session asks for records of the price store, one at a
//! time, is told what was read, and ends with a [`Reply`]. Prices pass through as the bit
//! patterns that the store holds.

use crate::calendar::{
    date_text, date_timestamp, day_number, is_civil_date, law_date_text_read, lemma_day_range,
    parse_date_to_timestamp, SECONDS_PER_DAY,
};
use crate::lookup::{
    are_records, boundary, in_order, law_records_in_place, law_rows_complete, law_rows_exact,
    law_rows_sound, law_scan_rows, law_search_first, least, lemma_no_boundary, lemma_start_boundary,
    rows_between, RangeScan, Row, ScanView, SearchView, TimestampSearch,
};
use crate::storage::{
    last_of, law_append_reads_back, price_write, timestamp_write, Files, PriceStore,
};
use crate::text::{
    characters, contains_char, decimal, law_decimal_text, parse_unsigned, push_decimal,
    unsigned_up_to,
};
use vstd::prelude::*;
use vstd::string::StringExecFns;

verus! {

/// The most entries that a range request is answered with.
pub const MAX_ENTRIES: usize = 10_000;

/// The two ends of a range request, as they came in: dates or heights.
#[derive(Debug)]
pub struct RangeParams {
    pub from: String,
    pub to: String,
}

/// The price at a height that was asked for.
#[derive(Clone, Copy, Debug, PartialEq, Eq, Structural)]
pub struct PriceResponse {
    pub height: usize,
    pub price: u64,
    pub timestamp: u32,
}

/// The price at the last height.
#[derive(Clone, Copy, Debug, PartialEq, Eq, Structural)]
pub struct LatestResponse {
    pub height: usize,
    pub price: u64,
    pub timestamp: u32,
}

/// The price at the first block of a date.
#[derive(Debug, PartialEq, Eq)]
pub struct DatePriceResponse {
    pub date: String,
    pub height: usize,
    pub price: u64,
    pub timestamp: u32,
}

/// How far the store has come along the chain.
#[derive(Clone, Copy, Debug, PartialEq, Eq, Structural)]
pub struct HealthResponse {
    pub synced_height: usize,
    pub chain_tip: usize,
    pub syncing: bool,
}

/// Why a request was refused.
#[derive(Debug, PartialEq, Eq)]
pub struct ErrorResponse {
    pub error: String,
}

/// The HTTP status of a refusal.
#[derive(Clone, Copy, Debug, PartialEq, Eq, Structural)]
pub enum Status {
    BadRequest,
    NotFound,
    ServiceUnavailable,
}

/// The answer to a request.
#[derive(Debug, PartialEq, Eq)]
pub enum Reply {
    Price(PriceResponse),
    DatePrice(DatePriceResponse),
    Latest(LatestResponse),
    Range(Vec<Row>),
    Refused(Status, ErrorResponse),
}

/// The contents of an answer.
pub enum ReplyView {
    Price { height: nat, price: u64, timestamp: u32 },
    DatePrice { date: Seq<char>, height: nat, price: u64, timestamp: u32 },
    Latest { height: nat, price: u64, timestamp: u32 },
    Range { rows: Seq<Row> },
    Refused { status: Status, error: Seq<char> },
}

impl View for Reply {
    type V = ReplyView;

    open spec fn view(&self) -> ReplyView {
        match *self {
            Reply::Price(r) => ReplyView::Price {
                height: r.height as nat,
                price: r.price,
                timestamp: r.timestamp,
            },
            Reply::DatePrice(r) => ReplyView::DatePrice {
                date: r.date@,
                height: r.height as nat,
                price: r.price,
                timestamp: r.timestamp,
            },
            Reply::Latest(r) => ReplyView::Latest {
                height: r.height as nat,
                price: r.price,
                timestamp: r.timestamp,
            },
            Reply::Range(rows) => ReplyView::Range { rows: rows@ },
            Reply::Refused(status, e) => ReplyView::Refused { status, error: e.error@ },
        }
    }
}

/// What a session needs to have read: a timestamp, or a price and a timestamp.
#[derive(Clone, Copy, Debug, PartialEq, Eq, Structural)]
pub enum Ask {
    Timestamp(usize),
    Record(usize),
}

/// Where a session stands.
#[derive(Debug)]
enum State {
    /// The record of a height is wanted.
    AtHeight { height: usize },
    /// The first height of a date is searched.
    DateSearch { date: String, search: TimestampSearch },
    /// The record of the first height of a date is wanted.
    AtDate { date: String, height: usize },
    /// The record of the last height is wanted.
    AtLatest { height: usize },
    /// The first height of a range of dates is searched.
    RangeFrom { to_ts: u32, search: TimestampSearch },
    /// The height that ends a range of dates is searched.
    RangeTo { from: usize, search: TimestampSearch },
    /// The rows of a range are read.
    RangeRows { scan: RangeScan },
    /// Nothing is left to read.
    Done { reply: Reply },
}

/// A session, as its contract sees it.
pub enum SessionView {
    AtHeight { height: nat },
    DateSearch { date: Seq<char>, search: SearchView },
    AtDate { date: Seq<char>, height: nat },
    AtLatest { height: nat },
    RangeFrom { to_ts: u32, search: SearchView },
    RangeTo { from: nat, search: SearchView },
    RangeRows { scan: ScanView },
    Done { reply: ReplyView },
}

impl View for State {
    type V = SessionView;

    closed spec fn view(&self) -> SessionView {
        match *self {
            State::AtHeight { height } => SessionView::AtHeight { height: height as nat },
            State::DateSearch { date, search } => SessionView::DateSearch {
                date: date@,
                search: search@,
            },
            State::AtDate { date, height } => SessionView::AtDate {
                date: date@,
                height: height as nat,
            },
            State::AtLatest { height } => SessionView::AtLatest { height: height as nat },
            State::RangeFrom { to_ts, search } => SessionView::RangeFrom {
                to_ts,
                search: search@,
            },
            State::RangeTo { from, search } => SessionView::RangeTo {
                from: from as nat,
                search: search@,
            },
            State::RangeRows { scan } => SessionView::RangeRows { scan: scan@ },
            State::Done { reply } => SessionView::Done { reply: reply@ },
        }
    }
}

impl State {
    /// A search or a scan that goes on has something left to read, and the start of a range
    /// leaves room for the entries that follow it.
    spec fn sound(self) -> bool {
        match self {
            State::DateSearch { search, .. } => search@.next_read() is Some,
            State::RangeFrom { search, .. } => search@.next_read() is Some && search@.len
                + MAX_ENTRIES <= usize::MAX,
            State::RangeTo { from, search } => search@.next_read() is Some && from + MAX_ENTRIES
                <= usize::MAX,
            State::RangeRows { scan } => scan@.next_read() is Some,
            _ => true,
        }
    }
}

/// A request that is being answered.
#[derive(Debug)]
pub struct Session {
    state: State,
}

impl View for Session {
    type V = SessionView;

    closed spec fn view(&self) -> SessionView {
        self.state@
    }
}

/// A refusal.
pub open spec fn refused(status: Status, error: Seq<char>) -> SessionView {
    SessionView::Done { reply: ReplyView::Refused { status, error } }
}

/// What is said of a height that the store does not have.
pub open spec fn unknown_height_text(height: nat) -> Seq<char> {
    "Height "@ + decimal(height) + " not yet synced or out of range"@
}

impl SessionView {
    /// What the session needs to have read, if anything.
    pub open spec fn ask(self) -> Option<Ask> {
        match self {
            SessionView::AtHeight { height } => Some(Ask::Record(height as usize)),
            SessionView::DateSearch { search, .. } => match search.next_read() {
                Some(h) => Some(Ask::Timestamp(h as usize)),
                None => None,
            },
            SessionView::AtDate { height, .. } => Some(Ask::Record(height as usize)),
            SessionView::AtLatest { height } => Some(Ask::Record(height as usize)),
            SessionView::RangeFrom { search, .. } => match search.next_read() {
                Some(h) => Some(Ask::Timestamp(h as usize)),
                None => None,
            },
            SessionView::RangeTo { search, .. } => match search.next_read() {
                Some(h) => Some(Ask::Timestamp(h as usize)),
                None => None,
            },
            SessionView::RangeRows { scan } => match scan.next_read() {
                Some(h) => Some(Ask::Record(h as usize)),
                None => None,
            },
            SessionView::Done { .. } => None,
        }
    }

    /// A search for the first height of a date, or what follows once it is over.
    pub open spec fn searching_date(date: Seq<char>, search: SearchView) -> SessionView {
        if search.next_read() is Some {
            SessionView::DateSearch { date, search }
        } else {
            match search.outcome() {
                Some(height) => SessionView::AtDate { date, height },
                None => refused(Status::NotFound, "No blocks found for this date"@),
            }
        }
    }

    /// A search for the first height of a range of dates, or what follows once it is over. A
    /// range that begins after the last block begins at height zero instead.
    pub open spec fn searching_from(to_ts: u32, search: SearchView, len: nat) -> SessionView {
        if search.next_read() is Some {
            SessionView::RangeFrom { to_ts, search }
        } else {
            let from = match search.outcome() {
                Some(h) => h,
                None => 0,
            };
            SessionView::searching_to(from, SearchView::start(to_ts, len), len)
        }
    }

    /// A search for the end of a range of dates, or what follows once it is over.
    pub open spec fn searching_to(from: nat, search: SearchView, len: nat) -> SessionView {
        if search.next_read() is Some {
            SessionView::RangeTo { from, search }
        } else {
            let to = match search.outcome() {
                Some(h) => h,
                None => len,
            };
            SessionView::reading_rows(from, to, len)
        }
    }

    /// The scan of `from..to`, at most [`MAX_ENTRIES`] heights of it.
    pub open spec fn reading_rows(from: nat, to: nat, len: nat) -> SessionView {
        SessionView::scanning(ScanView::start(from, least(to, from + MAX_ENTRIES as nat), len))
    }

    /// A scan, or its rows once it is over.
    pub open spec fn scanning(scan: ScanView) -> SessionView {
        if scan.next_read() is Some {
            SessionView::RangeRows { scan }
        } else {
            SessionView::Done { reply: ReplyView::Range { rows: scan.rows } }
        }
    }

    /// The session after a timestamp was asked for, in a store of `len` records.
    pub open spec fn with_timestamp(self, timestamp: Option<u32>, len: nat) -> SessionView {
        match self {
            SessionView::DateSearch { date, search } => SessionView::searching_date(
                date,
                search.resumed(timestamp),
            ),
            SessionView::RangeFrom { to_ts, search } => SessionView::searching_from(
                to_ts,
                search.resumed(timestamp),
                len,
            ),
            SessionView::RangeTo { from, search } => SessionView::searching_to(
                from,
                search.resumed(timestamp),
                len,
            ),
            _ => self,
        }
    }

    /// The session after a record was asked for.
    pub open spec fn with_record(self, price: Option<u64>, timestamp: Option<u32>) -> SessionView {
        match self {
            SessionView::AtHeight { height } => SessionView::Done {
                reply: height_reply(height, price, timestamp),
            },
            SessionView::AtDate { date, height } => SessionView::Done {
                reply: date_reply(date, height, price, timestamp),
            },
            SessionView::AtLatest { height } => SessionView::Done {
                reply: latest_reply(height, price, timestamp),
            },
            SessionView::RangeRows { scan } => SessionView::scanning(
                scan.resumed(price, timestamp),
            ),
            _ => self,
        }
    }
}

/// The answer for a height, given what the store has of it.
pub open spec fn height_reply(
    height: nat,
    price: Option<u64>,
    timestamp: Option<u32>,
) -> ReplyView {
    match (price, timestamp) {
        (Some(p), Some(ts)) => ReplyView::Price { height, price: p, timestamp: ts },
        _ => ReplyView::Refused {
            status: Status::NotFound,
            error: unknown_height_text(height),
        },
    }
}

/// The answer for a date whose first height is `height`, given what the store has of it.
pub open spec fn date_reply(
    date: Seq<char>,
    height: nat,
    price: Option<u64>,
    timestamp: Option<u32>,
) -> ReplyView {
    match (price, timestamp) {
        (Some(p), Some(ts)) => ReplyView::DatePrice { date, height, price: p, timestamp: ts },
        _ => ReplyView::Refused {
            status: Status::NotFound,
            error: "Price data not available for this date"@,
        },
    }
}

/// The answer for the last height, given what the store has of it.
pub open spec fn latest_reply(
    height: nat,
    price: Option<u64>,
    timestamp: Option<u32>,
) -> ReplyView {
    match (price, timestamp) {
        (Some(p), Some(ts)) => ReplyView::Latest { height, price: p, timestamp: ts },
        _ => ReplyView::Refused {
            status: Status::ServiceUnavailable,
            error: "No data yet"@,
        },
    }
}

/// Refuses a request.
fn refuse(status: Status, error: &str) -> (reply: Reply)
    ensures
        reply@ == (ReplyView::Refused { status, error: error@ }),
{
    Reply::Refused(status, ErrorResponse { error: error.to_string() })
}

/// Says of a height that the store does not have it.
fn refuse_height(height: usize) -> (reply: Reply)
    ensures
        reply@ == (ReplyView::Refused {
            status: Status::NotFound,
            error: unknown_height_text(height as nat),
        }),
{
    let mut error: String = "Height ".to_string();
    push_decimal(&mut error, height);
    error.append(" not yet synced or out of range");
    Reply::Refused(Status::NotFound, ErrorResponse { error })
}

/// Goes on with a search for the first height of a date.
fn search_date(date: String, search: TimestampSearch) -> (state: State)
    ensures
        state.sound(),
        state@ == SessionView::searching_date(date@, search@),
{
    if search.next_read().is_some() {
        return State::DateSearch { date, search };
    }
    match search.outcome() {
        Some(height) => State::AtDate { date, height },
        None => State::Done {
            reply: refuse(Status::NotFound, "No blocks found for this date"),
        },
    }
}

/// Goes on with a scan.
fn scan_rows(scan: RangeScan) -> (state: State)
    ensures
        state.sound(),
        state@ == SessionView::scanning(scan@),
{
    if scan.next_read().is_some() {
        return State::RangeRows { scan };
    }
    State::Done { reply: Reply::Range(scan.into_rows()) }
}

/// Starts the scan of `from..to`, capped.
fn read_rows(from: usize, to: usize, store: &PriceStore) -> (state: State)
    requires
        from + MAX_ENTRIES <= usize::MAX,
    ensures
        state.sound(),
        state@ == SessionView::reading_rows(from as nat, to as nat, store@),
{
    let capped: usize = if to <= from + MAX_ENTRIES {
        to
    } else {
        from + MAX_ENTRIES
    };
    scan_rows(store.get_prices_range(from, capped))
}

/// Goes on with a search for the end of a range of dates.
fn search_to(from: usize, search: TimestampSearch, store: &PriceStore) -> (state: State)
    requires
        from + MAX_ENTRIES <= usize::MAX,
    ensures
        state.sound(),
        state@ == SessionView::searching_to(from as nat, search@, store@),
{
    if search.next_read().is_some() {
        return State::RangeTo { from, search };
    }
    let to: usize = match search.outcome() {
        Some(height) => height,
        None => store.len(),
    };
    read_rows(from, to, store)
}

/// Goes on with a search for the first height of a range of dates.
fn search_from(to_ts: u32, search: TimestampSearch, store: &PriceStore) -> (state: State)
    requires
        search@.len + MAX_ENTRIES <= usize::MAX,
    ensures
        state.sound(),
        state@ == SessionView::searching_from(to_ts, search@, store@),
{
    if search.next_read().is_some() {
        return State::RangeFrom { to_ts, search };
    }
    let from: usize = match search.outcome() {
        Some(height) => height,
        None => 0,
    };
    search_to(from, store.height_for_timestamp(to_ts), store)
}

impl Session {
    #[verifier::type_invariant]
    spec fn sound(self) -> bool {
        self.state.sound()
    }

    /// What is to be read next, or `None` once the reply is there.
    pub fn ask(&self) -> (ask: Option<Ask>)
        ensures
            ask == self@.ask(),
            ask is None <==> self@ is Done,
    {
        proof {
            use_type_invariant(self);
        }
        match &self.state {
            State::AtHeight { height } => Some(Ask::Record(*height)),
            State::AtDate { height, .. } => Some(Ask::Record(*height)),
            State::AtLatest { height } => Some(Ask::Record(*height)),
            State::DateSearch { search, .. } => match search.next_read() {
                Some(height) => Some(Ask::Timestamp(height)),
                None => None,
            },
            State::RangeFrom { search, .. } => match search.next_read() {
                Some(height) => Some(Ask::Timestamp(height)),
                None => None,
            },
            State::RangeTo { search, .. } => match search.next_read() {
                Some(height) => Some(Ask::Timestamp(height)),
                None => None,
            },
            State::RangeRows { scan } => match scan.next_read() {
                Some(height) => Some(Ask::Record(height)),
                None => None,
            },
            State::Done { .. } => None,
        }
    }

    /// Goes on with the timestamp that was asked for, or with `None` if there is none.
    pub fn with_timestamp(self, timestamp: Option<u32>, store: &PriceStore) -> (session: Session)
        requires
            self@.ask() is Some,
            self@.ask()->0 is Timestamp,
        ensures
            session@ == self@.with_timestamp(timestamp, store@),
    {
        proof {
            use_type_invariant(&self);
        }
        let state: State = match self.state {
            State::DateSearch { date, search } => {
                let mut search = search;
                search.resume(timestamp);
                search_date(date, search)
            },
            State::RangeFrom { to_ts, search } => {
                let mut search = search;
                search.resume(timestamp);
                search_from(to_ts, search, store)
            },
            State::RangeTo { from, search } => {
                let mut search = search;
                search.resume(timestamp);
                search_to(from, search, store)
            },
            other => other,
        };
        Session { state }
    }

    /// Goes on with the price and the timestamp of the height that was asked for, each `None` if
    /// there is none.
    pub fn with_record(self, price: Option<u64>, timestamp: Option<u32>) -> (session: Session)
        requires
            self@.ask() is Some,
            self@.ask()->0 is Record,
        ensures
            session@ == self@.with_record(price, timestamp),
    {
        proof {
            use_type_invariant(&self);
        }
        let state: State = match self.state {
            State::AtHeight { height } => State::Done {
                reply: match (price, timestamp) {
                    (Some(price), Some(timestamp)) => Reply::Price(
                        PriceResponse { height, price, timestamp },
                    ),
                    _ => refuse_height(height),
                },
            },
            State::AtDate { date, height } => State::Done {
                reply: match (price, timestamp) {
                    (Some(price), Some(timestamp)) => Reply::DatePrice(
                        DatePriceResponse { date, height, price, timestamp },
                    ),
                    _ => refuse(Status::NotFound, "Price data not available for this date"),
                },
            },
            State::AtLatest { height } => State::Done {
                reply: match (price, timestamp) {
                    (Some(price), Some(timestamp)) => Reply::Latest(
                        LatestResponse { height, price, timestamp },
                    ),
                    _ => refuse(Status::ServiceUnavailable, "No data yet"),
                },
            },
            State::RangeRows { scan } => {
                let mut scan = scan;
                scan.resume(price, timestamp);
                scan_rows(scan)
            },
            other => other,
        };
        Session { state }
    }

    /// The reply, or `None` while something is still to be read.
    pub fn into_reply(self) -> (reply: Option<Reply>)
        ensures
            match reply {
                Some(r) => self@ == (SessionView::Done { reply: r@ }),
                None => !(self@ is Done),
            },
    {
        match self.state {
            State::Done { reply } => Some(reply),
            _ => None,
        }
    }
}

/// Whether the text of a range asks for dates.
pub open spec fn is_date_range(from: Seq<char>) -> bool {
    from.contains('-')
}

/// A height as text; what is no height counts as zero.
pub open spec fn height_or_zero(text: Seq<char>) -> nat {
    match unsigned_up_to(text, usize::MAX as nat) {
        Some(height) => height,
        None => 0,
    }
}

/// Whether the numbers of a range request can be computed: the second after the last day of a
/// range of dates in 32 bits, the height after a range of heights, and the height that caps it,
/// in a `usize`.
pub open spec fn range_computable(from: Seq<char>, to: Seq<char>) -> bool {
    if is_date_range(from) {
        match (date_timestamp(from), date_timestamp(to)) {
            (Some(_), Some(to_ts)) => to_ts + SECONDS_PER_DAY <= u32::MAX,
            _ => true,
        }
    } else {
        height_or_zero(to) < usize::MAX && height_or_zero(from) + MAX_ENTRIES <= usize::MAX
    }
}

/// The session that a range request begins with.
pub open spec fn range_session(from: Seq<char>, to: Seq<char>, len: nat) -> SessionView {
    if is_date_range(from) {
        match (date_timestamp(from), date_timestamp(to)) {
            (None, _) => refused(Status::BadRequest, "Invalid 'from' date"@),
            (_, None) => refused(Status::BadRequest, "Invalid 'to' date"@),
            (Some(from_ts), Some(to_ts)) => SessionView::searching_from(
                (to_ts + SECONDS_PER_DAY) as u32,
                SearchView::start(from_ts, len),
                len,
            ),
        }
    } else {
        SessionView::reading_rows(height_or_zero(from), height_or_zero(to) + 1, len)
    }
}

/// The session that a request for the price at a date begins with.
pub open spec fn date_session(date: Seq<char>, len: nat) -> SessionView {
    match date_timestamp(date) {
        Some(ts) => SessionView::searching_date(date, SearchView::start(ts, len)),
        None => refused(Status::BadRequest, "Invalid date format. Use YYYY-MM-DD"@),
    }
}

/// The session that a request for the last price begins with.
pub open spec fn latest_session(len: nat) -> SessionView {
    match last_of(len) {
        Some(height) => SessionView::AtLatest { height },
        None => refused(Status::ServiceUnavailable, "Not yet synced"@),
    }
}

/// Answers a request for the price at a height.
pub fn get_price_at_height(height: usize) -> (session: Session)
    ensures
        session@ == (SessionView::AtHeight { height: height as nat }),
{
    Session { state: State::AtHeight { height } }
}

/// Answers a request for the price at the first block of a date.
pub fn get_price_at_date(date: String, store: &PriceStore) -> (session: Session)
    ensures
        session@ == date_session(date@, store@),
{
    let state: State = match parse_date_to_timestamp(date.as_str()) {
        Some(target_ts) => search_date(date, store.height_for_timestamp(target_ts)),
        None => State::Done {
            reply: refuse(Status::BadRequest, "Invalid date format. Use YYYY-MM-DD"),
        },
    };
    Session { state }
}

/// Answers a request for the last price.
pub fn get_latest_price(store: &PriceStore) -> (session: Session)
    ensures
        session@ == latest_session(store@),
{
    let state: State = match store.last_height() {
        Some(height) => State::AtLatest { height },
        None => State::Done { reply: refuse(Status::ServiceUnavailable, "Not yet synced") },
    };
    Session { state }
}

/// Reads a height; what is no height counts as zero.
fn parse_height(text: &str) -> (height: usize)
    ensures
        height == height_or_zero(text@),
{
    match parse_unsigned(&characters(text), usize::MAX as u64) {
        Some(height) => height as usize,
        None => 0,
    }
}

/// Whether [`get_price_range`] can answer a request without overflow.
pub fn range_fits(params: &RangeParams) -> (fits: bool)
    ensures
        fits == range_computable(params.from@, params.to@),
{
    if contains_char(params.from.as_str(), '-') {
        match (
            parse_date_to_timestamp(params.from.as_str()),
            parse_date_to_timestamp(params.to.as_str()),
        ) {
            (Some(_), Some(to_ts)) => to_ts <= u32::MAX - SECONDS_PER_DAY,
            _ => true,
        }
    } else {
        parse_height(params.to.as_str()) < usize::MAX && parse_height(params.from.as_str())
            <= usize::MAX - MAX_ENTRIES
    }
}

/// Answers a request for a range of prices, between two dates or two heights, both ends
/// included.
pub fn get_price_range(params: &RangeParams, store: &PriceStore) -> (session: Session)
    requires
        range_computable(params.from@, params.to@),
    ensures
        session@ == range_session(params.from@, params.to@, store@),
{
    let state: State = if contains_char(params.from.as_str(), '-') {
        let from_ts: Option<u32> = parse_date_to_timestamp(params.from.as_str());
        let to_ts: Option<u32> = parse_date_to_timestamp(params.to.as_str());
        match (from_ts, to_ts) {
            (None, _) => State::Done {
                reply: refuse(Status::BadRequest, "Invalid 'from' date"),
            },
            (_, None) => State::Done { reply: refuse(Status::BadRequest, "Invalid 'to' date") },
            (Some(from_ts), Some(to_ts)) => search_from(
                to_ts + SECONDS_PER_DAY,
                store.height_for_timestamp(from_ts),
                store,
            ),
        }
    } else {
        let from: usize = parse_height(params.from.as_str());
        let to: usize = parse_height(params.to.as_str());
        read_rows(from, to + 1, store)
    };
    Session { state }
}

/// Says how far the store has come towards the chain's tip.
pub fn health_check(store: &PriceStore, chain_tip: usize) -> (health: HealthResponse)
    ensures
        health.synced_height == (match last_of(store@) {
            Some(height) => height,
            None => 0,
        }),
        health.chain_tip == chain_tip,
        health.syncing <==> health.synced_height < chain_tip,
{
    let synced: usize = match store.last_height() {
        Some(height) => height,
        None => 0,
    };
    HealthResponse { synced_height: synced, chain_tip, syncing: synced < chain_tip }
}

impl SessionView {
    /// The order in which a session passes through its states.
    pub open spec fn rank(self) -> nat {
        match self {
            SessionView::DateSearch { .. } => 4,
            SessionView::RangeFrom { .. } => 4,
            SessionView::RangeTo { .. } => 3,
            SessionView::RangeRows { .. } => 2,
            SessionView::AtHeight { .. } => 1,
            SessionView::AtDate { .. } => 1,
            SessionView::AtLatest { .. } => 1,
            SessionView::Done { .. } => 0,
        }
    }

    /// The heights that the session may still ask for in its state.
    pub open spec fn remaining(self) -> int {
        match self {
            SessionView::DateSearch { search, .. } => search.hi - search.lo,
            SessionView::RangeFrom { search, .. } => search.hi - search.lo,
            SessionView::RangeTo { search, .. } => search.hi - search.lo,
            SessionView::RangeRows { scan } => scan.end - scan.next,
            _ => 0,
        }
    }

    /// The session after it was told what it asked for, where `prices` and `timestamps` are what
    /// reading gives at each height of a store of `len` records.
    pub open spec fn step(
        self,
        prices: spec_fn(nat) -> Option<u64>,
        timestamps: spec_fn(nat) -> Option<u32>,
        len: nat,
    ) -> SessionView {
        match self.ask() {
            Some(Ask::Timestamp(h)) => self.with_timestamp(timestamps(h as nat), len),
            Some(Ask::Record(h)) => self.with_record(prices(h as nat), timestamps(h as nat)),
            None => self,
        }
    }

    /// The reply that the session ends with.
    pub open spec fn run(
        self,
        prices: spec_fn(nat) -> Option<u64>,
        timestamps: spec_fn(nat) -> Option<u32>,
        len: nat,
    ) -> Option<ReplyView>
        decreases self.rank(), self.remaining(),
    {
        match self {
            SessionView::Done { reply } => Some(reply),
            _ => if self.ask() is Some {
                self.step(prices, timestamps, len).run(prices, timestamps, len)
            } else {
                None
            },
        }
    }
}

/// The answer to a request for the price at a date.
pub open spec fn date_answer(
    date: Seq<char>,
    prices: spec_fn(nat) -> Option<u64>,
    timestamps: spec_fn(nat) -> Option<u32>,
    len: nat,
) -> ReplyView {
    match date_timestamp(date) {
        None => ReplyView::Refused {
            status: Status::BadRequest,
            error: "Invalid date format. Use YYYY-MM-DD"@,
        },
        Some(ts) => found_date_answer(
            date,
            SearchView::start(ts, len).run(timestamps),
            prices,
            timestamps,
        ),
    }
}

/// The answer to a request for the price at a date, once its first height was searched.
pub open spec fn found_date_answer(
    date: Seq<char>,
    found: Option<nat>,
    prices: spec_fn(nat) -> Option<u64>,
    timestamps: spec_fn(nat) -> Option<u32>,
) -> ReplyView {
    match found {
        Some(height) => date_reply(date, height, prices(height), timestamps(height)),
        None => ReplyView::Refused {
            status: Status::NotFound,
            error: "No blocks found for this date"@,
        },
    }
}

/// The answer to a request for the last price.
pub open spec fn latest_answer(
    prices: spec_fn(nat) -> Option<u64>,
    timestamps: spec_fn(nat) -> Option<u32>,
    len: nat,
) -> ReplyView {
    match last_of(len) {
        Some(height) => latest_reply(height, prices(height), timestamps(height)),
        None => ReplyView::Refused {
            status: Status::ServiceUnavailable,
            error: "Not yet synced"@,
        },
    }
}

/// The rows that `from..to` is answered with: those of the heights that the store has, at most
/// [`MAX_ENTRIES`] of them.
pub open spec fn capped_rows(
    from: nat,
    to: nat,
    prices: spec_fn(nat) -> Option<u64>,
    timestamps: spec_fn(nat) -> Option<u32>,
    len: nat,
) -> Seq<Row> {
    rows_between(prices, timestamps, from, least(least(to, from + MAX_ENTRIES as nat), len))
}

/// The first height of a range that begins at `from_ts`.
pub open spec fn range_start(
    from_ts: u32,
    timestamps: spec_fn(nat) -> Option<u32>,
    len: nat,
) -> nat {
    match SearchView::start(from_ts, len).run(timestamps) {
        Some(h) => h,
        None => 0,
    }
}

/// The height after a range that ends before `end_ts`.
pub open spec fn range_end(end_ts: u32, timestamps: spec_fn(nat) -> Option<u32>, len: nat) -> nat {
    match SearchView::start(end_ts, len).run(timestamps) {
        Some(h) => h,
        None => len,
    }
}

/// The answer to a request for a range.
pub open spec fn range_answer(
    from: Seq<char>,
    to: Seq<char>,
    prices: spec_fn(nat) -> Option<u64>,
    timestamps: spec_fn(nat) -> Option<u32>,
    len: nat,
) -> ReplyView {
    if is_date_range(from) {
        match (date_timestamp(from), date_timestamp(to)) {
            (None, _) => ReplyView::Refused {
                status: Status::BadRequest,
                error: "Invalid 'from' date"@,
            },
            (_, None) => ReplyView::Refused {
                status: Status::BadRequest,
                error: "Invalid 'to' date"@,
            },
            (Some(from_ts), Some(to_ts)) => ReplyView::Range {
                rows: capped_rows(
                    range_start(from_ts, timestamps, len),
                    range_end((to_ts + SECONDS_PER_DAY) as u32, timestamps, len),
                    prices,
                    timestamps,
                    len,
                ),
            },
        }
    } else {
        ReplyView::Range {
            rows: capped_rows(
                height_or_zero(from),
                height_or_zero(to) + 1,
                prices,
                timestamps,
                len,
            ),
        }
    }
}

/// A search for a date ends with the answer for the height that it finds.
proof fn lemma_date_run(
    date: Seq<char>,
    search: SearchView,
    prices: spec_fn(nat) -> Option<u64>,
    timestamps: spec_fn(nat) -> Option<u32>,
    len: nat,
)
    requires
        search.lo <= search.hi <= search.len <= usize::MAX,
    ensures
        SessionView::searching_date(date, search).run(prices, timestamps, len) == Some(
            found_date_answer(date, search.run(timestamps), prices, timestamps),
        ),
    decreases search.reads_left(),
{
    let session = SessionView::searching_date(date, search);
    match search.next_read() {
        Some(h) => {
            let next = search.resumed(timestamps(h));
            assert(session.step(prices, timestamps, len) == SessionView::searching_date(
                date,
                next,
            ));
            lemma_date_run(date, next, prices, timestamps, len);
        },
        None => {
            reveal_with_fuel(SessionView::run, 2);
        },
    }
}

/// A scan ends with its rows.
proof fn lemma_scan_run(
    scan: ScanView,
    prices: spec_fn(nat) -> Option<u64>,
    timestamps: spec_fn(nat) -> Option<u32>,
    len: nat,
)
    requires
        scan.end <= usize::MAX,
    ensures
        SessionView::scanning(scan).run(prices, timestamps, len) == Some(
            ReplyView::Range { rows: scan.run(prices, timestamps) },
        ),
    decreases scan.end - scan.next,
{
    if let Some(h) = scan.next_read() {
        let next = scan.resumed(prices(h), timestamps(h));
        assert(SessionView::scanning(scan).step(prices, timestamps, len) == SessionView::scanning(
            next,
        ));
        lemma_scan_run(next, prices, timestamps, len);
    }
}

/// A range of heights ends with its rows, capped.
proof fn lemma_rows_run(
    from: nat,
    to: nat,
    prices: spec_fn(nat) -> Option<u64>,
    timestamps: spec_fn(nat) -> Option<u32>,
    len: nat,
)
    requires
        len <= usize::MAX,
    ensures
        SessionView::reading_rows(from, to, len).run(prices, timestamps, len) == Some(
            ReplyView::Range { rows: capped_rows(from, to, prices, timestamps, len) },
        ),
{
    let capped = least(to, from + MAX_ENTRIES as nat);
    lemma_scan_run(ScanView::start(from, capped, len), prices, timestamps, len);
    law_scan_rows(prices, timestamps, from, capped, len);
}

/// A search for the end of a range ends with the rows before the height that it finds.
proof fn lemma_to_run(
    from: nat,
    search: SearchView,
    prices: spec_fn(nat) -> Option<u64>,
    timestamps: spec_fn(nat) -> Option<u32>,
    len: nat,
)
    requires
        search.lo <= search.hi <= search.len,
        search.len == len <= usize::MAX,
    ensures
        SessionView::searching_to(from, search, len).run(prices, timestamps, len) == Some(
            ReplyView::Range {
                rows: capped_rows(
                    from,
                    match search.run(timestamps) {
                        Some(h) => h,
                        None => len,
                    },
                    prices,
                    timestamps,
                    len,
                ),
            },
        ),
    decreases search.reads_left(),
{
    match search.next_read() {
        Some(h) => {
            let next = search.resumed(timestamps(h));
            assert(SessionView::searching_to(from, search, len).step(prices, timestamps, len)
                == SessionView::searching_to(from, next, len));
            lemma_to_run(from, next, prices, timestamps, len);
        },
        None => {
            let to = match search.outcome() {
                Some(h) => h,
                None => len,
            };
            lemma_rows_run(from, to, prices, timestamps, len);
        },
    }
}

/// A search for the start of a range ends with the rows from the height that it finds.
proof fn lemma_from_run(
    to_ts: u32,
    search: SearchView,
    prices: spec_fn(nat) -> Option<u64>,
    timestamps: spec_fn(nat) -> Option<u32>,
    len: nat,
)
    requires
        search.lo <= search.hi <= search.len,
        search.len == len <= usize::MAX,
    ensures
        SessionView::searching_from(to_ts, search, len).run(prices, timestamps, len) == Some(
            ReplyView::Range {
                rows: capped_rows(
                    match search.run(timestamps) {
                        Some(h) => h,
                        None => 0,
                    },
                    range_end(to_ts, timestamps, len),
                    prices,
                    timestamps,
                    len,
                ),
            },
        ),
    decreases search.reads_left(),
{
    match search.next_read() {
        Some(h) => {
            let next = search.resumed(timestamps(h));
            assert(SessionView::searching_from(to_ts, search, len).step(prices, timestamps, len)
                == SessionView::searching_from(to_ts, next, len));
            lemma_from_run(to_ts, next, prices, timestamps, len);
        },
        None => {
            let from = match search.outcome() {
                Some(h) => h,
                None => 0,
            };
            lemma_to_run(from, SearchView::start(to_ts, len), prices, timestamps, len);
        },
    }
}

/// Whatever is read, and however the store grows meanwhile, every answer brings a session closer
/// to its reply: it passes on to a later state, or has fewer heights left to ask for.
pub proof fn law_session_progresses(
    session: SessionView,
    price: Option<u64>,
    timestamp: Option<u32>,
    len: nat,
)
    requires
        session.ask() is Some,
    ensures
        ({
            let next = if session.ask()->0 is Timestamp {
                session.with_timestamp(timestamp, len)
            } else {
                session.with_record(price, timestamp)
            };
            ||| next.rank() < session.rank()
            ||| next.rank() == session.rank() && 0 <= next.remaining() < session.remaining()
        }),
{
}

/// A request for a height ends with the record of that height.
pub proof fn law_height_answer(
    height: nat,
    prices: spec_fn(nat) -> Option<u64>,
    timestamps: spec_fn(nat) -> Option<u32>,
    len: nat,
)
    requires
        height <= usize::MAX,
    ensures
        (SessionView::AtHeight { height }).run(prices, timestamps, len) == Some(
            height_reply(height, prices(height), timestamps(height)),
        ),
{
    reveal_with_fuel(SessionView::run, 2);
}

/// A request for a date ends with the record of the height that the search for its timestamp
/// finds.
pub proof fn law_date_answer(
    date: Seq<char>,
    prices: spec_fn(nat) -> Option<u64>,
    timestamps: spec_fn(nat) -> Option<u32>,
    len: nat,
)
    requires
        len <= usize::MAX,
    ensures
        date_session(date, len).run(prices, timestamps, len) == Some(
            date_answer(date, prices, timestamps, len),
        ),
{
    if let Some(ts) = date_timestamp(date) {
        lemma_date_run(date, SearchView::start(ts, len), prices, timestamps, len);
    }
}

/// A request for the last price ends with the record of the last height.
pub proof fn law_latest_answer(
    prices: spec_fn(nat) -> Option<u64>,
    timestamps: spec_fn(nat) -> Option<u32>,
    len: nat,
)
    requires
        len <= usize::MAX,
    ensures
        latest_session(len).run(prices, timestamps, len) == Some(
            latest_answer(prices, timestamps, len),
        ),
{
    reveal_with_fuel(SessionView::run, 2);
}

/// A request for a range ends with the rows of the heights that it names, or that the searches
/// for its two timestamps find.
pub proof fn law_range_answer(
    from: Seq<char>,
    to: Seq<char>,
    prices: spec_fn(nat) -> Option<u64>,
    timestamps: spec_fn(nat) -> Option<u32>,
    len: nat,
)
    requires
        range_computable(from, to),
        len <= usize::MAX,
    ensures
        range_session(from, to, len).run(prices, timestamps, len) == Some(
            range_answer(from, to, prices, timestamps, len),
        ),
{
    if is_date_range(from) {
        if let (Some(from_ts), Some(to_ts)) = (date_timestamp(from), date_timestamp(to)) {
            lemma_from_run(
                (to_ts + SECONDS_PER_DAY) as u32,
                SearchView::start(from_ts, len),
                prices,
                timestamps,
                len,
            );
        }
    } else {
        lemma_rows_run(height_or_zero(from), height_or_zero(to) + 1, prices, timestamps, len);
    }
}

/// The heights `first..end` whose rows a range is answered with, where it is answered with rows.
pub open spec fn range_heights(
    from: Seq<char>,
    to: Seq<char>,
    timestamps: spec_fn(nat) -> Option<u32>,
    len: nat,
) -> (nat, nat) {
    let (first, end) = if is_date_range(from) {
        (
            range_start(date_timestamp(from)->0, timestamps, len),
            range_end((date_timestamp(to)->0 + SECONDS_PER_DAY) as u32, timestamps, len),
        )
    } else {
        (height_or_zero(from), height_or_zero(to) + 1)
    };
    (first, least(least(end, first + MAX_ENTRIES as nat), len))
}

/// No range is answered with more than [`MAX_ENTRIES`] rows, and the heights of its rows rise.
/// Where the records of the range can be read, no height is left out: row `i` is the record of the
/// first height plus `i`.
pub proof fn law_range_capped(
    from: Seq<char>,
    to: Seq<char>,
    prices: spec_fn(nat) -> Option<u64>,
    timestamps: spec_fn(nat) -> Option<u32>,
    len: nat,
)
    requires
        range_computable(from, to),
        len <= usize::MAX,
    ensures
        range_answer(from, to, prices, timestamps, len) matches ReplyView::Range { rows } ==> {
            let (first, end) = range_heights(from, to, timestamps, len);
            &&& rows.len() <= MAX_ENTRIES
            &&& forall|i: int, j: int|
                0 <= i < j < rows.len() ==> (#[trigger] rows[i]).0 < (#[trigger] rows[j]).0
            &&& (forall|h: nat| first <= h < end ==> #[trigger] prices(h) is Some) && (forall|
                h: nat,
            | first <= h < end ==> #[trigger] timestamps(h) is Some) ==> {
                &&& rows.len() == (if first <= end {
                    end - first
                } else {
                    0
                })
                &&& forall|i: int|
                    0 <= i < rows.len() ==> #[trigger] rows[i] == (
                        (first + i) as usize,
                        prices((first + i) as nat)->0,
                        timestamps((first + i) as nat)->0,
                    )
            }
        },
{
    let (first, end) = range_heights(from, to, timestamps, len);
    law_rows_sound(prices, timestamps, first, end);
    if first <= end && (forall|h: nat| first <= h < end ==> #[trigger] prices(h) is Some) && (
    forall|h: nat| first <= h < end ==> #[trigger] timestamps(h) is Some) {
        law_rows_complete(prices, timestamps, first, end);
    }
}

/// Where timestamps never go back, the price at a date is that of the first block of the date or
/// after it: no earlier block is from that day on.
pub proof fn law_date_first_block(
    date: Seq<char>,
    prices: spec_fn(nat) -> Option<u64>,
    timestamps: spec_fn(nat) -> Option<u32>,
    len: nat,
)
    requires
        in_order(timestamps, len),
        forall|h: nat| h < len ==> #[trigger] prices(h) is Some,
        date_timestamp(date) is Some,
    ensures
        match date_answer(date, prices, timestamps, len) {
            ReplyView::DatePrice { date: d, height, price, timestamp } => {
                &&& d == date
                &&& height < len
                &&& prices(height) == Some(price)
                &&& timestamps(height) == Some(timestamp)
                &&& forall|k: nat|
                    k < len ==> (k < height <==> (#[trigger] timestamps(k))->0 < date_timestamp(
                        date,
                    )->0)
            },
            ReplyView::Refused { status, error } => {
                &&& status == Status::NotFound
                &&& error == "No blocks found for this date"@
                &&& forall|k: nat|
                    k < len ==> (#[trigger] timestamps(k))->0 < date_timestamp(date)->0
            },
            _ => false,
        },
{
    law_search_first(timestamps, date_timestamp(date)->0, len);
}

/// Where timestamps never go back, a range of dates is answered with the blocks of its days, the
/// whole last day included, up to [`MAX_ENTRIES`] of them; provided that the range does not begin
/// after the last block.
pub proof fn law_range_of_days(
    from: Seq<char>,
    to: Seq<char>,
    prices: spec_fn(nat) -> Option<u64>,
    timestamps: spec_fn(nat) -> Option<u32>,
    len: nat,
)
    requires
        in_order(timestamps, len),
        is_date_range(from),
        range_computable(from, to),
        date_timestamp(from) is Some,
        date_timestamp(to) is Some,
        exists|h: nat| h < len && (#[trigger] timestamps(h))->0 >= date_timestamp(from)->0,
    ensures
        ({
            let from_ts = date_timestamp(from)->0;
            let end_ts = (date_timestamp(to)->0 + SECONDS_PER_DAY) as u32;
            let first = range_start(from_ts, timestamps, len);
            let end = range_end(end_ts, timestamps, len);
            &&& range_answer(from, to, prices, timestamps, len) == (ReplyView::Range {
                rows: capped_rows(first, end, prices, timestamps, len),
            })
            &&& end <= len
            &&& forall|h: nat|
                h < len ==> (first <= h < end <==> from_ts <= (#[trigger] timestamps(h))->0
                    < end_ts)
        }),
{
    let from_ts = date_timestamp(from)->0;
    let end_ts = (date_timestamp(to)->0 + SECONDS_PER_DAY) as u32;
    law_search_first(timestamps, from_ts, len);
    law_search_first(timestamps, end_ts, len);
}

/// What was just appended to the store is what a request for the last price is answered with.
pub proof fn law_appended_is_latest(files: Files, len: nat, price: u64, timestamp: u32)
    requires
        len <= files.records(),
    ensures
        ({
            let after = files.after(price_write(len, price)).after(timestamp_write(len, timestamp));
            latest_answer(
                |h: nat| after.price(len + 1, h),
                |h: nat| after.timestamp(len + 1, h),
                len + 1,
            ) == (ReplyView::Latest { height: len, price, timestamp })
        }),
{
    law_append_reads_back(files, len, price, timestamp, len);
}

/// A request for a height that the store does not have yet is refused.
pub proof fn law_unsynced_height_refused(files: Files, len: nat, height: nat)
    requires
        height >= len,
    ensures
        height_reply(height, files.price(len, height), files.timestamp(len, height)) == (
        ReplyView::Refused { status: Status::NotFound, error: unknown_height_text(height) }),
{
}

/// Whether a session that asks, and is told what `prices` and `timestamps` have at the height that
/// it asked for, goes on as `next`.
pub open spec fn session_goes_on(
    session: Session,
    ask: Ask,
    prices: spec_fn(nat) -> Option<u64>,
    timestamps: spec_fn(nat) -> Option<u32>,
    store: &PriceStore,
    next: Session,
) -> bool {
    &&& call_ensures(Session::ask, (&session,), Some(ask))
    &&& match ask {
        Ask::Timestamp(h) => call_ensures(
            Session::with_timestamp,
            (session, timestamps(h as nat), store),
            next,
        ),
        Ask::Record(h) => call_ensures(
            Session::with_record,
            (session, prices(h as nat), timestamps(h as nat)),
            next,
        ),
    }
}

/// Whether a session, from its first step to its last, is told what it asks for, and ends with the
/// reply.
pub open spec fn is_answered(
    steps: Seq<Session>,
    asks: Seq<Ask>,
    prices: spec_fn(nat) -> Option<u64>,
    timestamps: spec_fn(nat) -> Option<u32>,
    store: &PriceStore,
    reply: Reply,
) -> bool {
    &&& steps.len() == asks.len() + 1
    &&& forall|i: int|
        #![trigger asks[i]]
        0 <= i < asks.len() ==> session_goes_on(
            steps[i],
            asks[i],
            prices,
            timestamps,
            store,
            steps[i + 1],
        )
    &&& call_ensures(Session::into_reply, (steps.last(),), Some(reply))
}

/// A session that is answered comes to the reply that its first step leads to.
proof fn lemma_answered(
    steps: Seq<Session>,
    asks: Seq<Ask>,
    prices: spec_fn(nat) -> Option<u64>,
    timestamps: spec_fn(nat) -> Option<u32>,
    store: &PriceStore,
    reply: Reply,
)
    requires
        is_answered(steps, asks, prices, timestamps, store, reply),
    ensures
        steps[0]@.run(prices, timestamps, store@) == Some(reply@),
    decreases steps.len(),
{
    if asks.len() > 0 {
        let (rest, rest_asks) = (steps.drop_first(), asks.drop_first());
        assert(session_goes_on(steps[0], asks[0], prices, timestamps, store, steps[1]));
        assert forall|i: int| #![trigger rest_asks[i]] 0 <= i < rest_asks.len() implies session_goes_on(
            rest[i],
            rest_asks[i],
            prices,
            timestamps,
            store,
            rest[i + 1],
        ) by {
            assert(asks[i + 1] == rest_asks[i]);
        }
        assert(rest.last() == steps.last());
        lemma_answered(rest, rest_asks, prices, timestamps, store, reply);
        assert(steps[0]@.ask() == Some(asks[0]));
        assert(rest[0]@ == steps[0]@.step(prices, timestamps, store@));
    }
}

/// A request for a height is answered with that height's own record, price and timestamp as they
/// were read, all bits of them; a height with a part missing is not found, and the refusal names
/// it.
pub proof fn law_answered_at_height(
    height: usize,
    steps: Seq<Session>,
    asks: Seq<Ask>,
    prices: spec_fn(nat) -> Option<u64>,
    timestamps: spec_fn(nat) -> Option<u32>,
    store: &PriceStore,
    reply: Reply,
)
    requires
        call_ensures(get_price_at_height, (height,), steps[0]),
        is_answered(steps, asks, prices, timestamps, store, reply),
    ensures
        match (prices(height as nat), timestamps(height as nat)) {
            (Some(price), Some(timestamp)) => reply == Reply::Price(
                PriceResponse { height, price, timestamp },
            ),
            _ => {
                &&& reply is Refused
                &&& reply->Refused_0 == Status::NotFound
                &&& reply->Refused_1.error@ == "Height "@ + decimal(height as nat)
                    + " not yet synced or out of range"@
            },
        },
{
    lemma_answered(steps, asks, prices, timestamps, store, reply);
    law_height_answer(height as nat, prices, timestamps, store@);
}

/// What was appended as the record of a height is what a request for that height is answered with,
/// and requests for earlier heights are answered as before.
pub proof fn law_answered_as_appended(
    files: Files,
    len: nat,
    price: u64,
    timestamp: u32,
    height: usize,
    steps: Seq<Session>,
    asks: Seq<Ask>,
    store: &PriceStore,
    reply: Reply,
)
    requires
        len <= files.records(),
        height <= len,
        call_ensures(get_price_at_height, (height,), steps[0]),
        ({
            let after = files.after(price_write(len, price)).after(timestamp_write(len, timestamp));
            is_answered(
                steps,
                asks,
                |h: nat| after.price(len + 1, h),
                |h: nat| after.timestamp(len + 1, h),
                store,
                reply,
            )
        }),
    ensures
        height == len ==> reply == Reply::Price(PriceResponse { height, price, timestamp }),
        height < len && files.price(len, height as nat) is Some && files.timestamp(
            len,
            height as nat,
        ) is Some ==> reply == Reply::Price(
            PriceResponse {
                height,
                price: files.price(len, height as nat)->0,
                timestamp: files.timestamp(len, height as nat)->0,
            },
        ),
{
    let after = files.after(price_write(len, price)).after(timestamp_write(len, timestamp));
    law_append_reads_back(files, len, price, timestamp, height as nat);
    law_answered_at_height(
        height,
        steps,
        asks,
        |h: nat| after.price(len + 1, h),
        |h: nat| after.timestamp(len + 1, h),
        store,
        reply,
    );
}

/// A request for the last price is answered with the record of the height one below the number of
/// records, as it was read; with a refusal where there is none.
pub proof fn law_answered_latest(
    steps: Seq<Session>,
    asks: Seq<Ask>,
    prices: spec_fn(nat) -> Option<u64>,
    timestamps: spec_fn(nat) -> Option<u32>,
    store: &PriceStore,
    reply: Reply,
)
    requires
        store@ <= usize::MAX,
        call_ensures(get_latest_price, (store,), steps[0]),
        is_answered(steps, asks, prices, timestamps, store, reply),
    ensures
        store@ == 0 ==> {
            &&& reply is Refused
            &&& reply->Refused_0 == Status::ServiceUnavailable
            &&& reply->Refused_1.error@ == "Not yet synced"@
        },
        store@ > 0 ==> match (prices((store@ - 1) as nat), timestamps((store@ - 1) as nat)) {
            (Some(price), Some(timestamp)) => reply == Reply::Latest(
                LatestResponse { height: (store@ - 1) as usize, price, timestamp },
            ),
            _ => {
                &&& reply is Refused
                &&& reply->Refused_0 == Status::ServiceUnavailable
                &&& reply->Refused_1.error@ == "No data yet"@
            },
        },
{
    lemma_answered(steps, asks, prices, timestamps, store, reply);
    law_latest_answer(prices, timestamps, store@);
}

/// A request for a date is answered with the record of the boundary between the blocks before the
/// date's timestamp and the others, and with the date as it was asked for; a text that is no date
/// is a bad request; and a date after the last block, or without a record, is not found.
pub proof fn law_answered_at_date(
    date: String,
    text: &str,
    timestamp: Option<u32>,
    steps: Seq<Session>,
    asks: Seq<Ask>,
    prices: spec_fn(nat) -> Option<u64>,
    timestamps: spec_fn(nat) -> Option<u32>,
    store: &PriceStore,
    reply: Reply,
)
    requires
        store@ <= usize::MAX,
        text@ == date@,
        call_ensures(parse_date_to_timestamp, (text,), timestamp),
        call_ensures(get_price_at_date, (date, store), steps[0]),
        is_answered(steps, asks, prices, timestamps, store, reply),
    ensures
        timestamp is None ==> {
            &&& reply is Refused
            &&& reply->Refused_0 == Status::BadRequest
            &&& reply->Refused_1.error@ == "Invalid date format. Use YYYY-MM-DD"@
        },
        timestamp is Some ==> {
            let found = boundary(timestamps, timestamp->0, 0, store@);
            let height = found->0;
            if found is Some && height < store@ {
                match (prices(height), timestamps(height)) {
                    (Some(p), Some(ts)) => {
                        &&& reply is DatePrice
                        &&& reply->DatePrice_0.date@ == date@
                        &&& reply->DatePrice_0.height == height
                        &&& reply->DatePrice_0.price == p
                        &&& reply->DatePrice_0.timestamp == ts
                    },
                    _ => {
                        &&& reply is Refused
                        &&& reply->Refused_0 == Status::NotFound
                        &&& reply->Refused_1.error@ == "Price data not available for this date"@
                    },
                }
            } else {
                &&& reply is Refused
                &&& reply->Refused_0 == Status::NotFound
                &&& reply->Refused_1.error@ == "No blocks found for this date"@
            }
        },
{
    lemma_answered(steps, asks, prices, timestamps, store, reply);
    law_date_answer(date@, prices, timestamps, store@);
    if timestamp is Some {
        lemma_start_boundary(timestamps, timestamp->0, store@);
    }
}

/// Where timestamps never go back, a request for a day of 1970 to 2105 is answered with the first
/// block that is not before the day: it and all later blocks are at or after the day's first
/// second, and all earlier ones before it. If all blocks are earlier, none is found.
pub proof fn law_answered_first_block_of_day(
    year: int,
    month: int,
    day: int,
    date: String,
    text: &str,
    timestamp: Option<u32>,
    steps: Seq<Session>,
    asks: Seq<Ask>,
    prices: spec_fn(nat) -> Option<u64>,
    timestamps: spec_fn(nat) -> Option<u32>,
    store: &PriceStore,
    reply: Reply,
)
    requires
        1970 <= year <= 2105,
        is_civil_date(year, month, day),
        date@ == date_text(year, month, day),
        text@ == date@,
        call_ensures(parse_date_to_timestamp, (text,), timestamp),
        store@ <= usize::MAX,
        in_order(timestamps, store@),
        forall|h: nat| h < store@ ==> #[trigger] prices(h) is Some,
        call_ensures(get_price_at_date, (date, store), steps[0]),
        is_answered(steps, asks, prices, timestamps, store, reply),
    ensures
        reply is DatePrice || reply is Refused,
        reply is DatePrice ==> {
            let answer = reply->DatePrice_0;
            &&& answer.date@ == date@
            &&& answer.height < store@
            &&& prices(answer.height as nat) == Some(answer.price)
            &&& timestamps(answer.height as nat) == Some(answer.timestamp)
            &&& forall|k: nat|
                k < store@ ==> (answer.height <= k <==> (#[trigger] timestamps(k))->0 >= 86400
                    * day_number(year, month, day))
        },
        reply is Refused ==> {
            &&& reply->Refused_0 == Status::NotFound
            &&& reply->Refused_1.error@ == "No blocks found for this date"@
            &&& forall|k: nat|
                k < store@ ==> (#[trigger] timestamps(k))->0 < 86400 * day_number(year, month, day)
        },
{
    law_date_text_read(year, month, day, text, timestamp);
    lemma_day_range(year, month, day);
    law_answered_at_date(
        date,
        text,
        timestamp,
        steps,
        asks,
        prices,
        timestamps,
        store,
        reply,
    );
    lemma_start_boundary(timestamps, timestamp->0, store@);
    law_search_first(timestamps, timestamp->0, store@);
}

/// A range of heights is answered with exactly the records of the heights from the first to the
/// second, both included, that the store has, at most 10,000 heights of them. A text that is no
/// height counts as zero.
pub proof fn law_answered_heights(
    params: &RangeParams,
    steps: Seq<Session>,
    asks: Seq<Ask>,
    prices: spec_fn(nat) -> Option<u64>,
    timestamps: spec_fn(nat) -> Option<u32>,
    store: &PriceStore,
    reply: Reply,
    a: nat,
    b: nat,
)
    requires
        store@ <= usize::MAX,
        !params.from@.contains('-'),
        a == (match unsigned_up_to(params.from@, usize::MAX as nat) {
            Some(v) => v,
            None => 0,
        }),
        b == (match unsigned_up_to(params.to@, usize::MAX as nat) {
            Some(v) => v,
            None => 0,
        }),
        a + 10_000 <= usize::MAX,
        b < usize::MAX,
        call_ensures(get_price_range, (params, store), steps[0]),
        is_answered(steps, asks, prices, timestamps, store, reply),
    ensures
        reply is Range,
        forall|i: int, j: int|
            0 <= i < j < reply->Range_0@.len() ==> (#[trigger] reply->Range_0@[i]).0 < (
            #[trigger] reply->Range_0@[j]).0,
        forall|row: Row| #[trigger]
            reply->Range_0@.contains(row) <==> {
                &&& a <= row.0 <= b
                &&& row.0 < a + 10_000
                &&& row.0 < store@
                &&& prices(row.0 as nat) == Some(row.1)
                &&& timestamps(row.0 as nat) == Some(row.2)
            },
{
    lemma_answered(steps, asks, prices, timestamps, store, reply);
    law_range_answer(params.from@, params.to@, prices, timestamps, store@);
    let end = least(least(b + 1, a + 10_000), store@);
    law_rows_exact(prices, timestamps, a, end);
}

/// A range of heights includes both ends: the request with the decimal texts of `a` and `b` is
/// answered with `b - a + 1` rows, and row `i` is the record of height `a + i`.
pub proof fn law_answered_height_range(
    a: nat,
    b: nat,
    params: &RangeParams,
    len: usize,
    steps: Seq<Session>,
    asks: Seq<Ask>,
    prices: spec_fn(nat) -> Option<u64>,
    timestamps: spec_fn(nat) -> Option<u32>,
    store: &PriceStore,
    reply: Reply,
)
    requires
        call_ensures(PriceStore::len, (store,), len),
        a <= b < store@,
        b - a < 10_000,
        params.from@ == decimal(a),
        params.to@ == decimal(b),
        forall|h: nat| a <= h <= b ==> #[trigger] prices(h) is Some,
        forall|h: nat| a <= h <= b ==> #[trigger] timestamps(h) is Some,
        call_ensures(get_price_range, (params, store), steps[0]),
        is_answered(steps, asks, prices, timestamps, store, reply),
    ensures
        reply is Range,
        reply->Range_0@.len() == b - a + 1,
        forall|i: int|
            0 <= i <= b - a ==> #[trigger] reply->Range_0@[i] == (
                (a + i) as usize,
                prices((a + i) as nat)->0,
                timestamps((a + i) as nat)->0,
            ),
{
    law_decimal_text(a, usize::MAX as nat);
    law_decimal_text(b, usize::MAX as nat);
    law_answered_heights(
        params,
        steps,
        asks,
        prices,
        timestamps,
        store,
        reply,
        a,
        b,
    );
    let rows = reply->Range_0@;
    assert(are_records(rows, prices, timestamps, a, b + 1));
    law_records_in_place(rows, prices, timestamps, a, b + 1);
}

/// A range of dates is answered with exactly the records from the boundary of the first date up to
/// the boundary of the day after the second, at most 10,000 heights of them; if the first date is
/// after the last block, from height zero, and if the second one's day is not over, up to the last
/// block. A text that is no date is a bad request.
pub proof fn law_answered_dates(
    params: &RangeParams,
    from: &str,
    to: &str,
    from_ts: Option<u32>,
    to_ts: Option<u32>,
    steps: Seq<Session>,
    asks: Seq<Ask>,
    prices: spec_fn(nat) -> Option<u64>,
    timestamps: spec_fn(nat) -> Option<u32>,
    store: &PriceStore,
    reply: Reply,
)
    requires
        store@ <= usize::MAX,
        params.from@.contains('-'),
        from@ == params.from@,
        to@ == params.to@,
        call_ensures(parse_date_to_timestamp, (from,), from_ts),
        call_ensures(parse_date_to_timestamp, (to,), to_ts),
        from_ts is Some && to_ts is Some ==> to_ts->0 + 86400 <= u32::MAX,
        call_ensures(get_price_range, (params, store), steps[0]),
        is_answered(steps, asks, prices, timestamps, store, reply),
    ensures
        from_ts is None ==> {
            &&& reply is Refused
            &&& reply->Refused_0 == Status::BadRequest
            &&& reply->Refused_1.error@ == "Invalid 'from' date"@
        },
        from_ts is Some && to_ts is None ==> {
            &&& reply is Refused
            &&& reply->Refused_0 == Status::BadRequest
            &&& reply->Refused_1.error@ == "Invalid 'to' date"@
        },
        from_ts is Some && to_ts is Some ==> {
            let begin = boundary(timestamps, from_ts->0, 0, store@);
            let stop = boundary(timestamps, (to_ts->0 + 86400) as u32, 0, store@);
            let first: nat = if begin is Some && begin->0 < store@ {
                begin->0
            } else {
                0
            };
            let end: nat = if stop is Some {
                stop->0
            } else {
                store@
            };
            &&& reply is Range
            &&& forall|i: int, j: int|
                0 <= i < j < reply->Range_0@.len() ==> (#[trigger] reply->Range_0@[i]).0 < (
                #[trigger] reply->Range_0@[j]).0
            &&& forall|row: Row| #[trigger]
                reply->Range_0@.contains(row) <==> {
                    &&& first <= row.0 < end
                    &&& row.0 < first + 10_000
                    &&& row.0 < store@
                    &&& prices(row.0 as nat) == Some(row.1)
                    &&& timestamps(row.0 as nat) == Some(row.2)
                }
        },
{
    lemma_answered(steps, asks, prices, timestamps, store, reply);
    law_range_answer(params.from@, params.to@, prices, timestamps, store@);
    if from_ts is Some && to_ts is Some {
        let end_ts = (to_ts->0 + 86400) as u32;
        lemma_start_boundary(timestamps, from_ts->0, store@);
        lemma_start_boundary(timestamps, end_ts, store@);
        let first = range_start(from_ts->0, timestamps, store@);
        let end = range_end(end_ts, timestamps, store@);
        law_rows_exact(
            prices,
            timestamps,
            first,
            least(least(end, first + 10_000), store@),
        );
    }
}

/// Where timestamps never go back, a range of two days of 1970 to 2105 is answered with exactly the
/// records of the blocks from the first second of the first day to the last second of the second
/// one, within the 10,000 heights from the first of them on; provided that the range does not begin
/// after the last block.
pub proof fn law_answered_days(
    year: int,
    month: int,
    day: int,
    last_year: int,
    last_month: int,
    last_day: int,
    params: &RangeParams,
    from: &str,
    to: &str,
    from_ts: Option<u32>,
    to_ts: Option<u32>,
    steps: Seq<Session>,
    asks: Seq<Ask>,
    prices: spec_fn(nat) -> Option<u64>,
    timestamps: spec_fn(nat) -> Option<u32>,
    store: &PriceStore,
    reply: Reply,
    first: nat,
)
    requires
        1970 <= year <= 2105,
        is_civil_date(year, month, day),
        1970 <= last_year <= 2105,
        is_civil_date(last_year, last_month, last_day),
        params.from@ == date_text(year, month, day),
        params.to@ == date_text(last_year, last_month, last_day),
        from@ == params.from@,
        to@ == params.to@,
        call_ensures(parse_date_to_timestamp, (from,), from_ts),
        call_ensures(parse_date_to_timestamp, (to,), to_ts),
        store@ <= usize::MAX,
        in_order(timestamps, store@),
        first < store@,
        forall|k: nat|
            k < store@ ==> (first <= k <==> (#[trigger] timestamps(k))->0 >= 86400 * day_number(
                year,
                month,
                day,
            )),
        call_ensures(get_price_range, (params, store), steps[0]),
        is_answered(steps, asks, prices, timestamps, store, reply),
    ensures
        reply is Range,
        forall|i: int, j: int|
            0 <= i < j < reply->Range_0@.len() ==> (#[trigger] reply->Range_0@[i]).0 < (
            #[trigger] reply->Range_0@[j]).0,
        forall|row: Row| #[trigger]
            reply->Range_0@.contains(row) <==> {
                &&& row.0 < store@
                &&& row.0 < first + 10_000
                &&& prices(row.0 as nat) == Some(row.1)
                &&& timestamps(row.0 as nat) == Some(row.2)
                &&& 86400 * day_number(year, month, day) <= row.2 < 86400 * (day_number(
                    last_year,
                    last_month,
                    last_day,
                ) + 1)
            },
{
    assert(params.from@[4] == '-');
    law_date_text_read(year, month, day, from, from_ts);
    law_date_text_read(last_year, last_month, last_day, to, to_ts);
    lemma_day_range(year, month, day);
    lemma_day_range(last_year, last_month, last_day);
    let end_ts = (to_ts->0 + 86400) as u32;
    law_answered_dates(
        params,
        from,
        to,
        from_ts,
        to_ts,
        steps,
        asks,
        prices,
        timestamps,
        store,
        reply,
    );
    lemma_start_boundary(timestamps, from_ts->0, store@);
    lemma_start_boundary(timestamps, end_ts, store@);
    law_search_first(timestamps, from_ts->0, store@);
    law_search_first(timestamps, end_ts, store@);
    let begin = boundary(timestamps, from_ts->0, 0, store@);
    assert(timestamps(first) is Some);
    assert(begin is Some && begin->0 < store@);
    assert(timestamps(begin->0) is Some);
    assert(begin->0 == first);
    let stop = boundary(timestamps, end_ts, 0, store@);
    if stop is None {
        lemma_no_boundary(timestamps, end_ts, 0, store@);
    }
    assert forall|row: Row| #[trigger] reply->Range_0@.contains(row) <==> {
        &&& row.0 < store@
        &&& row.0 < first + 10_000
        &&& prices(row.0 as nat) == Some(row.1)
        &&& timestamps(row.0 as nat) == Some(row.2)
        &&& 86400 * day_number(year, month, day) <= row.2 < 86400 * (day_number(
            last_year,
            last_month,
            last_day,
        ) + 1)
    } by {
        if row.0 < store@ {
            let k = row.0 as nat;
            assert(timestamps(k) is Some);
            assert(first <= k <==> timestamps(k)->0 >= 86400 * day_number(year, month, day));
        }
    }
}

/// A range of dates goes by the store as it is at each step, also where it has grown meanwhile: the
/// search for the end goes over the records that the store has when the first height is found, and
/// the rows are read up to the records that it has when the end is found.
pub proof fn law_range_follows_store(
    session: Session,
    timestamp: Option<u32>,
    store: &PriceStore,
    next: Session,
)
    requires
        call_ensures(Session::with_timestamp, (session, timestamp, store), next),
    ensures
        session@ matches SessionView::RangeFrom { to_ts, search } ==> {
            let found = search.resumed(timestamp);
            found.next_read() is None && store@ > 0 ==> next@ == (SessionView::RangeTo {
                from: match found.outcome() {
                    Some(h) => h,
                    None => 0,
                },
                search: SearchView { target: to_ts, len: store@, lo: 0, hi: store@, failed: false },
            })
        },
        session@ matches SessionView::RangeTo { from, search } ==> {
            let found = search.resumed(timestamp);
            let to: nat = match found.outcome() {
                Some(h) => h,
                None => store@,
            };
            let end = if to <= from + 10_000 {
                to
            } else {
                from + 10_000
            };
            let within = if end <= store@ {
                end
            } else {
                store@
            };
            found.next_read() is None ==> if from < within {
                next@ == (SessionView::RangeRows {
                    scan: ScanView { next: from, end: within, rows: Seq::empty() },
                })
            } else {
                next@ == (SessionView::Done {
                    reply: ReplyView::Range { rows: Seq::empty() },
                })
            }
        },
{
}

/// A range request can be answered exactly where its sums do not overflow: the second after the
/// last day in 32 bits, or the height after the last one and the 10,000th after the first in a
/// `usize`.
pub proof fn law_range_fits(
    params: &RangeParams,
    fits: bool,
    from: &str,
    to: &str,
    from_ts: Option<u32>,
    to_ts: Option<u32>,
)
    requires
        call_ensures(range_fits, (params,), fits),
        from@ == params.from@,
        to@ == params.to@,
        call_ensures(parse_date_to_timestamp, (from,), from_ts),
        call_ensures(parse_date_to_timestamp, (to,), to_ts),
    ensures
        fits == range_computable(params.from@, params.to@),
        params.from@.contains('-') ==> (fits <==> (from_ts is Some && to_ts is Some ==> to_ts->0
            + 86400 <= 0xffff_ffff)),
        !params.from@.contains('-') ==> (fits <==> {
            &&& unsigned_up_to(params.from@, usize::MAX as nat) matches Some(a) ==> a + 10_000
                <= usize::MAX
            &&& unsigned_up_to(params.to@, usize::MAX as nat) matches Some(b) ==> b < usize::MAX
        }),
{
}

/// The store has come to the height one below the number of its records, or to zero if it has
/// none, and it is syncing exactly while that is below the tip.
pub proof fn law_health(store: &PriceStore, chain_tip: usize, health: HealthResponse)
    requires
        call_ensures(health_check, (store, chain_tip), health),
    ensures
        store@ > 0 ==> health.synced_height == store@ - 1,
        store@ == 0 ==> health.synced_height == 0,
        health.chain_tip == chain_tip,
        health.syncing <==> health.synced_height < chain_tip,
{
}

/// A session that asks for nothing more has its reply, and one that still asks has none.
pub proof fn law_reply_ready(session: Session, ask: Option<Ask>, reply: Option<Reply>)
    requires
        call_ensures(Session::ask, (&session,), ask),
        call_ensures(Session::into_reply, (session,), reply),
    ensures
        reply is Some <==> ask is None,
{
}

/// Every step of a session, whatever it is told, brings it closer to its reply: to a later state,
/// or to fewer heights that are left to ask for.
pub proof fn law_session_comes_to_reply(
    session: Session,
    ask: Ask,
    prices: spec_fn(nat) -> Option<u64>,
    timestamps: spec_fn(nat) -> Option<u32>,
    store: &PriceStore,
    next: Session,
)
    requires
        session_goes_on(session, ask, prices, timestamps, store, next),
    ensures
        next@.rank() < session@.rank() || (next@.rank() == session@.rank() && 0
            <= next@.remaining() < session@.remaining()),
{
    let price = match ask {
        Ask::Timestamp(_) => None,
        Ask::Record(h) => prices(h as nat),
    };
    let timestamp = match ask {
        Ask::Timestamp(h) => timestamps(h as nat),
        Ask::Record(h) => timestamps(h as nat),
    };
    law_session_progresses(session@, price, timestamp, store@);
}

} // verus!
