//! Looking up records in the price store: the search for a timestamp and the scan of a range.
//!
//! Both are driven from outside. They name the height to be read next, are told what was read
//! there, and go on until nothing is left to read.

use crate::storage::PriceStore;
use vstd::prelude::*;

verus! {

/// The height that lies in the middle of `lo..hi`.
pub open spec fn middle(lo: nat, hi: nat) -> nat {
    (lo + (hi - lo) / 2) as nat
}

/// How far a search has come: heights below `lo` are too early, heights from `hi` on are not.
pub struct SearchView {
    pub target: u32,
    pub len: nat,
    pub lo: nat,
    pub hi: nat,
    pub failed: bool,
}

impl SearchView {
    /// A search that has read nothing yet.
    pub open spec fn start(target: u32, len: nat) -> SearchView {
        SearchView { target, len, lo: 0, hi: len, failed: false }
    }

    /// The height whose timestamp is read next.
    pub open spec fn next_read(self) -> Option<nat> {
        if !self.failed && self.lo < self.hi {
            Some(middle(self.lo, self.hi))
        } else {
            None
        }
    }

    /// The search after the next height's timestamp was read, or could not be.
    pub open spec fn resumed(self, timestamp: Option<u32>) -> SearchView {
        match timestamp {
            Some(ts) => if ts < self.target {
                SearchView { lo: middle(self.lo, self.hi) + 1, ..self }
            } else {
                SearchView { hi: middle(self.lo, self.hi), ..self }
            },
            None => SearchView { failed: true, ..self },
        }
    }

    /// What a search with nothing left to read has found.
    pub open spec fn outcome(self) -> Option<nat> {
        if !self.failed && self.lo < self.len {
            Some(self.lo)
        } else {
            None
        }
    }

    /// The most heights that are still to be read.
    pub open spec fn reads_left(self) -> int {
        if self.failed || self.lo >= self.hi {
            0
        } else {
            self.hi - self.lo
        }
    }

    /// What the search finds where `timestamps` is what reading gives at each height.
    pub open spec fn run(self, timestamps: spec_fn(nat) -> Option<u32>) -> Option<nat>
        decreases self.reads_left(),
    {
        match self.next_read() {
            Some(height) => self.resumed(timestamps(height)).run(timestamps),
            None => self.outcome(),
        }
    }
}

/// The search for the first height that is no earlier than a timestamp.
#[derive(Debug)]
pub struct TimestampSearch {
    target: u32,
    len: usize,
    lo: usize,
    hi: usize,
    failed: bool,
}

impl View for TimestampSearch {
    type V = SearchView;

    closed spec fn view(&self) -> SearchView {
        SearchView {
            target: self.target,
            len: self.len as nat,
            lo: self.lo as nat,
            hi: self.hi as nat,
            failed: self.failed,
        }
    }
}

impl TimestampSearch {
    #[verifier::type_invariant]
    spec fn in_bounds(self) -> bool {
        self.lo <= self.hi <= self.len
    }

    /// The height whose timestamp is to be read, or `None` once the search is over.
    pub fn next_read(&self) -> (height: Option<usize>)
        ensures
            match height {
                Some(h) => self@.next_read() == Some(h as nat) && h < self@.len,
                None => self@.next_read() is None,
            },
    {
        proof {
            use_type_invariant(self);
        }
        if !self.failed && self.lo < self.hi {
            Some(self.lo + (self.hi - self.lo) / 2)
        } else {
            None
        }
    }

    /// Goes on with the timestamp that was read, or with `None` if it could not be read.
    pub fn resume(&mut self, timestamp: Option<u32>)
        requires
            old(self)@.next_read() is Some,
        ensures
            final(self)@ == old(self)@.resumed(timestamp),
    {
        proof {
            use_type_invariant(&*self);
        }
        let mid: usize = self.lo + (self.hi - self.lo) / 2;
        match timestamp {
            Some(ts) => {
                if ts < self.target {
                    self.lo = mid + 1;
                } else {
                    self.hi = mid;
                }
            },
            None => {
                self.failed = true;
            },
        }
    }

    /// The height that the search has found.
    pub fn outcome(&self) -> (height: Option<usize>)
        requires
            self@.next_read() is None,
        ensures
            match height {
                Some(h) => self@.outcome() == Some(h as nat) && h < self@.len,
                None => self@.outcome() is None,
            },
    {
        if !self.failed && self.lo < self.len {
            Some(self.lo)
        } else {
            None
        }
    }
}

/// One row of a range: height, price and timestamp.
pub type Row = (usize, u64, u32);

/// How far a scan has come: the rows below `next` are in `rows`.
#[verifier::ext_equal]
pub struct ScanView {
    pub next: nat,
    pub end: nat,
    pub rows: Seq<Row>,
}

/// The rows that a height adds to a range: one, unless something of it could not be read.
pub open spec fn rows_with(
    rows: Seq<Row>,
    height: nat,
    price: Option<u64>,
    timestamp: Option<u32>,
) -> Seq<Row> {
    match (price, timestamp) {
        (Some(p), Some(ts)) => rows.push((height as usize, p, ts)),
        _ => rows,
    }
}

/// The rows of the heights `from..to`, in order, without those that cannot be read in full.
pub open spec fn rows_between(
    prices: spec_fn(nat) -> Option<u64>,
    timestamps: spec_fn(nat) -> Option<u32>,
    from: nat,
    to: nat,
) -> Seq<Row>
    decreases to,
{
    if to <= from {
        Seq::empty()
    } else {
        let last = (to - 1) as nat;
        rows_with(
            rows_between(prices, timestamps, from, last),
            last,
            prices(last),
            timestamps(last),
        )
    }
}

/// The smaller of two numbers.
pub open spec fn least(a: nat, b: nat) -> nat {
    if a <= b {
        a
    } else {
        b
    }
}

impl ScanView {
    /// The scan of `from..to` in a store of `len` records, before anything is read.
    pub open spec fn start(from: nat, to: nat, len: nat) -> ScanView {
        ScanView { next: from, end: least(to, len), rows: Seq::empty() }
    }

    /// The height that is read next.
    pub open spec fn next_read(self) -> Option<nat> {
        if self.next < self.end {
            Some(self.next)
        } else {
            None
        }
    }

    /// The scan after the next height was read.
    pub open spec fn resumed(self, price: Option<u64>, timestamp: Option<u32>) -> ScanView {
        ScanView {
            next: self.next + 1,
            end: self.end,
            rows: rows_with(self.rows, self.next, price, timestamp),
        }
    }

    /// The rows that the scan ends with where `prices` and `timestamps` are what reading gives
    /// at each height.
    pub open spec fn run(
        self,
        prices: spec_fn(nat) -> Option<u64>,
        timestamps: spec_fn(nat) -> Option<u32>,
    ) -> Seq<Row>
        decreases self.end - self.next,
    {
        match self.next_read() {
            Some(height) => self.resumed(prices(height), timestamps(height)).run(
                prices,
                timestamps,
            ),
            None => self.rows,
        }
    }
}

/// The scan of a range of heights.
#[derive(Debug)]
pub struct RangeScan {
    next: usize,
    end: usize,
    rows: Vec<Row>,
}

impl View for RangeScan {
    type V = ScanView;

    closed spec fn view(&self) -> ScanView {
        ScanView { next: self.next as nat, end: self.end as nat, rows: self.rows@ }
    }
}

impl RangeScan {
    /// The height whose price and timestamp are to be read, or `None` once the scan is over.
    pub fn next_read(&self) -> (height: Option<usize>)
        ensures
            match height {
                Some(h) => self@.next_read() == Some(h as nat),
                None => self@.next_read() is None,
            },
    {
        if self.next < self.end {
            Some(self.next)
        } else {
            None
        }
    }

    /// Goes on with what was read. A height with a part missing gives no row.
    pub fn resume(&mut self, price: Option<u64>, timestamp: Option<u32>)
        requires
            old(self)@.next_read() is Some,
        ensures
            final(self)@ == old(self)@.resumed(price, timestamp),
    {
        match (price, timestamp) {
            (Some(p), Some(ts)) => {
                self.rows.push((self.next, p, ts));
            },
            _ => {},
        }
        self.next = self.next + 1;
    }

    /// The rows that were read.
    pub fn into_rows(self) -> (rows: Vec<Row>)
        ensures
            rows@ == self@.rows,
    {
        self.rows
    }
}

impl PriceStore {
    /// Starts the search for the first height whose timestamp is at least `target_ts`.
    pub fn height_for_timestamp(&self, target_ts: u32) -> (search: TimestampSearch)
        ensures
            search@ == SearchView::start(target_ts, self@),
            self@ <= usize::MAX / 8 + 1,
    {
        let len: usize = self.len();
        TimestampSearch { target: target_ts, len, lo: 0, hi: len, failed: false }
    }

    /// Starts the scan of the heights `from..to` that the store has.
    pub fn get_prices_range(&self, from: usize, to: usize) -> (scan: RangeScan)
        ensures
            scan@ == ScanView::start(from as nat, to as nat, self@),
    {
        let len: usize = self.len();
        RangeScan {
            next: from,
            end: if to <= len {
                to
            } else {
                len
            },
            rows: Vec::new(),
        }
    }
}

/// Whether the timestamps of the first `len` heights can be read and never go back.
pub open spec fn in_order(timestamps: spec_fn(nat) -> Option<u32>, len: nat) -> bool {
    &&& forall|h: nat| h < len ==> #[trigger] timestamps(h) is Some
    &&& forall|h: nat, k: nat|
        h <= k < len ==> (#[trigger] timestamps(h))->0 <= (#[trigger] timestamps(k))->0
}

/// Whether the timestamp at `height` was read and is before `target`.
pub open spec fn reads_before(
    timestamps: spec_fn(nat) -> Option<u32>,
    height: nat,
    target: u32,
) -> bool {
    match timestamps(height) {
        Some(ts) => ts < target,
        None => false,
    }
}

/// Whether the timestamp at `height` was read and is not before `target`.
pub open spec fn reads_from(
    timestamps: spec_fn(nat) -> Option<u32>,
    height: nat,
    target: u32,
) -> bool {
    match timestamps(height) {
        Some(ts) => ts >= target,
        None => false,
    }
}

/// A search keeps its bounds apart: what lies just below them is too early, what lies just above
/// is not. So it ends between two such heights, or with a height that could not be read.
proof fn lemma_search(search: SearchView, timestamps: spec_fn(nat) -> Option<u32>)
    requires
        !search.failed,
        search.lo <= search.hi <= search.len,
        search.lo > 0 ==> reads_before(timestamps, (search.lo - 1) as nat, search.target),
        search.hi < search.len ==> reads_from(timestamps, search.hi, search.target),
    ensures
        match search.run(timestamps) {
            Some(h) => {
                &&& search.lo <= h < search.len
                &&& reads_from(timestamps, h, search.target)
                &&& h > 0 ==> reads_before(timestamps, (h - 1) as nat, search.target)
            },
            None => {
                ||| search.len == 0
                ||| reads_before(timestamps, (search.len - 1) as nat, search.target)
                ||| exists|h: nat| h < search.len && #[trigger] timestamps(h) is None
            },
        },
    decreases search.hi - search.lo,
{
    if search.lo < search.hi {
        let mid = middle(search.lo, search.hi);
        let next = search.resumed(timestamps(mid));
        match timestamps(mid) {
            Some(ts) => lemma_search(next, timestamps),
            None => {
                assert(next.run(timestamps) is None);
            },
        }
    }
}

/// Whatever the timestamps are, in order or not, readable or not: a height that is found is not
/// before the target, and the height below it is. If none is found, the store is empty, or its
/// last height is before the target, or some timestamp could not be read.
pub proof fn law_search_crossing(
    timestamps: spec_fn(nat) -> Option<u32>,
    target: u32,
    len: nat,
)
    ensures
        match SearchView::start(target, len).run(timestamps) {
            Some(h) => {
                &&& h < len
                &&& reads_from(timestamps, h, target)
                &&& h > 0 ==> reads_before(timestamps, (h - 1) as nat, target)
            },
            None => {
                ||| len == 0
                ||| reads_before(timestamps, (len - 1) as nat, target)
                ||| exists|h: nat| h < len && #[trigger] timestamps(h) is None
            },
        },
{
    lemma_search(SearchView::start(target, len), timestamps);
}

/// Where timestamps never go back, the search finds the first height that is not before the
/// target, and finds none exactly when all are before it.
pub proof fn law_search_first(timestamps: spec_fn(nat) -> Option<u32>, target: u32, len: nat)
    requires
        in_order(timestamps, len),
    ensures
        match SearchView::start(target, len).run(timestamps) {
            Some(h) => {
                &&& h < len
                &&& forall|k: nat|
                    k < len ==> (k < h <==> (#[trigger] timestamps(k))->0 < target)
            },
            None => forall|k: nat| k < len ==> (#[trigger] timestamps(k))->0 < target,
        },
{
    law_search_crossing(timestamps, target, len);
}

/// A scan ends with the rows of its range.
proof fn lemma_scan(
    scan: ScanView,
    prices: spec_fn(nat) -> Option<u64>,
    timestamps: spec_fn(nat) -> Option<u32>,
    from: nat,
)
    requires
        scan.rows == rows_between(prices, timestamps, from, scan.next),
        from <= scan.next,
    ensures
        scan.run(prices, timestamps) == rows_between(
            prices,
            timestamps,
            from,
            if scan.next < scan.end {
                scan.end
            } else {
                scan.next
            },
        ),
    decreases scan.end - scan.next,
{
    if scan.next < scan.end {
        let next = scan.resumed(prices(scan.next), timestamps(scan.next));
        lemma_scan(next, prices, timestamps, from);
    }
}

/// A scan of `from..to` ends with the rows of the heights in it that the store has.
pub proof fn law_scan_rows(
    prices: spec_fn(nat) -> Option<u64>,
    timestamps: spec_fn(nat) -> Option<u32>,
    from: nat,
    to: nat,
    len: nat,
)
    ensures
        ScanView::start(from, to, len).run(prices, timestamps) == rows_between(
            prices,
            timestamps,
            from,
            least(to, len),
        ),
{
    lemma_scan(ScanView::start(from, to, len), prices, timestamps, from);
}

/// Where every height of a range can be read, each has its row, at its place.
pub proof fn law_rows_complete(
    prices: spec_fn(nat) -> Option<u64>,
    timestamps: spec_fn(nat) -> Option<u32>,
    from: nat,
    to: nat,
)
    requires
        from <= to,
        forall|h: nat| from <= h < to ==> #[trigger] prices(h) is Some,
        forall|h: nat| from <= h < to ==> #[trigger] timestamps(h) is Some,
    ensures
        rows_between(prices, timestamps, from, to) == Seq::new(
            (to - from) as nat,
            |i: int|
                (
                    (from + i) as usize,
                    prices((from + i) as nat)->0,
                    timestamps((from + i) as nat)->0,
                ),
        ),
    decreases to,
{
    if from < to {
        law_rows_complete(prices, timestamps, from, (to - 1) as nat);
    }
    assert(rows_between(prices, timestamps, from, to) =~= Seq::new(
        (to - from) as nat,
        |i: int|
            (
                (from + i) as usize,
                prices((from + i) as nat)->0,
                timestamps((from + i) as nat)->0,
            ),
    ));
}

/// The rows of a range are rows of its heights, each as it was read, and their heights rise.
pub proof fn law_rows_sound(
    prices: spec_fn(nat) -> Option<u64>,
    timestamps: spec_fn(nat) -> Option<u32>,
    from: nat,
    to: nat,
)
    requires
        to <= usize::MAX,
    ensures
        ({
            let rows = rows_between(prices, timestamps, from, to);
            &&& from <= to ==> rows.len() <= to - from
            &&& to <= from ==> rows.len() == 0
            &&& forall|i: int|
                0 <= i < rows.len() ==> {
                    let (h, p, ts) = #[trigger] rows[i];
                    &&& from <= h < to
                    &&& prices(h as nat) == Some(p)
                    &&& timestamps(h as nat) == Some(ts)
                }
            &&& forall|i: int, j: int|
                0 <= i < j < rows.len() ==> (#[trigger] rows[i]).0 < (#[trigger] rows[j]).0
        }),
    decreases to,
{
    if from < to {
        law_rows_sound(prices, timestamps, from, (to - 1) as nat);
    }
}

/// The height at which halving ends up: the heights `lo..hi` are split at their middle, and the
/// upper part is kept where the middle is before the target, else the lower one, until none is
/// left; `None` if the timestamp of a middle cannot be read.
pub open spec fn boundary(
    timestamps: spec_fn(nat) -> Option<u32>,
    target: u32,
    lo: nat,
    hi: nat,
) -> Option<nat>
    decreases hi - lo,
{
    if lo >= hi {
        Some(lo)
    } else {
        let mid = (lo + hi) / 2;
        match timestamps(mid) {
            Some(ts) => if ts < target {
                boundary(timestamps, target, mid + 1, hi)
            } else {
                boundary(timestamps, target, lo, mid)
            },
            None => None,
        }
    }
}

/// A search ends where halving ends up.
proof fn lemma_search_boundary(search: SearchView, timestamps: spec_fn(nat) -> Option<u32>)
    requires
        !search.failed,
        search.lo <= search.hi <= search.len,
    ensures
        search.run(timestamps) == (match boundary(
            timestamps,
            search.target,
            search.lo,
            search.hi,
        ) {
            Some(h) => if h < search.len {
                Some(h)
            } else {
                None
            },
            None => None,
        }),
    decreases search.hi - search.lo,
{
    if search.lo < search.hi {
        let mid = middle(search.lo, search.hi);
        assert(mid == (search.lo + search.hi) / 2);
        let next = search.resumed(timestamps(mid));
        match timestamps(mid) {
            Some(ts) => lemma_search_boundary(next, timestamps),
            None => {
                assert(next.run(timestamps) is None);
            },
        }
    }
}

/// A search of a store finds the boundary, unless that is the end of the store.
pub(crate) proof fn lemma_start_boundary(
    timestamps: spec_fn(nat) -> Option<u32>,
    target: u32,
    len: nat,
)
    ensures
        SearchView::start(target, len).run(timestamps) == (match boundary(
            timestamps,
            target,
            0,
            len,
        ) {
            Some(h) => if h < len {
                Some(h)
            } else {
                None
            },
            None => None,
        }),
        boundary(timestamps, target, 0, len) is Some ==> boundary(timestamps, target, 0, len)->0
            <= len,
{
    lemma_search_boundary(SearchView::start(target, len), timestamps);
    lemma_boundary_within(timestamps, target, 0, len);
}

/// The boundary lies within the heights that are halved.
proof fn lemma_boundary_within(
    timestamps: spec_fn(nat) -> Option<u32>,
    target: u32,
    lo: nat,
    hi: nat,
)
    requires
        lo <= hi,
    ensures
        boundary(timestamps, target, lo, hi) is Some ==> lo <= boundary(
            timestamps,
            target,
            lo,
            hi,
        )->0 <= hi,
    decreases hi - lo,
{
    if lo < hi {
        let mid = (lo + hi) / 2;
        lemma_boundary_within(timestamps, target, mid + 1, hi);
        lemma_boundary_within(timestamps, target, lo, mid);
    }
}

/// Without a boundary, some timestamp cannot be read.
pub(crate) proof fn lemma_no_boundary(
    timestamps: spec_fn(nat) -> Option<u32>,
    target: u32,
    lo: nat,
    hi: nat,
)
    requires
        boundary(timestamps, target, lo, hi) is None,
    ensures
        exists|h: nat| lo <= h < hi && #[trigger] timestamps(h) is None,
    decreases hi - lo,
{
    let mid = (lo + hi) / 2;
    match timestamps(mid) {
        Some(ts) => {
            if ts < target {
                lemma_no_boundary(timestamps, target, mid + 1, hi);
            } else {
                lemma_no_boundary(timestamps, target, lo, mid);
            }
        },
        None => {},
    }
}

/// The result of a search does not change while it goes on.
proof fn lemma_search_driven(steps: Seq<SearchView>, timestamps: spec_fn(nat) -> Option<u32>)
    requires
        steps.len() > 0,
        forall|i: int|
            0 <= i < steps.len() - 1 ==> {
                &&& (#[trigger] steps[i]).next_read() is Some
                &&& steps[i + 1] == steps[i].resumed(timestamps(steps[i].next_read()->0))
            },
        steps.last().next_read() is None,
    ensures
        steps[0].run(timestamps) == steps.last().outcome(),
    decreases steps.len(),
{
    if steps.len() > 1 {
        let rest = steps.drop_first();
        assert forall|i: int| 0 <= i < rest.len() - 1 implies {
            &&& (#[trigger] rest[i]).next_read() is Some
            &&& rest[i + 1] == rest[i].resumed(timestamps(rest[i].next_read()->0))
        } by {
            assert(steps[i + 1] == rest[i]);
        }
        lemma_search_driven(rest, timestamps);
        assert(rest[0] == steps[0].resumed(timestamps(steps[0].next_read()->0)));
        assert(rest.last() == steps.last());
    }
}

/// A search of a store that is told at each call the timestamp of the height that it asked for
/// ends at the boundary that halving finds, whether the timestamps are in order or not, or with
/// none if that is the end of the store. Where they are in order, that is the first height which
/// is not before the target. It asks only for heights that the store has.
pub proof fn law_search_result(
    store: &PriceStore,
    target: u32,
    timestamps: spec_fn(nat) -> Option<u32>,
    begun: TimestampSearch,
    calls: Seq<&mut TimestampSearch>,
    reads: Seq<usize>,
    ended: &TimestampSearch,
    found: Option<usize>,
)
    requires
        call_ensures(PriceStore::height_for_timestamp, (store, target), begun),
        calls.len() == reads.len(),
        begun == (if calls.len() > 0 {
            *calls[0]
        } else {
            *ended
        }),
        forall|i: int|
            #![trigger calls[i]]
            0 <= i < calls.len() ==> call_ensures(
                TimestampSearch::next_read,
                (&*calls[i],),
                Some(reads[i]),
            ),
        forall|i: int|
            0 <= i < calls.len() ==> call_ensures(
                TimestampSearch::resume,
                (#[trigger] calls[i], timestamps(reads[i] as nat)),
                (),
            ),
        forall|i: int|
            0 <= i < calls.len() ==> *final(#[trigger] calls[i]) == (if i + 1 < calls.len() {
                *calls[i + 1]
            } else {
                *ended
            }),
        call_ensures(TimestampSearch::next_read, (ended,), None),
        call_ensures(TimestampSearch::outcome, (ended,), found),
    ensures
        match boundary(timestamps, target, 0, store@) {
            Some(h) => if h < store@ {
                found is Some && found->0 == h
            } else {
                found is None
            },
            None => found is None,
        },
        in_order(timestamps, store@) ==> match found {
            Some(h) => {
                &&& h < store@
                &&& forall|k: nat|
                    k < store@ ==> (k < h <==> (#[trigger] timestamps(k))->0 < target)
            },
            None => forall|k: nat| k < store@ ==> (#[trigger] timestamps(k))->0 < target,
        },
        forall|i: int| 0 <= i < reads.len() ==> #[trigger] reads[i] < store@,
{
    let n = calls.len();
    let steps = Seq::new(
        n + 1,
        |i: int|
            if i < n {
                (*calls[i])@
            } else {
                ended@
            },
    );
    assert forall|i: int| 0 <= i < steps.len() - 1 implies {
        &&& (#[trigger] steps[i]).next_read() is Some
        &&& steps[i + 1] == steps[i].resumed(timestamps(steps[i].next_read()->0))
    } by {
        assert(steps[i] == (*calls[i])@);
        assert(steps[i].next_read() == Some(reads[i] as nat));
        assert(*final(calls[i]) == (if i + 1 < n {
            *calls[i + 1]
        } else {
            *ended
        }));
    }
    lemma_search_driven(steps, timestamps);
    let start = SearchView::start(target, store@);
    assert(steps[0] == start);
    lemma_search_boundary(start, timestamps);
    if in_order(timestamps, store@) {
        law_search_first(timestamps, target, store@);
    }
    assert forall|i: int| 0 <= i < reads.len() implies #[trigger] reads[i] < store@ by {
        lemma_search_len(steps, timestamps, store@, i);
        assert(steps[i] == (*calls[i])@);
        assert(call_ensures(TimestampSearch::next_read, (&*calls[i],), Some(reads[i])));
    }
}

/// A search stays with the number of records that it began with.
proof fn lemma_search_len(
    steps: Seq<SearchView>,
    timestamps: spec_fn(nat) -> Option<u32>,
    len: nat,
    i: int,
)
    requires
        0 <= i < steps.len(),
        steps[0].len == len,
        forall|i: int|
            0 <= i < steps.len() - 1 ==> {
                &&& (#[trigger] steps[i]).next_read() is Some
                &&& steps[i + 1] == steps[i].resumed(timestamps(steps[i].next_read()->0))
            },
    ensures
        steps[i].len == len,
    decreases i,
{
    if i > 0 {
        lemma_search_len(steps, timestamps, len, i - 1);
        assert(steps[i - 1 + 1] == steps[i - 1].resumed(timestamps(steps[i - 1].next_read()->0)));
    }
}

/// Every height of a range that can be read has its row.
proof fn lemma_rows_contain(
    prices: spec_fn(nat) -> Option<u64>,
    timestamps: spec_fn(nat) -> Option<u32>,
    from: nat,
    to: nat,
    h: nat,
)
    requires
        from <= h < to <= usize::MAX,
        prices(h) is Some,
        timestamps(h) is Some,
    ensures
        rows_between(prices, timestamps, from, to).contains(
            (h as usize, prices(h)->0, timestamps(h)->0),
        ),
    decreases to,
{
    let rows = rows_between(prices, timestamps, from, to);
    let row = (h as usize, prices(h)->0, timestamps(h)->0);
    if h + 1 == to {
        assert(rows.last() == row);
        assert(rows[rows.len() - 1] == row);
    } else {
        let before = rows_between(prices, timestamps, from, (to - 1) as nat);
        lemma_rows_contain(prices, timestamps, from, (to - 1) as nat, h);
        let i = choose|i: int| 0 <= i < before.len() && before[i] == row;
        assert(rows[i] == row);
    }
}

/// Whether rows are exactly the records of the heights `from..to` that can be read in full, in
/// rising order.
pub open spec fn are_records(
    rows: Seq<Row>,
    prices: spec_fn(nat) -> Option<u64>,
    timestamps: spec_fn(nat) -> Option<u32>,
    from: nat,
    to: nat,
) -> bool {
    &&& forall|i: int, j: int|
        0 <= i < j < rows.len() ==> (#[trigger] rows[i]).0 < (#[trigger] rows[j]).0
    &&& forall|row: Row| #[trigger]
        rows.contains(row) <==> {
            &&& from <= row.0 < to
            &&& prices(row.0 as nat) == Some(row.1)
            &&& timestamps(row.0 as nat) == Some(row.2)
        }
}

/// The rows of a range are exactly its records.
pub proof fn law_rows_exact(
    prices: spec_fn(nat) -> Option<u64>,
    timestamps: spec_fn(nat) -> Option<u32>,
    from: nat,
    to: nat,
)
    requires
        to <= usize::MAX,
    ensures
        are_records(rows_between(prices, timestamps, from, to), prices, timestamps, from, to),
{
    let rows = rows_between(prices, timestamps, from, to);
    law_rows_sound(prices, timestamps, from, to);
    assert forall|row: Row| #[trigger] rows.contains(row) <==> {
        &&& from <= row.0 < to
        &&& prices(row.0 as nat) == Some(row.1)
        &&& timestamps(row.0 as nat) == Some(row.2)
    } by {
        if rows.contains(row) {
            let i = choose|i: int| 0 <= i < rows.len() && rows[i] == row;
            let (h, p, ts) = rows[i];
        }
        if from <= row.0 < to && prices(row.0 as nat) == Some(row.1) && timestamps(row.0 as nat)
            == Some(row.2) {
            lemma_rows_contain(prices, timestamps, from, to, row.0 as nat);
        }
    }
}

/// Where all records of a range can be read, rows that are exactly its records stand one for each
/// height: row `i` is that of height `from + i`.
pub proof fn law_records_in_place(
    rows: Seq<Row>,
    prices: spec_fn(nat) -> Option<u64>,
    timestamps: spec_fn(nat) -> Option<u32>,
    from: nat,
    to: nat,
)
    requires
        from <= to <= usize::MAX,
        are_records(rows, prices, timestamps, from, to),
        forall|h: nat| from <= h < to ==> #[trigger] prices(h) is Some,
        forall|h: nat| from <= h < to ==> #[trigger] timestamps(h) is Some,
    ensures
        rows.len() == to - from,
        forall|i: int|
            0 <= i < rows.len() ==> #[trigger] rows[i] == (
                (from + i) as usize,
                prices((from + i) as nat)->0,
                timestamps((from + i) as nat)->0,
            ),
    decreases to - from,
{
    if from == to {
        if rows.len() > 0 {
            assert(rows.contains(rows[0]));
        }
    } else {
        let last = (to - 1) as nat;
        let row = (last as usize, prices(last)->0, timestamps(last)->0);
        assert(rows.contains(row));
        let k = choose|k: int| 0 <= k < rows.len() && rows[k] == row;
        assert(rows.contains(rows[rows.len() - 1]));
        assert(k == rows.len() - 1);
        let front = rows.drop_last();
        assert forall|r: Row| #[trigger] front.contains(r) <==> {
            &&& from <= r.0 < last
            &&& prices(r.0 as nat) == Some(r.1)
            &&& timestamps(r.0 as nat) == Some(r.2)
        } by {
            if front.contains(r) {
                let i = choose|i: int| 0 <= i < front.len() && front[i] == r;
                assert(rows[i] == r);
                assert(rows.contains(r));
                assert(rows[i].0 < rows[k].0);
            }
            if from <= r.0 < last && prices(r.0 as nat) == Some(r.1) && timestamps(r.0 as nat)
                == Some(r.2) {
                assert(rows.contains(r));
                let i = choose|i: int| 0 <= i < rows.len() && rows[i] == r;
                assert(i != k);
                assert(front[i] == r);
            }
        }
        assert forall|i: int, j: int| 0 <= i < j < front.len() implies (#[trigger] front[i]).0 < (
        #[trigger] front[j]).0 by {
            assert(rows[i].0 < rows[j].0);
        }
        law_records_in_place(front, prices, timestamps, from, last);
        assert forall|i: int| 0 <= i < rows.len() implies #[trigger] rows[i] == (
            (from + i) as usize,
            prices((from + i) as nat)->0,
            timestamps((from + i) as nat)->0,
        ) by {
            if i < front.len() {
                assert(rows[i] == front[i]);
            }
        }
    }
}

/// The rows of a scan do not change while it goes on.
proof fn lemma_scan_driven(
    steps: Seq<ScanView>,
    prices: spec_fn(nat) -> Option<u64>,
    timestamps: spec_fn(nat) -> Option<u32>,
)
    requires
        steps.len() > 0,
        forall|i: int|
            0 <= i < steps.len() - 1 ==> {
                &&& (#[trigger] steps[i]).next_read() is Some
                &&& steps[i + 1] == steps[i].resumed(
                    prices(steps[i].next_read()->0),
                    timestamps(steps[i].next_read()->0),
                )
            },
        steps.last().next_read() is None,
    ensures
        steps[0].run(prices, timestamps) == steps.last().rows,
    decreases steps.len(),
{
    if steps.len() > 1 {
        let rest = steps.drop_first();
        assert forall|i: int| 0 <= i < rest.len() - 1 implies {
            &&& (#[trigger] rest[i]).next_read() is Some
            &&& rest[i + 1] == rest[i].resumed(
                prices(rest[i].next_read()->0),
                timestamps(rest[i].next_read()->0),
            )
        } by {
            assert(steps[i + 1] == rest[i]);
        }
        lemma_scan_driven(rest, prices, timestamps);
        assert(rest[0] == steps[0].resumed(
            prices(steps[0].next_read()->0),
            timestamps(steps[0].next_read()->0),
        ));
        assert(rest.last() == steps.last());
    }
}

/// A scan of `from..to` that is told at each call the price and the timestamp of the height that
/// it asked for ends with exactly the records of those heights that the store has.
pub proof fn law_scan_result(
    store: &PriceStore,
    from: usize,
    to: usize,
    prices: spec_fn(nat) -> Option<u64>,
    timestamps: spec_fn(nat) -> Option<u32>,
    begun: RangeScan,
    calls: Seq<&mut RangeScan>,
    reads: Seq<usize>,
    ended: RangeScan,
    rows: Vec<Row>,
)
    requires
        store@ <= usize::MAX,
        call_ensures(PriceStore::get_prices_range, (store, from, to), begun),
        calls.len() == reads.len(),
        begun == (if calls.len() > 0 {
            *calls[0]
        } else {
            ended
        }),
        forall|i: int|
            #![trigger calls[i]]
            0 <= i < calls.len() ==> call_ensures(
                RangeScan::next_read,
                (&*calls[i],),
                Some(reads[i]),
            ),
        forall|i: int|
            0 <= i < calls.len() ==> call_ensures(
                RangeScan::resume,
                (#[trigger] calls[i], prices(reads[i] as nat), timestamps(reads[i] as nat)),
                (),
            ),
        forall|i: int|
            0 <= i < calls.len() ==> *final(#[trigger] calls[i]) == (if i + 1 < calls.len() {
                *calls[i + 1]
            } else {
                ended
            }),
        call_ensures(RangeScan::next_read, (&ended,), None),
        call_ensures(RangeScan::into_rows, (ended,), rows),
    ensures
        are_records(
            rows@,
            prices,
            timestamps,
            from as nat,
            if to <= store@ {
                to as nat
            } else {
                store@
            },
        ),
{
    let n = calls.len();
    let steps = Seq::new(
        n + 1,
        |i: int|
            if i < n {
                (*calls[i])@
            } else {
                ended@
            },
    );
    assert forall|i: int| 0 <= i < steps.len() - 1 implies {
        &&& (#[trigger] steps[i]).next_read() is Some
        &&& steps[i + 1] == steps[i].resumed(
            prices(steps[i].next_read()->0),
            timestamps(steps[i].next_read()->0),
        )
    } by {
        assert(steps[i] == (*calls[i])@);
        assert(steps[i].next_read() == Some(reads[i] as nat));
        assert(*final(calls[i]) == (if i + 1 < n {
            *calls[i + 1]
        } else {
            ended
        }));
    }
    lemma_scan_driven(steps, prices, timestamps);
    assert(steps[0] == ScanView::start(from as nat, to as nat, store@));
    law_scan_rows(prices, timestamps, from as nat, to as nat, store@);
    law_rows_exact(prices, timestamps, from as nat, least(to as nat, store@));
}

/// Every call of a search halves the heights that are left, or ends it because a timestamp could
/// not be read: so it reads about as many as the store's length has binary digits.
pub proof fn law_search_halves(search: &mut TimestampSearch, height: usize, timestamp: Option<u32>)
    requires
        call_ensures(TimestampSearch::next_read, (&*search,), Some(height)),
        call_ensures(TimestampSearch::resume, (search, timestamp), ()),
    ensures
        timestamp is None ==> final(search)@.next_read() is None && final(search)@.outcome() is None,
        timestamp is Some ==> 2 * (final(search)@.hi - final(search)@.lo) <= old(search)@.hi - old(
            search,
        )@.lo,
{
}

/// Every call of a scan moves it one height on.
pub proof fn law_scan_moves_on(
    scan: &mut RangeScan,
    height: usize,
    price: Option<u64>,
    timestamp: Option<u32>,
    next: Option<usize>,
)
    requires
        call_ensures(RangeScan::next_read, (&*scan,), Some(height)),
        call_ensures(RangeScan::resume, (scan, price, timestamp), ()),
        call_ensures(RangeScan::next_read, (&*final(scan),), next),
    ensures
        next is Some ==> next->0 == height + 1,
        final(scan)@.end == old(scan)@.end,
{
}

} // verus!
