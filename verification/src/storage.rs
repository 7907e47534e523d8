//! The price store: one price and one timestamp per block height, in two flat files.
//!
//! The store performs no I/O. It says which bytes to write where, which to read, and what the
//! bytes that were read mean; the files themselves belong to the caller. A price is kept as the
//! 64-bit pattern of its floating-point number, so nothing here rounds it.

use crate::record::{
    decode_u32, decode_u64, encode_u32, encode_u64, law_decode_of_encode, law_encode_of_decode,
    le_bytes, le_value, lemma_widths, read_at, write_at,
};
use vstd::prelude::*;

verus! {

/// The bytes of one price.
pub const PRICE_SIZE: usize = 8;

/// The bytes of one timestamp.
pub const TIMESTAMP_SIZE: usize = 4;

/// The oracle's state at a height: where the next run picks it up.
#[derive(Clone, Copy, Debug, PartialEq, Eq, Structural)]
pub struct Meta {
    pub last_height: usize,
    /// The bit pattern of the oracle's reference bin.
    pub ref_bin: u64,
}

/// One of the store's two files.
#[derive(Clone, Copy, Debug, PartialEq, Eq, Structural)]
pub enum DataFile {
    Prices,
    Timestamps,
}

/// A place in one of the files: `size` bytes at `offset`.
#[derive(Clone, Copy, Debug, PartialEq, Eq, Structural)]
pub struct Extent {
    pub file: DataFile,
    pub offset: u64,
    pub size: usize,
}

/// Bytes to be written at `offset` of one of the files.
#[derive(Debug)]
pub struct Write {
    pub file: DataFile,
    pub offset: u64,
    pub bytes: Vec<u8>,
}

/// A write, as the files see it.
pub struct WriteView {
    pub file: DataFile,
    pub offset: nat,
    pub bytes: Seq<u8>,
}

impl View for Write {
    type V = WriteView;

    open spec fn view(&self) -> WriteView {
        WriteView { file: self.file, offset: self.offset as nat, bytes: self.bytes@ }
    }
}

/// The two writes that add a record, in the order in which they are made.
#[derive(Debug)]
pub struct AppendWrites {
    pub price: Write,
    pub timestamp: Write,
}

/// The contents of the two files.
#[verifier::ext_equal]
pub struct Files {
    pub prices: Seq<u8>,
    pub timestamps: Seq<u8>,
}

/// Where the price of a height lies in its file.
pub open spec fn price_offset(height: nat) -> nat {
    height * PRICE_SIZE as nat
}

/// Where the timestamp of a height lies in its file.
pub open spec fn timestamp_offset(height: nat) -> nat {
    height * TIMESTAMP_SIZE as nat
}

impl Files {
    /// The files after a write.
    pub open spec fn after(self, write: WriteView) -> Files {
        match write.file {
            DataFile::Prices => Files {
                prices: write_at(self.prices, write.offset, write.bytes),
                timestamps: self.timestamps,
            },
            DataFile::Timestamps => Files {
                prices: self.prices,
                timestamps: write_at(self.timestamps, write.offset, write.bytes),
            },
        }
    }

    /// The number of whole records that the files hold.
    pub open spec fn records(self) -> nat {
        record_count(self.prices.len(), self.timestamps.len())
    }

    /// Whether the prices are at least as many as the timestamps. New files have this, and
    /// appending keeps it, for a price is written before its timestamp.
    pub open spec fn prices_lead(self) -> bool {
        self.timestamps.len() / TIMESTAMP_SIZE as nat <= self.prices.len() / PRICE_SIZE as nat
    }

    /// The price at a height of a store of `len` records.
    pub open spec fn price(self, len: nat, height: nat) -> Option<u64> {
        if height < len {
            match read_at(self.prices, price_offset(height), PRICE_SIZE as nat) {
                Some(bytes) => Some(le_value(bytes) as u64),
                None => None,
            }
        } else {
            None
        }
    }

    /// The timestamp at a height of a store of `len` records.
    pub open spec fn timestamp(self, len: nat, height: nat) -> Option<u32> {
        if height < len {
            match read_at(self.timestamps, timestamp_offset(height), TIMESTAMP_SIZE as nat) {
                Some(bytes) => Some(le_value(bytes) as u32),
                None => None,
            }
        } else {
            None
        }
    }
}

/// The number of whole records in files of the given lengths.
pub open spec fn record_count(prices_len: nat, timestamps_len: nat) -> nat {
    let prices = prices_len / PRICE_SIZE as nat;
    let timestamps = timestamps_len / TIMESTAMP_SIZE as nat;
    if prices <= timestamps {
        prices
    } else {
        timestamps
    }
}

/// The write that puts a price at the end of a store of `len` records.
pub open spec fn price_write(len: nat, price: u64) -> WriteView {
    WriteView {
        file: DataFile::Prices,
        offset: price_offset(len),
        bytes: le_bytes(price as nat, PRICE_SIZE as nat),
    }
}

/// The write that puts a timestamp at the end of a store of `len` records.
pub open spec fn timestamp_write(len: nat, timestamp: u32) -> WriteView {
    WriteView {
        file: DataFile::Timestamps,
        offset: timestamp_offset(len),
        bytes: le_bytes(timestamp as nat, TIMESTAMP_SIZE as nat),
    }
}

/// The first `n` bytes of a write: what is on disk when it stops midway.
pub open spec fn torn_write(write: WriteView, n: nat) -> WriteView {
    WriteView { bytes: write.bytes.take(n as int), ..write }
}

/// The last of `len` heights, counted from zero.
pub open spec fn last_of(len: nat) -> Option<nat> {
    if len > 0 {
        Some((len - 1) as nat)
    } else {
        None
    }
}

/// The number of records that a store counts. Record `h` belongs to block height `h`.
#[derive(Clone, Copy, Debug)]
pub struct PriceStore {
    len: usize,
}

impl View for PriceStore {
    type V = nat;

    closed spec fn view(&self) -> nat {
        self.len as nat
    }
}

impl PriceStore {
    /// Every record begins at an offset that a `usize` can hold.
    #[verifier::type_invariant]
    spec fn addressable(self) -> bool {
        self.len <= usize::MAX / 8 + 1
    }

    /// The store of two files of the given lengths. A record that one of the files lacks, or
    /// holds only in part, does not count.
    pub fn open(prices_len: u64, timestamps_len: u64) -> (store: PriceStore)
        ensures
            store@ == record_count(prices_len as usize as nat, timestamps_len as usize as nat),
    {
        let prices: usize = (#[verifier::truncate] (prices_len as usize)) / PRICE_SIZE;
        let timestamps: usize = (#[verifier::truncate] (timestamps_len as usize)) / TIMESTAMP_SIZE;
        PriceStore {
            len: if prices <= timestamps {
                prices
            } else {
                timestamps
            },
        }
    }

    /// The number of records.
    pub fn len(&self) -> (len: usize)
        ensures
            len == self@,
            len <= usize::MAX / 8 + 1,
    {
        proof {
            use_type_invariant(self);
        }
        self.len
    }

    /// The height of the last record, if there is one.
    pub fn last_height(&self) -> (height: Option<usize>)
        ensures
            match height {
                Some(h) => last_of(self@) == Some(h as nat),
                None => last_of(self@) is None,
            },
    {
        if self.len > 0 {
            Some(self.len - 1)
        } else {
            None
        }
    }

    /// The writes that add a record at the end: first its price, then its timestamp. Once both
    /// are done, [`PriceStore::commit`] counts it.
    pub fn append(&self, price: u64, timestamp: u32) -> (writes: AppendWrites)
        requires
            self@ * PRICE_SIZE <= usize::MAX,
        ensures
            writes.price@ == price_write(self@, price),
            writes.timestamp@ == timestamp_write(self@, timestamp),
    {
        AppendWrites {
            price: Write {
                file: DataFile::Prices,
                offset: (self.len * PRICE_SIZE) as u64,
                bytes: encode_u64(price),
            },
            timestamp: Write {
                file: DataFile::Timestamps,
                offset: (self.len * TIMESTAMP_SIZE) as u64,
                bytes: encode_u32(timestamp),
            },
        }
    }

    /// Counts the record whose writes are done.
    pub fn commit(&mut self)
        requires
            old(self)@ * PRICE_SIZE <= usize::MAX,
        ensures
            final(self)@ == old(self)@ + 1,
    {
        self.len = self.len + 1;
    }

    /// Where the price of a height lies, if the store has it.
    pub fn get_price(&self, height: usize) -> (extent: Option<Extent>)
        ensures
            match extent {
                Some(e) => {
                    &&& height < self@
                    &&& e.file == DataFile::Prices
                    &&& e.offset == price_offset(height as nat)
                    &&& e.size == PRICE_SIZE
                },
                None => height >= self@,
            },
    {
        proof {
            use_type_invariant(self);
        }
        if height >= self.len {
            return None;
        }
        Some(
            Extent {
                file: DataFile::Prices,
                offset: (height * PRICE_SIZE) as u64,
                size: PRICE_SIZE,
            },
        )
    }

    /// Where the timestamp of a height lies, if the store has it.
    pub fn get_timestamp(&self, height: usize) -> (extent: Option<Extent>)
        ensures
            match extent {
                Some(e) => {
                    &&& height < self@
                    &&& e.file == DataFile::Timestamps
                    &&& e.offset == timestamp_offset(height as nat)
                    &&& e.size == TIMESTAMP_SIZE
                },
                None => height >= self@,
            },
    {
        proof {
            use_type_invariant(self);
        }
        if height >= self.len {
            return None;
        }
        Some(
            Extent {
                file: DataFile::Timestamps,
                offset: (height * TIMESTAMP_SIZE) as u64,
                size: TIMESTAMP_SIZE,
            },
        )
    }
}

/// Reading back what was just appended gives the price and the timestamp that were written, and
/// no earlier record has changed; the files hold all of them.
pub proof fn law_append_reads_back(files: Files, len: nat, price: u64, timestamp: u32, height: nat)
    requires
        len <= files.records(),
    ensures
        ({
            let after = files.after(price_write(len, price)).after(timestamp_write(len, timestamp));
            &&& len + 1 <= after.records()
            &&& after.price(len + 1, len) == Some(price)
            &&& after.timestamp(len + 1, len) == Some(timestamp)
            &&& height < len ==> after.price(len + 1, height) == files.price(len, height)
            &&& height < len ==> after.timestamp(len + 1, height) == files.timestamp(len, height)
        }),
{
    let after = files.after(price_write(len, price)).after(timestamp_write(len, timestamp));
    lemma_widths();
    law_decode_of_encode(price as nat, 8);
    law_decode_of_encode(timestamp as nat, 4);
    let (p, t) = (8 * len as int, 4 * len as int);
    assert(after.prices.subrange(p, p + 8) =~= le_bytes(price as nat, 8));
    assert(after.timestamps.subrange(t, t + 4) =~= le_bytes(timestamp as nat, 4));
    if height < len {
        lemma_same_record(files, after, len, height);
    }
}

/// A record reads the same in files that agree on it.
proof fn lemma_same_record(before: Files, after: Files, len: nat, height: nat)
    requires
        height < len <= before.records(),
        8 * len <= after.prices.len(),
        4 * len <= after.timestamps.len(),
        forall|i: int| 0 <= i < 8 * len ==> #[trigger] after.prices[i] == before.prices[i],
        forall|i: int| 0 <= i < 4 * len ==> #[trigger] after.timestamps[i] == before.timestamps[i],
    ensures
        forall|n: nat| n >= len ==> #[trigger] after.price(n, height) == before.price(len, height),
        forall|n: nat|
            n >= len ==> #[trigger] after.timestamp(n, height) == before.timestamp(len, height),
{
    let (p, t) = (8 * height as int, 4 * height as int);
    assert(after.prices.subrange(p, p + 8) =~= before.prices.subrange(p, p + 8));
    assert(after.timestamps.subrange(t, t + 4) =~= before.timestamps.subrange(t, t + 4));
}

/// Every record that a store counts when it is opened can be read.
pub proof fn law_opened_records_readable(files: Files, height: nat)
    requires
        height < files.records(),
    ensures
        files.price(files.records(), height) is Some,
        files.timestamp(files.records(), height) is Some,
{
}

/// Opening the files again after an append counts one record more.
pub proof fn law_reopen_after_append(files: Files, price: u64, timestamp: u32)
    ensures
        ({
            let len = files.records();
            let after = files.after(price_write(len, price)).after(timestamp_write(len, timestamp));
            &&& after.records() == len + 1
            &&& files.prices_lead() ==> after.prices_lead()
        }),
{
    lemma_widths();
    law_decode_of_encode(price as nat, 8);
    law_decode_of_encode(timestamp as nat, 4);
}

/// An append that stops midway, in the price or in the timestamp, leaves no trace: the files
/// opened again count the records they had, and each reads as before.
pub proof fn law_torn_append(
    files: Files,
    price: u64,
    timestamp: u32,
    price_bytes: nat,
    timestamp_bytes: nat,
    height: nat,
)
    requires
        price_bytes <= PRICE_SIZE,
        timestamp_bytes < TIMESTAMP_SIZE,
        timestamp_bytes > 0 ==> price_bytes == PRICE_SIZE,
        files.prices_lead(),
    ensures
        ({
            let len = files.records();
            let torn = files.after(torn_write(price_write(len, price), price_bytes)).after(
                torn_write(timestamp_write(len, timestamp), timestamp_bytes),
            );
            &&& torn.records() == len
            &&& torn.prices_lead()
            &&& height < len ==> torn.price(len, height) == files.price(len, height)
            &&& height < len ==> torn.timestamp(len, height) == files.timestamp(len, height)
        }),
{
    let len = files.records();
    let torn = files.after(torn_write(price_write(len, price), price_bytes)).after(
        torn_write(timestamp_write(len, timestamp), timestamp_bytes),
    );
    lemma_widths();
    law_decode_of_encode(price as nat, 8);
    law_decode_of_encode(timestamp as nat, 4);
    if height < len {
        lemma_same_record(files, torn, len, height);
    }
}

/// A store that is opened counts the most records of which both files hold all bytes: eight for
/// each price and four for each timestamp.
pub proof fn law_open_counts(prices_len: u64, timestamps_len: u64, store: PriceStore)
    requires
        prices_len <= usize::MAX,
        timestamps_len <= usize::MAX,
        call_ensures(PriceStore::open, (prices_len, timestamps_len), store),
    ensures
        8 * store@ <= prices_len,
        4 * store@ <= timestamps_len,
        8 * (store@ + 1) > prices_len || 4 * (store@ + 1) > timestamps_len,
{
}

/// The last height of a store is one below the number of its records; an empty store has none.
pub proof fn law_last_height(store: &PriceStore, len: usize, height: Option<usize>)
    requires
        call_ensures(PriceStore::len, (store,), len),
        call_ensures(PriceStore::last_height, (store,), height),
    ensures
        len == store@,
        height is None <==> len == 0,
        height is Some ==> height->0 + 1 == len,
        last_of(store@) is None <==> store@ == 0,
        last_of(store@) is Some ==> last_of(store@)->0 + 1 == store@,
{
}

/// A record is written where it is looked for: the price of height `h` in the eight bytes from
/// `8 * h` of the prices, the timestamp in the four bytes from `4 * h` of the timestamps, and the
/// record that is added has the height after the last. Heights that the store does not have are
/// looked for nowhere.
pub proof fn law_record_places(
    store: &PriceStore,
    price: u64,
    timestamp: u32,
    writes: AppendWrites,
    height: usize,
    price_extent: Option<Extent>,
    timestamp_extent: Option<Extent>,
)
    requires
        call_ensures(PriceStore::append, (store, price, timestamp), writes),
        call_ensures(PriceStore::get_price, (store, height), price_extent),
        call_ensures(PriceStore::get_timestamp, (store, height), timestamp_extent),
    ensures
        writes.price.file == DataFile::Prices,
        writes.price.offset == 8 * store@,
        writes.price.bytes@.len() == 8,
        le_value(writes.price.bytes@) == price,
        writes.timestamp.file == DataFile::Timestamps,
        writes.timestamp.offset == 4 * store@,
        writes.timestamp.bytes@.len() == 4,
        le_value(writes.timestamp.bytes@) == timestamp,
        price_extent is Some <==> height < store@,
        timestamp_extent is Some <==> height < store@,
        price_extent is Some ==> {
            &&& price_extent->0.file == DataFile::Prices
            &&& price_extent->0.offset == 8 * height
            &&& price_extent->0.size == 8
        },
        timestamp_extent is Some ==> {
            &&& timestamp_extent->0.file == DataFile::Timestamps
            &&& timestamp_extent->0.offset == 4 * height
            &&& timestamp_extent->0.size == 4
        },
{
    lemma_widths();
    law_decode_of_encode(price as nat, 8);
    law_decode_of_encode(timestamp as nat, 4);
}

/// Counting a record adds one to the store, and nothing else.
pub proof fn law_commit_counts_one(store: &mut PriceStore)
    requires
        call_ensures(PriceStore::commit, (store,), ()),
    ensures
        final(store)@ == old(store)@ + 1,
{
}

/// The bytes of a file at a place.
pub open spec fn bytes_at(files: Files, extent: Extent) -> Seq<u8> {
    let file = match extent.file {
        DataFile::Prices => files.prices,
        DataFile::Timestamps => files.timestamps,
    };
    file.subrange(extent.offset as int, extent.offset + extent.size)
}

/// What was appended is what is read: after the two writes were made and the record was counted,
/// the bytes at the places where its height is looked for decode to the price and the timestamp
/// that were appended, all bits of them; and the bytes of every earlier height are as they were.
pub proof fn law_appended_record_read(
    files: Files,
    store: &PriceStore,
    price: u64,
    timestamp: u32,
    writes: AppendWrites,
    counted: &PriceStore,
    price_extent: Option<Extent>,
    timestamp_extent: Option<Extent>,
    eight: &[u8; 8],
    four: &[u8; 4],
    read_price: u64,
    read_timestamp: u32,
    earlier: usize,
    earlier_price: Option<Extent>,
    earlier_timestamp: Option<Extent>,
)
    requires
        store@ <= files.records(),
        store@ <= usize::MAX,
        call_ensures(PriceStore::append, (store, price, timestamp), writes),
        counted@ == store@ + 1,
        call_ensures(PriceStore::get_price, (counted, store@ as usize), price_extent),
        call_ensures(PriceStore::get_timestamp, (counted, store@ as usize), timestamp_extent),
        eight@ == bytes_at(files.after(writes.price@).after(writes.timestamp@), price_extent->0),
        four@ == bytes_at(files.after(writes.price@).after(writes.timestamp@), timestamp_extent->0),
        call_ensures(decode_u64, (eight,), read_price),
        call_ensures(decode_u32, (four,), read_timestamp),
        call_ensures(PriceStore::get_price, (counted, earlier), earlier_price),
        call_ensures(PriceStore::get_timestamp, (counted, earlier), earlier_timestamp),
    ensures
        price_extent is Some,
        timestamp_extent is Some,
        read_price == price,
        read_timestamp == timestamp,
        earlier < store@ ==> {
            let after = files.after(writes.price@).after(writes.timestamp@);
            &&& earlier_price is Some
            &&& earlier_timestamp is Some
            &&& bytes_at(after, earlier_price->0) == bytes_at(files, earlier_price->0)
            &&& bytes_at(after, earlier_timestamp->0) == bytes_at(files, earlier_timestamp->0)
        },
{
    let after = files.after(writes.price@).after(writes.timestamp@);
    lemma_widths();
    law_decode_of_encode(price as nat, 8);
    law_decode_of_encode(timestamp as nat, 4);
    assert(bytes_at(after, price_extent->0) =~= le_bytes(price as nat, 8));
    assert(bytes_at(after, timestamp_extent->0) =~= le_bytes(timestamp as nat, 4));
    if earlier < store@ {
        assert(bytes_at(after, earlier_price->0) =~= bytes_at(files, earlier_price->0));
        assert(bytes_at(after, earlier_timestamp->0) =~= bytes_at(files, earlier_timestamp->0));
    }
}

/// What the files are said to hold at a height is what is read there: where the store has the
/// height and the files its bytes, the number of those bytes; else nothing.
pub proof fn law_record_read(
    files: Files,
    store: &PriceStore,
    height: usize,
    price_extent: Option<Extent>,
    timestamp_extent: Option<Extent>,
    eight: &[u8; 8],
    four: &[u8; 4],
    read_price: u64,
    read_timestamp: u32,
)
    requires
        store@ <= files.records(),
        call_ensures(PriceStore::get_price, (store, height), price_extent),
        call_ensures(PriceStore::get_timestamp, (store, height), timestamp_extent),
        height < store@ ==> eight@ == bytes_at(files, price_extent->0),
        height < store@ ==> four@ == bytes_at(files, timestamp_extent->0),
        call_ensures(decode_u64, (eight,), read_price),
        call_ensures(decode_u32, (four,), read_timestamp),
    ensures
        files.price(store@, height as nat) == (if height < store@ {
            Some(read_price)
        } else {
            None
        }),
        files.timestamp(store@, height as nat) == (if height < store@ {
            Some(read_timestamp)
        } else {
            None
        }),
{
    lemma_widths();
    law_encode_of_decode(eight@);
    law_encode_of_decode(four@);
}

} // verus!
