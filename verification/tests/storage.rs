use price_oracle::api::{get_latest_price, get_price_at_height, LatestResponse, Reply, Status};
use price_oracle::lookup::TimestampSearch;
use price_oracle::record::{decode_u32, decode_u64, encode_u32, encode_u64};
use price_oracle::storage::{AppendWrites, DataFile, Extent, PriceStore, Write};

struct Disk {
    prices: Vec<u8>,
    timestamps: Vec<u8>,
}

impl Disk {
    fn new() -> Disk {
        Disk { prices: Vec::new(), timestamps: Vec::new() }
    }

    fn file(&mut self, file: DataFile) -> &mut Vec<u8> {
        match file {
            DataFile::Prices => &mut self.prices,
            DataFile::Timestamps => &mut self.timestamps,
        }
    }

    fn write(&mut self, write: &Write, bytes: usize) {
        let offset = write.offset as usize;
        let file = self.file(write.file);
        if bytes > 0 && file.len() < offset + bytes {
            file.resize(offset + bytes, 0);
        }
        file[offset..offset + bytes].copy_from_slice(&write.bytes[..bytes]);
    }

    fn append(&mut self, store: &mut PriceStore, price: f64, timestamp: u32) {
        let writes: AppendWrites = store.append(price.to_bits(), timestamp);
        self.write(&writes.price, 8);
        self.write(&writes.timestamp, 4);
        store.commit();
    }

    fn open(&self) -> PriceStore {
        PriceStore::open(self.prices.len() as u64, self.timestamps.len() as u64)
    }

    fn price(&self, store: &PriceStore, height: usize) -> Option<f64> {
        let e: Extent = store.get_price(height)?;
        assert_eq!((e.file, e.size), (DataFile::Prices, 8));
        let bytes = self.prices.get(e.offset as usize..e.offset as usize + 8)?;
        Some(f64::from_bits(decode_u64(bytes.try_into().unwrap())))
    }

    fn timestamp(&self, store: &PriceStore, height: usize) -> Option<u32> {
        let e: Extent = store.get_timestamp(height)?;
        assert_eq!((e.file, e.size), (DataFile::Timestamps, 4));
        let bytes = self.timestamps.get(e.offset as usize..e.offset as usize + 4)?;
        Some(decode_u32(bytes.try_into().unwrap()))
    }

    fn search(&self, store: &PriceStore, target: u32) -> Option<usize> {
        let mut search: TimestampSearch = store.height_for_timestamp(target);
        while let Some(height) = search.next_read() {
            search.resume(self.timestamp(store, height));
        }
        search.outcome()
    }

    fn range(&self, store: &PriceStore, from: usize, to: usize) -> Vec<(usize, u64, u32)> {
        let mut scan = store.get_prices_range(from, to);
        while let Some(height) = scan.next_read() {
            scan.resume(self.price(store, height).map(f64::to_bits), self.timestamp(store, height));
        }
        scan.into_rows()
    }
}

fn sample(timestamps: &[u32]) -> (Disk, PriceStore) {
    let mut disk = Disk::new();
    let mut store = disk.open();
    for (i, ts) in timestamps.iter().enumerate() {
        disk.append(&mut store, 100.5 + i as f64, *ts);
    }
    (disk, store)
}

#[test]
fn bytes_are_little_endian() {
    assert_eq!(encode_u64(0x0102030405060708), vec![8, 7, 6, 5, 4, 3, 2, 1]);
    assert_eq!(encode_u32(0x01020304), vec![4, 3, 2, 1]);
    assert_eq!(encode_u64(65000.25f64.to_bits()), 65000.25f64.to_le_bytes().to_vec());
    assert_eq!(decode_u64(&65000.25f64.to_le_bytes()), 65000.25f64.to_bits());
    assert_eq!(decode_u32(&u32::MAX.to_le_bytes()), u32::MAX);
    assert_eq!(decode_u64(&[255; 8]), u64::MAX);
}

#[test]
fn numbers_survive_their_bytes() {
    for x in [0u64, 1, 255, 256, 1 << 63, u64::MAX, 0xdead_beef_0bad_cafe] {
        let bytes: [u8; 8] = encode_u64(x).try_into().unwrap();
        assert_eq!(bytes, x.to_le_bytes());
        assert_eq!(decode_u64(&bytes), x);
        let low = x as u32;
        let bytes: [u8; 4] = encode_u32(low).try_into().unwrap();
        assert_eq!(bytes, low.to_le_bytes());
        assert_eq!(decode_u32(&bytes), low);
    }
}

#[test]
fn opening_counts_whole_records() {
    assert_eq!(PriceStore::open(0, 0).len(), 0);
    assert_eq!(PriceStore::open(80, 40).len(), 10);
    assert_eq!(PriceStore::open(87, 43).len(), 10);
    assert_eq!(PriceStore::open(80, 39).len(), 9);
    assert_eq!(PriceStore::open(79, 400).len(), 9);
}

#[test]
fn last_height_is_one_less_than_the_length() {
    assert_eq!(PriceStore::open(0, 0).last_height(), None);
    assert_eq!(PriceStore::open(8, 4).last_height(), Some(0));
    assert_eq!(PriceStore::open(80, 40).last_height(), Some(9));
}

#[test]
fn appended_records_are_read_back() {
    let (disk, store) = sample(&[10, 20, 30]);
    assert_eq!(store.len(), 3);
    for h in 0..3 {
        assert_eq!(disk.price(&store, h), Some(100.5 + h as f64));
        assert_eq!(disk.timestamp(&store, h), Some(10 * (h as u32 + 1)));
    }
    assert_eq!(disk.price(&store, 3), None);
    assert_eq!(disk.timestamp(&store, 3), None);
    assert_eq!(disk.open().len(), 3);
}

#[test]
fn records_lie_at_their_height() {
    let store = PriceStore::open(80, 40);
    let writes = store.append(7, 9);
    assert_eq!((writes.price.file, writes.price.offset), (DataFile::Prices, 80));
    assert_eq!((writes.timestamp.file, writes.timestamp.offset), (DataFile::Timestamps, 40));
    assert_eq!(store.get_price(9).unwrap().offset, 72);
    assert_eq!(store.get_timestamp(9).unwrap().offset, 36);
    assert_eq!(store.get_price(10), None);
    assert_eq!(store.get_timestamp(usize::MAX), None);
}

#[test]
fn a_torn_append_leaves_no_trace() {
    for price_bytes in 0..=8usize {
        for timestamp_bytes in 0..4usize {
            if timestamp_bytes > 0 && price_bytes < 8 {
                continue;
            }
            let (mut disk, store) = sample(&[10, 20, 30]);
            let writes = store.append(1.25f64.to_bits(), 40);
            disk.write(&writes.price, price_bytes);
            disk.write(&writes.timestamp, timestamp_bytes);
            let mut again = disk.open();
            assert_eq!(again.len(), 3);
            assert_eq!(disk.price(&again, 2), Some(102.5));
            assert_eq!(disk.timestamp(&again, 2), Some(30));
            disk.append(&mut again, 9.75, 50);
            assert_eq!(disk.open().len(), 4);
            assert_eq!(disk.price(&again, 3), Some(9.75));
            assert_eq!(disk.timestamp(&again, 3), Some(50));
        }
    }
}

#[test]
fn search_finds_the_first_height() {
    let (disk, store) = sample(&[10, 20, 20, 20, 30, 40]);
    let expected = [
        (0, Some(0)), (10, Some(0)), (11, Some(1)), (20, Some(1)), (21, Some(4)), (30, Some(4)),
        (31, Some(5)), (40, Some(5)), (41, None), (u32::MAX, None),
    ];
    for (target, height) in expected {
        assert_eq!(disk.search(&store, target), height);
    }
    let (disk, store) = sample(&[]);
    assert_eq!(disk.search(&store, 0), None);
}

#[test]
fn search_finds_a_crossing_in_any_order() {
    let times = [50u32, 10, 40, 20, 90, 30, 60];
    let (disk, store) = sample(&times);
    for target in 0..100 {
        match disk.search(&store, target) {
            Some(h) => {
                assert!(times[h] >= target);
                assert!(h == 0 || times[h - 1] < target);
            }
            None => assert!(times[6] < target),
        }
    }
}

#[test]
fn search_gives_up_when_a_read_fails() {
    let store = PriceStore::open(80, 40);
    let mut search = store.height_for_timestamp(5);
    assert_eq!(search.next_read(), Some(5));
    search.resume(Some(3));
    assert_eq!(search.next_read(), Some(8));
    search.resume(None);
    assert_eq!(search.next_read(), None);
    assert_eq!(search.outcome(), None);
}

#[test]
fn ranges_end_with_the_store() {
    let (disk, store) = sample(&[10, 20, 30, 40]);
    let row = |h: usize| (h, (100.5 + h as f64).to_bits(), 10 * (h as u32 + 1));
    assert_eq!(disk.range(&store, 1, 3), vec![row(1), row(2)]);
    assert_eq!(disk.range(&store, 2, 100), vec![row(2), row(3)]);
    assert_eq!(disk.range(&store, 3, 3), vec![]);
    assert_eq!(disk.range(&store, 3, 1), vec![]);
    assert_eq!(disk.range(&store, 9, 12), vec![]);
}

#[test]
fn rows_that_cannot_be_read_are_left_out() {
    let store = PriceStore::open(32, 16);
    let mut scan = store.get_prices_range(0, 4);
    scan.resume(Some(1), Some(10));
    scan.resume(None, Some(20));
    scan.resume(Some(3), None);
    scan.resume(Some(4), Some(40));
    assert_eq!(scan.next_read(), None);
    assert_eq!(scan.into_rows(), vec![(0, 1, 10), (3, 4, 40)]);
}

#[test]
fn the_latest_price_is_the_one_just_appended() {
    let (mut disk, mut store) = sample(&[10, 20]);
    disk.append(&mut store, 64000.75, 30);
    let reply = get_latest_price(&store)
        .with_record(disk.price(&store, 2).map(f64::to_bits), disk.timestamp(&store, 2))
        .into_reply();
    let latest = LatestResponse { height: 2, price: 64000.75f64.to_bits(), timestamp: 30 };
    assert_eq!(reply, Some(Reply::Latest(latest)));
    let reply = get_price_at_height(3)
        .with_record(disk.price(&store, 3).map(f64::to_bits), disk.timestamp(&store, 3))
        .into_reply();
    assert!(matches!(reply, Some(Reply::Refused(Status::NotFound, _))));
}
