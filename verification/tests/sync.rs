use std::path::PathBuf;

use price_oracle::record::{decode_u32, decode_u64};
use price_oracle::storage::{Meta, PriceStore, Write};
use price_oracle::sync::{
    embedded_price, embedded_prices, seed_price, Action, Event, Stage, SyncConfig, SyncEngine,
};

const FIRST: usize = 550_000;

fn engine(blocks_dir: Option<&str>) -> SyncEngine {
    let config = SyncConfig {
        rpc_url: "http://localhost:8332".to_string(),
        rpc_user: "user".to_string(),
        rpc_pass: "pass".to_string(),
        blocks_dir: blocks_dir.map(PathBuf::from),
    };
    SyncEngine::new(&config)
}

fn store_of(len: usize) -> PriceStore {
    PriceStore::open(8 * len as u64, 4 * len as u64)
}

/// A node with a tip, blocks on disk, and at each height the time `h`, the embedded price `3 * h`
/// and the oracle's price `10 * h`.
struct World {
    store: PriceStore,
    tip: usize,
    checkpoint: Option<Meta>,
    dir_exists: bool,
    disk: Option<(usize, usize)>,
    failing: Option<usize>,
    log: Vec<Action>,
    stored: Vec<usize>,
    prices: Vec<u8>,
    timestamps: Vec<u8>,
}

fn put(file: &mut Vec<u8>, write: &Write) {
    let offset = write.offset as usize;
    if file.len() < offset + write.bytes.len() {
        file.resize(offset + write.bytes.len(), 0);
    }
    file[offset..offset + write.bytes.len()].copy_from_slice(&write.bytes);
}

impl World {
    fn new(len: usize, tip: usize) -> World {
        World {
            store: store_of(len),
            tip,
            checkpoint: None,
            dir_exists: true,
            disk: None,
            failing: None,
            log: Vec::new(),
            stored: Vec::new(),
            prices: vec![0; 8 * len],
            timestamps: vec![0; 4 * len],
        }
    }

    fn store(&mut self, height: usize, timestamp: u32, price: u64) -> Event {
        assert_eq!(height, self.store.len());
        assert_eq!(timestamp, height as u32);
        let writes = self.store.append(price, timestamp);
        put(&mut self.prices, &writes.price);
        put(&mut self.timestamps, &writes.timestamp);
        self.store.commit();
        self.stored.push(height);
        Event::Done
    }

    fn perform(&mut self, action: Action) -> Event {
        self.log.push(action);
        match action {
            Action::QueryTip => Event::Tip(self.tip),
            Action::FindBlocks => Event::BlocksDir(self.dir_exists),
            Action::FetchHeaderTime(h) if self.failing == Some(h) => Event::Failed,
            Action::FetchHeaderTime(h) => Event::HeaderTime(h as u32),
            Action::AppendEmbedded { height, timestamp } => {
                assert!(height < FIRST);
                self.store(height, timestamp, 3 * height as u64)
            }
            Action::Append { height, timestamp, price } => {
                assert!(height >= FIRST);
                assert_eq!(price, 10 * height as u64);
                self.store(height, timestamp, price)
            }
            Action::LoadCheckpoint => Event::Checkpoint(self.checkpoint),
            Action::OpenReader { first, last } => {
                self.disk = Some((first as usize, last as usize));
                Event::Done
            }
            Action::NextBlock => {
                let (next, last) = self.disk.unwrap();
                if next > last {
                    return Event::EndOfBlocks;
                }
                self.disk = Some((next + 1, last));
                Event::Block { height: next, timestamp: next as u32, price: 10 * next as u64 }
            }
            Action::FeedFromNode(h) if self.failing == Some(h) => Event::Failed,
            Action::ProcessBlock(h) if self.failing == Some(h) => Event::Failed,
            Action::ProcessBlock(h) => {
                Event::Block { height: h, timestamp: h as u32, price: 10 * h as u64 }
            }
            _ => Event::Done,
        }
    }

    /// Runs the engine until it would sleep or has stopped.
    fn run(&mut self, engine: &mut SyncEngine) -> Action {
        loop {
            let action = engine.action();
            if action == Action::Stop || action == Action::Sleep(30) {
                return action;
            }
            let event = self.perform(action);
            engine.advance(event, &self.store);
        }
    }

    fn poll(&mut self, engine: &mut SyncEngine) -> Action {
        assert_eq!(engine.action(), Action::Sleep(30));
        engine.advance(Event::Done, &self.store);
        self.log.clear();
        self.stored.clear();
        self.run(engine)
    }
}

fn saves(log: &[Action]) -> Vec<usize> {
    log.iter()
        .filter_map(|a| match a {
            Action::SaveCheckpoint(h) => Some(*h),
            _ => None,
        })
        .collect()
}

#[test]
fn embedded_prices_of_the_oracle() {
    let list = embedded_prices();
    assert_eq!(list.len(), 630_000);
    let text = |h: usize| embedded_price(&list, h).unwrap().iter().collect::<String>();
    let lines: Vec<&str> = brk_oracle::PRICES.lines().collect();
    assert_eq!(lines.len(), list.len());
    for h in [0, 1, 100_000, 549_999, 629_999] {
        assert_eq!(text(h), lines[h]);
    }
    assert_eq!(text(0), "0.0");
    assert_eq!(text(700_000), "8497.14");
    assert_eq!(seed_price(&list).iter().collect::<String>(), lines[549_999]);
}

#[test]
fn short_lists_of_prices() {
    let list: Vec<Vec<char>> = vec!["1.5".chars().collect(), "2.5".chars().collect()];
    assert_eq!(embedded_price(&list, 0), Some(&list[0]));
    assert_eq!(embedded_price(&list, 1), Some(&list[1]));
    assert_eq!(embedded_price(&list, 9), Some(&list[1]));
    assert_eq!(embedded_price(&Vec::new(), 0), None);
    assert_eq!(seed_price(&list).iter().collect::<String>(), "50000.0");
}

#[test]
fn a_run_begins_with_the_node() {
    let mut engine = engine(None);
    let store = store_of(FIRST - 3);
    assert_eq!(engine.action(), Action::WaitForNode);
    engine.advance(Event::Done, &store);
    assert_eq!(engine.action(), Action::QueryTip);
    engine.advance(Event::Tip(800_000), &store);
    assert_eq!(engine.action(), Action::PublishTip(800_000));
    engine.advance(Event::Done, &store);
    assert_eq!(engine.action(), Action::FetchHeaderTime(FIRST - 3));
}

#[test]
fn a_run_stores_every_height_once() {
    let mut world = World::new(FIRST - 15_000, FIRST + 2_500);
    let mut engine = engine(None);
    assert_eq!(world.run(&mut engine), Action::Sleep(30));
    assert_eq!(world.stored, (FIRST - 15_000..=FIRST + 2_500).collect::<Vec<_>>());
    assert_eq!(saves(&world.log), vec![FIRST, FIRST + 1_000, FIRST + 2_000, FIRST + 2_500]);
    let flushes = world.log.iter().filter(|a| **a == Action::Flush).count();
    assert_eq!(flushes, 1 + 1 + 4);
}

#[test]
fn a_checkpoint_follows_a_flush() {
    let mut world = World::new(FIRST - 10, FIRST + 3_000);
    let mut engine = engine(Some("/blocks"));
    assert_eq!(world.run(&mut engine), Action::Sleep(30));
    for i in 1..world.log.len() {
        if let Action::SaveCheckpoint(_) = world.log[i] {
            assert_eq!(world.log[i - 1], Action::Flush);
        }
    }
    assert_eq!(saves(&world.log), vec![FIRST, FIRST + 3_000]);
}

#[test]
fn blocks_are_read_from_disk_if_there() {
    let mut world = World::new(FIRST + 10, FIRST + 30);
    let mut engine = engine(Some("/blocks"));
    assert_eq!(world.run(&mut engine), Action::Sleep(30));
    assert!(world.log.contains(&Action::SeedOracle));
    assert!(world.log.contains(&Action::FeedFromDisk {
        first: FIRST as u32,
        last: FIRST as u32 + 9
    }));
    assert!(world.log.contains(&Action::OpenReader {
        first: FIRST as u32 + 10,
        last: FIRST as u32 + 30
    }));
    assert_eq!(world.stored, (FIRST + 10..=FIRST + 30).collect::<Vec<_>>());
}

#[test]
fn the_node_serves_the_blocks_otherwise() {
    for (dir, exists) in [(None, true), (None, false), (Some("/blocks"), false)] {
        let mut world = World::new(FIRST + 2, FIRST + 4);
        world.dir_exists = exists;
        let mut engine = engine(dir);
        assert_eq!(world.run(&mut engine), Action::Sleep(30));
        assert_eq!(world.log.contains(&Action::FindBlocks), dir.is_some());
        assert!(world.log.contains(&Action::FeedFromNode(FIRST)));
        assert!(world.log.contains(&Action::FeedFromNode(FIRST + 1)));
        assert!(!world.log.contains(&Action::FeedFromNode(FIRST + 2)));
        assert_eq!(world.stored, vec![FIRST + 2, FIRST + 3, FIRST + 4]);
    }
}

#[test]
fn the_directory_is_looked_for_once_the_tip_is_published() {
    for exists in [true, false] {
        let mut engine = engine(Some("/blocks"));
        let store = store_of(FIRST + 1);
        assert_eq!(engine.action(), Action::WaitForNode);
        engine.advance(Event::Done, &store);
        assert_eq!(engine.action(), Action::QueryTip);
        engine.advance(Event::Tip(FIRST + 5), &store);
        assert_eq!(engine.action(), Action::PublishTip(FIRST + 5));
        engine.advance(Event::Done, &store);
        assert_eq!(engine.at(), Stage::LookForBlocks);
        assert_eq!(engine.action(), Action::FindBlocks);
        engine.advance(Event::BlocksDir(exists), &store);
        assert_eq!(engine.action(), Action::LoadCheckpoint);
        engine.advance(Event::Checkpoint(None), &store);
        assert_eq!(engine.action(), Action::SeedOracle);
        engine.advance(Event::Done, &store);
        let first = FIRST as u32;
        assert_eq!(
            engine.action(),
            if exists {
                Action::FeedFromDisk { first, last: first }
            } else {
                Action::FeedFromNode(FIRST)
            }
        );
    }
}

#[test]
fn a_block_to_catch_up_with_is_passed_over() {
    let mut world = World::new(FIRST + 3, FIRST + 4);
    world.failing = Some(FIRST + 1);
    let mut engine = engine(None);
    assert_eq!(world.run(&mut engine), Action::Sleep(30));
    for h in FIRST..FIRST + 3 {
        assert!(world.log.contains(&Action::FeedFromNode(h)));
    }
    assert_eq!(world.stored, vec![FIRST + 3, FIRST + 4]);
}

#[test]
fn an_oracle_is_restored_and_warmed_up() {
    let mut world = World::new(FIRST + 100, FIRST + 100);
    world.checkpoint = Some(Meta { last_height: FIRST + 99, ref_bin: 77 });
    let mut engine = engine(None);
    assert_eq!(world.run(&mut engine), Action::Sleep(30));
    assert!(world.log.contains(&Action::RestoreOracle {
        ref_bin: 77,
        from: FIRST + 88,
        to: FIRST + 100
    }));
    assert!(!world.log.contains(&Action::SeedOracle));
    assert_eq!(world.stored, vec![FIRST + 100]);
}

#[test]
fn a_store_ahead_of_the_tip_goes_on_to_poll() {
    let mut world = World::new(FIRST + 100, FIRST + 50);
    let mut engine = engine(None);
    assert_eq!(world.run(&mut engine), Action::Sleep(30));
    assert!(world.stored.is_empty());
    assert!(saves(&world.log).is_empty());
}

#[test]
fn a_silent_node_stops_a_run() {
    let mut world = World::new(FIRST - 5, FIRST + 5);
    world.failing = Some(FIRST - 2);
    let mut first = engine(None);
    assert_eq!(world.run(&mut first), Action::Stop);
    assert_eq!(world.stored, vec![FIRST - 5, FIRST - 4, FIRST - 3]);

    world.failing = Some(FIRST + 1);
    let mut second = engine(None);
    assert_eq!(world.run(&mut second), Action::Stop);

    world.failing = None;
    let mut third = engine(None);
    assert_eq!(world.run(&mut third), Action::Sleep(30));
    assert_eq!(world.stored, (FIRST - 5..=FIRST + 5).collect::<Vec<_>>());
}

#[test]
fn polling_follows_the_tip() {
    let mut world = World::new(FIRST, FIRST);
    let mut engine = engine(None);
    assert_eq!(world.run(&mut engine), Action::Sleep(30));

    assert_eq!(world.poll(&mut engine), Action::Sleep(30));
    assert!(world.stored.is_empty());
    assert!(saves(&world.log).is_empty());

    world.tip = FIRST + 3;
    assert_eq!(world.poll(&mut engine), Action::Sleep(30));
    assert_eq!(world.stored, vec![FIRST + 1, FIRST + 2, FIRST + 3]);
    assert_eq!(saves(&world.log), vec![FIRST + 3]);
    assert!(world.log.contains(&Action::PublishTip(FIRST + 3)));
}

#[test]
fn polling_survives_a_silent_node() {
    let mut world = World::new(FIRST, FIRST);
    let mut engine = engine(None);
    assert_eq!(world.run(&mut engine), Action::Sleep(30));

    world.tip = FIRST + 4;
    world.failing = Some(FIRST + 2);
    assert_eq!(world.poll(&mut engine), Action::Sleep(30));
    assert_eq!(world.stored, vec![FIRST + 1]);
    assert_eq!(saves(&world.log), vec![FIRST + 4]);

    engine.advance(Event::Done, &world.store);
    assert_eq!(engine.action(), Action::QueryTip);
    engine.advance(Event::Failed, &world.store);

    world.failing = None;
    assert_eq!(world.poll(&mut engine), Action::Sleep(30));
    assert_eq!(world.stored, vec![FIRST + 2, FIRST + 3, FIRST + 4]);
}

#[test]
fn a_run_leaves_each_height_its_record() {
    let mut world = World::new(FIRST - 5, FIRST + 5);
    let mut engine = engine(Some("/blocks"));
    assert_eq!(world.run(&mut engine), Action::Sleep(30));
    assert_eq!(world.store.len(), FIRST + 6);
    let reopened = PriceStore::open(world.prices.len() as u64, world.timestamps.len() as u64);
    assert_eq!(reopened.len(), FIRST + 6);
    for h in FIRST - 5..=FIRST + 5 {
        let price = decode_u64(world.prices[8 * h..8 * h + 8].try_into().unwrap());
        let time = decode_u32(world.timestamps[4 * h..4 * h + 4].try_into().unwrap());
        let expected = if h < FIRST { 3 * h as u64 } else { 10 * h as u64 };
        assert_eq!((price, time), (expected, h as u32));
    }
    assert!(world.prices[..8 * (FIRST - 5)].iter().all(|b| *b == 0));
}

#[test]
fn blocks_on_disk_reach_the_tip() {
    let mut world = World::new(FIRST + 1, FIRST + 9);
    let mut engine = engine(Some("/blocks"));
    assert_eq!(world.run(&mut engine), Action::Sleep(30));
    assert_eq!(world.store.len(), FIRST + 10);
    assert_eq!(saves(&world.log), vec![FIRST + 9]);
}

#[test]
fn a_failed_block_is_retried_after_the_tip_moved_back() {
    let mut world = World::new(FIRST, FIRST);
    let mut engine = engine(None);
    assert_eq!(world.run(&mut engine), Action::Sleep(30));

    world.tip = FIRST + 9;
    world.failing = Some(FIRST + 3);
    assert_eq!(world.poll(&mut engine), Action::Sleep(30));
    assert_eq!(world.stored, vec![FIRST + 1, FIRST + 2]);

    world.tip = FIRST + 3;
    world.failing = None;
    assert_eq!(world.poll(&mut engine), Action::Sleep(30));
    assert_eq!(world.stored, vec![FIRST + 3]);
    assert_eq!(world.store.len(), world.tip + 1);

    world.tip = FIRST + 1;
    assert_eq!(world.poll(&mut engine), Action::Sleep(30));
    assert!(world.stored.is_empty());
}
