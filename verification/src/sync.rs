//! Bringing the price store up to the chain's tip and keeping it there.
//!
//! The engine performs no I/O. It names one [`Action`] at a time, is told with an [`Event`] what
//! came of it, and goes on from there:
//!
//! 1. heights below the oracle's first are filled with embedded prices and the timestamps of the
//!    node's headers;
//! 2. the oracle is restored from a checkpoint, or seeded and fed the blocks that the store
//!    already covers;
//! 3. the blocks up to the tip are processed and stored;
//! 4. the node is polled for new blocks.

use crate::storage::{
    last_of, law_append_reads_back, law_reopen_after_append, price_write, timestamp_write, Files,
    Meta, PriceStore,
};
use crate::text::{characters, contents, lines, split_lines};
use vstd::prelude::*;

verus! {

/// The heights between two flushes while embedded prices are stored.
pub const BOOTSTRAP_FLUSH: usize = 10_000;

/// The heights between two checkpoints while blocks are read from disk.
pub const DISK_CHECKPOINT: usize = 10_000;

/// The heights between two checkpoints while blocks come from the node.
pub const NODE_CHECKPOINT: usize = 1_000;

/// The blocks that warm up an oracle that was restored.
pub const WARMUP_BLOCKS: usize = 12;

/// The seconds between two polls of the node.
pub const POLL_SECONDS: u64 = 30;

/// Where the blocks are, and how to reach the node.
pub struct SyncConfig {
    pub rpc_url: String,
    pub rpc_user: String,
    pub rpc_pass: String,
    pub blocks_dir: Option<std::path::PathBuf>,
}

/// `std::path::PathBuf`, carried as it is: nothing is claimed of it.
#[verifier::external_type_specification]
#[verifier::external_body]
pub struct ExPathBuf(std::path::PathBuf);

/// The first height whose price the oracle computes from the chain.
pub open spec fn first_oracle_height() -> usize {
    550_000
}

/// `brk_oracle::START_HEIGHT`: the crate declares it as the constant 550,000.
#[verifier::external_body]
fn start_height() -> (height: usize)
    ensures
        height == first_oracle_height(),
{
    brk_oracle::START_HEIGHT
}

/// What is to be done next.
#[derive(Clone, Copy, Debug, PartialEq, Eq, Structural)]
pub enum Action {
    /// Wait until the node has all blocks that it knows of.
    WaitForNode,
    /// Ask the node for its last height.
    QueryTip,
    /// Make the last height known to others.
    PublishTip(usize),
    /// Look whether the configured directory with blocks exists.
    FindBlocks,
    /// Ask the node for the time in the header of a height.
    FetchHeaderTime(usize),
    /// Store the embedded price of a height.
    AppendEmbedded { height: usize, timestamp: u32 },
    /// Store the oracle's price of a height.
    Append { height: usize, timestamp: u32, price: u64 },
    /// Flush the files.
    Flush,
    /// Look for a checkpoint.
    LoadCheckpoint,
    /// Restore the oracle and warm it up with the blocks `from..to`, passing over those that
    /// cannot be had.
    RestoreOracle { ref_bin: u64, from: usize, to: usize },
    /// Start the oracle at the seed price.
    SeedOracle,
    /// Feed the oracle the blocks `first..=last` on disk.
    FeedFromDisk { first: u32, last: u32 },
    /// Feed the oracle a block from the node that the store already covers.
    FeedFromNode(usize),
    /// Open the blocks `first..=last` on disk.
    OpenReader { first: u32, last: u32 },
    /// Feed the oracle the next block on disk.
    NextBlock,
    /// Feed the oracle a block from the node.
    ProcessBlock(usize),
    /// Save the oracle's state as that of a height.
    SaveCheckpoint(usize),
    /// Wait for some seconds.
    Sleep(u64),
    /// Give up.
    Stop,
}

/// What came of an action.
#[derive(Clone, Copy, Debug, PartialEq, Eq, Structural)]
pub enum Event {
    /// It is done.
    Done,
    /// The node did not answer.
    Failed,
    /// The node's last height.
    Tip(usize),
    /// Whether the directory with blocks exists.
    BlocksDir(bool),
    /// The time in a header.
    HeaderTime(u32),
    /// The checkpoint, if there is one.
    Checkpoint(Option<Meta>),
    /// The block that the oracle was fed, and the price that it computed.
    Block { height: usize, timestamp: u32, price: u64 },
    /// No block on disk is left.
    EndOfBlocks,
}

/// Where whole blocks come from.
#[derive(Clone, Copy, Debug, PartialEq, Eq, Structural)]
pub enum Source {
    /// From the node.
    Node,
    /// From the directory with blocks.
    Disk,
    /// From the directory that is configured if it exists when it is looked for, else from the
    /// node.
    Undecided,
}

/// Where the engine stands: the action that it waits for, and why.
#[derive(Clone, Copy, Debug, PartialEq, Eq, Structural)]
pub enum Stage {
    AwaitNode,
    FirstTip,
    PublishFirstTip { tip: usize },
    LookForBlocks,
    BootHeader { height: usize },
    BootAppend { height: usize, timestamp: u32 },
    BootFlush { height: usize },
    BootFinalFlush,
    FindCheckpoint { resume: usize },
    Restore { resume: usize, ref_bin: u64 },
    Seed { resume: usize },
    CatchUpDisk { resume: usize },
    CatchUpNode { height: usize, resume: usize },
    SecondTip { resume: usize },
    PublishSecondTip { resume: usize, tip: usize },
    OpenDisk { resume: usize, tip: usize },
    DiskBlock { tip: usize },
    DiskAppend { height: usize, timestamp: u32, price: u64, tip: usize },
    DiskFlush { height: usize, tip: usize },
    DiskSave { height: usize, tip: usize },
    NodeBlock { height: usize, tip: usize },
    NodeAppend { height: usize, timestamp: u32, price: u64, tip: usize },
    NodeFlush { height: usize, tip: usize },
    NodeSave { height: usize, tip: usize },
    FinalFlush { tip: usize },
    FinalSave { tip: usize },
    PollSleep,
    PollTip,
    PollPublish { tip: usize },
    PollBlock { height: usize, tip: usize },
    PollAppend { height: usize, timestamp: u32, price: u64, tip: usize },
    PollFlush { tip: usize },
    PollSave { tip: usize },
    Stopped,
}

/// The start of the warm-up blocks before `resume`.
pub open spec fn warmup_start(resume: usize) -> usize {
    if resume >= WARMUP_BLOCKS {
        (resume - WARMUP_BLOCKS) as usize
    } else {
        0
    }
}

impl Stage {
    /// The action that the stage waits for.
    pub open spec fn action_of(self) -> Action {
        match self {
            Stage::AwaitNode => Action::WaitForNode,
            Stage::FirstTip => Action::QueryTip,
            Stage::PublishFirstTip { tip } => Action::PublishTip(tip),
            Stage::LookForBlocks => Action::FindBlocks,
            Stage::BootHeader { height } => Action::FetchHeaderTime(height),
            Stage::BootAppend { height, timestamp } => Action::AppendEmbedded {
                height,
                timestamp,
            },
            Stage::BootFlush { .. } => Action::Flush,
            Stage::BootFinalFlush => Action::Flush,
            Stage::FindCheckpoint { .. } => Action::LoadCheckpoint,
            Stage::Restore { resume, ref_bin } => Action::RestoreOracle {
                ref_bin,
                from: warmup_start(resume),
                to: resume,
            },
            Stage::Seed { .. } => Action::SeedOracle,
            Stage::CatchUpDisk { resume } => Action::FeedFromDisk {
                first: first_oracle_height() as u32,
                last: (resume - 1) as usize as u32,
            },
            Stage::CatchUpNode { height, .. } => Action::FeedFromNode(height),
            Stage::SecondTip { .. } => Action::QueryTip,
            Stage::PublishSecondTip { tip, .. } => Action::PublishTip(tip),
            Stage::OpenDisk { resume, tip } => Action::OpenReader {
                first: resume as u32,
                last: tip as u32,
            },
            Stage::DiskBlock { .. } => Action::NextBlock,
            Stage::DiskAppend { height, timestamp, price, .. } => Action::Append {
                height,
                timestamp,
                price,
            },
            Stage::DiskFlush { .. } => Action::Flush,
            Stage::DiskSave { height, .. } => Action::SaveCheckpoint(height),
            Stage::NodeBlock { height, .. } => Action::ProcessBlock(height),
            Stage::NodeAppend { height, timestamp, price, .. } => Action::Append {
                height,
                timestamp,
                price,
            },
            Stage::NodeFlush { .. } => Action::Flush,
            Stage::NodeSave { height, .. } => Action::SaveCheckpoint(height),
            Stage::FinalFlush { .. } => Action::Flush,
            Stage::FinalSave { tip } => Action::SaveCheckpoint(tip),
            Stage::PollSleep => Action::Sleep(POLL_SECONDS),
            Stage::PollTip => Action::QueryTip,
            Stage::PollPublish { tip } => Action::PublishTip(tip),
            Stage::PollBlock { height, .. } => Action::ProcessBlock(height),
            Stage::PollAppend { height, timestamp, price, .. } => Action::Append {
                height,
                timestamp,
                price,
            },
            Stage::PollFlush { .. } => Action::Flush,
            Stage::PollSave { tip } => Action::SaveCheckpoint(tip),
            Stage::Stopped => Action::Stop,
        }
    }

    /// Whether the event can come of the action that the stage waits for.
    pub open spec fn expects(self, event: Event) -> bool {
        match self.action_of() {
            Action::WaitForNode => event is Done || event is Failed,
            Action::QueryTip => event is Tip || event is Failed,
            Action::FindBlocks => event is BlocksDir,
            Action::FetchHeaderTime(_) => event is HeaderTime || event is Failed,
            Action::FeedFromNode(_) => event is Done || event is Failed,
            Action::LoadCheckpoint => event is Checkpoint,
            Action::NextBlock => event is Block || event is EndOfBlocks,
            Action::ProcessBlock(_) => event is Block || event is Failed,
            Action::Stop => false,
            _ => event is Done,
        }
    }
}

/// Going on with a store of `len` records: with the embedded prices that it lacks, or with the
/// oracle once it has them.
pub open spec fn resuming(len: nat) -> Stage {
    if len < first_oracle_height() {
        Stage::BootHeader { height: len as usize }
    } else {
        Stage::FindCheckpoint { resume: len as usize }
    }
}

/// Storing the embedded prices from `height` on, or what follows once there are none left.
pub open spec fn bootstrapping(height: nat) -> Stage {
    if height < first_oracle_height() {
        Stage::BootHeader { height: height as usize }
    } else {
        Stage::BootFinalFlush
    }
}

/// Feeding the oracle the blocks from `height` up to `resume`, or what follows once it has them.
pub open spec fn catching_up(height: nat, resume: usize) -> Stage {
    if height < resume {
        Stage::CatchUpNode { height: height as usize, resume }
    } else {
        Stage::SecondTip { resume }
    }
}

/// Processing the node's blocks from `height` up to the tip, or what follows once it is reached.
pub open spec fn processing(height: nat, tip: usize) -> Stage {
    if height <= tip {
        Stage::NodeBlock { height: height as usize, tip }
    } else {
        Stage::FinalFlush { tip }
    }
}

/// Processing the new blocks from `height` up to a polled tip, or what follows once it is
/// reached.
pub open spec fn following(height: nat, tip: usize) -> Stage {
    if height <= tip {
        Stage::PollBlock { height: height as usize, tip }
    } else {
        Stage::PollFlush { tip }
    }
}

/// Where blocks come from after an event: it is settled when the directory was looked for.
pub open spec fn source_after(source: Source, stage: Stage, event: Event) -> Source {
    match (stage, event) {
        (Stage::LookForBlocks, Event::BlocksDir(exists)) => if exists {
            Source::Disk
        } else {
            Source::Node
        },
        _ => source,
    }
}

/// The stage after an event, where the store has `len` records.
pub open spec fn next_stage(source: Source, stage: Stage, event: Event, len: nat) -> Stage {
    match (stage, event) {
        // A node that does not answer ends the run, except while it is polled; and an oracle that
        // catches up passes over the blocks that cannot be had.
        (Stage::CatchUpNode { height, resume }, _) => catching_up(height as nat + 1, resume),
        (Stage::PollTip, Event::Failed) => Stage::PollSleep,
        (Stage::PollBlock { tip, .. }, Event::Failed) => Stage::PollFlush { tip },
        (_, Event::Failed) => Stage::Stopped,
        (Stage::AwaitNode, _) => Stage::FirstTip,
        (Stage::FirstTip, Event::Tip(tip)) => Stage::PublishFirstTip { tip },
        (Stage::PublishFirstTip { .. }, _) => if source is Undecided {
            Stage::LookForBlocks
        } else {
            resuming(len)
        },
        (Stage::LookForBlocks, _) => resuming(len),
        (Stage::BootHeader { height }, Event::HeaderTime(timestamp)) => Stage::BootAppend {
            height,
            timestamp,
        },
        (Stage::BootAppend { height, .. }, _) => if height % BOOTSTRAP_FLUSH == 0 {
            Stage::BootFlush { height }
        } else {
            bootstrapping(height as nat + 1)
        },
        (Stage::BootFlush { height }, _) => bootstrapping(height as nat + 1),
        (Stage::BootFinalFlush, _) => Stage::FindCheckpoint { resume: first_oracle_height() },
        (Stage::FindCheckpoint { resume }, Event::Checkpoint(Some(meta))) => Stage::Restore {
            resume,
            ref_bin: meta.ref_bin,
        },
        (Stage::FindCheckpoint { resume }, _) => Stage::Seed { resume },
        (Stage::Restore { resume, .. }, _) => Stage::SecondTip { resume },
        (Stage::Seed { resume }, _) => if resume > first_oracle_height() && source is Disk {
            Stage::CatchUpDisk { resume }
        } else {
            catching_up(first_oracle_height() as nat, resume)
        },
        (Stage::CatchUpDisk { resume }, _) => Stage::SecondTip { resume },
        (Stage::SecondTip { resume }, Event::Tip(tip)) => Stage::PublishSecondTip { resume, tip },
        (Stage::PublishSecondTip { resume, tip }, _) => if resume > tip {
            Stage::PollSleep
        } else if source is Disk {
            Stage::OpenDisk { resume, tip }
        } else {
            Stage::NodeBlock { height: resume, tip }
        },
        (Stage::OpenDisk { tip, .. }, _) => Stage::DiskBlock { tip },
        (Stage::DiskBlock { tip }, Event::Block { height, timestamp, price }) => {
            Stage::DiskAppend { height, timestamp, price, tip }
        },
        (Stage::DiskBlock { tip }, _) => Stage::FinalFlush { tip },
        (Stage::DiskAppend { height, tip, .. }, _) => if height % DISK_CHECKPOINT == 0 {
            Stage::DiskFlush { height, tip }
        } else {
            Stage::DiskBlock { tip }
        },
        (Stage::DiskFlush { height, tip }, _) => Stage::DiskSave { height, tip },
        (Stage::DiskSave { tip, .. }, _) => Stage::DiskBlock { tip },
        (Stage::NodeBlock { height, tip }, Event::Block { timestamp, price, .. }) => {
            Stage::NodeAppend { height, timestamp, price, tip }
        },
        (Stage::NodeAppend { height, tip, .. }, _) => if height % NODE_CHECKPOINT == 0 {
            Stage::NodeFlush { height, tip }
        } else {
            processing(height as nat + 1, tip)
        },
        (Stage::NodeFlush { height, tip }, _) => Stage::NodeSave { height, tip },
        (Stage::NodeSave { height, tip }, _) => processing(height as nat + 1, tip),
        (Stage::FinalFlush { tip }, _) => Stage::FinalSave { tip },
        (Stage::FinalSave { .. }, _) => Stage::PollSleep,
        (Stage::PollSleep, _) => Stage::PollTip,
        (Stage::PollTip, Event::Tip(tip)) => Stage::PollPublish { tip },
        (Stage::PollPublish { tip }, _) => {
            let stored: nat = match last_of(len) {
                Some(h) => h,
                None => 0,
            };
            if tip > stored {
                Stage::PollBlock { height: (stored + 1) as usize, tip }
            } else {
                Stage::PollSleep
            }
        },
        (Stage::PollBlock { height, tip }, Event::Block { timestamp, price, .. }) => {
            Stage::PollAppend { height, timestamp, price, tip }
        },
        (Stage::PollAppend { height, tip, .. }, _) => following(height as nat + 1, tip),
        (Stage::PollFlush { tip }, _) => Stage::PollSave { tip },
        (Stage::PollSave { .. }, _) => Stage::PollSleep,
        _ => stage,
    }
}

/// Synchronises a price store with a node.
#[derive(Debug)]
pub struct SyncEngine {
    source: Source,
    stage: Stage,
}

impl SyncEngine {
    /// Where blocks come from.
    pub closed spec fn source(self) -> Source {
        self.source
    }

    /// Where the engine stands.
    pub closed spec fn stage(self) -> Stage {
        self.stage
    }

    /// An engine that has done nothing yet. If a directory with blocks is configured, it is looked
    /// for once the node has all blocks and its tip is published.
    pub fn new(config: &SyncConfig) -> (engine: SyncEngine)
        ensures
            engine.source() == (if config.blocks_dir is Some {
                Source::Undecided
            } else {
                Source::Node
            }),
            engine.stage() == Stage::AwaitNode,
    {
        let source = if config.blocks_dir.is_some() {
            Source::Undecided
        } else {
            Source::Node
        };
        SyncEngine { source, stage: Stage::AwaitNode }
    }

    /// Where the engine stands, to tell others about it.
    pub fn at(&self) -> (stage: Stage)
        ensures
            stage == self.stage(),
    {
        self.stage
    }

    /// The oracle is fed blocks from disk only where the store covers some.
    #[verifier::type_invariant]
    spec fn sound(self) -> bool {
        self.stage matches Stage::CatchUpDisk { resume } ==> resume > first_oracle_height()
    }

    /// What is to be done next.
    pub fn action(&self) -> (action: Action)
        ensures
            action == self.stage().action_of(),
    {
        proof {
            use_type_invariant(self);
        }
        match self.stage {
            Stage::AwaitNode => Action::WaitForNode,
            Stage::FirstTip | Stage::SecondTip { .. } | Stage::PollTip => Action::QueryTip,
            Stage::PublishFirstTip { tip } => Action::PublishTip(tip),
            Stage::PublishSecondTip { tip, .. } => Action::PublishTip(tip),
            Stage::PollPublish { tip } => Action::PublishTip(tip),
            Stage::LookForBlocks => Action::FindBlocks,
            Stage::BootHeader { height } => Action::FetchHeaderTime(height),
            Stage::BootAppend { height, timestamp } => Action::AppendEmbedded {
                height,
                timestamp,
            },
            Stage::BootFlush { .. } | Stage::BootFinalFlush => Action::Flush,
            Stage::DiskFlush { .. } | Stage::NodeFlush { .. } => Action::Flush,
            Stage::FinalFlush { .. } | Stage::PollFlush { .. } => Action::Flush,
            Stage::FindCheckpoint { .. } => Action::LoadCheckpoint,
            Stage::Restore { resume, ref_bin } => Action::RestoreOracle {
                ref_bin,
                from: resume.saturating_sub(WARMUP_BLOCKS),
                to: resume,
            },
            Stage::Seed { .. } => Action::SeedOracle,
            Stage::CatchUpDisk { resume } => Action::FeedFromDisk {
                first: #[verifier::truncate] (start_height() as u32),
                last: #[verifier::truncate] ((resume - 1) as u32),
            },
            Stage::CatchUpNode { height, .. } => Action::FeedFromNode(height),
            Stage::OpenDisk { resume, tip } => Action::OpenReader {
                first: #[verifier::truncate] (resume as u32),
                last: #[verifier::truncate] (tip as u32),
            },
            Stage::DiskBlock { .. } => Action::NextBlock,
            Stage::DiskAppend { height, timestamp, price, .. } => Action::Append {
                height,
                timestamp,
                price,
            },
            Stage::NodeAppend { height, timestamp, price, .. } => Action::Append {
                height,
                timestamp,
                price,
            },
            Stage::PollAppend { height, timestamp, price, .. } => Action::Append {
                height,
                timestamp,
                price,
            },
            Stage::NodeBlock { height, .. } => Action::ProcessBlock(height),
            Stage::PollBlock { height, .. } => Action::ProcessBlock(height),
            Stage::DiskSave { height, .. } => Action::SaveCheckpoint(height),
            Stage::NodeSave { height, .. } => Action::SaveCheckpoint(height),
            Stage::FinalSave { tip } => Action::SaveCheckpoint(tip),
            Stage::PollSave { tip } => Action::SaveCheckpoint(tip),
            Stage::PollSleep => Action::Sleep(POLL_SECONDS),
            Stage::Stopped => Action::Stop,
        }
    }

    /// Goes on after the action, with what came of it and the store as it is now.
    pub fn advance(&mut self, event: Event, store: &PriceStore)
        requires
            old(self).stage().expects(event),
        ensures
            final(self).stage() == next_stage(
                old(self).source(),
                old(self).stage(),
                event,
                store@,
            ),
            final(self).source() == source_after(old(self).source(), old(self).stage(), event),
    {
        let source = match (self.stage, event) {
            (Stage::LookForBlocks, Event::BlocksDir(true)) => Source::Disk,
            (Stage::LookForBlocks, Event::BlocksDir(false)) => Source::Node,
            _ => self.source,
        };
        self.stage =
        match (self.stage, event) {
            (Stage::CatchUpNode { height, resume }, _) => {
                if height < resume && height + 1 < resume {
                    Stage::CatchUpNode { height: height + 1, resume }
                } else {
                    Stage::SecondTip { resume }
                }
            },
            (Stage::PollTip, Event::Failed) => Stage::PollSleep,
            (Stage::PollBlock { tip, .. }, Event::Failed) => Stage::PollFlush { tip },
            (_, Event::Failed) => Stage::Stopped,
            (Stage::AwaitNode, _) => Stage::FirstTip,
            (Stage::FirstTip, Event::Tip(tip)) => Stage::PublishFirstTip { tip },
            (Stage::PublishFirstTip { .. }, _) => {
                if self.source == Source::Undecided {
                    Stage::LookForBlocks
                } else {
                    resume_with(store)
                }
            },
            (Stage::LookForBlocks, _) => resume_with(store),
            (Stage::BootHeader { height }, Event::HeaderTime(timestamp)) => Stage::BootAppend {
                height,
                timestamp,
            },
            (Stage::BootAppend { height, .. }, _) => {
                if height % BOOTSTRAP_FLUSH == 0 {
                    Stage::BootFlush { height }
                } else {
                    bootstrap_after(height)
                }
            },
            (Stage::BootFlush { height }, _) => bootstrap_after(height),
            (Stage::BootFinalFlush, _) => Stage::FindCheckpoint { resume: start_height() },
            (Stage::FindCheckpoint { resume }, Event::Checkpoint(Some(meta))) => Stage::Restore {
                resume,
                ref_bin: meta.ref_bin,
            },
            (Stage::FindCheckpoint { resume }, _) => Stage::Seed { resume },
            (Stage::Restore { resume, .. }, _) => Stage::SecondTip { resume },
            (Stage::Seed { resume }, _) => {
                if resume <= start_height() {
                    Stage::SecondTip { resume }
                } else if self.source == Source::Disk {
                    Stage::CatchUpDisk { resume }
                } else {
                    Stage::CatchUpNode { height: start_height(), resume }
                }
            },
            (Stage::CatchUpDisk { resume }, _) => Stage::SecondTip { resume },
            (Stage::SecondTip { resume }, Event::Tip(tip)) => Stage::PublishSecondTip {
                resume,
                tip,
            },
            (Stage::PublishSecondTip { resume, tip }, _) => {
                if resume > tip {
                    Stage::PollSleep
                } else if self.source == Source::Disk {
                    Stage::OpenDisk { resume, tip }
                } else {
                    Stage::NodeBlock { height: resume, tip }
                }
            },
            (Stage::OpenDisk { tip, .. }, _) => Stage::DiskBlock { tip },
            (Stage::DiskBlock { tip }, Event::Block { height, timestamp, price }) => {
                Stage::DiskAppend { height, timestamp, price, tip }
            },
            (Stage::DiskBlock { tip }, _) => Stage::FinalFlush { tip },
            (Stage::DiskAppend { height, tip, .. }, _) => {
                if height % DISK_CHECKPOINT == 0 {
                    Stage::DiskFlush { height, tip }
                } else {
                    Stage::DiskBlock { tip }
                }
            },
            (Stage::DiskFlush { height, tip }, _) => Stage::DiskSave { height, tip },
            (Stage::DiskSave { tip, .. }, _) => Stage::DiskBlock { tip },
            (Stage::NodeBlock { height, tip }, Event::Block { timestamp, price, .. }) => {
                Stage::NodeAppend { height, timestamp, price, tip }
            },
            (Stage::NodeAppend { height, tip, .. }, _) => {
                if height % NODE_CHECKPOINT == 0 {
                    Stage::NodeFlush { height, tip }
                } else {
                    process_after(height, tip)
                }
            },
            (Stage::NodeFlush { height, tip }, _) => Stage::NodeSave { height, tip },
            (Stage::NodeSave { height, tip }, _) => process_after(height, tip),
            (Stage::FinalFlush { tip }, _) => Stage::FinalSave { tip },
            (Stage::FinalSave { .. }, _) => Stage::PollSleep,
            (Stage::PollSleep, _) => Stage::PollTip,
            (Stage::PollTip, Event::Tip(tip)) => Stage::PollPublish { tip },
            (Stage::PollPublish { tip }, _) => {
                let stored: usize = match store.last_height() {
                    Some(height) => height,
                    None => 0,
                };
                if tip > stored {
                    Stage::PollBlock { height: stored + 1, tip }
                } else {
                    Stage::PollSleep
                }
            },
            (Stage::PollBlock { height, tip }, Event::Block { timestamp, price, .. }) => {
                Stage::PollAppend { height, timestamp, price, tip }
            },
            (Stage::PollAppend { height, tip, .. }, _) => {
                if height < tip {
                    Stage::PollBlock { height: height + 1, tip }
                } else {
                    Stage::PollFlush { tip }
                }
            },
            (Stage::PollFlush { tip }, _) => Stage::PollSave { tip },
            (Stage::PollSave { .. }, _) => Stage::PollSleep,
            (stage, _) => stage,
        };
        self.source = source;
    }
}

/// The stage that goes on with a store.
fn resume_with(store: &PriceStore) -> (stage: Stage)
    ensures
        stage == resuming(store@),
{
    let start: usize = store.len();
    if start < start_height() {
        Stage::BootHeader { height: start }
    } else {
        Stage::FindCheckpoint { resume: start }
    }
}

/// The stage after the embedded price of a height was stored.
fn bootstrap_after(height: usize) -> (stage: Stage)
    ensures
        stage == bootstrapping(height as nat + 1),
{
    let end: usize = start_height();
    if height < end && height + 1 < end {
        Stage::BootHeader { height: height + 1 }
    } else {
        Stage::BootFinalFlush
    }
}

/// The stage after a block of the node was stored.
fn process_after(height: usize, tip: usize) -> (stage: Stage)
    ensures
        stage == processing(height as nat + 1, tip),
{
    if height < tip {
        Stage::NodeBlock { height: height + 1, tip }
    } else {
        Stage::FinalFlush { tip }
    }
}

/// The number of heights with an embedded price of their own.
pub const EMBEDDED_PRICES: usize = 630_000;

/// The text of the embedded price at a height, a decimal number of dollars: a line of
/// `brk_oracle::PRICES`.
pub uninterp spec fn embedded_price_text(height: nat) -> Seq<char>;

/// `brk_oracle::PRICES`: the constant text of the prices before the oracle, documented as one per
/// line for the heights 0..630,000, so that it has 630,000 lines. The line of each height has a
/// name; nothing is claimed of what it says.
#[verifier::external_body]
fn embedded_text() -> (text: &'static str)
    ensures
        lines(text@).len() == EMBEDDED_PRICES,
        forall|h: int|
            0 <= h < EMBEDDED_PRICES ==> #[trigger] lines(text@)[h] == embedded_price_text(
                h as nat,
            ),
{
    brk_oracle::PRICES
}

/// The embedded prices as text, one per height.
pub fn embedded_prices() -> (list: Vec<Vec<char>>)
    ensures
        contents(list@) == Seq::new(
            EMBEDDED_PRICES as nat,
            |h: int| embedded_price_text(h as nat),
        ),
{
    let text: &'static str = embedded_text();
    let list: Vec<Vec<char>> = split_lines(text);
    assert(contents(list@) =~= Seq::new(
        EMBEDDED_PRICES as nat,
        |h: int| embedded_price_text(h as nat),
    ));
    list
}

/// The price of a height among embedded prices; a height beyond the last of them has its price.
pub fn embedded_price(list: &Vec<Vec<char>>, height: usize) -> (text: Option<&Vec<char>>)
    ensures
        match text {
            Some(t) => list@.len() > 0 && *t == list@[if height < list@.len() {
                height as int
            } else {
                list@.len() - 1
            }],
            None => list@.len() == 0,
        },
{
    if height < list.len() {
        Some(&list[height])
    } else if list.len() > 0 {
        Some(&list[list.len() - 1])
    } else {
        None
    }
}

/// The price that the oracle starts from, as text: the last embedded price before its first
/// height, or 50,000 dollars if there is none.
pub fn seed_price(list: &Vec<Vec<char>>) -> (text: Vec<char>)
    ensures
        text@ == (if list@.len() >= first_oracle_height() {
            list@[first_oracle_height() - 1]@
        } else {
            "50000.0"@
        }),
{
    let index: usize = start_height().saturating_sub(1);
    if index < list.len() {
        list[index].clone()
    } else {
        characters("50000.0")
    }
}

/// Every height below the oracle's first has an embedded price of its own, and the oracle starts
/// from the last of them.
pub proof fn law_embedded_prices_suffice(list: Seq<Vec<char>>, height: int)
    requires
        contents(list) == Seq::new(
            EMBEDDED_PRICES as nat,
            |h: int| embedded_price_text(h as nat),
        ),
        0 <= height < first_oracle_height(),
    ensures
        height < list.len(),
        list[height]@ == embedded_price_text(height as nat),
        list.len() >= first_oracle_height(),
{
    assert(contents(list).len() == list.len());
    assert(contents(list)[height] == list[height]@);
}

/// What the chain has at each height: the time in the header, and the price that the oracle
/// computes from the block.
pub struct Chain {
    pub time: spec_fn(nat) -> u32,
    pub price: spec_fn(nat) -> u64,
}

/// The records that a store has once the stage's action is done.
pub open spec fn len_after(stage: Stage, len: nat) -> nat {
    match stage.action_of() {
        Action::AppendEmbedded { .. } => len + 1,
        Action::Append { .. } => len + 1,
        _ => len,
    }
}

/// Whether an event says what is true of the chain: times and prices are those of their heights,
/// and blocks on disk come one by one, from the height that the store lacks next up to the tip.
pub open spec fn truthful(chain: Chain, stage: Stage, event: Event, len: nat) -> bool {
    match (stage, event) {
        (Stage::BootHeader { height }, Event::HeaderTime(timestamp)) => timestamp == (chain.time)(
            height as nat,
        ),
        (Stage::DiskBlock { tip }, Event::Block { height, timestamp, price }) => {
            &&& height == len <= tip
            &&& timestamp == (chain.time)(height as nat)
            &&& price == (chain.price)(height as nat)
        },
        (Stage::NodeBlock { height, .. }, Event::Block { timestamp, price, .. }) => {
            &&& timestamp == (chain.time)(height as nat)
            &&& price == (chain.price)(height as nat)
        },
        (Stage::PollBlock { height, .. }, Event::Block { timestamp, price, .. }) => {
            &&& timestamp == (chain.time)(height as nat)
            &&& price == (chain.price)(height as nat)
        },
        _ => true,
    }
}

/// Whether a stage that stores the oracle's price stores that of the height which the store
/// lacks next.
pub open spec fn in_place(
    chain: Chain,
    height: usize,
    timestamp: u32,
    price: u64,
    tip: usize,
    len: nat,
) -> bool {
    &&& height == len <= tip
    &&& timestamp == (chain.time)(height as nat)
    &&& price == (chain.price)(height as nat)
}

/// Whether a stage comes before the directory with blocks was looked for, or is the end of a run
/// that stopped there.
pub open spec fn precedes_look(stage: Stage) -> bool {
    stage is AwaitNode || stage is FirstTip || stage is PublishFirstTip || stage is LookForBlocks
        || stage is Stopped
}

/// Whether a stage fits a store of `len` records: the heights that it works on are those that the
/// store lacks next, or has just been given; and where blocks come from is settled by then.
pub open spec fn aligned(chain: Chain, source: Source, stage: Stage, len: nat) -> bool {
    let first = first_oracle_height();
    &&& source is Undecided ==> precedes_look(stage)
    &&& match stage {
        Stage::AwaitNode => true,
        Stage::FirstTip => true,
        Stage::PublishFirstTip { .. } => true,
        Stage::LookForBlocks => source is Undecided,
        Stage::BootHeader { height } => height == len < first,
        Stage::BootAppend { height, timestamp } => {
            &&& height == len < first
            &&& timestamp == (chain.time)(height as nat)
        },
        Stage::BootFlush { height } => height + 1 == len <= first,
        Stage::BootFinalFlush => len == first,
        Stage::FindCheckpoint { resume } => resume == len >= first,
        Stage::Restore { resume, .. } => resume == len >= first,
        Stage::Seed { resume } => resume == len >= first,
        Stage::CatchUpDisk { resume } => resume == len > first,
        Stage::CatchUpNode { height, resume } => resume == len && first <= height < resume,
        Stage::SecondTip { resume } => resume == len >= first,
        Stage::PublishSecondTip { resume, .. } => resume == len >= first,
        Stage::OpenDisk { resume, tip } => source is Disk && first <= resume == len <= tip,
        Stage::DiskBlock { tip } => source is Disk && first <= len <= tip + 1,
        Stage::DiskAppend { height, timestamp, price, tip } => {
            &&& source is Disk
            &&& first <= len
            &&& in_place(chain, height, timestamp, price, tip, len)
        },
        Stage::DiskFlush { height, tip } => source is Disk && first < height + 1 == len <= tip + 1,
        Stage::DiskSave { height, tip } => source is Disk && first < height + 1 == len <= tip + 1,
        Stage::NodeBlock { height, tip } => first <= height == len <= tip,
        Stage::NodeAppend { height, timestamp, price, tip } => {
            &&& first <= len
            &&& in_place(chain, height, timestamp, price, tip, len)
        },
        Stage::NodeFlush { height, tip } => first < height + 1 == len <= tip + 1,
        Stage::NodeSave { height, tip } => first < height + 1 == len <= tip + 1,
        Stage::FinalFlush { tip } => first < len + 1 && len <= tip + 1 && (source is Disk || len == tip
            + 1),
        Stage::FinalSave { tip } => first < len + 1 && len <= tip + 1 && (source is Disk || len == tip
            + 1),
        Stage::PollSleep => first <= len,
        Stage::PollTip => first <= len,
        Stage::PollPublish { .. } => first <= len,
        Stage::PollBlock { height, tip } => first <= height == len <= tip,
        Stage::PollAppend { height, timestamp, price, tip } => {
            &&& first <= len
            &&& in_place(chain, height, timestamp, price, tip, len)
        },
        Stage::PollFlush { tip } => first <= len <= tip + 1,
        Stage::PollSave { tip } => first <= len <= tip + 1,
        Stage::Stopped => true,
    }
}

/// The stage that a step leads to, once the action is done and its event has come.
pub open spec fn stage_after(source: Source, stage: Stage, event: Event, len: nat) -> Stage {
    next_stage(source, stage, event, len_after(stage, len))
}

/// Whether a step can be taken: the stage fits the store, and the event can come of its action
/// and is true of the chain.
pub open spec fn is_step(
    chain: Chain,
    source: Source,
    stage: Stage,
    event: Event,
    len: nat,
) -> bool {
    &&& aligned(chain, source, stage, len)
    &&& stage.expects(event)
    &&& truthful(chain, stage, event, len)
    &&& len_after(stage, len) <= usize::MAX
}

/// A step leads to a stage that fits the store again; and what is stored is always the record of
/// the height that the store lacks next, with that height's own time and price.
pub proof fn law_heights_in_place(
    chain: Chain,
    source: Source,
    stage: Stage,
    event: Event,
    len: nat,
)
    requires
        is_step(chain, source, stage, event, len),
    ensures
        aligned(
            chain,
            source_after(source, stage, event),
            stage_after(source, stage, event, len),
            len_after(stage, len),
        ),
        stage.action_of() matches Action::AppendEmbedded { height, timestamp } ==> height == len
            && timestamp == (chain.time)(len) && height < first_oracle_height(),
        stage.action_of() matches Action::Append { height, timestamp, price } ==> height == len
            && timestamp == (chain.time)(len) && price == (chain.price)(len) && height
            >= first_oracle_height(),
{
}

/// Whether the events are such as can come of the actions, one after the other, and true of the
/// chain.
pub open spec fn truthful_run(
    chain: Chain,
    source: Source,
    stage: Stage,
    len: nat,
    events: Seq<Event>,
) -> bool
    decreases events.len(),
{
    events.len() == 0 || {
        let after = len_after(stage, len);
        &&& stage.expects(events[0])
        &&& truthful(chain, stage, events[0], len)
        &&& truthful_run(
            chain,
            source_after(source, stage, events[0]),
            stage_after(source, stage, events[0], len),
            after,
            events.drop_first(),
        )
    }
}

/// The actions of a run that store a record, in order.
pub open spec fn stores(
    source: Source,
    stage: Stage,
    len: nat,
    events: Seq<Event>,
) -> Seq<Action>
    decreases events.len(),
{
    if events.len() == 0 {
        Seq::empty()
    } else {
        let after = len_after(stage, len);
        let rest = stores(
            source_after(source, stage, events[0]),
            stage_after(source, stage, events[0], len),
            after,
            events.drop_first(),
        );
        if after > len {
            seq![stage.action_of()] + rest
        } else {
            rest
        }
    }
}

/// The action that stores the record of a height of the chain.
pub open spec fn store_action(chain: Chain, height: nat) -> Action {
    if height < first_oracle_height() {
        Action::AppendEmbedded { height: height as usize, timestamp: (chain.time)(height) }
    } else {
        Action::Append {
            height: height as usize,
            timestamp: (chain.time)(height),
            price: (chain.price)(height),
        }
    }
}

/// A run, from any stage that fits the store, stores the heights of the chain that the store
/// lacks, one after the other, each once.
pub proof fn law_run_stores_heights(
    chain: Chain,
    source: Source,
    stage: Stage,
    len: nat,
    events: Seq<Event>,
)
    requires
        aligned(chain, source, stage, len),
        truthful_run(chain, source, stage, len, events),
        len + events.len() <= usize::MAX,
    ensures
        run_len(source, stage, len, events) == len + stores(source, stage, len, events).len(),
        forall|i: int|
            0 <= i < stores(source, stage, len, events).len() ==> #[trigger] stores(
                source,
                stage,
                len,
                events,
            )[i] == store_action(chain, (len + i) as nat),
    decreases events.len(),
{
    if events.len() > 0 {
        let after = len_after(stage, len);
        let next = stage_after(source, stage, events[0], len);
        let next_source = source_after(source, stage, events[0]);
        law_heights_in_place(chain, source, stage, events[0], len);
        law_run_stores_heights(chain, next_source, next, after, events.drop_first());
        let rest = stores(next_source, next, after, events.drop_first());
        let all = stores(source, stage, len, events);
        assert forall|i: int| 0 <= i < all.len() implies #[trigger] all[i] == store_action(
            chain,
            (len + i) as nat,
        ) by {
            if after > len {
                if i > 0 {
                    assert(all[i] == rest[i - 1]);
                }
            } else {
                assert(all[i] == rest[i]);
            }
        }
    }
}

/// The price that the store is given for a height: an embedded one below the oracle's first
/// height, the oracle's from there on.
pub open spec fn stored_price(chain: Chain, embedded: spec_fn(nat) -> u64, height: nat) -> u64 {
    if height < first_oracle_height() {
        embedded(height)
    } else {
        (chain.price)(height)
    }
}

/// The files once the stage's action is done, where `embedded` is the embedded price of each
/// height.
pub open spec fn files_after(
    embedded: spec_fn(nat) -> u64,
    stage: Stage,
    len: nat,
    files: Files,
) -> Files {
    match stage.action_of() {
        Action::AppendEmbedded { height, timestamp } => files.after(
            price_write(len, embedded(height as nat)),
        ).after(timestamp_write(len, timestamp)),
        Action::Append { timestamp, price, .. } => files.after(price_write(len, price)).after(
            timestamp_write(len, timestamp),
        ),
        _ => files,
    }
}

/// The records that a store has after a run.
pub open spec fn run_len(source: Source, stage: Stage, len: nat, events: Seq<Event>) -> nat
    decreases events.len(),
{
    if events.len() == 0 {
        len
    } else {
        run_len(
            source_after(source, stage, events[0]),
            stage_after(source, stage, events[0], len),
            len_after(stage, len),
            events.drop_first(),
        )
    }
}

/// The files after a run.
pub open spec fn run_files(
    embedded: spec_fn(nat) -> u64,
    source: Source,
    stage: Stage,
    len: nat,
    files: Files,
    events: Seq<Event>,
) -> Files
    decreases events.len(),
{
    if events.len() == 0 {
        files
    } else {
        run_files(
            embedded,
            source_after(source, stage, events[0]),
            stage_after(source, stage, events[0], len),
            len_after(stage, len),
            files_after(embedded, stage, len, files),
            events.drop_first(),
        )
    }
}

/// After any run, record `h` belongs to height `h`: the records that the store had read as
/// before, and each record that the run has added reads the time of its height on the chain, and
/// its price. Files that held no more than the store counted hold no more afterwards, so a store
/// that is opened on them goes on where the run ended.
pub proof fn law_run_records(
    chain: Chain,
    embedded: spec_fn(nat) -> u64,
    source: Source,
    stage: Stage,
    len: nat,
    files: Files,
    events: Seq<Event>,
    height: nat,
)
    requires
        aligned(chain, source, stage, len),
        truthful_run(chain, source, stage, len, events),
        len + events.len() <= usize::MAX,
        len <= files.records(),
    ensures
        ({
            let end = run_len(source, stage, len, events);
            let after = run_files(embedded, source, stage, len, files, events);
            &&& len <= end <= after.records()
            &&& len == files.records() ==> end == after.records()
            &&& height < len ==> {
                &&& after.timestamp(end, height) == files.timestamp(len, height)
                &&& after.price(end, height) == files.price(len, height)
            }
            &&& len <= height < end ==> {
                &&& after.timestamp(end, height) == Some((chain.time)(height))
                &&& after.price(end, height) == Some(stored_price(chain, embedded, height))
            }
        }),
    decreases events.len(),
{
    if events.len() > 0 {
        let next = stage_after(source, stage, events[0], len);
        let next_len = len_after(stage, len);
        let next_files = files_after(embedded, stage, len, files);
        law_heights_in_place(chain, source, stage, events[0], len);
        if next_len > len {
            let price = stored_price(chain, embedded, len);
            let time = (chain.time)(len);
            assert(next_files == files.after(price_write(len, price)).after(
                timestamp_write(len, time),
            ));
            law_append_reads_back(files, len, price, time, height);
            if len == files.records() {
                law_reopen_after_append(files, price, time);
            }
        }
        law_run_records(
            chain,
            embedded,
            source_after(source, stage, events[0]),
            next,
            next_len,
            next_files,
            events.drop_first(),
            height,
        );
    }
}

/// A run begins, whatever the store holds, at the first height that the store lacks, once the
/// first tip is published and the directory with blocks, if one is configured, was looked for.
pub proof fn law_run_resumes(
    chain: Chain,
    source: Source,
    tip: usize,
    exists_now: bool,
    len: nat,
)
    requires
        len <= usize::MAX,
    ensures
        aligned(chain, source, Stage::AwaitNode, len),
        ({
            let begun = if len < first_oracle_height() {
                Stage::BootHeader { height: len as usize }
            } else {
                Stage::FindCheckpoint { resume: len as usize }
            };
            &&& next_stage(source, Stage::PublishFirstTip { tip }, Event::Done, len) == (
            if source is Undecided {
                Stage::LookForBlocks
            } else {
                begun
            })
            &&& next_stage(source, Stage::LookForBlocks, Event::BlocksDir(exists_now), len) == begun
        }),
{
}

/// Where blocks come from is settled by whether the configured directory exists when the node has
/// all blocks and the first tip is published; and it never changes afterwards.
pub proof fn law_source_settled(
    chain: Chain,
    source: Source,
    stage: Stage,
    event: Event,
    len: nat,
)
    requires
        is_step(chain, source, stage, event, len),
    ensures
        event matches Event::BlocksDir(exists_now) ==> source_after(source, stage, event) == (
        if exists_now {
            Source::Disk
        } else {
            Source::Node
        }),
        !(event is BlocksDir) ==> source_after(source, stage, event) == source,
        stage_after(source, stage, event, len) is LookForBlocks ==> stage is PublishFirstTip,
        !precedes_look(stage_after(source, stage, event, len)) ==> !(source_after(
            source,
            stage,
            event,
        ) is Undecided),
        !(source is Undecided) ==> source_after(source, stage, event) == source,
{
}

/// When the blocks of the node have been processed, the store has every height up to the tip,
/// and the checkpoint is that of the tip.
pub proof fn law_synced_to_tip(chain: Chain, stage: Stage, event: Event, len: nat)
    requires
        is_step(chain, Source::Node, stage, event, len),
    ensures
        stage_after(Source::Node, stage, event, len) matches Stage::FinalFlush { tip } ==> len_after(
            stage,
            len,
        ) == tip + 1,
        stage_after(Source::Node, stage, event, len) matches Stage::FinalSave { tip } ==> len_after(
            stage,
            len,
        ) == tip + 1,
{
}

/// When the last block on disk was that of the tip, the store has every height up to the tip when
/// the files are flushed and the checkpoint of the tip is saved.
pub proof fn law_disk_synced_to_tip(
    chain: Chain,
    stage: Stage,
    event: Event,
    tip: usize,
    len: nat,
)
    requires
        is_step(chain, Source::Disk, stage, event, len),
        len == tip + 1,
    ensures
        stage == (Stage::DiskBlock { tip }) && event is EndOfBlocks ==> {
            &&& stage_after(Source::Disk, stage, event, len) == (Stage::FinalFlush { tip })
            &&& len_after(stage, len) == tip + 1
        },
        stage == (Stage::FinalFlush { tip }) ==> {
            &&& stage_after(Source::Disk, stage, event, len) == (Stage::FinalSave { tip })
            &&& len_after(stage, len) == tip + 1
        },
{
}

/// A checkpoint is saved only right after a flush, so the files hold what it stands for; it is
/// never that of a height below the last one stored; and while a run processes blocks, it is that
/// of the last height stored.
pub proof fn law_checkpoint_after_flush(
    chain: Chain,
    source: Source,
    stage: Stage,
    event: Event,
    len: nat,
)
    requires
        aligned(chain, source, stage, len),
        stage.expects(event),
    ensures
        ({
            let next = stage_after(source, stage, event, len);
            &&& next.action_of() is SaveCheckpoint ==> stage.action_of() is Flush
            &&& next.action_of() matches Action::SaveCheckpoint(height) ==> len <= height + 1
            &&& next matches Stage::DiskSave { height, .. } ==> height + 1 == len
            &&& next matches Stage::NodeSave { height, .. } ==> height + 1 == len
        }),
{
}

/// Every last height that the node reports is published before anything else is done.
pub proof fn law_tip_published(source: Source, stage: Stage, tip: usize, len: nat)
    requires
        stage.expects(Event::Tip(tip)),
    ensures
        next_stage(source, stage, Event::Tip(tip), len).action_of() == Action::PublishTip(tip),
{
}

/// The blocks that warm up a restored oracle are the last twelve that the store has.
pub proof fn law_warmup_stored(chain: Chain, source: Source, stage: Stage, len: nat)
    requires
        aligned(chain, source, stage, len),
    ensures
        stage.action_of() matches Action::RestoreOracle { from, to, .. } ==> to == len && to - from
            == WARMUP_BLOCKS,
{
}

/// An oracle that was seeded is given every block from its first height up to the last one that
/// the store has, in order, before the chain's tip is asked for; a block that the node does not
/// hand out is passed over.
pub proof fn law_catch_up_covers(
    chain: Chain,
    source: Source,
    stage: Stage,
    event: Event,
    len: nat,
)
    requires
        is_step(chain, source, stage, event, len),
    ensures
        stage is Seed ==> stage_after(source, stage, event, len) == (if len
            == first_oracle_height() {
            Stage::SecondTip { resume: len as usize }
        } else if source is Disk {
            Stage::CatchUpDisk { resume: len as usize }
        } else {
            Stage::CatchUpNode { height: first_oracle_height(), resume: len as usize }
        }),
        stage.action_of() matches Action::FeedFromDisk { first, last } ==> first
            == first_oracle_height() && (len <= u32::MAX ==> last + 1 == len),
        stage.action_of() matches Action::FeedFromNode(height) ==> stage_after(
            source,
            stage,
            event,
            len,
        ) == (if height + 1 < len {
            Stage::CatchUpNode { height: (height + 1) as usize, resume: len as usize }
        } else {
            Stage::SecondTip { resume: len as usize }
        }),
{
}

/// The blocks that are opened on disk are those from the height that the store lacks next up to
/// the tip.
pub proof fn law_disk_range(chain: Chain, source: Source, resume: usize, tip: usize, len: nat)
    requires
        aligned(chain, source, Stage::OpenDisk { resume, tip }, len),
        tip <= u32::MAX,
    ensures
        (Stage::OpenDisk { resume, tip }).action_of() == (Action::OpenReader {
            first: len as u32,
            last: tip as u32,
        }),
        len <= tip,
{
}

/// Files are flushed after every 10,000th height while embedded prices are stored; a checkpoint is
/// due after every 10,000th height from disk and every 1,000th from the node; and new blocks of a
/// poll are flushed once, at its end.
pub proof fn law_flush_cadence(
    chain: Chain,
    source: Source,
    stage: Stage,
    event: Event,
    len: nat,
)
    requires
        is_step(chain, source, stage, event, len),
    ensures
        ({
            let flushes = stage_after(source, stage, event, len).action_of() is Flush;
            &&& stage matches Stage::BootAppend { height, .. } ==> (flushes <==> height
                % BOOTSTRAP_FLUSH == 0 || height + 1 == first_oracle_height())
            &&& stage matches Stage::DiskAppend { height, .. } ==> (flushes <==> height
                % DISK_CHECKPOINT == 0)
            &&& stage matches Stage::NodeAppend { height, tip, .. } ==> (flushes <==> height
                % NODE_CHECKPOINT == 0 || height == tip)
            &&& stage matches Stage::PollAppend { height, tip, .. } ==> (flushes <==> height == tip)
        }),
{
}

/// Whether the engine has caught up and polls the node.
pub open spec fn is_polling(stage: Stage) -> bool {
    match stage {
        Stage::PollSleep => true,
        Stage::PollTip => true,
        Stage::PollPublish { .. } => true,
        Stage::PollBlock { .. } => true,
        Stage::PollAppend { .. } => true,
        Stage::PollFlush { .. } => true,
        Stage::PollSave { .. } => true,
        _ => false,
    }
}

/// Polling never ends: not even a node that does not answer stops it.
pub proof fn law_polling_goes_on(source: Source, stage: Stage, event: Event, len: nat)
    requires
        is_polling(stage),
        stage.expects(event),
    ensures
        is_polling(next_stage(source, stage, event, len)),
{
}

/// Before it polls, the engine stops exactly when the node does not answer; except that a block
/// which an oracle that catches up is to be fed is passed over.
pub proof fn law_failure_stops(source: Source, stage: Stage, event: Event, len: nat)
    requires
        !is_polling(stage),
        stage.expects(event),
    ensures
        next_stage(source, stage, event, len) is Stopped <==> event is Failed && !(stage is
            CatchUpNode),
{
}

/// A round of polling that fetches every block brings the store to the tip.
pub proof fn law_poll_reaches_tip(
    chain: Chain,
    source: Source,
    stage: Stage,
    event: Event,
    len: nat,
)
    requires
        is_step(chain, source, stage, event, len),
        stage is PollAppend,
    ensures
        stage_after(source, stage, event, len) matches Stage::PollFlush { tip } ==> len_after(
            stage,
            len,
        ) == tip + 1,
        stage_after(source, stage, event, len) matches Stage::PollBlock { height, .. }
            ==> len_after(stage, len) == height,
        stage_after(source, stage, event, len) is PollFlush || stage_after(
            source,
            stage,
            event,
            len,
        ) is PollBlock,
{
}

/// How far a stage of polling is from the end of its round.
pub open spec fn round_left(stage: Stage) -> (int, int) {
    match stage {
        Stage::PollSleep => (5, 0),
        Stage::PollTip => (4, 0),
        Stage::PollPublish { .. } => (3, 0),
        Stage::PollBlock { height, tip } => (2, 2 * (tip - height) + 1),
        Stage::PollAppend { height, tip, .. } => (2, 2 * (tip - height)),
        Stage::PollFlush { .. } => (1, 0),
        _ => (0, 0),
    }
}

/// Every step of polling brings its round closer to the end, or begins the next one by sleeping:
/// the engine asks the node for its tip again and again.
pub proof fn law_poll_round_ends(
    chain: Chain,
    source: Source,
    stage: Stage,
    event: Event,
    len: nat,
)
    requires
        is_step(chain, source, stage, event, len),
        is_polling(stage),
    ensures
        stage_after(source, stage, event, len) is PollSleep || shorter(
            round_left(stage_after(source, stage, event, len)),
            round_left(stage),
        ),
{
}

/// A block that a poll could not fetch is the first that the next poll asks for, as long as the
/// node still has it.
pub proof fn law_poll_retries(
    chain: Chain,
    source: Source,
    height: usize,
    tip: usize,
    next_tip: usize,
    len: nat,
)
    requires
        aligned(chain, source, Stage::PollBlock { height, tip }, len),
        next_tip >= height,
    ensures
        next_stage(source, Stage::PollBlock { height, tip }, Event::Failed, len)
            == (Stage::PollFlush { tip }),
        next_stage(source, Stage::PollPublish { tip: next_tip }, Event::Done, len)
            == (Stage::PollBlock { height, tip: next_tip }),
{
}

/// How far a stage is from polling: the parts of the run that are left, and the steps that are
/// left in this part, at most four at each of its heights.
pub open spec fn distance(stage: Stage, len: nat) -> (int, int) {
    let first = first_oracle_height();
    match stage {
        Stage::AwaitNode => (14, 0),
        Stage::FirstTip => (13, 0),
        Stage::PublishFirstTip { .. } => (12, 0),
        Stage::LookForBlocks => (11, 0),
        Stage::BootHeader { height } => (10, 4 * (first - height) + 2),
        Stage::BootAppend { height, .. } => (10, 4 * (first - height) + 1),
        Stage::BootFlush { height } => (10, 4 * (first - height)),
        Stage::BootFinalFlush => (9, 0),
        Stage::FindCheckpoint { .. } => (8, 0),
        Stage::Restore { .. } => (7, 0),
        Stage::Seed { .. } => (7, 0),
        Stage::CatchUpDisk { .. } => (6, 0),
        Stage::CatchUpNode { height, resume } => (6, 4 * (resume - height)),
        Stage::SecondTip { .. } => (5, 0),
        Stage::PublishSecondTip { .. } => (4, 0),
        Stage::OpenDisk { .. } => (3, 0),
        Stage::DiskBlock { tip } => (2, 4 * (tip + 1 - len) + 3),
        Stage::DiskAppend { height, tip, .. } => (2, 4 * (tip + 1 - height) + 2),
        Stage::DiskFlush { height, tip } => (2, 4 * (tip + 1 - height) + 1),
        Stage::DiskSave { height, tip } => (2, 4 * (tip + 1 - height)),
        Stage::NodeBlock { height, tip } => (2, 4 * (tip + 1 - height) + 3),
        Stage::NodeAppend { height, tip, .. } => (2, 4 * (tip + 1 - height) + 2),
        Stage::NodeFlush { height, tip } => (2, 4 * (tip + 1 - height) + 1),
        Stage::NodeSave { height, tip } => (2, 4 * (tip + 1 - height)),
        Stage::FinalFlush { .. } => (1, 1),
        Stage::FinalSave { .. } => (1, 0),
        _ => (0, 0),
    }
}

/// Whether the first distance is shorter than the second.
pub open spec fn shorter(a: (int, int), b: (int, int)) -> bool {
    &&& 0 <= a.0 && 0 <= a.1
    &&& a.0 < b.0 || (a.0 == b.0 && a.1 < b.1)
}

/// Whether a step brings the engine closer to polling.
pub open spec fn step_shortens(source: Source, stage: Stage, event: Event, len: nat) -> bool {
    shorter(
        distance(stage_after(source, stage, event, len), len_after(stage, len)),
        distance(stage, len),
    )
}

/// The steps before and after the embedded prices make progress.
proof fn lemma_beginning_progresses(
    chain: Chain,
    source: Source,
    stage: Stage,
    event: Event,
    len: nat,
)
    requires
        is_step(chain, source, stage, event, len),
        stage is AwaitNode || stage is FirstTip || stage is PublishFirstTip || stage is LookForBlocks
            || stage is FindCheckpoint || stage is Restore || stage is BootFinalFlush,
    ensures
        step_shortens(source, stage, event, len),
{
}

/// Storing embedded prices makes progress.
proof fn lemma_bootstrap_progresses(
    chain: Chain,
    source: Source,
    stage: Stage,
    event: Event,
    len: nat,
)
    requires
        is_step(chain, source, stage, event, len),
        stage is BootHeader || stage is BootAppend || stage is BootFlush,
    ensures
        step_shortens(source, stage, event, len),
{
}

/// Setting up the oracle makes progress.
proof fn lemma_oracle_progresses(
    chain: Chain,
    source: Source,
    stage: Stage,
    event: Event,
    len: nat,
)
    requires
        is_step(chain, source, stage, event, len),
        stage is Seed || stage is CatchUpDisk || stage is CatchUpNode || stage is SecondTip || stage is
            PublishSecondTip,
    ensures
        step_shortens(source, stage, event, len),
{
}

/// Processing the blocks on disk makes progress.
proof fn lemma_disk_progresses(
    chain: Chain,
    source: Source,
    stage: Stage,
    event: Event,
    len: nat,
)
    requires
        is_step(chain, source, stage, event, len),
        stage is OpenDisk || stage is DiskBlock || stage is DiskAppend || stage is DiskFlush || stage is
            DiskSave,
    ensures
        step_shortens(source, stage, event, len),
{
}

/// Processing the blocks of the node makes progress.
proof fn lemma_node_progresses(
    chain: Chain,
    source: Source,
    stage: Stage,
    event: Event,
    len: nat,
)
    requires
        is_step(chain, source, stage, event, len),
        stage is NodeBlock || stage is NodeAppend || stage is NodeFlush || stage is NodeSave || stage is
            FinalFlush || stage is FinalSave,
    ensures
        step_shortens(source, stage, event, len),
{
}

/// Until it polls, every step brings the engine closer to polling, or stops it: a run cannot go
/// on for ever without catching up.
pub proof fn law_run_progresses(
    chain: Chain,
    source: Source,
    stage: Stage,
    event: Event,
    len: nat,
)
    requires
        is_step(chain, source, stage, event, len),
        !is_polling(stage),
    ensures
        step_shortens(source, stage, event, len),
{
    match stage {
        Stage::BootHeader { .. } | Stage::BootAppend { .. } | Stage::BootFlush { .. } => {
            lemma_bootstrap_progresses(chain, source, stage, event, len);
        },
        Stage::Seed { .. } | Stage::CatchUpDisk { .. } | Stage::CatchUpNode { .. } | Stage::SecondTip {
            ..
        } | Stage::PublishSecondTip { .. } => {
            lemma_oracle_progresses(chain, source, stage, event, len);
        },
        Stage::OpenDisk { .. } | Stage::DiskBlock { .. } | Stage::DiskAppend { .. } | Stage::DiskFlush {
            ..
        } | Stage::DiskSave { .. } => {
            lemma_disk_progresses(chain, source, stage, event, len);
        },
        Stage::NodeBlock { .. } | Stage::NodeAppend { .. } | Stage::NodeFlush { .. } | Stage::NodeSave {
            ..
        } | Stage::FinalFlush { .. } | Stage::FinalSave { .. } => {
            lemma_node_progresses(chain, source, stage, event, len);
        },
        Stage::AwaitNode | Stage::FirstTip | Stage::PublishFirstTip { .. } | Stage::LookForBlocks
        | Stage::BootFinalFlush | Stage::FindCheckpoint { .. } | Stage::Restore { .. } => {
            lemma_beginning_progresses(chain, source, stage, event, len);
        },
        _ => {},
    }
}

/// The embedded prices are 630,000, line by line as the oracle has them; the oracle's first height
/// is 550,000; a height has its own price, or the last one if there is none; and the oracle starts
/// from the price below its first height, or from 50,000 dollars.
pub proof fn law_embedded_prices(
    all: Vec<Vec<char>>,
    list: &Vec<Vec<char>>,
    height: usize,
    text: Option<&Vec<char>>,
    seed: Vec<char>,
)
    requires
        call_ensures(embedded_prices, (), all),
        call_ensures(embedded_price, (list, height), text),
        call_ensures(seed_price, (list,), seed),
    ensures
        all@.len() == 630_000,
        forall|h: int|
            0 <= h < 630_000 ==> (#[trigger] all@[h])@ == embedded_price_text(h as nat),
        first_oracle_height() == 550_000,
        list@.len() == 0 ==> text is None,
        height < list@.len() ==> text == Some(&list@[height as int]),
        0 < list@.len() <= height ==> text == Some(&list@[list@.len() - 1]),
        list@.len() >= 550_000 ==> seed@ == list@[549_999]@,
        list@.len() < 550_000 ==> seed@ == "50000.0"@,
{
    assert(contents(all@).len() == all@.len());
    assert forall|h: int| 0 <= h < 630_000 implies (#[trigger] all@[h])@ == embedded_price_text(
        h as nat,
    ) by {
        assert(contents(all@)[h] == all@[h]@);
    }
}

/// An engine begins by waiting for the node; it will look for blocks on disk exactly if a
/// directory is configured.
pub proof fn law_engine_begins(config: &SyncConfig, engine: SyncEngine, action: Action)
    requires
        call_ensures(SyncEngine::new, (config,), engine),
        call_ensures(SyncEngine::action, (&engine,), action),
    ensures
        action == Action::WaitForNode,
        engine.stage() == Stage::AwaitNode,
        config.blocks_dir is Some ==> engine.source() == Source::Undecided,
        config.blocks_dir is None ==> engine.source() == Source::Node,
{
}

/// An engine does what its stage says, and every call takes it to the next stage: so what holds of
/// stages and events holds of the engine.
pub proof fn law_engine_steps(
    engine: &mut SyncEngine,
    event: Event,
    store: &PriceStore,
    before: Action,
    after: Action,
    at: Stage,
)
    requires
        call_ensures(SyncEngine::action, (&*engine,), before),
        call_ensures(SyncEngine::advance, (engine, event, store), ()),
        call_ensures(SyncEngine::action, (&*final(engine),), after),
        call_ensures(SyncEngine::at, (&*final(engine),), at),
    ensures
        before == old(engine).stage().action_of(),
        at == next_stage(old(engine).source(), old(engine).stage(), event, store@),
        at == final(engine).stage(),
        after == at.action_of(),
        final(engine).source() == source_after(old(engine).source(), old(engine).stage(), event),
{
}

/// A checkpoint that is found is what the oracle is restored from: its reference bin, all 64 bits
/// of it, and the twelve blocks before the height at which the run resumes. Without one, the oracle
/// is seeded.
pub proof fn law_checkpoint_restored(
    engine: &mut SyncEngine,
    found: Option<Meta>,
    store: &PriceStore,
    after: Action,
)
    requires
        call_ensures(SyncEngine::action, (&*engine,), Action::LoadCheckpoint),
        call_ensures(SyncEngine::advance, (engine, Event::Checkpoint(found), store), ()),
        call_ensures(SyncEngine::action, (&*final(engine),), after),
    ensures
        old(engine).stage() is FindCheckpoint,
        found is None ==> after == Action::SeedOracle,
        found matches Some(meta) ==> {
            let resume = old(engine).stage()->FindCheckpoint_resume;
            &&& after matches Action::RestoreOracle { ref_bin, from, to }
            &&& ref_bin == meta.ref_bin
            &&& to == resume
            &&& resume >= 12 ==> from == resume - 12
            &&& resume < 12 ==> from == 0
        },
{
}

/// What an engine is told, it passes on unchanged, and goes on to the next height: the tip is
/// published; the time of a header and the price of a block, all bits of them, are stored at the
/// height that was asked for; and so on, for every action whose sequel needs nothing else.
pub proof fn law_engine_passes_on(
    engine: &mut SyncEngine,
    event: Event,
    store: &PriceStore,
    before: Action,
    after: Action,
)
    requires
        store@ <= usize::MAX,
        call_ensures(SyncEngine::action, (&*engine,), before),
        call_ensures(SyncEngine::advance, (engine, event, store), ()),
        call_ensures(SyncEngine::action, (&*final(engine),), after),
    ensures
        match (before, event) {
            (Action::WaitForNode, Event::Done) => after == Action::QueryTip,
            (Action::WaitForNode, Event::Failed) => after == Action::Stop,
            (Action::QueryTip, Event::Tip(tip)) => after == Action::PublishTip(tip),
            (Action::FindBlocks, Event::BlocksDir(_)) => after == (if store@ < 550_000 {
                Action::FetchHeaderTime(store@ as usize)
            } else {
                Action::LoadCheckpoint
            }),
            (Action::FetchHeaderTime(height), Event::HeaderTime(timestamp)) => after
                == (Action::AppendEmbedded { height, timestamp }),
            (Action::FetchHeaderTime(_), Event::Failed) => after == Action::Stop,
            (Action::AppendEmbedded { height, .. }, Event::Done) => after == (if height % 10_000
                == 0 || height >= 549_999 {
                Action::Flush
            } else {
                Action::FetchHeaderTime((height + 1) as usize)
            }),
            (Action::RestoreOracle { .. }, Event::Done) => after == Action::QueryTip,
            (Action::FeedFromDisk { first, .. }, Event::Done) => after == Action::QueryTip && first
                == 550_000,
            (Action::FeedFromNode(height), Event::Done) => after == Action::QueryTip || after
                == Action::FeedFromNode((height + 1) as usize),
            (Action::FeedFromNode(height), Event::Failed) => after == Action::QueryTip || after
                == Action::FeedFromNode((height + 1) as usize),
            (Action::OpenReader { .. }, Event::Done) => after == Action::NextBlock,
            (Action::NextBlock, Event::Block { height, timestamp, price }) => after
                == (Action::Append { height, timestamp, price }),
            (Action::NextBlock, Event::EndOfBlocks) => after == Action::Flush,
            (Action::ProcessBlock(height), Event::Block { timestamp, price, .. }) => after
                == (Action::Append { height, timestamp, price }),
            (Action::Sleep(seconds), Event::Done) => after == Action::QueryTip && seconds == 30,
            _ => true,
        },
{
}

/// Which events can come of which action: the node may fail to answer where it is asked; nothing
/// can come of having stopped; all else is done.
pub proof fn law_events_expected(stage: Stage, event: Event)
    ensures
        stage.expects(event) <==> match stage.action_of() {
            Action::WaitForNode => event == Event::Done || event == Event::Failed,
            Action::QueryTip => event is Tip || event == Event::Failed,
            Action::FindBlocks => event is BlocksDir,
            Action::FetchHeaderTime(_) => event is HeaderTime || event == Event::Failed,
            Action::LoadCheckpoint => event is Checkpoint,
            Action::FeedFromNode(_) => event == Event::Done || event == Event::Failed,
            Action::NextBlock => event is Block || event == Event::EndOfBlocks,
            Action::ProcessBlock(_) => event is Block || event == Event::Failed,
            Action::Stop => false,
            Action::PublishTip(_) => event == Event::Done,
            Action::AppendEmbedded { .. } => event == Event::Done,
            Action::Append { .. } => event == Event::Done,
            Action::Flush => event == Event::Done,
            Action::RestoreOracle { .. } => event == Event::Done,
            Action::SeedOracle => event == Event::Done,
            Action::FeedFromDisk { .. } => event == Event::Done,
            Action::OpenReader { .. } => event == Event::Done,
            Action::SaveCheckpoint(_) => event == Event::Done,
            Action::Sleep(_) => event == Event::Done,
        },
{
}

/// A run opens with the node's tip: it is published, and then, once the blocks directory was looked
/// for if one is configured, the first height below 550,000 that the store lacks is fetched, or the
/// checkpoint is loaded.
pub proof fn law_opening(source: Source, tip: usize, exists_now: bool, len: nat)
    requires
        len <= usize::MAX,
    ensures
        ({
            let asked = next_stage(source, Stage::AwaitNode, Event::Done, len);
            let told = next_stage(source, asked, Event::Tip(tip), len);
            let published = next_stage(source, told, Event::Done, len);
            let settled = next_stage(source, published, Event::BlocksDir(exists_now), len);
            let begun = if source is Undecided {
                settled
            } else {
                published
            };
            &&& asked.action_of() == Action::QueryTip
            &&& told.action_of() == Action::PublishTip(tip)
            &&& source is Undecided ==> published.action_of() == Action::FindBlocks
            &&& source_after(source, published, Event::BlocksDir(exists_now)) == (if !(
            source is Undecided) {
                source
            } else if exists_now {
                Source::Disk
            } else {
                Source::Node
            })
            &&& len < 550_000 ==> begun.action_of() == Action::FetchHeaderTime(len as usize)
            &&& len >= 550_000 ==> begun == (Stage::FindCheckpoint { resume: len as usize })
                && begun.action_of() == Action::LoadCheckpoint
        }),
{
}

/// The embedded price of each height below 550,000 is stored with the time of its header, then that
/// of the next height; the files are flushed after every 10,000th height and after the last one;
/// and then the run resumes at height 550,000.
pub proof fn law_bootstrap(source: Source, height: usize, timestamp: u32, len: nat)
    requires
        height < 550_000,
    ensures
        ({
            let stored = next_stage(
                source,
                Stage::BootHeader { height },
                Event::HeaderTime(timestamp),
                len,
            );
            let after = next_stage(source, stored, Event::Done, len);
            let on = if height % 10_000 == 0 {
                next_stage(source, after, Event::Done, len)
            } else {
                after
            };
            let resumed = next_stage(source, on, Event::Done, len);
            &&& (Stage::BootHeader { height }).action_of() == Action::FetchHeaderTime(height)
            &&& stored.action_of() == (Action::AppendEmbedded { height, timestamp })
            &&& height % 10_000 == 0 ==> after.action_of() == Action::Flush
            &&& height < 549_999 ==> on == (Stage::BootHeader { height: (height + 1) as usize })
            &&& height == 549_999 ==> {
                &&& on.action_of() == Action::Flush
                &&& resumed == (Stage::FindCheckpoint { resume: 550_000 })
                &&& resumed.action_of() == Action::LoadCheckpoint
            }
        }),
{
}

/// The oracle is set up before the tip is asked for again: restored from a checkpoint, with the
/// twelve blocks before the height at which the run resumes; or seeded, and given the blocks from
/// 550,000 up to that height, from disk at once or from the node one by one, whether or not the
/// node has them. The run then goes on at the same height.
pub proof fn law_oracle_set_up(
    source: Source,
    resume: usize,
    meta: Meta,
    height: usize,
    answer: Event,
    len: nat,
)
    requires
        answer == Event::Done || answer == Event::Failed,
    ensures
        ({
            let at = Stage::FindCheckpoint { resume };
            let restored = next_stage(source, at, Event::Checkpoint(Some(meta)), len);
            let seeded = next_stage(source, at, Event::Checkpoint(None), len);
            let fed = next_stage(source, seeded, Event::Done, len);
            let node = Stage::CatchUpNode { height, resume };
            let on = Stage::SecondTip { resume };
            &&& restored.action_of() == (Action::RestoreOracle {
                ref_bin: meta.ref_bin,
                from: if resume >= 12 {
                    (resume - 12) as usize
                } else {
                    0
                },
                to: resume,
            })
            &&& next_stage(source, restored, Event::Done, len) == on
            &&& seeded.action_of() == Action::SeedOracle
            &&& resume <= 550_000 ==> fed == on
            &&& resume > 550_000 && source is Disk ==> {
                &&& fed.action_of() == (Action::FeedFromDisk {
                    first: 550_000,
                    last: (resume - 1) as u32,
                })
                &&& next_stage(source, fed, Event::Done, len) == on
            }
            &&& resume > 550_000 && !(source is Disk) ==> fed == (Stage::CatchUpNode {
                height: 550_000,
                resume,
            })
            &&& node.action_of() == Action::FeedFromNode(height)
            &&& next_stage(source, node, answer, len) == (if height + 1 < resume {
                Stage::CatchUpNode { height: (height + 1) as usize, resume }
            } else {
                on
            })
            &&& on.action_of() == Action::QueryTip
        }),
{
}

/// The second tip is published; if the store is ahead of it, polling begins; else the blocks from
/// the height at which the run resumes up to that tip are opened on disk, or processed one by one.
pub proof fn law_second_tip(source: Source, resume: usize, tip: usize, len: nat)
    ensures
        ({
            let told = next_stage(source, Stage::SecondTip { resume }, Event::Tip(tip), len);
            let on = next_stage(source, told, Event::Done, len);
            &&& told.action_of() == Action::PublishTip(tip)
            &&& resume > tip ==> on == Stage::PollSleep && on.action_of() == Action::Sleep(30)
            &&& resume <= tip && source is Disk ==> {
                &&& on.action_of() == (Action::OpenReader {
                    first: resume as u32,
                    last: tip as u32,
                })
                &&& next_stage(source, on, Event::Done, len) == (Stage::DiskBlock { tip })
            }
            &&& resume <= tip && !(source is Disk) ==> on == (Stage::NodeBlock {
                height: resume,
                tip,
            })
        }),
{
}

/// A block on disk is stored as it was read; after every 10,000th height the files are flushed and
/// the checkpoint of that height is saved; then the next block is read. After the last one the
/// files are flushed, the checkpoint of the tip is saved, and polling begins.
pub proof fn law_disk_blocks(
    source: Source,
    tip: usize,
    height: usize,
    timestamp: u32,
    price: u64,
    len: nat,
)
    ensures
        ({
            let at = Stage::DiskBlock { tip };
            let stored = next_stage(
                source,
                at,
                Event::Block { height, timestamp, price },
                len,
            );
            let after = next_stage(source, stored, Event::Done, len);
            let flushed = next_stage(source, after, Event::Done, len);
            let ended = next_stage(source, at, Event::EndOfBlocks, len);
            let saved = next_stage(source, ended, Event::Done, len);
            &&& at.action_of() == Action::NextBlock
            &&& stored.action_of() == (Action::Append { height, timestamp, price })
            &&& height % 10_000 != 0 ==> after == at
            &&& height % 10_000 == 0 ==> {
                &&& after.action_of() == Action::Flush
                &&& flushed.action_of() == Action::SaveCheckpoint(height)
                &&& next_stage(source, flushed, Event::Done, len) == at
            }
            &&& ended.action_of() == Action::Flush
            &&& saved.action_of() == Action::SaveCheckpoint(tip)
            &&& next_stage(source, saved, Event::Done, len) == Stage::PollSleep
        }),
{
}

/// A block of the node is stored at the height that was asked for; after every 1,000th height the
/// files are flushed and the checkpoint of that height is saved; then the next height is asked for.
/// After the tip the files are flushed, the checkpoint of the tip is saved, and polling begins.
pub proof fn law_node_blocks(
    source: Source,
    tip: usize,
    height: usize,
    told: usize,
    timestamp: u32,
    price: u64,
    len: nat,
)
    requires
        height <= tip,
    ensures
        ({
            let at = Stage::NodeBlock { height, tip };
            let stored = next_stage(
                source,
                at,
                Event::Block { height: told, timestamp, price },
                len,
            );
            let after = next_stage(source, stored, Event::Done, len);
            let flushed = next_stage(source, after, Event::Done, len);
            let on = if height % 1_000 == 0 {
                next_stage(source, flushed, Event::Done, len)
            } else {
                after
            };
            let saved = next_stage(source, on, Event::Done, len);
            &&& at.action_of() == Action::ProcessBlock(height)
            &&& stored.action_of() == (Action::Append { height, timestamp, price })
            &&& height % 1_000 == 0 ==> {
                &&& after.action_of() == Action::Flush
                &&& flushed.action_of() == Action::SaveCheckpoint(height)
            }
            &&& height < tip ==> on == (Stage::NodeBlock { height: (height + 1) as usize, tip })
            &&& height == tip ==> {
                &&& on.action_of() == Action::Flush
                &&& saved.action_of() == Action::SaveCheckpoint(tip)
                &&& next_stage(source, saved, Event::Done, len) == Stage::PollSleep
            }
            &&& next_stage(source, at, Event::Failed, len).action_of() == Action::Stop
        }),
{
}

/// The node is polled every 30 seconds. If its tip is above the last stored height, the heights
/// from the one after that up to the tip are asked for and stored, one by one, until the node fails
/// to answer; then the files are flushed and the checkpoint of the tip is saved. If the tip is no
/// higher, or the node does not tell it, the engine sleeps again.
pub proof fn law_poll_round(
    source: Source,
    tip: usize,
    height: usize,
    told: usize,
    timestamp: u32,
    price: u64,
    len: nat,
)
    requires
        height <= tip,
        len <= usize::MAX,
    ensures
        ({
            let stored: nat = if len > 0 {
                (len - 1) as nat
            } else {
                0
            };
            let asked = next_stage(source, Stage::PollSleep, Event::Done, len);
            let heard = next_stage(source, asked, Event::Tip(tip), len);
            let begun = next_stage(source, heard, Event::Done, len);
            let at = Stage::PollBlock { height, tip };
            let kept = next_stage(
                source,
                at,
                Event::Block { height: told, timestamp, price },
                len,
            );
            let on = next_stage(source, kept, Event::Done, len);
            let failed = next_stage(source, at, Event::Failed, len);
            let saved = next_stage(source, failed, Event::Done, len);
            &&& Stage::PollSleep.action_of() == Action::Sleep(30)
            &&& asked.action_of() == Action::QueryTip
            &&& next_stage(source, asked, Event::Failed, len) == Stage::PollSleep
            &&& heard.action_of() == Action::PublishTip(tip)
            &&& tip <= stored ==> begun == Stage::PollSleep
            &&& tip > stored ==> begun == (Stage::PollBlock {
                height: (stored + 1) as usize,
                tip,
            })
            &&& at.action_of() == Action::ProcessBlock(height)
            &&& kept.action_of() == (Action::Append { height, timestamp, price })
            &&& height < tip ==> on == (Stage::PollBlock { height: (height + 1) as usize, tip })
            &&& height == tip ==> on == failed
            &&& failed.action_of() == Action::Flush
            &&& saved.action_of() == Action::SaveCheckpoint(tip)
            &&& next_stage(source, saved, Event::Done, len) == Stage::PollSleep
        }),
{
}

} // verus!
