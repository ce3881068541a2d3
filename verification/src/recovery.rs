//! Recovery at startup: from the persisted state to a node that is ready for live events.
//!
//! The coordinator decides the order of the steps and performs none of them. It hands
//! out one command at a time and takes what came of it as an event. The channel states
//! are replayed first, each update in ascending order; then the channel ledger is loaded
//! or made; on a restart the ledger and every channel state are brought to the chain tip.
//! Last of all, on a restart and on a start without a ledger alike, every recovered
//! channel state is handed to the watcher, and the node goes live. Any failure on the way
//! aborts the startup.

use crate::chain::ChainTip;
use crate::chain::Network;
use crate::update_log::lemma_sorting_twice;
use crate::update_log::of_channel;
use crate::update_log::plan_replay;
use crate::update_log::replay_plan;
use crate::update_log::views;
use crate::update_log::ChannelIdentity;
use crate::update_log::ReplayError;
use crate::update_log::UpdateLog;
use crate::update_log::UpdateRecord;
use crate::update_log::UpdateRecordView;
use vstd::prelude::*;

verus! {

/// What is persisted of a channel besides its updates: the sequence number of the last
/// update that its snapshot holds, and the block up to which it has seen the chain.
#[derive(Clone, Copy, Debug, PartialEq, Eq)]
pub struct Snapshot {
    pub channel: ChannelIdentity,
    pub sequence_no: u64,
    pub block_hash: [u8; 32],
}

/// Who listens to the chain.
#[derive(Clone, Copy, Debug, PartialEq, Eq)]
pub enum ListenerTarget {
    Ledger,
    Channel(ChannelIdentity),
}

/// A listener and the block up to which it has seen the chain.
#[derive(Clone, Copy, Debug, PartialEq, Eq)]
pub struct Listener {
    pub block_hash: [u8; 32],
    pub target: ListenerTarget,
}

/// Why a startup was aborted.
#[derive(Clone, Copy, Debug, PartialEq, Eq)]
pub enum StartupError {
    /// The chain backend runs another network than the node.
    WrongChain,
    /// The update log of a channel cannot be replayed.
    Replay { channel: ChannelIdentity, fault: ReplayError },
    /// The channel state refused an update.
    UpdateRefused { channel: ChannelIdentity, sequence_no: u64 },
    /// The persisted state could not be read, or the chain backend gave no answer.
    Unavailable,
    /// An event that is no answer to the command that was handed out.
    OutOfOrder,
}

/// How far the startup has come.
#[derive(Clone, Copy, Debug, PartialEq, Eq)]
pub enum Phase {
    /// The chain backend is asked which network it runs.
    QueryingChain,
    /// The snapshots and the update log are read.
    LoadingState,
    /// An update is being applied to its channel state.
    Replaying { channel: ChannelIdentity, sequence_no: u64 },
    /// The channel ledger is looked for.
    LoadingLedger,
    /// No ledger was found: the chain backend is asked for its tip.
    StartingFresh,
    /// A new ledger is made at the tip.
    CreatingLedger,
    /// The ledger and the channel states are brought to the chain tip.
    Synchronizing,
    /// The node takes live events.
    Live,
    /// The startup failed.
    Aborted,
}

/// What came of a command.
#[derive(Debug)]
pub enum StartupEvent {
    /// The network that the chain backend names, and the tip of its chain.
    Chain { name: String, tip: ChainTip },
    /// The snapshots of all channels and the update log.
    StateLoaded { snapshots: Vec<Snapshot>, log: UpdateLog },
    /// The update was applied.
    UpdateApplied,
    /// The channel state refused the update.
    UpdateRefused,
    /// A ledger was found; it has seen the chain up to this block.
    LedgerFound { block_hash: [u8; 32] },
    /// No ledger was found.
    LedgerMissing,
    /// The new ledger was made.
    LedgerCreated,
    /// Every listener has reached the chain tip.
    Synchronized,
    /// The command failed.
    Failed,
}

/// What the caller is to do next.
#[derive(Debug, PartialEq, Eq)]
pub enum Command {
    /// Ask the chain backend for its network and its tip.
    QueryChain,
    /// Read the snapshots of all channels and the update log.
    LoadState,
    /// Apply the update to the state of its channel.
    ApplyUpdate(UpdateRecord),
    /// Look for the channel ledger.
    LoadLedger,
    /// Make a new ledger that starts at the tip.
    CreateLedger { tip: ChainTip },
    /// Bring the listeners to the chain tip, each from its own block on.
    Synchronize { listeners: Vec<Listener> },
    /// Hand the channel states to the watcher, in this order; the node is live.
    WatchChannels { channels: Vec<ChannelIdentity> },
    /// Stop: the startup failed.
    Abort(StartupError),
    /// Nothing: the startup is over.
    Nothing,
}

/// A command as a value.
pub enum CommandView {
    QueryChain,
    LoadState,
    ApplyUpdate(UpdateRecordView),
    LoadLedger,
    CreateLedger { tip: ChainTip },
    Synchronize { listeners: Seq<Listener> },
    WatchChannels { channels: Seq<ChannelIdentity> },
    Abort(StartupError),
    Nothing,
}

impl View for Command {
    type V = CommandView;

    open spec fn view(&self) -> CommandView {
        match *self {
            Command::QueryChain => CommandView::QueryChain,
            Command::LoadState => CommandView::LoadState,
            Command::ApplyUpdate(record) => CommandView::ApplyUpdate(record@),
            Command::LoadLedger => CommandView::LoadLedger,
            Command::CreateLedger { tip } => CommandView::CreateLedger { tip },
            Command::Synchronize { listeners } => CommandView::Synchronize {
                listeners: listeners@,
            },
            Command::WatchChannels { channels } => CommandView::WatchChannels {
                channels: channels@,
            },
            Command::Abort(fault) => CommandView::Abort(fault),
            Command::Nothing => CommandView::Nothing,
        }
    }
}

/// The coordinator as a value.
pub struct CoordinatorView {
    pub network: Network,
    pub phase: Phase,
    /// The channels that were recovered, in the order in which they were loaded.
    pub snapshots: Seq<Snapshot>,
    /// The updates that are still to be applied, the next one first.
    pub queue: Seq<UpdateRecordView>,
}

/// The updates to apply at startup: for each channel, in the order of the snapshots, the
/// replay plan of its records in the log. One log that cannot be replayed fails it all.
pub open spec fn recovery_plan(snapshots: Seq<Snapshot>, log: Seq<UpdateRecordView>) -> Result<
    Seq<UpdateRecordView>,
    StartupError,
>
    decreases snapshots.len(),
{
    if snapshots.len() == 0 {
        Ok(Seq::empty())
    } else {
        let last = snapshots.last();
        match recovery_plan(snapshots.drop_last(), log) {
            Err(fault) => Err(fault),
            Ok(head) => match replay_plan(last.sequence_no, of_channel(log, last.channel)) {
                Ok(plan) => Ok(head + plan),
                Err(fault) => Err(StartupError::Replay { channel: last.channel, fault }),
            },
        }
    }
}

/// The listeners of a restart: the ledger first, then the channels in the order of
/// their snapshots.
pub open spec fn listeners_of(ledger_hash: [u8; 32], snapshots: Seq<Snapshot>) -> Seq<Listener> {
    seq![Listener { block_hash: ledger_hash, target: ListenerTarget::Ledger }]
        + snapshots.map_values(
        |s: Snapshot| Listener { block_hash: s.block_hash, target: ListenerTarget::Channel(s.channel) },
    )
}

/// The channels of the snapshots, in their order.
pub open spec fn channels_of(snapshots: Seq<Snapshot>) -> Seq<ChannelIdentity> {
    snapshots.map_values(|s: Snapshot| s.channel)
}

/// The startup fails.
pub open spec fn aborted(state: CoordinatorView, fault: StartupError) -> (CoordinatorView, CommandView) {
    (
        CoordinatorView { phase: Phase::Aborted, queue: Seq::empty(), ..state },
        CommandView::Abort(fault),
    )
}

/// What follows when the updates in `rest` are left to apply: the first of them is
/// applied next, and the ledger is looked for once none is left.
pub open spec fn replay_next(state: CoordinatorView, rest: Seq<UpdateRecordView>) -> (
    CoordinatorView,
    CommandView,
) {
    if rest.len() == 0 {
        (
            CoordinatorView { phase: Phase::LoadingLedger, queue: Seq::empty(), ..state },
            CommandView::LoadLedger,
        )
    } else {
        (
            CoordinatorView {
                phase: Phase::Replaying {
                    channel: rest[0].channel,
                    sequence_no: rest[0].sequence_no,
                },
                queue: rest.skip(1),
                ..state
            },
            CommandView::ApplyUpdate(rest[0]),
        )
    }
}

/// The step of the coordinator: the state and the command that follow a state and an
/// event.
pub open spec fn startup_step(state: CoordinatorView, event: StartupEvent) -> (
    CoordinatorView,
    CommandView,
) {
    match (state.phase, event) {
        (Phase::Live, _) => (state, CommandView::Nothing),
        (Phase::Aborted, _) => (state, CommandView::Nothing),
        (_, StartupEvent::Failed) => aborted(state, StartupError::Unavailable),
        (Phase::QueryingChain, StartupEvent::Chain { name, tip }) => if name@
            == state.network.chain_name() {
            (CoordinatorView { phase: Phase::LoadingState, ..state }, CommandView::LoadState)
        } else {
            aborted(state, StartupError::WrongChain)
        },
        (Phase::LoadingState, StartupEvent::StateLoaded { snapshots, log }) => match recovery_plan(
            snapshots@,
            log@,
        ) {
            Ok(plan) => replay_next(CoordinatorView { snapshots: snapshots@, ..state }, plan),
            Err(fault) => aborted(state, fault),
        },
        (Phase::Replaying { channel, sequence_no }, StartupEvent::UpdateApplied) => replay_next(
            state,
            state.queue,
        ),
        (Phase::Replaying { channel, sequence_no }, StartupEvent::UpdateRefused) => aborted(
            state,
            StartupError::UpdateRefused { channel, sequence_no },
        ),
        (Phase::LoadingLedger, StartupEvent::LedgerFound { block_hash }) => (
            CoordinatorView { phase: Phase::Synchronizing, ..state },
            CommandView::Synchronize { listeners: listeners_of(block_hash, state.snapshots) },
        ),
        (Phase::LoadingLedger, StartupEvent::LedgerMissing) => (
            CoordinatorView { phase: Phase::StartingFresh, ..state },
            CommandView::QueryChain,
        ),
        (Phase::StartingFresh, StartupEvent::Chain { name, tip }) => (
            CoordinatorView { phase: Phase::CreatingLedger, ..state },
            CommandView::CreateLedger { tip },
        ),
        (Phase::CreatingLedger, StartupEvent::LedgerCreated) => (
            CoordinatorView { phase: Phase::Live, ..state },
            CommandView::WatchChannels { channels: channels_of(state.snapshots) },
        ),
        (Phase::Synchronizing, StartupEvent::Synchronized) => (
            CoordinatorView { phase: Phase::Live, ..state },
            CommandView::WatchChannels { channels: channels_of(state.snapshots) },
        ),
        _ => aborted(state, StartupError::OutOfOrder),
    }
}

/// Plans the replay of all channels: for each snapshot, in their order, the updates of
/// its channel above the snapshot, ascending.
pub fn plan_recovery(snapshots: &Vec<Snapshot>, log: &UpdateLog) -> (plan: Result<
    Vec<UpdateRecord>,
    StartupError,
>)
    ensures
        match recovery_plan(snapshots@, log@) {
            Ok(records) => plan matches Ok(p) && views(p@) == records,
            Err(fault) => plan == Err::<Vec<UpdateRecord>, StartupError>(fault),
        },
{
    let mut all: Vec<UpdateRecord> = Vec::new();
    let mut i: usize = 0;
    proof {
        assert(snapshots@.take(0) =~= Seq::<Snapshot>::empty());
        assert(views(all@) =~= Seq::<UpdateRecordView>::empty());
    }
    while i < snapshots.len()
        invariant
            i <= snapshots@.len(),
            recovery_plan(snapshots@.take(i as int), log@) == Ok::<
                Seq<UpdateRecordView>,
                StartupError,
            >(views(all@)),
        decreases snapshots@.len() - i,
    {
        let snapshot = snapshots[i];
        let records = log.read_all(&snapshot.channel);
        proof {
            lemma_sorting_twice(of_channel(log@, snapshot.channel));
            let next = snapshots@.take(i + 1);
            assert(next.drop_last() =~= snapshots@.take(i as int));
            assert(next.last() == snapshot);
        }
        match plan_replay(snapshot.sequence_no, records) {
            Err(fault) => {
                proof {
                    lemma_plan_fails_from(snapshots@, log@, i + 1);
                }
                return Err(StartupError::Replay { channel: snapshot.channel, fault });
            },
            Ok(mut plan) => {
                let ghost before = views(all@);
                let ghost added = views(plan@);
                all.append(&mut plan);
                assert(views(all@) =~= before + added);
            },
        }
        i = i + 1;
    }
    proof {
        assert(snapshots@.take(i as int) =~= snapshots@);
    }
    Ok(all)
}

/// The listeners of a restart.
pub fn chain_listeners(ledger_hash: [u8; 32], snapshots: &Vec<Snapshot>) -> (listeners: Vec<
    Listener,
>)
    ensures
        listeners@ == listeners_of(ledger_hash, snapshots@),
{
    let mut listeners: Vec<Listener> = Vec::new();
    listeners.push(Listener { block_hash: ledger_hash, target: ListenerTarget::Ledger });
    let mut i: usize = 0;
    while i < snapshots.len()
        invariant
            i <= snapshots@.len(),
            listeners@.len() == i + 1,
            forall|k: int|
                0 <= k < listeners@.len() ==> #[trigger] listeners@[k] == listeners_of(
                    ledger_hash,
                    snapshots@,
                )[k],
        decreases snapshots@.len() - i,
    {
        let snapshot = snapshots[i];
        listeners.push(
            Listener {
                block_hash: snapshot.block_hash,
                target: ListenerTarget::Channel(snapshot.channel),
            },
        );
        i = i + 1;
    }
    assert(listeners@ =~= listeners_of(ledger_hash, snapshots@));
    listeners
}

/// The channels of the snapshots, in their order.
pub fn watched_channels(snapshots: &Vec<Snapshot>) -> (channels: Vec<ChannelIdentity>)
    ensures
        channels@ == channels_of(snapshots@),
{
    let mut channels: Vec<ChannelIdentity> = Vec::new();
    let mut i: usize = 0;
    while i < snapshots.len()
        invariant
            i <= snapshots@.len(),
            channels@.len() == i,
            forall|k: int| 0 <= k < i ==> #[trigger] channels@[k] == snapshots@[k].channel,
        decreases snapshots@.len() - i,
    {
        channels.push(snapshots[i].channel);
        i = i + 1;
    }
    assert(channels@ =~= channels_of(snapshots@));
    channels
}

/// The coordinator of a startup.
#[derive(Debug)]
pub struct Coordinator {
    network: Network,
    phase: Phase,
    snapshots: Vec<Snapshot>,
    queue: Vec<UpdateRecord>,
}

impl View for Coordinator {
    type V = CoordinatorView;

    closed spec fn view(&self) -> CoordinatorView {
        CoordinatorView {
            network: self.network,
            phase: self.phase,
            snapshots: self.snapshots@,
            queue: views(self.queue@),
        }
    }
}

impl Coordinator {
    /// A coordinator at the beginning of a startup. Its first command is `QueryChain`.
    pub fn new(network: Network) -> (start: (Coordinator, Command))
        ensures
            start.0@ == (CoordinatorView {
                network,
                phase: Phase::QueryingChain,
                snapshots: Seq::empty(),
                queue: Seq::empty(),
            }),
            start.1@ == CommandView::QueryChain,
    {
        let coordinator = Coordinator {
            network,
            phase: Phase::QueryingChain,
            snapshots: Vec::new(),
            queue: Vec::new(),
        };
        assert(views(coordinator.queue@) =~= Seq::<UpdateRecordView>::empty());
        (coordinator, Command::QueryChain)
    }

    /// How far the startup has come.
    pub fn phase(&self) -> (phase: Phase)
        ensures
            phase == self@.phase,
    {
        self.phase
    }

    /// Whether the node takes live events.
    pub fn is_live(&self) -> (live: bool)
        ensures
            live == (self@.phase == Phase::Live),
    {
        match self.phase {
            Phase::Live => true,
            _ => false,
        }
    }

    /// Aborts the startup.
    fn abort(&mut self, fault: StartupError) -> (command: Command)
        ensures
            (final(self)@, command@) == aborted(old(self)@, fault),
    {
        self.phase = Phase::Aborted;
        self.queue = Vec::new();
        assert(views(self.queue@) =~= Seq::<UpdateRecordView>::empty());
        Command::Abort(fault)
    }

    /// Goes on with the replay, or with the ledger once no update is left.
    fn next_update(&mut self) -> (command: Command)
        ensures
            (final(self)@, command@) == replay_next(old(self)@, old(self)@.queue),
    {
        if self.queue.len() == 0 {
            self.phase = Phase::LoadingLedger;
            assert(views(self.queue@) =~= Seq::<UpdateRecordView>::empty());
            Command::LoadLedger
        } else {
            let ghost before = self.queue@;
            let record = self.queue.remove(0);
            self.phase = Phase::Replaying {
                channel: record.channel,
                sequence_no: record.sequence_no,
            };
            proof {
                assert(views(before)[0] == record@);
                assert(views(self.queue@) =~= views(before).skip(1)) by {
                    assert forall|k: int| 0 <= k < self.queue@.len() implies views(self.queue@)[k]
                        == views(before).skip(1)[k] by {
                        assert(self.queue@[k] == before[k + 1]);
                    }
                }
            }
            Command::ApplyUpdate(record)
        }
    }

    /// Takes what came of the last command and says what is to be done next.
    pub fn step(&mut self, event: StartupEvent) -> (command: Command)
        ensures
            (final(self)@, command@) == startup_step(old(self)@, event),
    {
        match self.phase {
            Phase::Live => {
                return Command::Nothing;
            },
            Phase::Aborted => {
                return Command::Nothing;
            },
            _ => {},
        }
        match (self.phase, event) {
            (_, StartupEvent::Failed) => self.abort(StartupError::Unavailable),
            (Phase::QueryingChain, StartupEvent::Chain { name, tip }) => {
                if self.network.runs_on(name.as_str()) {
                    self.phase = Phase::LoadingState;
                    Command::LoadState
                } else {
                    self.abort(StartupError::WrongChain)
                }
            },
            (Phase::LoadingState, StartupEvent::StateLoaded { snapshots, log }) => {
                match plan_recovery(&snapshots, &log) {
                    Ok(plan) => {
                        self.snapshots = snapshots;
                        self.queue = plan;
                        self.next_update()
                    },
                    Err(fault) => self.abort(fault),
                }
            },
            (Phase::Replaying { channel, sequence_no }, StartupEvent::UpdateApplied) => {
                self.next_update()
            },
            (Phase::Replaying { channel, sequence_no }, StartupEvent::UpdateRefused) => {
                self.abort(StartupError::UpdateRefused { channel, sequence_no })
            },
            (Phase::LoadingLedger, StartupEvent::LedgerFound { block_hash }) => {
                self.phase = Phase::Synchronizing;
                Command::Synchronize { listeners: chain_listeners(block_hash, &self.snapshots) }
            },
            (Phase::LoadingLedger, StartupEvent::LedgerMissing) => {
                self.phase = Phase::StartingFresh;
                Command::QueryChain
            },
            (Phase::StartingFresh, StartupEvent::Chain { name, tip }) => {
                self.phase = Phase::CreatingLedger;
                Command::CreateLedger { tip }
            },
            (Phase::CreatingLedger, StartupEvent::LedgerCreated) => {
                self.phase = Phase::Live;
                Command::WatchChannels { channels: watched_channels(&self.snapshots) }
            },
            (Phase::Synchronizing, StartupEvent::Synchronized) => {
                self.phase = Phase::Live;
                Command::WatchChannels { channels: watched_channels(&self.snapshots) }
            },
            _ => self.abort(StartupError::OutOfOrder),
        }
    }
}

/// Where the replay of one channel fails, the recovery of every longer list of channels
/// fails in the same way.
proof fn lemma_plan_fails_from(snapshots: Seq<Snapshot>, log: Seq<UpdateRecordView>, n: int)
    requires
        0 < n <= snapshots.len(),
        recovery_plan(snapshots.take(n), log) is Err,
    ensures
        recovery_plan(snapshots, log) == recovery_plan(snapshots.take(n), log),
    decreases snapshots.len() - n,
{
    if n == snapshots.len() {
        assert(snapshots.take(n) =~= snapshots);
    } else {
        let longer = snapshots.take(n + 1);
        assert(longer.drop_last() =~= snapshots.take(n));
        assert(recovery_plan(longer, log) == recovery_plan(snapshots.take(n), log));
        lemma_plan_fails_from(snapshots, log, n + 1);
    }
}

/// The node goes live from two phases only: from a start without a ledger, once the new
/// ledger is made, and from a restart, once every listener has reached the tip. No event
/// takes a replay that is under way, or a failed startup, to a live node.
pub proof fn lemma_live_only_when_synchronized(state: CoordinatorView, event: StartupEvent)
    requires
        startup_step(state, event).0.phase == Phase::Live,
    ensures
        state.phase == Phase::Live || (state.phase == Phase::CreatingLedger && event
            is LedgerCreated) || (state.phase == Phase::Synchronizing && event is Synchronized),
{
}

/// The step that takes the node live hands every recovered channel state to the
/// watcher: each channel of the snapshots once, in their order, whether the ledger was
/// found or made anew.
pub proof fn lemma_live_node_watches_every_channel(state: CoordinatorView, event: StartupEvent)
    requires
        state.phase != Phase::Live,
        startup_step(state, event).0.phase == Phase::Live,
    ensures
        startup_step(state, event).1 == (CommandView::WatchChannels {
            channels: channels_of(state.snapshots),
        }),
        channels_of(state.snapshots).len() == state.snapshots.len(),
        forall|i: int|
            0 <= i < state.snapshots.len() ==> channels_of(state.snapshots)[i]
                == #[trigger] state.snapshots[i].channel,
        startup_step(state, event).0.snapshots == state.snapshots,
{
}

/// The recovered channels stay as they were loaded until the node is live or the startup
/// is aborted: no step after the loading changes them.
pub proof fn lemma_recovered_channels_are_kept(state: CoordinatorView, event: StartupEvent)
    requires
        state.phase != Phase::LoadingState,
    ensures
        startup_step(state, event).0.snapshots == state.snapshots,
{
}

/// A start without a ledger makes the ledger at the tip and then watches the recovered
/// channels: from the chain's answer on, the commands are `CreateLedger` and
/// `WatchChannels`, and only then the node is live.
pub proof fn lemma_fresh_start_watches_channels(state: CoordinatorView, name: String, tip: ChainTip)
    requires
        state.phase == Phase::StartingFresh,
    ensures
        ({
            let first = startup_step(state, StartupEvent::Chain { name, tip });
            let second = startup_step(first.0, StartupEvent::LedgerCreated);
            &&& first.1 == CommandView::CreateLedger { tip }
            &&& first.0.phase == Phase::CreatingLedger
            &&& second.1 == (CommandView::WatchChannels { channels: channels_of(state.snapshots) })
            &&& second.0.phase == Phase::Live
        }),
{
}

/// A replay goes on until no update is left: the ledger is looked for only after the last
/// update was applied, and a refused update aborts the startup.
pub proof fn lemma_replay_is_never_cut_short(state: CoordinatorView, event: StartupEvent)
    requires
        state.phase is Replaying,
    ensures
        ({
            let next = startup_step(state, event).0;
            &&& next.phase is Replaying || next.phase == Phase::LoadingLedger || next.phase
                == Phase::Aborted
            &&& next.phase == Phase::LoadingLedger ==> state.queue.len() == 0 && event
                is UpdateApplied
            &&& event is UpdateRefused ==> next.phase == Phase::Aborted
        }),
{
}

/// A startup that was aborted stays aborted, and a live node stays live.
pub proof fn lemma_startup_ends_once(state: CoordinatorView, event: StartupEvent)
    requires
        state.phase == Phase::Aborted || state.phase == Phase::Live,
    ensures
        startup_step(state, event) == (state, CommandView::Nothing),
{
}

/// The state and the command after `n + 1` updates in a row were applied.
pub open spec fn after_applied(state: CoordinatorView, n: nat) -> (CoordinatorView, CommandView)
    decreases n,
{
    if n == 0 {
        startup_step(state, StartupEvent::UpdateApplied)
    } else {
        startup_step(after_applied(state, (n - 1) as nat).0, StartupEvent::UpdateApplied)
    }
}

/// During a replay every update of the queue is handed out, in the order of the queue,
/// and the ledger is looked for right after the last of them was applied.
pub proof fn lemma_replay_applies_the_queue_in_order(state: CoordinatorView, n: nat)
    requires
        state.phase is Replaying,
        n <= state.queue.len(),
    ensures
        n < state.queue.len() ==> after_applied(state, n).1 == CommandView::ApplyUpdate(
            state.queue[n as int],
        ) && after_applied(state, n).0.phase is Replaying && after_applied(state, n).0.queue
            == state.queue.skip(n as int + 1),
        n == state.queue.len() ==> after_applied(state, n).1 == CommandView::LoadLedger
            && after_applied(state, n).0.phase == Phase::LoadingLedger,
    decreases n,
{
    if n > 0 {
        lemma_replay_applies_the_queue_in_order(state, (n - 1) as nat);
        let before = after_applied(state, (n - 1) as nat).0;
        assert(before.queue == state.queue.skip(n as int));
        if n < state.queue.len() {
            assert(before.queue[0] == state.queue[n as int]);
            assert(before.queue.skip(1) =~= state.queue.skip(n as int + 1));
        } else {
            assert(before.queue.len() == 0);
        }
    }
}

} // verus!
