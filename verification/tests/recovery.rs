use channel_node::chain::ChainTip;
use channel_node::chain::Network;
use channel_node::recovery::chain_listeners;
use channel_node::recovery::plan_recovery;
use channel_node::recovery::watched_channels;
use channel_node::recovery::Command;
use channel_node::recovery::Coordinator;
use channel_node::recovery::Listener;
use channel_node::recovery::ListenerTarget;
use channel_node::recovery::Phase;
use channel_node::recovery::Snapshot;
use channel_node::recovery::StartupError;
use channel_node::recovery::StartupEvent;
use channel_node::update_log::ChannelIdentity;
use channel_node::update_log::ReplayError;
use channel_node::update_log::UpdateLog;
use channel_node::update_log::UpdateRecord;

fn channel(tag: u8) -> ChannelIdentity {
    ChannelIdentity { txid: [tag; 32], index: 1 }
}

fn snapshot(tag: u8, sequence_no: u64) -> Snapshot {
    Snapshot { channel: channel(tag), sequence_no, block_hash: [tag + 100; 32] }
}

fn record(tag: u8, sequence_no: u64) -> UpdateRecord {
    UpdateRecord { channel: channel(tag), sequence_no, payload: vec![tag, sequence_no as u8] }
}

fn log_of(records: &[(u8, u64)]) -> UpdateLog {
    let mut log = UpdateLog::new();
    for &(tag, sequence_no) in records {
        log.append(channel(tag), sequence_no, vec![tag, sequence_no as u8]);
    }
    log
}

fn tip() -> ChainTip {
    ChainTip { best_hash: [0xee; 32], best_height: 812 }
}

fn chain(name: &str) -> StartupEvent {
    StartupEvent::Chain { name: name.to_string(), tip: tip() }
}

fn started() -> Coordinator {
    let (mut coordinator, first) = Coordinator::new(Network::Regtest);
    assert_eq!(first, Command::QueryChain);
    assert_eq!(coordinator.step(chain("regtest")), Command::LoadState);
    coordinator
}

#[test]
fn startup_begins_with_the_chain() {
    let (coordinator, first) = Coordinator::new(Network::Bitcoin);
    assert_eq!(first, Command::QueryChain);
    assert_eq!(coordinator.phase(), Phase::QueryingChain);
    assert!(!coordinator.is_live());
}

#[test]
fn wrong_chain_aborts_the_startup() {
    let (mut coordinator, _) = Coordinator::new(Network::Bitcoin);
    assert_eq!(coordinator.step(chain("test")), Command::Abort(StartupError::WrongChain));
    assert_eq!(coordinator.phase(), Phase::Aborted);
}

#[test]
fn each_network_has_its_chain_name() {
    assert_eq!(Network::Bitcoin.chain(), "main");
    assert_eq!(Network::Testnet.chain(), "test");
    assert_eq!(Network::Regtest.chain(), "regtest");
    assert_eq!(Network::Signet.chain(), "signet");
    assert!(Network::Signet.runs_on("signet"));
    assert!(!Network::Signet.runs_on("signe"));
    assert!(!Network::Signet.runs_on("signet "));
    assert!(!Network::Bitcoin.runs_on("test"));
    assert!(!Network::Bitcoin.runs_on(""));
}

#[test]
fn fresh_node_makes_a_ledger_at_the_tip() {
    let mut coordinator = started();
    assert_eq!(coordinator.phase(), Phase::LoadingState);
    assert_eq!(
        coordinator.step(StartupEvent::StateLoaded { snapshots: vec![], log: UpdateLog::new() }),
        Command::LoadLedger
    );
    assert_eq!(coordinator.step(StartupEvent::LedgerMissing), Command::QueryChain);
    assert_eq!(coordinator.phase(), Phase::StartingFresh);
    assert!(!coordinator.is_live());
    assert_eq!(coordinator.step(chain("regtest")), Command::CreateLedger { tip: tip() });
    assert_eq!(coordinator.phase(), Phase::CreatingLedger);
    assert!(!coordinator.is_live());
    assert_eq!(
        coordinator.step(StartupEvent::LedgerCreated),
        Command::WatchChannels { channels: vec![] }
    );
    assert!(coordinator.is_live());
    assert_eq!(coordinator.step(StartupEvent::Synchronized), Command::Nothing);
    assert!(coordinator.is_live());
}

#[test]
fn start_without_a_ledger_watches_the_recovered_channels() {
    let mut coordinator = started();
    let snapshots = vec![snapshot(3, 1), snapshot(1, 0), snapshot(2, 5)];
    let log = log_of(&[(1, 1), (3, 2), (3, 1)]);
    assert_eq!(
        coordinator.step(StartupEvent::StateLoaded { snapshots, log }),
        Command::ApplyUpdate(record(3, 2))
    );
    assert_eq!(coordinator.step(StartupEvent::UpdateApplied), Command::ApplyUpdate(record(1, 1)));
    assert_eq!(coordinator.step(StartupEvent::UpdateApplied), Command::LoadLedger);
    assert_eq!(coordinator.step(StartupEvent::LedgerMissing), Command::QueryChain);
    assert_eq!(coordinator.step(chain("regtest")), Command::CreateLedger { tip: tip() });
    assert!(!coordinator.is_live());
    assert_eq!(
        coordinator.step(StartupEvent::LedgerCreated),
        Command::WatchChannels { channels: vec![channel(3), channel(1), channel(2)] }
    );
    assert!(coordinator.is_live());
    assert_eq!(coordinator.step(StartupEvent::LedgerCreated), Command::Nothing);
}

#[test]
fn start_with_one_channel_and_an_empty_log_watches_it() {
    let mut coordinator = started();
    assert_eq!(
        coordinator.step(StartupEvent::StateLoaded {
            snapshots: vec![snapshot(7, 4)],
            log: UpdateLog::new(),
        }),
        Command::LoadLedger
    );
    assert_eq!(coordinator.step(StartupEvent::LedgerMissing), Command::QueryChain);
    assert_eq!(coordinator.step(chain("regtest")), Command::CreateLedger { tip: tip() });
    assert_eq!(
        coordinator.step(StartupEvent::LedgerCreated),
        Command::WatchChannels { channels: vec![channel(7)] }
    );
    assert!(coordinator.is_live());
}

#[test]
fn failure_to_make_the_ledger_aborts_the_startup() {
    let mut coordinator = started();
    coordinator.step(StartupEvent::StateLoaded { snapshots: vec![], log: UpdateLog::new() });
    coordinator.step(StartupEvent::LedgerMissing);
    coordinator.step(chain("regtest"));
    assert_eq!(coordinator.step(StartupEvent::Failed), Command::Abort(StartupError::Unavailable));
    assert!(!coordinator.is_live());
    let mut coordinator = started();
    coordinator.step(StartupEvent::StateLoaded { snapshots: vec![], log: UpdateLog::new() });
    assert_eq!(
        coordinator.step(StartupEvent::LedgerCreated),
        Command::Abort(StartupError::OutOfOrder)
    );
}

#[test]
fn restart_replays_then_synchronizes_then_watches() {
    let mut coordinator = started();
    let snapshots = vec![snapshot(1, 2), snapshot(2, 0)];
    let log = log_of(&[(2, 2), (1, 4), (1, 1), (2, 1), (1, 3), (1, 2)]);
    assert_eq!(
        coordinator.step(StartupEvent::StateLoaded { snapshots, log }),
        Command::ApplyUpdate(record(1, 3))
    );
    assert_eq!(coordinator.phase(), Phase::Replaying { channel: channel(1), sequence_no: 3 });
    assert_eq!(coordinator.step(StartupEvent::UpdateApplied), Command::ApplyUpdate(record(1, 4)));
    assert_eq!(coordinator.step(StartupEvent::UpdateApplied), Command::ApplyUpdate(record(2, 1)));
    assert_eq!(coordinator.step(StartupEvent::UpdateApplied), Command::ApplyUpdate(record(2, 2)));
    assert_eq!(coordinator.phase(), Phase::Replaying { channel: channel(2), sequence_no: 2 });
    assert_eq!(coordinator.step(StartupEvent::UpdateApplied), Command::LoadLedger);
    assert_eq!(
        coordinator.step(StartupEvent::LedgerFound { block_hash: [0x77; 32] }),
        Command::Synchronize {
            listeners: vec![
                Listener { block_hash: [0x77; 32], target: ListenerTarget::Ledger },
                Listener { block_hash: [101; 32], target: ListenerTarget::Channel(channel(1)) },
                Listener { block_hash: [102; 32], target: ListenerTarget::Channel(channel(2)) },
            ]
        }
    );
    assert!(!coordinator.is_live());
    assert_eq!(
        coordinator.step(StartupEvent::Synchronized),
        Command::WatchChannels { channels: vec![channel(1), channel(2)] }
    );
    assert!(coordinator.is_live());
}

#[test]
fn gap_in_a_log_aborts_the_startup() {
    let mut coordinator = started();
    let snapshots = vec![snapshot(1, 0), snapshot(2, 0)];
    let log = log_of(&[(1, 1), (2, 1), (2, 2), (2, 4), (1, 2)]);
    assert_eq!(
        coordinator.step(StartupEvent::StateLoaded { snapshots, log }),
        Command::Abort(StartupError::Replay {
            channel: channel(2),
            fault: ReplayError::Gap { expected: 3, found: 4 },
        })
    );
    assert_eq!(coordinator.phase(), Phase::Aborted);
    assert_eq!(coordinator.step(StartupEvent::UpdateApplied), Command::Nothing);
    assert_eq!(coordinator.step(StartupEvent::LedgerMissing), Command::Nothing);
    assert_eq!(coordinator.phase(), Phase::Aborted);
    assert!(!coordinator.is_live());
}

#[test]
fn refused_update_aborts_the_startup() {
    let mut coordinator = started();
    let snapshots = vec![snapshot(1, 0)];
    let log = log_of(&[(1, 1), (1, 2)]);
    coordinator.step(StartupEvent::StateLoaded { snapshots, log });
    assert_eq!(coordinator.step(StartupEvent::UpdateApplied), Command::ApplyUpdate(record(1, 2)));
    assert_eq!(
        coordinator.step(StartupEvent::UpdateRefused),
        Command::Abort(StartupError::UpdateRefused { channel: channel(1), sequence_no: 2 })
    );
    assert_eq!(coordinator.phase(), Phase::Aborted);
}

#[test]
fn failed_command_aborts_the_startup() {
    let (mut coordinator, _) = Coordinator::new(Network::Regtest);
    assert_eq!(coordinator.step(StartupEvent::Failed), Command::Abort(StartupError::Unavailable));
    let mut coordinator = started();
    assert_eq!(coordinator.step(StartupEvent::Failed), Command::Abort(StartupError::Unavailable));
    let mut coordinator = started();
    coordinator.step(StartupEvent::StateLoaded { snapshots: vec![], log: UpdateLog::new() });
    coordinator.step(StartupEvent::LedgerFound { block_hash: [1; 32] });
    assert_eq!(coordinator.phase(), Phase::Synchronizing);
    assert_eq!(coordinator.step(StartupEvent::Failed), Command::Abort(StartupError::Unavailable));
    assert_eq!(coordinator.phase(), Phase::Aborted);
}

#[test]
fn event_out_of_order_aborts_the_startup() {
    let mut coordinator = started();
    assert_eq!(
        coordinator.step(StartupEvent::Synchronized),
        Command::Abort(StartupError::OutOfOrder)
    );
    assert_eq!(coordinator.phase(), Phase::Aborted);
    let mut coordinator = started();
    coordinator.step(StartupEvent::StateLoaded {
        snapshots: vec![snapshot(1, 0)],
        log: log_of(&[(1, 1)]),
    });
    assert_eq!(
        coordinator.step(StartupEvent::LedgerMissing),
        Command::Abort(StartupError::OutOfOrder)
    );
    assert!(!coordinator.is_live());
}

#[test]
fn records_of_unknown_channels_are_left_alone() {
    let mut coordinator = started();
    let snapshots = vec![snapshot(1, 1)];
    let log = log_of(&[(5, 9), (1, 1), (5, 3)]);
    assert_eq!(
        coordinator.step(StartupEvent::StateLoaded { snapshots, log }),
        Command::LoadLedger
    );
}

#[test]
fn plan_takes_the_channels_in_the_order_of_their_snapshots() {
    let snapshots = vec![snapshot(2, 1), snapshot(1, 0)];
    let log = log_of(&[(1, 2), (2, 3), (1, 1), (2, 2), (2, 1)]);
    assert_eq!(
        plan_recovery(&snapshots, &log),
        Ok(vec![record(2, 2), record(2, 3), record(1, 1), record(1, 2)])
    );
}

#[test]
fn plan_reports_the_first_channel_that_fails() {
    let snapshots = vec![snapshot(1, 0), snapshot(2, 0), snapshot(3, 0)];
    let log = log_of(&[(1, 1), (2, 1), (2, 1), (3, 5)]);
    assert_eq!(
        plan_recovery(&snapshots, &log),
        Err(StartupError::Replay {
            channel: channel(2),
            fault: ReplayError::Duplicate { sequence_no: 1 },
        })
    );
}

#[test]
fn listeners_begin_with_the_ledger() {
    assert_eq!(
        chain_listeners([9; 32], &vec![]),
        vec![Listener { block_hash: [9; 32], target: ListenerTarget::Ledger }]
    );
    assert_eq!(
        chain_listeners([9; 32], &vec![snapshot(4, 0)]),
        vec![
            Listener { block_hash: [9; 32], target: ListenerTarget::Ledger },
            Listener { block_hash: [104; 32], target: ListenerTarget::Channel(channel(4)) },
        ]
    );
    assert_eq!(watched_channels(&vec![snapshot(4, 0), snapshot(3, 7)]), vec![channel(4), channel(3)]);
}
