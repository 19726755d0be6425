use sozu_control::channel::Channel;
use sozu_control::command::{
    AnswerDetail, AnswerStatus, CommandServer, ConfigCommand, ConfigMessage, RunState, UpgradeStage,
    WorkerEvent,
};
use sozu_control::state::{Application, Order};
use sozu_control::upgrade::{Config, FdTable, SerializedWorker, transfer_set};

fn test_config() -> Config {
    Config {
        command_socket_path: String::from("/tmp/sock"),
        command_buffer_size: 4096,
        max_command_buffer_size: 16384,
        log_level: String::from("info"),
        log_target: String::from("stdout"),
    }
}

fn add_app(id: &str) -> Order {
    Order::AddApplication(Application { app_id: String::from(id), sticky_session: false })
}

fn msg(id: &str, order: Order) -> ConfigMessage {
    ConfigMessage { id: String::from(id), data: ConfigCommand::Proxy(order) }
}

#[test]
fn an_upgrade_round_trip_preserves_everything() {
    let mut server = CommandServer::new();
    server.spawn_worker(100, 10, Channel::new(4096));
    server.spawn_worker(101, 11, Channel::new(4096));
    server.dispatch(&msg("1", add_app("a")), 0, 1000);
    server.dispatch(&msg("2", add_app("b")), 0, 1000);
    server.dispatch(&msg("3", add_app("c")), 0, 1000);
    // one worker is mid-stop at snapshot time
    server.transition_worker(1, WorkerEvent::StopRequest);

    let data = server.to_upgrade_data(5, &test_config());
    assert_eq!(data.command, 5);
    assert_eq!(data.next_id, server.next_id);
    assert_eq!(data.token_count, server.token_count);
    assert_eq!(data.workers.len(), 2);

    let successor = CommandServer::from_upgrade_data(data);
    assert_eq!(successor.next_id, server.next_id);
    assert_eq!(successor.token_count, server.token_count);
    assert!(!successor.upgrading);
    // same worker set: ids, pids, descriptors, run states, tokens
    assert_eq!(successor.workers.len(), 2);
    for k in 0..2 {
        assert_eq!(successor.workers[k].id, server.workers[k].id);
        assert_eq!(successor.workers[k].pid, server.workers[k].pid);
        assert_eq!(successor.workers[k].fd, server.workers[k].fd);
        assert_eq!(successor.workers[k].run_state, server.workers[k].run_state);
        assert_eq!(successor.workers[k].token, server.workers[k].token);
        // per-worker queues carried over in order
        assert_eq!(successor.workers[k].queue.len(), server.workers[k].queue.len());
        for j in 0..server.workers[k].queue.len() {
            assert_eq!(successor.workers[k].queue[j].id, server.workers[k].queue[j].id);
        }
    }
    assert_eq!(successor.workers[1].run_state, RunState::Stopping);
    // same configuration state
    assert_eq!(successor.state.applications.len(), 3);
    for j in 0..3 {
        assert_eq!(
            successor.state.applications[j].app_id,
            server.state.applications[j].app_id
        );
    }
    // the id allocator carries on without reuse
    let mut successor = successor;
    let fresh = successor.spawn_worker(102, 12, Channel::new(4096));
    assert_eq!(fresh, 2);
}

#[test]
fn a_serialized_worker_mirrors_the_live_one() {
    let mut server = CommandServer::new();
    server.spawn_worker(100, 10, Channel::new(4096));
    server.dispatch(&msg("m", add_app("x")), 0, 1000);
    let sw = SerializedWorker::from_proxy(&server.workers[0]);
    assert_eq!(sw.id, 0);
    assert_eq!(sw.pid, 100);
    assert_eq!(sw.fd, 10);
    assert_eq!(sw.run_state, RunState::Running);
    assert_eq!(sw.token, Some(0));
    assert_eq!(sw.queue.len(), 1);
    assert_eq!(sw.queue[0].id, "m");
}

#[test]
fn a_failed_exec_aborts_the_upgrade_and_the_master_keeps_its_fleet() {
    let mut server = CommandServer::new();
    server.spawn_worker(100, 10, Channel::new(4096));
    let up = server.dispatch(
        &ConfigMessage { id: String::from("up1"), data: ConfigCommand::Upgrade },
        0,
        1000,
    );
    assert_eq!(up.status, AnswerStatus::Processing);
    assert!(server.upgrading);
    // the parent saw the handoff socket close without a ready message
    let reply = server.upgrade_failed(String::from("up1"), UpgradeStage::Exec);
    assert_eq!(reply.id, "up1");
    assert_eq!(reply.status, AnswerStatus::Error);
    assert!(matches!(reply.detail, AnswerDetail::UpgradeFailed(UpgradeStage::Exec)));
    assert!(!server.upgrading);
    // the original worker is untouched: same pid, still running
    assert_eq!(server.workers[0].pid, 100);
    assert_eq!(server.workers[0].run_state, RunState::Running);
    // and mutating orders are accepted again
    let again = server.dispatch(&msg("m", add_app("x")), 0, 1000);
    assert_eq!(again.status, AnswerStatus::Processing);
}

#[test]
fn the_transfer_set_names_every_descriptor_that_must_survive() {
    let mut server = CommandServer::new();
    server.spawn_worker(100, 10, Channel::new(4096));
    server.spawn_worker(101, 11, Channel::new(4096));
    let data = server.to_upgrade_data(5, &test_config());
    let transfer = transfer_set(&data, 7, 8);
    assert_eq!(transfer, vec![5, 7, 8, 10, 11]);
}

#[test]
fn the_exec_window_clears_exactly_the_transferred_descriptors() {
    let mut table = FdTable {
        entries: vec![(5, true), (7, true), (8, true), (10, true), (11, true), (42, true)],
    };
    let transfer = vec![5, 7, 8, 10, 11];
    table.clear_for_transfer(&transfer);
    for &(fd, cloexec) in table.entries.iter() {
        if transfer.contains(&fd) {
            assert!(!cloexec, "fd {} must survive the exec", fd);
        } else {
            assert!(cloexec, "fd {} must stay close-on-exec", fd);
        }
    }
    // the successor's first act restores the invariant
    table.restore_cloexec();
    for &(_, cloexec) in table.entries.iter() {
        assert!(cloexec);
    }
}
