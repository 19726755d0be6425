use sozu_control::channel::Channel;
use sozu_control::command::{
    AnswerDetail, AnswerStatus, ClientReplyQueue, CommandServer, ConfigCommand, ConfigMessage,
    ConfigMessageAnswer, RunState, WorkerEvent,
};
use sozu_control::state::{Application, Order};

fn add_app(id: &str) -> Order {
    Order::AddApplication(Application { app_id: String::from(id), sticky_session: false })
}

fn msg(id: &str, order: Order) -> ConfigMessage {
    ConfigMessage { id: String::from(id), data: ConfigCommand::Proxy(order) }
}

fn server_with_workers(n: usize) -> CommandServer {
    let mut server = CommandServer::new();
    for k in 0..n {
        server.spawn_worker(1000 + k as i32, 10 + k as i32, Channel::new(4096));
    }
    server
}

#[test]
fn single_worker_add_application() {
    let mut server = server_with_workers(1);
    let answer = server.dispatch(&msg("m1", add_app("x")), 0, 1000);
    assert_eq!(answer.status, AnswerStatus::Processing);
    assert_eq!(answer.id, "m1");
    // the state holds the application
    assert_eq!(server.state.applications.len(), 1);
    assert_eq!(server.state.applications[0].app_id, "x");
    // the worker observed exactly one order message
    assert_eq!(server.workers[0].queue.len(), 1);
    assert_eq!(server.workers[0].queue[0].id, "m1");
    assert!(matches!(
        &server.workers[0].queue[0].order,
        Order::AddApplication(a) if a.app_id == "x" && !a.sticky_session
    ));
    // once the worker acknowledges, the aggregated reply is ok
    let done = server.handle_worker_answer(0, &String::from("m1"), true);
    let reply = done.expect("the only worker answered");
    assert_eq!(reply.id, "m1");
    assert_eq!(reply.status, AnswerStatus::Okay);
    // the acknowledged order left the queue
    assert_eq!(server.workers[0].queue.len(), 0);
}

#[test]
fn worker_ids_are_never_reused() {
    let mut server = server_with_workers(2);
    assert_eq!(server.workers[0].id, 0);
    assert_eq!(server.workers[1].id, 1);
    // even after a worker dies, its id is not handed out again
    assert!(server.transition_worker(0, WorkerEvent::Exit));
    let id = server.spawn_worker(1500, 15, Channel::new(4096));
    assert_eq!(id, 2);
    assert_eq!(server.next_id, 3);
}

#[test]
fn broadcast_reaches_every_running_worker_in_order() {
    let mut server = server_with_workers(3);
    // one worker is stopping and receives nothing new
    assert!(server.transition_worker(1, WorkerEvent::StopRequest));
    server.dispatch(&msg("a", add_app("one")), 0, 1000);
    server.dispatch(&msg("b", add_app("two")), 0, 1000);
    for &i in &[0usize, 2] {
        assert_eq!(server.workers[i].queue.len(), 2);
        assert_eq!(server.workers[i].queue[0].id, "a");
        assert_eq!(server.workers[i].queue[1].id, "b");
    }
    assert_eq!(server.workers[1].queue.len(), 0);
    // the in-flight record awaits exactly the running workers
    assert_eq!(server.in_flight.len(), 2);
    assert_eq!(server.in_flight[0].awaiting, vec![0u32, 2u32]);
}

#[test]
fn replies_aggregate_errors_per_worker() {
    let mut server = server_with_workers(2);
    server.dispatch(&msg("m", add_app("x")), 0, 1000);
    assert!(server.handle_worker_answer(0, &String::from("m"), true).is_none());
    let reply = server.handle_worker_answer(1, &String::from("m"), false).unwrap();
    assert_eq!(reply.status, AnswerStatus::Error);
    assert!(matches!(&reply.detail, AnswerDetail::WorkerErrors(v) if v == &vec![1u32]));
}

#[test]
fn duplicate_answers_are_ignored() {
    let mut server = server_with_workers(2);
    server.dispatch(&msg("m", add_app("x")), 0, 1000);
    assert!(server.handle_worker_answer(0, &String::from("m"), true).is_none());
    // the same worker answering again neither closes nor corrupts the order
    assert!(server.handle_worker_answer(0, &String::from("m"), true).is_none());
    assert_eq!(server.in_flight.len(), 1);
    let reply = server.handle_worker_answer(1, &String::from("m"), true).unwrap();
    assert_eq!(reply.status, AnswerStatus::Okay);
}

#[test]
fn an_unresponsive_worker_times_out_and_the_master_keeps_serving() {
    let mut server = server_with_workers(1);
    let answer = server.dispatch(
        &msg("stop1", Order::SoftStop),
        1_000,
        500,
    );
    assert_eq!(answer.status, AnswerStatus::Processing);
    // nothing expires inside the deadline
    assert_eq!(server.check_timeouts(1_400).len(), 0);
    // past the deadline the reply surfaces the silent worker
    let replies = server.check_timeouts(1_501);
    assert_eq!(replies.len(), 1);
    assert_eq!(replies[0].id, "stop1");
    assert_eq!(replies[0].status, AnswerStatus::Error);
    assert!(matches!(&replies[0].detail, AnswerDetail::WorkerTimeouts(v) if v == &vec![0u32]));
    // the master still serves new orders
    let again = server.dispatch(&msg("m2", add_app("y")), 2_000, 500);
    assert_eq!(again.status, AnswerStatus::Processing);
}

#[test]
fn the_run_state_machine_follows_the_diagram() {
    let mut server = server_with_workers(1);
    assert_eq!(server.workers[0].run_state, RunState::Running);
    // a probe timeout marks the worker, a good probe recovers it
    assert!(server.transition_worker(0, WorkerEvent::ProbeTimeout));
    assert_eq!(server.workers[0].run_state, RunState::NotAnswering);
    assert!(server.transition_worker(0, WorkerEvent::ProbeOk));
    assert_eq!(server.workers[0].run_state, RunState::Running);
    // stop request, then exit
    assert!(server.transition_worker(0, WorkerEvent::StopRequest));
    assert_eq!(server.workers[0].run_state, RunState::Stopping);
    assert!(server.transition_worker(0, WorkerEvent::Exit));
    assert_eq!(server.workers[0].run_state, RunState::Stopped);
    // stopped is terminal: the token is released and the descriptor closed
    assert_eq!(server.workers[0].token, None);
    assert_eq!(server.workers[0].fd, -1);
    assert!(!server.transition_worker(0, WorkerEvent::ProbeOk));
    assert!(!server.transition_worker(0, WorkerEvent::Exit));
}

#[test]
fn a_silent_worker_may_be_force_killed() {
    let mut server = server_with_workers(1);
    assert!(server.transition_worker(0, WorkerEvent::ProbeTimeout));
    assert!(server.transition_worker(0, WorkerEvent::ForceKill));
    assert_eq!(server.workers[0].run_state, RunState::Stopped);
}

#[test]
fn events_for_unknown_workers_change_nothing() {
    let mut server = server_with_workers(1);
    assert!(!server.transition_worker(99, WorkerEvent::Exit));
    assert_eq!(server.workers[0].run_state, RunState::Running);
}

#[test]
fn mutating_orders_are_refused_during_an_upgrade_window() {
    let mut server = server_with_workers(1);
    let up = server.dispatch(
        &ConfigMessage { id: String::from("up"), data: ConfigCommand::Upgrade },
        0,
        1000,
    );
    assert_eq!(up.status, AnswerStatus::Processing);
    assert!(server.upgrading);
    let refused = server.dispatch(&msg("m", add_app("x")), 0, 1000);
    assert_eq!(refused.status, AnswerStatus::Error);
    assert_eq!(server.state.applications.len(), 0);
    assert_eq!(server.workers[0].queue.len(), 0);
    // a query that mutates nothing still goes through
    let status = server.dispatch(&msg("q", Order::Status), 0, 1000);
    assert_eq!(status.status, AnswerStatus::Processing);
}

#[test]
fn removing_what_was_added_restores_the_configuration() {
    let mut server = server_with_workers(1);
    server.dispatch(&msg("1", add_app("x")), 0, 1000);
    server.dispatch(&msg("2", Order::RemoveApplication(String::from("x"))), 0, 1000);
    assert_eq!(server.state.applications.len(), 0);
}

fn plain_answer(id: &str) -> ConfigMessageAnswer {
    ConfigMessageAnswer {
        id: String::from(id),
        status: AnswerStatus::Okay,
        detail: AnswerDetail::NoDetail,
    }
}

#[test]
fn replies_leave_in_acceptance_order() {
    let mut q = ClientReplyQueue::new();
    q.accept(String::from("a"));
    q.accept(String::from("b"));
    // the later request completes first and must wait its turn
    let out = q.complete(plain_answer("b"));
    assert_eq!(out.len(), 0);
    // once the older request completes, both leave, oldest first
    let out = q.complete(plain_answer("a"));
    assert_eq!(out.len(), 2);
    assert_eq!(out[0].id, "a");
    assert_eq!(out[1].id, "b");
    assert_eq!(q.pending.len(), 0);
    assert_eq!(q.ready.len(), 0);
}

#[test]
fn an_answer_with_no_accepted_request_waits_in_the_buffer() {
    let mut q = ClientReplyQueue::new();
    let out = q.complete(plain_answer("x"));
    assert_eq!(out.len(), 0);
    assert_eq!(q.ready.len(), 1);
    // the request arriving later releases the buffered answer
    q.accept(String::from("x"));
    let out = q.complete(plain_answer("y"));
    assert_eq!(out.len(), 1);
    assert_eq!(out[0].id, "x");
}
