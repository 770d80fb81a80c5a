use f_boom::grpc::{grpc_reply_data, GrpcReply};
use f_boom::http::{logical_cpu_count, pool_worker_count, request_outcome, Data};
use f_boom::tally::Tally;
use f_boom::ws::{pong_reply_data, WsReply};
use std::time::Duration;

#[test]
fn request_outcomes_time_only_successes() {
    let d = Duration::from_millis(3);
    assert_eq!(request_outcome(Some(200), d).time(), Some(d));
    assert_eq!(request_outcome(Some(204), d).time(), Some(d));
    assert_eq!(request_outcome(Some(299), d).time(), Some(d));
    assert_eq!(request_outcome(Some(199), d).time(), None);
    assert_eq!(request_outcome(Some(300), d).time(), None);
    assert_eq!(request_outcome(Some(503), d).time(), None);
    assert_eq!(request_outcome(None, d).time(), None);
    assert_eq!(request_outcome(None, d).total_send(), 1);
    assert_eq!(request_outcome(Some(200), d).total_send(), 1);
}

#[test]
fn pong_only_replies() {
    let d = Duration::from_micros(70);
    assert_eq!(pong_reply_data(WsReply::Pong, d).time(), Some(d));
    assert_eq!(pong_reply_data(WsReply::Text, d).time(), None);
    assert_eq!(pong_reply_data(WsReply::Other, d).time(), None);
    assert_eq!(pong_reply_data(WsReply::ReadError, d).time(), None);
    assert_eq!(pong_reply_data(WsReply::Pong, d).total_send(), 1);
}

#[test]
fn single_task_grpc_replies() {
    let d = Duration::from_micros(90);
    assert_eq!(grpc_reply_data(GrpcReply::Answered, d).time(), Some(d));
    assert_eq!(grpc_reply_data(GrpcReply::Failed, d).time(), None);
    assert_eq!(grpc_reply_data(GrpcReply::Closed, d).time(), None);
}

#[test]
fn tally_counts_every_outcome_and_keeps_success_times() {
    let mut t = Tally::new();
    t.record(Data::success(Duration::from_millis(5)));
    t.record(Data::failure());
    t.record(Data::success(Duration::from_millis(2)));
    assert_eq!(t.total_send(), 3);
    let h = t.finish(Duration::from_secs(1), "tes".to_string(), "ws://h/".to_string());
    assert_eq!(h.times, vec![Duration::from_millis(5), Duration::from_millis(2)]);
    assert_eq!(h.total_send, 3);
    assert_eq!(h.duration, Duration::from_secs(1));
    assert_eq!(h.command, "tes");
    assert_eq!(h.url, "ws://h/");
}

#[test]
fn empty_tally() {
    let h = Tally::new().finish(Duration::ZERO, String::new(), String::new());
    assert!(h.times.is_empty());
    assert_eq!(h.total_send, 0);
}

#[test]
fn machine_cpus_give_a_worker_count() {
    let cpus = logical_cpu_count();
    assert!(cpus >= 1);
    assert_eq!(pool_worker_count(cpus), cpus.checked_mul(6));
}
