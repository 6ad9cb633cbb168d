use ping_uin::config::HostConfig;
use ping_uin::net::{
    host_jitter, next_worker_step, read_ping_reply, reschedule, schedules_from_config, PingReply,
    WorkerStep,
};

#[test]
fn jitter_is_deterministic_and_bounded() {
    let a = host_jitter("db.internal", 120);
    let b = host_jitter("db.internal", 120);
    assert_eq!(a, b);
    assert!(a <= 30);
    // Short intervals still get some spread without panicking.
    let _ = host_jitter("x", 5);
    let _ = host_jitter("x", 0);
}

#[test]
fn schedules_use_effective_interval() {
    let hosts = vec![HostConfig::new("a".to_string(), 30, "g".to_string(), None, Some(5432))];
    let sched = schedules_from_config(&hosts, 0);
    assert_eq!(sched.len(), 1);
    assert_eq!(sched[0].interval_secs, 30);
    assert_eq!(sched[0].port, Some(5432));
}

#[test]
fn jitter_stays_below_half_interval() {
    for name in ["a", "b", "db.internal", "10.0.0.1"] {
        assert!(host_jitter(name, 20) < 10);
        assert!(host_jitter(name, 3000) < 30);
        assert_eq!(host_jitter(name, 1), 0);
    }
}

#[test]
fn worker_checks_the_earliest_due_host() {
    let hosts = vec![
        HostConfig::new("a".to_string(), 30, "g".to_string(), None, None),
        HostConfig::new("b".to_string(), 30, "g".to_string(), None, None),
    ];
    let mut sched = schedules_from_config(&hosts, 1000);
    reschedule(&mut sched, "a", 500_000);
    match next_worker_step(&sched, 100_000) {
        WorkerStep::Check(i) => assert_eq!(sched[i].name, "b"),
        WorkerStep::Sleep(_) => panic!("host b is due"),
    }
    reschedule(&mut sched, "b", 100_040);
    match next_worker_step(&sched, 100_000) {
        WorkerStep::Sleep(ms) => assert_eq!(ms, 40),
        WorkerStep::Check(_) => panic!("nothing is due"),
    }
    assert_eq!(next_worker_step(&Vec::new(), 0), WorkerStep::Sleep(100));
}

#[test]
fn ping_reply_reads_latency_text() {
    match read_ping_reply(true, "64 bytes from 1.1.1.1: icmp_seq=1 ttl=57 time=14.2 ms") {
        PingReply::Up(Some(t)) => assert_eq!(t, "14.2"),
        other => panic!("unexpected {:?}", other),
    }
    match read_ping_reply(true, "Reply from 1.1.1.1: bytes=32 time<1ms TTL=57") {
        PingReply::Up(Some(t)) => assert_eq!(t, "1"),
        other => panic!("unexpected {:?}", other),
    }
    assert!(matches!(read_ping_reply(true, "no timing here"), PingReply::Up(None)));
    assert!(matches!(read_ping_reply(false, "time=1 ms"), PingReply::Down));
}
