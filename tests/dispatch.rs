use rat_logger::dispatch::{awaited_workers, handshake_step, remaining_to_await, route, Route, TypeSet, WaitDecision, FILE, TERMINAL, UDP};
use rat_logger::{Level, LevelFilter};

#[test]
fn level_gate_routes() {
    let levels = [Level::Error, Level::Warn, Level::Info, Level::Debug, Level::Trace];
    let routes: Vec<Route> = levels.iter().map(|l| route(*l, LevelFilter::Warn)).collect();
    assert_eq!(routes, vec![Route::Emergency, Route::Broadcast, Route::Drop, Route::Drop, Route::Drop]);
    assert_eq!(route(Level::Error, LevelFilter::Off), Route::Drop);
    assert_eq!(route(Level::Trace, LevelFilter::Trace), Route::Broadcast);
}

#[test]
fn type_set_operations() {
    let mut s = TypeSet::new();
    assert!(!s.contains(TERMINAL));
    s.insert(TERMINAL);
    s.insert(TERMINAL);
    s.insert(FILE);
    assert_eq!(s.names.len(), 2);
    assert!(s.contains(FILE));
    s.remove(TERMINAL);
    assert!(!s.contains(TERMINAL));
    assert!(s.contains(FILE));
    s.remove(UDP);
    assert_eq!(s.names.len(), 1);
}

#[test]
fn awaited_workers_are_expected_and_unverified() {
    let workers = vec![TERMINAL.to_string(), FILE.to_string(), UDP.to_string(), FILE.to_string()];
    let mut expected = TypeSet::new();
    expected.insert(FILE);
    expected.insert(TERMINAL);
    let mut verified = TypeSet::new();
    verified.insert(TERMINAL);
    assert_eq!(awaited_workers(&workers, &expected, &verified), vec![FILE.to_string(), FILE.to_string()]);
    assert_eq!(remaining_to_await(2, 1), 1);
    assert_eq!(remaining_to_await(2, 5), 0);
}

#[test]
fn handshake_waits_for_ready() {
    assert_eq!(handshake_step(0, 0, 0, 100), WaitDecision::Ready);
    assert_eq!(handshake_step(1, 2, 10, 100), WaitDecision::Poll);
    assert_eq!(handshake_step(2, 2, 20, 100), WaitDecision::Ready);
    assert_eq!(handshake_step(1, 2, 100, 100), WaitDecision::TimedOut);
    assert_eq!(handshake_step(3, 3, 5000, 5000), WaitDecision::Ready);
    assert_eq!(handshake_step(3, 2, 100, 100), WaitDecision::Ready);
}
