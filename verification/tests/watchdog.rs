use dfs_server::watchdog::{HardDeadline, Watch};

#[test]
fn dropping_the_guard_disarms_the_watchdog() {
    let mut guard = HardDeadline::arm(0, 200);
    assert_eq!(guard.look(0), Watch::Sleep(200));
    guard.disarm();
    assert_eq!(guard.look(400), Watch::Disarmed);
}

#[test]
fn watchdog_kills_a_process_wedged_past_its_deadline() {
    let guard = HardDeadline::arm(0, 500);
    assert_eq!(guard.look(0), Watch::Sleep(250));
    assert_eq!(guard.look(499), Watch::Sleep(250));
    assert_eq!(guard.look(500), Watch::Expire);
    assert_eq!(guard.look(120_000), Watch::Expire);
}

#[test]
fn watchdog_thread_exits_promptly_once_disarmed() {
    let mut guard = HardDeadline::arm(0, 3_600_000);
    assert_eq!(guard.look(0), Watch::Sleep(250));
    guard.disarm();
    assert_eq!(guard.look(250), Watch::Disarmed);
}
