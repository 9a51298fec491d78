use sandbox_runtime::demo::{next_after_state, wait_until_running};
use sandbox_runtime::vm::wait::{wait_for_exit, wait_for_path, Wait, WaitAction, WaitEvent};
use sandbox_runtime::vm::VmError;
use serde_json::Value;

fn ends(wait: &Wait, rounds: &[(bool, u128)]) -> Option<WaitAction> {
    for (found, nanos) in rounds {
        match wait.next(WaitEvent::Probed(*found)) {
            WaitAction::ReadClock => {}
            action => return Some(action),
        }
        match wait.next(WaitEvent::Elapsed(*nanos)) {
            WaitAction::Sleep(millis) => assert_eq!(millis, wait.interval_millis),
            action => return Some(action),
        }
        assert!(wait.next(WaitEvent::Slept) == WaitAction::Probe);
    }
    None
}

#[test]
fn a_wait_ends_in_time() {
    let wait = Wait { timeout_millis: 5, interval_millis: 20, what: "it" };
    assert!(ends(&wait, &[(true, 0)]) == Some(WaitAction::Ready));
    assert!(ends(&wait, &[(false, 5_000_000), (true, 9_000_000)]) == Some(WaitAction::Ready));
    assert!(ends(&wait, &[(false, 5_000_001), (true, 0)]) == Some(WaitAction::Expired));
    assert!(ends(&wait, &[(false, 1), (false, 2)]).is_none());
}

#[test]
fn what_is_there_is_found_without_time() {
    let wait = Wait { timeout_millis: 0, interval_millis: 1, what: "it" };
    assert!(ends(&wait, &[(true, u128::MAX)]) == Some(WaitAction::Ready));
    assert!(ends(&wait, &[(false, 0), (false, 1)]) == Some(WaitAction::Expired));
}

#[test]
fn the_longest_limit_fits() {
    let wait = Wait { timeout_millis: u64::MAX, interval_millis: 1, what: "it" };
    let limit = u64::MAX as u128 * 1_000_000;
    assert!(wait.next(WaitEvent::Elapsed(limit)) == WaitAction::Sleep(1));
    assert!(wait.next(WaitEvent::Elapsed(limit + 1)) == WaitAction::Expired);
}

#[test]
fn an_expired_wait_is_an_error() {
    let wait = Wait { timeout_millis: 5, interval_millis: 20, what: "API socket" };
    assert!(matches!(wait.expired(), VmError::Timeout("API socket")));
}

#[test]
fn waits_for_files() {
    let waiting = wait_for_path(b"/tmp/x", 5000, "x");
    assert_eq!(waiting.path, b"/tmp/x".to_vec());
    assert_eq!(waiting.wait.interval_millis, 20);
    assert!(waiting.next_after_look(true) == WaitAction::Ready);
    assert!(waiting.next_after_look(false) == WaitAction::ReadClock);
}

#[test]
fn waits_for_processes() {
    let waiting = wait_for_exit(4711, 3000);
    assert_eq!(waiting.path, b"/proc/4711".to_vec());
    assert_eq!(waiting.wait.timeout_millis, 3000);
    assert_eq!(waiting.wait.interval_millis, 50);
    assert_eq!(waiting.wait.what, "process exit");
    assert!(waiting.next_after_look(false) == WaitAction::Ready);
    assert!(waiting.next_after_look(true) == WaitAction::ReadClock);
}

#[test]
fn waits_until_a_microvm_runs() {
    let wait = wait_until_running();
    assert_eq!(wait.timeout_millis, 10_000);
    assert_eq!(wait.interval_millis, 50);
    let running: Value = serde_json::from_str("{\"state\":\"Running\"}").unwrap();
    assert!(next_after_state(&wait, &Ok(running)) == WaitAction::Ready);
    assert!(next_after_state(&wait, &Ok(Value::Null)) == WaitAction::ReadClock);
    assert!(next_after_state(&wait, &Err(VmError::Timeout("x"))) == WaitAction::ReadClock);
}
