use rs_luck_jingle::dispatch::{Action, Dispatcher, LinkHealth};

fn healthy() -> Dispatcher {
    let mut d = Dispatcher::new();
    d.open_done(true);
    d
}

#[test]
fn jobs_wait_for_the_first_session() {
    let mut d = Dispatcher::new();
    d.submit(1);
    assert_eq!(d.next_action(), Action::Idle);
    d.open_done(true);
    assert_eq!(d.health(), LinkHealth::Healthy);
    assert_eq!(d.next_action(), Action::Transmit(1));
}

#[test]
fn jobs_go_out_in_order_one_at_a_time() {
    let mut d = healthy();
    d.submit(1);
    d.submit(2);
    d.submit(3);
    assert_eq!(d.next_action(), Action::Transmit(1));
    // nothing else goes on the wire while job 1 is there
    assert_eq!(d.next_action(), Action::Idle);
    assert_eq!(d.in_flight(), Some(1));
    assert_eq!(d.write_done(true), Some((1, true)));
    assert_eq!(d.next_action(), Action::Transmit(2));
    assert_eq!(d.next_action(), Action::Idle);
    assert_eq!(d.write_done(true), Some((2, true)));
    assert_eq!(d.next_action(), Action::Transmit(3));
    assert_eq!(d.write_done(true), Some((3, true)));
    assert_eq!(d.next_action(), Action::Idle);
    assert_eq!(d.pending_len(), 0);
}

#[test]
fn write_failure_faults_the_link_and_rejects_the_next_job() {
    let mut d = healthy();
    d.submit(1);
    d.submit(2);
    assert_eq!(d.next_action(), Action::Transmit(1));
    assert_eq!(d.write_done(true), Some((1, true)));
    assert_eq!(d.next_action(), Action::Transmit(2));
    assert_eq!(d.write_done(false), Some((2, false)));
    assert_eq!(d.health(), LinkHealth::Faulted);
    d.submit(3);
    let a = d.next_action();
    assert_eq!(a, Action::RejectAndReopen(3));
    assert!(!matches!(a, Action::Transmit(_)));
    assert_eq!(d.in_flight(), None);
}

#[test]
fn only_one_reconnection_at_a_time() {
    let mut d = healthy();
    d.submit(1);
    assert_eq!(d.next_action(), Action::Transmit(1));
    d.write_done(false);
    d.submit(2);
    d.submit(3);
    assert_eq!(d.next_action(), Action::RejectAndReopen(2));
    assert_eq!(d.health(), LinkHealth::Reconnecting);
    // a second job meets the reconnection already under way
    assert_eq!(d.next_action(), Action::Reject(3));
    d.open_done(true);
    assert_eq!(d.health(), LinkHealth::Healthy);
    d.submit(4);
    assert_eq!(d.next_action(), Action::Transmit(4));
}

#[test]
fn failed_reconnection_stays_faulted() {
    let mut d = Dispatcher::new();
    d.open_done(false);
    assert_eq!(d.health(), LinkHealth::Faulted);
    d.submit(7);
    assert_eq!(d.next_action(), Action::RejectAndReopen(7));
    d.open_done(false);
    assert_eq!(d.health(), LinkHealth::Faulted);
    d.submit(8);
    assert_eq!(d.next_action(), Action::RejectAndReopen(8));
}

#[test]
fn stray_reports_change_nothing() {
    let mut d = healthy();
    assert_eq!(d.write_done(false), None);
    assert_eq!(d.health(), LinkHealth::Healthy);
    d.open_done(false);
    assert_eq!(d.health(), LinkHealth::Healthy);
}
