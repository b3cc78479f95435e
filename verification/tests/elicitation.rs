use tokio_util::sync::CancellationToken;
use tool_dispatch::elicitation::{ElicitationService, WaitStatus};

#[test]
fn wait_until_clear_waits_for_every_registration() {
    let mut service = ElicitationService::new();
    let first = service.register();
    let second = service.register();
    assert_eq!(service.wait_until_clear(), WaitStatus::Pending);

    service.release(first);
    assert_eq!(service.wait_until_clear(), WaitStatus::Pending);

    service.release(second);
    assert_eq!(
        service.wait_until_clear(),
        WaitStatus::Ready,
        "elicitation waiter should complete"
    );
}

#[test]
fn wait_until_clear_or_cancelled_stops_waiting_when_cancelled() {
    let mut service = ElicitationService::new();
    let _registration = service.register();
    let cancellation_token = CancellationToken::new();
    assert_eq!(
        service.wait_until_clear_or_cancelled(&cancellation_token.clone()),
        WaitStatus::Pending
    );

    cancellation_token.cancel();
    assert_eq!(
        service.wait_until_clear_or_cancelled(&cancellation_token),
        WaitStatus::Ready,
        "cancelled elicitation waiter should complete"
    );
    assert_eq!(service.wait_until_clear(), WaitStatus::Pending);
}

#[test]
fn nothing_registered_is_clear() {
    let service = ElicitationService::new();
    assert_eq!(service.wait_until_clear(), WaitStatus::Ready);
    let token = CancellationToken::new();
    assert_eq!(
        service.wait_until_clear_or_cancelled(&token),
        WaitStatus::Ready
    );
}

#[test]
fn registrations_can_be_released_in_any_order() {
    let mut service = ElicitationService::new();
    let first = service.register();
    let second = service.register();
    let third = service.register();
    service.release(second);
    assert_eq!(service.wait_until_clear(), WaitStatus::Pending);
    service.release(third);
    assert_eq!(service.wait_until_clear(), WaitStatus::Pending);
    service.release(first);
    assert_eq!(service.wait_until_clear(), WaitStatus::Ready);
}

#[test]
fn a_later_registration_is_waited_for_too() {
    let mut service = ElicitationService::new();
    let first = service.register();
    service.release(first);
    assert_eq!(service.wait_until_clear(), WaitStatus::Ready);
    assert!(service.can_register());
    let second = service.register();
    assert_eq!(service.wait_until_clear(), WaitStatus::Pending);
    service.release(second);
    assert_eq!(service.wait_until_clear(), WaitStatus::Ready);
}

#[test]
fn waiting_goes_by_the_cancellation_it_is_given() {
    let mut service = ElicitationService::new();
    let _registration = service.register();
    assert_eq!(service.wait_until_clear_unless(true), WaitStatus::Ready);
    assert_eq!(service.wait_until_clear_unless(false), WaitStatus::Pending);
}
