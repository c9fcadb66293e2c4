use webhook_relay::hub::BroadcastHub;
use webhook_relay::reaper::{IdleReaper, IDLE_TTL, SWEEP_PERIOD};
use webhook_relay::request::CapturedRequest;
use webhook_relay::service::CaptureService;
use webhook_relay::session::{StreamSession, StreamStep};

#[test]
fn capture_then_lookup_returns_the_capture() {
    let mut service = CaptureService::new();
    let echoed = service.handle_capture("abc", "POST", "...", "hello");
    assert_eq!(echoed.method(), "POST");
    assert_eq!(echoed.headers(), "...");
    assert_eq!(echoed.body(), "Body: hello");
    let latest = service.handle_latest_lookup("abc").expect("a capture exists");
    assert_eq!(latest, echoed);
}

#[test]
fn lookup_returns_the_last_of_many_captures() {
    let mut service = CaptureService::new();
    service.handle_capture("k", "POST", "h1", "one");
    service.handle_capture("k", "PUT", "h2", "two");
    service.handle_capture("other", "DELETE", "h", "elsewhere");
    let last = service.handle_capture("k", "PATCH", "h3", "three");
    let _session = service.handle_subscribe("k", 5);
    service.reap(1000);
    let found = service.handle_latest_lookup("k").expect("a capture exists");
    assert_eq!(found, last);
    assert_eq!(found, CapturedRequest::new("PATCH", "h3", "Body: three"));
    assert_eq!(service.handle_latest_lookup("k").expect("still there"), last);
}

#[test]
fn every_method_is_captured_alike() {
    let mut service = CaptureService::new();
    for method in ["POST", "PUT", "PATCH", "GET", "DELETE"] {
        let echoed = service.handle_capture("k", method, "h", "b");
        assert_eq!(echoed, CapturedRequest::new(method, "h", "Body: b"));
        assert_eq!(service.handle_latest_lookup("k"), Ok(echoed));
    }
}

#[test]
fn lookup_of_unknown_identification_is_not_found() {
    let service = CaptureService::new();
    let missing = service.handle_latest_lookup("nobody").expect_err("nothing was captured");
    assert_eq!(missing.identification(), "nobody");
    assert_eq!(missing.message(), "No data available for identification: nobody");
    assert!(missing.message().contains("nobody"));
}

#[test]
fn lookup_is_not_found_for_other_identifications() {
    let mut service = CaptureService::new();
    service.handle_capture("abc", "POST", "h", "hello");
    let missing = service.handle_latest_lookup("abd").expect_err("nothing was captured for it");
    assert_eq!(missing.message(), "No data available for identification: abd");
}

#[test]
fn subscribing_does_not_capture() {
    let mut service = CaptureService::new();
    let _session = service.handle_subscribe("abc", 0);
    assert!(service.handle_latest_lookup("abc").is_err());
    assert!(service.has_channel("abc"));
}

#[test]
fn capture_without_subscriber_opens_no_channel() {
    let mut service = CaptureService::new();
    service.handle_capture("abc", "POST", "h", "hello");
    assert!(!service.has_channel("abc"));
    assert_eq!(service.channel_count(), 0);
}

#[test]
fn subscriber_waits_then_receives_in_order() {
    let mut service = CaptureService::new();
    let mut session = service.handle_subscribe("k", 0);
    assert_eq!(service.next_event(&mut session), StreamStep::Idle);
    let one = service.handle_capture("k", "POST", "h", "one");
    assert_eq!(service.next_event(&mut session), StreamStep::Emit(one));
    assert_eq!(service.next_event(&mut session), StreamStep::Idle);
    let two = service.handle_capture("k", "PUT", "h", "two");
    let three = service.handle_capture("k", "GET", "h", "three");
    assert_eq!(service.next_event(&mut session), StreamStep::Emit(two));
    assert_eq!(service.next_event(&mut session), StreamStep::Emit(three));
    assert_eq!(service.next_event(&mut session), StreamStep::Idle);
    assert!(!session.is_finished());
}

#[test]
fn two_subscribers_both_receive_every_capture() {
    let mut service = CaptureService::new();
    let mut first = service.handle_subscribe("k", 0);
    let mut second = service.handle_subscribe("k", 0);
    let one = service.handle_capture("k", "POST", "h", "one");
    let two = service.handle_capture("k", "POST", "h", "two");
    assert_eq!(service.next_event(&mut first), StreamStep::Emit(one.clone()));
    assert_eq!(service.next_event(&mut first), StreamStep::Emit(two.clone()));
    assert_eq!(service.next_event(&mut second), StreamStep::Emit(one));
    assert_eq!(service.next_event(&mut second), StreamStep::Emit(two));
    assert_eq!(service.next_event(&mut first), StreamStep::Idle);
    assert_eq!(service.next_event(&mut second), StreamStep::Idle);
}

#[test]
fn capture_before_subscription_is_not_replayed() {
    let mut service = CaptureService::new();
    service.handle_capture("k", "POST", "h", "early");
    let mut session = service.handle_subscribe("k", 0);
    assert_eq!(service.next_event(&mut session), StreamStep::Idle);
    let late = service.handle_capture("k", "POST", "h", "late");
    assert_eq!(service.next_event(&mut session), StreamStep::Emit(late));
    assert_eq!(service.next_event(&mut session), StreamStep::Idle);
}

#[test]
fn captures_on_other_identifications_are_not_streamed() {
    let mut service = CaptureService::new();
    let mut session = service.handle_subscribe("k", 0);
    service.handle_capture("other", "POST", "h", "x");
    assert_eq!(service.next_event(&mut session), StreamStep::Idle);
}

#[test]
fn reaper_uses_sixty_and_three_hundred() {
    assert_eq!(SWEEP_PERIOD, 60);
    assert_eq!(IDLE_TTL, 300);
    let reaper = IdleReaper::new();
    assert_eq!(reaper.period(), 60);
    assert_eq!(reaper.ttl(), 300);
    assert_eq!(CaptureService::new().sweep_period(), 60);
}

#[test]
fn reaper_tick_sweeps_with_its_ttl() {
    let reaper = IdleReaper::new();
    let mut hub = BroadcastHub::new();
    let _a = hub.subscribe("a", 0);
    let _b = hub.subscribe("b", 1);
    assert_eq!(reaper.tick(&mut hub, 300), 0);
    assert!(hub.has_entry("a"));
    assert_eq!(reaper.tick(&mut hub, 301), 1);
    assert!(!hub.has_entry("a"));
    assert!(hub.has_entry("b"));
    assert_eq!(reaper.tick(&mut hub, 302), 1);
    assert_eq!(hub.entry_count(), 0);
}

#[test]
fn reap_removes_the_channel_after_the_ttl() {
    let mut service = CaptureService::new();
    let mut session = service.handle_subscribe("k", 40);
    assert_eq!(service.reap(340), 0);
    assert!(service.has_channel("k"));
    assert_eq!(service.reap(341), 1);
    assert!(!service.has_channel("k"));
    let after = service.handle_capture("k", "POST", "h", "after removal");
    assert_eq!(service.next_event(&mut session), StreamStep::Finished);
    assert!(session.is_finished());
    assert_eq!(service.handle_latest_lookup("k"), Ok(after));
}

#[test]
fn reap_keeps_the_store() {
    let mut service = CaptureService::new();
    let _session = service.handle_subscribe("k", 0);
    let record = service.handle_capture("k", "POST", "h", "kept");
    assert_eq!(service.reap(10_000), 1);
    assert_eq!(service.handle_latest_lookup("k"), Ok(record));
}

#[test]
fn session_drains_its_backlog_before_it_finishes() {
    let mut service = CaptureService::new();
    let mut session = service.handle_subscribe("k", 0);
    let one = service.handle_capture("k", "POST", "h", "one");
    assert_eq!(service.reap(301), 1);
    service.handle_capture("k", "POST", "h", "two");
    assert_eq!(service.next_event(&mut session), StreamStep::Emit(one));
    assert!(!session.is_finished());
    assert_eq!(service.next_event(&mut session), StreamStep::Finished);
    assert!(session.is_finished());
}

#[test]
fn finished_session_stays_finished() {
    let mut service = CaptureService::new();
    let mut session = service.handle_subscribe("k", 0);
    let slot = session.slot_index();
    assert_eq!(service.reap(301), 1);
    assert_eq!(service.next_event(&mut session), StreamStep::Finished);
    service.handle_disconnect(session);
    let mut revived = service.handle_subscribe("k", 301);
    assert_eq!(revived.slot_index(), slot);
    let record = service.handle_capture("k", "POST", "h", "new");
    assert_eq!(service.next_event(&mut revived), StreamStep::Emit(record));
}

#[test]
fn finished_session_does_not_touch_the_hub() {
    let mut hub = BroadcastHub::new();
    let handle = hub.subscribe("k", 0);
    let mut session = StreamSession::open(handle);
    assert_eq!(hub.sweep_idle(301, 300), 1);
    assert_eq!(session.next(&mut hub), StreamStep::Finished);
    session.close(&mut hub);
    let stale = StreamSession::open(BroadcastHub::new().subscribe("x", 0));
    let mut stale = stale;
    assert_eq!(stale.next(&mut hub), StreamStep::Finished);
    let fresh = hub.subscribe("k", 400);
    hub.publish("k", &CapturedRequest::new("POST", "h", "kept"));
    assert_eq!(fresh.slot(), 0);
    assert_eq!(stale.next(&mut hub), StreamStep::Finished);
    let mut live = StreamSession::open(fresh);
    assert_eq!(live.next(&mut hub), StreamStep::Emit(CapturedRequest::new("POST", "h", "kept")));
}

#[test]
fn session_goes_on_after_a_gap() {
    let mut hub = BroadcastHub::with_capacity(2).expect("room for two");
    let mut session = StreamSession::open(hub.subscribe("k", 0));
    for body in ["one", "two", "three", "four"] {
        hub.publish("k", &CapturedRequest::new("POST", "h", body));
    }
    assert_eq!(session.next(&mut hub), StreamStep::Skipped(2));
    assert!(!session.is_finished());
    assert_eq!(session.next(&mut hub), StreamStep::Emit(CapturedRequest::new("POST", "h", "three")));
    assert_eq!(session.next(&mut hub), StreamStep::Emit(CapturedRequest::new("POST", "h", "four")));
    assert_eq!(session.next(&mut hub), StreamStep::Idle);
}

#[test]
fn disconnect_frees_the_slot_and_keeps_the_channel() {
    let mut service = CaptureService::new();
    let first = service.handle_subscribe("k", 0);
    let mut second = service.handle_subscribe("k", 0);
    assert_eq!(first.slot_index(), 0);
    service.handle_disconnect(first);
    assert!(service.has_channel("k"));
    let record = service.handle_capture("k", "POST", "h", "x");
    assert_eq!(service.next_event(&mut second), StreamStep::Emit(record));
    let third = service.handle_subscribe("k", 0);
    assert_eq!(third.slot_index(), 0);
}

#[test]
fn reap_keeps_a_channel_aged_exactly_the_ttl() {
    let mut service = CaptureService::new();
    let mut session = service.handle_subscribe("k", 0);
    assert_eq!(service.reap(300), 0);
    assert!(service.has_channel("k"));
    let record = service.handle_capture("k", "POST", "h", "still streamed");
    assert_eq!(service.next_event(&mut session), StreamStep::Emit(record));
    assert_eq!(service.next_event(&mut session), StreamStep::Idle);
    assert_eq!(service.reap(301), 1);
    assert_eq!(service.next_event(&mut session), StreamStep::Finished);
}
