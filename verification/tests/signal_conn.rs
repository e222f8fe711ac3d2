use tickflow::connection::{
    route_message, ConnAction, ConnEvent, ConnPhase, FrameAction, FrameKind, InboundRoute,
    StreamConnection,
};
use tickflow::connection::frame_action;
use tickflow::signal::{
    error_tolerance_ticks, should_signal, Intent, PositionSide, SignalEngine, TriggerEvent,
};

fn ev(index: usize, prediction_ticks: i64, tolerance_ticks: Option<i64>) -> TriggerEvent {
    TriggerEvent { index, prediction_ticks, tolerance_ticks }
}

#[test]
fn untrained_predictor_acts_on_any_nonzero_prediction() {
    // No tolerance published yet: a flat engine still enters on a trigger,
    // because being flat forces the exit path.
    let mut engine = SignalEngine::new();
    let intent = engine.on_trigger(ev(10, 3, None), 5);
    assert_eq!(intent, Some(Intent::Buy));
    assert_eq!(engine.position, PositionSide::Long);
    assert_eq!(engine.entry_index, Some(10));

    let mut engine = SignalEngine::new();
    let intent = engine.on_trigger(ev(10, -3, None), 5);
    assert_eq!(intent, Some(Intent::Sell));
    assert_eq!(engine.position, PositionSide::Short);
}

#[test]
fn zero_prediction_never_emits() {
    let mut engine = SignalEngine::new();
    assert_eq!(engine.on_trigger(ev(10, 0, None), 5), None);
    assert_eq!(engine.position, PositionSide::Flat);
    assert_eq!(engine.on_trigger(ev(11, 0, Some(0)), 5), None);
    assert_eq!(engine.position, PositionSide::Flat);
}

#[test]
fn weak_prediction_held_position_is_kept() {
    let mut engine = SignalEngine::new();
    assert_eq!(engine.on_trigger(ev(10, 7, Some(5)), 100), Some(Intent::Buy));
    // Within the holding window and below tolerance: no action.
    assert_eq!(engine.on_trigger(ev(20, -3, Some(5)), 100), None);
    assert_eq!(engine.position, PositionSide::Long);
    assert_eq!(engine.entry_index, Some(10));
}

#[test]
fn same_side_prediction_produces_no_second_intent() {
    let mut engine = SignalEngine::new();
    assert_eq!(engine.on_trigger(ev(10, 7, Some(5)), 100), Some(Intent::Buy));
    // A strong prediction of the same sign while already long emits nothing.
    assert_eq!(engine.on_trigger(ev(20, 9, Some(5)), 100), None);
    assert_eq!(engine.position, PositionSide::Long);
    assert_eq!(engine.entry_index, Some(10));
}

#[test]
fn consecutive_buys_need_a_flat_transition_between() {
    let mut engine = SignalEngine::new();
    assert_eq!(engine.on_trigger(ev(10, 7, Some(5)), 100), Some(Intent::Buy));
    // Still held, weak prediction: nothing.
    assert_eq!(engine.on_trigger(ev(50, 7, Some(100)), 100), None);
    assert_eq!(engine.position, PositionSide::Long);
    // The window expires with a zero prediction: forced exit to flat.
    assert_eq!(engine.on_trigger(ev(110, 0, Some(5)), 100), None);
    assert_eq!(engine.position, PositionSide::Flat);
    assert_eq!(engine.entry_index, None);
    // Only now can a second buy fire.
    assert_eq!(engine.on_trigger(ev(120, 7, Some(5)), 100), Some(Intent::Buy));
    assert_eq!(engine.entry_index, Some(120));
}

#[test]
fn forced_exit_reenters_through_flat_on_strong_signal() {
    let mut engine = SignalEngine::new();
    assert_eq!(engine.on_trigger(ev(10, 7, Some(5)), 100), Some(Intent::Buy));
    // The window expires while the prediction says sell: the exit passes
    // through flat and the engine re-enters short on the same trigger.
    assert_eq!(engine.on_trigger(ev(110, -7, Some(5)), 100), Some(Intent::Sell));
    assert_eq!(engine.position, PositionSide::Short);
    assert_eq!(engine.entry_index, Some(110));
}

#[test]
fn long_to_short_without_exit_on_strong_opposite_signal() {
    let mut engine = SignalEngine::new();
    assert_eq!(engine.on_trigger(ev(10, 7, Some(5)), 100), Some(Intent::Buy));
    assert_eq!(engine.on_trigger(ev(20, -9, Some(5)), 100), Some(Intent::Sell));
    assert_eq!(engine.position, PositionSide::Short);
}

#[test]
fn intent_messages_match_the_wire_form() {
    assert_eq!(Intent::Buy.message(), "buy!");
    assert_eq!(Intent::Sell.message(), "sell!");
}

#[test]
fn signal_fires_every_other_full_window() {
    assert!(should_signal(0));
    assert!(!should_signal(1999));
    assert!(should_signal(2000));
    assert!(!should_signal(2001));
    assert!(should_signal(4000));
}

#[test]
fn tolerance_is_rounded_mean_floored_at_minimum() {
    // Mean 10: above the floor of 4.
    assert_eq!(error_tolerance_ticks(&vec![10, 10, 10]), 10);
    // Mean rounds half away from zero: (10 + 11) / 2 = 10.5 -> 11.
    assert_eq!(error_tolerance_ticks(&vec![10, 11]), 11);
    // Mean 1: floored at 4.
    assert_eq!(error_tolerance_ticks(&vec![1, 1, 1]), 4);
    assert_eq!(error_tolerance_ticks(&vec![0]), 4);
}

#[test]
fn five_failed_attempts_give_up_without_a_sixth() {
    let mut conn = StreamConnection::new();
    let mut actions: Vec<ConnAction> = Vec::new();
    for _ in 0..5 {
        assert_eq!(conn.step(ConnEvent::BeginConnect), ConnAction::Idle);
        actions.push(conn.step(ConnEvent::EndpointsExhausted));
    }
    // The first four failures schedule growing backoffs.
    assert_eq!(actions[0], ConnAction::RetryAfter(6));
    assert_eq!(actions[1], ConnAction::RetryAfter(11));
    assert_eq!(actions[2], ConnAction::RetryAfter(16));
    assert_eq!(actions[3], ConnAction::RetryAfter(21));
    // The fifth gives up for good.
    assert_eq!(actions[4], ConnAction::Shutdown);
    assert_eq!(conn.phase, ConnPhase::GivenUp);
    // A sixth attempt never happens: every further event is ignored.
    assert_eq!(conn.step(ConnEvent::BeginConnect), ConnAction::Idle);
    assert_eq!(conn.phase, ConnPhase::GivenUp);
    assert_eq!(conn.step(ConnEvent::EndpointConnected), ConnAction::Idle);
    assert_eq!(conn.phase, ConnPhase::GivenUp);
}

#[test]
fn a_success_resets_the_failure_count() {
    let mut conn = StreamConnection::new();
    conn.step(ConnEvent::BeginConnect);
    conn.step(ConnEvent::EndpointsExhausted);
    conn.step(ConnEvent::BeginConnect);
    conn.step(ConnEvent::EndpointsExhausted);
    assert_eq!(conn.failures, 2);
    conn.step(ConnEvent::BeginConnect);
    assert_eq!(conn.step(ConnEvent::EndpointConnected), ConnAction::Subscribe);
    assert_eq!(conn.failures, 0);
    assert_eq!(conn.phase, ConnPhase::Connected);
    // A failure while connected counts as one fresh attempt.
    assert_eq!(conn.step(ConnEvent::ConnectionFailed), ConnAction::RetryAfter(6));
    assert_eq!(conn.phase, ConnPhase::Disconnected);
}

#[test]
fn inbound_messages_route_by_shape() {
    let depth = "{\"stream\":\"btcusdt@depth@100ms\",\"data\":{\"e\":\"depthUpdate\",\"E\":1}}";
    assert_eq!(route_message(depth), InboundRoute::DepthUpdate);
    let trade = "{\"data\":{\"e\":\"trade\",\"E\":1}}";
    assert_eq!(route_message(trade), InboundRoute::TradeUpdate);
    let ticker = "{\"data\":{\"e\":\"bookTicker\"}}";
    assert_eq!(route_message(ticker), InboundRoute::BookTickerUpdate);
    let ack = "{\"result\":null,\"id\":1}";
    assert_eq!(route_message(ack), InboundRoute::SubscriptionAck);
    let odd = "{\"result\":null,\"id\":1,\"extra\":2}";
    assert_eq!(route_message(odd), InboundRoute::Unrecognized);
    let unknown_event = "{\"data\":{\"e\":\"kline\"}}";
    assert_eq!(route_message(unknown_event), InboundRoute::Unrecognized);
    let garbage = "not json at all";
    assert_eq!(route_message(garbage), InboundRoute::Malformed);
    let not_object = "[1,2,3]";
    assert_eq!(route_message(not_object), InboundRoute::Malformed);
}

#[test]
fn frames_drive_the_keep_alive_and_shutdown() {
    assert_eq!(frame_action(FrameKind::Text), FrameAction::RouteText);
    assert_eq!(frame_action(FrameKind::Ping), FrameAction::SignalPong);
    assert_eq!(frame_action(FrameKind::Close), FrameAction::EndConnection);
    assert_eq!(frame_action(FrameKind::Binary), FrameAction::Ignore);
    assert_eq!(frame_action(FrameKind::Pong), FrameAction::Ignore);
}
