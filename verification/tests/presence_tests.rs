use ctaphid::codec::encode;
use ctaphid::codec::Message;
use ctaphid::codec::COMMAND_CANCEL;
use ctaphid::keepalive::SendOutcome;
use ctaphid::leds::Leds;
use ctaphid::presence::check_user_presence;
use ctaphid::presence::PresenceEvent;
use ctaphid::presence::KEEPALIVE_DELAY;
use ctaphid::presence::TIMEOUT_ITERATIONS;
use ctaphid::presence::TOUCH_TIMEOUT;
use ctaphid::CtapError;

fn off() -> Leds {
    Leds { l0: false, l1: false, l2: false, l3: false }
}

fn sent() -> Vec<SendOutcome> {
    vec![SendOutcome::Sent]
}

fn cancel_outcomes(cid: u32) -> Vec<SendOutcome> {
    let message = Message { cid, cmd: COMMAND_CANCEL, payload: Vec::new() };
    let packet = encode(&message).pop().unwrap();
    vec![SendOutcome::Received(packet)]
}

fn delays(n: usize) -> Vec<PresenceEvent> {
    let mut events = Vec::new();
    for _ in 0..n {
        events.push(PresenceEvent::DelayElapsed(sent()));
    }
    events
}

#[test]
fn iteration_bound_follows_the_timeouts() {
    assert_eq!(TOUCH_TIMEOUT / KEEPALIVE_DELAY, TIMEOUT_ITERATIONS);
    assert_eq!(TIMEOUT_ITERATIONS, 30);
}

#[test]
fn button_press_on_iteration_five_grants_without_further_keepalives() {
    // 2500 ms touch timeout at a 100 ms keepalive delay: at most 25
    // iterations.
    let bound: usize = 25;
    let mut events = delays(5);
    events.push(PresenceEvent::ButtonPressed);
    let mut rest = delays(bound - events.len());
    events.append(&mut rest);

    let run = check_user_presence(7, &sent(), &events, bound);
    assert_eq!(run.result, Ok(()));
    assert_eq!(run.iterations, 6);
    assert_eq!(run.led_trace.len(), 7);
    assert_eq!(*run.led_trace.last().unwrap(), off());
}

#[test]
fn exhausted_bound_times_out_with_leds_off() {
    let bound: usize = 3;
    let events = delays(bound);
    let run = check_user_presence(7, &sent(), &events, bound);
    assert_eq!(run.result, Err(CtapError::TimedOut));
    assert_eq!(run.iterations, 3);
    assert_eq!(run.led_trace.len(), 4);
    assert_eq!(*run.led_trace.last().unwrap(), off());
}

#[test]
fn cancel_mid_loop_stops_with_leds_off() {
    let bound: usize = 10;
    let mut events = delays(2);
    events.push(PresenceEvent::DelayElapsed(cancel_outcomes(7)));
    let mut rest = delays(bound - events.len());
    events.append(&mut rest);

    let run = check_user_presence(7, &sent(), &events, bound);
    assert_eq!(run.result, Err(CtapError::Cancelled));
    assert_eq!(run.iterations, 3);
    assert_eq!(*run.led_trace.last().unwrap(), off());
}

#[test]
fn cancel_for_another_channel_mid_loop_is_ignored() {
    let bound: usize = 4;
    let mut events = vec![PresenceEvent::DelayElapsed(cancel_outcomes(9))];
    let mut rest = delays(bound - events.len());
    events.append(&mut rest);

    let run = check_user_presence(7, &sent(), &events, bound);
    assert_eq!(run.result, Err(CtapError::TimedOut));
    assert_eq!(run.iterations, 4);
}

#[test]
fn failing_initial_keepalive_cancels_at_once() {
    let bound: usize = 10;
    let events = delays(bound);
    let run = check_user_presence(7, &cancel_outcomes(7), &events, bound);
    assert_eq!(run.result, Err(CtapError::Cancelled));
    assert_eq!(run.iterations, 0);
    assert_eq!(run.led_trace, vec![off()]);
}

#[test]
fn transport_failure_mid_loop_is_fatal() {
    let bound: usize = 5;
    let mut events = vec![PresenceEvent::DelayElapsed(vec![SendOutcome::Error])];
    let mut rest = delays(bound - events.len());
    events.append(&mut rest);

    let run = check_user_presence(7, &sent(), &events, bound);
    assert_eq!(run.result, Err(CtapError::TransportError));
    assert_eq!(run.iterations, 1);
    assert_eq!(*run.led_trace.last().unwrap(), off());
}

#[test]
fn led_trace_blinks_by_iteration_parity() {
    let bound: usize = 6;
    let events = delays(bound);
    let run = check_user_presence(7, &sent(), &events, bound);
    // All on when the iteration counter has an odd bit population count.
    let on = Leds { l0: true, l1: true, l2: true, l3: true };
    assert_eq!(run.led_trace[0], off()); // 0
    assert_eq!(run.led_trace[1], on); // 1
    assert_eq!(run.led_trace[2], on); // 2
    assert_eq!(run.led_trace[3], off()); // 3
    assert_eq!(run.led_trace[4], on); // 4
    assert_eq!(run.led_trace[5], off()); // 5
    assert_eq!(run.led_trace[6], off()); // final switch-off
}
