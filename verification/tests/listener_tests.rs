use argus::listener::{Heard, Listener, Reaction};

const MS: u64 = 1_000_000;

fn final_text(t: &str) -> Heard {
    Heard::Final(Some(t.to_string()))
}

fn partial(t: &str) -> Heard {
    Heard::Partial(t.to_string())
}

fn quiet(r: &Reaction) -> bool {
    !r.reset_recognizer && !r.woke && r.command.is_none() && !r.dormant
}

#[test]
fn name_and_command_in_one_phrase_is_routed() {
    let mut l = Listener::new(0);
    let r = l.step(final_text(" argus open slack "), 10 * MS);
    assert!(r.woke);
    assert_eq!(r.command.as_deref(), Some("argus open slack"));
    assert!(!l.is_awake());
}

#[test]
fn name_then_command_within_the_window() {
    let mut l = Listener::new(0);
    let r = l.step(final_text("argus"), 100 * MS);
    assert!(r.woke);
    assert!(r.command.is_none());
    assert!(l.is_awake());
    let r = l.step(final_text("open slack"), 2_000 * MS);
    assert!(!r.woke);
    assert_eq!(r.command.as_deref(), Some("open slack"));
    assert!(!l.is_awake());
}

#[test]
fn command_after_the_window_goes_dormant() {
    let mut l = Listener::new(0);
    l.step(final_text("august"), 0);
    let r = l.step(final_text("open slack"), 6_000 * MS);
    assert!(r.dormant);
    assert!(r.command.is_none());
    assert!(!l.is_awake());
}

#[test]
fn commands_without_the_name_are_ignored_while_dormant() {
    let mut l = Listener::new(0);
    let r = l.step(final_text("open slack"), MS);
    assert!(quiet(&r));
}

#[test]
fn settled_partial_fires_once() {
    let mut l = Listener::new(0);
    assert!(quiet(&l.step(partial("argus open slack"), 0)));
    assert!(quiet(&l.step(partial("argus open slack"), 500 * MS)));
    let r = l.step(partial("argus open slack"), 800 * MS);
    assert!(r.reset_recognizer);
    assert_eq!(r.command.as_deref(), Some("argus open slack"));
    // The same partial right after starts a new wait.
    assert!(quiet(&l.step(partial("argus open slack"), 2_000 * MS)));
}

#[test]
fn changing_partial_restarts_the_wait() {
    let mut l = Listener::new(0);
    l.step(partial("argus open"), 0);
    assert!(quiet(&l.step(partial("argus open slack"), 600 * MS)));
    assert!(quiet(&l.step(partial("argus open slack"), 1_200 * MS)));
    let r = l.step(partial("argus open slack"), 1_400 * MS);
    assert!(r.reset_recognizer);
}

#[test]
fn noise_is_ignored() {
    let mut l = Listener::new(0);
    assert!(quiet(&l.step(partial("[unk]"), 0)));
    assert!(quiet(&l.step(partial(""), 0)));
    assert!(quiet(&l.step(Heard::Final(None), 0)));
    assert!(quiet(&l.step(final_text("[unk]"), 0)));
    assert!(quiet(&l.step(final_text("   "), 0)));
}

#[test]
fn one_wake_routes_one_command() {
    let mut l = Listener::new(0);
    l.step(final_text("argus"), 0);
    assert_eq!(l.step(final_text("open slack"), 1_000 * MS).command.as_deref(), Some("open slack"));
    // Still inside the window of the same wake, but that wake was used up.
    assert!(quiet(&l.step(final_text("close slack"), 2_000 * MS)));
}

#[test]
fn held_partial_fires_at_the_first_step_past_the_settle_time() {
    let mut l = Listener::new(0);
    let mut fired = Vec::new();
    for step in 0..=12u64 {
        let r = l.step(partial("august close tab"), step * 100 * MS);
        if r.reset_recognizer {
            fired.push((step, r.command));
        }
    }
    // Begins at 0 ms, fires at 800 ms, waits again from 900 ms.
    assert_eq!(fired, vec![(8, Some("august close tab".to_string()))]);
}
