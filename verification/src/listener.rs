//! The listening loop's decisions: when a recognized phrase counts as a
//! finished command, when the assistant is awake, and which commands go on
//! to the router.
use vstd::prelude::*;

use crate::text::{contains, contains_str, str_eq, trim, trim_str};

verus! {

/// How long a partial transcript must stay unchanged before it is taken as
/// the finished command (0.7 s).
pub const PARTIAL_SETTLE_NS: u64 = 700_000_000;

/// How long the assistant stays awake after hearing its name (5 s).
pub const WAKE_WINDOW_NS: u64 = 5_000_000_000;

/// What the recognizer reported for one block of audio.
pub enum Heard {
    /// The recognizer finished an utterance: its single best transcript, or
    /// `None` when it offered several alternatives.
    Final(Option<String>),
    /// The recognizer's running transcript of an unfinished utterance.
    Partial(String),
}

pub enum HeardModel {
    Final(Option<Seq<char>>),
    Partial(Seq<char>),
}

impl View for Heard {
    type V = HeardModel;

    open spec fn view(&self) -> HeardModel {
        match self {
            Heard::Final(Some(t)) => HeardModel::Final(Some(t@)),
            Heard::Final(None) => HeardModel::Final(None),
            Heard::Partial(p) => HeardModel::Partial(p@),
        }
    }
}

/// The listener's memory between blocks of audio.  Times are nanoseconds on a
/// monotonic clock.
pub struct Listener {
    awake: bool,
    last_wake_ns: u64,
    last_partial: String,
    last_partial_ns: u64,
}

pub struct ListenerModel {
    pub awake: bool,
    pub last_wake_ns: u64,
    pub last_partial: Seq<char>,
    pub last_partial_ns: u64,
}

impl View for Listener {
    type V = ListenerModel;

    closed spec fn view(&self) -> ListenerModel {
        ListenerModel {
            awake: self.awake,
            last_wake_ns: self.last_wake_ns,
            last_partial: self.last_partial@,
            last_partial_ns: self.last_partial_ns,
        }
    }
}

/// What to do after one block of audio.
pub struct Reaction {
    /// Clear the recognizer's buffer so the same words do not fire twice.
    pub reset_recognizer: bool,
    /// The assistant just heard its name.
    pub woke: bool,
    /// The command to hand to the router.
    pub command: Option<String>,
    /// The wake window ran out before a command came: go dormant.
    pub dormant: bool,
}

pub struct ReactionModel {
    pub reset_recognizer: bool,
    pub woke: bool,
    pub command: Option<Seq<char>>,
    pub dormant: bool,
}

impl View for Reaction {
    type V = ReactionModel;

    open spec fn view(&self) -> ReactionModel {
        ReactionModel {
            reset_recognizer: self.reset_recognizer,
            woke: self.woke,
            command: match self.command {
                Some(c) => Some(c@),
                None => None,
            },
            dormant: self.dormant,
        }
    }
}

/// Time from `earlier` to `now`, zero when `now` is not later.
pub open spec fn elapsed(now: u64, earlier: u64) -> nat {
    if now >= earlier {
        (now - earlier) as nat
    } else {
        0
    }
}

/// A transcript that carries words (not empty, not the unknown-word marker).
pub open spec fn is_speech(t: Seq<char>) -> bool {
    t.len() > 0 && t != "[unk]"@
}

/// The phrase names the assistant.
pub open spec fn names_assistant(c: Seq<char>) -> bool {
    contains(c, "argus"@) || contains(c, "august"@)
}

/// The end-of-utterance decision: the listener with its partial-transcript
/// trackers updated, and the finished phrase if one is ready, with whether
/// the recognizer must be reset.
pub open spec fn endpoint(m: ListenerModel, h: HeardModel, now: u64) -> (
    ListenerModel,
    Option<Seq<char>>,
    bool,
) {
    match h {
        HeardModel::Final(Some(t)) => (m, Some(t), false),
        HeardModel::Final(None) => (m, None, false),
        HeardModel::Partial(p) => if is_speech(p) {
            if p == m.last_partial {
                if elapsed(now, m.last_partial_ns) > PARTIAL_SETTLE_NS {
                    (ListenerModel { last_partial: Seq::empty(), ..m }, Some(p), true)
                } else {
                    (m, None, false)
                }
            } else {
                (ListenerModel { last_partial: p, last_partial_ns: now, ..m }, None, false)
            }
        } else {
            (m, None, false)
        },
    }
}

/// One step of the listener: the state after a block of audio heard at
/// `now`, and what to do about it.
pub open spec fn step_model(m: ListenerModel, h: HeardModel, now: u64) -> (
    ListenerModel,
    ReactionModel,
) {
    let (m1, phrase, reset) = endpoint(m, h, now);
    let quiet = ReactionModel { reset_recognizer: reset, woke: false, command: None, dormant: false };
    match phrase {
        None => (m1, quiet),
        Some(t) => {
            let c = trim(t);
            if !is_speech(c) {
                (m1, quiet)
            } else {
                let woke = names_assistant(c);
                let m2 = if woke {
                    ListenerModel { awake: true, last_wake_ns: now, ..m1 }
                } else {
                    m1
                };
                if m2.awake && elapsed(now, m2.last_wake_ns) < WAKE_WINDOW_NS {
                    if c != "argus"@ && c != "august"@ {
                        (
                            ListenerModel { awake: false, ..m2 },
                            ReactionModel { woke, command: Some(c), ..quiet },
                        )
                    } else {
                        (m2, ReactionModel { woke, ..quiet })
                    }
                } else if m2.awake {
                    (ListenerModel { awake: false, ..m2 }, ReactionModel { woke, dormant: true, ..quiet })
                } else {
                    (m2, ReactionModel { woke, ..quiet })
                }
            }
        },
    }
}

fn elapsed_exec(now: u64, earlier: u64) -> (e: u64)
    ensures
        e == elapsed(now, earlier),
{
    if now >= earlier {
        now - earlier
    } else {
        0
    }
}

fn is_speech_exec(t: &str) -> (b: bool)
    ensures
        b == is_speech(t@),
{
    t.unicode_len() > 0 && !str_eq(t, "[unk]")
}

impl Listener {
    /// A dormant listener started at `now_ns`.
    pub fn new(now_ns: u64) -> (l: Self)
        ensures
            l@ == (ListenerModel {
                awake: false,
                last_wake_ns: now_ns,
                last_partial: Seq::empty(),
                last_partial_ns: now_ns,
            }),
    {
        Listener { awake: false, last_wake_ns: now_ns, last_partial: String::new(), last_partial_ns: now_ns }
    }

    /// Whether the assistant is waiting for a command.
    pub fn is_awake(&self) -> (b: bool)
        ensures
            b == self@.awake,
    {
        self.awake
    }

    /// Takes in what the recognizer reported at `now_ns`.
    pub fn step(&mut self, heard: Heard, now_ns: u64) -> (r: Reaction)
        ensures
            (final(self)@, r@) == step_model(old(self)@, heard@, now_ns),
    {
        let ghost m0 = self@;
        let mut reset = false;
        let phrase: Option<String> = match heard {
            Heard::Final(t) => t,
            Heard::Partial(p) => {
                if is_speech_exec(p.as_str()) {
                    if str_eq(p.as_str(), self.last_partial.as_str()) {
                        if elapsed_exec(now_ns, self.last_partial_ns) > PARTIAL_SETTLE_NS {
                            reset = true;
                            self.last_partial = String::new();
                            Some(p)
                        } else {
                            None
                        }
                    } else {
                        self.last_partial = p;
                        self.last_partial_ns = now_ns;
                        None
                    }
                } else {
                    None
                }
            },
        };
        let ghost e = endpoint(m0, heard@, now_ns);
        assert(self@ == e.0);
        assert(reset == e.2);
        let mut r = Reaction { reset_recognizer: reset, woke: false, command: None, dormant: false };
        if let Some(t) = phrase {
            let c = trim_str(t.as_str());
            if is_speech_exec(c) {
                let woke = contains_str(c, "argus") || contains_str(c, "august");
                if woke {
                    self.awake = true;
                    self.last_wake_ns = now_ns;
                }
                r.woke = woke;
                if self.awake && elapsed_exec(now_ns, self.last_wake_ns) < WAKE_WINDOW_NS {
                    if !str_eq(c, "argus") && !str_eq(c, "august") {
                        r.command = Some(String::from_str(c));
                        self.awake = false;
                    }
                } else if self.awake {
                    self.awake = false;
                    r.dormant = true;
                }
            }
        }
        r
    }
}

// ---------------------------------------------------------------------------
// Laws of the listener
// ---------------------------------------------------------------------------

/// Handing a command to the router puts the assistant back to sleep.
pub proof fn law_routing_ends_wakefulness(m: ListenerModel, h: HeardModel, now: u64)
    ensures
        step_model(m, h, now).1.command is Some ==> !step_model(m, h, now).0.awake,
{
}

/// The assistant's name on its own is never a command, nor is silence or the
/// unknown-word marker; every command is trimmed.
pub proof fn law_name_alone_is_no_command(m: ListenerModel, h: HeardModel, now: u64)
    ensures
        step_model(m, h, now).1.command matches Some(c) ==> {
            &&& c != "argus"@
            &&& c != "august"@
            &&& is_speech(c)
            &&& exists|t: Seq<char>| c == trim(t)
        },
{
    let (m1, phrase, reset) = endpoint(m, h, now);
    if let Some(t) = phrase {
        if step_model(m, h, now).1.command is Some {
            assert(step_model(m, h, now).1.command == Some(trim(t)));
        }
    }
}

/// A command is routed only when it names the assistant, or when the
/// assistant was woken less than the wake window earlier.
pub proof fn law_commands_need_wakefulness(m: ListenerModel, h: HeardModel, now: u64)
    ensures
        step_model(m, h, now).1.command matches Some(c) ==> names_assistant(c) || (m.awake
            && elapsed(now, m.last_wake_ns) < WAKE_WINDOW_NS),
{
}

/// A wake that has run out goes dormant at the next phrase that does not name
/// the assistant, and that phrase is not routed.
pub proof fn law_stale_wake_goes_dormant(m: ListenerModel, t: Seq<char>, now: u64)
    requires
        m.awake,
        elapsed(now, m.last_wake_ns) >= WAKE_WINDOW_NS,
        is_speech(trim(t)),
        !names_assistant(trim(t)),
    ensures
        step_model(m, HeardModel::Final(Some(t)), now).1.dormant,
        step_model(m, HeardModel::Final(Some(t)), now).1.command is None,
        !step_model(m, HeardModel::Final(Some(t)), now).0.awake,
{
}

/// A partial transcript that stays the same for longer than the settle time
/// is taken as finished, and the recognizer is reset.
pub proof fn law_partial_settles(m: ListenerModel, p: Seq<char>, t1: u64, t2: u64)
    requires
        is_speech(p),
        p != m.last_partial,
        t1 <= t2,
        t2 - t1 > PARTIAL_SETTLE_NS,
    ensures
        step_model(step_model(m, HeardModel::Partial(p), t1).0, HeardModel::Partial(p), t2).1.reset_recognizer,
{
}

/// A settled partial transcript fires once: hearing the same partial again
/// right after it fired starts a new wait instead of firing again.
pub proof fn law_settled_partial_fires_once(m: ListenerModel, p: Seq<char>, t1: u64, t2: u64)
    requires
        step_model(m, HeardModel::Partial(p), t1).1.reset_recognizer,
    ensures
        ({
            let m1 = step_model(m, HeardModel::Partial(p), t1).0;
            let r2 = step_model(m1, HeardModel::Partial(p), t2).1;
            &&& m1.last_partial == Seq::<char>::empty()
            &&& !r2.reset_recognizer
            &&& r2.command is None
        }),
{
}

// ---------------------------------------------------------------------------
// Runs of the listener
// ---------------------------------------------------------------------------

/// The listener's state after the first `i` events of a run that starts in
/// state `m`; each event is what was heard and when.
#[verifier::opaque]
pub open spec fn state_after(m: ListenerModel, evs: Seq<(HeardModel, u64)>, i: int) -> ListenerModel
    decreases i,
{
    if i <= 0 {
        m
    } else {
        step_model(state_after(m, evs, i - 1), evs[i - 1].0, evs[i - 1].1).0
    }
}

/// The reaction to event `i` of a run that starts in state `m`.
#[verifier::opaque]
pub open spec fn reaction_at(m: ListenerModel, evs: Seq<(HeardModel, u64)>, i: int) -> ReactionModel {
    step_model(state_after(m, evs, i), evs[i].0, evs[i].1).1
}

proof fn lemma_step_facts(m: ListenerModel, h: HeardModel, now: u64)
    ensures
        ({
            let (m2, r) = step_model(m, h, now);
            &&& r.woke ==> m2.last_wake_ns == now
            &&& !r.woke ==> m2.last_wake_ns == m.last_wake_ns && (m2.awake ==> m.awake)
            &&& r.command is Some ==> !m2.awake
            &&& (r.command is Some && !r.woke) ==> m.awake && elapsed(now, m.last_wake_ns) < WAKE_WINDOW_NS
        }),
{
}

/// A run starts in its first state.
pub proof fn lemma_run_start(m: ListenerModel, evs: Seq<(HeardModel, u64)>)
    ensures
        state_after(m, evs, 0) == m,
{
    reveal(state_after);
}

/// Event `i` of a run is one step of the listener.
pub proof fn lemma_run_step(m: ListenerModel, evs: Seq<(HeardModel, u64)>, i: int)
    requires
        0 <= i < evs.len(),
    ensures
        (state_after(m, evs, i + 1), reaction_at(m, evs, i)) == step_model(
            state_after(m, evs, i),
            evs[i].0,
            evs[i].1,
        ),
{
    reveal(state_after);
    reveal(reaction_at);
}

/// The wake and routing facts of event `i` of a run.
proof fn lemma_run_wake_facts(m: ListenerModel, evs: Seq<(HeardModel, u64)>, i: int)
    requires
        0 <= i < evs.len(),
    ensures
        ({
            let s = state_after(m, evs, i);
            let s2 = state_after(m, evs, i + 1);
            let r = reaction_at(m, evs, i);
            &&& r.woke ==> s2.last_wake_ns == evs[i].1
            &&& !r.woke ==> s2.last_wake_ns == s.last_wake_ns && (s2.awake ==> s.awake)
            &&& r.command is Some ==> !s2.awake
            &&& (r.command is Some && !r.woke) ==> s.awake && elapsed(evs[i].1, s.last_wake_ns)
                < WAKE_WINDOW_NS
        }),
{
    lemma_run_step(m, evs, i);
    lemma_step_facts(state_after(m, evs, i), evs[i].0, evs[i].1);
}

/// Event `j` woke the assistant, no later event before `n` woke it again,
/// and no event from `j` up to `n` was routed.
pub open spec fn unbroken_wake(m: ListenerModel, evs: Seq<(HeardModel, u64)>, j: int, n: int) -> bool {
    &&& 0 <= j < n
    &&& reaction_at(m, evs, j).woke
    &&& forall|k: int| j < k < n ==> !(#[trigger] reaction_at(m, evs, k)).woke
    &&& forall|k: int| j <= k < n ==> (#[trigger] reaction_at(m, evs, k)).command is None
}

proof fn lemma_awake_has_unbroken_wake(m: ListenerModel, evs: Seq<(HeardModel, u64)>, n: int)
    requires
        !m.awake,
        0 <= n <= evs.len(),
    ensures
        state_after(m, evs, n).awake ==> exists|j: int|
            unbroken_wake(m, evs, j, n) && state_after(m, evs, n).last_wake_ns == evs[j].1,
    decreases n,
{
    if n == 0 {
        lemma_run_start(m, evs);
    } else {
        lemma_awake_has_unbroken_wake(m, evs, n - 1);
        let s = state_after(m, evs, n - 1);
        lemma_run_wake_facts(m, evs, n - 1);
        let r = reaction_at(m, evs, n - 1);
        let s2 = state_after(m, evs, n);
        if s2.awake {
            if r.woke {
                assert(unbroken_wake(m, evs, n - 1, n));
            } else {
                let j = choose|j: int| unbroken_wake(m, evs, j, n - 1) && s.last_wake_ns == evs[j].1;
                assert(unbroken_wake(m, evs, j, n));
            }
        }
    }
}

/// Over any run that starts dormant, a command is routed only within the
/// wake window of the latest wake, and only if no command was routed since
/// that wake.
pub proof fn law_commands_follow_latest_wake(m: ListenerModel, evs: Seq<(HeardModel, u64)>, i: int)
    requires
        !m.awake,
        0 <= i < evs.len(),
        reaction_at(m, evs, i).command is Some,
    ensures
        exists|j: int|
            #![trigger reaction_at(m, evs, j)]
            0 <= j <= i && reaction_at(m, evs, j).woke && elapsed(evs[i].1, evs[j].1) < WAKE_WINDOW_NS
                && (forall|k: int| j < k <= i ==> !(#[trigger] reaction_at(m, evs, k)).woke) && (forall|k: int|
                j <= k < i ==> (#[trigger] reaction_at(m, evs, k)).command is None),
{
    let s = state_after(m, evs, i);
    lemma_run_wake_facts(m, evs, i);
    let r = reaction_at(m, evs, i);
    if r.woke {
        assert(elapsed(evs[i].1, evs[i].1) == 0);
        assert(reaction_at(m, evs, i).woke);
    } else {
        lemma_awake_has_unbroken_wake(m, evs, i);
        let j = choose|j: int| unbroken_wake(m, evs, j, i) && s.last_wake_ns == evs[j].1;
        assert(reaction_at(m, evs, j).woke);
        assert forall|k: int| j < k <= i implies !(#[trigger] reaction_at(m, evs, k)).woke by {
            if k < i {
                assert(unbroken_wake(m, evs, j, i));
            }
        }
    }
}

/// While the same partial transcript `p` keeps arriving within the settle
/// time of `since`, nothing fires and the listener keeps waiting on it.
proof fn lemma_waiting(
    m: ListenerModel,
    evs: Seq<(HeardModel, u64)>,
    p: Seq<char>,
    since: u64,
    a: int,
    b: int,
)
    requires
        is_speech(p),
        0 <= a <= b <= evs.len(),
        state_after(m, evs, a).last_partial == p,
        state_after(m, evs, a).last_partial_ns == since,
        forall|k: int| a <= k < b ==> #[trigger] evs[k].0 == HeardModel::Partial(p),
        forall|k: int| a <= k < b ==> elapsed(#[trigger] evs[k].1, since) <= PARTIAL_SETTLE_NS,
    ensures
        state_after(m, evs, b).last_partial == p,
        state_after(m, evs, b).last_partial_ns == since,
        forall|k: int|
            a <= k < b ==> !(#[trigger] reaction_at(m, evs, k)).reset_recognizer && reaction_at(
                m,
                evs,
                k,
            ).command is None,
    decreases b - a,
{
    if a < b {
        assert(evs[a].0 == HeardModel::Partial(p));
        assert(elapsed(evs[a].1, since) <= PARTIAL_SETTLE_NS);
        lemma_run_step(m, evs, a);
        lemma_waiting(m, evs, p, since, a + 1, b);
    }
}

/// A partial transcript held unchanged fires exactly once: at the first
/// event more than the settle time after it began, which resets the
/// recognizer and, when the trimmed transcript names the assistant and is
/// not the bare name, routes it; no earlier event fires, and the next wait
/// starts afresh.
pub proof fn law_held_partial_fires_once(
    m: ListenerModel,
    evs: Seq<(HeardModel, u64)>,
    p: Seq<char>,
    f: int,
)
    requires
        is_speech(p),
        m.last_partial != p,
        forall|k: int| 0 <= k < evs.len() ==> #[trigger] evs[k].0 == HeardModel::Partial(p),
        1 <= f < evs.len(),
        elapsed(evs[f].1, evs[0].1) > PARTIAL_SETTLE_NS,
        forall|k: int| 1 <= k < f ==> elapsed(#[trigger] evs[k].1, evs[0].1) <= PARTIAL_SETTLE_NS,
    ensures
        forall|k: int|
            0 <= k < f ==> !(#[trigger] reaction_at(m, evs, k)).reset_recognizer && reaction_at(
                m,
                evs,
                k,
            ).command is None,
        reaction_at(m, evs, f).reset_recognizer,
        is_speech(trim(p)) && names_assistant(trim(p)) && trim(p) != "argus"@ && trim(p) != "august"@
            ==> reaction_at(m, evs, f).command == Some(trim(p)),
        (forall|k: int| f + 1 < k < evs.len() ==> elapsed(#[trigger] evs[k].1, evs[f + 1].1) <= PARTIAL_SETTLE_NS)
            ==> forall|k: int|
            f < k < evs.len() ==> !(#[trigger] reaction_at(m, evs, k)).reset_recognizer && reaction_at(
                m,
                evs,
                k,
            ).command is None,
{
    let t0 = evs[0].1;
    assert(evs[0].0 == HeardModel::Partial(p));
    lemma_run_start(m, evs);
    lemma_run_step(m, evs, 0);
    lemma_waiting(m, evs, p, t0, 1, f);
    assert(evs[f].0 == HeardModel::Partial(p));
    lemma_run_step(m, evs, f);
    assert(state_after(m, evs, f + 1).last_partial == Seq::<char>::empty());
    if f + 1 < evs.len() {
        let t1 = evs[f + 1].1;
        assert(evs[f + 1].0 == HeardModel::Partial(p));
        lemma_run_step(m, evs, f + 1);
        assert(reaction_at(m, evs, f + 1).command is None);
        if forall|k: int| f + 1 < k < evs.len() ==> elapsed(#[trigger] evs[k].1, t1) <= PARTIAL_SETTLE_NS {
            lemma_waiting(m, evs, p, t1, f + 2, evs.len() as int);
        }
    }
}

/// Within the wake window every finished phrase is routed, trimmed, however
/// it was finished: a final transcript from the recognizer, or a partial
/// transcript that stayed unchanged for longer than the settle time.
pub proof fn law_awake_routes_every_finished_phrase(m: ListenerModel, h: HeardModel, now: u64, t: Seq<char>)
    requires
        m.awake,
        elapsed(now, m.last_wake_ns) < WAKE_WINDOW_NS,
        is_speech(trim(t)),
        trim(t) != "argus"@,
        trim(t) != "august"@,
        h == HeardModel::Final(Some(t)) || (h == HeardModel::Partial(t) && is_speech(t) && t
            == m.last_partial && elapsed(now, m.last_partial_ns) > PARTIAL_SETTLE_NS),
    ensures
        step_model(m, h, now).1.command == Some(trim(t)),
        !step_model(m, h, now).0.awake,
{
}

/// A finished phrase that names the assistant, and is not the bare name, is
/// routed at once, awake or not.
pub proof fn law_named_phrase_is_routed(m: ListenerModel, h: HeardModel, now: u64, t: Seq<char>)
    requires
        is_speech(trim(t)),
        contains(trim(t), "argus"@) || contains(trim(t), "august"@),
        trim(t) != "argus"@,
        trim(t) != "august"@,
        h == HeardModel::Final(Some(t)) || (h == HeardModel::Partial(t) && is_speech(t) && t
            == m.last_partial && elapsed(now, m.last_partial_ns) > PARTIAL_SETTLE_NS),
    ensures
        step_model(m, h, now).1.woke,
        step_model(m, h, now).1.command == Some(trim(t)),
{
}

/// The listener's timing: a partial transcript settles after 0.7 s, and the
/// assistant stays awake for 5 s after hearing its name.
pub proof fn law_listener_constants()
    ensures
        PARTIAL_SETTLE_NS == 700_000_000,
        WAKE_WINDOW_NS == 5_000_000_000,
{
}

/// Silence, the unknown-word marker, and a finished utterance with several
/// alternatives change nothing and call for nothing.
pub proof fn law_noise_is_ignored(m: ListenerModel, h: HeardModel, now: u64)
    requires
        h == HeardModel::Final(None) || h == HeardModel::Partial(Seq::empty()) || h
            == HeardModel::Partial("[unk]"@),
    ensures
        step_model(m, h, now).0 == m,
        step_model(m, h, now).1 == (ReactionModel {
            reset_recognizer: false,
            woke: false,
            command: None,
            dormant: false,
        }),
{
}

/// A finished transcript that is blank or the unknown-word marker once
/// trimmed changes nothing and calls for nothing.
pub proof fn law_blank_final_is_ignored(m: ListenerModel, t: Seq<char>, now: u64)
    requires
        trim(t).len() == 0 || trim(t) == "[unk]"@,
    ensures
        step_model(m, HeardModel::Final(Some(t)), now).0 == m,
        !step_model(m, HeardModel::Final(Some(t)), now).1.reset_recognizer,
        !step_model(m, HeardModel::Final(Some(t)), now).1.woke,
        step_model(m, HeardModel::Final(Some(t)), now).1.command is None,
        !step_model(m, HeardModel::Final(Some(t)), now).1.dormant,
{
}

} // verus!
