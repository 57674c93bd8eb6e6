use vstd::prelude::*;
use crate::events::RoundStateEvent;

verus! {

/// The phases of one round, in the order they are played.
#[derive(Clone, Copy, Debug, PartialEq, Eq, Structural)]
pub enum RoundPhase {
    Intro,
    Ready,
    Fight,
    KoFreeze,
    Result,
}

/// The current phase and how many frames the round has spent in it.
#[derive(Clone, Copy, Debug, PartialEq, Eq, Structural)]
pub struct RoundState {
    pub phase: RoundPhase,
    pub frames_in_phase: u32,
}

impl Default for RoundState {
    /// A round starts in its intro, at frame 0.
    fn default() -> (res: RoundState)
        ensures
            res.phase == RoundPhase::Intro,
            res.frames_in_phase == 0,
    {
        RoundState { phase: RoundPhase::Intro, frames_in_phase: 0 }
    }
}

/// The intro lasts until its frame count exceeds this.
pub const INTRO_FRAMES: u32 = 60;

/// The "ready" phase lasts until its frame count exceeds this.
pub const READY_FRAMES: u32 = 60;

/// The freeze after a KO lasts until its frame count exceeds this.
pub const KO_FREEZE_FRAMES: u32 = 90;

/// Position of a phase in the order of play.
pub open spec fn phase_rank(p: RoundPhase) -> int {
    match p {
        RoundPhase::Intro => 0,
        RoundPhase::Ready => 1,
        RoundPhase::Fight => 2,
        RoundPhase::KoFreeze => 3,
        RoundPhase::Result => 4,
    }
}

/// Entering phase `p`: the frame count restarts and an event announces it.
pub open spec fn enter(p: RoundPhase) -> (RoundState, Option<RoundStateEvent>) {
    (RoundState { phase: p, frames_in_phase: 0 }, Some(RoundStateEvent { new_state: p }))
}

/// The round after one frame. `ko_pending` says whether a KO was reported
/// this frame; only a fight reacts to it.
pub open spec fn advance_spec(r: RoundState, ko_pending: bool) -> (RoundState, Option<RoundStateEvent>) {
    let f = (r.frames_in_phase + 1) as u32;
    let stay = (RoundState { phase: r.phase, frames_in_phase: f }, None);
    match r.phase {
        RoundPhase::Intro => if f > INTRO_FRAMES { enter(RoundPhase::Ready) } else { stay },
        RoundPhase::Ready => if f > READY_FRAMES { enter(RoundPhase::Fight) } else { stay },
        RoundPhase::Fight => if ko_pending { enter(RoundPhase::KoFreeze) } else { stay },
        RoundPhase::KoFreeze => if f > KO_FREEZE_FRAMES { enter(RoundPhase::Result) } else { stay },
        RoundPhase::Result => stay,
    }
}

/// Advances the round by one frame and returns the phase-change event, if
/// the round entered a new phase.
pub fn advance_round_state(round: &mut RoundState, ko_pending: bool) -> (event: Option<RoundStateEvent>)
    requires
        old(round).frames_in_phase < u32::MAX,
    ensures
        (*final(round), event) == advance_spec(*old(round), ko_pending),
{
    round.frames_in_phase = round.frames_in_phase + 1;
    match round.phase {
        RoundPhase::Intro => {
            if round.frames_in_phase > INTRO_FRAMES {
                round.phase = RoundPhase::Ready;
                round.frames_in_phase = 0;
                return Some(RoundStateEvent { new_state: RoundPhase::Ready });
            }
        },
        RoundPhase::Ready => {
            if round.frames_in_phase > READY_FRAMES {
                round.phase = RoundPhase::Fight;
                round.frames_in_phase = 0;
                return Some(RoundStateEvent { new_state: RoundPhase::Fight });
            }
        },
        RoundPhase::Fight => {
            if ko_pending {
                round.phase = RoundPhase::KoFreeze;
                round.frames_in_phase = 0;
                return Some(RoundStateEvent { new_state: RoundPhase::KoFreeze });
            }
        },
        RoundPhase::KoFreeze => {
            if round.frames_in_phase > KO_FREEZE_FRAMES {
                round.phase = RoundPhase::Result;
                round.frames_in_phase = 0;
                return Some(RoundStateEvent { new_state: RoundPhase::Result });
            }
        },
        RoundPhase::Result => {},
    }
    None
}

/// A round only moves forward, one phase at a time: each frame the phase
/// either stays, with the frame count up by one and no event, or becomes the
/// next phase, with the count back at zero and an event that names it. The
/// result phase is never left.
pub proof fn lemma_round_moves_forward(r: RoundState, ko_pending: bool)
    requires
        r.frames_in_phase < u32::MAX,
    ensures
        ({
            let (next, event) = advance_spec(r, ko_pending);
            ||| (next.phase == r.phase && next.frames_in_phase == r.frames_in_phase + 1 && event is None)
            ||| (phase_rank(next.phase) == phase_rank(r.phase) + 1 && next.frames_in_phase == 0
                && event == Some(RoundStateEvent { new_state: next.phase }))
        }),
        r.phase == RoundPhase::Result ==> advance_spec(r, ko_pending).0.phase == RoundPhase::Result,
{
}

/// The round after `n` frames in which no KO is reported.
pub open spec fn advance_n(r: RoundState, n: nat) -> RoundState
    decreases n,
{
    if n == 0 { r } else { advance_n(advance_spec(r, false).0, (n - 1) as nat) }
}

/// How long a timed phase lasts, and the phase after it.
pub open spec fn timed_phase(p: RoundPhase) -> Option<(u32, RoundPhase)> {
    match p {
        RoundPhase::Intro => Some((INTRO_FRAMES, RoundPhase::Ready)),
        RoundPhase::Ready => Some((READY_FRAMES, RoundPhase::Fight)),
        RoundPhase::KoFreeze => Some((KO_FREEZE_FRAMES, RoundPhase::Result)),
        _ => None,
    }
}

proof fn lemma_timed_phase_holds(p: RoundPhase, limit: u32, after: RoundPhase, frames: u32, k: nat)
    requires
        timed_phase(p) == Some((limit, after)),
        frames + k <= limit,
    ensures
        advance_n(RoundState { phase: p, frames_in_phase: frames }, k) == (RoundState {
            phase: p,
            frames_in_phase: (frames + k) as u32,
        }),
    decreases k,
{
    if k > 0 {
        lemma_timed_phase_holds(p, limit, after, (frames + 1) as u32, (k - 1) as nat);
    }
}

proof fn lemma_advance_n_split(r: RoundState, a: nat, b: nat)
    ensures
        advance_n(advance_n(r, a), b) == advance_n(r, a + b),
    decreases a,
{
    if a > 0 {
        lemma_advance_n_split(advance_spec(r, false).0, (a - 1) as nat, b);
    }
}

/// Timed phases last exactly their length: entered at frame 0, the intro,
/// the "ready" phase and the KO freeze hold for their first `limit` frames
/// and give way to the next phase, at frame 0, on frame `limit + 1`.
pub proof fn lemma_timed_phase_length(p: RoundPhase, limit: u32, after: RoundPhase, k: nat)
    requires
        timed_phase(p) == Some((limit, after)),
    ensures
        k <= limit ==> advance_n(RoundState { phase: p, frames_in_phase: 0 }, k) == (RoundState {
            phase: p,
            frames_in_phase: k as u32,
        }),
        advance_n(RoundState { phase: p, frames_in_phase: 0 }, (limit + 1) as nat) == (RoundState {
            phase: after,
            frames_in_phase: 0,
        }),
{
    let start = RoundState { phase: p, frames_in_phase: 0 };
    if k <= limit {
        lemma_timed_phase_holds(p, limit, after, 0, k);
    }
    lemma_timed_phase_holds(p, limit, after, 0, limit as nat);
    let last = RoundState { phase: p, frames_in_phase: limit };
    assert(advance_n(last, 1) == advance_n(advance_spec(last, false).0, 0));
    lemma_advance_n_split(start, limit as nat, 1);
}

/// A fight never ends on its own: without a KO it goes on for any number of
/// frames (as long as the frame count does not reach its maximum).
pub proof fn lemma_fight_needs_ko(frames: u32, n: nat)
    requires
        frames + n <= u32::MAX,
    ensures
        advance_n(RoundState { phase: RoundPhase::Fight, frames_in_phase: frames }, n) == (RoundState {
            phase: RoundPhase::Fight,
            frames_in_phase: (frames + n) as u32,
        }),
    decreases n,
{
    if n > 0 {
        lemma_fight_needs_ko((frames + 1) as u32, (n - 1) as nat);
    }
}

/// An event, if any, as a sequence of zero or one events.
pub open spec fn event_seq(e: Option<RoundStateEvent>) -> Seq<RoundStateEvent> {
    match e {
        Some(x) => seq![x],
        None => Seq::empty(),
    }
}

/// The phase-change events sent, in order, over `n` frames in which no KO is
/// reported.
pub open spec fn events_n(r: RoundState, n: nat) -> Seq<RoundStateEvent>
    decreases n,
{
    if n == 0 {
        Seq::empty()
    } else {
        let (next, event) = advance_spec(r, false);
        event_seq(event) + events_n(next, (n - 1) as nat)
    }
}

/// Running `a` frames and then `b` more sends the events of the first `a`
/// frames followed by those of the next `b`.
pub proof fn lemma_events_n_split(r: RoundState, a: nat, b: nat)
    ensures
        advance_n(r, a + b) == advance_n(advance_n(r, a), b),
        events_n(r, a + b) == events_n(r, a) + events_n(advance_n(r, a), b),
    decreases a,
{
    lemma_advance_n_split(r, a, b);
    if a > 0 {
        let (next, event) = advance_spec(r, false);
        lemma_events_n_split(next, (a - 1) as nat, b);
        assert(event_seq(event) + (events_n(next, (a - 1) as nat) + events_n(advance_n(next, (a - 1) as nat), b))
            == (event_seq(event) + events_n(next, (a - 1) as nat)) + events_n(advance_n(next, (a - 1) as nat), b));
    } else {
        assert(Seq::<RoundStateEvent>::empty() + events_n(r, b) == events_n(r, b));
    }
}

/// A phase that waits, for a stretch of frames that does not reach its end
/// (or a fight without a KO), only counts frames and sends nothing.
proof fn lemma_quiet_stretch(r: RoundState, k: nat)
    requires
        (timed_phase(r.phase) matches Some((limit, _)) && r.frames_in_phase + k <= limit) || (r.phase
            == RoundPhase::Fight && r.frames_in_phase + k <= u32::MAX),
    ensures
        advance_n(r, k) == (RoundState { phase: r.phase, frames_in_phase: (r.frames_in_phase + k) as u32 }),
        events_n(r, k) == Seq::<RoundStateEvent>::empty(),
    decreases k,
{
    if k > 0 {
        let next = RoundState { phase: r.phase, frames_in_phase: (r.frames_in_phase + 1) as u32 };
        assert(advance_spec(r, false) == (next, Option::<RoundStateEvent>::None));
        lemma_quiet_stretch(next, (k - 1) as nat);
        assert(event_seq(None) + Seq::<RoundStateEvent>::empty() == Seq::<RoundStateEvent>::empty());
    }
}

/// The last frame of a timed phase moves to the next phase and announces it.
proof fn lemma_timed_phase_ends(p: RoundPhase, limit: u32, after: RoundPhase)
    requires
        timed_phase(p) == Some((limit, after)),
    ensures
        advance_n(RoundState { phase: p, frames_in_phase: limit }, 1) == (RoundState {
            phase: after,
            frames_in_phase: 0,
        }),
        events_n(RoundState { phase: p, frames_in_phase: limit }, 1) == seq![RoundStateEvent { new_state: after }],
{
    let last = RoundState { phase: p, frames_in_phase: limit };
    let next = RoundState { phase: after, frames_in_phase: 0 };
    assert(advance_spec(last, false) == (next, Some(RoundStateEvent { new_state: after })));
    assert(advance_n(last, 1) == advance_n(next, 0));
    assert(events_n(last, 1) == event_seq(Some(RoundStateEvent { new_state: after })) + events_n(next, 0));
    assert(seq![RoundStateEvent { new_state: after }] + Seq::<RoundStateEvent>::empty() == seq![
        RoundStateEvent { new_state: after },
    ]);
}

/// A round started from its default state (intro, frame 0), in which no KO
/// is ever reported, plays out as follows over `n` frames: it stays in the
/// intro for its first 60 frames and sends nothing; from frame 61 to frame
/// 121 it is in the "ready" phase (at frame 0 on frame 61) and has sent
/// exactly one event, for "ready"; from frame 122 on it is in the fight
/// (at frame 0 on frame 122), for as long as the fight's frame count fits in
/// a `u32`, and has sent exactly the events for "ready" and "fight".
pub proof fn lemma_round_without_ko(n: nat)
    requires
        n <= 122 + u32::MAX,
    ensures
        ({
            let start = RoundState { phase: RoundPhase::Intro, frames_in_phase: 0 };
            let ready = RoundStateEvent { new_state: RoundPhase::Ready };
            let fight = RoundStateEvent { new_state: RoundPhase::Fight };
            &&& n <= 60 ==> advance_n(start, n) == (RoundState {
                phase: RoundPhase::Intro,
                frames_in_phase: n as u32,
            }) && events_n(start, n) == Seq::<RoundStateEvent>::empty()
            &&& 61 <= n < 122 ==> advance_n(start, n) == (RoundState {
                phase: RoundPhase::Ready,
                frames_in_phase: (n - 61) as u32,
            }) && events_n(start, n) == seq![ready]
            &&& n >= 122 ==> advance_n(start, n) == (RoundState {
                phase: RoundPhase::Fight,
                frames_in_phase: (n - 122) as u32,
            }) && events_n(start, n) == seq![ready, fight]
        }),
{
    let start = RoundState { phase: RoundPhase::Intro, frames_in_phase: 0 };
    let ready_state = RoundState { phase: RoundPhase::Ready, frames_in_phase: 0 };
    let fight_state = RoundState { phase: RoundPhase::Fight, frames_in_phase: 0 };
    let ready = RoundStateEvent { new_state: RoundPhase::Ready };
    let fight = RoundStateEvent { new_state: RoundPhase::Fight };
    if n <= 60 {
        lemma_quiet_stretch(start, n);
    } else {
        lemma_quiet_stretch(start, 60);
        lemma_timed_phase_ends(RoundPhase::Intro, INTRO_FRAMES, RoundPhase::Ready);
        lemma_events_n_split(start, 60, 1);
        assert(advance_n(start, 61) == ready_state);
        assert(Seq::<RoundStateEvent>::empty() + seq![ready] == seq![ready]);
        assert(events_n(start, 61) == seq![ready]);
        if n < 122 {
            lemma_quiet_stretch(ready_state, (n - 61) as nat);
            lemma_events_n_split(start, 61, (n - 61) as nat);
            assert(seq![ready] + Seq::<RoundStateEvent>::empty() == seq![ready]);
        } else {
            lemma_quiet_stretch(ready_state, 60);
            lemma_timed_phase_ends(RoundPhase::Ready, READY_FRAMES, RoundPhase::Fight);
            lemma_events_n_split(ready_state, 60, 1);
            assert(advance_n(ready_state, 61) == fight_state);
            assert(Seq::<RoundStateEvent>::empty() + seq![fight] == seq![fight]);
            lemma_events_n_split(start, 61, 61);
            assert(advance_n(start, 122) == fight_state);
            assert(seq![ready] + seq![fight] == seq![ready, fight]);
            assert(events_n(start, 122) == seq![ready, fight]);
            lemma_quiet_stretch(fight_state, (n - 122) as nat);
            lemma_events_n_split(start, 122, (n - 122) as nat);
            assert(seq![ready, fight] + Seq::<RoundStateEvent>::empty() == seq![ready, fight]);
        }
    }
}

proof fn lemma_frames_bound(r: RoundState, k: nat)
    requires
        r.frames_in_phase + k <= u32::MAX,
    ensures
        advance_n(r, k).frames_in_phase <= r.frames_in_phase + k,
        phase_rank(advance_n(r, k).phase) >= phase_rank(r.phase),
    decreases k,
{
    if k > 0 {
        lemma_round_moves_forward(r, false);
        let next = advance_spec(r, false).0;
        lemma_frames_bound(next, (k - 1) as nat);
    }
}

/// Over any run of frames without a KO, the phase never goes back: the
/// phase after `b` frames comes no earlier in the order of play than the
/// phase after `a <= b` frames (while frame counts fit in a `u32`).
pub proof fn lemma_phase_never_goes_back(r: RoundState, a: nat, b: nat)
    requires
        a <= b,
        r.frames_in_phase + b <= u32::MAX,
    ensures
        phase_rank(advance_n(r, a).phase) <= phase_rank(advance_n(r, b).phase),
{
    lemma_frames_bound(r, a);
    lemma_advance_n_split(r, a, (b - a) as nat);
    lemma_frames_bound(advance_n(r, a), (b - a) as nat);
}

/// The rules of one frame of the round, phase by phase: the intro gives way
/// to "ready" once its count passes 60, "ready" to the fight once its count
/// passes 60, the fight to the KO freeze on any frame on which a KO is
/// reported (whatever its count), the KO freeze to the result once its
/// count passes 90, and the result never ends. A change of phase restarts
/// the count at 0 and sends exactly one event naming the new phase; any
/// other frame adds one to the count and sends nothing.
pub proof fn lemma_round_step_rules(r: RoundState, ko_pending: bool)
    requires
        r.frames_in_phase < u32::MAX,
    ensures
        ({
            let (next, event) = advance_spec(r, ko_pending);
            let f = r.frames_in_phase + 1;
            let moved_to = |p: RoundPhase|
                next == (RoundState { phase: p, frames_in_phase: 0 }) && event == Some(RoundStateEvent { new_state: p });
            let counted = next == (RoundState { phase: r.phase, frames_in_phase: f as u32 }) && event is None;
            &&& r.phase == RoundPhase::Intro ==> (if f > 60 { moved_to(RoundPhase::Ready) } else { counted })
            &&& r.phase == RoundPhase::Ready ==> (if f > 60 { moved_to(RoundPhase::Fight) } else { counted })
            &&& r.phase == RoundPhase::Fight ==> (if ko_pending { moved_to(RoundPhase::KoFreeze) } else { counted })
            &&& r.phase == RoundPhase::KoFreeze ==> (if f > 90 { moved_to(RoundPhase::Result) } else { counted })
            &&& r.phase == RoundPhase::Result ==> counted
            &&& r.phase != RoundPhase::Fight ==> advance_spec(r, true) == advance_spec(r, false)
        }),
{
}

} // verus!
