use vstd::prelude::*;
use crate::events::{HitEvent, KoEvent};
use crate::health::Health;
use crate::state::{CharacterState, StateMachine, tick_n, lemma_hitstun_recovery, HITSTUN_RECOVERY_FRAMES};
use crate::time_freeze::TimeFreeze;

verus! {

/// A character that hits can land on: its entity id, its health, its state
/// machine if it has one, and the hitstop it is under, if any.
#[derive(Clone, Copy, Debug, PartialEq, Eq, Structural)]
pub struct Combatant {
    pub entity: u64,
    pub health: Health,
    pub state_machine: Option<StateMachine>,
    pub time_freeze: Option<TimeFreeze>,
}

/// Hitstop given to a victim is the hit's hitstun, capped at this many frames.
pub const HITSTOP_CAP: u16 = 15;

/// `i` is the first position of a combatant with entity id `id`.
pub open spec fn is_first_with_id(chars: Seq<Combatant>, id: u64, i: int) -> bool {
    &&& 0 <= i < chars.len()
    &&& chars[i].entity == id
    &&& forall|j: int| 0 <= j < i ==> chars[j].entity != id
}

/// Some combatant has entity id `id`.
pub open spec fn has_id(chars: Seq<Combatant>, id: u64) -> bool {
    exists|i: int| 0 <= i < chars.len() && chars[i].entity == id
}

/// The position of the first combatant with id `id` (meaningful when `has_id`).
pub open spec fn first_with_id(chars: Seq<Combatant>, id: u64) -> int {
    choose|i: int| is_first_with_id(chars, id, i)
}

/// Hitstop frames given for a hit with `hitstun` frames of hitstun.
pub open spec fn hitstop_frames(hitstun: u16) -> i16 {
    if hitstun < HITSTOP_CAP { hitstun as i16 } else { HITSTOP_CAP as i16 }
}

/// The victim's health after the hit can be held in an `i32`.
pub open spec fn hit_fits(chars: Seq<Combatant>, hit: HitEvent) -> bool {
    has_id(chars, hit.victim) ==> {
        let c = chars[first_with_id(chars, hit.victim)];
        i32::MIN <= c.health.current - hit.damage <= i32::MAX
    }
}

/// The victim after taking `hit`: damage applied, put into hitstun (frame 0)
/// when it is still standing and has a state machine, and given hitstop.
pub open spec fn struck(c: Combatant, hit: HitEvent) -> Combatant {
    let h = (c.health.current - hit.damage) as i32;
    Combatant {
        entity: c.entity,
        health: Health { current: h, max: c.health.max },
        state_machine: if h > 0 && c.state_machine is Some {
            Some(StateMachine { state: CharacterState::Hitstun, frames_in_state: 0 })
        } else {
            c.state_machine
        },
        time_freeze: Some(TimeFreeze { frames_remaining: hitstop_frames(hit.hitstun_frames) }),
    }
}

/// One hit applied to the characters: a hit on an entity that is not a
/// character changes nothing; otherwise the victim is struck, and a KO is
/// reported when its health is at zero or below.
pub open spec fn apply_hit_spec(chars: Seq<Combatant>, hit: HitEvent) -> (Seq<Combatant>, Option<KoEvent>) {
    if has_id(chars, hit.victim) {
        let i = first_with_id(chars, hit.victim);
        let c = struck(chars[i], hit);
        (
            chars.update(i, c),
            if c.health.current <= 0 {
                Some(KoEvent { winner: hit.attacker, loser: hit.victim })
            } else {
                None
            },
        )
    } else {
        (chars, None)
    }
}

/// `Some(x)` as a one-element sequence, `None` as the empty one.
pub open spec fn option_seq<T>(o: Option<T>) -> Seq<T> {
    match o {
        Some(x) => seq![x],
        None => Seq::empty(),
    }
}

/// The hits applied in order, and the KOs they report, in order.
pub open spec fn resolve_spec(chars: Seq<Combatant>, hits: Seq<HitEvent>) -> (Seq<Combatant>, Seq<KoEvent>)
    decreases hits.len(),
{
    if hits.len() == 0 {
        (chars, Seq::empty())
    } else {
        let (next, ko) = apply_hit_spec(chars, hits[0]);
        let (last, kos) = resolve_spec(next, hits.drop_first());
        (last, option_seq(ko) + kos)
    }
}

/// No hit in the sequence takes a victim's health out of `i32` range.
pub open spec fn hits_fit_spec(chars: Seq<Combatant>, hits: Seq<HitEvent>) -> bool
    decreases hits.len(),
{
    hits.len() == 0 || (hit_fits(chars, hits[0]) && hits_fit_spec(
        apply_hit_spec(chars, hits[0]).0,
        hits.drop_first(),
    ))
}

/// The position of the first combatant with entity id `id`, if any.
pub fn find_combatant(chars: &Vec<Combatant>, id: u64) -> (res: Option<usize>)
    ensures
        res matches Some(i) ==> is_first_with_id(chars@, id, i as int),
        res is None <==> !has_id(chars@, id),
{
    let mut i: usize = 0;
    while i < chars.len()
        invariant
            i <= chars.len(),
            forall|j: int| 0 <= j < i ==> chars@[j].entity != id,
        decreases chars.len() - i,
    {
        if chars[i].entity == id {
            return Some(i);
        }
        i = i + 1;
    }
    None
}

proof fn lemma_first_unique(chars: Seq<Combatant>, id: u64, i: int)
    requires
        is_first_with_id(chars, id, i),
    ensures
        has_id(chars, id),
        first_with_id(chars, id) == i,
{
    let k = first_with_id(chars, id);
    assert(is_first_with_id(chars, id, k));
    if k < i {
        assert(chars[k].entity != id);
    }
    if i < k {
        assert(chars[i].entity != id);
    }
}

/// Applies one hit: damage to the victim, hitstun if it is still standing,
/// hitstop in any case, and a KO event when its health is at zero or below.
pub fn apply_hit(chars: &mut Vec<Combatant>, hit: &HitEvent) -> (ko: Option<KoEvent>)
    requires
        hit_fits(old(chars)@, *hit),
    ensures
        (final(chars)@, ko) == apply_hit_spec(old(chars)@, *hit),
{
    match find_combatant(chars, hit.victim) {
        None => None,
        Some(i) => {
            proof {
                lemma_first_unique(chars@, hit.victim, i as int);
            }
            let c = chars[i];
            let current = c.health.current - hit.damage;
            let state_machine = if current > 0 && c.state_machine.is_some() {
                Some(StateMachine { state: CharacterState::Hitstun, frames_in_state: 0 })
            } else {
                c.state_machine
            };
            let frames: i16 = if hit.hitstun_frames < HITSTOP_CAP {
                hit.hitstun_frames as i16
            } else {
                HITSTOP_CAP as i16
            };
            let updated = Combatant {
                entity: c.entity,
                health: Health { current, max: c.health.max },
                state_machine,
                time_freeze: Some(TimeFreeze { frames_remaining: frames }),
            };
            chars.set(i, updated);
            if current <= 0 {
                Some(KoEvent { winner: hit.attacker, loser: hit.victim })
            } else {
                None
            }
        },
    }
}

/// Applies every hit in order and returns the KO events they cause, in order.
pub fn resolve_hits(chars: &mut Vec<Combatant>, hits: &Vec<HitEvent>) -> (kos: Vec<KoEvent>)
    requires
        hits_fit_spec(old(chars)@, hits@),
    ensures
        (final(chars)@, kos@) == resolve_spec(old(chars)@, hits@),
{
    let ghost start = chars@;
    let mut kos: Vec<KoEvent> = Vec::new();
    let mut i: usize = 0;
    assert(hits@.skip(0) == hits@);
    while i < hits.len()
        invariant
            i <= hits.len(),
            hits_fit_spec(chars@, hits@.skip(i as int)),
            resolve_spec(start, hits@) == (
                resolve_spec(chars@, hits@.skip(i as int)).0,
                kos@ + resolve_spec(chars@, hits@.skip(i as int)).1,
            ),
        decreases hits.len() - i,
    {
        let ghost rest = hits@.skip(i as int);
        assert(rest[0] == hits@[i as int]);
        assert(rest.drop_first() == hits@.skip(i + 1));
        let ghost before = chars@;
        let ko = apply_hit(chars, &hits[i]);
        let ghost kos_before = kos@;
        match ko {
            Some(k) => {
                kos.push(k);
            },
            None => {},
        }
        proof {
            let tail = resolve_spec(chars@, hits@.skip(i + 1));
            assert(resolve_spec(before, rest) == (tail.0, option_seq(ko) + tail.1));
            assert(kos@ == kos_before + option_seq(ko));
            assert(kos_before + (option_seq(ko) + tail.1) == kos@ + tail.1);
        }
        i = i + 1;
    }
    assert(hits@.skip(i as int).len() == 0);
    kos
}

/// Copies the characters one by one.
fn copy_combatants(chars: &Vec<Combatant>) -> (res: Vec<Combatant>)
    ensures
        res@ == chars@,
{
    let mut res: Vec<Combatant> = Vec::new();
    let mut i: usize = 0;
    while i < chars.len()
        invariant
            i <= chars.len(),
            res@ == chars@.take(i as int),
        decreases chars.len() - i,
    {
        res.push(chars[i]);
        assert(chars@.take(i + 1) == chars@.take(i as int).push(chars@[i as int]));
        i = i + 1;
    }
    assert(chars@.take(chars.len() as int) == chars@);
    res
}

/// Whether applying the hits in order keeps every victim's health within
/// `i32` range, which `resolve_hits` needs.
pub fn hits_fit(chars: &Vec<Combatant>, hits: &Vec<HitEvent>) -> (ok: bool)
    ensures
        ok == hits_fit_spec(chars@, hits@),
{
    let mut cur = copy_combatants(chars);
    let mut i: usize = 0;
    assert(hits@.skip(0) == hits@);
    while i < hits.len()
        invariant
            i <= hits.len(),
            hits_fit_spec(chars@, hits@) == hits_fit_spec(cur@, hits@.skip(i as int)),
        decreases hits.len() - i,
    {
        let ghost rest = hits@.skip(i as int);
        assert(rest[0] == hits@[i as int]);
        assert(rest.drop_first() == hits@.skip(i + 1));
        let hit = hits[i];
        match find_combatant(&cur, hit.victim) {
            Some(k) => {
                proof {
                    lemma_first_unique(cur@, hit.victim, k as int);
                }
                let h = cur[k].health.current as i64 - hit.damage as i64;
                if h < i32::MIN as i64 || h > i32::MAX as i64 {
                    return false;
                }
            },
            None => {},
        }
        let _ = apply_hit(&mut cur, &hit);
        i = i + 1;
    }
    assert(hits@.skip(i as int).len() == 0);
    true
}

/// No two combatants share an entity id.
pub open spec fn unique_ids(chars: Seq<Combatant>) -> bool {
    forall|i: int, j: int| 0 <= i < chars.len() && 0 <= j < chars.len() && i != j ==> chars[i].entity != chars[j].entity
}

/// The total damage the hits deal to entity `id`.
pub open spec fn damage_to(hits: Seq<HitEvent>, id: u64) -> int
    decreases hits.len(),
{
    if hits.len() == 0 {
        0
    } else {
        (if hits[0].victim == id { hits[0].damage as int } else { 0 }) + damage_to(hits.drop_first(), id)
    }
}

proof fn lemma_apply_hit_shape(chars: Seq<Combatant>, hit: HitEvent)
    requires
        hit_fits(chars, hit),
        unique_ids(chars),
    ensures
        ({
            let next = apply_hit_spec(chars, hit).0;
            &&& next.len() == chars.len()
            &&& unique_ids(next)
            &&& forall|k: int| 0 <= k < chars.len() ==> {
                &&& #[trigger] next[k].entity == chars[k].entity
                &&& next[k].health.max == chars[k].health.max
                &&& next[k].health.current == chars[k].health.current - (if hit.victim == chars[k].entity {
                    hit.damage as int
                } else {
                    0
                })
                &&& next[k].time_freeze == chars[k].time_freeze || (next[k].time_freeze matches Some(f)
                    && 0 <= f.frames_remaining <= HITSTOP_CAP)
            }
        }),
{
    if has_id(chars, hit.victim) {
        let i = first_with_id(chars, hit.victim);
        lemma_first_exists(chars, hit.victim);
        let next = apply_hit_spec(chars, hit).0;
        assert forall|k: int| 0 <= k < chars.len() && k != i implies chars[k].entity != hit.victim by {
        }
        assert(next.len() == chars.len());
        assert forall|a: int, b: int| 0 <= a < next.len() && 0 <= b < next.len() && a != b implies next[a].entity
            != next[b].entity by {
            assert(next[a].entity == chars[a].entity);
            assert(next[b].entity == chars[b].entity);
        }
    } else {
        assert forall|k: int| 0 <= k < chars.len() implies chars[k].entity != hit.victim by {
            if chars[k].entity == hit.victim {
                assert(has_id(chars, hit.victim));
            }
        }
    }
}

proof fn lemma_first_from_witness(chars: Seq<Combatant>, id: u64, w: int)
    requires
        0 <= w < chars.len(),
        chars[w].entity == id,
    ensures
        exists|i: int| is_first_with_id(chars, id, i),
    decreases w,
{
    if exists|j: int| 0 <= j < w && chars[j].entity == id {
        let j = choose|j: int| 0 <= j < w && chars[j].entity == id;
        lemma_first_from_witness(chars, id, j);
    } else {
        assert(is_first_with_id(chars, id, w));
    }
}

proof fn lemma_first_exists(chars: Seq<Combatant>, id: u64)
    requires
        has_id(chars, id),
    ensures
        is_first_with_id(chars, id, first_with_id(chars, id)),
{
    let w = choose|i: int| 0 <= i < chars.len() && chars[i].entity == id;
    lemma_first_from_witness(chars, id, w);
}

/// Damage is conserved: when no two characters share an id, each character
/// ends with its starting health minus the total damage of the hits aimed at
/// it; ids, order and maximum health are untouched.
pub proof fn lemma_total_damage(chars: Seq<Combatant>, hits: Seq<HitEvent>)
    requires
        unique_ids(chars),
        hits_fit_spec(chars, hits),
    ensures
        ({
            let last = resolve_spec(chars, hits).0;
            &&& last.len() == chars.len()
            &&& forall|k: int| 0 <= k < chars.len() ==> {
                &&& #[trigger] last[k].entity == chars[k].entity
                &&& last[k].health.max == chars[k].health.max
                &&& last[k].health.current == chars[k].health.current - damage_to(hits, chars[k].entity)
            }
        }),
    decreases hits.len(),
{
    if hits.len() > 0 {
        let next = apply_hit_spec(chars, hits[0]).0;
        lemma_apply_hit_shape(chars, hits[0]);
        lemma_total_damage(next, hits.drop_first());
        let last = resolve_spec(chars, hits).0;
        assert forall|k: int| 0 <= k < chars.len() implies {
            &&& #[trigger] last[k].entity == chars[k].entity
            &&& last[k].health.max == chars[k].health.max
            &&& last[k].health.current == chars[k].health.current - damage_to(hits, chars[k].entity)
        } by {
            assert(next[k].entity == chars[k].entity);
        }
    }
}

/// Hitstop never exceeds its cap: after any hits, each character keeps the
/// hitstop it had, or is frozen for between 0 and `HITSTOP_CAP` frames.
pub proof fn lemma_hitstop_capped(chars: Seq<Combatant>, hits: Seq<HitEvent>)
    requires
        unique_ids(chars),
        hits_fit_spec(chars, hits),
    ensures
        ({
            let last = resolve_spec(chars, hits).0;
            &&& last.len() == chars.len()
            &&& forall|k: int| 0 <= k < chars.len() ==> #[trigger] last[k].time_freeze == chars[k].time_freeze
                || (last[k].time_freeze matches Some(f) && 0 <= f.frames_remaining <= HITSTOP_CAP)
        }),
    decreases hits.len(),
{
    if hits.len() > 0 {
        let next = apply_hit_spec(chars, hits[0]).0;
        lemma_apply_hit_shape(chars, hits[0]);
        lemma_hitstop_capped(next, hits.drop_first());
        let last = resolve_spec(chars, hits).0;
        assert forall|k: int| 0 <= k < chars.len() implies #[trigger] last[k].time_freeze == chars[k].time_freeze
            || (last[k].time_freeze matches Some(f) && 0 <= f.frames_remaining <= HITSTOP_CAP) by {
            assert(next[k].time_freeze == chars[k].time_freeze || (next[k].time_freeze matches Some(f)
                && 0 <= f.frames_remaining <= HITSTOP_CAP));
        }
    }
}

/// Every KO is reported by a hit: there are never more KOs than hits, and
/// each KO names the attacker and the victim of one of the hits.
pub proof fn lemma_kos_come_from_hits(chars: Seq<Combatant>, hits: Seq<HitEvent>)
    ensures
        ({
            let kos = resolve_spec(chars, hits).1;
            &&& kos.len() <= hits.len()
            &&& forall|m: int| #![trigger kos[m]] 0 <= m < kos.len() ==> exists|j: int| 0 <= j < hits.len()
                && #[trigger] hits[j].attacker == kos[m].winner && hits[j].victim == kos[m].loser
        }),
    decreases hits.len(),
{
    if hits.len() > 0 {
        let (next, ko) = apply_hit_spec(chars, hits[0]);
        let rest = hits.drop_first();
        lemma_kos_come_from_hits(next, rest);
        let tail = resolve_spec(next, rest).1;
        let kos = resolve_spec(chars, hits).1;
        assert(kos == option_seq(ko) + tail);
        assert forall|m: int| #![trigger kos[m]] 0 <= m < kos.len() implies exists|j: int| 0 <= j < hits.len()
            && #[trigger] hits[j].attacker == kos[m].winner && hits[j].victim == kos[m].loser by {
            if ko is Some && m == 0 {
                assert(hits[0].attacker == kos[m].winner);
            } else {
                let mm = m - option_seq(ko).len();
                assert(kos[m] == tail[mm]);
                let j = choose|j: int| 0 <= j < rest.len() && #[trigger] rest[j].attacker == tail[mm].winner
                    && rest[j].victim == tail[mm].loser;
                assert(hits[j + 1] == rest[j]);
            }
        }
    }
}

/// A hit that leaves its victim standing stuns it for a fixed time: the
/// victim's state machine is in hitstun, stays there for its next 30
/// updates and is back to idle after 31.
pub proof fn lemma_hit_stuns_then_recovers(c: Combatant, hit: HitEvent, k: nat)
    requires
        c.state_machine is Some,
        0 < c.health.current - hit.damage <= i32::MAX,
    ensures
        struck(c, hit).state_machine == Some(StateMachine { state: CharacterState::Hitstun, frames_in_state: 0 }),
        k <= HITSTUN_RECOVERY_FRAMES ==> tick_n(struck(c, hit).state_machine.unwrap(), k).state
            == CharacterState::Hitstun,
        tick_n(struck(c, hit).state_machine.unwrap(), (HITSTUN_RECOVERY_FRAMES + 1) as nat) == (StateMachine {
            state: CharacterState::Idle,
            frames_in_state: 0,
        }),
{
    lemma_hitstun_recovery(k);
}

/// What one hit does, for any characters and any hit: when the victim is a
/// character (the first one with the victim's id), that character alone
/// changes. Its health drops by exactly the damage (its id and maximum stay);
/// its hitstop becomes the hit's hitstun capped at 15 frames, replacing any
/// hitstop it had; it is put into hitstun at frame 0 exactly when it is
/// still above zero health and has a state machine, and keeps its state
/// machine otherwise; and a KO naming the attacker and victim is reported
/// exactly when its health is at zero or below. A hit on anything else
/// changes nothing and reports nothing.
pub proof fn lemma_hit_rules(chars: Seq<Combatant>, hit: HitEvent)
    requires
        hit_fits(chars, hit),
    ensures
        ({
            let (next, ko) = apply_hit_spec(chars, hit);
            &&& !(exists|k: int| 0 <= k < chars.len() && #[trigger] chars[k].entity == hit.victim) ==> next == chars
                && ko is None
            &&& forall|i: int| #![trigger chars[i]]
                0 <= i < chars.len() && chars[i].entity == hit.victim && (forall|j: int|
                    0 <= j < i ==> #[trigger] chars[j].entity != hit.victim) ==> {
                    let h = chars[i].health.current - hit.damage;
                    &&& next.len() == chars.len()
                    &&& forall|k: int| 0 <= k < chars.len() && k != i ==> #[trigger] next[k] == chars[k]
                    &&& next[i].entity == chars[i].entity
                    &&& next[i].health.max == chars[i].health.max
                    &&& next[i].health.current == h
                    &&& next[i].time_freeze == Some(
                        TimeFreeze {
                            frames_remaining: if hit.hitstun_frames < 15 { hit.hitstun_frames as i16 } else { 15 },
                        },
                    )
                    &&& next[i].state_machine == if h > 0 && chars[i].state_machine is Some {
                        Some(StateMachine { state: CharacterState::Hitstun, frames_in_state: 0 })
                    } else {
                        chars[i].state_machine
                    }
                    &&& ko == if h <= 0 {
                        Some(KoEvent { winner: hit.attacker, loser: hit.victim })
                    } else {
                        None
                    }
                }
        }),
{
    assert forall|i: int| #![trigger chars[i]]
        0 <= i < chars.len() && chars[i].entity == hit.victim && (forall|j: int|
            0 <= j < i ==> #[trigger] chars[j].entity != hit.victim) implies {
        let (next, ko) = apply_hit_spec(chars, hit);
        let h = chars[i].health.current - hit.damage;
        &&& next.len() == chars.len()
        &&& forall|k: int| 0 <= k < chars.len() && k != i ==> #[trigger] next[k] == chars[k]
        &&& next[i].entity == chars[i].entity
        &&& next[i].health.max == chars[i].health.max
        &&& next[i].health.current == h
        &&& next[i].time_freeze == Some(
            TimeFreeze { frames_remaining: if hit.hitstun_frames < 15 { hit.hitstun_frames as i16 } else { 15 } },
        )
        &&& next[i].state_machine == if h > 0 && chars[i].state_machine is Some {
            Some(StateMachine { state: CharacterState::Hitstun, frames_in_state: 0 })
        } else {
            chars[i].state_machine
        }
        &&& ko == if h <= 0 {
            Some(KoEvent { winner: hit.attacker, loser: hit.victim })
        } else {
            None
        }
    } by {
        assert(is_first_with_id(chars, hit.victim, i));
        lemma_first_unique(chars, hit.victim, i);
    }
}

} // verus!
