use vstd::prelude::*;

verus! {

/// Hitstop on one entity: the number of frames it stays frozen.
#[derive(Clone, Copy, Debug, PartialEq, Eq, Structural)]
pub struct TimeFreeze {
    pub frames_remaining: i16,
}

impl Default for TimeFreeze {
    fn default() -> (res: TimeFreeze)
        ensures
            res.frames_remaining == 0,
    {
        TimeFreeze { frames_remaining: 0 }
    }
}

/// An entity under hitstop.
#[derive(Clone, Copy, Debug, PartialEq, Eq, Structural)]
pub struct FrozenEntity {
    pub entity: u64,
    pub freeze: TimeFreeze,
}

/// What one hitstop update reports: the entities whose hitstop ran out (to
/// have it removed), and whether any entity is still frozen.
#[derive(Debug)]
pub struct FreezeStep {
    pub thawed: Vec<u64>,
    pub any_frozen: bool,
}

/// The entity with one frame less of hitstop.
pub open spec fn counted_down(f: FrozenEntity) -> FrozenEntity {
    FrozenEntity { entity: f.entity, freeze: TimeFreeze { frames_remaining: (f.freeze.frames_remaining - 1) as i16 } }
}

/// The entities still frozen after one update, counted down, in order.
pub open spec fn still_frozen(s: Seq<FrozenEntity>) -> Seq<FrozenEntity>
    decreases s.len(),
{
    if s.len() == 0 {
        Seq::empty()
    } else {
        let f = counted_down(s.last());
        still_frozen(s.drop_last()) + if f.freeze.frames_remaining > 0 {
            seq![f]
        } else {
            Seq::empty()
        }
    }
}

/// The ids of the entities whose hitstop runs out in this update, in order.
pub open spec fn thawed_ids(s: Seq<FrozenEntity>) -> Seq<u64>
    decreases s.len(),
{
    if s.len() == 0 {
        Seq::empty()
    } else {
        let f = counted_down(s.last());
        thawed_ids(s.drop_last()) + if f.freeze.frames_remaining > 0 {
            Seq::empty()
        } else {
            seq![f.entity]
        }
    }
}

/// Every hitstop can be counted down without leaving `i16` range.
pub open spec fn can_count_down(s: Seq<FrozenEntity>) -> bool {
    forall|i: int| 0 <= i < s.len() ==> #[trigger] s[i].freeze.frames_remaining > i16::MIN
}

/// Counts every hitstop down by one frame. Entities whose hitstop reaches
/// zero or below leave the list and are reported as thawed; the others stay,
/// in order. `any_frozen` tells whether any entity is still frozen.
pub fn update_time_freeze(frozen: &mut Vec<FrozenEntity>) -> (step: FreezeStep)
    requires
        can_count_down(old(frozen)@),
    ensures
        final(frozen)@ == still_frozen(old(frozen)@),
        step.thawed@ == thawed_ids(old(frozen)@),
        step.any_frozen == (final(frozen)@.len() > 0),
{
    let ghost start = frozen@;
    let mut kept: Vec<FrozenEntity> = Vec::new();
    let mut thawed: Vec<u64> = Vec::new();
    let mut any_frozen = false;
    let mut i: usize = 0;
    while i < frozen.len()
        invariant
            frozen@ == start,
            can_count_down(start),
            i <= frozen.len(),
            kept@ == still_frozen(start.take(i as int)),
            thawed@ == thawed_ids(start.take(i as int)),
            any_frozen == (kept@.len() > 0),
        decreases frozen.len() - i,
    {
        assert(start.take(i + 1).drop_last() == start.take(i as int));
        assert(start.take(i + 1).last() == start[i as int]);
        let f = frozen[i];
        assert(start[i as int].freeze.frames_remaining > i16::MIN);
        let remaining = f.freeze.frames_remaining - 1;
        if remaining <= 0 {
            thawed.push(f.entity);
        } else {
            kept.push(FrozenEntity { entity: f.entity, freeze: TimeFreeze { frames_remaining: remaining } });
            any_frozen = true;
        }
        i = i + 1;
    }
    assert(start.take(frozen.len() as int) == start);
    *frozen = kept;
    FreezeStep { thawed, any_frozen }
}

/// The list after `k` updates.
pub open spec fn frozen_after(s: Seq<FrozenEntity>, k: nat) -> Seq<FrozenEntity>
    decreases k,
{
    if k == 0 { s } else { frozen_after(still_frozen(s), (k - 1) as nat) }
}

/// `y` is an entry of `s` counted down, with frames still left.
pub open spec fn kept_from(s: Seq<FrozenEntity>, y: FrozenEntity) -> bool {
    exists|i: int| 0 <= i < s.len() && y == counted_down(s[i]) && y.freeze.frames_remaining > 0
}

proof fn lemma_kept_entries_come_from_list(s: Seq<FrozenEntity>)
    ensures
        forall|j: int| 0 <= j < still_frozen(s).len() ==> kept_from(s, #[trigger] still_frozen(s)[j]),
    decreases s.len(),
{
    if s.len() > 0 {
        let init = s.drop_last();
        lemma_kept_entries_come_from_list(init);
        let f = counted_down(s.last());
        let prev = still_frozen(init);
        let tail = if f.freeze.frames_remaining > 0 { seq![f] } else { Seq::<FrozenEntity>::empty() };
        assert(still_frozen(s) == prev + tail);
        assert forall|j: int| 0 <= j < still_frozen(s).len() implies kept_from(s, #[trigger] still_frozen(s)[j]) by {
            if j < prev.len() {
                assert(still_frozen(s)[j] == prev[j]);
                assert(kept_from(init, prev[j]));
                let i = choose|i: int| 0 <= i < init.len() && prev[j] == counted_down(init[i])
                    && prev[j].freeze.frames_remaining > 0;
                assert(s[i] == init[i]);
            } else {
                assert(still_frozen(s)[j] == f);
                assert(s[s.len() - 1] == s.last());
            }
        }
    }
}

proof fn lemma_list_entries_kept(s: Seq<FrozenEntity>, i: int)
    requires
        0 <= i < s.len(),
        counted_down(s[i]).freeze.frames_remaining > 0,
    ensures
        still_frozen(s).contains(counted_down(s[i])),
    decreases s.len(),
{
    let init = s.drop_last();
    let f = counted_down(s.last());
    let prev = still_frozen(init);
    let tail = if f.freeze.frames_remaining > 0 { seq![f] } else { Seq::<FrozenEntity>::empty() };
    assert(still_frozen(s) == prev + tail);
    if i == s.len() - 1 {
        assert(still_frozen(s)[prev.len() as int] == f);
    } else {
        assert(init[i] == s[i]);
        lemma_list_entries_kept(init, i);
        let k = choose|k: int| 0 <= k < prev.len() && prev[k] == counted_down(s[i]);
        assert(still_frozen(s)[k] == prev[k]);
    }
}

/// Repeated updates never fall out of `i16` range: after any update, every
/// entity left in the list still has at least one frame, so the next update
/// can count it down.
pub proof fn lemma_countdown_stays_possible(s: Seq<FrozenEntity>)
    ensures
        can_count_down(still_frozen(s)),
        forall|j: int| 0 <= j < still_frozen(s).len() ==> #[trigger] still_frozen(s)[j].freeze.frames_remaining > 0,
{
    lemma_kept_entries_come_from_list(s);
    assert forall|j: int| 0 <= j < still_frozen(s).len() implies #[trigger] still_frozen(s)[j].freeze.frames_remaining
        > 0 by {
        assert(kept_from(s, still_frozen(s)[j]));
    }
}

/// Entity `e` is in the list exactly when `m > 0`, and each of its entries
/// then has `m` frames left.
pub open spec fn frozen_for(s: Seq<FrozenEntity>, e: u64, m: int) -> bool {
    &&& forall|i: int| 0 <= i < s.len() && #[trigger] s[i].entity == e ==> m > 0 && s[i].freeze.frames_remaining == m
    &&& m > 0 ==> exists|i: int| 0 <= i < s.len() && #[trigger] s[i] == (FrozenEntity {
        entity: e,
        freeze: TimeFreeze { frames_remaining: m as i16 },
    })
}

proof fn lemma_frozen_for_step(s: Seq<FrozenEntity>, e: u64, m: int)
    requires
        frozen_for(s, e, m),
        m <= i16::MAX,
    ensures
        frozen_for(still_frozen(s), e, if m > 0 { m - 1 } else { 0 }),
{
    let next = still_frozen(s);
    let m2 = if m > 0 { m - 1 } else { 0 };
    lemma_kept_entries_come_from_list(s);
    assert forall|j: int| 0 <= j < next.len() && #[trigger] next[j].entity == e implies m2 > 0
        && next[j].freeze.frames_remaining == m2 by {
        assert(kept_from(s, next[j]));
        let i = choose|i: int| 0 <= i < s.len() && next[j] == counted_down(s[i]) && next[j].freeze.frames_remaining > 0;
        assert(s[i].entity == e);
    }
    if m2 > 0 {
        let i = choose|i: int| 0 <= i < s.len() && #[trigger] s[i] == (FrozenEntity {
            entity: e,
            freeze: TimeFreeze { frames_remaining: m as i16 },
        });
        lemma_list_entries_kept(s, i);
        let k = choose|k: int| 0 <= k < next.len() && next[k] == counted_down(s[i]);
        assert(next[k] == FrozenEntity { entity: e, freeze: TimeFreeze { frames_remaining: m2 as i16 } });
    }
}

/// Hitstop lasts exactly as many updates as it has frames, whatever else is
/// frozen: an entity whose entries in the list all have `n >= 1` frames
/// (and which has one) is still frozen, with `n - k` frames left, after
/// `k < n` updates, and is out of the list from the `n`-th update on.
pub proof fn lemma_freeze_duration_in_list(s: Seq<FrozenEntity>, e: u64, n: i16, k: nat)
    requires
        1 <= n,
        exists|i: int| 0 <= i < s.len() && #[trigger] s[i] == (FrozenEntity {
            entity: e,
            freeze: TimeFreeze { frames_remaining: n },
        }),
        forall|i: int| 0 <= i < s.len() && #[trigger] s[i].entity == e ==> s[i].freeze.frames_remaining == n,
    ensures
        k < n ==> exists|i: int| 0 <= i < frozen_after(s, k).len() && #[trigger] frozen_after(s, k)[i] == (
        FrozenEntity { entity: e, freeze: TimeFreeze { frames_remaining: (n - k) as i16 } }),
        k < n ==> forall|i: int| 0 <= i < frozen_after(s, k).len() && #[trigger] frozen_after(s, k)[i].entity
            == e ==> frozen_after(s, k)[i].freeze.frames_remaining == n - k,
        k >= n ==> forall|i: int| 0 <= i < frozen_after(s, k).len() ==> #[trigger] frozen_after(s, k)[i].entity
            != e,
{
    assert(frozen_for(s, e, n as int));
    lemma_frozen_for_after(s, e, n as int, k);
}

proof fn lemma_frozen_for_after(s: Seq<FrozenEntity>, e: u64, m: int, k: nat)
    requires
        frozen_for(s, e, m),
        0 <= m <= i16::MAX,
    ensures
        frozen_for(frozen_after(s, k), e, if m > k { m - k } else { 0 }),
    decreases k,
{
    if k > 0 {
        lemma_frozen_for_step(s, e, m);
        lemma_frozen_for_after(still_frozen(s), e, if m > 0 { m - 1 } else { 0 }, (k - 1) as nat);
    }
}

/// Whether an entity's hitstop keeps it from moving this frame: it does
/// while frames remain.
pub fn blocks_movement(freeze: &Option<TimeFreeze>) -> (res: bool)
    ensures
        res == (*freeze matches Some(f) && f.frames_remaining > 0),
{
    match freeze {
        Some(f) => f.frames_remaining > 0,
        None => false,
    }
}

} // verus!
