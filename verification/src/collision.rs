use vstd::prelude::*;
use crate::events::HitEvent;

verus! {

/// What hit detection needs to know of one collider-carrying entity: its id,
/// its team if it has one, and whether its box is an attack box (`true`) or a
/// hurt box (`false`).
#[derive(Clone, Copy, Debug, PartialEq, Eq, Structural)]
pub struct HitBody {
    pub entity: u64,
    pub team: Option<u8>,
    pub is_hitbox: bool,
}

/// Damage dealt by every detected hit.
pub const HIT_DAMAGE: i32 = 10;

/// Hitstun frames carried by every detected hit.
pub const HIT_HITSTUN_FRAMES: u16 = 20;

/// Two bodies may hit each other unless both are on teams and on the same one.
pub open spec fn may_interact(a: HitBody, b: HitBody) -> bool {
    !(a.team is Some && b.team is Some && a.team == b.team)
}

/// The hit, if any, between bodies `a` and `b` whose boxes do or do not
/// overlap: an attack box that overlaps a hurt box of another team hits it.
pub open spec fn pair_hit(a: HitBody, b: HitBody, overlapping: bool) -> Option<HitEvent> {
    if !may_interact(a, b) || !overlapping {
        None
    } else if a.is_hitbox && !b.is_hitbox {
        Some(HitEvent { attacker: a.entity, victim: b.entity, damage: HIT_DAMAGE, hitstun_frames: HIT_HITSTUN_FRAMES })
    } else if !a.is_hitbox && b.is_hitbox {
        Some(HitEvent { attacker: b.entity, victim: a.entity, damage: HIT_DAMAGE, hitstun_frames: HIT_HITSTUN_FRAMES })
    } else {
        None
    }
}

/// The hits of pairs `(i, i+1)`, ..., `(i, j-1)`, in that order.
pub open spec fn row_hits(bodies: Seq<HitBody>, overlaps: Seq<Seq<bool>>, i: int, j: int) -> Seq<HitEvent>
    decreases j - i,
{
    if j <= i + 1 {
        Seq::empty()
    } else {
        row_hits(bodies, overlaps, i, j - 1) + match pair_hit(bodies[i], bodies[j - 1], overlaps[i][j - 1]) {
            Some(h) => seq![h],
            None => Seq::empty(),
        }
    }
}

/// The hits of all pairs `(i, j)` with `i < rows` and `i < j < n`, row by row.
pub open spec fn hits_upto(bodies: Seq<HitBody>, overlaps: Seq<Seq<bool>>, rows: int) -> Seq<HitEvent>
    decreases rows,
{
    if rows <= 0 {
        Seq::empty()
    } else {
        hits_upto(bodies, overlaps, rows - 1) + row_hits(bodies, overlaps, rows - 1, bodies.len() as int)
    }
}

/// Checks every unordered pair of bodies once, in index order, and reports a
/// hit for each attack box that overlaps a hurt box of another team (or of
/// an entity without a team). `overlaps[i][j]` says whether the world boxes
/// of bodies `i` and `j` overlap; only entries with `i < j` are read.
pub fn detect_hits(bodies: &Vec<HitBody>, overlaps: &Vec<Vec<bool>>) -> (hits: Vec<HitEvent>)
    requires
        overlaps.len() == bodies.len(),
        forall|i: int| 0 <= i < bodies.len() ==> #[trigger] overlaps[i].len() == bodies.len(),
    ensures
        hits@ == hits_upto(bodies@, overlaps@.map_values(|r: Vec<bool>| r@), bodies.len() as int),
{
    let ghost table = overlaps@.map_values(|r: Vec<bool>| r@);
    let n = bodies.len();
    let mut hits: Vec<HitEvent> = Vec::new();
    let mut i: usize = 0;
    while i < n
        invariant
            n == bodies.len(),
            i <= n,
            table == overlaps@.map_values(|r: Vec<bool>| r@),
            overlaps.len() == n,
            forall|k: int| 0 <= k < n ==> #[trigger] overlaps[k].len() == n,
            hits@ == hits_upto(bodies@, table, i as int),
        decreases n - i,
    {
        let mut j: usize = i + 1;
        let ghost before = hits@;
        while j < n
            invariant
                n == bodies.len(),
                i < n,
                i + 1 <= j <= n,
                table == overlaps@.map_values(|r: Vec<bool>| r@),
                overlaps.len() == n,
                forall|k: int| 0 <= k < n ==> #[trigger] overlaps[k].len() == n,
                hits@ == before + row_hits(bodies@, table, i as int, j as int),
            decreases n - j,
        {
            let a = bodies[i];
            let b = bodies[j];
            assert(overlaps[i as int].len() == n);
            let overlapping = overlaps[i][j];
            assert(table[i as int][j as int] == overlapping);
            let ghost prev = hits@;
            let same_team = match (a.team, b.team) {
                (Some(ta), Some(tb)) => ta == tb,
                _ => false,
            };
            if !same_team && overlapping {
                if a.is_hitbox && !b.is_hitbox {
                    hits.push(
                        HitEvent {
                            attacker: a.entity,
                            victim: b.entity,
                            damage: HIT_DAMAGE,
                            hitstun_frames: HIT_HITSTUN_FRAMES,
                        },
                    );
                } else if !a.is_hitbox && b.is_hitbox {
                    hits.push(
                        HitEvent {
                            attacker: b.entity,
                            victim: a.entity,
                            damage: HIT_DAMAGE,
                            hitstun_frames: HIT_HITSTUN_FRAMES,
                        },
                    );
                }
            }
            proof {
                let r = pair_hit(bodies@[i as int], bodies@[j as int], table[i as int][j as int]);
                assert(row_hits(bodies@, table, i as int, j + 1) == row_hits(bodies@, table, i as int, j as int)
                    + match r {
                    Some(h) => seq![h],
                    None => Seq::<HitEvent>::empty(),
                });
                assert(hits@ == prev + match r {
                    Some(h) => seq![h],
                    None => Seq::<HitEvent>::empty(),
                });
            }
            j = j + 1;
        }
        i = i + 1;
    }
    hits
}

/// Hit `h` is the one reported for bodies `i < j`.
pub open spec fn hit_of_pair(bodies: Seq<HitBody>, overlaps: Seq<Seq<bool>>, h: HitEvent, i: int, j: int) -> bool {
    0 <= i < j < bodies.len() && pair_hit(bodies[i], bodies[j], overlaps[i][j]) == Some(h)
}

/// Hit `h` is reported for some pair `(i, k)`.
pub open spec fn from_row(bodies: Seq<HitBody>, overlaps: Seq<Seq<bool>>, h: HitEvent, i: int) -> bool {
    exists|k: int| hit_of_pair(bodies, overlaps, h, i, k)
}

/// Hit `h` is reported for some pair of bodies.
pub open spec fn from_some_pair(bodies: Seq<HitBody>, overlaps: Seq<Seq<bool>>, h: HitEvent) -> bool {
    exists|i: int| from_row(bodies, overlaps, h, i)
}

proof fn lemma_row_hits_origin(bodies: Seq<HitBody>, overlaps: Seq<Seq<bool>>, i: int, j: int)
    requires
        0 <= i,
        j <= bodies.len(),
    ensures
        forall|m: int| 0 <= m < row_hits(bodies, overlaps, i, j).len() ==> from_row(
            bodies,
            overlaps,
            #[trigger] row_hits(bodies, overlaps, i, j)[m],
            i,
        ),
    decreases j - i,
{
    if j > i + 1 {
        lemma_row_hits_origin(bodies, overlaps, i, j - 1);
        let prev = row_hits(bodies, overlaps, i, j - 1);
        let row = row_hits(bodies, overlaps, i, j);
        let tail = match pair_hit(bodies[i], bodies[j - 1], overlaps[i][j - 1]) {
            Some(h) => seq![h],
            None => Seq::<HitEvent>::empty(),
        };
        assert(row == prev + tail);
        assert forall|m: int| 0 <= m < row.len() implies from_row(bodies, overlaps, #[trigger] row[m], i) by {
            if m < prev.len() {
                assert(row[m] == prev[m]);
            } else {
                assert(row[m] == tail[m - prev.len()]);
                assert(hit_of_pair(bodies, overlaps, row[m], i, j - 1));
            }
        }
    }
}

proof fn lemma_hits_upto_origin(bodies: Seq<HitBody>, overlaps: Seq<Seq<bool>>, rows: int)
    requires
        rows <= bodies.len(),
    ensures
        forall|m: int| 0 <= m < hits_upto(bodies, overlaps, rows).len() ==> from_some_pair(
            bodies,
            overlaps,
            #[trigger] hits_upto(bodies, overlaps, rows)[m],
        ),
    decreases rows,
{
    if rows > 0 {
        lemma_hits_upto_origin(bodies, overlaps, rows - 1);
        lemma_row_hits_origin(bodies, overlaps, rows - 1, bodies.len() as int);
        let prev = hits_upto(bodies, overlaps, rows - 1);
        let row = row_hits(bodies, overlaps, rows - 1, bodies.len() as int);
        let all = hits_upto(bodies, overlaps, rows);
        assert(all == prev + row);
        assert forall|m: int| 0 <= m < all.len() implies from_some_pair(bodies, overlaps, #[trigger] all[m]) by {
            if m < prev.len() {
                assert(all[m] == prev[m]);
            } else {
                assert(all[m] == row[m - prev.len()]);
                assert(from_row(bodies, overlaps, row[m - prev.len()], rows - 1));
            }
        }
    }
}

/// Hit `h` is what bodies `i < j` may produce: their boxes overlap, they
/// are not on the same team, the attacker is the one with the attack box,
/// the victim the one with the hurt box, and the hit carries the fixed damage
/// and hitstun.
pub open spec fn sound_pair(bodies: Seq<HitBody>, overlaps: Seq<Seq<bool>>, h: HitEvent, i: int, j: int) -> bool {
    &&& 0 <= i < j < bodies.len()
    &&& overlaps[i][j]
    &&& may_interact(bodies[i], bodies[j])
    &&& h.damage == HIT_DAMAGE
    &&& h.hitstun_frames == HIT_HITSTUN_FRAMES
    &&& ((bodies[i].is_hitbox && !bodies[j].is_hitbox && h.attacker == bodies[i].entity && h.victim
        == bodies[j].entity) || (!bodies[i].is_hitbox && bodies[j].is_hitbox && h.attacker
        == bodies[j].entity && h.victim == bodies[i].entity))
}

/// Hit `h` is sound for some pair of bodies.
pub open spec fn sound_hit(bodies: Seq<HitBody>, overlaps: Seq<Seq<bool>>, h: HitEvent) -> bool {
    exists|i: int, j: int| sound_pair(bodies, overlaps, h, i, j)
}

/// Every detected hit comes from one pair of bodies `i < j` whose boxes
/// overlap and that are not on the same team; its attacker is the one with
/// the attack box, its victim the one with the hurt box, and it carries the
/// fixed damage and hitstun.
pub proof fn lemma_hits_are_sound(bodies: Seq<HitBody>, overlaps: Seq<Seq<bool>>)
    ensures
        forall|m: int| 0 <= m < hits_upto(bodies, overlaps, bodies.len() as int).len() ==> sound_hit(
            bodies,
            overlaps,
            #[trigger] hits_upto(bodies, overlaps, bodies.len() as int)[m],
        ),
{
    let hits = hits_upto(bodies, overlaps, bodies.len() as int);
    lemma_hits_upto_origin(bodies, overlaps, bodies.len() as int);
    assert forall|m: int| 0 <= m < hits.len() implies sound_hit(bodies, overlaps, #[trigger] hits[m]) by {
        assert(from_some_pair(bodies, overlaps, hits[m]));
        let i = choose|i: int| from_row(bodies, overlaps, hits[m], i);
        let j = choose|j: int| hit_of_pair(bodies, overlaps, hits[m], i, j);
        assert(sound_pair(bodies, overlaps, hits[m], i, j));
    }
}

proof fn lemma_contains_append(s: Seq<HitEvent>, t: Seq<HitEvent>, h: HitEvent)
    requires
        s.contains(h) || t.contains(h),
    ensures
        (s + t).contains(h),
{
    if s.contains(h) {
        let k = choose|k: int| 0 <= k < s.len() && s[k] == h;
        assert((s + t)[k] == h);
    } else {
        let k = choose|k: int| 0 <= k < t.len() && t[k] == h;
        assert((s + t)[s.len() + k] == h);
    }
}

proof fn lemma_row_hits_complete(bodies: Seq<HitBody>, overlaps: Seq<Seq<bool>>, i: int, j: int, k: int)
    requires
        0 <= i < k < j <= bodies.len(),
        pair_hit(bodies[i], bodies[k], overlaps[i][k]) is Some,
    ensures
        row_hits(bodies, overlaps, i, j).contains(pair_hit(bodies[i], bodies[k], overlaps[i][k]).unwrap()),
    decreases j - i,
{
    let h = pair_hit(bodies[i], bodies[k], overlaps[i][k]).unwrap();
    let prev = row_hits(bodies, overlaps, i, j - 1);
    let tail = match pair_hit(bodies[i], bodies[j - 1], overlaps[i][j - 1]) {
        Some(x) => seq![x],
        None => Seq::<HitEvent>::empty(),
    };
    assert(row_hits(bodies, overlaps, i, j) == prev + tail);
    if k < j - 1 {
        lemma_row_hits_complete(bodies, overlaps, i, j - 1, k);
    } else {
        assert(tail[0] == h);
    }
    lemma_contains_append(prev, tail, h);
}

proof fn lemma_hits_upto_complete(bodies: Seq<HitBody>, overlaps: Seq<Seq<bool>>, rows: int, i: int, k: int)
    requires
        0 <= i < rows <= bodies.len(),
        i < k < bodies.len(),
        pair_hit(bodies[i], bodies[k], overlaps[i][k]) is Some,
    ensures
        hits_upto(bodies, overlaps, rows).contains(pair_hit(bodies[i], bodies[k], overlaps[i][k]).unwrap()),
    decreases rows,
{
    let h = pair_hit(bodies[i], bodies[k], overlaps[i][k]).unwrap();
    let prev = hits_upto(bodies, overlaps, rows - 1);
    let row = row_hits(bodies, overlaps, rows - 1, bodies.len() as int);
    assert(hits_upto(bodies, overlaps, rows) == prev + row);
    if i < rows - 1 {
        lemma_hits_upto_complete(bodies, overlaps, rows - 1, i, k);
    } else {
        lemma_row_hits_complete(bodies, overlaps, i, bodies.len() as int, k);
    }
    lemma_contains_append(prev, row, h);
}

/// No hit is missed: for every pair of bodies `i < j` of which one has an
/// attack box and the other a hurt box, whose boxes overlap and that are not
/// on the same team, the hit of the one on the other is reported.
pub proof fn lemma_hits_are_complete(bodies: Seq<HitBody>, overlaps: Seq<Seq<bool>>, i: int, j: int)
    requires
        0 <= i < j < bodies.len(),
        overlaps[i][j],
        may_interact(bodies[i], bodies[j]),
        bodies[i].is_hitbox != bodies[j].is_hitbox,
    ensures
        hits_upto(bodies, overlaps, bodies.len() as int).contains(
            if bodies[i].is_hitbox {
                HitEvent {
                    attacker: bodies[i].entity,
                    victim: bodies[j].entity,
                    damage: HIT_DAMAGE,
                    hitstun_frames: HIT_HITSTUN_FRAMES,
                }
            } else {
                HitEvent {
                    attacker: bodies[j].entity,
                    victim: bodies[i].entity,
                    damage: HIT_DAMAGE,
                    hitstun_frames: HIT_HITSTUN_FRAMES,
                }
            },
        ),
{
    lemma_hits_upto_complete(bodies, overlaps, bodies.len() as int, i, j);
}

/// Bodies `i` and `j` make a hit: their boxes overlap, they are not both on
/// teams and on the same one, and exactly one of them has an attack box.
pub open spec fn qualifies(bodies: Seq<HitBody>, overlaps: Seq<Seq<bool>>, i: int, j: int) -> bool {
    &&& overlaps[i][j]
    &&& !(bodies[i].team is Some && bodies[j].team is Some && bodies[i].team == bodies[j].team)
    &&& bodies[i].is_hitbox != bodies[j].is_hitbox
}

/// The hit made by bodies `i` and `j`: the one with the attack box hits the
/// other for 10 damage and 20 frames of hitstun.
pub open spec fn hit_of(bodies: Seq<HitBody>, i: int, j: int) -> HitEvent {
    if bodies[i].is_hitbox {
        HitEvent { attacker: bodies[i].entity, victim: bodies[j].entity, damage: 10, hitstun_frames: 20 }
    } else {
        HitEvent { attacker: bodies[j].entity, victim: bodies[i].entity, damage: 10, hitstun_frames: 20 }
    }
}

/// The pairs `(i, k)` with `i < k < j` that make a hit, by increasing `k`.
pub open spec fn row_pairs(bodies: Seq<HitBody>, overlaps: Seq<Seq<bool>>, i: int, j: int) -> Seq<(int, int)>
    decreases j - i,
{
    if j <= i + 1 {
        Seq::empty()
    } else {
        row_pairs(bodies, overlaps, i, j - 1) + if qualifies(bodies, overlaps, i, j - 1) {
            seq![(i, j - 1)]
        } else {
            Seq::empty()
        }
    }
}

/// The pairs `(i, k)` with `i < rows` and `i < k < n` that make a hit, row by
/// row.
pub open spec fn pairs_upto(bodies: Seq<HitBody>, overlaps: Seq<Seq<bool>>, rows: int) -> Seq<(int, int)>
    decreases rows,
{
    if rows <= 0 {
        Seq::empty()
    } else {
        pairs_upto(bodies, overlaps, rows - 1) + row_pairs(bodies, overlaps, rows - 1, bodies.len() as int)
    }
}

/// Pair `p` comes before pair `q` in index order.
pub open spec fn pair_before(p: (int, int), q: (int, int)) -> bool {
    p.0 < q.0 || (p.0 == q.0 && p.1 < q.1)
}

/// Entry `m` of the hits is the hit of entry `m` of the pairs, which make a hit.
pub open spec fn matches_pair(
    bodies: Seq<HitBody>,
    overlaps: Seq<Seq<bool>>,
    pairs: Seq<(int, int)>,
    hits: Seq<HitEvent>,
    m: int,
) -> bool {
    &&& 0 <= pairs[m].0 < pairs[m].1 < bodies.len()
    &&& qualifies(bodies, overlaps, pairs[m].0, pairs[m].1)
    &&& hits[m] == hit_of(bodies, pairs[m].0, pairs[m].1)
}

proof fn lemma_row_pairs(bodies: Seq<HitBody>, overlaps: Seq<Seq<bool>>, i: int, j: int)
    requires
        0 <= i,
        j <= bodies.len(),
    ensures
        ({
            let rp = row_pairs(bodies, overlaps, i, j);
            let rh = row_hits(bodies, overlaps, i, j);
            &&& rh.len() == rp.len()
            &&& forall|m: int| 0 <= m < rp.len() ==> #[trigger] matches_pair(bodies, overlaps, rp, rh, m) && rp[m].0 == i
                && rp[m].1 < j
            &&& forall|m1: int, m2: int| 0 <= m1 < m2 < rp.len() ==> #[trigger] rp[m1].1 < #[trigger] rp[m2].1
            &&& forall|k: int| i < k < j && #[trigger] qualifies(bodies, overlaps, i, k) ==> rp.contains((i, k))
        }),
    decreases j - i,
{
    if j > i + 1 {
        lemma_row_pairs(bodies, overlaps, i, j - 1);
        let pp = row_pairs(bodies, overlaps, i, j - 1);
        let ph = row_hits(bodies, overlaps, i, j - 1);
        let rp = row_pairs(bodies, overlaps, i, j);
        let rh = row_hits(bodies, overlaps, i, j);
        let q = qualifies(bodies, overlaps, i, j - 1);
        let tp = if q { seq![(i, j - 1)] } else { Seq::<(int, int)>::empty() };
        let th = match pair_hit(bodies[i], bodies[j - 1], overlaps[i][j - 1]) {
            Some(h) => seq![h],
            None => Seq::<HitEvent>::empty(),
        };
        assert(rp == pp + tp);
        assert(rh == ph + th);
        if q {
            assert(pair_hit(bodies[i], bodies[j - 1], overlaps[i][j - 1]) == Some(hit_of(bodies, i, j - 1)));
        } else {
            assert(pair_hit(bodies[i], bodies[j - 1], overlaps[i][j - 1]) is None);
        }
        assert forall|m: int| 0 <= m < rp.len() implies #[trigger] matches_pair(bodies, overlaps, rp, rh, m) && rp[m].0
            == i && rp[m].1 < j by {
            if m < pp.len() {
                assert(matches_pair(bodies, overlaps, pp, ph, m));
                assert(rp[m] == pp[m]);
                assert(rh[m] == ph[m]);
            } else {
                assert(rp[m] == (i, j - 1));
                assert(rh[m] == th[0]);
            }
        }
        assert forall|m1: int, m2: int| 0 <= m1 < m2 < rp.len() implies #[trigger] rp[m1].1 < #[trigger] rp[m2].1 by {
            assert(rp[m1] == pp[m1]);
            if m2 < pp.len() {
                assert(rp[m2] == pp[m2]);
                assert(pp[m1].1 < pp[m2].1);
            } else {
                assert(matches_pair(bodies, overlaps, pp, ph, m1));
            }
        }
        assert forall|k: int| i < k < j && #[trigger] qualifies(bodies, overlaps, i, k) implies rp.contains((i, k)) by {
            if k < j - 1 {
                assert(pp.contains((i, k)));
                let x = choose|x: int| 0 <= x < pp.len() && pp[x] == (i, k);
                assert(rp[x] == (i, k));
            } else {
                assert(rp[pp.len() as int] == (i, k));
            }
        }
    }
}

proof fn lemma_pairs_upto(bodies: Seq<HitBody>, overlaps: Seq<Seq<bool>>, rows: int)
    requires
        0 <= rows <= bodies.len(),
    ensures
        ({
            let pu = pairs_upto(bodies, overlaps, rows);
            let hu = hits_upto(bodies, overlaps, rows);
            &&& hu.len() == pu.len()
            &&& forall|m: int| 0 <= m < pu.len() ==> #[trigger] matches_pair(bodies, overlaps, pu, hu, m) && pu[m].0 < rows
            &&& forall|m1: int, m2: int| 0 <= m1 < m2 < pu.len() ==> pair_before(#[trigger] pu[m1], #[trigger] pu[m2])
            &&& forall|i: int, k: int| 0 <= i < rows && i < k < bodies.len() && #[trigger] qualifies(bodies, overlaps, i, k)
                ==> pu.contains((i, k))
        }),
    decreases rows,
{
    if rows > 0 {
        let n = bodies.len() as int;
        lemma_pairs_upto(bodies, overlaps, rows - 1);
        lemma_row_pairs(bodies, overlaps, rows - 1, n);
        let pp = pairs_upto(bodies, overlaps, rows - 1);
        let ph = hits_upto(bodies, overlaps, rows - 1);
        let rp = row_pairs(bodies, overlaps, rows - 1, n);
        let rh = row_hits(bodies, overlaps, rows - 1, n);
        let pu = pairs_upto(bodies, overlaps, rows);
        let hu = hits_upto(bodies, overlaps, rows);
        assert(pu == pp + rp);
        assert(hu == ph + rh);
        assert forall|m: int| 0 <= m < pu.len() implies #[trigger] matches_pair(bodies, overlaps, pu, hu, m) && pu[m].0
            < rows by {
            if m < pp.len() {
                assert(matches_pair(bodies, overlaps, pp, ph, m));
                assert(pu[m] == pp[m]);
                assert(hu[m] == ph[m]);
            } else {
                let r = m - pp.len();
                assert(matches_pair(bodies, overlaps, rp, rh, r));
                assert(pu[m] == rp[r]);
                assert(hu[m] == rh[r]);
            }
        }
        assert forall|m1: int, m2: int| 0 <= m1 < m2 < pu.len() implies pair_before(#[trigger] pu[m1], #[trigger] pu[m2]) by {
            if m2 < pp.len() {
                assert(pu[m1] == pp[m1]);
                assert(pu[m2] == pp[m2]);
                assert(pair_before(pp[m1], pp[m2]));
            } else if m1 < pp.len() {
                assert(pu[m1] == pp[m1]);
                assert(matches_pair(bodies, overlaps, pp, ph, m1));
                let r2 = m2 - pp.len();
                assert(pu[m2] == rp[r2]);
                assert(matches_pair(bodies, overlaps, rp, rh, r2));
            } else {
                let r1 = m1 - pp.len();
                let r2 = m2 - pp.len();
                assert(pu[m1] == rp[r1]);
                assert(pu[m2] == rp[r2]);
                assert(rp[r1].1 < rp[r2].1);
                assert(matches_pair(bodies, overlaps, rp, rh, r1));
                assert(matches_pair(bodies, overlaps, rp, rh, r2));
            }
        }
        assert forall|i: int, k: int| 0 <= i < rows && i < k < n && #[trigger] qualifies(bodies, overlaps, i, k) implies pu.contains(
            (i, k),
        ) by {
            if i < rows - 1 {
                assert(pp.contains((i, k)));
                let x = choose|x: int| 0 <= x < pp.len() && pp[x] == (i, k);
                assert(pu[x] == (i, k));
            } else {
                assert(rp.contains((i, k)));
                let x = choose|x: int| 0 <= x < rp.len() && rp[x] == (i, k);
                assert(pu[pp.len() + x] == (i, k));
            }
        }
    }
}

/// The hits are exactly one per pair that makes a hit, in pair order: there
/// is a list of pairs `i < j`, strictly increasing in index order (so no pair
/// twice), holding every pair whose boxes overlap, that are not on the same
/// team and of which exactly one has an attack box, and only such pairs;
/// the hits match it one for one, each the hit of its pair: the body with
/// the attack box hits the other for 10 damage and 20 frames of hitstun.
pub proof fn lemma_hits_in_pair_order(bodies: Seq<HitBody>, overlaps: Seq<Seq<bool>>)
    ensures
        ({
            let n = bodies.len() as int;
            let pairs = pairs_upto(bodies, overlaps, n);
            let hits = hits_upto(bodies, overlaps, n);
            &&& hits.len() == pairs.len()
            &&& forall|m: int| 0 <= m < pairs.len() ==> #[trigger] matches_pair(bodies, overlaps, pairs, hits, m)
            &&& forall|m1: int, m2: int| 0 <= m1 < m2 < pairs.len() ==> pair_before(#[trigger] pairs[m1], #[trigger] pairs[m2])
            &&& forall|i: int, j: int| 0 <= i < j < n && #[trigger] qualifies(bodies, overlaps, i, j) ==> pairs.contains((i, j))
        }),
{
    lemma_pairs_upto(bodies, overlaps, bodies.len() as int);
}

} // verus!
