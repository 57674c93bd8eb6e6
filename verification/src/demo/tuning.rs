use vstd::prelude::*;

verus! {

/// The value the tuning tools adjust.
#[derive(Clone, Copy, Debug, PartialEq, Eq, Structural)]
pub enum TuneField {
    PosX,
    PosY,
    Scale,
    GroundY,
}

/// The label of a tuning field.
pub open spec fn field_label(f: TuneField) -> Seq<char> {
    match f {
        TuneField::PosX => "pos_x"@,
        TuneField::PosY => "pos_y"@,
        TuneField::Scale => "scale"@,
        TuneField::GroundY => "ground_y"@,
    }
}

impl TuneField {
    /// The label shown for the field.
    pub fn label(&self) -> (res: &'static str)
        ensures
            res@ == field_label(*self),
    {
        match self {
            TuneField::PosX => "pos_x",
            TuneField::PosY => "pos_y",
            TuneField::Scale => "scale",
            TuneField::GroundY => "ground_y",
        }
    }
}

/// Each element is smaller than the next.
pub open spec fn strictly_increasing(s: Seq<u8>) -> bool {
    forall|i: int, j: int| 0 <= i < j < s.len() ==> s[i] < s[j]
}

/// The player ids, each once, in increasing order.
pub fn sorted_player_ids(ids: &Vec<u8>) -> (res: Vec<u8>)
    ensures
        strictly_increasing(res@),
        forall|x: u8| res@.contains(x) <==> ids@.contains(x),
{
    let mut res: Vec<u8> = Vec::new();
    let mut i: usize = 0;
    while i < ids.len()
        invariant
            i <= ids.len(),
            strictly_increasing(res@),
            forall|x: u8| res@.contains(x) <==> ids@.take(i as int).contains(x),
        decreases ids.len() - i,
    {
        let x = ids[i];
        let mut p: usize = 0;
        while p < res.len() && res[p] < x
            invariant
                p <= res.len(),
                forall|k: int| 0 <= k < p ==> res@[k] < x,
            decreases res.len() - p,
        {
            p = p + 1;
        }
        let ghost before = res@;
        if p < res.len() && res[p] == x {
            assert(before[p as int] == x);
            assert(before.contains(x));
            assert forall|y: u8| res@.contains(y) <==> before.contains(y) || y == x by {
            }
        } else {
            res.insert(p, x);
            assert forall|a: int, b: int| 0 <= a < b < res@.len() implies res@[a] < res@[b] by {
                if b < p {
                } else if b == p {
                } else if a < p {
                    assert(res@[b] == before[b - 1]);
                    assert(before[p as int] >= x);
                    if b - 1 > p {
                        assert(before[p as int] < before[b - 1]);
                    }
                } else if a == p {
                    assert(before[p as int] >= x);
                    assert(before[p as int] != x);
                    if b - 1 > p {
                        assert(before[p as int] < before[b - 1]);
                    }
                } else {
                    assert(res@[a] == before[a - 1]);
                    assert(res@[b] == before[b - 1]);
                }
            }
            assert forall|y: u8| res@.contains(y) <==> before.contains(y) || y == x by {
                if res@.contains(y) {
                    let k = choose|k: int| 0 <= k < res@.len() && res@[k] == y;
                    if k < p {
                        assert(before[k] == y);
                    } else if k > p {
                        assert(before[k - 1] == y);
                    }
                }
                if before.contains(y) {
                    let k = choose|k: int| 0 <= k < before.len() && before[k] == y;
                    if k < p {
                        assert(res@[k] == y);
                    } else {
                        assert(res@[k + 1] == y);
                    }
                }
                if y == x {
                    assert(res@[p as int] == x);
                }
            }
        }
        let ghost t0 = ids@.take(i as int);
        let ghost t1 = ids@.take(i + 1);
        assert(t1 == t0.push(x));
        assert forall|y: u8| t1.contains(y) <==> t0.contains(y) || y == x by {
            if t1.contains(y) {
                let k = choose|k: int| 0 <= k < t1.len() && t1[k] == y;
                if k < i {
                    assert(t0[k] == y);
                }
            }
            if t0.contains(y) {
                let k = choose|k: int| 0 <= k < t0.len() && t0[k] == y;
                assert(t1[k] == y);
            }
            if y == x {
                assert(t1[i as int] == y);
            }
        }
        assert forall|y: u8| res@.contains(y) <==> t1.contains(y) by {
            assert(res@.contains(y) <==> before.contains(y) || y == x);
            assert(before.contains(y) <==> t0.contains(y));
        }
        i = i + 1;
    }
    assert(ids@.take(ids.len() as int) == ids@);
    res
}

/// `x` is the smallest id.
pub open spec fn is_min_id(ids: Seq<u8>, x: u8) -> bool {
    ids.contains(x) && forall|y: u8| #[trigger] ids.contains(y) ==> x <= y
}

/// The smallest id (meaningful when there is one).
pub open spec fn min_id(ids: Seq<u8>) -> u8 {
    choose|x: u8| is_min_id(ids, x)
}

/// `x` is the smallest id above `s`.
pub open spec fn is_next_id(ids: Seq<u8>, s: u8, x: u8) -> bool {
    ids.contains(x) && x > s && forall|y: u8| #[trigger] ids.contains(y) && y > s ==> x <= y
}

/// The id after `s` in increasing order, wrapping around to the smallest.
pub open spec fn next_id(ids: Seq<u8>, s: u8) -> u8 {
    if exists|x: u8| #[trigger] ids.contains(x) && x > s {
        choose|x: u8| is_next_id(ids, s, x)
    } else {
        min_id(ids)
    }
}

/// The selected player if there is such a player, else the smallest id.
pub open spec fn normalized_selection(ids: Seq<u8>, s: u8) -> u8 {
    if ids.contains(s) { s } else { min_id(ids) }
}

/// Which fighters a reset puts back to their starting values.
#[derive(Clone, Copy, Debug, PartialEq, Eq, Structural)]
pub enum ResetScope {
    /// No reset this frame.
    Keep,
    /// Every fighter, and the ground height.
    All,
    /// The selected fighter.
    Selected,
}

/// A nudge of the selected field: up or down, by a fine or a coarse step.
#[derive(Clone, Copy, Debug, PartialEq, Eq, Structural)]
pub struct Adjustment {
    pub positive: bool,
    pub fine: bool,
}

/// The keys the tuning tools read this frame: whether Tab and R were just
/// pressed, whether each Shift key is held, which of the digit keys 1-4
/// were just pressed, and which arrow keys are held.
#[derive(Clone, Copy, Debug, PartialEq, Eq, Structural)]
pub struct TuningKeys {
    pub tab: bool,
    pub reset: bool,
    pub shift_left: bool,
    pub shift_right: bool,
    pub digit1: bool,
    pub digit2: bool,
    pub digit3: bool,
    pub digit4: bool,
    pub right: bool,
    pub up: bool,
    pub left: bool,
    pub down: bool,
}

/// What the tuning tools do this frame.
#[derive(Clone, Copy, Debug, PartialEq, Eq, Structural)]
pub struct TuningDecision {
    pub selected_player: u8,
    pub selected_field: TuneField,
    pub reset: ResetScope,
    pub adjust: Option<Adjustment>,
}

/// The tuning step for the fighters' ids, the current selection and the keys:
/// nothing without fighters; otherwise the selection falls back on the
/// smallest id when its player is gone and Tab moves it to the next id;
/// R resets (all with Shift, else the selected fighter); the last digit key
/// pressed picks the field; and the arrows nudge it unless both directions
/// (or none) are held, finely with Shift.
pub open spec fn tuning_spec(ids: Seq<u8>, selected_player: u8, selected_field: TuneField, keys: TuningKeys) -> Option<
    TuningDecision,
> {
    if ids.len() == 0 {
        None
    } else {
        let s0 = normalized_selection(ids, selected_player);
        let s1 = if keys.tab { next_id(ids, s0) } else { s0 };
        let shift = keys.shift_left || keys.shift_right;
        let reset = if !keys.reset {
            ResetScope::Keep
        } else if shift {
            ResetScope::All
        } else {
            ResetScope::Selected
        };
        let field = if keys.digit4 {
            TuneField::GroundY
        } else if keys.digit3 {
            TuneField::Scale
        } else if keys.digit2 {
            TuneField::PosY
        } else if keys.digit1 {
            TuneField::PosX
        } else {
            selected_field
        };
        let positive = keys.right || keys.up;
        let negative = keys.left || keys.down;
        let adjust = if positive == negative {
            None
        } else {
            Some(Adjustment { positive, fine: shift })
        };
        Some(TuningDecision { selected_player: s1, selected_field: field, reset, adjust })
    }
}

proof fn lemma_sorted_min(sorted: Seq<u8>, ids: Seq<u8>)
    requires
        strictly_increasing(sorted),
        sorted.len() > 0,
        forall|x: u8| sorted.contains(x) <==> ids.contains(x),
    ensures
        min_id(ids) == sorted[0],
{
    assert(sorted.contains(sorted[0]));
    assert forall|y: u8| #[trigger] ids.contains(y) implies sorted[0] <= y by {
        assert(sorted.contains(y));
        let k = choose|k: int| 0 <= k < sorted.len() && sorted[k] == y;
        if k > 0 {
            assert(sorted[0] < sorted[k]);
        }
    }
    assert(is_min_id(ids, sorted[0]));
    let m = min_id(ids);
    assert(is_min_id(ids, m));
    assert(ids.contains(sorted[0]));
}

proof fn lemma_sorted_next(sorted: Seq<u8>, ids: Seq<u8>, p: int)
    requires
        strictly_increasing(sorted),
        0 <= p < sorted.len(),
        forall|x: u8| sorted.contains(x) <==> ids.contains(x),
    ensures
        next_id(ids, sorted[p]) == sorted[(p + 1) % (sorted.len() as int)],
{
    let s = sorted[p];
    let n = sorted.len() as int;
    if p + 1 < n {
        let x = sorted[p + 1];
        assert(sorted.contains(x));
        assert(ids.contains(x) && x > s);
        assert forall|y: u8| #[trigger] ids.contains(y) && y > s implies x <= y by {
            assert(sorted.contains(y));
            let k = choose|k: int| 0 <= k < n && sorted[k] == y;
            if k <= p {
                if k < p {
                    assert(sorted[k] < sorted[p]);
                }
            } else if k > p + 1 {
                assert(sorted[p + 1] < sorted[k]);
            }
        }
        assert(is_next_id(ids, s, x));
        let c = choose|c: u8| is_next_id(ids, s, c);
        assert(is_next_id(ids, s, c));
        vstd::arithmetic::div_mod::lemma_small_mod((p + 1) as nat, n as nat);
    } else {
        assert forall|y: u8| #[trigger] ids.contains(y) implies !(y > s) by {
            assert(sorted.contains(y));
            let k = choose|k: int| 0 <= k < n && sorted[k] == y;
            if k < p {
                assert(sorted[k] < sorted[p]);
            }
        }
        lemma_sorted_min(sorted, ids);
        vstd::arithmetic::div_mod::lemma_mod_self_0(n);
    }
}

/// Works out what the tuning tools do this frame, from the ids of the
/// fighters present, the current selection and the keys.
pub fn tuning_keyboard_decision(
    player_ids: &Vec<u8>,
    selected_player: u8,
    selected_field: TuneField,
    keys: &TuningKeys,
) -> (res: Option<TuningDecision>)
    ensures
        res == tuning_spec(player_ids@, selected_player, selected_field, *keys),
{
    let ids = sorted_player_ids(player_ids);
    if ids.len() == 0 {
        assert forall|x: u8| !player_ids@.contains(x) by {
            assert(!ids@.contains(x));
        }
        if player_ids.len() > 0 {
            assert(player_ids@.contains(player_ids@[0]));
        }
        return None;
    }
    let n = ids.len();
    proof {
        lemma_sorted_min(ids@, player_ids@);
        assert(ids@.contains(ids@[0]));
        assert(player_ids@.contains(ids@[0]));
    }
    let mut pos: usize = 0;
    while pos < n && ids[pos] != selected_player
        invariant
            n == ids.len(),
            pos <= n,
            forall|k: int| 0 <= k < pos ==> ids@[k] != selected_player,
        decreases n - pos,
    {
        pos = pos + 1;
    }
    let mut selected = selected_player;
    if pos == n {
        assert(!ids@.contains(selected_player));
        pos = 0;
        selected = ids[0];
    } else {
        assert(ids@.contains(selected_player));
    }
    assert(ids@[pos as int] == selected);
    assert(selected == normalized_selection(player_ids@, selected_player));
    if keys.tab {
        let next = (pos + 1) % n;
        proof {
            lemma_sorted_next(ids@, player_ids@, pos as int);
        }
        selected = ids[next];
    }
    let shift = keys.shift_left || keys.shift_right;
    let reset = if !keys.reset {
        ResetScope::Keep
    } else if shift {
        ResetScope::All
    } else {
        ResetScope::Selected
    };
    let mut field = selected_field;
    if keys.digit1 {
        field = TuneField::PosX;
    }
    if keys.digit2 {
        field = TuneField::PosY;
    }
    if keys.digit3 {
        field = TuneField::Scale;
    }
    if keys.digit4 {
        field = TuneField::GroundY;
    }
    let positive = keys.right || keys.up;
    let negative = keys.left || keys.down;
    let adjust = if positive == negative {
        None
    } else {
        Some(Adjustment { positive, fine: shift })
    };
    Some(TuningDecision { selected_player: selected, selected_field: field, reset, adjust })
}

/// The selection after pressing Tab `k` times, starting from `s`.
pub open spec fn tabbed(ids: Seq<u8>, s: u8, k: nat) -> u8
    decreases k,
{
    if k == 0 { s } else { next_id(ids, tabbed(ids, s, (k - 1) as nat)) }
}

/// Tab walks through the players in increasing id order and wraps around:
/// with the distinct ids in increasing order in `sorted`, `k` presses from
/// the player at position `p` select the one at `(p + k) mod n`; in
/// particular, `n` presses come back to where they started.
pub proof fn lemma_tab_cycles(sorted: Seq<u8>, ids: Seq<u8>, p: int, k: nat)
    requires
        strictly_increasing(sorted),
        0 <= p < sorted.len(),
        forall|x: u8| sorted.contains(x) <==> ids.contains(x),
    ensures
        tabbed(ids, sorted[p], k) == sorted[(p + k) % (sorted.len() as int)],
        tabbed(ids, sorted[p], sorted.len()) == sorted[p],
{
    let n = sorted.len() as int;
    lemma_tab_cycles_full(sorted, ids, p, k);
    lemma_tab_cycles_full(sorted, ids, p, sorted.len());
    vstd::arithmetic::div_mod::lemma_add_mod_noop(p, n, n);
    vstd::arithmetic::div_mod::lemma_small_mod(p as nat, n as nat);
    vstd::arithmetic::div_mod::lemma_mod_self_0(n);
}

proof fn lemma_tab_cycles_full(sorted: Seq<u8>, ids: Seq<u8>, p: int, k: nat)
    requires
        strictly_increasing(sorted),
        0 <= p < sorted.len(),
        forall|x: u8| sorted.contains(x) <==> ids.contains(x),
    ensures
        tabbed(ids, sorted[p], k) == sorted[(p + k) % (sorted.len() as int)],
    decreases k,
{
    let n = sorted.len() as int;
    if k > 0 {
        lemma_tab_cycles_full(sorted, ids, p, (k - 1) as nat);
        let q = (p + k - 1) % n;
        vstd::arithmetic::div_mod::lemma_mod_bound(p + k - 1, n);
        lemma_sorted_next(sorted, ids, q);
        vstd::arithmetic::div_mod::lemma_add_mod_noop(p + k - 1, 1, n);
        if n > 1 {
            vstd::arithmetic::div_mod::lemma_small_mod(1, n as nat);
        }
    } else {
        vstd::arithmetic::div_mod::lemma_small_mod(p as nat, n as nat);
    }
}

/// What the keys do to the tuning tools, for any fighters present: R resets
/// every fighter exactly when either Shift key is held, only the selected
/// one otherwise, and nothing without R; of the digit keys 1-4 pressed, the
/// highest picks the field (position x, position y, scale, ground height),
/// and none keeps the field; the arrows nudge up (right or up) or down (left
/// or down) when exactly one direction is held, finely exactly when either
/// Shift key is held; and the selection is always one of the players
/// present, kept as it is when that player is present and Tab was not
/// pressed.
pub proof fn lemma_tuning_rules(ids: Seq<u8>, selected_player: u8, selected_field: TuneField, keys: TuningKeys)
    requires
        ids.len() > 0,
    ensures
        ({
            let d = tuning_spec(ids, selected_player, selected_field, keys);
            let shift = keys.shift_left || keys.shift_right;
            let up = keys.right || keys.up;
            let down = keys.left || keys.down;
            &&& d is Some
            &&& d.unwrap().reset == (if !keys.reset {
                ResetScope::Keep
            } else if shift {
                ResetScope::All
            } else {
                ResetScope::Selected
            })
            &&& d.unwrap().selected_field == (if keys.digit4 {
                TuneField::GroundY
            } else if keys.digit3 {
                TuneField::Scale
            } else if keys.digit2 {
                TuneField::PosY
            } else if keys.digit1 {
                TuneField::PosX
            } else {
                selected_field
            })
            &&& up == down ==> d.unwrap().adjust is None
            &&& up != down ==> d.unwrap().adjust == Some(Adjustment { positive: up, fine: shift })
            &&& ids.contains(d.unwrap().selected_player)
            &&& !keys.tab && ids.contains(selected_player) ==> d.unwrap().selected_player == selected_player
            &&& !keys.tab && !ids.contains(selected_player) ==> forall|y: u8| #[trigger] ids.contains(y)
                ==> d.unwrap().selected_player <= y
        }),
        ({
            let without = tuning_spec(ids, selected_player, selected_field, TuningKeys { tab: false, ..keys }).unwrap();
            let with = tuning_spec(ids, selected_player, selected_field, TuningKeys { tab: true, ..keys }).unwrap();
            let s = without.selected_player;
            let t = with.selected_player;
            ||| (t > s && forall|y: u8| #[trigger] ids.contains(y) && y > s ==> t <= y)
            ||| ((forall|y: u8| #[trigger] ids.contains(y) ==> y <= s) && (forall|y: u8| #[trigger] ids.contains(y) ==> t <= y))
        }),
{
    lemma_min_exists(ids);
    let s0 = normalized_selection(ids, selected_player);
    assert(ids.contains(s0));
    if exists|x: u8| #[trigger] ids.contains(x) && x > s0 {
        lemma_next_exists(ids, s0);
    } else {
        assert forall|y: u8| #[trigger] ids.contains(y) implies y <= s0 by {
            if y > s0 {
                assert(ids.contains(y) && y > s0);
            }
        }
    }
}

proof fn lemma_min_below(ids: Seq<u8>, bound: u8)
    requires
        exists|x: u8| #[trigger] ids.contains(x) && x <= bound,
    ensures
        exists|x: u8| is_min_id(ids, x),
    decreases bound,
{
    if exists|x: u8| #[trigger] ids.contains(x) && x < bound {
        lemma_min_below(ids, (bound - 1) as u8);
    } else {
        assert(ids.contains(bound));
        assert(is_min_id(ids, bound));
    }
}

proof fn lemma_min_exists(ids: Seq<u8>)
    requires
        ids.len() > 0,
    ensures
        is_min_id(ids, min_id(ids)),
{
    assert(ids.contains(ids[0]));
    lemma_min_below(ids, ids[0]);
}

proof fn lemma_next_below(ids: Seq<u8>, s: u8, bound: u8)
    requires
        exists|x: u8| #[trigger] ids.contains(x) && x > s && x <= bound,
    ensures
        exists|x: u8| is_next_id(ids, s, x),
    decreases bound,
{
    if exists|x: u8| #[trigger] ids.contains(x) && x > s && x < bound {
        lemma_next_below(ids, s, (bound - 1) as u8);
    } else {
        assert(is_next_id(ids, s, bound));
    }
}

proof fn lemma_next_exists(ids: Seq<u8>, s: u8)
    requires
        exists|x: u8| #[trigger] ids.contains(x) && x > s,
    ensures
        is_next_id(ids, s, next_id(ids, s)),
{
    let w = choose|x: u8| #[trigger] ids.contains(x) && x > s;
    lemma_next_below(ids, s, w);
}

} // verus!
