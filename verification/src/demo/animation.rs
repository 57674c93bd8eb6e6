use vstd::prelude::*;

verus! {

/// The atlas frame shown after the animation timer fires: the next frame,
/// or, past the clip's last frame, its first frame again when it loops and
/// its last frame when it does not.
pub open spec fn next_frame_spec(index: usize, first: usize, last: usize, looping: bool) -> usize {
    if index >= last {
        if looping { first } else { last }
    } else {
        (index + 1) as usize
    }
}

/// Advances a sprite's atlas frame within the clip `first..=last`.
pub fn next_frame_index(index: usize, first: usize, last: usize, looping: bool) -> (res: usize)
    ensures
        res == next_frame_spec(index, first, last, looping),
{
    if index >= last {
        if looping { first } else { last }
    } else {
        index + 1
    }
}

/// The frame after `n` timer ticks.
pub open spec fn frame_after(index: usize, first: usize, last: usize, looping: bool, n: nat) -> usize
    decreases n,
{
    if n == 0 { index } else { frame_after(next_frame_spec(index, first, last, looping), first, last, looping, (n - 1) as nat) }
}

/// A sprite inside its clip stays inside it.
pub proof fn lemma_frame_stays_in_clip(index: usize, first: usize, last: usize, looping: bool)
    requires
        first <= index <= last,
    ensures
        first <= next_frame_spec(index, first, last, looping) <= last,
{
}

proof fn lemma_frames_climb(index: usize, first: usize, last: usize, looping: bool, n: nat)
    requires
        index + n <= last,
    ensures
        frame_after(index, first, last, looping, n) == index + n,
    decreases n,
{
    if n > 0 {
        lemma_frames_climb((index + 1) as usize, first, last, looping, (n - 1) as nat);
    }
}

proof fn lemma_frame_after_split(index: usize, first: usize, last: usize, looping: bool, a: nat, b: nat)
    ensures
        frame_after(frame_after(index, first, last, looping, a), first, last, looping, b) == frame_after(
            index,
            first,
            last,
            looping,
            a + b,
        ),
    decreases a,
{
    if a > 0 {
        lemma_frame_after_split(next_frame_spec(index, first, last, looping), first, last, looping, (a - 1) as nat, b);
    }
}

/// A looping clip plays its frames in order and starts over: from its first
/// frame it shows frame `first + k` after `k` ticks, for every frame of the
/// clip, and is back at its first frame after as many ticks as it has frames.
pub proof fn lemma_looping_clip_cycles(first: usize, last: usize, k: nat)
    requires
        first <= last,
    ensures
        k <= last - first ==> frame_after(first, first, last, true, k) == first + k,
        frame_after(first, first, last, true, (last - first + 1) as nat) == first,
{
    if k <= last - first {
        lemma_frames_climb(first, first, last, true, k);
    }
    lemma_frames_climb(first, first, last, true, (last - first) as nat);
    lemma_frame_after_split(first, first, last, true, (last - first) as nat, 1);
    assert(frame_after(last, first, last, true, 1) == frame_after(first, first, last, true, 0));
}

/// A clip that does not loop plays once and then holds its last frame.
pub proof fn lemma_one_shot_clip_holds(index: usize, first: usize, last: usize, n: nat)
    requires
        index <= last,
    ensures
        frame_after(index, first, last, false, n) == if index + n <= last { (index + n) as usize } else { last },
    decreases n,
{
    if n > 0 {
        lemma_one_shot_clip_holds(next_frame_spec(index, first, last, false), first, last, (n - 1) as nat);
    }
}

/// The integer part of an animation clip's description: the size of one
/// frame in the sprite sheet, the sheet's grid, and the clip's frame range.
#[derive(Clone, Copy, Debug, PartialEq, Eq, Structural)]
pub struct ClipGrid {
    pub frame_width: u32,
    pub frame_height: u32,
    pub columns: u32,
    pub rows: u32,
    pub first: usize,
    pub last: usize,
}

/// Why a clip description cannot be used.
#[derive(Clone, Copy, Debug, PartialEq, Eq, Structural)]
pub enum ClipError {
    /// The frame width or height is zero.
    InvalidFrameSize,
    /// The grid has no column or no row.
    InvalidGrid,
    /// `columns * rows` does not fit in a `u32`.
    GridOverflow,
    /// The range `first..=last` is empty or runs past the grid.
    InvalidRange { frame_count: usize },
}

/// The number of frames of the grid, or why the clip is refused, in the
/// order the checks are made.
pub open spec fn check_clip_spec(g: ClipGrid) -> Result<usize, ClipError> {
    if !(g.frame_width > 0 && g.frame_height > 0) {
        Err(ClipError::InvalidFrameSize)
    } else if !(g.columns > 0 && g.rows > 0) {
        Err(ClipError::InvalidGrid)
    } else if g.columns * g.rows > u32::MAX {
        Err(ClipError::GridOverflow)
    } else {
        let n = g.columns * g.rows;
        if g.first < n && g.last < n && g.last >= g.first {
            Ok(n as usize)
        } else {
            Err(ClipError::InvalidRange { frame_count: n as usize })
        }
    }
}

/// Checks a clip's sheet layout and frame range, and returns the number of
/// frames in its sheet.
pub fn check_clip(g: &ClipGrid) -> (res: Result<usize, ClipError>)
    ensures
        res == check_clip_spec(*g),
{
    if !(g.frame_width > 0 && g.frame_height > 0) {
        return Err(ClipError::InvalidFrameSize);
    }
    if !(g.columns > 0 && g.rows > 0) {
        return Err(ClipError::InvalidGrid);
    }
    let n = match g.columns.checked_mul(g.rows) {
        Some(n) => n,
        None => {
            return Err(ClipError::GridOverflow);
        },
    };
    let frame_count = n as usize;
    if g.first < frame_count && g.last < frame_count && g.last >= g.first {
        Ok(frame_count)
    } else {
        Err(ClipError::InvalidRange { frame_count })
    }
}

} // verus!
