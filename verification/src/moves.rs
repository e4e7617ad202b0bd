//! Horizontal and vertical cursor movement.
//!
//! Horizontal movement is two-phase: before a plain index step, the cursor
//! tries to *enter* a fraction standing next to it (at the right end of its
//! numerator when moving left, at the left end when moving right).  Stepping
//! past the end of a branch instead *exits* one level, to the gap just after
//! the enclosing fraction.  Only a cursor that cannot move at all signals
//! "exhausted", so that the document level can change line.

use vstd::prelude::*;
use crate::model::{
    branch_of, cursor_ok, lemma_views_of, views_of, CursorFollow, InputValue, InputValues,
    TermView, ValueCursor,
};

verus! {

broadcast use crate::model::lemma_views_of;

/// What a horizontal move at some depth did.
#[derive(Clone, Copy, PartialEq, Eq, Structural, Debug)]
pub enum MoveOutcome {
    /// The innermost gap index moved by one.
    Stepped,
    /// The cursor left a fraction branch and now rests just after that
    /// fraction.
    Exited,
    /// The cursor could not move at this depth.
    Exhausted,
}

/// The cursor after it tries to enter a fraction at its innermost gap: the
/// element just before the gap must be a fraction, and the cursor descends
/// into its numerator, at the right end when entering while moving left
/// (`right` set) and at the left end otherwise.  The second component tells
/// whether an entry happened.
pub open spec fn spec_step_in(s: Seq<TermView>, c: ValueCursor, right: bool) -> (ValueCursor, bool)
    decreases c,
{
    match c.follow {
        None => {
            if c.index >= 1 && s[c.index - 1] is Frac {
                let t = branch_of(s[c.index - 1], CursorFollow::Top);
                let idx = if right {
                    t.len() as int
                } else {
                    0
                };
                (
                    ValueCursor {
                        index: c.index,
                        follow: Some(
                            (
                                CursorFollow::Top,
                                Box::new(ValueCursor { index: idx as usize, follow: None }),
                            ),
                        ),
                    },
                    true,
                )
            } else {
                (c, false)
            }
        },
        Some((side, child)) => {
            let r = spec_step_in(branch_of(s[c.index - 1], side), *child, right);
            (ValueCursor { index: c.index, follow: Some((side, Box::new(r.0))) }, r.1)
        },
    }
}

/// The plain right step: the innermost index advances when it can; at the end
/// of a fraction branch the cursor exits one level, to just after that
/// fraction; at the end of the outermost sequence it is exhausted.
pub open spec fn spec_move_right_inner(s: Seq<TermView>, c: ValueCursor) -> (
    ValueCursor,
    MoveOutcome,
)
    decreases c,
{
    match c.follow {
        None => {
            if c.index < s.len() {
                (ValueCursor { index: (c.index + 1) as usize, follow: None }, MoveOutcome::Stepped)
            } else {
                (c, MoveOutcome::Exhausted)
            }
        },
        Some((side, child)) => {
            let r = spec_move_right_inner(branch_of(s[c.index - 1], side), *child);
            if r.1 is Exhausted {
                (ValueCursor { index: c.index, follow: None }, MoveOutcome::Exited)
            } else {
                (ValueCursor { index: c.index, follow: Some((side, Box::new(r.0))) }, r.1)
            }
        },
    }
}

/// The whole right move: step right, and after stepping past a fraction enter
/// its numerator at the left end.  The second component tells whether the
/// cursor was already at the end of the line.
pub open spec fn spec_move_right(s: Seq<TermView>, c: ValueCursor) -> (ValueCursor, bool) {
    let r = spec_move_right_inner(s, c);
    match r.1 {
        MoveOutcome::Exhausted => (c, true),
        MoveOutcome::Exited => (r.0, false),
        MoveOutcome::Stepped => (spec_step_in(s, r.0, false).0, false),
    }
}

/// The plain left step: the innermost index retreats when it can; at the
/// start of a fraction branch the cursor exits one level and retreats there,
/// landing just before that fraction; at the start of the outermost sequence
/// it is exhausted.
pub open spec fn spec_move_left_inner(s: Seq<TermView>, c: ValueCursor) -> (ValueCursor, bool)
    decreases c,
{
    match c.follow {
        None => {
            if c.index >= 1 {
                (ValueCursor { index: (c.index - 1) as usize, follow: None }, false)
            } else {
                (c, true)
            }
        },
        Some((side, child)) => {
            let r = spec_move_left_inner(branch_of(s[c.index - 1], side), *child);
            if r.1 {
                (ValueCursor { index: (c.index - 1) as usize, follow: None }, false)
            } else {
                (ValueCursor { index: c.index, follow: Some((side, Box::new(r.0))) }, false)
            }
        },
    }
}

/// The whole left move: entering the numerator of a fraction standing just
/// before the gap, at its right end, takes precedence over the plain step.
/// The second component tells whether the cursor was already at the start of
/// the line.
pub open spec fn spec_move_left(s: Seq<TermView>, c: ValueCursor) -> (ValueCursor, bool) {
    let e = spec_step_in(s, c, true);
    if e.1 {
        (e.0, false)
    } else {
        spec_move_left_inner(s, c)
    }
}

/// The rescaled index used by vertical movement: leaving a branch of length
/// `a` at gap `i` and entering the sibling branch of length `b`, the new gap
/// is `clamp(i - (a - b) / 2, 0, b)`, the division truncated toward zero.
pub open spec fn spec_rescale(i: int, a: int, b: int) -> int {
    if a >= b {
        let d = (a - b) / 2;
        if i <= d {
            0
        } else if i - d <= b {
            i - d
        } else {
            b
        }
    } else {
        let d = (b - a) / 2;
        if i + d >= b {
            b
        } else {
            i + d
        }
    }
}

/// Vertical movement toward the branch opposite `which`: it acts only at the
/// deepest level of the cursor, and only when the innermost side equals
/// `which`; the side flips and the innermost index is rescaled between the
/// two branch lengths.  The second component tells whether a flip happened.
pub open spec fn spec_move_vertical(s: Seq<TermView>, c: ValueCursor, which: CursorFollow) -> (
    ValueCursor,
    bool,
)
    decreases c,
{
    match c.follow {
        None => (c, false),
        Some((side, child)) => {
            let t = s[c.index - 1];
            if child.follow is None {
                if side == which {
                    let a = branch_of(t, which).len() as int;
                    let b = branch_of(t, which.spec_opposite()).len() as int;
                    let ni = spec_rescale(child.index as int, a, b);
                    (
                        ValueCursor {
                            index: c.index,
                            follow: Some(
                                (
                                    which.spec_opposite(),
                                    Box::new(ValueCursor { index: ni as usize, follow: None }),
                                ),
                            ),
                        },
                        true,
                    )
                } else {
                    (c, false)
                }
            } else {
                let r = spec_move_vertical(branch_of(t, side), *child, which);
                (ValueCursor { index: c.index, follow: Some((side, Box::new(r.0))) }, r.1)
            }
        },
    }
}

impl InputValues {
    /// Tries to enter a fraction standing just before the innermost gap; see
    /// [`spec_step_in`].  Returns whether an entry happened.
    pub fn step_in(&self, cursor: &mut ValueCursor, right: bool) -> (r: bool)
        requires
            cursor_ok(self@, *old(cursor)),
        ensures
            (*final(cursor), r) == spec_step_in(self@, *old(cursor), right),
    {
        let c = cursor.clone();
        let (nc, r) = self.step_in_at(c, right);
        *cursor = nc;
        r
    }

    fn step_in_at(&self, c: ValueCursor, right: bool) -> (res: (ValueCursor, bool))
        requires
            cursor_ok(self@, c),
        ensures
            res == spec_step_in(self@, c, right),
        decreases c,
    {
        proof {
            lemma_views_of(self.0@);
        }
        match c.follow {
            None => {
                if c.index >= 1 {
                    let i = c.index - 1;
                    match &self.0[i] {
                        InputValue::Fraction { top, .. } => {
                            let idx = if right {
                                top.0.len()
                            } else {
                                0
                            };
                            proof {
                                lemma_views_of(top.0@);
                            }
                            (
                                ValueCursor {
                                    index: c.index,
                                    follow: Some(
                                        (
                                            CursorFollow::Top,
                                            Box::new(ValueCursor { index: idx, follow: None }),
                                        ),
                                    ),
                                },
                                true,
                            )
                        },
                        InputValue::Value(_) => (ValueCursor { index: c.index, follow: None }, false),
                    }
                } else {
                    (ValueCursor { index: c.index, follow: None }, false)
                }
            },
            Some((side, child)) => {
                let i = c.index - 1;
                match &self.0[i] {
                    InputValue::Fraction { top, bottom } => {
                        let b = if side == CursorFollow::Top {
                            top
                        } else {
                            bottom
                        };
                        let (nc, e) = b.step_in_at(*child, right);
                        (ValueCursor { index: c.index, follow: Some((side, Box::new(nc))) }, e)
                    },
                    InputValue::Value(_) => {
                        proof {
                            assert(false);
                        }
                        (ValueCursor { index: c.index, follow: None }, false)
                    },
                }
            },
        }
    }

    /// The plain right step; see [`spec_move_right_inner`].
    pub fn move_right_inner(&self, cursor: &mut ValueCursor) -> (r: MoveOutcome)
        requires
            cursor_ok(self@, *old(cursor)),
        ensures
            (*final(cursor), r) == spec_move_right_inner(self@, *old(cursor)),
    {
        let c = cursor.clone();
        let (nc, r) = self.right_step(c);
        *cursor = nc;
        r
    }

    fn right_step(&self, c: ValueCursor) -> (res: (ValueCursor, MoveOutcome))
        requires
            cursor_ok(self@, c),
        ensures
            res == spec_move_right_inner(self@, c),
        decreases c,
    {
        proof {
            lemma_views_of(self.0@);
        }
        match c.follow {
            None => {
                if c.index < self.0.len() {
                    (ValueCursor { index: c.index + 1, follow: None }, MoveOutcome::Stepped)
                } else {
                    (ValueCursor { index: c.index, follow: None }, MoveOutcome::Exhausted)
                }
            },
            Some((side, child)) => {
                let i = c.index - 1;
                match &self.0[i] {
                    InputValue::Fraction { top, bottom } => {
                        let b = if side == CursorFollow::Top {
                            top
                        } else {
                            bottom
                        };
                        let (nc, o) = b.right_step(*child);
                        if o == MoveOutcome::Exhausted {
                            (ValueCursor { index: c.index, follow: None }, MoveOutcome::Exited)
                        } else {
                            (ValueCursor { index: c.index, follow: Some((side, Box::new(nc))) }, o)
                        }
                    },
                    InputValue::Value(_) => {
                        proof {
                            assert(false);
                        }
                        (ValueCursor { index: c.index, follow: None }, MoveOutcome::Exhausted)
                    },
                }
            },
        }
    }

    /// The plain left step; see [`spec_move_left_inner`].  Returns whether
    /// the cursor was exhausted.
    pub fn move_left_inner(&self, cursor: &mut ValueCursor) -> (r: bool)
        requires
            cursor_ok(self@, *old(cursor)),
        ensures
            (*final(cursor), r) == spec_move_left_inner(self@, *old(cursor)),
    {
        let c = cursor.clone();
        let (nc, r) = self.left_step(c);
        *cursor = nc;
        r
    }

    fn left_step(&self, c: ValueCursor) -> (res: (ValueCursor, bool))
        requires
            cursor_ok(self@, c),
        ensures
            res == spec_move_left_inner(self@, c),
        decreases c,
    {
        proof {
            lemma_views_of(self.0@);
        }
        match c.follow {
            None => {
                if c.index >= 1 {
                    (ValueCursor { index: c.index - 1, follow: None }, false)
                } else {
                    (ValueCursor { index: c.index, follow: None }, true)
                }
            },
            Some((side, child)) => {
                let i = c.index - 1;
                match &self.0[i] {
                    InputValue::Fraction { top, bottom } => {
                        let b = if side == CursorFollow::Top {
                            top
                        } else {
                            bottom
                        };
                        let (nc, ex) = b.left_step(*child);
                        if ex {
                            (ValueCursor { index: c.index - 1, follow: None }, false)
                        } else {
                            (
                                ValueCursor { index: c.index, follow: Some((side, Box::new(nc))) },
                                false,
                            )
                        }
                    },
                    InputValue::Value(_) => {
                        proof {
                            assert(false);
                        }
                        (ValueCursor { index: c.index, follow: None }, true)
                    },
                }
            },
        }
    }

    /// Moves the cursor one gap to the left, entering a fraction standing
    /// just before it at the right end of its numerator.  Returns true when
    /// the cursor was already at the start of the line and nothing changed,
    /// so that the caller can move to the previous line.
    pub fn move_left(&self, cursor: &mut ValueCursor) -> (r: bool)
        requires
            cursor_ok(self@, *old(cursor)),
        ensures
            (*final(cursor), r) == spec_move_left(self@, *old(cursor)),
    {
        proof {
            lemma_step_in_ok(self@, *cursor, true);
        }
        if !self.step_in(cursor, true) {
            self.move_left_inner(cursor)
        } else {
            false
        }
    }

    /// Moves the cursor one gap to the right, entering a fraction it stepped
    /// past at the left end of its numerator.  Returns true when the cursor
    /// was already at the end of the line and nothing changed, so that the
    /// caller can move to the next line.
    pub fn move_right(&self, cursor: &mut ValueCursor) -> (r: bool)
        requires
            cursor_ok(self@, *old(cursor)),
        ensures
            (*final(cursor), r) == spec_move_right(self@, *old(cursor)),
    {
        let o = self.move_right_inner(cursor);
        match o {
            MoveOutcome::Exhausted => true,
            MoveOutcome::Exited => false,
            MoveOutcome::Stepped => {
                proof {
                    lemma_move_right_inner_ok(self@, *old(cursor));
                }
                self.step_in(cursor, false);
                false
            },
        }
    }

    /// Vertical movement toward the branch opposite `which`; see
    /// [`spec_move_vertical`].  Returns whether a flip happened.
    pub fn move_vertical(&self, cursor: &mut ValueCursor, which: CursorFollow) -> (r: bool)
        requires
            cursor_ok(self@, *old(cursor)),
        ensures
            (*final(cursor), r) == spec_move_vertical(self@, *old(cursor), which),
    {
        let c = cursor.clone();
        let (nc, r) = self.vertical_step(c, which);
        *cursor = nc;
        r
    }

    fn vertical_step(&self, c: ValueCursor, which: CursorFollow) -> (res: (ValueCursor, bool))
        requires
            cursor_ok(self@, c),
        ensures
            res == spec_move_vertical(self@, c, which),
        decreases c,
    {
        proof {
            lemma_views_of(self.0@);
        }
        match c.follow {
            None => (ValueCursor { index: c.index, follow: None }, false),
            Some((side, child)) => {
                let i = c.index - 1;
                match &self.0[i] {
                    InputValue::Fraction { top, bottom } => {
                        proof {
                            lemma_views_of(top.0@);
                            lemma_views_of(bottom.0@);
                        }
                        if child.follow.is_none() {
                            if side == which {
                                let (a, b) = if which == CursorFollow::Top {
                                    (top.0.len(), bottom.0.len())
                                } else {
                                    (bottom.0.len(), top.0.len())
                                };
                                proof {
                                    assert(self@[i as int] == TermView::Frac {
                                        top: views_of(top.0@),
                                        bottom: views_of(bottom.0@),
                                    });
                                    assert(cursor_ok(branch_of(self@[i as int], side), *child));
                                    assert(child.index <= a);
                                }
                                let ni = Self::rescale(child.index, a, b);
                                (
                                    ValueCursor {
                                        index: c.index,
                                        follow: Some(
                                            (
                                                which.opposite(),
                                                Box::new(
                                                    ValueCursor { index: ni, follow: None },
                                                ),
                                            ),
                                        ),
                                    },
                                    true,
                                )
                            } else {
                                (
                                    ValueCursor { index: c.index, follow: Some((side, child)) },
                                    false,
                                )
                            }
                        } else {
                            let br = if side == CursorFollow::Top {
                                top
                            } else {
                                bottom
                            };
                            let (nc, moved) = br.vertical_step(*child, which);
                            (
                                ValueCursor { index: c.index, follow: Some((side, Box::new(nc))) },
                                moved,
                            )
                        }
                    },
                    InputValue::Value(_) => {
                        proof {
                            assert(false);
                        }
                        (ValueCursor { index: c.index, follow: None }, false)
                    },
                }
            },
        }
    }

    fn rescale(i: usize, a: usize, b: usize) -> (r: usize)
        requires
            i <= a,
        ensures
            r == spec_rescale(i as int, a as int, b as int),
            r <= b,
    {
        if a >= b {
            let d = (a - b) / 2;
            let shifted = if i >= d {
                i - d
            } else {
                0
            };
            if shifted <= b {
                shifted
            } else {
                b
            }
        } else {
            let d = (b - a) / 2;
            if b - i <= d {
                b
            } else {
                i + d
            }
        }
    }

    /// Moves the cursor from a denominator to the matching numerator, at the
    /// deepest level it is resolved at.  Returns whether it moved; when it
    /// did not, the caller may move to the previous line instead.
    pub fn move_up(&self, cursor: &mut ValueCursor) -> (r: bool)
        requires
            cursor_ok(self@, *old(cursor)),
        ensures
            (*final(cursor), r) == spec_move_vertical(self@, *old(cursor), CursorFollow::Bottom),
    {
        self.move_vertical(cursor, CursorFollow::Bottom)
    }

    /// Moves the cursor from a numerator to the matching denominator, at the
    /// deepest level it is resolved at.  Returns whether it moved; when it
    /// did not, the caller may move to the next line instead.
    pub fn move_down(&self, cursor: &mut ValueCursor) -> (r: bool)
        requires
            cursor_ok(self@, *old(cursor)),
        ensures
            (*final(cursor), r) == spec_move_vertical(self@, *old(cursor), CursorFollow::Top),
    {
        self.move_vertical(cursor, CursorFollow::Top)
    }
}

/// Entering a fraction preserves cursor validity, and when no entry happens
/// the cursor is unchanged.
pub proof fn lemma_step_in_ok(s: Seq<TermView>, c: ValueCursor, right: bool)
    requires
        cursor_ok(s, c),
    ensures
        cursor_ok(s, spec_step_in(s, c, right).0),
        !spec_step_in(s, c, right).1 ==> spec_step_in(s, c, right).0 == c,
    decreases c,
{
    match c.follow {
        None => {
            if c.index >= 1 && s[c.index - 1] is Frac {
                let t = branch_of(s[c.index - 1], CursorFollow::Top);
                let idx: int = if right {
                    t.len() as int
                } else {
                    0
                };
                if idx <= usize::MAX as int {
                    assert(idx as usize as int == idx);
                } else {
                    assert((idx as usize as int) <= (usize::MAX as int));
                    assert((usize::MAX as int) < (t.len() as int));
                }
                assert(cursor_ok(t, ValueCursor { index: idx as usize, follow: None }));
            }
        },
        Some((side, child)) => {
            lemma_step_in_ok(branch_of(s[c.index - 1], side), *child, right);
            let r = spec_step_in(branch_of(s[c.index - 1], side), *child, right);
            if !r.1 {
                assert(spec_step_in(s, c, right).0 =~= c);
            }
        },
    }
}

/// The plain right step preserves cursor validity, and an exhausted step
/// leaves the cursor as it was.
pub proof fn lemma_move_right_inner_ok(s: Seq<TermView>, c: ValueCursor)
    requires
        cursor_ok(s, c),
    ensures
        cursor_ok(s, spec_move_right_inner(s, c).0),
        spec_move_right_inner(s, c).1 is Exhausted ==> spec_move_right_inner(s, c).0 == c,
        spec_move_right_inner(s, c).1 is Exhausted ==> c.follow is None && c.index == s.len(),
    decreases c,
{
    match c.follow {
        None => {},
        Some((side, child)) => {
            lemma_move_right_inner_ok(branch_of(s[c.index - 1], side), *child);
            let r = spec_move_right_inner(branch_of(s[c.index - 1], side), *child);
            if r.1 is Exhausted {
                assert(spec_move_right_inner(s, c).1 is Exited);
            } else {
                assert(spec_move_right_inner(s, c).1 == r.1);
            }
        },
    }
}

/// The whole right move preserves cursor validity, and an exhausted move
/// leaves the cursor as it was.
pub proof fn lemma_move_right_ok(s: Seq<TermView>, c: ValueCursor)
    requires
        cursor_ok(s, c),
    ensures
        cursor_ok(s, spec_move_right(s, c).0),
        spec_move_right(s, c).1 ==> spec_move_right(s, c).0 == c,
{
    lemma_move_right_inner_ok(s, c);
    lemma_step_in_ok(s, spec_move_right_inner(s, c).0, false);
}

/// A right move is exhausted only for a cursor resolved at the top level at
/// the very end of the line, and a move that is not exhausted never lands on
/// the bare start-of-line position.
pub proof fn lemma_move_right_not_start(s: Seq<TermView>, c: ValueCursor)
    requires
        cursor_ok(s, c),
    ensures
        (c.follow is Some || c.index < s.len()) ==> !spec_move_right(s, c).1,
        (!spec_move_right(s, c).1 && s.len() <= usize::MAX) ==> (spec_move_right(s, c).0.follow
            is Some || spec_move_right(s, c).0.index >= 1),
{
    let rin = spec_move_right_inner(s, c);
    match c.follow {
        None => {
            if c.index < s.len() {
                assert(rin.1 is Stepped);
                let e = spec_step_in(s, rin.0, false);
                if !e.1 {
                    lemma_step_in_ok(s, rin.0, false);
                }
            }
        },
        Some((side, child)) => {
            let rb = spec_move_right_inner(branch_of(s[c.index - 1], side), *child);
            assert(!(rin.1 is Exhausted));
            if rin.1 is Stepped {
                let e = spec_step_in(s, rin.0, false);
                assert(rin.0.follow is Some);
                assert(spec_step_in(s, rin.0, false).0.follow is Some);
            }
        },
    }
}

/// The plain left step preserves cursor validity, and an exhausted step
/// leaves the cursor as it was.
pub proof fn lemma_move_left_inner_ok(s: Seq<TermView>, c: ValueCursor)
    requires
        cursor_ok(s, c),
    ensures
        cursor_ok(s, spec_move_left_inner(s, c).0),
        spec_move_left_inner(s, c).1 ==> spec_move_left_inner(s, c).0 == c,
    decreases c,
{
    match c.follow {
        None => {},
        Some((side, child)) => {
            lemma_move_left_inner_ok(branch_of(s[c.index - 1], side), *child);
        },
    }
}

/// The whole left move preserves cursor validity, and an exhausted move
/// leaves the cursor as it was.
pub proof fn lemma_move_left_ok(s: Seq<TermView>, c: ValueCursor)
    requires
        cursor_ok(s, c),
    ensures
        cursor_ok(s, spec_move_left(s, c).0),
        spec_move_left(s, c).1 ==> spec_move_left(s, c).0 == c,
{
    lemma_step_in_ok(s, c, true);
    lemma_move_left_inner_ok(s, c);
}

/// Vertical movement preserves cursor validity, and leaves the cursor as it
/// was when no flip happened.
pub proof fn lemma_move_vertical_ok(s: Seq<TermView>, c: ValueCursor, which: CursorFollow)
    requires
        cursor_ok(s, c),
    ensures
        cursor_ok(s, spec_move_vertical(s, c, which).0),
        !spec_move_vertical(s, c, which).1 ==> spec_move_vertical(s, c, which).0 == c,
    decreases c,
{
    match c.follow {
        None => {},
        Some((side, child)) => {
            lemma_move_vertical_ok(branch_of(s[c.index - 1], side), *child, which);
            let t = s[c.index - 1];
            if child.follow is None && side == which {
                let a = branch_of(t, which).len() as int;
                let b = branch_of(t, which.spec_opposite()).len() as int;
                let ni = spec_rescale(child.index as int, a, b);
                assert(0 <= ni && ni <= b);
                if ni <= usize::MAX {
                    assert(ni as usize == ni);
                } else {
                    assert((ni as usize) as int <= usize::MAX < b);
                }
                assert(cursor_ok(
                    branch_of(t, which.spec_opposite()),
                    ValueCursor { index: ni as usize, follow: None },
                ));
            } else {
                let r = spec_move_vertical(branch_of(t, side), *child, which);
                if !r.1 {
                    assert(spec_move_vertical(s, c, which).0 =~= c);
                }
            }
        },
    }
}

/// Every sequence in this term, at any depth, has a length that fits in a
/// machine word.  Any tree held in real vectors satisfies this; see
/// [`lemma_seq_fits`].
pub open spec fn term_fits(t: TermView) -> bool
    decreases t, 0int,
{
    match t {
        TermView::Leaf { .. } => true,
        TermView::Frac { top, bottom } => seq_fits(top) && seq_fits(bottom),
    }
}

/// See [`term_fits`].
pub open spec fn seq_fits(s: Seq<TermView>) -> bool
    decreases s, 1int,
{
    &&& s.len() <= usize::MAX
    &&& forall|i: int| 0 <= i < s.len() ==> term_fits(#[trigger] s[i])
}

/// The model of a real line always has fitting lengths.
pub proof fn lemma_seq_fits(v: InputValues)
    ensures
        seq_fits(v@),
    decreases v,
{
    lemma_views_of(v.0@);
    assert(v.0@.len() == v.0.len());
    assert forall|i: int| 0 <= i < v@.len() implies term_fits(#[trigger] v@[i]) by {
        assert(v@[i] == v.0@[i]@);
        match v.0@[i] {
            InputValue::Value(_) => {},
            InputValue::Fraction { top, bottom } => {
                lemma_seq_fits(top);
                lemma_seq_fits(bottom);
                assert(v@[i] == TermView::Frac {
                    top: views_of(top.0@),
                    bottom: views_of(bottom.0@),
                });
            },
        }
    }
}

/// The cursor's innermost level sits in a denominator, at its very start.
pub open spec fn innermost_at_bottom_start(c: ValueCursor) -> bool
    decreases c,
{
    match c.follow {
        None => false,
        Some((side, child)) => match child.follow {
            None => side == CursorFollow::Bottom && child.index == 0,
            Some(_) => innermost_at_bottom_start(*child),
        },
    }
}

/// The cursor's innermost level sits in a denominator, at its very end.
pub open spec fn innermost_at_bottom_end(s: Seq<TermView>, c: ValueCursor) -> bool
    decreases c,
{
    match c.follow {
        None => false,
        Some((side, child)) => {
            let b = branch_of(s[c.index - 1], side);
            match child.follow {
                None => side == CursorFollow::Bottom && child.index == b.len(),
                Some(_) => innermost_at_bottom_end(b, *child),
            }
        },
    }
}

proof fn lemma_enter_then_exit(s: Seq<TermView>, c: ValueCursor)
    requires
        cursor_ok(s, c),
        seq_fits(s),
        spec_step_in(s, c, true).1,
    ensures
        spec_move_right_inner(s, spec_step_in(s, c, true).0) == (c, MoveOutcome::Exited),
    decreases c,
{
    match c.follow {
        None => {
            let i = c.index - 1;
            assert(0 <= i < s.len());
            assert(term_fits(s[i]));
            let t = branch_of(s[c.index - 1], CursorFollow::Top);
            assert(t.len() <= usize::MAX);
            let e = spec_step_in(s, c, true).0;
            assert(spec_move_right_inner(t, ValueCursor { index: t.len() as usize, follow: None }).1
                is Exhausted);
            assert(spec_move_right_inner(s, e).0 =~= c);
        },
        Some((side, child)) => {
            let i = c.index - 1;
            assert(0 <= i < s.len());
            assert(term_fits(s[i]));
            let b = branch_of(s[c.index - 1], side);
            lemma_enter_then_exit(b, *child);
            let e = spec_step_in(s, c, true).0;
            let eb = spec_step_in(b, *child, true).0;
            assert(e == ValueCursor { index: c.index, follow: Some((side, Box::new(eb))) });
            assert(spec_move_right_inner(b, eb) == (*child, MoveOutcome::Exited));
            assert(spec_move_right_inner(s, e).0 =~= c);
        },
    }
}

/// Moving left and then right returns to the starting cursor.  The two
/// exceptions: a cursor already at the very start of the line has nowhere to
/// go, and one at the start of a denominator leaves the fraction, from where
/// the right move enters the numerator instead.
pub proof fn lemma_left_then_right(s: Seq<TermView>, c: ValueCursor)
    requires
        cursor_ok(s, c),
        seq_fits(s),
        !spec_move_left(s, c).1,
        !innermost_at_bottom_start(c),
    ensures
        spec_move_right(s, spec_move_left(s, c).0) == (c, false),
    decreases c,
{
    let e = spec_step_in(s, c, true);
    if e.1 {
        lemma_enter_then_exit(s, c);
        assert(spec_move_right_inner(s, e.0) == (c, MoveOutcome::Exited));
    } else {
        match c.follow {
            None => {
                assert(c.index >= 1);
                let c1 = ValueCursor { index: (c.index - 1) as usize, follow: None };
                assert(spec_move_left(s, c).0 == c1);
                let r1 = spec_move_right_inner(s, c1);
                assert(r1 == (
                    ValueCursor { index: c.index, follow: None },
                    MoveOutcome::Stepped,
                ));
                assert(!(s[c.index - 1] is Frac));
                assert(spec_step_in(s, ValueCursor { index: c.index, follow: None }, false).0
                    =~= c);
            },
            Some((side, child)) => {
                let i = c.index - 1;
                assert(0 <= i < s.len());
                assert(term_fits(s[i]));
                let b = branch_of(s[c.index - 1], side);
                let r = spec_move_left_inner(b, *child);
                if r.1 {
                    assert(child.follow is None && child.index == 0);
                    assert(side == CursorFollow::Top);
                    let c1 = ValueCursor { index: (c.index - 1) as usize, follow: None };
                    assert(spec_move_left(s, c).0 == c1);
                    let r1 = spec_move_right_inner(s, c1);
                    assert(r1 == (
                        ValueCursor { index: c.index, follow: None },
                        MoveOutcome::Stepped,
                    ));
                    let entered = spec_step_in(
                        s,
                        ValueCursor { index: c.index, follow: None },
                        false,
                    );
                    assert(entered.1);
                    assert(entered.0 =~= c);
                } else {
                    lemma_left_then_right(b, *child);
                    let cl = spec_move_left(s, c).0;
                    assert(cl == ValueCursor { index: c.index, follow: Some((side, Box::new(r.0))) });
                    assert(spec_move_left(b, *child) == r);
                    let rb = spec_move_right(b, r.0);
                    assert(rb == (*child, false));
                    let rin = spec_move_right_inner(b, r.0);
                    assert(!(rin.1 is Exhausted));
                    if rin.1 is Stepped {
                        assert(spec_move_right(s, cl).0 == ValueCursor {
                            index: c.index,
                            follow: Some(
                                (side, Box::new(spec_step_in(b, rin.0, false).0)),
                            ),
                        });
                    }
                    assert(spec_move_right(s, cl).0 =~= c);
                    assert(!spec_move_right(s, cl).1);
                }
            },
        }
    }
}

/// Moving right and then left returns to the starting cursor.  The two
/// exceptions: a cursor already at the very end of the line has nowhere to
/// go, and one at the end of a denominator leaves the fraction, from where
/// the left move enters the numerator instead.
pub proof fn lemma_right_then_left(s: Seq<TermView>, c: ValueCursor)
    requires
        cursor_ok(s, c),
        seq_fits(s),
        !spec_move_right(s, c).1,
        !innermost_at_bottom_end(s, c),
    ensures
        spec_move_left(s, spec_move_right(s, c).0) == (c, false),
    decreases c,
{
    match c.follow {
        None => {
            assert(c.index < s.len());
            assert(s.len() <= usize::MAX);
            let c1 = ValueCursor { index: (c.index + 1) as usize, follow: None };
            assert(c1.index as int == c.index + 1);
            assert(spec_move_right_inner(s, c) == (c1, MoveOutcome::Stepped));
            if s[c.index as int] is Frac {
                let t = branch_of(s[c.index as int], CursorFollow::Top);
                let cr = spec_move_right(s, c).0;
                assert(cr == ValueCursor {
                    index: c1.index,
                    follow: Some(
                        (CursorFollow::Top, Box::new(ValueCursor { index: 0, follow: None })),
                    ),
                });
                assert(cr.index as int - 1 == c.index as int);
                let inner = spec_step_in(t, ValueCursor { index: 0, follow: None }, true);
                assert(!inner.1);
                assert(spec_step_in(s, cr, true).1 == inner.1);
                assert(spec_move_left_inner(t, ValueCursor { index: 0, follow: None }).1);
                assert(spec_move_left_inner(s, cr).0 =~= c);
            } else {
                let cr = spec_move_right(s, c).0;
                assert(cr == c1);
                assert(!spec_step_in(s, cr, true).1);
                assert(spec_move_left_inner(s, cr).0 =~= c);
            }
        },
        Some((side, child)) => {
            let i = c.index - 1;
            assert(0 <= i < s.len());
            assert(term_fits(s[i]));
            let b = branch_of(s[c.index - 1], side);
            let rin = spec_move_right_inner(b, *child);
            if rin.1 is Exhausted {
                lemma_move_right_inner_ok(b, *child);
                assert(child.follow is None && child.index == b.len());
                assert(side == CursorFollow::Top);
                let cr = spec_move_right(s, c).0;
                assert(cr == ValueCursor { index: c.index, follow: None });
                let e = spec_step_in(s, cr, true);
                assert(e.1);
                assert(b.len() <= usize::MAX);
                assert(e.0 =~= c);
            } else {
                lemma_right_then_left(b, *child);
                let rb = spec_move_right(b, *child);
                assert(!rb.1);
                let cr = spec_move_right(s, c).0;
                if rin.1 is Stepped {
                    assert(cr == ValueCursor {
                        index: c.index,
                        follow: Some((side, Box::new(spec_step_in(b, rin.0, false).0))),
                    });
                } else {
                    assert(cr == ValueCursor { index: c.index, follow: Some((side, Box::new(rin.0))) });
                }
                assert(cr == ValueCursor { index: c.index, follow: Some((side, Box::new(rb.0))) });
                let lb = spec_move_left(b, rb.0);
                assert(lb == (*child, false));
                let eb = spec_step_in(b, rb.0, true);
                if eb.1 {
                    assert(eb.0 == *child);
                    assert(spec_move_left(s, cr).0 =~= c);
                } else {
                    let li = spec_move_left_inner(b, rb.0);
                    assert(li == (*child, false));
                    assert(spec_move_left(s, cr) == spec_move_left_inner(s, cr));
                    assert(spec_move_left_inner(s, cr).0 =~= c);
                }
                assert(!spec_move_left(s, cr).1);
            }
        },
    }
}

} // verus!
