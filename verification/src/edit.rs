//! Insertion of leaves, fraction creation, and deletion: each operation
//! rewrites the term tree and the cursor together, recursing along the
//! cursor's `follow` chain.

use vstd::prelude::*;
use crate::model::{
    branch_of, cursor_depth, cursor_ok, resolved_index, resolved_seq, CursorFollow, InputValue,
    InputValues, lemma_views_of, views_of, TermView, ValueCursor,
};

verus! {

broadcast use crate::model::lemma_views_of;

/// The sequence after a new term `t` is inserted at the cursor's innermost
/// gap.
pub open spec fn seq_insert_at(s: Seq<TermView>, c: ValueCursor, t: TermView) -> Seq<TermView>
    decreases c,
{
    match c.follow {
        None => s.insert(c.index as int, t),
        Some((side, child)) => {
            let i = c.index - 1;
            match s[i] {
                TermView::Frac { top, bottom } => {
                    let nb = seq_insert_at(branch_of(s[i], side), *child, t);
                    if side == CursorFollow::Top {
                        s.update(i, TermView::Frac { top: nb, bottom })
                    } else {
                        s.update(i, TermView::Frac { top, bottom: nb })
                    }
                },
                TermView::Leaf { .. } => s,
            }
        },
    }
}

/// The cursor after an insertion at its innermost gap: the innermost index
/// advances past the new element, every ancestor level is unchanged.
pub open spec fn advanced(c: ValueCursor) -> ValueCursor
    decreases c,
{
    match c.follow {
        None => ValueCursor { index: (c.index + 1) as usize, follow: None },
        Some((side, child)) => ValueCursor {
            index: c.index,
            follow: Some((side, Box::new(advanced(*child)))),
        },
    }
}

/// The `(index, side)` pairs of every level of the cursor above the innermost
/// one.
pub open spec fn ancestor_steps(c: ValueCursor) -> Seq<(usize, CursorFollow)>
    decreases c,
{
    match c.follow {
        None => Seq::empty(),
        Some((side, child)) => seq![(c.index, side)] + ancestor_steps(*child),
    }
}

impl InputValues {
    /// Inserts `Leaf(text)` at the cursor's innermost gap.  The cursor itself
    /// is advanced separately, by [`ValueCursor::added`].
    pub fn add_text(&mut self, cursor: &ValueCursor, text: String)
        requires
            cursor_ok(old(self)@, *cursor),
        ensures
            final(self)@ == seq_insert_at(old(self)@, *cursor, TermView::Leaf { text: text@ }),
        decreases cursor,
    {
        match &cursor.follow {
            None => {
                let ghost tv = text@;
                let ghost v = InputValue::Value(text);
                self.0.insert(cursor.index, InputValue::Value(text));
                proof {
                    lemma_views_of(old(self).0@);
                    lemma_views_of(self.0@);
                    old(self).0@.insert_ensures(cursor.index as int, v);
                    old(self)@.insert_ensures(cursor.index as int, TermView::Leaf { text: tv });
                    assert(self@ =~= seq_insert_at(
                        old(self)@,
                        *cursor,
                        TermView::Leaf { text: tv },
                    ));
                }
            },
            Some((side, child)) => {
                let i = cursor.index - 1;
                proof {
                    lemma_views_of(old(self).0@);
                }
                let elem = self.0.remove(i);
                match elem {
                    InputValue::Fraction { mut top, mut bottom } => {
                        let ghost t0 = views_of(top.0@);
                        let ghost b0 = views_of(bottom.0@);
                        proof {
                            assert(old(self)@[i as int] == TermView::Frac { top: t0, bottom: b0 });
                        }
                        if *side == CursorFollow::Top {
                            top.add_text(&**child, text);
                        } else {
                            bottom.add_text(&**child, text);
                        }
                        let ghost t1 = views_of(top.0@);
                        let ghost b1 = views_of(bottom.0@);
                        let ghost ne = InputValue::Fraction { top, bottom };
                        self.0.insert(i, InputValue::Fraction { top, bottom });
                        proof {
                            lemma_views_of(self.0@);
                            let mid = old(self).0@.remove(i as int);
                            old(self).0@.remove_ensures(i as int);
                            mid.insert_ensures(i as int, ne);
                            let el = TermView::Frac { top: t1, bottom: b1 };
                            assert(self@ =~= old(self)@.update(i as int, el));
                            assert(seq_insert_at(old(self)@, *cursor, TermView::Leaf { text: text@ })
                                == old(self)@.update(i as int, el));
                        }
                    },
                    InputValue::Value(_) => {
                        proof {
                            assert(old(self)@[i as int] == old(self).0@[i as int]@);
                            assert(false);
                        }
                        self.0.insert(i, InputValue::Value(String::new()));
                    },
                }
            },
        }
    }
}

impl ValueCursor {
    /// The cursor step after an insertion: advance the innermost index by
    /// one; all ancestor levels stay as they are.
    pub fn added(&mut self)
        requires
            resolved_index(*old(self)) < usize::MAX,
        ensures
            *final(self) == advanced(*old(self)),
    {
        let c = self.clone();
        *self = Self::advance_owned(c);
    }

    fn advance_owned(c: ValueCursor) -> (r: ValueCursor)
        requires
            resolved_index(c) < usize::MAX,
        ensures
            r == advanced(c),
        decreases c,
    {
        match c.follow {
            None => ValueCursor { index: c.index + 1, follow: None },
            Some((side, child)) => ValueCursor {
                index: c.index,
                follow: Some((side, Box::new(Self::advance_owned(*child)))),
            },
        }
    }
}

/// The sequence after the element just before the cursor's innermost gap is
/// wrapped into a fraction: that element becomes the numerator of a new
/// fraction with an empty denominator.  With the gap at the very start of its
/// sequence there is nothing to wrap and the sequence is unchanged.
pub open spec fn seq_wrap_at(s: Seq<TermView>, c: ValueCursor) -> Seq<TermView>
    decreases c,
{
    match c.follow {
        None => if c.index == 0 {
            s
        } else {
            s.update(
                c.index - 1,
                TermView::Frac { top: seq![s[c.index - 1]], bottom: Seq::empty() },
            )
        },
        Some((side, child)) => {
            let i = c.index - 1;
            match s[i] {
                TermView::Frac { top, bottom } => {
                    let nb = seq_wrap_at(branch_of(s[i], side), *child);
                    if side == CursorFollow::Top {
                        s.update(i, TermView::Frac { top: nb, bottom })
                    } else {
                        s.update(i, TermView::Frac { top, bottom: nb })
                    }
                },
                TermView::Leaf { .. } => s,
            }
        },
    }
}

/// The cursor after a fraction is created at its innermost gap: it descends
/// into the new fraction's denominator, at its start.  With the gap at the
/// start of its sequence the cursor is unchanged.
pub open spec fn descended(c: ValueCursor) -> ValueCursor
    decreases c,
{
    match c.follow {
        None => if c.index == 0 {
            c
        } else {
            ValueCursor {
                index: c.index,
                follow: Some(
                    (CursorFollow::Bottom, Box::new(ValueCursor { index: 0, follow: None })),
                ),
            }
        },
        Some((side, child)) => ValueCursor {
            index: c.index,
            follow: Some((side, Box::new(descended(*child)))),
        },
    }
}

impl InputValues {
    /// Wraps the element just before the cursor's innermost gap into a
    /// fraction `element / (empty)`.  A no-op when the gap is at the start of
    /// its sequence.  The cursor itself descends separately, by
    /// [`ValueCursor::add_fraction`].
    pub fn add_fraction(&mut self, cursor: &ValueCursor)
        requires
            cursor_ok(old(self)@, *cursor),
        ensures
            final(self)@ == seq_wrap_at(old(self)@, *cursor),
        decreases cursor,
    {
        match &cursor.follow {
            None => {
                if cursor.index >= 1 {
                    let i = cursor.index - 1;
                    proof {
                        lemma_views_of(old(self).0@);
                    }
                    let value = self.0.remove(i);
                    let mut tvec: Vec<InputValue> = Vec::new();
                    tvec.push(value);
                    let top = InputValues(tvec);
                    let bottom = InputValues(Vec::new());
                    let ghost t1 = views_of(top.0@);
                    let ghost b1 = views_of(bottom.0@);
                    let ghost ne = InputValue::Fraction { top, bottom };
                    self.0.insert(i, InputValue::Fraction { top, bottom });
                    proof {
                        lemma_views_of(self.0@);
                        let mid = old(self).0@.remove(i as int);
                        old(self).0@.remove_ensures(i as int);
                        mid.insert_ensures(i as int, ne);
                        assert(t1 =~= seq![old(self)@[i as int]]);
                        assert(b1 =~= Seq::<TermView>::empty());
                        let el = TermView::Frac { top: t1, bottom: b1 };
                        assert(self@ =~= old(self)@.update(i as int, el));
                        assert(seq_wrap_at(old(self)@, *cursor) == old(self)@.update(i as int, el));
                    }
                }
            },
            Some((side, child)) => {
                let i = cursor.index - 1;
                proof {
                    lemma_views_of(old(self).0@);
                }
                let elem = self.0.remove(i);
                match elem {
                    InputValue::Fraction { mut top, mut bottom } => {
                        let ghost t0 = views_of(top.0@);
                        let ghost b0 = views_of(bottom.0@);
                        proof {
                            assert(old(self)@[i as int] == TermView::Frac { top: t0, bottom: b0 });
                        }
                        if *side == CursorFollow::Top {
                            top.add_fraction(&**child);
                        } else {
                            bottom.add_fraction(&**child);
                        }
                        let ghost t1 = views_of(top.0@);
                        let ghost b1 = views_of(bottom.0@);
                        let ghost ne = InputValue::Fraction { top, bottom };
                        self.0.insert(i, InputValue::Fraction { top, bottom });
                        proof {
                            lemma_views_of(self.0@);
                            let mid = old(self).0@.remove(i as int);
                            old(self).0@.remove_ensures(i as int);
                            mid.insert_ensures(i as int, ne);
                            let el = TermView::Frac { top: t1, bottom: b1 };
                            assert(self@ =~= old(self)@.update(i as int, el));
                            assert(seq_wrap_at(old(self)@, *cursor) == old(self)@.update(
                                i as int,
                                el,
                            ));
                        }
                    },
                    InputValue::Value(_) => {
                        proof {
                            assert(old(self)@[i as int] == old(self).0@[i as int]@);
                            assert(false);
                        }
                        self.0.insert(i, InputValue::Value(String::new()));
                    },
                }
            },
        }
    }
}

impl ValueCursor {
    /// The cursor step after a fraction is created at its innermost gap:
    /// descend into the new fraction's denominator, unless the gap was at the
    /// start of its sequence.
    pub fn add_fraction(&mut self)
        ensures
            *final(self) == descended(*old(self)),
    {
        let c = self.clone();
        *self = Self::descend_owned(c);
    }

    fn descend_owned(c: ValueCursor) -> (r: ValueCursor)
        ensures
            r == descended(c),
        decreases c,
    {
        match c.follow {
            None => {
                if c.index != 0 {
                    ValueCursor {
                        index: c.index,
                        follow: Some(
                            (CursorFollow::Bottom, Box::new(ValueCursor { index: 0, follow: None })),
                        ),
                    }
                } else {
                    ValueCursor { index: c.index, follow: None }
                }
            },
            Some((side, child)) => ValueCursor {
                index: c.index,
                follow: Some((side, Box::new(Self::descend_owned(*child)))),
            },
        }
    }
}

/// Creating a fraction at a valid cursor keeps the descended cursor valid and
/// keeps the length of the sequence at that depth unchanged (one element is
/// replaced by one fraction).  At an innermost gap index of zero the whole
/// tree is unchanged; otherwise the cursor descends to index zero, with no
/// further `follow`, inside the new fraction's denominator, which is empty.
pub proof fn lemma_wrap_fraction(s: Seq<TermView>, c: ValueCursor)
    requires
        cursor_ok(s, c),
    ensures
        cursor_ok(seq_wrap_at(s, c), descended(c)),
        seq_wrap_at(s, c).len() == s.len(),
        resolved_seq(seq_wrap_at(s, c), c).len() == resolved_seq(s, c).len(),
        resolved_index(c) == 0 ==> seq_wrap_at(s, c) == s && descended(c) == c,
        resolved_index(c) != 0 ==> {
            &&& resolved_index(descended(c)) == 0
            &&& resolved_seq(seq_wrap_at(s, c), descended(c)) == Seq::<TermView>::empty()
            &&& cursor_depth(descended(c)) == cursor_depth(c) + 1
        },
    decreases c,
{
    match c.follow {
        None => {
            if c.index != 0 {
                let s2 = seq_wrap_at(s, c);
                let d = descended(c);
                let inner = ValueCursor { index: 0, follow: None };
                assert(branch_of(s2[c.index - 1], CursorFollow::Bottom)
                    =~= Seq::<TermView>::empty());
                assert(cursor_ok(Seq::<TermView>::empty(), inner));
                assert(resolved_index(inner) == 0);
                assert(resolved_seq(s2, d) == resolved_seq(
                    branch_of(s2[c.index - 1], CursorFollow::Bottom),
                    inner,
                ));
                assert(resolved_index(d) == 0);
                assert(resolved_seq(s2, d) == Seq::<TermView>::empty());
                assert(cursor_depth(inner) == 0);
                assert(cursor_depth(d) == cursor_depth(c) + 1);
            }
        },
        Some((side, child)) => {
            lemma_wrap_fraction(branch_of(s[c.index - 1], side), *child);
            let b = branch_of(s[c.index - 1], side);
            let s2 = seq_wrap_at(s, c);
            let d = descended(c);
            assert(branch_of(s2[c.index - 1], side) == seq_wrap_at(b, *child));
            assert(resolved_seq(s2, d) == resolved_seq(seq_wrap_at(b, *child), descended(*child)));
            assert(resolved_seq(s2, c) == resolved_seq(seq_wrap_at(b, *child), *child));
            assert(resolved_index(c) == resolved_index(*child));
            assert(resolved_index(d) == resolved_index(descended(*child)));
            assert(cursor_depth(d) == 1 + cursor_depth(descended(*child)));
            assert(cursor_depth(c) == 1 + cursor_depth(*child));
            if resolved_index(c) != 0 {
                assert(resolved_index(d) == 0);
                assert(resolved_seq(s2, d) == Seq::<TermView>::empty());
                assert(cursor_depth(d) == cursor_depth(c) + 1);
            }
        },
    }
}
/// the owning (innermost) sequence by exactly one element, advances that
/// depth's index by exactly one, and leaves every ancestor level of the
/// cursor unchanged.
/// An insertion at the cursor's innermost gap leaves the cursor itself
/// valid, and grows the sequence it resolves to by one.
pub proof fn lemma_insert_keeps_cursor(s: Seq<TermView>, c: ValueCursor, t: TermView)
    requires
        cursor_ok(s, c),
    ensures
        cursor_ok(seq_insert_at(s, c, t), c),
        resolved_seq(seq_insert_at(s, c, t), c).len() == resolved_seq(s, c).len() + 1,
    decreases c,
{
    match c.follow {
        None => {},
        Some((side, child)) => {
            lemma_insert_keeps_cursor(branch_of(s[c.index - 1], side), *child, t);
        },
    }
}

pub proof fn lemma_insert_leaf(s: Seq<TermView>, c: ValueCursor, t: TermView)
    requires
        cursor_ok(s, c),
        resolved_index(c) < usize::MAX,
    ensures
        cursor_ok(seq_insert_at(s, c, t), advanced(c)),
        resolved_seq(seq_insert_at(s, c, t), advanced(c)).len() == resolved_seq(s, c).len() + 1,
        resolved_index(advanced(c)) == resolved_index(c) + 1,
        ancestor_steps(advanced(c)) == ancestor_steps(c),
        seq_insert_at(s, c, t).len() == s.len() + if c.follow is None { 1int } else { 0int },
    decreases c,
{
    match c.follow {
        None => {},
        Some((side, child)) => {
            lemma_insert_leaf(branch_of(s[c.index - 1], side), *child, t);
            assert(ancestor_steps(advanced(c)) =~= ancestor_steps(c));
        },
    }
}

/// The tree, cursor and "request parent removal" signal after a deletion at
/// the cursor's innermost gap.  With the gap after at least one element, the
/// element before it is removed and the gap moves back by one.  With the gap
/// at the start of its sequence, the deletion asks the enclosing level to
/// dissolve the fraction the cursor sits in: the fraction is replaced by the
/// whole content of its other branch, spliced in place, and the cursor stops
/// descending there, its index pulled back into range if the splice shrank
/// the sequence.  At the outermost level the signal is handed to the caller.
pub open spec fn seq_remove_at(s: Seq<TermView>, c: ValueCursor) -> (Seq<TermView>, ValueCursor, bool)
    decreases c,
{
    match c.follow {
        None => {
            if c.index >= 1 {
                (
                    s.remove(c.index - 1),
                    ValueCursor { index: (c.index - 1) as usize, follow: None },
                    false,
                )
            } else {
                (s, c, true)
            }
        },
        Some((side, child)) => {
            let i = c.index - 1;
            match s[i] {
                TermView::Frac { top, bottom } => {
                    let (nb, nc, req) = seq_remove_at(branch_of(s[i], side), *child);
                    if req {
                        let surv = branch_of(s[i], side.spec_opposite());
                        let s2 = s.take(i) + surv + s.skip(i + 1);
                        let ni = if c.index <= s2.len() {
                            c.index as int
                        } else {
                            s2.len() as int
                        };
                        (s2, ValueCursor { index: ni as usize, follow: None }, false)
                    } else {
                        let s2 = if side == CursorFollow::Top {
                            s.update(i, TermView::Frac { top: nb, bottom })
                        } else {
                            s.update(i, TermView::Frac { top, bottom: nb })
                        };
                        (s2, ValueCursor { index: c.index, follow: Some((side, Box::new(nc))) }, false)
                    }
                },
                TermView::Leaf { .. } => (s, c, false),
            }
        },
    }
}

impl InputValues {
    /// Splices `values` into this sequence at `index`, keeping the order of
    /// both parts.
    fn insert_all(&mut self, index: usize, values: InputValues)
        requires
            index <= old(self).0@.len(),
        ensures
            final(self)@ == old(self)@.take(index as int) + values@ + old(self)@.skip(index as int),
    {
        let mut values = values;
        let ghost vall = values.0@;
        let mut tail = self.0.split_off(index);
        self.0.append(&mut values.0);
        self.0.append(&mut tail);
        proof {
            lemma_views_of(old(self).0@);
            lemma_views_of(self.0@);
            lemma_views_of(vall);
            assert(self.0@ =~= old(self).0@.take(index as int) + vall + old(self).0@.skip(
                index as int,
            ));
            assert(self@ =~= old(self)@.take(index as int) + views_of(vall) + old(self)@.skip(
                index as int,
            ));
        }
    }

    /// Replaces the element at `index` by the whole content of `values`,
    /// spliced in place.
    pub fn replace(&mut self, index: usize, values: InputValues)
        requires
            index < old(self).0@.len(),
        ensures
            final(self)@ == old(self)@.take(index as int) + values@ + old(self)@.skip(
                index as int + 1,
            ),
    {
        proof {
            lemma_views_of(old(self).0@);
        }
        self.0.remove(index);
        let ghost mid = self.0@;
        self.insert_all(index, values);
        proof {
            lemma_views_of(mid);
            old(self).0@.remove_ensures(index as int);
            assert(views_of(mid).take(index as int) =~= old(self)@.take(index as int));
            assert(views_of(mid).skip(index as int) =~= old(self)@.skip(index as int + 1));
        }
    }

    /// Deletes the element before the cursor's innermost gap, dissolving the
    /// enclosing fraction when the gap is at the start of a branch.  Returns
    /// the "request parent removal" signal: true exactly when the cursor was
    /// at the start of this outermost sequence, with no `follow`, so that the
    /// caller has to act one level further out.
    pub fn remove_single(&mut self, cursor: &mut ValueCursor) -> (r: bool)
        requires
            cursor_ok(old(self)@, *old(cursor)),
        ensures
            ({
                let (s2, c2, req) = seq_remove_at(old(self)@, *old(cursor));
                final(self)@ == s2 && *final(cursor) == c2 && r == req
            }),
    {
        let c = cursor.clone();
        let (c2, r) = self.remove_step(c);
        *cursor = c2;
        r
    }

    #[verifier::rlimit(60)]
    fn remove_step(&mut self, c: ValueCursor) -> (res: (ValueCursor, bool))
        requires
            cursor_ok(old(self)@, c),
        ensures
            ({
                let (s2, c2, req) = seq_remove_at(old(self)@, c);
                final(self)@ == s2 && res.0 == c2 && res.1 == req
            }),
        decreases c,
    {
        match c.follow {
            None => {
                if c.index >= 1 {
                    let i = c.index - 1;
                    proof {
                        lemma_views_of(old(self).0@);
                    }
                    self.0.remove(i);
                    proof {
                        lemma_views_of(self.0@);
                        old(self).0@.remove_ensures(i as int);
                        old(self)@.remove_ensures(i as int);
                        assert(self@ =~= old(self)@.remove(i as int));
                    }
                    (ValueCursor { index: i, follow: None }, false)
                } else {
                    (ValueCursor { index: 0, follow: None }, true)
                }
            },
            Some((side, child)) => {
                let i = c.index - 1;
                proof {
                    lemma_views_of(old(self).0@);
                }
                let elem = self.0.remove(i);
                match elem {
                    InputValue::Fraction { top, bottom } => {
                        let ghost t0 = views_of(top.0@);
                        let ghost b0 = views_of(bottom.0@);
                        proof {
                            assert(old(self)@[i as int] == TermView::Frac { top: t0, bottom: b0 });
                        }
                        if side == CursorFollow::Top {
                            let mut top = top;
                            let (nc, req) = top.remove_step(*child);
                            if req {
                                self.insert_all(i, bottom);
                                let nlen = self.0.len();
                                let ni = if c.index <= nlen {
                                    c.index
                                } else {
                                    nlen
                                };
                                proof {
                                    lemma_views_of(self.0@);
                                    old(self).0@.remove_ensures(i as int);
                                    assert(self@ =~= old(self)@.take(i as int) + b0
                                        + old(self)@.skip(i as int + 1));
                                }
                                (ValueCursor { index: ni, follow: None }, false)
                            } else {
                                let ghost t1 = views_of(top.0@);
                                let ghost ne = InputValue::Fraction { top, bottom };
                                self.0.insert(i, InputValue::Fraction { top, bottom });
                                proof {
                                    lemma_views_of(self.0@);
                                    let mid = old(self).0@.remove(i as int);
                                    old(self).0@.remove_ensures(i as int);
                                    mid.insert_ensures(i as int, ne);
                                    let el = TermView::Frac { top: t1, bottom: b0 };
                                    assert(self@ =~= old(self)@.update(i as int, el));
                                }
                                (
                                    ValueCursor { index: c.index, follow: Some((side, Box::new(nc))) },
                                    false,
                                )
                            }
                        } else {
                            let mut bottom = bottom;
                            let (nc, req) = bottom.remove_step(*child);
                            if req {
                                self.insert_all(i, top);
                                let nlen = self.0.len();
                                let ni = if c.index <= nlen {
                                    c.index
                                } else {
                                    nlen
                                };
                                proof {
                                    lemma_views_of(self.0@);
                                    old(self).0@.remove_ensures(i as int);
                                    assert(self@ =~= old(self)@.take(i as int) + t0
                                        + old(self)@.skip(i as int + 1));
                                }
                                (ValueCursor { index: ni, follow: None }, false)
                            } else {
                                let ghost b1 = views_of(bottom.0@);
                                let ghost ne = InputValue::Fraction { top, bottom };
                                self.0.insert(i, InputValue::Fraction { top, bottom });
                                proof {
                                    lemma_views_of(self.0@);
                                    let mid = old(self).0@.remove(i as int);
                                    old(self).0@.remove_ensures(i as int);
                                    mid.insert_ensures(i as int, ne);
                                    let el = TermView::Frac { top: t0, bottom: b1 };
                                    assert(self@ =~= old(self)@.update(i as int, el));
                                }
                                (
                                    ValueCursor { index: c.index, follow: Some((side, Box::new(nc))) },
                                    false,
                                )
                            }
                        }
                    },
                    InputValue::Value(_) => {
                        proof {
                            assert(old(self)@[i as int] == old(self).0@[i as int]@);
                            assert(false);
                        }
                        self.0.insert(i, InputValue::Value(String::new()));
                        (ValueCursor { index: 0, follow: None }, false)
                    },
                }
            },
        }
    }
}

/// Deleting at a valid cursor leaves a valid tree-and-cursor pair: the new
/// cursor is valid in the new tree, and when the deletion asks the caller to
/// act (the signal is true) nothing has changed.
pub proof fn lemma_remove_single(s: Seq<TermView>, c: ValueCursor)
    requires
        cursor_ok(s, c),
    ensures
        ({
            let (s2, c2, req) = seq_remove_at(s, c);
            &&& cursor_ok(s2, c2)
            &&& (req ==> s2 == s && c2 == c)
        }),
    decreases c,
{
    match c.follow {
        None => {},
        Some((side, child)) => {
            lemma_remove_single(branch_of(s[c.index - 1], side), *child);
        },
    }
}

} // verus!
