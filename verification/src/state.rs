//! The whole document: a list of lines with one cursor, and the operations
//! an input event triggers.

use vstd::prelude::*;
use crate::model::{
    cursor_ok, lemma_resolved_fits, lemma_views_of, resolved_index, InputValues, TermView,
    ValueCursor,
};
use crate::edit::{advanced, descended, seq_insert_at, seq_remove_at, seq_wrap_at};
use crate::edit::{
    lemma_insert_keeps_cursor, lemma_insert_leaf, lemma_remove_single, lemma_wrap_fraction,
};
use crate::moves::{
    lemma_move_left_ok, lemma_move_right_not_start, lemma_move_right_ok, lemma_move_vertical_ok,
    spec_move_left, spec_move_right, spec_move_vertical,
};
use crate::model::CursorFollow;
use crate::layout::{
    half_toward_zero, layout_wf, seq_leaves, spec_combine_layout, spec_half_trunc,
    spec_seq_layout, spec_shift_layout, LayoutView, RectV, RenderRect, RenderResult,
};

verus! {

broadcast use crate::model::lemma_views_of;

/// The document cursor: a line number and a recursive position in that line.
#[derive(Debug)]
pub struct Cursor {
    pub line: usize,
    pub value: ValueCursor,
}

/// The whole editor state: the lines of the document and the cursor.
#[derive(Debug)]
pub struct ProgramState {
    pub cursor: Cursor,
    pub lines: Vec<InputValues>,
}

impl ProgramState {
    /// The mathematical model of the document: its lines, line by line.
    pub open spec fn doc(self) -> Seq<Seq<TermView>> {
        Seq::new(self.lines@.len(), |i: int| self.lines@[i]@)
    }

    /// The state invariant: at least one line, the cursor on an existing
    /// line, and the cursor valid in that line.
    pub open spec fn wf(self) -> bool {
        &&& self.lines@.len() >= 1
        &&& (self.cursor.line as int) < self.lines@.len()
        &&& cursor_ok(self.doc()[self.cursor.line as int], self.cursor.value)
    }

    /// A document of one empty line, the cursor at its start.
    pub fn new() -> (r: Self)
        ensures
            r.wf(),
            r.doc() =~= seq![Seq::<TermView>::empty()],
            r.cursor.line == 0,
            r.cursor.value.index == 0,
            r.cursor.value.follow is None,
    {
        let mut lines: Vec<InputValues> = Vec::new();
        lines.push(InputValues(Vec::new()));
        let r = ProgramState {
            cursor: Cursor { line: 0, value: ValueCursor { index: 0, follow: None } },
            lines,
        };
        proof {
            assert(r.doc() =~= seq![Seq::<TermView>::empty()]);
        }
        r
    }

    /// Handles typed text: the literal `"/"` wraps the element before the
    /// cursor into a fraction; anything else is inserted as one new leaf.
    pub fn add_text(&mut self, text: String)
        requires
            old(self).wf(),
        ensures
            final(self).wf(),
            final(self).cursor.line == old(self).cursor.line,
            ({
                let l = old(self).cursor.line as int;
                let s = old(self).doc()[l];
                let c = old(self).cursor.value;
                if text@ == "/"@ {
                    &&& final(self).doc() == old(self).doc().update(l, seq_wrap_at(s, c))
                    &&& final(self).cursor.value == descended(c)
                } else {
                    &&& final(self).doc() == old(self).doc().update(
                        l,
                        seq_insert_at(s, c, TermView::Leaf { text: text@ }),
                    )
                    &&& final(self).cursor.value == advanced(c)
                }
            }),
    {
        let slash = "/".to_string();
        proof {
            broadcast use vstd::string::to_string_from_display_ensures_for_str;

            reveal_strlit("/");
        }
        if text == slash {
            self.add_fraction();
        } else {
            self.add_normal(text);
        }
    }

    /// Splits the current line at the cursor into two lines, the cursor
    /// landing at the start of the second.  A cursor that descends into a
    /// fraction splits nothing.
    pub fn new_line(&mut self)
        requires
            old(self).wf(),
        ensures
            final(self).wf(),
            ({
                let l = old(self).cursor.line as int;
                let s = old(self).doc()[l];
                let c = old(self).cursor.value;
                if c.follow is Some {
                    *final(self) == *old(self)
                } else {
                    &&& final(self).doc() == old(self).doc().update(l, s.take(c.index as int))
                        .insert(l + 1, s.skip(c.index as int))
                    &&& final(self).cursor.line == l + 1
                    &&& final(self).cursor.value == (ValueCursor { index: 0, follow: None })
                }
            }),
    {
        if self.cursor.value.follow.is_some() {
            return ;
        }
        let ghost old_doc = self.doc();
        proof {
            assert(self.lines@.len() == self.lines.len());
        }
        let l = self.cursor.line;
        let rest = self.lines[l].0.split_off(self.cursor.value.index);
        self.cursor.line = l + 1;
        self.cursor.value = ValueCursor { index: 0, follow: None };
        self.lines.insert(l + 1, InputValues(rest));
        proof {
            let gl = l as int;
            let s = old_doc[gl];
            let c = old(self).cursor.value;
            lemma_views_of(old(self).lines@[gl].0@);
            lemma_views_of(self.lines@[gl].0@);
            lemma_views_of(self.lines@[gl + 1].0@);
            assert(self.lines@[gl]@ =~= s.take(c.index as int));
            assert(self.lines@[gl + 1]@ =~= s.skip(c.index as int));
            assert(self.doc() =~= old_doc.update(gl, s.take(c.index as int)).insert(
                gl + 1,
                s.skip(c.index as int),
            ));
        }
    }

    fn add_normal(&mut self, text: String)
        requires
            old(self).wf(),
        ensures
            final(self).wf(),
            final(self).cursor.line == old(self).cursor.line,
            final(self).doc() == old(self).doc().update(
                old(self).cursor.line as int,
                seq_insert_at(
                    old(self).doc()[old(self).cursor.line as int],
                    old(self).cursor.value,
                    TermView::Leaf { text: text@ },
                ),
            ),
            final(self).cursor.value == advanced(old(self).cursor.value),
    {
        let ghost l = self.cursor.line as int;
        let ghost s = self.doc()[l];
        let ghost c = self.cursor.value;
        let ghost t = TermView::Leaf { text: text@ };
        proof {
            lemma_resolved_fits(old(self).lines@[l], c);
            lemma_insert_keeps_cursor(s, c, t);
        }
        let li = self.cursor.line;
        self.lines[li].add_text(&self.cursor.value, text);
        proof {
            lemma_resolved_fits(self.lines@[l], c);
            assert(resolved_index(c) < usize::MAX);
            lemma_insert_leaf(s, c, t);
        }
        self.cursor.value.added();
        proof {
            assert(self.doc() =~= old(self).doc().update(l, seq_insert_at(s, c, t)));
        }
    }

    fn add_fraction(&mut self)
        requires
            old(self).wf(),
        ensures
            final(self).wf(),
            final(self).cursor.line == old(self).cursor.line,
            final(self).doc() == old(self).doc().update(
                old(self).cursor.line as int,
                seq_wrap_at(old(self).doc()[old(self).cursor.line as int], old(self).cursor.value),
            ),
            final(self).cursor.value == descended(old(self).cursor.value),
    {
        let ghost l = self.cursor.line as int;
        let ghost s = self.doc()[l];
        let ghost c = self.cursor.value;
        proof {
            lemma_wrap_fraction(s, c);
        }
        let li = self.cursor.line;
        self.lines[li].add_fraction(&self.cursor.value);
        self.cursor.value.add_fraction();
        proof {
            assert(self.doc() =~= old(self).doc().update(l, seq_wrap_at(s, c)));
        }
    }

    /// Deletes backward: inside a line, the element before the cursor's
    /// innermost gap, dissolving a fraction when the gap is at the start of
    /// a branch; at the very start of a line, the line is merged into the
    /// one above it, the cursor landing at the join.  At the start of the
    /// whole document nothing happens.
    pub fn remove_single(&mut self)
        requires
            old(self).wf(),
        ensures
            final(self).wf(),
            ({
                let l = old(self).cursor.line as int;
                let s = old(self).doc()[l];
                let c = old(self).cursor.value;
                if c.follow is None && c.index == 0 {
                    if l == 0 {
                        *final(self) == *old(self)
                    } else {
                        &&& final(self).doc() == old(self).doc().update(
                            l - 1,
                            old(self).doc()[l - 1] + s,
                        ).remove(l)
                        &&& final(self).cursor.line == l - 1
                        &&& final(self).cursor.value == (ValueCursor {
                            index: old(self).doc()[l - 1].len() as usize,
                            follow: None,
                        })
                    }
                } else {
                    &&& final(self).doc() == old(self).doc().update(l, seq_remove_at(s, c).0)
                    &&& final(self).cursor.line == l
                    &&& final(self).cursor.value == seq_remove_at(s, c).1
                }
            }),
    {
        let ghost l = self.cursor.line as int;
        let ghost s = self.doc()[l];
        let ghost c = self.cursor.value;
        if self.cursor.value.follow.is_none() && self.cursor.value.index == 0 {
            if self.cursor.line == 0 {
                return ;
            }
            let li = self.cursor.line;
            let mut previous = self.lines.remove(li);
            self.cursor.line = li - 1;
            let plen = self.lines[li - 1].0.len();
            self.cursor.value = ValueCursor { index: plen, follow: None };
            self.lines[li - 1].0.append(&mut previous.0);
            proof {
                lemma_views_of(old(self).lines@[l - 1].0@);
                lemma_views_of(old(self).lines@[l].0@);
                lemma_views_of(self.lines@[l - 1].0@);
                assert(self.lines@[l - 1]@ =~= old(self).doc()[l - 1] + s);
                assert(self.doc() =~= old(self).doc().update(l - 1, old(self).doc()[l - 1] + s)
                    .remove(l));
            }
        } else {
            proof {
                lemma_remove_single(s, c);
            }
            let li = self.cursor.line;
            self.lines[li].remove_single(&mut self.cursor.value);
            proof {
                assert(self.doc() =~= old(self).doc().update(l, seq_remove_at(s, c).0));
            }
        }
    }

    /// Deletes forward: one step right, then a backward delete — except at
    /// the very end of a line, where the next line is merged into this one
    /// and the cursor stays put.  At the end of the whole document nothing
    /// happens.
    pub fn remove_next_single(&mut self)
        requires
            old(self).wf(),
        ensures
            final(self).wf(),
            ({
                let l = old(self).cursor.line as int;
                let s = old(self).doc()[l];
                let c = old(self).cursor.value;
                if c.follow is None && c.index == s.len() {
                    if l + 1 < old(self).doc().len() {
                        &&& final(self).doc() == old(self).doc().update(
                            l,
                            s + old(self).doc()[l + 1],
                        ).remove(l + 1)
                        &&& final(self).cursor.line == l
                        &&& final(self).cursor.value == c
                    } else {
                        *final(self) == *old(self)
                    }
                } else {
                    &&& final(self).doc() == old(self).doc().update(
                        l,
                        seq_remove_at(s, spec_move_right(s, c).0).0,
                    )
                    &&& final(self).cursor.line == l
                    &&& final(self).cursor.value == seq_remove_at(s, spec_move_right(s, c).0).1
                }
            }),
    {
        let ghost l = self.cursor.line as int;
        let ghost s = self.doc()[l];
        let ghost c = self.cursor.value;
        let li = self.cursor.line;
        proof {
            assert(self.lines@.len() == self.lines.len());
            lemma_views_of(self.lines@[l].0@);
        }
        let line_length = self.lines[li].0.len();
        if self.cursor.value.follow.is_none() && self.cursor.value.index == line_length {
            if self.lines.len() - 1 > li {
                let mut line = self.lines.remove(li + 1);
                self.lines[li].0.append(&mut line.0);
                proof {
                    lemma_views_of(old(self).lines@[l + 1].0@);
                    lemma_views_of(self.lines@[l].0@);
                    assert(self.lines@[l]@ =~= s + old(self).doc()[l + 1]);
                    assert(self.doc() =~= old(self).doc().update(l, s + old(self).doc()[l + 1])
                        .remove(l + 1));
                }
            }
        } else {
            proof {
                lemma_move_right_ok(s, c);
                assert(!spec_move_right(s, c).1);
                let c1 = spec_move_right(s, c).0;
                lemma_move_right_not_start(s, c);
                lemma_remove_single(s, c1);
            }
            self.move_right();
            self.remove_single();
        }
    }

    /// Moves the cursor one gap to the left; at the start of a line it moves
    /// to the end of the previous line instead, if there is one.
    pub fn move_left(&mut self)
        requires
            old(self).wf(),
        ensures
            final(self).wf(),
            ({
                let l = old(self).cursor.line as int;
                let s = old(self).doc()[l];
                let c = old(self).cursor.value;
                let r = spec_move_left(s, c);
                if !r.1 {
                    &&& final(self).cursor.line == l
                    &&& final(self).cursor.value == r.0
                    &&& final(self).doc() == old(self).doc()
                } else if l > 0 {
                    &&& final(self).cursor.line == l - 1
                    &&& final(self).cursor.value == (ValueCursor {
                        index: old(self).doc()[l - 1].len() as usize,
                        follow: None,
                    })
                    &&& final(self).doc() == old(self).doc()
                } else {
                    *final(self) == *old(self)
                }
            }),
    {
        let ghost l = self.cursor.line as int;
        let ghost s = self.doc()[l];
        proof {
            lemma_move_left_ok(s, self.cursor.value);
        }
        let li = self.cursor.line;
        let exhausted = self.lines[li].move_left(&mut self.cursor.value);
        if exhausted {
            if li > 0 {
                self.cursor.line = li - 1;
                let plen = self.lines[li - 1].0.len();
                self.cursor.value = ValueCursor { index: plen, follow: None };
                proof {
                    lemma_views_of(self.lines@[l - 1].0@);
                }
            }
        }
        proof {
            assert(self.doc() =~= old(self).doc());
        }
    }

    /// Moves the cursor one gap to the right; at the end of a line it moves
    /// to the start of the next line instead, if there is one.
    pub fn move_right(&mut self)
        requires
            old(self).wf(),
        ensures
            final(self).wf(),
            ({
                let l = old(self).cursor.line as int;
                let s = old(self).doc()[l];
                let c = old(self).cursor.value;
                let r = spec_move_right(s, c);
                if !r.1 {
                    &&& final(self).cursor.line == l
                    &&& final(self).cursor.value == r.0
                    &&& final(self).doc() == old(self).doc()
                } else if l + 1 < old(self).doc().len() {
                    &&& final(self).cursor.line == l + 1
                    &&& final(self).cursor.value == (ValueCursor { index: 0, follow: None })
                    &&& final(self).doc() == old(self).doc()
                } else {
                    *final(self) == *old(self)
                }
            }),
    {
        let ghost l = self.cursor.line as int;
        let ghost s = self.doc()[l];
        proof {
            lemma_move_right_ok(s, self.cursor.value);
        }
        let li = self.cursor.line;
        proof {
            assert(self.lines@.len() == self.lines.len());
        }
        let exhausted = self.lines[li].move_right(&mut self.cursor.value);
        if exhausted {
            if li + 1 < self.lines.len() {
                self.cursor.line = li + 1;
                self.cursor.value = ValueCursor { index: 0, follow: None };
            }
        }
        proof {
            assert(self.doc() =~= old(self).doc());
        }
    }

    fn truncate_index(&mut self)
        requires
            old(self).lines@.len() >= 1,
            (old(self).cursor.line as int) < old(self).lines@.len(),
            old(self).cursor.value.follow is None,
        ensures
            final(self).wf(),
            final(self).doc() == old(self).doc(),
            final(self).cursor.line == old(self).cursor.line,
            final(self).cursor.value.follow is None,
            final(self).cursor.value.index as int == if old(self).cursor.value.index as int
                <= old(self).doc()[old(self).cursor.line as int].len() {
                old(self).cursor.value.index as int
            } else {
                old(self).doc()[old(self).cursor.line as int].len() as int
            },
    {
        let li = self.cursor.line;
        let len = self.lines[li].0.len();
        proof {
            lemma_views_of(self.lines@[li as int].0@);
        }
        if self.cursor.value.index > len {
            self.cursor.value = ValueCursor { index: len, follow: None };
        } else {
            self.cursor.value = ValueCursor { index: self.cursor.value.index, follow: None };
        }
        proof {
            assert(self.doc() =~= old(self).doc());
        }
    }

    /// Moves the cursor from a denominator to the matching numerator; a
    /// cursor not inside any fraction moves to the previous line instead,
    /// its index cut back to that line's length.
    pub fn move_up(&mut self)
        requires
            old(self).wf(),
        ensures
            final(self).wf(),
            final(self).doc() == old(self).doc(),
            ({
                let l = old(self).cursor.line as int;
                let s = old(self).doc()[l];
                let c = old(self).cursor.value;
                let r = spec_move_vertical(s, c, CursorFollow::Bottom);
                if r.1 {
                    final(self).cursor.line == l && final(self).cursor.value == r.0
                } else if c.follow is None && l > 0 {
                    &&& final(self).cursor.line == l - 1
                    &&& final(self).cursor.value.follow is None
                    &&& final(self).cursor.value.index as int == if c.index as int <= old(
                        self,
                    ).doc()[l - 1].len() {
                        c.index as int
                    } else {
                        old(self).doc()[l - 1].len() as int
                    }
                } else {
                    final(self).cursor.line == l && final(self).cursor.value == c
                }
            }),
    {
        let ghost l = self.cursor.line as int;
        let ghost s = self.doc()[l];
        proof {
            lemma_move_vertical_ok(s, self.cursor.value, CursorFollow::Bottom);
        }
        let li = self.cursor.line;
        let moved = self.lines[li].move_up(&mut self.cursor.value);
        if !moved {
            if self.cursor.value.follow.is_none() && li > 0 {
                self.cursor.line = li - 1;
                self.truncate_index();
            }
        }
        proof {
            assert(self.doc() =~= old(self).doc());
        }
    }

    /// Moves the cursor from a numerator to the matching denominator; a
    /// cursor not inside any fraction moves to the next line instead, its
    /// index cut back to that line's length.
    pub fn move_down(&mut self)
        requires
            old(self).wf(),
        ensures
            final(self).wf(),
            final(self).doc() == old(self).doc(),
            ({
                let l = old(self).cursor.line as int;
                let s = old(self).doc()[l];
                let c = old(self).cursor.value;
                let r = spec_move_vertical(s, c, CursorFollow::Top);
                if r.1 {
                    final(self).cursor.line == l && final(self).cursor.value == r.0
                } else if c.follow is None && l + 1 < old(self).doc().len() {
                    &&& final(self).cursor.line == l + 1
                    &&& final(self).cursor.value.follow is None
                    &&& final(self).cursor.value.index as int == if c.index as int <= old(
                        self,
                    ).doc()[l + 1].len() {
                        c.index as int
                    } else {
                        old(self).doc()[l + 1].len() as int
                    }
                } else {
                    final(self).cursor.line == l && final(self).cursor.value == c
                }
            }),
    {
        let ghost l = self.cursor.line as int;
        let ghost s = self.doc()[l];
        proof {
            lemma_move_vertical_ok(s, self.cursor.value, CursorFollow::Top);
        }
        let li = self.cursor.line;
        proof {
            assert(self.lines@.len() == self.lines.len());
        }
        let moved = self.lines[li].move_down(&mut self.cursor.value);
        if !moved {
            if self.cursor.value.follow.is_none() && li + 1 < self.lines.len() {
                self.cursor.line = li + 1;
                self.truncate_index();
            }
        }
        proof {
            assert(self.doc() =~= old(self).doc());
        }
    }
}

/// How many text leaves the first `n` lines of the document hold.
pub open spec fn doc_leaves(d: Seq<Seq<TermView>>, n: int) -> nat
    decreases n,
{
    if n <= 0 || d.len() < n {
        0
    } else {
        doc_leaves(d, n - 1) + seq_leaves(d[n - 1])
    }
}

/// Leaf counts of document prefixes grow with the prefix.
pub proof fn lemma_doc_leaves_mono(d: Seq<Seq<TermView>>, m: int, n: int)
    requires
        0 <= m <= n <= d.len(),
    ensures
        doc_leaves(d, m) <= doc_leaves(d, n),
    decreases n,
{
    if n > m {
        lemma_doc_leaves_mono(d, m, n - 1);
    }
}

/// The layout of the first `n` lines: each line is laid out at `x == 0`,
/// moved down so that its top edge sits at the running bottom edge of the
/// lines above it, and combined into the running layout.
pub open spec fn spec_doc_fold(
    d: Seq<Seq<TermView>>,
    cl: int,
    cv: ValueCursor,
    sizes: Seq<(u32, u32)>,
    n: int,
) -> LayoutView
    decreases n,
{
    if n <= 0 || d.len() < n {
        LayoutView { rect: RectV { x: 0, y: 0, width: 0, height: 0 }, prims: Seq::empty() }
    } else {
        let acc = spec_doc_fold(d, cl, cv, sizes, n - 1);
        let y = acc.rect.y + acc.rect.height;
        let cur = if cl == n - 1 {
            Some(cv)
        } else {
            None::<ValueCursor>
        };
        let r = spec_seq_layout(
            d[n - 1],
            cur,
            0,
            y,
            sizes,
            doc_leaves(d, n - 1) as int,
            d[n - 1].len() as int,
        );
        let diff = y - r.rect.y;
        let r2 = spec_shift_layout(r, 0, diff);
        spec_combine_layout(acc, r2)
    }
}

/// The layout of the whole document in a `width` by `height` viewport: the
/// stacked lines, centred in the viewport, then pulled back so that a
/// negative top-left coordinate becomes exactly zero.
pub open spec fn spec_doc_layout(
    d: Seq<Seq<TermView>>,
    cl: int,
    cv: ValueCursor,
    width: u32,
    height: u32,
    sizes: Seq<(u32, u32)>,
) -> LayoutView {
    let f = spec_doc_fold(d, cl, cv, sizes, d.len() as int);
    let dx = f.rect.x + spec_half_trunc(width as int - f.rect.width);
    let dy = f.rect.y + spec_half_trunc(height as int - f.rect.height);
    let g = spec_shift_layout(f, dx, dy);
    let g2 = if g.rect.y < 0 {
        spec_shift_layout(g, 0, -g.rect.y)
    } else {
        g
    };
    if g2.rect.x < 0 {
        spec_shift_layout(g2, -g2.rect.x, 0)
    } else {
        g2
    }
}

impl ProgramState {
    /// Lays the whole document out in a `width` by `height` viewport; see
    /// [`spec_doc_layout`].  `sizes` holds the measured size of every text
    /// leaf of the document, in traversal order: lines top to bottom, each
    /// line left to right, a fraction's numerator before its denominator.
    pub fn render(&self, width: u32, height: u32, sizes: &Vec<(u32, u32)>) -> (r: RenderResult)
        requires
            self.wf(),
            doc_leaves(self.doc(), self.doc().len() as int) <= sizes@.len(),
        ensures
            r@ == spec_doc_layout(
                self.doc(),
                self.cursor.line as int,
                self.cursor.value,
                width,
                height,
                sizes@,
            ),
            layout_wf(r@),
    {
        let ghost d = self.doc();
        let ghost cl = self.cursor.line as int;
        let ghost cv = self.cursor.value;
        let mut acc = RenderResult::empty(RenderRect::empty());
        let mut next: usize = 0;
        proof {
            assert(acc@ =~= spec_doc_fold(d, cl, cv, sizes@, 0));
        }
        let mut li: usize = 0;
        while li < self.lines.len()
            invariant
                self.wf(),
                d == self.doc(),
                cl == self.cursor.line as int,
                cv == self.cursor.value,
                doc_leaves(d, d.len() as int) <= sizes@.len(),
                li <= self.lines@.len(),
                acc@ == spec_doc_fold(d, cl, cv, sizes@, li as int),
                layout_wf(acc@),
                next == doc_leaves(d, li as int),
            decreases self.lines@.len() - li,
        {
            proof {
                lemma_doc_leaves_mono(d, li as int + 1, d.len() as int);
                lemma_views_of(self.lines@[li as int].0@);
            }
            let cursor_opt: Option<&ValueCursor> = if self.cursor.line == li {
                Some(&self.cursor.value)
            } else {
                None
            };
            let y = acc.rect.y + acc.rect.height;
            let mut rendered = self.lines[li].render(cursor_opt, 0i64, y, sizes, &mut next);
            let diff = y - rendered.rect.y;
            rendered.shift(0, diff);
            acc = acc.combine(rendered);
            proof {
                assert(acc@ =~= spec_doc_fold(d, cl, cv, sizes@, li as int + 1));
            }
            li = li + 1;
        }
        let dx = acc.rect.x + half_toward_zero(width as i64 - acc.rect.width);
        let dy = acc.rect.y + half_toward_zero(height as i64 - acc.rect.height);
        acc.shift(dx, dy);
        if acc.rect.y < 0 {
            let k = -acc.rect.y;
            acc.shift(0, k);
        }
        if acc.rect.x < 0 {
            let k = -acc.rect.x;
            acc.shift(k, 0);
        }
        acc
    }
}

} // verus!
