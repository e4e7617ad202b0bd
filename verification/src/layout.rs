//! Geometry and draw primitives.
//!
//! All coordinates live in a bounded box `[-COORD_LIMIT, COORD_LIMIT]`;
//! every operation that could push a value outside the box clamps it back,
//! so layout is total: it needs no side condition on the size or nesting of
//! the document, and a well-formed rectangle keeps both of its corners
//! inside the box.

use vstd::prelude::*;
use crate::model::{CursorFollow, ValueCursor, TermView};

verus! {

/// Half-width of the coordinate box all layout happens in.
pub const COORD_LIMIT: i64 = 1152921504606846976;

/// The nominal text height: cursor markers are centred with it.
pub const FONT_SIZE: i64 = 20;

/// `v` pulled back into the coordinate box.
pub open spec fn spec_clip(v: int) -> int {
    if v < -(COORD_LIMIT as int) {
        -(COORD_LIMIT as int)
    } else if v > COORD_LIMIT as int {
        COORD_LIMIT as int
    } else {
        v
    }
}

/// `v / 2`, truncated toward zero.
pub open spec fn spec_half_trunc(v: int) -> int {
    if v >= 0 {
        v / 2
    } else {
        -((-v) / 2)
    }
}

/// An axis-aligned rectangle.
#[derive(Clone, Copy, PartialEq, Eq, Structural, Debug)]
pub struct RenderRect {
    pub x: i64,
    pub y: i64,
    pub width: i64,
    pub height: i64,
}

/// The mathematical model of a rectangle.
#[verifier::ext_equal]
pub struct RectV {
    pub x: int,
    pub y: int,
    pub width: int,
    pub height: int,
}

impl View for RenderRect {
    type V = RectV;

    open spec fn view(&self) -> RectV {
        RectV { x: self.x as int, y: self.y as int, width: self.width as int, height: self.height as int }
    }
}

/// A well-formed rectangle: sizes are not negative and both corners lie in
/// the coordinate box.
pub open spec fn rect_wf(r: RectV) -> bool {
    &&& 0 <= r.width
    &&& 0 <= r.height
    &&& -(COORD_LIMIT as int) <= r.x
    &&& r.x + r.width <= COORD_LIMIT as int
    &&& -(COORD_LIMIT as int) <= r.y
    &&& r.y + r.height <= COORD_LIMIT as int
}

/// The smallest rectangle containing both arguments.
pub open spec fn spec_combine_rect(a: RectV, b: RectV) -> RectV {
    let x = if a.x <= b.x {
        a.x
    } else {
        b.x
    };
    let y = if a.y <= b.y {
        a.y
    } else {
        b.y
    };
    let ex = if a.x + a.width >= b.x + b.width {
        a.x + a.width
    } else {
        b.x + b.width
    };
    let ey = if a.y + a.height >= b.y + b.height {
        a.y + a.height
    } else {
        b.y + b.height
    };
    RectV { x, y, width: ex - x, height: ey - y }
}

/// A rectangle moved by `(dx, dy)`, its position clamped so that it stays in
/// the coordinate box; its sizes never change.
pub open spec fn spec_shift_rect(r: RectV, dx: int, dy: int) -> RectV {
    let nx = if r.x + dx < -(COORD_LIMIT as int) {
        -(COORD_LIMIT as int)
    } else if r.x + dx > COORD_LIMIT as int - r.width {
        COORD_LIMIT as int - r.width
    } else {
        r.x + dx
    };
    let ny = if r.y + dy < -(COORD_LIMIT as int) {
        -(COORD_LIMIT as int)
    } else if r.y + dy > COORD_LIMIT as int - r.height {
        COORD_LIMIT as int - r.height
    } else {
        r.y + dy
    };
    RectV { x: nx, y: ny, width: r.width, height: r.height }
}

/// The rectangle of a measured leaf at `(x, y)`: the measured sizes, cut
/// down where they would push a corner out of the coordinate box.
pub open spec fn spec_leaf_rect(x: int, y: int, w: int, h: int) -> RectV {
    let cw = if w <= COORD_LIMIT as int - x {
        w
    } else {
        COORD_LIMIT as int - x
    };
    let ch = if h <= COORD_LIMIT as int - y {
        h
    } else {
        COORD_LIMIT as int - y
    };
    RectV { x, y, width: cw, height: ch }
}

/// `a` lies entirely inside `b`.
pub open spec fn rect_contains(b: RectV, a: RectV) -> bool {
    &&& b.x <= a.x
    &&& b.y <= a.y
    &&& a.x + a.width <= b.x + b.width
    &&& a.y + a.height <= b.y + b.height
}

/// Whether a coordinate lies in the box.
pub open spec fn in_box(v: int) -> bool {
    -(COORD_LIMIT as int) <= v && v <= COORD_LIMIT as int
}

impl RenderRect {
    /// The zero rectangle at the origin.
    pub fn empty() -> (r: Self)
        ensures
            r@ == (RectV { x: 0, y: 0, width: 0, height: 0 }),
    {
        RenderRect { x: 0, y: 0, width: 0, height: 0 }
    }

    fn end(self) -> (r: (i64, i64))
        requires
            rect_wf(self@),
        ensures
            r.0 as int == self@.x + self@.width,
            r.1 as int == self@.y + self@.height,
    {
        (self.x + self.width, self.y + self.height)
    }

    /// The union: the smallest rectangle containing this one and `other`.
    pub fn combine(self, other: Self) -> (r: Self)
        requires
            rect_wf(self@),
            rect_wf(other@),
        ensures
            r@ == spec_combine_rect(self@, other@),
            rect_wf(r@),
    {
        let x = if self.x <= other.x {
            self.x
        } else {
            other.x
        };
        let y = if self.y <= other.y {
            self.y
        } else {
            other.y
        };
        let this_end = self.end();
        let other_end = other.end();
        let end_x = if this_end.0 >= other_end.0 {
            this_end.0
        } else {
            other_end.0
        };
        let end_y = if this_end.1 >= other_end.1 {
            this_end.1
        } else {
            other_end.1
        };
        RenderRect { x, y, width: end_x - x, height: end_y - y }
    }
}

/// The union of two well-formed rectangles contains both of them entirely.
pub proof fn lemma_combine_contains(a: RectV, b: RectV)
    requires
        rect_wf(a),
        rect_wf(b),
    ensures
        rect_contains(spec_combine_rect(a, b), a),
        rect_contains(spec_combine_rect(a, b), b),
        rect_wf(spec_combine_rect(a, b)),
{
}

/// One renderable primitive, carrying absolute coordinates.
#[derive(Clone, Debug, PartialEq, Eq)]
pub enum RenderValue {
    Text { x: i64, y: i64, text: String },
    Line { x: i64, y: i64, width: i64 },
    Cursor { x: i64, y: i64 },
}

/// The mathematical model of a primitive.
#[verifier::ext_equal]
pub enum PrimView {
    Text { x: int, y: int, text: Seq<char> },
    Line { x: int, y: int, width: int },
    Caret { x: int, y: int },
}

impl View for RenderValue {
    type V = PrimView;

    open spec fn view(&self) -> PrimView {
        match self {
            RenderValue::Text { x, y, text } => PrimView::Text {
                x: *x as int,
                y: *y as int,
                text: text@,
            },
            RenderValue::Line { x, y, width } => PrimView::Line {
                x: *x as int,
                y: *y as int,
                width: *width as int,
            },
            RenderValue::Cursor { x, y } => PrimView::Caret { x: *x as int, y: *y as int },
        }
    }
}

/// A primitive whose coordinates lie in the box.
pub open spec fn prim_wf(p: PrimView) -> bool {
    match p {
        PrimView::Text { x, y, .. } => in_box(x) && in_box(y),
        PrimView::Line { x, y, width } => in_box(x) && in_box(y) && 0 <= width,
        PrimView::Caret { x, y } => in_box(x) && in_box(y),
    }
}

/// A primitive moved by `(dx, dy)`, each coordinate clamped back into the
/// box.
pub open spec fn spec_shift_prim(p: PrimView, dx: int, dy: int) -> PrimView {
    match p {
        PrimView::Text { x, y, text } => PrimView::Text {
            x: spec_clip(x + dx),
            y: spec_clip(y + dy),
            text,
        },
        PrimView::Line { x, y, width } => PrimView::Line {
            x: spec_clip(x + dx),
            y: spec_clip(y + dy),
            width,
        },
        PrimView::Caret { x, y } => PrimView::Caret { x: spec_clip(x + dx), y: spec_clip(y + dy) },
    }
}

/// The cursor marker primitive for a gap whose vertical centre is `y`.
pub open spec fn spec_cursor_prim(x: int, y: int) -> PrimView {
    PrimView::Caret { x: spec_clip(x), y: spec_clip(y - FONT_SIZE as int / 2) }
}

fn cadd(a: i64, b: i64) -> (r: i64)
    requires
        in_box(a as int),
        -2 * (COORD_LIMIT as int) <= b as int <= 2 * (COORD_LIMIT as int),
    ensures
        r as int == spec_clip(a as int + b as int),
{
    let s = a + b;
    if s < -COORD_LIMIT {
        -COORD_LIMIT
    } else if s > COORD_LIMIT {
        COORD_LIMIT
    } else {
        s
    }
}

fn half_down(v: i64) -> (r: i64)
    requires
        v >= 0,
    ensures
        r as int == v as int / 2,
{
    ((v as u64) / 2) as i64
}

pub(crate) fn half_toward_zero(v: i64) -> (r: i64)
    requires
        -4 * (COORD_LIMIT as int) <= v as int <= 4 * (COORD_LIMIT as int),
    ensures
        r as int == spec_half_trunc(v as int),
{
    if v >= 0 {
        ((v as u64) / 2) as i64
    } else {
        let m = (((-v) as u64) / 2) as i64;
        -m
    }
}

impl RenderValue {
    /// The cursor marker for a gap whose vertical centre is `y`.
    pub fn new_cursor(x: i64, y: i64) -> (r: Self)
        requires
            in_box(x as int),
            in_box(y as int),
        ensures
            r@ == spec_cursor_prim(x as int, y as int),
    {
        RenderValue::Cursor { x, y: cadd(y, -(FONT_SIZE / 2)) }
    }

    /// The cursor marker sitting at the right edge of `rect`, vertically
    /// centred on it.
    pub fn new_cursor_rect(rect: RenderRect) -> (r: Self)
        requires
            rect_wf(rect@),
        ensures
            r@ == spec_cursor_prim(rect@.x + rect@.width, rect@.y + rect@.height / 2),
    {
        Self::new_cursor(rect.x + rect.width, rect.y + half_down(rect.height))
    }

    /// Moves the primitive by `(shift_x, shift_y)`, each coordinate clamped
    /// back into the box.
    pub fn shift(&mut self, shift_x: i64, shift_y: i64)
        requires
            prim_wf(old(self)@),
            -2 * (COORD_LIMIT as int) <= shift_x as int <= 2 * (COORD_LIMIT as int),
            -2 * (COORD_LIMIT as int) <= shift_y as int <= 2 * (COORD_LIMIT as int),
        ensures
            final(self)@ == spec_shift_prim(old(self)@, shift_x as int, shift_y as int),
            prim_wf(final(self)@),
    {
        match self {
            RenderValue::Text { x, y, .. } => {
                *x = cadd(*x, shift_x);
                *y = cadd(*y, shift_y);
            },
            RenderValue::Line { x, y, .. } => {
                *x = cadd(*x, shift_x);
                *y = cadd(*y, shift_y);
            },
            RenderValue::Cursor { x, y } => {
                *x = cadd(*x, shift_x);
                *y = cadd(*y, shift_y);
            },
        }
    }
}

/// A list of primitives together with its combined bounding rectangle.
#[derive(Debug)]
pub struct RenderResult {
    pub rect: RenderRect,
    pub render: Vec<RenderValue>,
}

/// The mathematical model of a [`RenderResult`].
#[verifier::ext_equal]
pub struct LayoutView {
    pub rect: RectV,
    pub prims: Seq<PrimView>,
}

/// The models of a list of primitives, element by element.
pub open spec fn prims_of(v: Seq<RenderValue>) -> Seq<PrimView> {
    Seq::new(v.len(), |i: int| v[i]@)
}

impl View for RenderResult {
    type V = LayoutView;

    open spec fn view(&self) -> LayoutView {
        LayoutView { rect: self.rect@, prims: prims_of(self.render@) }
    }
}

/// A well-formed layout: the rectangle and every primitive lie in the
/// coordinate box.
pub open spec fn layout_wf(l: LayoutView) -> bool {
    &&& rect_wf(l.rect)
    &&& forall|i: int| 0 <= i < l.prims.len() ==> prim_wf(#[trigger] l.prims[i])
}

/// A layout holding nothing but one cursor marker.
pub open spec fn spec_is_cursor(l: LayoutView) -> bool {
    l.prims.len() == 1 && l.prims[0] is Caret
}

/// Two layouts side by side: the primitive lists concatenate, and the
/// rectangles combine — except that a cursor-only layout never grows the
/// combined rectangle.
pub open spec fn spec_combine_layout(a: LayoutView, b: LayoutView) -> LayoutView {
    LayoutView {
        rect: if spec_is_cursor(b) {
            a.rect
        } else {
            spec_combine_rect(a.rect, b.rect)
        },
        prims: a.prims + b.prims,
    }
}

/// A layout moved by `(dx, dy)`: the rectangle's position is clamped so it
/// stays in the box, and each primitive's coordinates are clamped likewise.
pub open spec fn spec_shift_layout(l: LayoutView, dx: int, dy: int) -> LayoutView {
    LayoutView {
        rect: spec_shift_rect(l.rect, dx, dy),
        prims: Seq::new(l.prims.len(), |i: int| spec_shift_prim(l.prims[i], dx, dy)),
    }
}

/// The zero-size layout of one cursor marker for a gap whose vertical centre
/// is `y`.
pub open spec fn spec_cursor_layout(x: int, y: int) -> LayoutView {
    let cy = spec_clip(y - FONT_SIZE as int / 2);
    LayoutView {
        rect: RectV { x, y: cy, width: 0, height: 0 },
        prims: seq![PrimView::Caret { x, y: cy }],
    }
}

impl RenderResult {
    /// A layout of one primitive with its rectangle.
    pub fn new(rect: RenderRect, render: RenderValue) -> (r: Self)
        ensures
            r@ == (LayoutView { rect: rect@, prims: seq![render@] }),
    {
        let r = RenderResult { rect, render: vec![render] };
        proof {
            assert(r@.prims =~= seq![r.render@[0]@]);
        }
        r
    }

    /// A layout with no primitives.
    pub fn empty(rect: RenderRect) -> (r: Self)
        ensures
            r@ == (LayoutView { rect: rect@, prims: Seq::<PrimView>::empty() }),
    {
        let r = RenderResult { rect, render: Vec::new() };
        proof {
            assert(r@.prims =~= Seq::<PrimView>::empty());
        }
        r
    }

    /// Whether this layout holds nothing but one cursor marker.
    pub fn is_cursor(&self) -> (r: bool)
        ensures
            r == spec_is_cursor(self@),
    {
        if self.render.len() == 1 {
            match &self.render[0] {
                RenderValue::Cursor { .. } => true,
                _ => false,
            }
        } else {
            false
        }
    }

    /// Appends `other`: primitives concatenate; the rectangle grows to the
    /// union unless `other` is a cursor-only layout, which never changes it.
    pub fn combine(self, other: RenderResult) -> (r: Self)
        requires
            rect_wf(self@.rect),
            rect_wf(other@.rect),
        ensures
            r@ == spec_combine_layout(self@, other@),
            rect_wf(r@.rect),
    {
        let ghost av = self@;
        let ghost bv = other@;
        let mut this = self;
        if !other.is_cursor() {
            this.rect = this.rect.combine(other.rect);
        }
        let mut o = other;
        this.render.append(&mut o.render);
        proof {
            assert(prims_of(this.render@) =~= av.prims + bv.prims);
            assert(this@ =~= spec_combine_layout(av, bv));
        }
        this
    }

    /// Moves the whole layout by `(x, y)`, clamped into the coordinate box.
    pub fn shift(&mut self, x: i64, y: i64)
        requires
            layout_wf(old(self)@),
            -2 * (COORD_LIMIT as int) <= x as int <= 2 * (COORD_LIMIT as int),
            -2 * (COORD_LIMIT as int) <= y as int <= 2 * (COORD_LIMIT as int),
        ensures
            final(self)@ == spec_shift_layout(old(self)@, x as int, y as int),
            layout_wf(final(self)@),
    {
        let nx = cadd(self.rect.x, x);
        let nxc = if nx > COORD_LIMIT - self.rect.width {
            COORD_LIMIT - self.rect.width
        } else {
            nx
        };
        let ny = cadd(self.rect.y, y);
        let nyc = if ny > COORD_LIMIT - self.rect.height {
            COORD_LIMIT - self.rect.height
        } else {
            ny
        };
        self.rect = RenderRect { x: nxc, y: nyc, width: self.rect.width, height: self.rect.height };
        proof {
            assert(old(self)@.rect.width <= 2 * (COORD_LIMIT as int));
            assert(old(self)@.rect.height <= 2 * (COORD_LIMIT as int));
            assert(self.rect@ == spec_shift_rect(old(self)@.rect, x as int, y as int));
            assert forall|j: int| 0 <= j < self.render@.len() implies prim_wf(
                #[trigger] self.render@[j]@,
            ) by {
                assert(old(self)@.prims[j] == self.render@[j]@);
            }
        }
        let mut i: usize = 0;
        while i < self.render.len()
            invariant
                i <= self.render@.len(),
                self.render@.len() == old(self).render@.len(),
                self.rect@ == spec_shift_rect(old(self)@.rect, x as int, y as int),
                rect_wf(self.rect@),
                forall|j: int| 0 <= j < i ==> #[trigger] self.render@[j]@ == spec_shift_prim(
                    old(self).render@[j]@,
                    x as int,
                    y as int,
                ),
                forall|j: int| i <= j < self.render@.len() ==> #[trigger] self.render@[j]
                    == old(self).render@[j],
                forall|j: int| 0 <= j < self.render@.len() ==> prim_wf(
                    #[trigger] self.render@[j]@,
                ),
                -2 * (COORD_LIMIT as int) <= x as int <= 2 * (COORD_LIMIT as int),
                -2 * (COORD_LIMIT as int) <= y as int <= 2 * (COORD_LIMIT as int),
            decreases self.render@.len() - i,
        {
            self.render[i].shift(x, y);
            i = i + 1;
        }
        proof {
            assert(self@.prims =~= spec_shift_layout(old(self)@, x as int, y as int).prims);
            assert(self@ =~= spec_shift_layout(old(self)@, x as int, y as int));
        }
    }

    /// The primitive list, in emission order.
    pub fn render(&self) -> (r: &Vec<RenderValue>)
        ensures
            r@ == self.render@,
    {
        &self.render
    }
}

/// How many text leaves a term holds.
pub open spec fn term_leaves(t: TermView) -> nat
    decreases t, 0int,
{
    match t {
        TermView::Leaf { .. } => 1,
        TermView::Frac { top, bottom } => seq_leaves(top) + seq_leaves(bottom),
    }
}

/// How many text leaves a sequence of terms holds, left to right.
pub open spec fn seq_leaves(s: Seq<TermView>) -> nat
    decreases s, 1int,
{
    if s.len() == 0 {
        0
    } else {
        term_leaves(s[0]) + seq_leaves(s.skip(1))
    }
}

/// Taking one more element grows the leaf count by that element's leaves.
pub proof fn lemma_leaves_take_step(s: Seq<TermView>, i: int)
    requires
        0 <= i < s.len(),
    ensures
        seq_leaves(s.take(i + 1)) == seq_leaves(s.take(i)) + term_leaves(s[i]),
    decreases i,
{
    if i == 0 {
        assert(s.take(1).skip(1) =~= Seq::<TermView>::empty());
        assert(s.take(0) =~= Seq::<TermView>::empty());
        assert(s.take(1)[0] == s[0]);
    } else {
        lemma_leaves_take_step(s.skip(1), i - 1);
        assert(s.take(i + 1).skip(1) =~= s.skip(1).take(i));
        assert(s.take(i).skip(1) =~= s.skip(1).take(i - 1));
        assert(s.take(i + 1)[0] == s[0]);
        assert(s.take(i)[0] == s[0]);
        assert(s.skip(1)[i - 1] == s[i]);
    }
}

/// The whole leaf count equals the count of the full prefix.
pub proof fn lemma_leaves_take_all(s: Seq<TermView>)
    ensures
        seq_leaves(s.take(s.len() as int)) == seq_leaves(s),
{
    assert(s.take(s.len() as int) =~= s);
}

/// The child cursor pair handed to the fraction a cursor points just past.
pub open spec fn opt_follow(cursor: Option<&(CursorFollow, Box<ValueCursor>)>) -> Option<
    (CursorFollow, ValueCursor),
> {
    match cursor {
        Some(p) => Some((p.0, *p.1)),
        None => None,
    }
}

/// The cursor handed to a line of terms.
pub open spec fn opt_cursor(cursor: Option<&ValueCursor>) -> Option<ValueCursor> {
    match cursor {
        Some(c) => Some(*c),
        None => None,
    }
}

/// The layout of one term at `(x, y)`: a leaf becomes one text run whose
/// rectangle holds the measured size found at index `k` of `sizes`; a
/// fraction lays out its two branches at the same origin, shifts the
/// numerator up and the denominator down by half the taller height, centres
/// the narrower branch over the wider one, and adds one divider line at the
/// vertical midpoint between them; its rectangle is the union of the two
/// shifted branch rectangles.
pub open spec fn spec_value_layout(
    t: TermView,
    cur: Option<(CursorFollow, ValueCursor)>,
    x: int,
    y: int,
    sizes: Seq<(u32, u32)>,
    k: int,
) -> LayoutView
    decreases t, 0int,
{
    match t {
        TermView::Leaf { text } => LayoutView {
            rect: spec_leaf_rect(x, y, sizes[k].0 as int, sizes[k].1 as int),
            prims: seq![PrimView::Text { x, y, text }],
        },
        TermView::Frac { top, bottom } => {
            let tcur = match cur {
                Some((side, ch)) => if side == CursorFollow::Top {
                    Some(ch)
                } else {
                    None
                },
                None => None,
            };
            let bcur = match cur {
                Some((side, ch)) => if side == CursorFollow::Bottom {
                    Some(ch)
                } else {
                    None
                },
                None => None,
            };
            let tl = spec_seq_layout(top, tcur, x, y, sizes, k, top.len() as int);
            let bl = spec_seq_layout(
                bottom,
                bcur,
                x,
                y,
                sizes,
                k + seq_leaves(top),
                bottom.len() as int,
            );
            let tsx = if tl.rect.width < bl.rect.width {
                spec_half_trunc(bl.rect.width - tl.rect.width)
            } else {
                0
            };
            let bsx = if tl.rect.width < bl.rect.width {
                0
            } else {
                spec_half_trunc(tl.rect.width - bl.rect.width)
            };
            let offy = spec_half_trunc(
                if tl.rect.height >= bl.rect.height {
                    tl.rect.height
                } else {
                    bl.rect.height
                },
            );
            let tl2 = spec_shift_layout(tl, tsx, -offy);
            let bl2 = spec_shift_layout(bl, bsx, offy);
            let w = if tl2.rect.width >= bl2.rect.width {
                tl2.rect.width
            } else {
                bl2.rect.width
            };
            let ly = spec_half_trunc(tl2.rect.y + tl2.rect.height + bl2.rect.y);
            LayoutView {
                rect: spec_combine_rect(bl2.rect, tl2.rect),
                prims: tl2.prims + bl2.prims + seq![PrimView::Line { x, y: ly, width: w }],
            }
        },
    }
}

/// The layout of the first `n` terms of a line at `(x, y)`: terms are laid
/// out left to right, each at the running right edge of the combined
/// rectangle, and rectangles union up — except cursor-only layouts, which
/// never grow the bounds.  A cursor resolved at this depth adds one
/// zero-size marker at its gap; one that descends is handed to the fraction
/// it points just past instead.
pub open spec fn spec_seq_layout(
    s: Seq<TermView>,
    cur: Option<ValueCursor>,
    x: int,
    y: int,
    sizes: Seq<(u32, u32)>,
    k: int,
    n: int,
) -> LayoutView
    decreases s, n,
{
    if n <= 0 || s.len() < n {
        let base = LayoutView {
            rect: RectV { x, y, width: 0, height: 0 },
            prims: Seq::<PrimView>::empty(),
        };
        if cur matches Some(c) && c.index == 0 && c.follow is None {
            spec_combine_layout(base, spec_cursor_layout(x, spec_clip(y + FONT_SIZE as int / 2)))
        } else {
            base
        }
    } else {
        let acc = spec_seq_layout(s, cur, x, y, sizes, k, n - 1);
        let i = n - 1;
        let this_index = cur matches Some(c) && c.index == n;
        let subcur: Option<(CursorFollow, ValueCursor)> = match cur {
            Some(c) => if c.index == n {
                match c.follow {
                    Some((sd, ch)) => Some((sd, *ch)),
                    None => None,
                }
            } else {
                None
            },
            None => None,
        };
        let ex = x + acc.rect.width;
        let r = spec_value_layout(s[i], subcur, ex, y, sizes, k + seq_leaves(s.take(i)));
        let comb = spec_combine_layout(acc, r);
        if this_index && subcur is None {
            spec_combine_layout(
                comb,
                spec_cursor_layout(r.rect.x + r.rect.width, r.rect.y + r.rect.height / 2),
            )
        } else {
            comb
        }
    }
}

fn imax(a: i64, b: i64) -> (r: i64)
    ensures
        r as int == if a as int >= b as int {
            a as int
        } else {
            b as int
        },
{
    if a >= b {
        a
    } else {
        b
    }
}

fn leaf_rect(x: i64, y: i64, w: u32, h: u32) -> (r: RenderRect)
    requires
        in_box(x as int),
        in_box(y as int),
    ensures
        r@ == spec_leaf_rect(x as int, y as int, w as int, h as int),
        rect_wf(r@),
{
    let wi = w as i64;
    let hi = h as i64;
    let cw = if wi <= COORD_LIMIT - x {
        wi
    } else {
        COORD_LIMIT - x
    };
    let ch = if hi <= COORD_LIMIT - y {
        hi
    } else {
        COORD_LIMIT - y
    };
    RenderRect { x, y, width: cw, height: ch }
}

fn caret_result(x: i64, y: i64) -> (r: RenderResult)
    requires
        in_box(x as int),
        in_box(y as int),
    ensures
        r@ == spec_cursor_layout(x as int, y as int),
        spec_is_cursor(r@),
        layout_wf(r@),
{
    let cy = cadd(y, -(FONT_SIZE / 2));
    let r = RenderResult {
        rect: RenderRect { x, y: cy, width: 0, height: 0 },
        render: vec![RenderValue::Cursor { x, y: cy }],
    };
    proof {
        assert(r@.prims =~= spec_cursor_layout(x as int, y as int).prims);
    }
    r
}

impl crate::model::InputValue {
    /// Lays out this term at `(x, y)`; see [`spec_value_layout`].  The
    /// measured size of each text leaf is read from `sizes`, in traversal
    /// order starting at `*next`, and `next` advances past the sizes used.
    #[verifier::rlimit(100)]
    pub fn render(
        &self,
        cursor: Option<&(CursorFollow, Box<ValueCursor>)>,
        x: i64,
        y: i64,
        sizes: &Vec<(u32, u32)>,
        next: &mut usize,
    ) -> (r: RenderResult)
        requires
            match cursor {
                Some(p) => self@ is Frac && crate::model::cursor_ok(
                    crate::model::branch_of(self@, p.0),
                    *p.1,
                ),
                None => true,
            },
            in_box(x as int),
            in_box(y as int),
            *old(next) + term_leaves(self@) <= sizes@.len(),
        ensures
            r@ == spec_value_layout(self@, opt_follow(cursor), x as int, y as int, sizes@, *old(
                next,
            ) as int),
            *final(next) == *old(next) + term_leaves(self@),
            layout_wf(r@),
            r@.rect.x == x as int,
        decreases self,
    {
        match self {
            crate::model::InputValue::Value(text) => {
                proof {
                    assert(sizes@.len() == sizes.len());
                    assert(term_leaves(self@) == 1);
                }
                let wh = sizes[*next];
                *next = *next + 1;
                let rect = leaf_rect(x, y, wh.0, wh.1);
                RenderResult::new(rect, RenderValue::Text { x, y, text: text.clone() })
            },
            crate::model::InputValue::Fraction { top, bottom } => {
                let top_cursor: Option<&ValueCursor> = match cursor {
                    Some(p) => if p.0 == CursorFollow::Top {
                        Some(&*p.1)
                    } else {
                        None
                    },
                    None => None,
                };
                let bottom_cursor: Option<&ValueCursor> = match cursor {
                    Some(p) => if p.0 == CursorFollow::Bottom {
                        Some(&*p.1)
                    } else {
                        None
                    },
                    None => None,
                };
                proof {
                    crate::model::lemma_views_of(top.0@);
                    crate::model::lemma_views_of(bottom.0@);
                }
                let mut topr = top.render(top_cursor, x, y, sizes, next);
                let mut botr = bottom.render(bottom_cursor, x, y, sizes, next);
                let (tsx, bsx) = if topr.rect.width < botr.rect.width {
                    (half_down(botr.rect.width - topr.rect.width), 0i64)
                } else {
                    (0i64, half_down(topr.rect.width - botr.rect.width))
                };
                let offset_y = half_down(imax(topr.rect.height, botr.rect.height));
                topr.shift(tsx, -offset_y);
                botr.shift(bsx, offset_y);
                let width = imax(topr.rect.width, botr.rect.width);
                let ly = half_toward_zero(topr.rect.y + topr.rect.height + botr.rect.y);
                let line = RenderValue::Line { x, y: ly, width };
                let rect = botr.rect.combine(topr.rect);
                let ghost tv2 = topr@;
                let ghost bv2 = botr@;
                let mut out = topr;
                out.rect = rect;
                let mut botr2 = botr;
                out.render.append(&mut botr2.render);
                out.render.push(line);
                proof {
                    assert(out@.prims =~= tv2.prims + bv2.prims + seq![line@]);
                    assert(out@ =~= spec_value_layout(
                        self@,
                        opt_follow(cursor),
                        x as int,
                        y as int,
                        sizes@,
                        *old(next) as int,
                    ));
                }
                out
            },
        }
    }
}

impl crate::model::InputValues {
    /// Lays out this line of terms at `(x, y)`; see [`spec_seq_layout`].
    /// The measured size of each text leaf is read from `sizes`, in order
    /// starting at `*next`, and `next` advances past the sizes used.
    pub fn render(
        &self,
        cursor: Option<&ValueCursor>,
        x: i64,
        y: i64,
        sizes: &Vec<(u32, u32)>,
        next: &mut usize,
    ) -> (r: RenderResult)
        requires
            match cursor {
                Some(c) => crate::model::cursor_ok(self@, *c),
                None => true,
            },
            in_box(x as int),
            in_box(y as int),
            *old(next) + seq_leaves(self@) <= sizes@.len(),
        ensures
            r@ == spec_seq_layout(
                self@,
                opt_cursor(cursor),
                x as int,
                y as int,
                sizes@,
                *old(next) as int,
                self@.len() as int,
            ),
            *final(next) == *old(next) + seq_leaves(self@),
            layout_wf(r@),
            r@.rect.x == x as int,
        decreases self,
    {
        let ghost gcur = opt_cursor(cursor);
        let ghost k0 = *next as int;
        proof {
            crate::model::lemma_views_of(self.0@);
        }
        let mut acc = RenderResult::empty(RenderRect { x, y, width: 0, height: 0 });
        let start_cursor = match cursor {
            Some(c) => c.index == 0 && c.follow.is_none(),
            None => false,
        };
        if start_cursor {
            acc = acc.combine(caret_result(x, cadd(y, FONT_SIZE / 2)));
        }
        proof {
            assert(acc@ =~= spec_seq_layout(self@, gcur, x as int, y as int, sizes@, k0, 0));
            assert(self@.take(0) =~= Seq::<TermView>::empty());
        }
        let mut i: usize = 0;
        while i < self.0.len()
            invariant
                match cursor {
                    Some(c) => crate::model::cursor_ok(self@, *c),
                    None => true,
                },
                gcur == opt_cursor(cursor),
                in_box(x as int),
                in_box(y as int),
                i <= self.0@.len(),
                self@.len() == self.0@.len(),
                forall|j: int| 0 <= j < self@.len() ==> #[trigger] self@[j] == self.0@[j]@,
                acc@ == spec_seq_layout(self@, gcur, x as int, y as int, sizes@, k0, i as int),
                layout_wf(acc@),
                acc@.rect.x == x as int,
                *next == k0 + seq_leaves(self@.take(i as int)),
                k0 + seq_leaves(self@) <= sizes@.len(),
                k0 == *old(next) as int,
            decreases self.0@.len() - i,
        {
            let this_index = match cursor {
                Some(c) => c.index == i + 1,
                None => false,
            };
            let subc: Option<&(CursorFollow, Box<ValueCursor>)> = if this_index {
                match cursor {
                    Some(c) => c.follow.as_ref(),
                    None => None,
                }
            } else {
                None
            };
            proof {
                lemma_leaves_split(self@, i as int);
                if subc is Some {
                    assert(self@[i as int] is Frac);
                }
            }
            let ex = x + acc.rect.width;
            let r = self.0[i].render(subc, ex, y, sizes, next);
            let ghost rv = r@;
            let saved_rect = r.rect;
            acc = acc.combine(r);
            if this_index && subc.is_none() {
                acc = acc.combine(
                    caret_result(
                        saved_rect.x + saved_rect.width,
                        saved_rect.y + half_down(saved_rect.height),
                    ),
                );
            }
            proof {
                lemma_leaves_take_step(self@, i as int);
                assert(acc@ =~= spec_seq_layout(
                    self@,
                    gcur,
                    x as int,
                    y as int,
                    sizes@,
                    k0,
                    i as int + 1,
                ));
            }
            i = i + 1;
        }
        proof {
            lemma_leaves_take_all(self@);
        }
        acc
    }
}

/// Splitting a line at `i`: the leaves of the whole line are the leaves of
/// the prefix, the element at `i`, and the rest.
pub proof fn lemma_leaves_split(s: Seq<TermView>, i: int)
    requires
        0 <= i < s.len(),
    ensures
        seq_leaves(s) == seq_leaves(s.take(i)) + term_leaves(s[i]) + seq_leaves(s.skip(i + 1)),
    decreases i,
{
    if i == 0 {
        assert(s.take(0) =~= Seq::<TermView>::empty());
        assert(s.skip(1) =~= s.skip(1));
    } else {
        lemma_leaves_split(s.skip(1), i - 1);
        assert(s.skip(1).take(i - 1) =~= s.take(i).skip(1));
        assert(s.skip(1).skip(i) =~= s.skip(i + 1));
        assert(s.skip(1)[i - 1] == s[i]);
        assert(s.take(i)[0] == s[0]);
    }
}

} // verus!
