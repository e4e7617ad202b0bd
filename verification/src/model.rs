//! The term tree, the recursive cursor, and their mathematical model.

use vstd::prelude::*;

verus! {

/// Which branch of a fraction a cursor descends into.
#[derive(Clone, Copy, PartialEq, Eq, Structural, Debug)]
pub enum CursorFollow {
    Top,
    Bottom,
}

impl CursorFollow {
    pub open spec fn spec_opposite(self) -> Self {
        match self {
            CursorFollow::Top => CursorFollow::Bottom,
            CursorFollow::Bottom => CursorFollow::Top,
        }
    }

    /// The other branch: `Top` for `Bottom` and `Bottom` for `Top`.
    pub fn opposite(self) -> (r: Self)
        ensures
            r == self.spec_opposite(),
    {
        match self {
            CursorFollow::Top => CursorFollow::Bottom,
            CursorFollow::Bottom => CursorFollow::Top,
        }
    }
}

/// One term of a line: a text leaf or a fraction holding a numerator and a
/// denominator, each itself a sequence of terms.
#[derive(Debug, PartialEq, Eq)]
pub enum InputValue {
    Value(String),
    Fraction { top: InputValues, bottom: InputValues },
}

/// One editable sequence of terms: a document line, a numerator or a
/// denominator.
#[derive(Debug, PartialEq, Eq)]
pub struct InputValues(pub Vec<InputValue>);

/// The mathematical model of a term.
#[verifier::ext_equal]
pub enum TermView {
    Leaf { text: Seq<char> },
    Frac { top: Seq<TermView>, bottom: Seq<TermView> },
}

impl InputValue {
    pub open spec fn view(&self) -> TermView
        decreases self,
    {
        match self {
            InputValue::Value(t) => TermView::Leaf { text: t@ },
            InputValue::Fraction { top, bottom } => TermView::Frac {
                top: views_of(top.0@),
                bottom: views_of(bottom.0@),
            },
        }
    }
}

/// The models of a sequence of terms, element by element.
pub open spec fn views_of(s: Seq<InputValue>) -> Seq<TermView>
    decreases s,
{
    if s.len() == 0 {
        Seq::empty()
    } else {
        views_of(s.drop_last()).push(s.last()@)
    }
}

/// `views_of` maps each element to its model.
pub broadcast proof fn lemma_views_of(s: Seq<InputValue>)
    ensures
        (#[trigger] views_of(s)).len() == s.len(),
        forall|i: int| 0 <= i < s.len() ==> #[trigger] views_of(s)[i] == s[i]@,
    decreases s,
{
    if s.len() > 0 {
        lemma_views_of(s.drop_last());
        assert forall|i: int| 0 <= i < s.len() implies views_of(s)[i] == #[trigger] s[i]@ by {
            if i < s.len() - 1 {
                assert(s.drop_last()[i] == s[i]);
            }
        }
    }
}

impl InputValues {
    pub open spec fn view(&self) -> Seq<TermView> {
        views_of(self.0@)
    }
}

impl Default for InputValues {
    /// An empty sequence of terms.
    fn default() -> (r: Self)
        ensures
            r@ == Seq::<TermView>::empty(),
    {
        InputValues(Vec::new())
    }
}

impl Default for InputValue {
    /// The placeholder term: an empty text leaf.
    fn default() -> (r: Self)
        ensures
            r@ == (TermView::Leaf { text: Seq::<char>::empty() }),
    {
        InputValue::Value(String::new())
    }
}

impl InputValue {
    /// Whether this term is a text leaf.
    pub fn is_value(&self) -> (r: bool)
        ensures
            r == (self@ is Leaf),
    {
        match self {
            InputValue::Value(_) => true,
            InputValue::Fraction { .. } => false,
        }
    }
}

/// A recursive cursor position.  `index` is a gap position in the current
/// sequence; when `follow` is present, the element just before the gap is a
/// fraction and the child cursor resolves inside the chosen branch of it.
#[derive(Debug, PartialEq, Eq)]
#[verifier::ext_equal]
pub struct ValueCursor {
    pub index: usize,
    pub follow: Option<(CursorFollow, Box<ValueCursor>)>,
}

impl Default for ValueCursor {
    /// The cursor at the start of a sequence, resolved at this depth.
    fn default() -> (r: Self)
        ensures
            r.index == 0,
            r.follow is None,
    {
        ValueCursor { index: 0, follow: None }
    }
}

impl Clone for ValueCursor {
    fn clone(&self) -> (r: Self)
        ensures
            r == *self,
        decreases *self,
    {
        match &self.follow {
            None => ValueCursor { index: self.index, follow: None },
            Some((side, child)) => ValueCursor {
                index: self.index,
                follow: Some((*side, Box::new((**child).clone()))),
            },
        }
    }
}

/// The chosen branch of a fraction term; an empty sequence for a leaf.
pub open spec fn branch_of(t: TermView, side: CursorFollow) -> Seq<TermView> {
    match t {
        TermView::Frac { top, bottom } => if side == CursorFollow::Top {
            top
        } else {
            bottom
        },
        TermView::Leaf { .. } => Seq::empty(),
    }
}

/// Cursor validity: at every depth the gap index stays within the sequence,
/// and a `follow` only ever descends through a fraction standing immediately
/// before the gap.
pub open spec fn cursor_ok(s: Seq<TermView>, c: ValueCursor) -> bool
    decreases c,
{
    &&& c.index <= s.len()
    &&& match c.follow {
        None => true,
        Some((side, child)) => {
            &&& c.index >= 1
            &&& s[c.index - 1] is Frac
            &&& cursor_ok(branch_of(s[c.index - 1], side), *child)
        },
    }
}

/// How many fractions the cursor descends through.
pub open spec fn cursor_depth(c: ValueCursor) -> nat
    decreases c,
{
    match c.follow {
        None => 0,
        Some((_, child)) => 1 + cursor_depth(*child),
    }
}

/// The innermost gap index of the cursor.
pub open spec fn resolved_index(c: ValueCursor) -> int
    decreases c,
{
    match c.follow {
        None => c.index as int,
        Some((_, child)) => resolved_index(*child),
    }
}

/// The innermost sequence the cursor resolves to.
pub open spec fn resolved_seq(s: Seq<TermView>, c: ValueCursor) -> Seq<TermView>
    decreases c,
{
    match c.follow {
        None => s,
        Some((side, child)) => resolved_seq(branch_of(s[c.index - 1], side), *child),
    }
}

/// Every sequence a valid cursor resolves through is backed by a real
/// vector, so the innermost gap index fits in a machine word with room to
/// spare.
pub proof fn lemma_resolved_fits(v: InputValues, c: ValueCursor)
    requires
        cursor_ok(v@, c),
    ensures
        0 <= resolved_index(c) <= resolved_seq(v@, c).len(),
        resolved_seq(v@, c).len() <= usize::MAX,
    decreases c,
{
    lemma_views_of(v.0@);
    assert(v.0@.len() == v.0.len());
    match c.follow {
        None => {},
        Some((side, child)) => {
            let i = c.index - 1;
            let e = v.0@[i];
            assert(v@[i] == e@);
            match e {
                InputValue::Value(_) => {
                    assert(false);
                },
                InputValue::Fraction { top, bottom } => {
                    if side == CursorFollow::Top {
                        lemma_resolved_fits(top, *child);
                    } else {
                        lemma_resolved_fits(bottom, *child);
                    }
                },
            }
        },
    }
}

} // verus!
