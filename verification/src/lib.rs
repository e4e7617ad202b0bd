//! A structured editor for mathematical expressions built from text leaves
//! and fractions.
//!
//! A document is a list of lines; each line is a sequence of terms, where a
//! term is either a text leaf or a fraction holding two nested sequences
//! (numerator and denominator).  A recursive cursor descends through the
//! fractions, and editing operations (insertion, deletion, horizontal and
//! vertical movement, fraction creation and dissolution) rewrite the tree and
//! the cursor together.  A layout pass turns the tree into a flat list of
//! positioned draw primitives.

pub mod model;
pub mod edit;
pub mod moves;
pub mod layout;
pub mod state;
