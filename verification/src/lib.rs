//! A compiler from a catalog of variable-template declarations to the
//! matching-and-extraction code of two processors, one per chain and one
//! per clonotype.
//!
//! Each declaration names its variables by a pattern: literal text, at most
//! one upper-case keyword, and up to three numeric ranges in braces. The
//! pipeline runs leaves first:
//!
//! * [`scan`] finds the upper-case run of a pattern;
//! * [`classify`] turns the pattern's text into its shape, or finds the
//!   fault in it;
//! * [`clause`] and [`compile`] turn a shape into the tests of its match
//!   predicate and the bindings of its values, and write them out;
//! * [`integrate`] takes the result markers off a declaration's body and
//!   splices predicate, bindings, body and result into compiled clauses;
//! * [`assemble`] chains the clauses of one target class, in catalog order,
//!   between the fixed text of [`templates`].
//!
//! [`matcher`] is a reference interpreter: it says which names a compiled
//! predicate holds of, what a matching name binds, and which clause of a
//! module a name reaches. [`meaning`] gives each emitted test its value, and
//! [`laws`] states what holds of all this on every input: among others,
//! that the emitted tests decide what the interpreter decides. [`spell`] writes a shape back as a pattern. [`text`] and
//! [`number`] hold the text and numeral primitives, and [`model`] the data.
//!
//! [`dperfect`] is apart from the compiler: it measures how well a D gene
//! fits a junction region.

pub mod assemble;
pub mod classify;
pub mod clause;
pub mod compile;
pub mod dperfect;
pub mod integrate;
pub mod laws;
pub mod matcher;
pub mod meaning;
pub mod model;
pub mod number;
pub mod scan;
pub mod spell;
pub mod templates;
pub mod text;
