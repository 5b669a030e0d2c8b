//! A token-tree templating kernel.
//!
//! Source code is modelled structurally as a tree of tokens: atoms
//! (identifiers, literals, punctuation) and delimited groups.  On top of that
//! model the crate provides a marker-substitution engine, a recursive-descent
//! parser for template definitions, and expansion of a parsed template
//! against a caller-supplied invocation.

pub mod expand;
pub mod subst;
pub mod template;
pub mod token;
