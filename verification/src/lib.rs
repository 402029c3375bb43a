//! Core of a JSON-LD 1.0 processor: active-context construction and IRI
//! expansion. A local context (null, string reference, object, or an array
//! of those) is folded into an active context: a base IRI, a default
//! vocabulary, a default language, and a map from terms to term definitions.

use vstd::prelude::*;

pub mod json;
pub mod strutil;
pub mod iri;
pub mod context;
pub mod expand;
pub mod creation;
pub mod process;

verus! {

} // verus!
