//! Template expansion over delimited records.

use vstd::prelude::*;

pub mod buffer;
pub mod buildre;
pub mod encoding;
pub mod error;
pub mod fill_laws;
pub mod functions;
pub mod laws;
pub mod pattern;
pub mod records;
pub mod template;
pub mod text;

verus! {
}
