//! Error taxonomy of the linker core. Every kind is fatal and
//! short-circuits the invocation.

use vstd::prelude::*;
use crate::common::RelocKind;

verus! {

/// A fatal linking failure.
#[derive(Debug)]
pub enum LinkerError {
    /// The input parsed but is not a relocatable object. Carries the
    /// input's path.
    InvalidFileType(String),
    /// The input is not a valid object of the expected family. Carries the
    /// input's path and a free-form description of the defect.
    ParseError(String, String),
    /// A filesystem or mapping failure, reported by the driver. Carries
    /// the input's path and a free-form description of the cause.
    IOError(String, String),
    /// A global symbol is referenced but never defined once all inputs are
    /// merged. Carries the path of the referencing object and the name.
    UndefinedSymbol(String, Vec<u8>),
    /// Two strong defined globals share a name. Carries the name.
    MultipleDefinitions(Vec<u8>),
    /// The caller requested a mode the core does not implement.
    UnsupportedMode,
    /// A relocation's computed value does not fit its width or signedness.
    /// Carries the patched object's path, the patched section's index, the
    /// patch offset and the relocation kind.
    RelocationOverflow(String, usize, u64, RelocKind),
    /// A defined symbol resolves into a section that no output section
    /// selected. Carries the owning object's path and the section's index.
    OrphanSection(String, usize),
}

} // verus!
