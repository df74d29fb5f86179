//! The resolution policy: maps the quality selector to target pixel
//! dimensions and to the scaling flags handed to the external tool.

use vstd::prelude::*;

verus! {

/// The quality selector.  The fixed variants carry immutable target boxes;
/// `K6` means "native": the export keeps the source's probed dimensions.
#[derive(Debug, Clone, Copy, PartialEq, Eq, Structural)]
pub enum Resolution {
    K2,
    K4,
    K6,
}

impl Resolution {
    /// The target box of a fixed preset, `None` for native.
    pub open spec fn spec_target_size(self) -> Option<(u32, u32)> {
        match self {
            Resolution::K2 => Some((2048u32, 2048u32)),
            Resolution::K4 => Some((4096u32, 4096u32)),
            Resolution::K6 => None,
        }
    }

    /// Human-readable label of the selector.
    pub fn as_str(&self) -> (s: &'static str)
        ensures
            *self == Resolution::K2 ==> s@ == "2K (2048x2048)"@,
            *self == Resolution::K4 ==> s@ == "4K (4096x4096)"@,
            *self == Resolution::K6 ==> s@ == "6K (Original)"@,
    {
        match self {
            Resolution::K2 => "2K (2048x2048)",
            Resolution::K4 => "4K (4096x4096)",
            Resolution::K6 => "6K (Original)",
        }
    }

    /// Target pixel dimensions, or `None` when the source's native size is
    /// to be used.  Total over the selector; no failure mode.
    pub fn target_size(&self) -> (r: Option<(u32, u32)>)
        ensures
            r == self.spec_target_size(),
    {
        match self {
            Resolution::K2 => Some((2048, 2048)),
            Resolution::K4 => Some((4096, 4096)),
            Resolution::K6 => None,
        }
    }

    /// Scaling flags appended to the external tool's scale filters; the same
    /// for every selector.
    pub fn filter_flags(&self) -> (s: &'static str)
        ensures
            s@ == "lanczos+full_chroma_inp+full_chroma_int"@,
    {
        "lanczos+full_chroma_inp+full_chroma_int"
    }
}

} // verus!
