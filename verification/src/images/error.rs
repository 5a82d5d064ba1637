//! Errors of the image store.
use vstd::prelude::*;

verus! {

/// Why a texture could not be stored.
#[derive(PartialEq, Eq, Structural, Clone, Copy, Debug)]
pub enum StoreError {
    /// There is no GPU that could hold it.
    NoGpuContext,
    /// No picture could be made of it.
    TextureImport,
}

impl StoreError {
    /// The error in words.
    pub fn message(&self) -> (text: &'static str)
        ensures
            text@ == (match *self {
                StoreError::NoGpuContext => "Cannot register a GL texture without a GPU context"@,
                StoreError::TextureImport => "Failed to create Skia image from GL texture"@,
            }),
    {
        match self {
            StoreError::NoGpuContext => "Cannot register a GL texture without a GPU context",
            StoreError::TextureImport => "Failed to create Skia image from GL texture",
        }
    }
}

} // verus!
