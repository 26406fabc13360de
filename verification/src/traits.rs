//! Values that a path can be turned into.

use vstd::prelude::*;
use crate::path::{render_path, FilePath};

verus! {

/// A value that a path can be turned into.
pub trait ConvertFromPath: Sized {
    /// The value that stands for the path.
    fn convert_from_path(path: &FilePath) -> Self;
}

impl ConvertFromPath for FilePath {
    fn convert_from_path(path: &FilePath) -> (r: Self)
        ensures
            r@ == path@,
    {
        path.clone()
    }
}

impl ConvertFromPath for String {
    fn convert_from_path(path: &FilePath) -> (r: Self)
        ensures
            r@ == render_path(path@),
    {
        path.to_string()
    }
}

} // verus!
