//! The parts of a file path that the engine reads, taken from `std::path`.
//! Each name below stands for what `std::path` gives on the platform the
//! crate is built for; on one platform it depends on the text alone.
use vstd::prelude::*;

use std::path::Path;

verus! {

/// The last component of a path, when it has one.
pub uninterp spec fn file_name_of(path: Seq<char>) -> Option<Seq<char>>;

/// The directory that holds a path, when it has one.
pub uninterp spec fn parent_of(path: Seq<char>) -> Option<Seq<char>>;

/// The last component of a path without its extension, when it has one.
pub uninterp spec fn file_stem_of(path: Seq<char>) -> Option<Seq<char>>;

/// The extension of a path's last component (without the dot), when it has
/// one.
pub uninterp spec fn extension_of(path: Seq<char>) -> Option<Seq<char>>;

/// A path with its last component replaced by `name`.
pub uninterp spec fn with_file_name_of(path: Seq<char>, name: Seq<char>) -> Seq<char>;

/// A path with the extension of its last component replaced by `ext`.
pub uninterp spec fn with_extension_of(path: Seq<char>, ext: Seq<char>) -> Seq<char>;

/// The text of an optional string.
pub open spec fn opt_text(o: Option<String>) -> Option<Seq<char>> {
    match o {
        Some(s) => Some(s@),
        None => None,
    }
}

/// Relies on `Path::file_name`: a function of the path's text alone.
#[verifier::external_body]
pub(crate) fn file_name(path: &str) -> (r: Option<String>)
    ensures
        opt_text(r) == file_name_of(path@),
{
    Path::new(path).file_name().and_then(|s| s.to_str()).map(|s| s.to_string())
}

/// Relies on `Path::parent`: a function of the path's text alone.
#[verifier::external_body]
pub(crate) fn parent(path: &str) -> (r: Option<String>)
    ensures
        opt_text(r) == parent_of(path@),
{
    Path::new(path).parent().and_then(|p| p.to_str()).map(|s| s.to_string())
}

/// Relies on `Path::file_stem`: a function of the path's text alone.
#[verifier::external_body]
pub(crate) fn file_stem(path: &str) -> (r: Option<String>)
    ensures
        opt_text(r) == file_stem_of(path@),
{
    Path::new(path).file_stem().and_then(|s| s.to_str()).map(|s| s.to_string())
}

/// Relies on `Path::extension`: a function of the path's text alone.
#[verifier::external_body]
pub(crate) fn extension(path: &str) -> (r: Option<String>)
    ensures
        opt_text(r) == extension_of(path@),
{
    Path::new(path).extension().and_then(|s| s.to_str()).map(|s| s.to_string())
}

/// Relies on `Path::with_file_name`: a function of the two texts alone.
#[verifier::external_body]
pub(crate) fn with_file_name(path: &str, name: &str) -> (r: String)
    ensures
        r@ == with_file_name_of(path@, name@),
{
    Path::new(path).with_file_name(name).to_string_lossy().into_owned()
}

/// Relies on `Path::with_extension`: a function of the two texts alone. It
/// panics on an extension holding a path separator, which `requires` leaves
/// out.
#[verifier::external_body]
pub(crate) fn with_extension(path: &str, ext: &str) -> (r: String)
    requires
        !ext@.contains('/'),
        !ext@.contains('\\'),
    ensures
        r@ == with_extension_of(path@, ext@),
{
    Path::new(path).with_extension(ext).to_string_lossy().into_owned()
}

} // verus!
