//! Paths as the operating system hands them over.

use std::path::PathBuf;

use vstd::prelude::*;
use vstd::utf8::encode_utf8;

use crate::path::{PathView, Syntax, SystemPath};

verus! {

/// `std::path::PathBuf`, whose bytes [`path_bytes`] names.
#[verifier::external_type_specification]
#[verifier::external_body]
pub struct ExPathBuf(PathBuf);

/// The bytes of a path.
pub uninterp spec fn path_bytes(path: PathBuf) -> Seq<u8>;

/// The bytes of some paths.
pub open spec fn all_path_bytes(paths: Seq<PathBuf>) -> Seq<Seq<u8>> {
    Seq::new(paths.len(), |i: int| path_bytes(paths[i]))
}

/// `OsStr::as_encoded_bytes` of `PathBuf::as_os_str`: returns the bytes of a path.
#[verifier::external_body]
fn bytes_of(path: &PathBuf) -> (bytes: Vec<u8>)
    ensures
        bytes@ == path_bytes(*path),
{
    path.as_os_str().as_encoded_bytes().to_vec()
}

/// `PathBuf::from` on text: returns the path whose bytes are the UTF-8 encoding
/// of the text.
#[verifier::external_body]
pub(crate) fn path_from_text(text: &str) -> (path: PathBuf)
    ensures
        path_bytes(path) == encode_utf8(text@),
{
    PathBuf::from(text)
}

/// `PathBuf::clone`: returns a path with the same bytes.
#[verifier::external_body]
pub(crate) fn copy_path(path: &PathBuf) -> (result: PathBuf)
    ensures
        path_bytes(result) == path_bytes(*path),
{
    path.clone()
}

/// A path of a system that writes paths as `syntax` says.
pub fn system_path(path: &PathBuf, syntax: Syntax) -> (result: SystemPath)
    ensures
        result@ == (PathView { syntax, bytes: path_bytes(*path) }),
{
    SystemPath { syntax, bytes: bytes_of(path) }
}

/// Some paths of a system that writes paths as `syntax` says.
pub fn system_paths(paths: &Vec<PathBuf>, syntax: Syntax) -> (result: Vec<SystemPath>)
    ensures
        result@.len() == paths@.len(),
        forall|i: int|
            0 <= i < paths@.len() ==> (#[trigger] result@[i])@ == (PathView {
                syntax,
                bytes: path_bytes(paths@[i]),
            }),
{
    let mut result: Vec<SystemPath> = Vec::new();
    for i in 0..paths.len()
        invariant
            result@.len() == i,
            forall|j: int|
                0 <= j < i ==> (#[trigger] result@[j])@ == (PathView {
                    syntax,
                    bytes: path_bytes(paths@[j]),
                }),
    {
        result.push(system_path(&paths[i], syntax));
    }
    result
}

} // verus!
