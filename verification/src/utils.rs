//! Paths: whether a path names a file or a directory, and the path that a
//! URI stands for.
use vstd::prelude::*;
use std::path::{Path, PathBuf};
use std::str::FromStr;
use lsp_types::Uri;
use url::{ParseError, Url};
use crate::evaluation::texts;
use crate::symbols::symbol_mgr::contains_text;

verus! {

#[verifier::external_type_specification]
#[verifier::external_body]
pub struct ExPathBuf(PathBuf);

#[verifier::external_type_specification]
#[verifier::external_body]
pub struct ExUri(Uri);

#[verifier::external_type_specification]
#[verifier::external_body]
pub struct ExUrl(Url);

#[verifier::external_type_specification]
#[verifier::external_body]
pub struct ExParseError(ParseError);

/// Asks the file system whether anything is at `path`.
///
/// Trusted: calls `std::path::Path::exists`. The answer is what the disk
/// holds at that moment, so nothing is said of it.
#[verifier::external_body]
fn path_exists(path: &String) -> bool {
    Path::new(path).exists()
}

/// Asks the file system whether `path` leads to a regular file.
///
/// Trusted: calls `std::path::Path::is_file`. The answer is what the disk
/// holds at that moment, so nothing is said of it.
#[verifier::external_body]
fn path_is_file(path: &String) -> bool {
    Path::new(path).is_file()
}

/// Asks the file system whether `path` leads to a directory.
///
/// Trusted: calls `std::path::Path::is_dir`. The answer is what the disk
/// holds at that moment, so nothing is said of it.
#[verifier::external_body]
fn path_is_dir(path: &String) -> bool {
    Path::new(path).is_dir()
}

/// A path names an entry of a kind when something is there and it is of
/// that kind.
pub fn is_entry(exists: bool, of_kind: bool) -> (found: bool)
    ensures
        found == (exists && of_kind),
{
    exists && of_kind
}

/// Whether `path` names a file. On a file system that tells upper from
/// lower case, the file system's word is enough.
pub fn is_file_cs(path: String) -> bool {
    let exists = path_exists(&path);
    let file = path_is_file(&path);
    is_entry(exists, file)
}

/// Whether `path` names a directory. On a file system that tells upper
/// from lower case, the file system's word is enough.
pub fn is_dir_cs(path: String) -> bool {
    let exists = path_exists(&path);
    let dir = path_is_dir(&path);
    is_entry(exists, dir)
}

/// Every component is, letter for letter, among the entries of the
/// directory that holds it.
pub open spec fn listed_exactly(components: Seq<String>, listings: Seq<Vec<String>>) -> bool {
    &&& components.len() == listings.len()
    &&& forall|i: int|
        0 <= i < components.len() ==> texts((#[trigger] listings[i])@).contains(components[i]@)
}

/// Whether a path is spelled as the disk spells it, on a file system that
/// takes any case: `components` are the names along the path and
/// `listings[i]` the entries of the directory that holds `components[i]`.
pub fn is_path_cs(components: &Vec<String>, listings: &Vec<Vec<String>>) -> (exact: bool)
    ensures
        exact == listed_exactly(components@, listings@),
{
    if components.len() != listings.len() {
        return false;
    }
    let mut i: usize = 0;
    while i < components.len()
        invariant
            i <= components.len(),
            components.len() == listings.len(),
            forall|j: int|
                0 <= j < i ==> texts((#[trigger] listings@[j])@).contains(components@[j]@),
        decreases components.len() - i,
    {
        if !contains_text(&listings[i], &components[i]) {
            return false;
        }
        i += 1;
    }
    true
}

/// The text of a URI, as `Uri::as_str` gives it.
pub uninterp spec fn uri_text(uri: Uri) -> Seq<char>;

/// Whether a text is a URL, that is whether `Url::from_str` accepts it.
pub uninterp spec fn is_url(text: Seq<char>) -> bool;

/// Reads the text of a URI.
///
/// Trusted: calls `as_str` on the `fluent_uri::Uri` that an
/// `lsp_types::Uri` wraps, which returns the string the URI was parsed
/// from. The text is named `uri_text`.
#[verifier::external_body]
fn uri_as_str(uri: &Uri) -> (text: &str)
    ensures
        text@ == uri_text(*uri),
{
    uri.as_str()
}

/// Parses a text as a URL.
///
/// Trusted: calls `Url::from_str`, which is `Url::parse`. Whether it
/// accepts depends on the text alone; that is named `is_url`.
#[verifier::external_body]
fn parse_url(text: &str) -> (url: Result<Url, ParseError>)
    ensures
        url.is_ok() == is_url(text@),
{
    Url::from_str(text)
}

/// Turns a URL into the path of a file.
///
/// Trusted: calls `Url::to_file_path`. What it accepts differs between
/// operating systems, so nothing is said of the result.
#[verifier::external_body]
fn url_to_file_path(url: &Url) -> Result<PathBuf, ()> {
    url.to_file_path()
}

/// The path to hand back for a URI, given what parsing its text gave and
/// what converting the URL gave: the converted path when both went well.
pub fn file_path_of(parsed: bool, converted: Result<PathBuf, ()>) -> (path: Result<PathBuf, ()>)
    ensures
        path == if parsed {
            converted
        } else {
            Err::<PathBuf, ()>(())
        },
{
    if parsed {
        converted
    } else {
        Err(())
    }
}

/// Things that stand for a path on disk.
pub trait ToFilePath {
    /// The path, or `Err` when there is none.
    fn to_file_path(&self) -> Result<PathBuf, ()>;
}

impl ToFilePath for Uri {
    /// The path of the file that a URI names. A URI whose text is no URL
    /// names none.
    fn to_file_path(&self) -> (path: Result<PathBuf, ()>)
        ensures
            !is_url(uri_text(*self)) ==> path.is_err(),
    {
        match parse_url(uri_as_str(self)) {
            Ok(url) => file_path_of(true, url_to_file_path(&url)),
            Err(_) => Err(()),
        }
    }
}

} // verus!
