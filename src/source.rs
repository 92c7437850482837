//! Where a declared file comes from, and the name it is served under by default.
use vstd::prelude::*;

verus! {

/// The final component of a filesystem path, if it has one.
pub uninterp spec fn path_file_name(p: Seq<char>) -> Option<Seq<char>>;

/// The path segments of the URL that `u` parses to, or `None` when `u` does not
/// parse or its URL cannot be a base.
pub uninterp spec fn url_path_segments(u: Seq<char>) -> Option<Seq<Seq<char>>>;

/// Relies on `std::path::Path::file_name`: the last component of the path,
/// `None` when the path ends in `..` or has no component.
#[verifier::external_body]
fn file_name_of(path: &str) -> (r: Option<String>)
    ensures
        match r {
            Some(n) => path_file_name(path@) == Some(n@),
            None => path_file_name(path@) is None,
        },
{
    std::path::Path::new(path).file_name().map(|n| n.to_string_lossy().into_owned())
}

/// Relies on `url::Url::parse` and `url::Url::path_segments`: the
/// percent-encoded segments of the parsed URL's path, split on `/`.
#[verifier::external_body]
fn segments_of(url: &str) -> (r: Option<Vec<String>>)
    ensures
        match r {
            Some(v) => url_path_segments(url@) == Some(v@.map_values(|s: String| s@)),
            None => url_path_segments(url@) is None,
        },
{
    match url::Url::parse(url) {
        Ok(u) => u.path_segments().map(|segs| segs.map(|s| s.to_string()).collect()),
        Err(_) => None,
    }
}

/// Where a declared file's text comes from.
#[derive(Clone, Debug)]
pub enum Location {
    Local { path: String },
    External { url: String },
}

/// Why a declared file could not be resolved.
#[derive(Clone, Copy, Debug, PartialEq, Eq, Structural)]
pub enum SourceError {
    /// A local path was missing, unreadable, or had no file name.
    Io,
    /// A URL was malformed, could not be fetched, or had no non-empty path
    /// segment.
    Fetch,
}

/// The last non-empty segment.
pub open spec fn last_non_empty(segs: Seq<Seq<char>>) -> Option<Seq<char>>
    decreases segs.len(),
{
    if segs.len() == 0 {
        None
    } else if segs.last().len() > 0 {
        Some(segs.last())
    } else {
        last_non_empty(segs.drop_last())
    }
}

/// The default name of a location: a local path's file name, or a URL's last
/// non-empty path segment.
pub open spec fn location_name(loc: Location) -> Result<Seq<char>, SourceError> {
    match loc {
        Location::Local { path } => match path_file_name(path@) {
            Some(n) => Ok(n),
            None => Err(SourceError::Io),
        },
        Location::External { url } => match url_path_segments(url@) {
            Some(segs) => match last_non_empty(segs) {
                Some(n) => Ok(n),
                None => Err(SourceError::Fetch),
            },
            None => Err(SourceError::Fetch),
        },
    }
}

/// The last non-empty string of `segs`.
pub fn last_non_empty_segment(segs: &Vec<String>) -> (r: Option<String>)
    ensures
        match r {
            Some(n) => last_non_empty(segs@.map_values(|s: String| s@)) == Some(n@),
            None => last_non_empty(segs@.map_values(|s: String| s@)) is None,
        },
{
    let ghost all = segs@.map_values(|s: String| s@);
    let mut i: usize = segs.len();
    assert(all.take(i as int) =~= all);
    while i > 0
        invariant
            i <= segs@.len(),
            all == segs@.map_values(|s: String| s@),
            last_non_empty(all.take(i as int)) == last_non_empty(all),
        decreases i,
    {
        assert(all.take(i as int).last() == segs@[i - 1]@);
        if !segs[i - 1].as_str().is_empty() {
            return Some(segs[i - 1].clone());
        }
        assert(all.take(i as int).drop_last() =~= all.take(i - 1));
        i = i - 1;
    }
    None
}

/// The name a location is served under unless it is renamed.
pub fn source_name(loc: &Location) -> (r: Result<String, SourceError>)
    ensures
        match r {
            Ok(n) => location_name(*loc) == Ok::<Seq<char>, SourceError>(n@),
            Err(e) => location_name(*loc) == Err::<Seq<char>, SourceError>(e),
        },
{
    match loc {
        Location::Local { path } => match file_name_of(path.as_str()) {
            Some(n) => Ok(n),
            None => Err(SourceError::Io),
        },
        Location::External { url } => match segments_of(url.as_str()) {
            Some(segs) => match last_non_empty_segment(&segs) {
                Some(n) => Ok(n),
                None => Err(SourceError::Fetch),
            },
            None => Err(SourceError::Fetch),
        },
    }
}

} // verus!
