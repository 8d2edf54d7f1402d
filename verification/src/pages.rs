//! What the pages of the web interface say: error responses, the texts and
//! links of search results, and the links of the video page.
use vstd::prelude::*;

use crate::links::{browse_href, encode_url_path, search_result_href, url_path};
use crate::media::{file_name_of, ResolveError, SearchEntry, SearchEntryKind};
use crate::path::{parent_marker, parent_or_self, MediaPath, PathModel};
use crate::text::{
    append_str, concat_str, decimal, decimal_string, str_equals, trim, trim_whitespace,
};

verus! {

/// The HTTP status and the message that answer a refused path.
pub open spec fn path_error_response_spec(err: ResolveError) -> (u16, Seq<char>) {
    match err {
        ResolveError::PathTraversal => (400, "Invalid path."@),
        ResolveError::NotDirectory | ResolveError::NotFound | ResolveError::NotFile => (
            404,
            "Requested path was not found."@,
        ),
        ResolveError::UnsupportedVideo => (
            415,
            "Media format is not part of the native playback allow-list."@,
        ),
    }
}

/// The HTTP status and the message that answer a refused path: a traversal
/// is a bad request, a missing or mistyped target is not found, and a file
/// that is not a served video is an unsupported media type.
pub fn path_error_response(err: ResolveError) -> (r: (u16, String))
    ensures
        r.0 == path_error_response_spec(err).0,
        r.1@ == path_error_response_spec(err).1,
{
    match err {
        ResolveError::PathTraversal => (400, String::from_str("Invalid path.")),
        ResolveError::NotDirectory | ResolveError::NotFound | ResolveError::NotFile => (
            404,
            String::from_str("Requested path was not found."),
        ),
        ResolveError::UnsupportedVideo => (
            415,
            String::from_str("Media format is not part of the native playback allow-list."),
        ),
    }
}

/// The search a browse request asks for: its `q` parameter without
/// surrounding white space, when that is not empty.
pub fn requested_search(q: Option<&str>) -> (r: Option<String>)
    ensures
        match q {
            Some(s) => if trim_whitespace(s@).len() > 0 {
                r matches Some(t) && t@ == trim_whitespace(s@)
            } else {
                r is None
            },
            None => r is None,
        },
{
    match q {
        Some(s) => {
            let t = trim(s);
            if t.as_str().is_empty() {
                None
            } else {
                Some(t)
            }
        },
        None => None,
    }
}

/// The heading of the search results page.
pub fn search_heading(query: &str) -> (r: String)
    ensures
        r@ == "Search: "@ + query@,
{
    concat_str("Search: ", query)
}

/// The count line of the search results page.
pub fn match_count_text(n: usize) -> (r: String)
    ensures
        r@ == decimal(n as nat) + " match(es)"@,
{
    let mut r = decimal_string(n as u64);
    append_str(&mut r, " match(es)");
    r
}

/// The label of a search result's kind.
pub fn search_kind_label(kind: SearchEntryKind) -> (r: String)
    ensures
        kind == SearchEntryKind::Folder ==> r@ == "Folder"@,
        kind == SearchEntryKind::Video ==> r@ == "Video"@,
{
    match kind {
        SearchEntryKind::Folder => String::from_str("Folder"),
        SearchEntryKind::Video => String::from_str("Video"),
    }
}

/// One row of the search results: the link, the text of the path, and the
/// kind's label.
pub struct SearchRow {
    pub href: String,
    pub path_text: String,
    pub kind_label: String,
}

/// The row shown for a search result: a folder links to its own page, a
/// video to the page of its folder.
pub fn search_row(entry: &SearchEntry) -> (r: SearchRow)
    ensures
        entry.kind == SearchEntryKind::Folder ==> r.href@ == browse_href(entry.relative_path@),
        entry.kind == SearchEntryKind::Video ==> r.href@ == browse_href(
            PathModel {
                absolute: entry.relative_path@.absolute,
                segments: parent_or_self(entry.relative_path@.segments),
            },
        ),
        r.path_text@ == crate::path::path_text(entry.relative_path@),
        entry.kind == SearchEntryKind::Folder ==> r.kind_label@ == "Folder"@,
        entry.kind == SearchEntryKind::Video ==> r.kind_label@ == "Video"@,
{
    let is_folder = entry.kind == SearchEntryKind::Folder;
    SearchRow {
        href: search_result_href(&entry.relative_path, is_folder),
        path_text: entry.relative_path.to_text(),
        kind_label: search_kind_label(entry.kind),
    }
}

/// The links and title of a video's page: where the media is served, the
/// page of its folder, and the name shown.
pub struct PlayLinks {
    pub media_src: String,
    pub parent_href: String,
    pub display_name: String,
}

/// The links and title of a video's page: `/media/` and the video's URL
/// path, the browse page of its folder, and its file name (`Video` when it
/// has none).
pub fn play_links(relative: &MediaPath) -> (r: PlayLinks)
    ensures
        r.media_src@ == "/media/"@ + url_path(relative@),
        r.parent_href@ == browse_href(
            PathModel {
                absolute: relative@.absolute,
                segments: parent_or_self(relative@.segments),
            },
        ),
        match file_name_of(relative@) {
            Some(n) => r.display_name@ == n,
            None => r.display_name@ == "Video"@,
        },
{
    let u = encode_url_path(relative);
    let media_src = concat_str("/media/", u.as_str());
    let parent = relative.parent_or_self();
    let pu = encode_url_path(&parent);
    let parent_href = concat_str("/browse/", pu.as_str());
    let display_name = match relative.file_name() {
        Some(n) => {
            if str_equals(n.as_str(), "..") {
                proof {
                    reveal_strlit("..");
                    assert(n@ =~= parent_marker());
                }
                String::from_str("Video")
            } else {
                proof {
                    reveal_strlit("..");
                    assert(".."@ =~= parent_marker());
                }
                n.clone()
            }
        },
        None => String::from_str("Video"),
    };
    PlayLinks { media_src, parent_href, display_name }
}

} // verus!
