//! The media tree: resolving request paths below the media root, the
//! listing of a directory and the search over the whole tree.
use vstd::prelude::*;

use crate::links::{url_path, video_thumbnail_href};
use crate::order::{is_stable_sort_order, stable_sort_order};
use crate::path::{
    child_model, is_normal_segment, join_model, lemma_normalized_segments_are_normal, normalize_segments,
    normalized_segments, parent_marker, path_text, MediaPath, PathModel,
};
use crate::text::{
    ascii_lower, ascii_lowercase, ascii_uppercase, chars_of, contains_seq, contains_str, is_ascii_text,
    is_unicode_whitespace, lowercase, lowercase_of, trim, trim_whitespace,
};

verus! {

/// Why a request path was refused.
#[derive(Debug, Clone, Copy, PartialEq, Eq, Structural)]
pub enum ResolveError {
    PathTraversal,
    NotDirectory,
    NotFound,
    NotFile,
    UnsupportedVideo,
}

/// What the filesystem reports about a path.
#[derive(Debug, Clone, Copy, PartialEq, Eq, Structural)]
pub enum EntryKind {
    /// Nothing exists there.
    Missing,
    Directory,
    /// A regular file.
    File,
    /// Something that exists and is neither a directory nor a regular file.
    Other,
}

/// Whether a search result is a folder or a video.
#[derive(Debug, Clone, Copy, PartialEq, Eq, Structural)]
pub enum SearchEntryKind {
    Folder,
    Video,
}

/// A non-empty sub-directory of a listed directory.
#[derive(Debug, Clone, PartialEq, Eq)]
pub struct FolderEntry {
    pub name: String,
    pub relative_path: MediaPath,
    /// The relative path of its `folder.jpg`, when it has one.
    pub thumbnail_relative_path: Option<MediaPath>,
}

/// A playable video of a listed directory.
#[derive(Debug, Clone, PartialEq, Eq)]
pub struct VideoEntry {
    pub name: String,
    pub relative_path: MediaPath,
    /// The link of its thumbnail, when a valid one is cached.
    pub thumbnail_url: Option<String>,
}

/// A folder or video whose path matches a search.
#[derive(Debug, Clone, PartialEq, Eq)]
pub struct SearchEntry {
    pub relative_path: MediaPath,
    pub kind: SearchEntryKind,
}

/// What the filesystem says of one entry of a listed directory.
#[derive(Debug, Clone, PartialEq, Eq)]
pub struct DirEntryInfo {
    pub name: String,
    pub kind: EntryKind,
    /// For a directory: whether it has no entries.
    pub is_empty_dir: bool,
    /// For a directory: whether it holds a regular file `folder.jpg`.
    pub has_folder_thumbnail: bool,
    /// For a file: whether a valid cached thumbnail exists for it.
    pub has_video_thumbnail: bool,
}

/// What the filesystem says of one entry met while walking the media tree.
#[derive(Debug, Clone, PartialEq, Eq)]
pub struct WalkEntry {
    /// The path of the entry relative to the media root.
    pub relative_path: MediaPath,
    pub kind: EntryKind,
    /// For a directory: whether it has no entries.
    pub is_empty_dir: bool,
}

// ---------------------------------------------------------------------
// Video file names
// ---------------------------------------------------------------------
/// The index of the last `.` in `s`, or -1.
pub open spec fn last_dot(s: Seq<char>) -> int
    decreases s.len(),
{
    if s.len() == 0 {
        -1
    } else if s.last() == '.' {
        s.len() - 1
    } else {
        last_dot(s.drop_last())
    }
}

/// The extension of a file name (`Path::extension`): what follows the last
/// `.`, unless that dot begins the name, there is no dot, or the name is
/// `..`.
pub open spec fn extension_of(name: Seq<char>) -> Option<Seq<char>> {
    if name == parent_marker() || last_dot(name) <= 0 {
        None
    } else {
        Some(name.subrange(last_dot(name) + 1, name.len() as int))
    }
}

/// The extensions of the videos that are served, in lowercase.
pub open spec fn supported_video_extensions() -> Seq<Seq<char>> {
    seq![
        seq!['m', 'p', '4'],
        seq!['w', 'e', 'b', 'm'],
        seq!['m', 'k', 'v'],
        seq!['m', 'o', 'v'],
        seq!['a', 'v', 'i'],
    ]
}

/// A file name whose extension, in ASCII lowercase, is that of a supported
/// video.
pub open spec fn is_supported_video_name(name: Seq<char>) -> bool {
    match extension_of(name) {
        Some(e) => supported_video_extensions().contains(ascii_lowercase(e)),
        None => false,
    }
}

/// The last component of a path (`Path::file_name`): none for a path
/// without segments or ending in `..`.
pub open spec fn file_name_of(p: PathModel) -> Option<Seq<char>> {
    if p.segments.len() == 0 || p.segments.last() == parent_marker() {
        None
    } else {
        Some(p.segments.last())
    }
}

/// A path whose file name is that of a supported video.
pub open spec fn is_supported_video_path(p: PathModel) -> bool {
    match file_name_of(p) {
        Some(n) => is_supported_video_name(n),
        None => false,
    }
}

fn ascii_lower_exec(c: char) -> (r: char)
    ensures
        r == ascii_lower(c),
{
    if 'A' <= c && c <= 'Z' {
        ((c as u32 + 32) as u8) as char
    } else {
        c
    }
}

fn lower_range_equals(cs: &Vec<char>, from: usize, word: &Vec<char>) -> (b: bool)
    requires
        from <= cs@.len(),
    ensures
        b == (ascii_lowercase(cs@.subrange(from as int, cs@.len() as int)) == word@),
{
    let ghost tail = cs@.subrange(from as int, cs@.len() as int);
    if cs.len() - from != word.len() {
        assert(ascii_lowercase(tail).len() != word@.len());
        return false;
    }
    let mut k: usize = 0;
    while k < word.len()
        invariant
            k <= word@.len(),
            from + word.len() == cs.len(),
            tail == cs@.subrange(from as int, cs@.len() as int),
            forall|m: int| 0 <= m < k ==> ascii_lower(cs@[from + m]) == word@[m],
        decreases word@.len() - k,
    {
        if ascii_lower_exec(cs[from + k]) != word[k] {
            assert(ascii_lowercase(tail)[k as int] == ascii_lower(cs@[from + k]));
            return false;
        }
        k = k + 1;
    }
    assert(ascii_lowercase(tail) =~= word@);
    true
}

proof fn lemma_last_dot_bounds(s: Seq<char>)
    ensures
        -1 <= last_dot(s) < s.len(),
        last_dot(s) >= 0 ==> s[last_dot(s)] == '.',
        forall|k: int| last_dot(s) < k < s.len() ==> s[k] != '.',
    decreases s.len(),
{
    if s.len() > 0 {
        lemma_last_dot_bounds(s.drop_last());
        if s.last() != '.' {
            assert forall|k: int| last_dot(s) < k < s.len() implies s[k] != '.' by {
                if k < s.len() - 1 {
                    assert(s[k] == s.drop_last()[k]);
                }
            }
        }
    }
}

proof fn lemma_last_dot_scan(s: Seq<char>, i: int)
    requires
        0 <= i <= s.len(),
        forall|k: int| i <= k < s.len() ==> s[k] != '.',
    ensures
        last_dot(s) == last_dot(s.take(i)),
    decreases s.len() - i,
{
    if i < s.len() {
        lemma_last_dot_scan(s.drop_last(), i);
        assert(s.drop_last().take(i) == s.take(i));
    } else {
        assert(s.take(i) == s);
    }
}

/// Whether a file name is that of a supported video: its extension, in
/// ASCII lowercase, is `mp4`, `webm`, `mkv`, `mov` or `avi`.
pub fn is_supported_video_name_exec(name: &str) -> (b: bool)
    ensures
        b == is_supported_video_name(name@),
{
    let cs = chars_of(name);
    let n = cs.len();
    if n == 2 && cs[0] == '.' && cs[1] == '.' {
        assert(cs@ =~= parent_marker());
        return false;
    }
    assert(cs@ != parent_marker() ==> name@ != parent_marker());
    let mut i: usize = n;
    while i > 0 && cs[i - 1] != '.'
        invariant
            i <= n == cs@.len(),
            forall|k: int| i <= k < n ==> cs@[k] != '.',
        decreases i,
    {
        i = i - 1;
    }
    proof {
        lemma_last_dot_scan(cs@, i as int);
        if i > 0 {
            let t = cs@.take(i as int);
            assert(t.last() == '.');
        } else {
            assert(cs@.take(0) =~= Seq::<char>::empty());
        }
    }
    // last_dot(name) == i - 1
    if i <= 1 {
        proof {
            if cs@ == parent_marker() {
                assert(cs@[0] == '.' && cs@[1] == '.');
            }
        }
        return false;
    }
    let words: Vec<Vec<char>> = vec![
        vec!['m', 'p', '4'],
        vec!['w', 'e', 'b', 'm'],
        vec!['m', 'k', 'v'],
        vec!['m', 'o', 'v'],
        vec!['a', 'v', 'i'],
    ];
    let ghost exts = supported_video_extensions();
    proof {
        assert(words@.map_values(|w: Vec<char>| w@) =~= exts);
    }
    let mut w: usize = 0;
    while w < words.len()
        invariant
            w <= words@.len() == exts.len(),
            exts == supported_video_extensions(),
            words@.map_values(|w: Vec<char>| w@) == exts,
            1 < i <= n == cs@.len(),
            cs@ == name@,
            extension_of(name@) == Some(cs@.subrange(i as int, n as int)),
            forall|m: int| 0 <= m < w ==> exts[m] != ascii_lowercase(cs@.subrange(i as int, n as int)),
        decreases words@.len() - w,
    {
        assert(words@[w as int]@ == exts[w as int]);
        if lower_range_equals(&cs, i, &words[w]) {
            assert(exts.contains(ascii_lowercase(cs@.subrange(i as int, n as int))));
            assert(is_supported_video_name(name@));
            return true;
        }
        w = w + 1;
    }
    false
}

/// Whether a path names a supported video: its file name has the extension
/// of a served video (`mp4`, `webm`, `mkv`, `mov` or `avi`, in any ASCII
/// case).
pub fn is_supported_video_file(path: &MediaPath) -> (b: bool)
    ensures
        b == is_supported_video_path(path@),
{
    let supported = match path.file_name() {
        Some(name) => is_supported_video_name_exec(name.as_str()),
        None => false,
    };
    proof {
        let segs = path@.segments;
        if segs.len() > 0 && segs.last() == parent_marker() {
            assert(!is_supported_video_name(segs.last()));
        }
    }
    supported
}

// ---------------------------------------------------------------------
// Resolving request paths
// ---------------------------------------------------------------------
/// Normalizes the relative path of a request: slashes at both ends, empty
/// pieces and `.` are dropped; a `..` piece is refused as a path traversal.
pub fn normalize_relative_path(raw: &str) -> (r: Result<MediaPath, ResolveError>)
    ensures
        match normalized_segments(raw@) {
            Some(segs) => r matches Ok(p) && !p@.absolute && p@.segments == segs,
            None => r == Err::<MediaPath, ResolveError>(ResolveError::PathTraversal),
        },
        r matches Ok(p) ==> forall|k: int|
            0 <= k < p@.segments.len() ==> is_normal_segment(#[trigger] p@.segments[k]),
{
    proof {
        lemma_normalized_segments_are_normal(raw@);
    }
    match normalize_segments(raw) {
        Some(segments) => Ok(MediaPath { absolute: false, segments }),
        None => Err(ResolveError::PathTraversal),
    }
}

/// The paths to look up for a request: the absolute path below `root` and
/// the normalized relative path, or the refusal of a path traversal.
pub fn resolve_target(root: &MediaPath, relative_raw: &str) -> (r: Result<
    (MediaPath, MediaPath),
    ResolveError,
>)
    ensures
        match normalized_segments(relative_raw@) {
            Some(segs) => r matches Ok((abs, rel)) && rel@ == (PathModel {
                absolute: false,
                segments: segs,
            }) && abs@ == join_model(root@, rel@),
            None => r == Err::<(MediaPath, MediaPath), ResolveError>(ResolveError::PathTraversal),
        },
        r matches Ok((abs, rel)) ==> abs@.absolute == root@.absolute && abs@.segments
            == root@.segments + rel@.segments && forall|k: int|
            0 <= k < rel@.segments.len() ==> is_normal_segment(#[trigger] rel@.segments[k]),
{
    let relative = normalize_relative_path(relative_raw)?;
    let absolute = root.join(&relative);
    Ok((absolute, relative))
}

/// The outcome of a directory request once the kind of its target is known:
/// the target when it is a directory, `NotFound` when nothing is there and
/// `NotDirectory` otherwise.
pub fn resolve_directory(target: (MediaPath, MediaPath), kind: EntryKind) -> (r: Result<
    (MediaPath, MediaPath),
    ResolveError,
>)
    ensures
        r == match kind {
            EntryKind::Missing => Err(ResolveError::NotFound),
            EntryKind::Directory => Ok(target),
            _ => Err(ResolveError::NotDirectory),
        },
{
    match kind {
        EntryKind::Missing => Err(ResolveError::NotFound),
        EntryKind::Directory => Ok(target),
        _ => Err(ResolveError::NotDirectory),
    }
}

/// The outcome of a video request once the kind of its target is known:
/// `NotFound` when nothing is there, `NotFile` when it is not a regular
/// file, `UnsupportedVideo` when its extension is not that of a served video,
/// and the target otherwise.
pub fn resolve_video_file(target: (MediaPath, MediaPath), kind: EntryKind) -> (r: Result<
    (MediaPath, MediaPath),
    ResolveError,
>)
    ensures
        r == (if kind == EntryKind::Missing {
            Err(ResolveError::NotFound)
        } else if kind != EntryKind::File {
            Err(ResolveError::NotFile)
        } else if !is_supported_video_path(target.0@) {
            Err(ResolveError::UnsupportedVideo)
        } else {
            Ok(target)
        }),
{
    match kind {
        EntryKind::Missing => Err(ResolveError::NotFound),
        EntryKind::File => {
            if is_supported_video_file(&target.0) {
                Ok(target)
            } else {
                Err(ResolveError::UnsupportedVideo)
            }
        },
        _ => Err(ResolveError::NotFile),
    }
}

// ---------------------------------------------------------------------
// Directory listings
// ---------------------------------------------------------------------
/// The items of `es` that satisfy `p`, in their order.
pub open spec fn select<T>(es: Seq<T>, p: spec_fn(T) -> bool) -> Seq<T>
    decreases es.len(),
{
    if es.len() == 0 {
        Seq::empty()
    } else {
        let s = select(es.drop_last(), p);
        if p(es.last()) {
            s.push(es.last())
        } else {
            s
        }
    }
}

/// An entry shown as a folder: a directory with at least one entry.
pub open spec fn is_shown_folder(e: DirEntryInfo) -> bool {
    e.kind == EntryKind::Directory && !e.is_empty_dir
}

/// An entry shown as a video: a regular file with a served extension.
pub open spec fn is_shown_video(e: DirEntryInfo) -> bool {
    e.kind == EntryKind::File && is_supported_video_name(e.name@)
}

/// The sort keys of listing entries: their names in lowercase.
pub open spec fn name_keys(es: Seq<DirEntryInfo>) -> Seq<Seq<char>> {
    es.map_values(|e: DirEntryInfo| lowercase_of(e.name@))
}

/// The folder shown for entry `e` of directory `dir`.
pub open spec fn is_folder_entry_for(f: FolderEntry, dir: PathModel, e: DirEntryInfo) -> bool {
    &&& f.name@ == e.name@
    &&& f.relative_path@ == child_model(dir, e.name@)
    &&& if e.has_folder_thumbnail {
        f.thumbnail_relative_path matches Some(t) && t@ == child_model(
            child_model(dir, e.name@),
            "folder.jpg"@,
        )
    } else {
        f.thumbnail_relative_path is None
    }
}

/// The video shown for entry `e` of directory `dir`.
pub open spec fn is_video_entry_for(v: VideoEntry, dir: PathModel, e: DirEntryInfo) -> bool {
    &&& v.name@ == e.name@
    &&& v.relative_path@ == child_model(dir, e.name@)
    &&& if e.has_video_thumbnail {
        v.thumbnail_url matches Some(u) && u@ == "/thumb/video/"@ + url_path(
            child_model(dir, e.name@),
        )
    } else {
        v.thumbnail_url is None
    }
}

/// The indices of the entries that satisfy `p`, with the lowercase names of
/// those entries.
fn select_by_name(entries: &Vec<DirEntryInfo>, folders: bool) -> (r: (Vec<usize>, Vec<Vec<char>>))
    ensures
        ({
            let sel = select(
                entries@,
                if folders {
                    |e: DirEntryInfo| is_shown_folder(e)
                } else {
                    |e: DirEntryInfo| is_shown_video(e)
                },
            );
            &&& r.0@.len() == sel.len() == r.1@.len()
            &&& forall|k: int|
                0 <= k < sel.len() ==> (#[trigger] r.0@[k]) < entries@.len() && entries@[r.0@[k] as int]
                    == sel[k]
            &&& r.1@.map_values(|c: Vec<char>| c@) == name_keys(sel)
        }),
{
    let ghost p: spec_fn(DirEntryInfo) -> bool = if folders {
        |e: DirEntryInfo| is_shown_folder(e)
    } else {
        |e: DirEntryInfo| is_shown_video(e)
    };
    let mut idx: Vec<usize> = Vec::new();
    let mut keys: Vec<Vec<char>> = Vec::new();
    let mut i: usize = 0;
    assert(entries@.take(0) =~= Seq::<DirEntryInfo>::empty());
    while i < entries.len()
        invariant
            i <= entries@.len(),
            p == (if folders {
                |e: DirEntryInfo| is_shown_folder(e)
            } else {
                |e: DirEntryInfo| is_shown_video(e)
            }),
            idx@.len() == select(entries@.take(i as int), p).len() == keys@.len(),
            forall|k: int|
                0 <= k < idx@.len() ==> (#[trigger] idx@[k]) < i && entries@[idx@[k] as int]
                    == select(entries@.take(i as int), p)[k],
            keys@.map_values(|c: Vec<char>| c@) == name_keys(select(entries@.take(i as int), p)),
        decreases entries@.len() - i,
    {
        let e = &entries[i];
        let keep = if folders {
            e.kind == EntryKind::Directory && !e.is_empty_dir
        } else {
            e.kind == EntryKind::File && is_supported_video_name_exec(e.name.as_str())
        };
        let ghost before = select(entries@.take(i as int), p);
        let ghost old_keys = keys@;
        proof {
            assert(entries@.take(i + 1).drop_last() == entries@.take(i as int));
            assert(entries@.take(i + 1).last() == entries@[i as int]);
        }
        if keep {
            idx.push(i);
            let lower = lowercase(e.name.as_str());
            let key = chars_of(lower.as_str());
            keys.push(key);
            proof {
                assert(p(entries@[i as int]));
                assert(select(entries@.take(i + 1), p) == before.push(entries@[i as int]));
                assert(keys@ == old_keys.push(key));
                assert(old_keys.map_values(|c: Vec<char>| c@) == name_keys(before));
                assert(key@ == lowercase_of(entries@[i as int].name@));
                assert(name_keys(before.push(entries@[i as int])) =~= name_keys(before).push(
                    lowercase_of(entries@[i as int].name@),
                ));
                assert(keys@.map_values(|c: Vec<char>| c@) =~= name_keys(
                    select(entries@.take(i + 1), p),
                ));
            }
        }
        i = i + 1;
    }
    assert(entries@.take(entries@.len() as int) == entries@);
    (idx, keys)
}

/// The folders and the videos of a directory, each sorted by lowercase name
/// with ties in the order of `entries`: the non-empty sub-directories, with
/// their `folder.jpg` when they have one, and the regular files with a
/// served video extension, with the link of their thumbnail when one is
/// cached.
pub fn list_directory(relative_dir: &MediaPath, entries: &Vec<DirEntryInfo>) -> (r: (
    Vec<FolderEntry>,
    Vec<VideoEntry>,
))
    ensures
        ({
            let shown = select(entries@, |e: DirEntryInfo| is_shown_folder(e));
            &&& r.0@.len() == shown.len()
            &&& exists|p: Seq<usize>|
                #![trigger is_stable_sort_order(name_keys(shown), p)]
                is_stable_sort_order(name_keys(shown), p) && forall|m: int|
                    0 <= m < shown.len() ==> is_folder_entry_for(
                        #[trigger] r.0@[m],
                        relative_dir@,
                        shown[p[m] as int],
                    )
        }),
        ({
            let shown = select(entries@, |e: DirEntryInfo| is_shown_video(e));
            &&& r.1@.len() == shown.len()
            &&& exists|p: Seq<usize>|
                #![trigger is_stable_sort_order(name_keys(shown), p)]
                is_stable_sort_order(name_keys(shown), p) && forall|m: int|
                    0 <= m < shown.len() ==> is_video_entry_for(
                        #[trigger] r.1@[m],
                        relative_dir@,
                        shown[p[m] as int],
                    )
        }),
{
    // folders
    let (fidx, fkeys) = select_by_name(entries, true);
    let ghost fshown = select(entries@, |e: DirEntryInfo| is_shown_folder(e));
    let fp = stable_sort_order(&fkeys);
    assert(fkeys@.map_values(|c: Vec<char>| c@) == name_keys(fshown));
    let mut folders: Vec<FolderEntry> = Vec::new();
    let mut m: usize = 0;
    while m < fp.len()
        invariant
            m <= fp@.len() == fshown.len() == fidx@.len(),
            fshown == select(entries@, |e: DirEntryInfo| is_shown_folder(e)),
            is_stable_sort_order(name_keys(fshown), fp@),
            forall|k: int|
                0 <= k < fshown.len() ==> (#[trigger] fidx@[k]) < entries@.len() && entries@[fidx@[k] as int]
                    == fshown[k],
            folders@.len() == m,
            forall|j: int|
                0 <= j < m ==> is_folder_entry_for(
                    #[trigger] folders@[j],
                    relative_dir@,
                    fshown[fp@[j] as int],
                ),
        decreases fp@.len() - m,
    {
        let k = fp[m];
        assert(fp@[m as int] < fshown.len());
        let e = &entries[fidx[k]];
        let rel = relative_dir.child(e.name.as_str());
        let thumb = if e.has_folder_thumbnail {
            proof {
                reveal_strlit("folder.jpg");
            }
            Some(rel.child("folder.jpg"))
        } else {
            None
        };
        folders.push(FolderEntry { name: e.name.clone(), relative_path: rel, thumbnail_relative_path: thumb });
        m = m + 1;
    }
    // videos
    let (vidx, vkeys) = select_by_name(entries, false);
    let ghost vshown = select(entries@, |e: DirEntryInfo| is_shown_video(e));
    let vp = stable_sort_order(&vkeys);
    assert(vkeys@.map_values(|c: Vec<char>| c@) == name_keys(vshown));
    let mut videos: Vec<VideoEntry> = Vec::new();
    let mut m: usize = 0;
    while m < vp.len()
        invariant
            m <= vp@.len() == vshown.len() == vidx@.len(),
            vshown == select(entries@, |e: DirEntryInfo| is_shown_video(e)),
            is_stable_sort_order(name_keys(vshown), vp@),
            forall|k: int|
                0 <= k < vshown.len() ==> (#[trigger] vidx@[k]) < entries@.len() && entries@[vidx@[k] as int]
                    == vshown[k],
            videos@.len() == m,
            forall|j: int|
                0 <= j < m ==> is_video_entry_for(
                    #[trigger] videos@[j],
                    relative_dir@,
                    vshown[vp@[j] as int],
                ),
        decreases vp@.len() - m,
    {
        let k = vp[m];
        assert(vp@[m as int] < vshown.len());
        let e = &entries[vidx[k]];
        let rel = relative_dir.child(e.name.as_str());
        let url = if e.has_video_thumbnail {
            Some(video_thumbnail_href(&rel))
        } else {
            None
        };
        videos.push(VideoEntry { name: e.name.clone(), relative_path: rel, thumbnail_url: url });
        m = m + 1;
    }
    (folders, videos)
}

// ---------------------------------------------------------------------
// Search
// ---------------------------------------------------------------------
/// What a search looks for: the query without surrounding white space, in
/// lowercase; nothing when that is empty.
pub open spec fn search_query_key(query: Seq<char>) -> Option<Seq<char>> {
    let t = trim_whitespace(query);
    if t.len() == 0 {
        None
    } else {
        Some(lowercase_of(t))
    }
}

/// White space around a query does not change what it asks for: the query
/// is trimmed before it is read.
pub proof fn lemma_search_ignores_surrounding_whitespace(
    before: Seq<char>,
    query: Seq<char>,
    after: Seq<char>,
)
    requires
        forall|k: int| 0 <= k < before.len() ==> is_unicode_whitespace(#[trigger] before[k]),
        forall|k: int| 0 <= k < after.len() ==> is_unicode_whitespace(#[trigger] after[k]),
    ensures
        search_query_key(before + query + after) == search_query_key(query),
{
    crate::text::lemma_trim_ignores_surrounding_whitespace(before, query, after);
}

/// The text a search compares with the query, and sorts by: the relative
/// path in lowercase.
pub open spec fn search_key(e: WalkEntry) -> Seq<char> {
    lowercase_of(path_text(e.relative_path@))
}

/// What a walked entry can be found as: a non-empty directory as a folder,
/// a regular file with a served extension as a video.
pub open spec fn searchable_kind(e: WalkEntry) -> Option<SearchEntryKind> {
    if e.kind == EntryKind::Directory && !e.is_empty_dir {
        Some(SearchEntryKind::Folder)
    } else if e.kind == EntryKind::File && is_supported_video_path(e.relative_path@) {
        Some(SearchEntryKind::Video)
    } else {
        None
    }
}

/// Whether an entry matches a lowercase query.
pub open spec fn is_search_hit(e: WalkEntry, key: Seq<char>) -> bool {
    searchable_kind(e) is Some && contains_seq(search_key(e), key)
}

/// The sort keys of search hits.
pub open spec fn search_keys(es: Seq<WalkEntry>) -> Seq<Seq<char>> {
    es.map_values(|e: WalkEntry| search_key(e))
}

/// What an ASCII query asks for: the query without surrounding white space,
/// with its ASCII letters in lowercase; nothing when that is empty.
pub open spec fn ascii_query_key(query: Seq<char>) -> Option<Seq<char>> {
    let t = trim_whitespace(query);
    if t.len() == 0 {
        None
    } else {
        Some(ascii_lowercase(t))
    }
}

/// What a query asks for, as `search_paths` reads it.
pub fn search_query(query: &str) -> (r: Option<String>)
    ensures
        match search_query_key(query@) {
            Some(k) => r matches Some(s) && s@ == k,
            None => r is None,
        },
        is_ascii_text(query@) ==> search_query_key(query@) == ascii_query_key(query@),
{
    let t = trim(query);
    proof {
        if is_ascii_text(query@) {
            crate::text::lemma_trim_keeps_ascii(query@, |c: char| is_unicode_whitespace(c));
        }
    }
    if t.as_str().is_empty() {
        None
    } else {
        Some(lowercase(t.as_str()))
    }
}

/// An ASCII query asks for the same as itself with its ASCII letters in
/// uppercase and white space around it: the query is trimmed and matched
/// without regard to case.
pub proof fn lemma_ascii_query_ignores_case_and_surrounding_whitespace(
    before: Seq<char>,
    query: Seq<char>,
    after: Seq<char>,
)
    requires
        forall|k: int| 0 <= k < before.len() ==> is_unicode_whitespace(#[trigger] before[k]),
        forall|k: int| 0 <= k < after.len() ==> is_unicode_whitespace(#[trigger] after[k]),
    ensures
        ascii_query_key(before + ascii_uppercase(query) + after) == ascii_query_key(query),
{
    crate::text::lemma_ascii_key_ignores_case_and_surrounding_whitespace(before, query, after);
}

fn searchable_kind_exec(e: &WalkEntry) -> (r: Option<SearchEntryKind>)
    ensures
        r == searchable_kind(*e),
{
    if e.kind == EntryKind::Directory && !e.is_empty_dir {
        return Some(SearchEntryKind::Folder);
    }
    if e.kind == EntryKind::File && is_supported_video_file(&e.relative_path) {
        return Some(SearchEntryKind::Video);
    }
    None
}

/// Searches the walked media tree: the non-empty folders and the videos
/// whose relative path, in lowercase, contains the trimmed query in
/// lowercase, sorted by that lowercase path with ties in walk order. An
/// empty query (after trimming) finds nothing.
pub fn search_paths(query: &str, entries: &Vec<WalkEntry>) -> (r: Vec<SearchEntry>)
    ensures
        match search_query_key(query@) {
            None => r@.len() == 0,
            Some(key) => {
                let hits = select(entries@, |e: WalkEntry| is_search_hit(e, key));
                &&& r@.len() == hits.len()
                &&& exists|p: Seq<usize>|
                    #![trigger is_stable_sort_order(search_keys(hits), p)]
                    is_stable_sort_order(search_keys(hits), p) && forall|m: int|
                        0 <= m < hits.len() ==> (#[trigger] r@[m]).relative_path@
                            == hits[p[m] as int].relative_path@ && searchable_kind(
                            hits[p[m] as int],
                        ) == Some(r@[m].kind)
            },
        },
{
    let key = match search_query(query) {
        Some(k) => k,
        None => return Vec::new(),
    };
    let ghost kq = key@;
    let ghost hit: spec_fn(WalkEntry) -> bool = |e: WalkEntry| is_search_hit(e, kq);
    let mut idx: Vec<usize> = Vec::new();
    let mut kinds: Vec<SearchEntryKind> = Vec::new();
    let mut keys: Vec<Vec<char>> = Vec::new();
    let mut i: usize = 0;
    assert(entries@.take(0) =~= Seq::<WalkEntry>::empty());
    while i < entries.len()
        invariant
            i <= entries@.len(),
            key@ == kq,
            hit == (|e: WalkEntry| is_search_hit(e, kq)),
            idx@.len() == select(entries@.take(i as int), hit).len() == keys@.len() == kinds@.len(),
            forall|k: int|
                0 <= k < idx@.len() ==> (#[trigger] idx@[k]) < i && entries@[idx@[k] as int]
                    == select(entries@.take(i as int), hit)[k] && searchable_kind(
                    entries@[idx@[k] as int],
                ) == Some(kinds@[k]),
            keys@.map_values(|c: Vec<char>| c@) == search_keys(select(entries@.take(i as int), hit)),
        decreases entries@.len() - i,
    {
        let e = &entries[i];
        proof {
            assert(entries@.take(i + 1).drop_last() == entries@.take(i as int));
            assert(entries@.take(i + 1).last() == entries@[i as int]);
        }
        let ghost before = select(entries@.take(i as int), hit);
        let ghost old_keys = keys@;
        match searchable_kind_exec(e) {
            Some(kind) => {
                let text = e.relative_path.to_text();
                let lower = lowercase(text.as_str());
                if contains_str(lower.as_str(), key.as_str()) {
                    idx.push(i);
                    kinds.push(kind);
                    let ck = chars_of(lower.as_str());
                    keys.push(ck);
                    proof {
                        assert(hit(entries@[i as int]));
                        assert(select(entries@.take(i + 1), hit) == before.push(entries@[i as int]));
                        assert(keys@ == old_keys.push(ck));
                        assert(old_keys.map_values(|c: Vec<char>| c@) == search_keys(before));
                        assert(ck@ == search_key(entries@[i as int]));
                        assert(search_keys(before.push(entries@[i as int])) =~= search_keys(
                            before,
                        ).push(search_key(entries@[i as int])));
                        assert(keys@.map_values(|c: Vec<char>| c@) =~= search_keys(
                            select(entries@.take(i + 1), hit),
                        ));
                    }
                }
            },
            None => {},
        }
        i = i + 1;
    }
    assert(entries@.take(entries@.len() as int) == entries@);
    let ghost hits = select(entries@, hit);
    let p = stable_sort_order(&keys);
    let mut out: Vec<SearchEntry> = Vec::new();
    let mut m: usize = 0;
    while m < p.len()
        invariant
            m <= p@.len() == hits.len() == idx@.len() == kinds@.len(),
            hits == select(entries@, hit),
            is_stable_sort_order(search_keys(hits), p@),
            forall|k: int|
                0 <= k < hits.len() ==> (#[trigger] idx@[k]) < entries@.len() && entries@[idx@[k] as int]
                    == hits[k] && searchable_kind(hits[k]) == Some(kinds@[k]),
            out@.len() == m,
            forall|j: int|
                0 <= j < m ==> (#[trigger] out@[j]).relative_path@ == hits[p@[j] as int].relative_path@
                    && searchable_kind(hits[p@[j] as int]) == Some(out@[j].kind),
        decreases p@.len() - m,
    {
        let k = p[m];
        assert(p@[m as int] < hits.len());
        let e = &entries[idx[k]];
        out.push(SearchEntry { relative_path: e.relative_path.duplicate(), kind: kinds[k] });
        m = m + 1;
    }
    proof {
        assert(hit == (|e: WalkEntry| is_search_hit(e, key@)));
    }
    out
}

} // verus!
