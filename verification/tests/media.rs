use sapling::media::{
    is_supported_video_name_exec, list_directory, resolve_directory, resolve_target,
    resolve_video_file, search_paths, search_query, DirEntryInfo, EntryKind, ResolveError,
    SearchEntryKind, WalkEntry,
};
use sapling::path::MediaPath;

fn rel(segs: &[&str]) -> MediaPath {
    MediaPath { absolute: false, segments: segs.iter().map(|s| s.to_string()).collect() }
}

fn abs(segs: &[&str]) -> MediaPath {
    MediaPath { absolute: true, segments: segs.iter().map(|s| s.to_string()).collect() }
}

fn dir(name: &str, empty: bool, thumb: bool) -> DirEntryInfo {
    DirEntryInfo {
        name: name.to_string(),
        kind: EntryKind::Directory,
        is_empty_dir: empty,
        has_folder_thumbnail: thumb,
        has_video_thumbnail: false,
    }
}

fn file(name: &str, thumb: bool) -> DirEntryInfo {
    DirEntryInfo {
        name: name.to_string(),
        kind: EntryKind::File,
        is_empty_dir: false,
        has_folder_thumbnail: false,
        has_video_thumbnail: thumb,
    }
}

#[test]
fn supported_video_names() {
    assert!(is_supported_video_name_exec("movie.mp4"));
    assert!(is_supported_video_name_exec("Movie.MKV"));
    assert!(is_supported_video_name_exec("a.b.WebM"));
    assert!(is_supported_video_name_exec("..avi"));
    assert!(!is_supported_video_name_exec(".mp4"));
    assert!(!is_supported_video_name_exec("mp4"));
    assert!(!is_supported_video_name_exec("song.mp3"));
    assert!(!is_supported_video_name_exec("movie.mp4."));
    assert!(!is_supported_video_name_exec(".."));
    assert!(!is_supported_video_name_exec(""));
}

#[test]
fn resolve_target_joins_below_the_root() {
    let root = abs(&["srv", "media"]);
    let (a, r) = resolve_target(&root, "/Shows//S1/").unwrap();
    assert_eq!(r, rel(&["Shows", "S1"]));
    assert_eq!(a, abs(&["srv", "media", "Shows", "S1"]));
    assert!(matches!(resolve_target(&root, "Shows/../.."), Err(ResolveError::PathTraversal)));
}

#[test]
fn resolve_directory_outcomes() {
    let root = abs(&["m"]);
    let t = resolve_target(&root, "a").unwrap();
    assert_eq!(resolve_directory(t.clone(), EntryKind::Directory).unwrap(), t);
    assert!(matches!(resolve_directory(t.clone(), EntryKind::Missing), Err(ResolveError::NotFound)));
    assert!(matches!(resolve_directory(t.clone(), EntryKind::File), Err(ResolveError::NotDirectory)));
    assert!(matches!(resolve_directory(t, EntryKind::Other), Err(ResolveError::NotDirectory)));
}

#[test]
fn resolve_video_file_outcomes() {
    let root = abs(&["m"]);
    let t = resolve_target(&root, "a/clip.MOV").unwrap();
    assert_eq!(resolve_video_file(t.clone(), EntryKind::File).unwrap(), t);
    assert!(matches!(resolve_video_file(t.clone(), EntryKind::Missing), Err(ResolveError::NotFound)));
    assert!(matches!(resolve_video_file(t.clone(), EntryKind::Directory), Err(ResolveError::NotFile)));
    let text = resolve_target(&root, "a/notes.txt").unwrap();
    assert!(matches!(resolve_video_file(text, EntryKind::File), Err(ResolveError::UnsupportedVideo)));
    let rootfile = resolve_target(&root, "").unwrap();
    assert!(matches!(resolve_video_file(rootfile, EntryKind::File), Err(ResolveError::UnsupportedVideo)));
}

#[test]
fn listing_keeps_non_empty_folders_and_videos_sorted_by_lowercase_name() {
    let entries = vec![
        file("b.mp4", true),
        dir("Zeta", false, false),
        dir("empty", true, false),
        file("notes.txt", false),
        dir("alpha", false, true),
        file("A.mkv", false),
        dir("beta", false, false),
    ];
    let (folders, videos) = list_directory(&rel(&["Shows"]), &entries);
    let names: Vec<&str> = folders.iter().map(|f| f.name.as_str()).collect();
    assert_eq!(names, vec!["alpha", "beta", "Zeta"]);
    assert_eq!(folders[0].relative_path, rel(&["Shows", "alpha"]));
    assert_eq!(folders[0].thumbnail_relative_path, Some(rel(&["Shows", "alpha", "folder.jpg"])));
    assert_eq!(folders[1].thumbnail_relative_path, None);
    let vnames: Vec<&str> = videos.iter().map(|v| v.name.as_str()).collect();
    assert_eq!(vnames, vec!["A.mkv", "b.mp4"]);
    assert_eq!(videos[0].thumbnail_url, None);
    assert_eq!(videos[1].thumbnail_url, Some("/thumb/video/Shows/b%2Emp4".to_string()));
    assert_eq!(videos[1].relative_path, rel(&["Shows", "b.mp4"]));
}

#[test]
fn listing_keeps_equal_keys_in_their_order() {
    let entries = vec![dir("B", false, false), dir("a", false, false), dir("b", false, false)];
    let (folders, videos) = list_directory(&rel(&[]), &entries);
    let names: Vec<&str> = folders.iter().map(|f| f.name.as_str()).collect();
    assert_eq!(names, vec!["a", "B", "b"]);
    assert!(videos.is_empty());
    let reversed = vec![dir("b", false, false), dir("a", false, false), dir("B", false, false)];
    let (folders, _) = list_directory(&rel(&[]), &reversed);
    let names: Vec<&str> = folders.iter().map(|f| f.name.as_str()).collect();
    assert_eq!(names, vec!["a", "b", "B"]);
}

fn walk(segs: &[&str], kind: EntryKind, empty: bool) -> WalkEntry {
    WalkEntry { relative_path: rel(segs), kind, is_empty_dir: empty }
}

#[test]
fn search_query_is_trimmed_and_lowercased() {
    assert_eq!(search_query("  Star WARS \n"), Some("star wars".to_string()));
    assert_eq!(search_query(" \t "), None);
    assert_eq!(search_query(""), None);
    assert_eq!(search_query("\u{3000}x\u{a0}"), Some("x".to_string()));
}

#[test]
fn search_finds_matching_folders_and_videos_sorted() {
    let entries = vec![
        walk(&["Movies"], EntryKind::Directory, false),
        walk(&["Movies", "Star Wars.mp4"], EntryKind::File, false),
        walk(&["Movies", "star trek"], EntryKind::Directory, false),
        walk(&["Movies", "star trek", "poster.jpg"], EntryKind::File, false),
        walk(&["Stars"], EntryKind::Directory, true),
        walk(&["Music", "Star.mp3"], EntryKind::File, false),
        walk(&["Movies", "star trek", "ep.MKV"], EntryKind::File, false),
    ];
    let results = search_paths("  STAR ", &entries);
    let got: Vec<(String, SearchEntryKind)> =
        results.iter().map(|r| (r.relative_path.to_text(), r.kind)).collect();
    assert_eq!(
        got,
        vec![
            ("Movies/star trek".to_string(), SearchEntryKind::Folder),
            ("Movies/star trek/ep.MKV".to_string(), SearchEntryKind::Video),
            ("Movies/Star Wars.mp4".to_string(), SearchEntryKind::Video),
        ]
    );
}

#[test]
fn search_matches_whole_relative_paths() {
    let entries = vec![
        walk(&["Holiday 2020"], EntryKind::Directory, false),
        walk(&["Holiday 2020", "beach.mp4"], EntryKind::File, false),
    ];
    let results = search_paths("2020/BEA", &entries);
    assert_eq!(results.len(), 1);
    assert_eq!(results[0].relative_path, rel(&["Holiday 2020", "beach.mp4"]));
}

#[test]
fn empty_search_finds_nothing() {
    let entries = vec![walk(&["a.mp4"], EntryKind::File, false)];
    assert!(search_paths("   ", &entries).is_empty());
    assert!(search_paths("", &entries).is_empty());
}

#[test]
fn white_space_around_a_query_changes_nothing() {
    let entries = vec![
        walk(&["Movies", "Star Wars.mp4"], EntryKind::File, false),
        walk(&["Movies", "star trek"], EntryKind::Directory, false),
        walk(&["Music"], EntryKind::Directory, false),
    ];
    let plain = search_paths("star", &entries);
    let padded = search_paths(" \t\u{2003}star\n\r", &entries);
    assert_eq!(plain, padded);
    assert_eq!(plain.len(), 2);
    assert_eq!(search_query(" \tstar\n"), search_query("star"));
}

#[test]
fn case_and_white_space_around_an_ascii_query_change_nothing() {
    let entries = vec![
        walk(&["Movies", "Star Wars.mp4"], EntryKind::File, false),
        walk(&["Movies", "star trek"], EntryKind::Directory, false),
        walk(&["Music"], EntryKind::Directory, false),
    ];
    let q = "Star w";
    let shouted = format!(" \t{}\n", q.to_ascii_uppercase());
    assert_eq!(search_paths(q, &entries), search_paths(&shouted, &entries));
    assert_eq!(search_query(&shouted), Some("star w".to_string()));
}
