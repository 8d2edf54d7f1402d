use sapling::links::{encode_url_path, format_breadcrumbs, search_result_href, video_thumbnail_href};
use sapling::media::{normalize_relative_path, ResolveError};
use sapling::path::MediaPath;

fn rel(segs: &[&str]) -> MediaPath {
    MediaPath { absolute: false, segments: segs.iter().map(|s| s.to_string()).collect() }
}

fn abs(segs: &[&str]) -> MediaPath {
    MediaPath { absolute: true, segments: segs.iter().map(|s| s.to_string()).collect() }
}

#[test]
fn normalize_drops_outer_slashes_and_empty_pieces() {
    assert_eq!(normalize_relative_path("a/b/").unwrap(), rel(&["a", "b"]));
    assert_eq!(normalize_relative_path("/a//./b/").unwrap(), rel(&["a", "b"]));
    assert_eq!(normalize_relative_path("./a/.").unwrap(), rel(&["a"]));
    assert_eq!(normalize_relative_path("Movies/Season 1").unwrap(), rel(&["Movies", "Season 1"]));
}

#[test]
fn normalize_empty_paths_give_the_root() {
    assert_eq!(normalize_relative_path("").unwrap(), rel(&[]));
    assert_eq!(normalize_relative_path("///").unwrap(), rel(&[]));
    assert_eq!(normalize_relative_path(".").unwrap(), rel(&[]));
}

#[test]
fn normalize_refuses_parent_pieces() {
    assert!(matches!(normalize_relative_path(".."), Err(ResolveError::PathTraversal)));
    assert!(matches!(normalize_relative_path("a/../b"), Err(ResolveError::PathTraversal)));
    assert!(matches!(normalize_relative_path("/a/b/.."), Err(ResolveError::PathTraversal)));
    assert!(matches!(normalize_relative_path("../etc/passwd"), Err(ResolveError::PathTraversal)));
}

#[test]
fn normalize_keeps_names_made_of_dots() {
    assert_eq!(normalize_relative_path("...").unwrap(), rel(&["..."]));
    assert_eq!(normalize_relative_path("a/..b/.c").unwrap(), rel(&["a", "..b", ".c"]));
}

#[test]
fn normalize_is_idempotent_on_examples() {
    for raw in ["/a//./b/", "x/y z/./", "", "..."] {
        let once = normalize_relative_path(raw).unwrap();
        let again = normalize_relative_path(&once.to_text()).unwrap();
        assert_eq!(once, again);
    }
}

#[test]
fn path_text_and_join() {
    let root = abs(&["srv", "media"]);
    let joined = root.join(&rel(&["a", "b.mp4"]));
    assert_eq!(joined.to_text(), "/srv/media/a/b.mp4");
    assert_eq!(rel(&["a", "b"]).to_text(), "a/b");
    assert_eq!(abs(&[]).to_text(), "/");
    assert_eq!(root.join(&abs(&["x"])), abs(&["x"]));
}

#[test]
fn path_from_text_reads_components() {
    assert_eq!(MediaPath::from_text("/home//u/./x/"), abs(&["home", "u", "x"]));
    assert_eq!(MediaPath::from_text("a/../b"), rel(&["a", "..", "b"]));
    assert_eq!(MediaPath::from_text(""), rel(&[]));
}

#[test]
fn url_paths_encode_everything_but_letters_and_digits() {
    assert_eq!(encode_url_path(&rel(&["My Movies", "a-b_c.mp4"])), "My%20Movies/a%2Db%5Fc%2Emp4");
    assert_eq!(encode_url_path(&rel(&["é"])), "%C3%A9");
    assert_eq!(encode_url_path(&rel(&[])), "");
    assert_eq!(encode_url_path(&rel(&["a/b"])), "a%2Fb");
    assert_eq!(encode_url_path(&abs(&["x"])), "%2F/x");
}

#[test]
fn breadcrumbs_link_each_prefix() {
    let crumbs = format_breadcrumbs(&rel(&["a", "b c"]));
    assert_eq!(
        crumbs,
        vec![
            ("Home".to_string(), "/browse/".to_string()),
            ("a".to_string(), "/browse/a".to_string()),
            ("b c".to_string(), "/browse/a/b%20c".to_string()),
        ]
    );
    assert_eq!(format_breadcrumbs(&rel(&[])), vec![("Home".to_string(), "/browse/".to_string())]);
}

#[test]
fn last_breadcrumb_links_to_the_page() {
    let p = rel(&["Shows", "Season 2"]);
    let crumbs = format_breadcrumbs(&p);
    assert_eq!(crumbs.len(), 3);
    assert_eq!(crumbs[2].1, format!("/browse/{}", encode_url_path(&p)));
}

#[test]
fn search_links_point_to_folders() {
    assert_eq!(search_result_href(&rel(&["a", "b"]), true), "/browse/a/b");
    assert_eq!(search_result_href(&rel(&["a", "v.mp4"]), false), "/browse/a");
    assert_eq!(search_result_href(&rel(&["v.mp4"]), false), "/browse/");
    assert_eq!(video_thumbnail_href(&rel(&["a b", "v.mp4"])), "/thumb/video/a%20b/v%2Emp4");
}


#[test]
fn decoding_each_piece_of_a_url_path_gives_back_the_component() {
    let p = MediaPath { absolute: true, segments: vec!["a b".to_string(), "é%/x".to_string(), "Z9".to_string()] };
    let url = encode_url_path(&p);
    assert!(url.chars().all(|c| c.is_ascii_alphanumeric() || c == '%' || c == '/'));
    let pieces: Vec<String> = url
        .split('/')
        .map(|piece| percent_encoding::percent_decode_str(piece).decode_utf8().unwrap().to_string())
        .collect();
    assert_eq!(pieces, vec!["/".to_string(), "a b".to_string(), "é%/x".to_string(), "Z9".to_string()]);
}
