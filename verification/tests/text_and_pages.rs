use sapling::media::{ResolveError, SearchEntry, SearchEntryKind};
use sapling::order::stable_sort_order;
use sapling::pages::{
    match_count_text, path_error_response, play_links, requested_search, search_heading, search_row,
};
use sapling::path::MediaPath;
use sapling::media::search_query;
use sapling::text::{contains_str, decimal_string, parse_u64, str_equals, trim};

fn rel(segs: &[&str]) -> MediaPath {
    MediaPath { absolute: false, segments: segs.iter().map(|s| s.to_string()).collect() }
}

#[test]
fn trimming_removes_unicode_white_space() {
    assert_eq!(trim("  a b \t\n"), "a b");
    assert_eq!(trim("\u{2003}x\u{85}"), "x");
    assert_eq!(trim("   "), "");
    assert_eq!(trim(""), "");
    assert_eq!(trim("x"), "x");
}

#[test]
fn parsing_numbers_like_std() {
    assert_eq!(parse_u64("0"), Some(0));
    assert_eq!(parse_u64("007"), Some(7));
    assert_eq!(parse_u64("+12"), Some(12));
    assert_eq!(parse_u64("18446744073709551615"), Some(u64::MAX));
    assert_eq!(parse_u64("18446744073709551616"), None);
    assert_eq!(parse_u64("99999999999999999999x"), None);
    assert_eq!(parse_u64(""), None);
    assert_eq!(parse_u64("+"), None);
    assert_eq!(parse_u64("-1"), None);
    assert_eq!(parse_u64(" 1"), None);
    assert_eq!(parse_u64("1.5"), None);
}

#[test]
fn decimal_text_round_trips() {
    for n in [0u64, 9, 10, 1234567890, u64::MAX] {
        assert_eq!(decimal_string(n), n.to_string());
        assert_eq!(parse_u64(&decimal_string(n)), Some(n));
    }
}

#[test]
fn substring_search_and_equality() {
    assert!(contains_str("movies/star wars", "star"));
    assert!(contains_str("abc", ""));
    assert!(!contains_str("ab", "abc"));
    assert!(!contains_str("abc", "ac"));
    assert!(str_equals("x", "x"));
    assert!(!str_equals("x", "xy"));
    assert_eq!(search_query(" ÀB "), Some("àb".to_string()));
    assert_eq!(search_query("ΣΑΣ"), Some("σας".to_string()));
}

#[test]
fn stable_order_of_keys() {
    let keys: Vec<Vec<char>> = ["b", "a", "b", "", "ab"].iter().map(|s| s.chars().collect()).collect();
    assert_eq!(stable_sort_order(&keys), vec![3, 1, 4, 0, 2]);
}

#[test]
fn path_errors_map_to_http_answers() {
    assert_eq!(path_error_response(ResolveError::PathTraversal), (400, "Invalid path.".to_string()));
    assert_eq!(path_error_response(ResolveError::NotFound), (404, "Requested path was not found.".to_string()));
    assert_eq!(path_error_response(ResolveError::NotFile).0, 404);
    assert_eq!(path_error_response(ResolveError::NotDirectory).0, 404);
    assert_eq!(
        path_error_response(ResolveError::UnsupportedVideo),
        (415, "Media format is not part of the native playback allow-list.".to_string())
    );
}

#[test]
fn browse_query_parameter() {
    assert_eq!(requested_search(Some("  cats ")), Some("cats".to_string()));
    assert_eq!(requested_search(Some("   ")), None);
    assert_eq!(requested_search(None), None);
}

#[test]
fn search_page_texts() {
    assert_eq!(search_heading("star"), "Search: star");
    assert_eq!(match_count_text(0), "0 match(es)");
    assert_eq!(match_count_text(12), "12 match(es)");
    let folder = SearchEntry { relative_path: rel(&["A B", "c"]), kind: SearchEntryKind::Folder };
    let row = search_row(&folder);
    assert_eq!(row.href, "/browse/A%20B/c");
    assert_eq!(row.path_text, "A B/c");
    assert_eq!(row.kind_label, "Folder");
    let video = SearchEntry { relative_path: rel(&["A B", "c.mp4"]), kind: SearchEntryKind::Video };
    let row = search_row(&video);
    assert_eq!(row.href, "/browse/A%20B");
    assert_eq!(row.kind_label, "Video");
}

#[test]
fn video_page_links() {
    let links = play_links(&rel(&["Shows", "ep 1.mkv"]));
    assert_eq!(links.media_src, "/media/Shows/ep%201%2Emkv");
    assert_eq!(links.parent_href, "/browse/Shows");
    assert_eq!(links.display_name, "ep 1.mkv");
    let top = play_links(&rel(&["v.mp4"]));
    assert_eq!(top.parent_href, "/browse/");
    assert_eq!(play_links(&rel(&[])).display_name, "Video");
}
