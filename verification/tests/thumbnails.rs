use sapling::path::MediaPath;
use sapling::thumbnail::{
    collect_thumbnail_metadata, failed_thumbnail_path, failure_marker, stored_thumbnail,
    thumbnail_base_dir, thumbnail_cache_path, thumbnail_candidates, thumbnail_chunks,
    thumbnail_file_name, thumbnail_png_is_valid, uri_variants,
};

fn abs(segs: &[&str]) -> MediaPath {
    MediaPath { absolute: true, segments: segs.iter().map(|s| s.to_string()).collect() }
}

fn rel(segs: &[&str]) -> MediaPath {
    MediaPath { absolute: false, segments: segs.iter().map(|s| s.to_string()).collect() }
}

#[test]
fn thumbnail_names_are_md5_of_the_uri() {
    assert_eq!(thumbnail_file_name("file:///videos/a.mp4"), "ca05a1359756de1ea4376183512ba7b1.png");
    assert_eq!(thumbnail_file_name("file:///tmp/x%20y.mkv"), "98049b4273052f7edfc927bbc1430b97.png");
}

#[test]
fn cache_root_follows_the_environment() {
    assert_eq!(thumbnail_base_dir(Some("/c"), Some("/home/u")), abs(&["c", "thumbnails"]));
    assert_eq!(thumbnail_base_dir(None, Some("/home/u")), abs(&["home", "u", ".cache", "thumbnails"]));
    assert_eq!(thumbnail_base_dir(None, None), rel(&[".cache", "thumbnails"]));
    assert_eq!(thumbnail_base_dir(Some(""), None), rel(&["thumbnails"]));
}

#[test]
fn cache_and_failure_paths() {
    let base = abs(&["c", "thumbnails"]);
    let name = "ca05a1359756de1ea4376183512ba7b1.png";
    assert_eq!(
        thumbnail_cache_path(&base, "file:///videos/a.mp4", "large"),
        abs(&["c", "thumbnails", "large", name])
    );
    assert_eq!(
        failed_thumbnail_path(&base, "file:///videos/a.mp4"),
        abs(&["c", "thumbnails", "fail", "gnome-thumbnail-factory", name])
    );
}

#[test]
fn candidates_cover_each_uri_and_size() {
    let base = abs(&["t"]);
    let uris = vec!["file:///a".to_string(), "file:///b".to_string()];
    let c = thumbnail_candidates(&base, &uris);
    assert_eq!(c.len(), 8);
    let dirs: Vec<String> = c.iter().map(|(p, _)| p.segments[1].clone()).collect();
    assert_eq!(dirs, vec!["normal", "large", "x-large", "xx-large", "normal", "large", "x-large", "xx-large"]);
    assert_eq!(c[0].1, "file:///a");
    assert_eq!(c[7].1, "file:///b");
    assert_eq!(c[5].0.segments[2], thumbnail_file_name("file:///b"));
}

#[test]
fn uri_variants_skip_duplicates_and_relative_paths() {
    let p = abs(&["videos", "a.mp4"]);
    assert_eq!(uri_variants(&p, None), vec!["file:///videos/a.mp4".to_string()]);
    assert_eq!(uri_variants(&p, Some(&p)), vec!["file:///videos/a.mp4".to_string()]);
    let c = abs(&["data", "a b.mp4"]);
    assert_eq!(
        uri_variants(&p, Some(&c)),
        vec!["file:///videos/a.mp4".to_string(), "file:///data/a%20b.mp4".to_string()]
    );
    assert!(uri_variants(&rel(&["a.mp4"]), None).is_empty());
}

#[test]
fn uris_escape_what_a_file_url_path_segment_escapes() {
    let p = abs(&["v", "a b#1?\u{e9}%{x}.mp4"]);
    assert_eq!(uri_variants(&p, None), vec!["file:///v/a%20b%231%3F%C3%A9%25%7Bx%7D.mp4".to_string()]);
    assert_eq!(uri_variants(&abs(&[]), None), vec!["file:///".to_string()]);
    let kept = abs(&["v", "a-b_c~d!$&'()*+,;=:@[].mp4"]);
    assert_eq!(uri_variants(&kept, None), vec!["file:///v/a-b_c~d!$&'()*+,;=:@[].mp4".to_string()]);
}

#[test]
fn metadata_chunks_override_and_parse() {
    let mut uri = None;
    let mut mtime = None;
    collect_thumbnail_metadata("Thumb::URI", "file:///a", &mut uri, &mut mtime);
    collect_thumbnail_metadata("Thumb::MTime", "42", &mut uri, &mut mtime);
    assert_eq!(uri.as_deref(), Some("file:///a"));
    assert_eq!(mtime, Some(42));
    collect_thumbnail_metadata("Thumb::MTime", "not a number", &mut uri, &mut mtime);
    assert_eq!(mtime, Some(42));
    collect_thumbnail_metadata("Thumb::MTime", "+7", &mut uri, &mut mtime);
    assert_eq!(mtime, Some(7));
    collect_thumbnail_metadata("Thumb::URI", "file:///b", &mut uri, &mut mtime);
    assert_eq!(uri.as_deref(), Some("file:///b"));
    collect_thumbnail_metadata("Thumb::Size", "x", &mut uri, &mut mtime);
    assert_eq!(uri.as_deref(), Some("file:///b"));
    assert_eq!(mtime, Some(7));
}

#[test]
fn chunks_written_with_a_thumbnail() {
    let chunks = thumbnail_chunks("file:///a.mp4", 1700000000);
    assert_eq!(
        chunks,
        vec![
            ("Thumb::URI".to_string(), "file:///a.mp4".to_string()),
            ("Thumb::MTime".to_string(), "1700000000".to_string()),
            ("Thumb::Software".to_string(), "Sapling".to_string()),
        ]
    );
}

#[test]
fn failure_marker_is_a_current_thumbnail_of_its_uri() {
    let png = failure_marker("file:///a.mp4", 99).unwrap();
    assert!(thumbnail_png_is_valid(&png, "file:///a.mp4", 99));
    assert!(!thumbnail_png_is_valid(&png, "file:///a.mp4", 100));
    assert!(!thumbnail_png_is_valid(&png, "file:///b.mp4", 99));
}

#[test]
fn stored_thumbnail_keeps_the_image_and_adds_metadata() {
    let plain = {
        let mut out = Vec::new();
        {
            let mut enc = png::Encoder::new(&mut out, 2, 1);
            enc.set_color(png::ColorType::Rgb);
            enc.set_depth(png::BitDepth::Eight);
            let mut w = enc.write_header().unwrap();
            w.write_image_data(&[1, 2, 3, 4, 5, 6]).unwrap();
        }
        out
    };
    assert!(!thumbnail_png_is_valid(&plain, "file:///v.mkv", 5));
    let stored = stored_thumbnail(&plain, "file:///v.mkv", 5).unwrap();
    assert!(thumbnail_png_is_valid(&stored, "file:///v.mkv", 5));
    let decoder = png::Decoder::new(std::io::Cursor::new(stored.as_slice()));
    let mut reader = decoder.read_info().unwrap();
    let mut buf = vec![0; reader.output_buffer_size().unwrap()];
    let frame = reader.next_frame(&mut buf).unwrap();
    assert_eq!((frame.width, frame.height), (2, 1));
    assert_eq!(&buf[..frame.buffer_size()], &[1, 2, 3, 4, 5, 6]);
}

#[test]
fn garbage_is_not_a_thumbnail() {
    assert!(!thumbnail_png_is_valid(b"not a png", "file:///a", 1));
    assert!(matches!(stored_thumbnail(b"not a png", "file:///a", 1), Err(None)));
}

fn indexed_png() -> Vec<u8> {
    let mut out = Vec::new();
    {
        let mut enc = png::Encoder::new(&mut out, 2, 1);
        enc.set_color(png::ColorType::Indexed);
        enc.set_depth(png::BitDepth::Eight);
        enc.set_palette(vec![0, 0, 0, 255, 255, 255]);
        let mut w = enc.write_header().unwrap();
        w.write_image_data(&[0, 1]).unwrap();
    }
    out
}

#[test]
fn an_image_that_cannot_be_encoded_again_keeps_what_was_written() {
    let partial = match stored_thumbnail(&indexed_png(), "file:///v.mkv", 5) {
        Err(Some(p)) => p,
        other => panic!("unexpected {:?}", other),
    };
    assert_eq!(&partial[..8], &[137, 80, 78, 71, 13, 10, 26, 10]);
    assert!(partial.windows(10).any(|w| w == b"Thumb::URI"));
    assert_eq!(&partial[partial.len() - 12..], &[0, 0, 0, 0, b'I', b'E', b'N', b'D', 0xAE, 0x42, 0x60, 0x82]);
    assert!(!thumbnail_png_is_valid(&partial, "file:///v.mkv", 5));
}

#[test]
fn a_marker_names_only_its_own_uri_and_time() {
    let png = failure_marker("file:///x%20y.mp4", 0).unwrap();
    assert!(thumbnail_png_is_valid(&png, "file:///x%20y.mp4", 0));
    assert!(!thumbnail_png_is_valid(&png, "file:///x y.mp4", 0));
    assert!(!thumbnail_png_is_valid(&png, "file:///x%20y.mp4", u64::MAX));
    let png = failure_marker("file:///z.mp4", u64::MAX).unwrap();
    assert!(thumbnail_png_is_valid(&png, "file:///z.mp4", u64::MAX));
}

#[test]
fn a_wide_sixteen_bit_image_is_stored_frame_for_frame() {
    let (w, h) = (5000u32, 3u32);
    let pixels: Vec<u8> = (0..(w * h * 2)).map(|i| (i % 251) as u8).collect();
    let plain = {
        let mut out = Vec::new();
        {
            let mut enc = png::Encoder::new(&mut out, w, h);
            enc.set_color(png::ColorType::Grayscale);
            enc.set_depth(png::BitDepth::Sixteen);
            let mut wr = enc.write_header().unwrap();
            wr.write_image_data(&pixels).unwrap();
        }
        out
    };
    let stored = stored_thumbnail(&plain, "file:///wide.mkv", 77).unwrap();
    assert!(thumbnail_png_is_valid(&stored, "file:///wide.mkv", 77));
    let mut reader = png::Decoder::new(std::io::Cursor::new(stored.as_slice())).read_info().unwrap();
    let mut buf = vec![0; reader.output_buffer_size().unwrap()];
    let frame = reader.next_frame(&mut buf).unwrap();
    assert_eq!((frame.width, frame.height), (w, h));
    assert_eq!(frame.color_type, png::ColorType::Grayscale);
    assert_eq!(frame.bit_depth, png::BitDepth::Sixteen);
    assert_eq!(&buf[..frame.buffer_size()], pixels.as_slice());
}
