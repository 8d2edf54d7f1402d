//! The freedesktop thumbnail cache: where a video's thumbnail is looked
//! for, how a cached thumbnail is recognized as current, and what is
//! written when one is made or cannot be made.
use vstd::prelude::*;
use vstd::utf8::encode_utf8;

use crate::links::hex_upper;
use crate::path::{child_model, keep_components, split_slash, MediaPath, PathModel};
use crate::text::{
    append_str, decimal, decimal_string, parse_u64, parse_u64_spec, push_char,
};

verus! {

// ---------------------------------------------------------------------
// Names of cached thumbnails
// ---------------------------------------------------------------------
/// What `md5::compute` returns for some bytes: their MD5 digest.
pub uninterp spec fn md5_of(data: Seq<u8>) -> Seq<u8>;

/// The MD5 digest of some bytes (`md5::compute`), sixteen bytes long.
#[verifier::external_body]
fn md5_digest(data: &[u8]) -> (r: Vec<u8>)
    ensures
        r@ == md5_of(data@),
        r@.len() == 16,
{
    md5::compute(data).0.to_vec()
}

/// The lowercase hexadecimal digit for a value below sixteen.
pub open spec fn hex_lower(v: int) -> char {
    if v < 10 {
        ((v + 48) as u8) as char
    } else {
        ((v + 87) as u8) as char
    }
}

/// Bytes written as two lowercase hexadecimal digits each (`{:x}` of a
/// digest).
pub open spec fn hex_lowercase(bytes: Seq<u8>) -> Seq<char>
    decreases bytes.len(),
{
    if bytes.len() == 0 {
        Seq::empty()
    } else {
        hex_lowercase(bytes.drop_last()) + seq![
            hex_lower((bytes.last() / 16) as int),
            hex_lower((bytes.last() % 16) as int),
        ]
    }
}

fn hex_digit(v: u8) -> (c: char)
    requires
        v < 16,
    ensures
        c == hex_lower(v as int),
{
    if v < 10 {
        (v + 48) as char
    } else {
        (v + 87) as char
    }
}

/// The file name of the thumbnail of a URI: the MD5 digest of the URI's
/// UTF-8 bytes in lowercase hexadecimal, then `.png`.
pub open spec fn thumbnail_file_name_spec(uri: Seq<char>) -> Seq<char> {
    hex_lowercase(md5_of(encode_utf8(uri))) + ".png"@
}

/// The file name of the thumbnail of a URI.
pub fn thumbnail_file_name(uri: &str) -> (r: String)
    ensures
        r@ == thumbnail_file_name_spec(uri@),
{
    let digest = md5_digest(uri.as_bytes());
    let mut r = String::new();
    let mut i: usize = 0;
    while i < digest.len()
        invariant
            i <= digest@.len(),
            r@ == hex_lowercase(digest@.take(i as int)),
        decreases digest@.len() - i,
    {
        let b = digest[i];
        push_char(&mut r, hex_digit(b / 16));
        push_char(&mut r, hex_digit(b % 16));
        proof {
            assert(digest@.take(i + 1).drop_last() == digest@.take(i as int));
            assert(digest@.take(i + 1).last() == b);
        }
        i = i + 1;
    }
    assert(digest@.take(digest@.len() as int) == digest@);
    append_str(&mut r, ".png");
    r
}

// ---------------------------------------------------------------------
// Where thumbnails live
// ---------------------------------------------------------------------
/// A path read from its text (`PathBuf::from`).
pub open spec fn path_from_text(s: Seq<char>) -> PathModel {
    PathModel {
        absolute: s.len() > 0 && s[0] == '/',
        segments: keep_components(split_slash(s)),
    }
}

/// The root of the thumbnail cache: `$XDG_CACHE_HOME/thumbnails` when that
/// variable is set, else `$HOME/.cache/thumbnails`, else the relative
/// `.cache/thumbnails`.
pub open spec fn thumbnail_base_dir_spec(xdg_cache_home: Option<Seq<char>>, home: Option<Seq<char>>) -> PathModel {
    match xdg_cache_home {
        Some(cache) => child_model(path_from_text(cache), "thumbnails"@),
        None => match home {
            Some(h) => child_model(child_model(path_from_text(h), ".cache"@), "thumbnails"@),
            None => child_model(
                child_model(PathModel { absolute: false, segments: Seq::empty() }, ".cache"@),
                "thumbnails"@,
            ),
        },
    }
}

/// The root of the thumbnail cache, given the values of `XDG_CACHE_HOME`
/// and `HOME` (`None` for a variable that is not set).
pub fn thumbnail_base_dir(xdg_cache_home: Option<&str>, home: Option<&str>) -> (r: MediaPath)
    ensures
        r@ == thumbnail_base_dir_spec(
            match xdg_cache_home {
                Some(s) => Some(s@),
                None => None,
            },
            match home {
                Some(s) => Some(s@),
                None => None,
            },
        ),
{
    match xdg_cache_home {
        Some(cache) => MediaPath::from_text(cache).child("thumbnails"),
        None => match home {
            Some(h) => MediaPath::from_text(h).child(".cache").child("thumbnails"),
            None => MediaPath::empty().child(".cache").child("thumbnails"),
        },
    }
}

/// The size directories of the cache, in the order they are searched.
pub open spec fn size_dirs() -> Seq<Seq<char>> {
    seq!["normal"@, "large"@, "x-large"@, "xx-large"@]
}

/// Where the thumbnail of a URI lives in a size directory of the cache.
pub open spec fn thumbnail_cache_path_spec(base: PathModel, uri: Seq<char>, size_dir: Seq<char>) -> PathModel {
    child_model(child_model(base, size_dir), thumbnail_file_name_spec(uri))
}

/// Where the marker of a failed thumbnail attempt for a URI lives.
pub open spec fn failed_thumbnail_path_spec(base: PathModel, uri: Seq<char>) -> PathModel {
    child_model(
        child_model(child_model(base, "fail"@), "gnome-thumbnail-factory"@),
        thumbnail_file_name_spec(uri),
    )
}

/// Where the thumbnail of a URI lives in a size directory of the cache.
pub fn thumbnail_cache_path(base: &MediaPath, uri: &str, size_dir: &str) -> (r: MediaPath)
    ensures
        r@ == thumbnail_cache_path_spec(base@, uri@, size_dir@),
{
    let name = thumbnail_file_name(uri);
    base.child(size_dir).child(name.as_str())
}

/// Where the marker of a failed thumbnail attempt for a URI lives.
pub fn failed_thumbnail_path(base: &MediaPath, uri: &str) -> (r: MediaPath)
    ensures
        r@ == failed_thumbnail_path_spec(base@, uri@),
{
    let name = thumbnail_file_name(uri);
    base.child("fail").child("gnome-thumbnail-factory").child(name.as_str())
}

/// The places where a current thumbnail of a video may be cached: for each
/// URI of the video in turn, each size directory in turn.
pub open spec fn thumbnail_candidates_spec(base: PathModel, uris: Seq<Seq<char>>) -> Seq<(PathModel, Seq<char>)> {
    Seq::new(
        uris.len() * 4,
        |k: int| (thumbnail_cache_path_spec(base, uris[k / 4], size_dirs()[k % 4]), uris[k / 4]),
    )
}

/// The cache places to probe for a video's thumbnail, each with the URI the
/// thumbnail must name.
pub fn thumbnail_candidates(base: &MediaPath, uris: &Vec<String>) -> (r: Vec<(MediaPath, String)>)
    requires
        uris@.len() * 4 <= usize::MAX,
    ensures
        r@.map_values(|c: (MediaPath, String)| (c.0@, c.1@)) == thumbnail_candidates_spec(
            base@,
            uris@.map_values(|u: String| u@),
        ),
{
    let ghost us = uris@.map_values(|u: String| u@);
    let ghost spec = thumbnail_candidates_spec(base@, us);
    let dirs = ["normal", "large", "x-large", "xx-large"];
    proof {
        reveal_strlit("normal");
        reveal_strlit("large");
        reveal_strlit("x-large");
        reveal_strlit("xx-large");
    }
    let mut r: Vec<(MediaPath, String)> = Vec::new();
    let mut i: usize = 0;
    while i < uris.len()
        invariant
            i <= uris@.len(),
            uris@.len() * 4 <= usize::MAX,
            us == uris@.map_values(|u: String| u@),
            spec == thumbnail_candidates_spec(base@, us),
            dirs@ == seq!["normal", "large", "x-large", "xx-large"],
            r@.len() == i * 4,
            forall|k: int| 0 <= k < r@.len() ==> (#[trigger] r@[k]).0@ == spec[k].0 && r@[k].1@ == spec[k].1,
        decreases uris@.len() - i,
    {
        let mut d: usize = 0;
        while d < 4
            invariant
                i < uris@.len(),
                uris@.len() * 4 <= usize::MAX,
                us == uris@.map_values(|u: String| u@),
                spec == thumbnail_candidates_spec(base@, us),
                dirs@ == seq!["normal", "large", "x-large", "xx-large"],
                d <= 4,
                r@.len() == i * 4 + d,
                forall|k: int| 0 <= k < r@.len() ==> (#[trigger] r@[k]).0@ == spec[k].0 && r@[k].1@ == spec[k].1,
            decreases 4 - d,
        {
            let path = thumbnail_cache_path(base, uris[i].as_str(), dirs[d]);
            proof {
                let k = i * 4 + d;
                assert(k / 4 == i as int) by (nonlinear_arith)
                    requires
                        k == i * 4 + d,
                        d < 4,
                ;
                assert(k % 4 == d as int) by (nonlinear_arith)
                    requires
                        k == i * 4 + d,
                        d < 4,
                ;
                assert(size_dirs()[d as int] == dirs@[d as int]@);
                assert(i * 4 + d < uris@.len() * 4) by (nonlinear_arith)
                    requires
                        i < uris@.len(),
                        d < 4,
                ;
            }
            r.push((path, uris[i].clone()));
            d = d + 1;
        }
        i = i + 1;
    }
    assert(r@.map_values(|c: (MediaPath, String)| (c.0@, c.1@)) =~= spec);
    r
}

// ---------------------------------------------------------------------
// URIs of a video
// ---------------------------------------------------------------------
/// Whether `url` percent-encodes a byte of a path segment of a `file:` URL
/// (its `SPECIAL_PATH_SEGMENT` set): control and non-ASCII bytes, space,
/// and the characters `"#%/<>?\` `` ` `` `{}`.
pub open spec fn escaped_in_file_url(b: u8) -> bool {
    ||| b < 0x20
    ||| b >= 0x7f
    ||| b == 0x20 || b == 0x22 || b == 0x23 || b == 0x25 || b == 0x2f
    ||| b == 0x3c || b == 0x3e || b == 0x3f || b == 0x5c || b == 0x60
    ||| b == 0x7b || b == 0x7d
}

/// The bytes of a path segment as a `file:` URL writes them: each escaped
/// byte as `%` and two uppercase hexadecimal digits, every other byte as
/// itself.
pub open spec fn file_url_segment(bytes: Seq<u8>) -> Seq<char>
    decreases bytes.len(),
{
    if bytes.len() == 0 {
        Seq::empty()
    } else {
        let b = bytes.last();
        file_url_segment(bytes.drop_last()) + if escaped_in_file_url(b) {
            seq!['%', hex_upper((b / 16) as int), hex_upper((b % 16) as int)]
        } else {
            seq![b as char]
        }
    }
}

/// The path of a `file:` URL: each component, as UTF-8 bytes, after a `/`.
pub open spec fn file_url_path(components: Seq<Seq<char>>) -> Seq<char>
    decreases components.len(),
{
    if components.len() == 0 {
        Seq::empty()
    } else {
        file_url_path(components.drop_last()) + seq!['/'] + file_url_segment(
            encode_utf8(components.last()),
        )
    }
}

/// The `file://` URI of an absolute path given by its text, on Unix: after
/// `file://`, each component that `Path::components` gives after the root,
/// after a `/`; or `/` alone when there is none.
pub open spec fn file_uri_spec(path: Seq<char>) -> Seq<char> {
    let components = keep_components(split_slash(path));
    "file://"@ + if components.len() == 0 {
        seq!['/']
    } else {
        file_url_path(components)
    }
}

/// The `file://` URI of a path given by its text (`Url::from_file_path`,
/// then `to_string`), which exists exactly when the path is absolute. On
/// Unix `url` writes `file://`, then for each component of the path after
/// its root a `/` and the component's bytes percent-encoded with
/// `SPECIAL_PATH_SEGMENT`, or a single `/` when there is no such component.
#[verifier::external_body]
fn file_uri(path: &str) -> (r: Option<String>)
    ensures
        r is Some <==> (path@.len() > 0 && path@[0] == '/'),
        r matches Some(u) ==> u@ == file_uri_spec(path@),
{
    url::Url::from_file_path(path).ok().map(|u| u.to_string())
}

/// The URI of a path, when its text is absolute.
pub open spec fn path_uri(p: PathModel) -> Option<Seq<char>> {
    let t = crate::path::path_text(p);
    if t.len() > 0 && t[0] == '/' {
        Some(file_uri_spec(t))
    } else {
        None
    }
}

/// The URIs under which a video's thumbnail may be cached: that of its path,
/// then that of its canonical path when this differs.
pub open spec fn uri_variants_spec(path: PathModel, canonical: Option<PathModel>) -> Seq<Seq<char>> {
    let first: Seq<Seq<char>> = match path_uri(path) {
        Some(u) => seq![u],
        None => Seq::empty(),
    };
    match canonical {
        Some(c) => match path_uri(c) {
            Some(u) => if first.contains(u) {
                first
            } else {
                first.push(u)
            },
            None => first,
        },
        None => first,
    }
}

fn path_uri_exec(p: &MediaPath) -> (r: Option<String>)
    ensures
        match path_uri(p@) {
            Some(u) => r matches Some(s) && s@ == u,
            None => r is None,
        },
{
    let text = p.to_text();
    file_uri(text.as_str())
}

/// The URIs of a video, given its path and, when it could be resolved, its
/// canonical path.
pub fn uri_variants(path: &MediaPath, canonical: Option<&MediaPath>) -> (r: Vec<String>)
    ensures
        r@.map_values(|u: String| u@) == uri_variants_spec(
            path@,
            match canonical {
                Some(c) => Some(c@),
                None => None,
            },
        ),
{
    let mut r: Vec<String> = Vec::new();
    let first = path_uri_exec(path);
    let mut first_text: Option<String> = None;
    match first {
        Some(u) => {
            r.push(u.clone());
            first_text = Some(u);
        },
        None => {},
    }
    let ghost first_model: Seq<Seq<char>> = match path_uri(path@) {
        Some(u) => seq![u],
        None => Seq::empty(),
    };
    assert(r@.map_values(|u: String| u@) =~= first_model);
    assert(match path_uri(path@) {
        Some(x) => first_text matches Some(f) && f@ == x,
        None => first_text is None,
    });
    match canonical {
        Some(c) => {
            match path_uri_exec(c) {
                Some(u) => {
                    let dup = match &first_text {
                        Some(f) => crate::text::str_equals(f.as_str(), u.as_str()),
                        None => false,
                    };
                    proof {
                        if first_model.contains(u@) {
                            let k = choose|k: int| 0 <= k < first_model.len() && first_model[k] == u@;
                            assert(k == 0);
                            assert(first_model[0] == u@);
                            assert(dup);
                        }
                        if dup {
                            assert(first_model.contains(u@)) by {
                                assert(first_model[0] == u@);
                            }
                        }
                    }
                    if !dup {
                        r.push(u);
                        assert(r@.map_values(|u: String| u@) =~= first_model.push(u@));
                    }
                },
                None => {},
            }
        },
        None => {},
    }
    r
}

// ---------------------------------------------------------------------
// Thumbnail metadata
// ---------------------------------------------------------------------
/// What the PNG decoder reads of a file's text chunks (`png::Decoder`,
/// `read_info`): each chunk's keyword and, when it can be decoded, its
/// text, the `tEXt` chunks first, then `zTXt`, then `iTXt`; nothing when
/// the bytes are not a PNG image.
pub uninterp spec fn png_text_chunks_of(png: Seq<u8>) -> Option<Seq<(Seq<char>, Option<Seq<char>>)>>;

/// Reads the text chunks of a PNG image with the `png` crate.
#[verifier::external_body]
fn png_text_chunks(png: &[u8]) -> (r: Option<Vec<(String, Option<String>)>>)
    ensures
        match png_text_chunks_of(png@) {
            Some(cs) => r matches Some(v) && v@.map_values(
                |c: (String, Option<String>)|
                    (
                        c.0@,
                        match c.1 {
                            Some(t) => Some(t@),
                            None => None,
                        },
                    ),
            ) == cs,
            None => r is None,
        },
{
    let reader = png::Decoder::new(std::io::Cursor::new(png)).read_info().ok()?;
    let info = reader.info();
    let mut chunks = Vec::new();
    for c in &info.uncompressed_latin1_text {
        chunks.push((c.keyword.clone(), Some(c.text.clone())));
    }
    for c in &info.compressed_latin1_text {
        chunks.push((c.keyword.clone(), c.get_text().ok()));
    }
    for c in &info.utf8_text {
        chunks.push((c.keyword.clone(), c.get_text().ok()));
    }
    Some(chunks)
}

/// The keyword of the chunk that names the thumbnailed URI.
pub open spec fn uri_keyword() -> Seq<char> {
    "Thumb::URI"@
}

/// The keyword of the chunk that holds the thumbnailed file's modification
/// time.
pub open spec fn mtime_keyword() -> Seq<char> {
    "Thumb::MTime"@
}

/// Records what one text chunk says: a `Thumb::URI` chunk gives the URI, a
/// `Thumb::MTime` chunk whose text is a number gives the modification time;
/// later chunks override earlier ones.
pub fn collect_thumbnail_metadata(
    key: &str,
    value: &str,
    found_uri: &mut Option<String>,
    found_mtime: &mut Option<u64>,
)
    ensures
        key@ == uri_keyword() ==> (*final(found_uri) matches Some(u) && u@ == value@),
        key@ != uri_keyword() ==> *final(found_uri) == *old(found_uri),
        key@ == mtime_keyword() && parse_u64_spec(value@) is Some ==> *final(found_mtime)
            == parse_u64_spec(value@),
        !(key@ == mtime_keyword() && parse_u64_spec(value@) is Some) ==> *final(found_mtime)
            == *old(found_mtime),
{
    if crate::text::str_equals(key, "Thumb::URI") {
        *found_uri = Some(String::from_str(value));
    }
    if crate::text::str_equals(key, "Thumb::MTime") {
        match parse_u64(value) {
            Some(stored) => {
                *found_mtime = Some(stored);
            },
            None => {},
        }
    }
}

/// The URI named by the last `Thumb::URI` chunk whose text could be read.
pub open spec fn last_uri(chunks: Seq<(Seq<char>, Option<Seq<char>>)>) -> Option<Seq<char>>
    decreases chunks.len(),
{
    if chunks.len() == 0 {
        None
    } else {
        let c = chunks.last();
        if c.0 == uri_keyword() && c.1 is Some {
            c.1
        } else {
            last_uri(chunks.drop_last())
        }
    }
}

/// The time of the last `Thumb::MTime` chunk whose text is a number.
pub open spec fn last_mtime(chunks: Seq<(Seq<char>, Option<Seq<char>>)>) -> Option<u64>
    decreases chunks.len(),
{
    if chunks.len() == 0 {
        None
    } else {
        let c = chunks.last();
        if c.0 == mtime_keyword() && c.1 is Some && parse_u64_spec(c.1->0) is Some {
            parse_u64_spec(c.1->0)
        } else {
            last_mtime(chunks.drop_last())
        }
    }
}

/// Whether text chunks describe a current thumbnail of `uri` for a file
/// modified at `mtime`: they name that URI, and they either give that time
/// or no time at all.
pub open spec fn metadata_is_current(
    chunks: Seq<(Seq<char>, Option<Seq<char>>)>,
    uri: Seq<char>,
    mtime: u64,
) -> bool {
    &&& last_uri(chunks) == Some(uri)
    &&& match last_mtime(chunks) {
        Some(t) => t == mtime,
        None => true,
    }
}

/// Whether a PNG file is a current thumbnail of `uri` for a file modified at
/// `mtime`.
pub open spec fn thumbnail_png_is_valid_spec(png: Seq<u8>, uri: Seq<char>, mtime: u64) -> bool {
    match png_text_chunks_of(png) {
        Some(chunks) => metadata_is_current(chunks, uri, mtime),
        None => false,
    }
}

/// Whether the bytes of a PNG file are a current thumbnail of
/// `expected_uri` for a file modified at `expected_mtime`.
pub fn thumbnail_png_is_valid(png: &[u8], expected_uri: &str, expected_mtime: u64) -> (r: bool)
    ensures
        r == thumbnail_png_is_valid_spec(png@, expected_uri@, expected_mtime),
{
    let chunks = match png_text_chunks(png) {
        Some(c) => c,
        None => return false,
    };
    let ghost cs = chunks@.map_values(
        |c: (String, Option<String>)|
            (
                c.0@,
                match c.1 {
                    Some(t) => Some(t@),
                    None => None,
                },
            ),
    );
    let mut found_uri: Option<String> = None;
    let mut found_mtime: Option<u64> = None;
    let mut i: usize = 0;
    while i < chunks.len()
        invariant
            i <= chunks@.len() == cs.len(),
            cs == chunks@.map_values(
                |c: (String, Option<String>)|
                    (
                        c.0@,
                        match c.1 {
                            Some(t) => Some(t@),
                            None => None,
                        },
                    ),
            ),
            match last_uri(cs.take(i as int)) {
                Some(u) => found_uri matches Some(f) && f@ == u,
                None => found_uri is None,
            },
            found_mtime == last_mtime(cs.take(i as int)),
        decreases chunks@.len() - i,
    {
        proof {
            assert(cs.take(i + 1).drop_last() == cs.take(i as int));
            assert(cs.take(i + 1).last() == cs[i as int]);
        }
        match &chunks[i].1 {
            Some(text) => {
                collect_thumbnail_metadata(
                    chunks[i].0.as_str(),
                    text.as_str(),
                    &mut found_uri,
                    &mut found_mtime,
                );
            },
            None => {},
        }
        i = i + 1;
    }
    assert(cs.take(cs.len() as int) == cs);
    let uri_ok = match &found_uri {
        Some(u) => crate::text::str_equals(u.as_str(), expected_uri),
        None => false,
    };
    let mtime_ok = match found_mtime {
        Some(t) => t == expected_mtime,
        None => true,
    };
    uri_ok && mtime_ok
}

/// Text chunks as the decoder reads them back, every text readable.
pub open spec fn chunks_as_read(chunks: Seq<(Seq<char>, Seq<char>)>) -> Seq<(Seq<char>, Option<Seq<char>>)> {
    chunks.map_values(|c: (Seq<char>, Seq<char>)| (c.0, Some(c.1)))
}

/// The chunks written into a thumbnail of `uri` for a file modified at
/// `mtime` name that URI and that time.
proof fn lemma_written_metadata(uri: Seq<char>, mtime: u64)
    ensures
        last_uri(chunks_as_read(thumbnail_chunks_spec(uri, mtime))) == Some(uri),
        last_mtime(chunks_as_read(thumbnail_chunks_spec(uri, mtime))) == Some(mtime),
{
    let cs = chunks_as_read(thumbnail_chunks_spec(uri, mtime));
    reveal_strlit("Thumb::URI");
    reveal_strlit("Thumb::MTime");
    reveal_strlit("Thumb::Software");
    assert("Thumb::Software"@.len() != uri_keyword().len());
    assert("Thumb::Software"@.len() != mtime_keyword().len());
    assert(mtime_keyword().len() != uri_keyword().len());
    crate::text::lemma_parse_decimal(mtime);
    let c2 = cs.drop_last();
    let c1 = c2.drop_last();
    assert(cs.last() == ("Thumb::Software"@, Some("Sapling"@)));
    assert(c2.last() == (mtime_keyword(), Some(decimal(mtime as nat))));
    assert(c1.last() == (uri_keyword(), Some(uri)));
    assert(last_uri(c2) == last_uri(c1));
    assert(last_mtime(cs) == last_mtime(c2));
}

/// The chunks written into a thumbnail of `uri` for a file modified at
/// `mtime` are recognized, once read back, as those of a current thumbnail
/// of that URI and time, and of no other URI or time.
pub proof fn lemma_written_metadata_is_current(uri: Seq<char>, mtime: u64)
    ensures
        forall|u: Seq<char>, t: u64|
            #[trigger] metadata_is_current(chunks_as_read(thumbnail_chunks_spec(uri, mtime)), u, t)
                <==> (u == uri && t == mtime),
{
    lemma_written_metadata(uri, mtime);
}

// ---------------------------------------------------------------------
// Writing thumbnails
// ---------------------------------------------------------------------
/// What the PNG decoder gives for an image (`png::Decoder`, `read_info`,
/// `next_frame`, no transformation): the width, height, color type code,
/// bit depth and bytes of its first frame; nothing when the bytes cannot be
/// decoded.
pub uninterp spec fn decoded_png_of(png: Seq<u8>) -> Option<(u32, u32, u8, u8, Seq<u8>)>;

/// What `png` writes for an image of the given width, height, color type
/// code, bit depth and pixel bytes, with the given text chunks: the encoded
/// image, or, when encoding fails, the bytes written before it failed.
pub uninterp spec fn encoded_png_of(
    width: u32,
    height: u32,
    color: u8,
    depth: u8,
    pixels: Seq<u8>,
    chunks: Seq<(Seq<char>, Seq<char>)>,
) -> Result<Seq<u8>, Seq<u8>>;

/// The codes of PNG color types: gray, RGB, indexed, gray with alpha, RGBA.
pub open spec fn png_color_code(c: u8) -> bool {
    c == 0 || c == 2 || c == 3 || c == 4 || c == 6
}

/// The codes of PNG bit depths.
pub open spec fn png_depth_code(d: u8) -> bool {
    d == 1 || d == 2 || d == 4 || d == 8 || d == 16
}

/// The view of text chunks.
pub open spec fn chunks_view(chunks: Seq<(String, String)>) -> Seq<(Seq<char>, Seq<char>)> {
    chunks.map_values(|c: (String, String)| (c.0@, c.1@))
}

/// The view of a decoded image.
pub open spec fn decoded_view(r: Option<(u32, u32, u8, u8, Vec<u8>)>) -> Option<(u32, u32, u8, u8, Seq<u8>)> {
    match r {
        Some(d) => Some((d.0, d.1, d.2, d.3, d.4@)),
        None => None,
    }
}

/// The view of what an encode wrote.
pub open spec fn encoded_view(r: Result<Vec<u8>, Vec<u8>>) -> Result<Seq<u8>, Seq<u8>> {
    match r {
        Ok(v) => Ok(v@),
        Err(p) => Err(p@),
    }
}

/// The number of bytes of text chunk data: keyword, separator and text of
/// each chunk, one byte for each character.
pub open spec fn text_chunk_data_len(chunks: Seq<(Seq<char>, Seq<char>)>) -> int
    decreases chunks.len(),
{
    if chunks.len() == 0 {
        0
    } else {
        text_chunk_data_len(chunks.drop_last()) + chunks.last().0.len() + 1 + chunks.last().1.len()
    }
}

/// Whether no keyword of the text chunks holds a NUL character, which the
/// decoder would take for the end of the keyword.
pub open spec fn keywords_without_nul(chunks: Seq<(Seq<char>, Seq<char>)>) -> bool {
    forall|i: int, j: int|
        0 <= i < chunks.len() && 0 <= j < chunks[i].0.len() ==> #[trigger] chunks[i].0[j] != '\0'
}

/// The number of samples in a pixel of a PNG color type code.
pub open spec fn png_samples(color: u8) -> int {
    if color == 2 {
        3
    } else if color == 4 {
        2
    } else if color == 6 {
        4
    } else {
        1
    }
}

/// The number of bytes of a row of pixels of this width, color type and bit
/// depth, as the decoder gives it and the encoder takes it.
pub open spec fn png_row_bytes(width: int, color: u8, depth: u8) -> int {
    (width * png_samples(color) * depth + 7) / 8
}

/// The memory budget of png's decoder (`Limits::default`): 64 MiB.
pub open spec fn png_decoder_memory_limit() -> int {
    0x4000000
}

/// Whether the decoder's memory budget covers reading back an image with
/// rows of `row_bytes` bytes and these text chunks: the decoder takes a row
/// buffer from its budget, and for each text chunk its data and the growth
/// of its chunk buffer, at most three times the chunk data in all.
pub open spec fn fits_decoder_budget(row_bytes: int, chunks: Seq<(Seq<char>, Seq<char>)>) -> bool {
    row_bytes + 3 * text_chunk_data_len(chunks) <= png_decoder_memory_limit()
}

/// The big-endian number in four bytes starting at `i`.
pub open spec fn be_u32_at(b: Seq<u8>, i: int) -> int {
    b[i] * 0x1000000 + b[i + 1] * 0x10000 + b[i + 2] * 0x100 + b[i + 3]
}

/// The number of bytes of a row of pixels that the header of PNG bytes
/// describes: the width at byte 16, the bit depth at 24, the color type at
/// 25.
pub open spec fn png_header_row_bytes(png: Seq<u8>) -> int {
    png_row_bytes(be_u32_at(png, 16), png[25], png[24])
}

/// Decodes the first frame of a PNG image, with no transformation
/// (`png::Decoder`): its size, color type and bit depth as their codes, and
/// its bytes.
#[verifier::external_body]
fn decoded_png(png: &[u8]) -> (r: Option<(u32, u32, u8, u8, Vec<u8>)>)
    ensures
        decoded_view(r) == decoded_png_of(png@),
        r matches Some(d) ==> png_color_code(d.2) && png_depth_code(d.3) && d.4@.len()
            == png_row_bytes(d.0 as int, d.2, d.3) * d.1,
{
    let mut reader = png::Decoder::new(std::io::Cursor::new(png)).read_info().ok()?;
    let mut buf = vec![0; reader.output_buffer_size()?];
    let frame = reader.next_frame(&mut buf).ok()?;
    buf.truncate(frame.buffer_size());
    Some((frame.width, frame.height, frame.color_type as u8, frame.bit_depth as u8, buf))
}

/// Encodes an image with text chunks (`png::Encoder`). When encoding fails
/// the error holds what the encoder wrote before it failed. An encoded image
/// starts with the signature and the header: width and height in big-endian
/// order at bytes 16 and 20, bit depth and color type at 24 and 25. The
/// encoder writes the text chunks, in order, before the image data, with no
/// interlacing and no other chunk. The decoder reads such an image back as
/// it was written: the same size, color type, bit depth and pixel bytes,
/// and the same text chunks, when the pixel bytes fill the rows exactly, no
/// keyword holds a NUL, and its memory budget covers the row buffer and the
/// text chunks. (`add_text_chunk` never fails.)
#[verifier::external_body]
fn encoded_png(
    width: u32,
    height: u32,
    color: u8,
    depth: u8,
    pixels: &[u8],
    chunks: &Vec<(String, String)>,
) -> (r: Result<Vec<u8>, Vec<u8>>)
    requires
        png_color_code(color),
        png_depth_code(depth),
    ensures
        encoded_view(r) == encoded_png_of(width, height, color, depth, pixels@, chunks_view(chunks@)),
        r matches Ok(v) ==> v@.len() >= 26 && be_u32_at(v@, 16) == width && be_u32_at(v@, 20)
            == height && v@[24] == depth && v@[25] == color,
        r matches Ok(v) ==> (pixels@.len() == png_row_bytes(width as int, color, depth) * height
            && keywords_without_nul(chunks_view(chunks@)) && fits_decoder_budget(
            png_row_bytes(width as int, color, depth),
            chunks_view(chunks@),
        ) ==> png_text_chunks_of(v@) == Some(chunks_as_read(chunks_view(chunks@)))
            && decoded_png_of(v@) == Some((width, height, color, depth, pixels@))),
{
    let mut out = Vec::new();
    let mut enc = png::Encoder::new(&mut out, width, height);
    enc.set_color(png::ColorType::from_u8(color).unwrap());
    enc.set_depth(png::BitDepth::from_u8(depth).unwrap());
    for (k, t) in chunks {
        let _ = enc.add_text_chunk(k.clone(), t.clone());
    }
    let written = match enc.write_header() {
        Ok(mut w) => w.write_image_data(pixels),
        Err(e) => Err(e),
    };
    match written { Ok(()) => Ok(out), Err(_) => Err(out) }
}

/// The text chunks written into a thumbnail of `uri` for a file modified at
/// `mtime`: the URI, the time in decimal, and the name of the software.
pub open spec fn thumbnail_chunks_spec(uri: Seq<char>, mtime: u64) -> Seq<(Seq<char>, Seq<char>)> {
    seq![
        (uri_keyword(), uri),
        (mtime_keyword(), decimal(mtime as nat)),
        ("Thumb::Software"@, "Sapling"@),
    ]
}

/// The keywords of a thumbnail's chunks hold no NUL, and its chunk data is
/// the URI, the decimal time (at most twenty digits) and 47 more bytes.
pub proof fn lemma_thumbnail_chunks_size(uri: Seq<char>, mtime: u64)
    ensures
        keywords_without_nul(thumbnail_chunks_spec(uri, mtime)),
        text_chunk_data_len(thumbnail_chunks_spec(uri, mtime)) == 47 + uri.len() + decimal(
            mtime as nat,
        ).len(),
        decimal(mtime as nat).len() <= 20,
{
    let cs = thumbnail_chunks_spec(uri, mtime);
    reveal_strlit("Thumb::URI");
    reveal_strlit("Thumb::MTime");
    reveal_strlit("Thumb::Software");
    reveal_strlit("Sapling");
    crate::text::lemma_decimal_len_u64(mtime);
    assert forall|i: int, j: int| 0 <= i < cs.len() && 0 <= j < cs[i].0.len() implies #[trigger] cs[i].0[j]
        != '\0' by {
        if i == 0 {
            assert(cs[i].0 == "Thumb::URI"@);
        } else if i == 1 {
            assert(cs[i].0 == "Thumb::MTime"@);
        } else {
            assert(cs[i].0 == "Thumb::Software"@);
        }
    }
    let c2 = cs.drop_last();
    let c1 = c2.drop_last();
    assert(c1.len() == 1 && c1.last() == cs[0]);
    assert(text_chunk_data_len(c1.drop_last()) == 0);
    assert(uri_keyword().len() == 10);
    assert(text_chunk_data_len(c1) == 11 + uri.len());
    assert(c2.last() == cs[1]);
    assert(mtime_keyword().len() == 12);
    assert(text_chunk_data_len(c2) == 24 + uri.len() + decimal(mtime as nat).len());
    assert(cs.last() == cs[2]);
}

/// Whether PNG bytes are recognized as a current thumbnail of `uri` for a
/// file modified at `mtime`, and of no other URI or time.
pub open spec fn recognized_exactly(png: Seq<u8>, uri: Seq<char>, mtime: u64) -> bool {
    forall|u: Seq<char>, t: u64| #[trigger] thumbnail_png_is_valid_spec(png, u, t) <==> (u == uri && t == mtime)
}

/// The text chunks written into a thumbnail of `uri` for a file modified at
/// `mtime`.
pub fn thumbnail_chunks(uri: &str, mtime: u64) -> (r: Vec<(String, String)>)
    ensures
        chunks_view(r@) == thumbnail_chunks_spec(uri@, mtime),
{
    let mut r: Vec<(String, String)> = Vec::new();
    r.push((String::from_str("Thumb::URI"), String::from_str(uri)));
    r.push((String::from_str("Thumb::MTime"), decimal_string(mtime)));
    r.push((String::from_str("Thumb::Software"), String::from_str("Sapling")));
    assert(chunks_view(r@) =~= thumbnail_chunks_spec(uri@, mtime));
    r
}

/// A generated thumbnail as it is stored: the image made by a thumbnailer,
/// decoded and encoded again with the chunks that name the URI and the
/// modification time. An error holds what was written before the encoding
/// failed, or nothing when the image could not be decoded.
pub open spec fn stored_thumbnail_spec(png: Seq<u8>, uri: Seq<char>, mtime: u64) -> Result<Seq<u8>, Option<Seq<u8>>> {
    match decoded_png_of(png) {
        Some(d) => match encoded_png_of(d.0, d.1, d.2, d.3, d.4, thumbnail_chunks_spec(uri, mtime)) {
            Ok(v) => Ok(v),
            Err(p) => Err(Some(p)),
        },
        None => Err(None),
    }
}

/// The view of a stored thumbnail.
pub open spec fn stored_view(r: Result<Vec<u8>, Option<Vec<u8>>>) -> Result<Seq<u8>, Option<Seq<u8>>> {
    match r {
        Ok(v) => Ok(v@),
        Err(Some(p)) => Err(Some(p@)),
        Err(None) => Err(None),
    }
}

/// A generated thumbnail as it is stored. Read back, a stored thumbnail
/// decodes to the same frame as the image it was made from (size, color
/// type, bit depth and pixels), and is a current thumbnail of its URI and
/// time and of no other, whenever the decoder's memory budget covers its
/// row buffer and its text chunks.
pub fn stored_thumbnail(png: &[u8], uri: &str, mtime: u64) -> (r: Result<Vec<u8>, Option<Vec<u8>>>)
    ensures
        stored_view(r) == stored_thumbnail_spec(png@, uri@, mtime),
        r matches Ok(v) ==> (fits_decoder_budget(
            png_header_row_bytes(v@),
            thumbnail_chunks_spec(uri@, mtime),
        ) ==> decoded_png_of(v@) == decoded_png_of(png@) && recognized_exactly(v@, uri@, mtime)),
{
    let decoded = match decoded_png(png) {
        Some(d) => d,
        None => return Err(None),
    };
    let chunks = thumbnail_chunks(uri, mtime);
    let encoded = encoded_png(
        decoded.0,
        decoded.1,
        decoded.2,
        decoded.3,
        decoded.4.as_slice(),
        &chunks,
    );
    proof {
        lemma_thumbnail_chunks_size(uri@, mtime);
        lemma_written_metadata_is_current(uri@, mtime);
    }
    match encoded {
        Ok(v) => Ok(v),
        Err(p) => Err(Some(p)),
    }
}

/// The marker of a failed attempt: a single transparent pixel, 8-bit RGBA,
/// with the chunks that name the URI and the modification time; when the
/// encoding fails, what was written before it failed.
pub open spec fn failure_marker_spec(uri: Seq<char>, mtime: u64) -> Result<Seq<u8>, Seq<u8>> {
    encoded_png_of(1, 1, 6, 8, seq![0u8, 0u8, 0u8, 0u8], thumbnail_chunks_spec(uri, mtime))
}

/// The marker of a failed thumbnail attempt. Read back, a marker is its
/// single transparent pixel and a current thumbnail of its URI and time, and
/// of no other, whenever the decoder's memory budget covers its text chunks
/// (a URI of up to about 21 MiB).
pub fn failure_marker(uri: &str, mtime: u64) -> (r: Result<Vec<u8>, Vec<u8>>)
    ensures
        encoded_view(r) == failure_marker_spec(uri@, mtime),
        r matches Ok(v) ==> (fits_decoder_budget(4, thumbnail_chunks_spec(uri@, mtime))
            ==> decoded_png_of(v@) == Some((1u32, 1u32, 6u8, 8u8, seq![0u8, 0u8, 0u8, 0u8]))
            && recognized_exactly(v@, uri@, mtime)),
{
    let chunks = thumbnail_chunks(uri, mtime);
    let pixel: Vec<u8> = vec![0u8, 0u8, 0u8, 0u8];
    assert(pixel@ =~= seq![0u8, 0u8, 0u8, 0u8]);
    let r = encoded_png(1, 1, 6, 8, pixel.as_slice(), &chunks);
    proof {
        lemma_thumbnail_chunks_size(uri@, mtime);
        lemma_written_metadata_is_current(uri@, mtime);
        assert(png_row_bytes(1, 6, 8) == 4);
    }
    r
}

} // verus!
