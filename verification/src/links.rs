//! Links of the web interface: percent-encoded URL paths and breadcrumbs.
use vstd::prelude::*;
use vstd::utf8::encode_utf8;

use crate::path::{join_segments, lemma_split_join, split_slash, MediaPath, PathModel};
use crate::text::{append_str, concat_str};

verus! {

/// An ASCII letter or digit, the bytes that `NON_ALPHANUMERIC` leaves as
/// they are.
pub open spec fn is_ascii_alphanumeric_byte(b: u8) -> bool {
    (48 <= b <= 57) || (65 <= b <= 90) || (97 <= b <= 122)
}

/// The uppercase hexadecimal digit for a value below sixteen.
pub open spec fn hex_upper(v: int) -> char {
    if v < 10 {
        ((v + 48) as u8) as char
    } else {
        ((v + 55) as u8) as char
    }
}

/// The percent-encoding of bytes with `NON_ALPHANUMERIC`: ASCII letters and
/// digits stay, every other byte becomes `%` and two uppercase hexadecimal
/// digits.
pub open spec fn percent_encoded(bytes: Seq<u8>) -> Seq<char>
    decreases bytes.len(),
{
    if bytes.len() == 0 {
        Seq::empty()
    } else {
        let b = bytes.last();
        percent_encoded(bytes.drop_last()) + if is_ascii_alphanumeric_byte(b) {
            seq![b as char]
        } else {
            seq!['%', hex_upper((b / 16) as int), hex_upper((b % 16) as int)]
        }
    }
}

/// `percent_encoding::utf8_percent_encode(s, NON_ALPHANUMERIC).to_string()`:
/// the UTF-8 bytes of `s`, ASCII letters and digits kept and every other
/// byte written `%XX` in uppercase hexadecimal.
#[verifier::external_body]
fn percent_encode_segment(s: &str) -> (r: String)
    ensures
        r@ == percent_encoded(encode_utf8(s@)),
{
    percent_encoding::utf8_percent_encode(s, percent_encoding::NON_ALPHANUMERIC).to_string()
}

/// The components that `Path::iter` yields: the root `/` of an absolute
/// path, then its segments.
pub open spec fn path_components(p: PathModel) -> Seq<Seq<char>> {
    if p.absolute {
        seq![seq!['/']] + p.segments
    } else {
        p.segments
    }
}

/// Each component percent-encoded.
pub open spec fn encoded_components(cs: Seq<Seq<char>>) -> Seq<Seq<char>> {
    cs.map_values(|c: Seq<char>| percent_encoded(encode_utf8(c)))
}

/// The URL form of a path: its components percent-encoded and joined by `/`.
pub open spec fn url_path(p: PathModel) -> Seq<char> {
    join_segments(encoded_components(path_components(p)))
}

fn components_of(path: &MediaPath) -> (r: Vec<String>)
    ensures
        r@.map_values(|s: String| s@) == path_components(path@),
{
    let mut r: Vec<String> = Vec::new();
    if path.absolute {
        let root = String::from_str("/");
        proof {
            reveal_strlit("/");
            assert(root@ =~= seq!['/']);
        }
        r.push(root);
        assert(r@.map_values(|s: String| s@) =~= seq![seq!['/']]);
    } else {
        assert(r@.map_values(|s: String| s@) =~= Seq::<Seq<char>>::empty());
    }
    let ghost start = r@;
    let mut i: usize = 0;
    while i < path.segments.len()
        invariant
            i <= path.segments@.len(),
            r@ == start + path.segments@.take(i as int),
            start.map_values(|s: String| s@) == (if path.absolute {
                seq![seq!['/']]
            } else {
                Seq::<Seq<char>>::empty()
            }),
        decreases path.segments@.len() - i,
    {
        r.push(path.segments[i].clone());
        assert(path.segments@.take(i + 1) == path.segments@.take(i as int).push(path.segments@[i as int]));
        i = i + 1;
    }
    assert(path.segments@.take(path.segments@.len() as int) == path.segments@);
    assert(r@.map_values(|s: String| s@) =~= path_components(path@));
    r
}

/// Percent-encodes each component of a path and joins them with `/`.
pub fn encode_url_path(path: &MediaPath) -> (r: String)
    ensures
        r@ == url_path(path@),
{
    let comps = components_of(path);
    let ghost cs = comps@.map_values(|s: String| s@);
    let ghost enc = encoded_components(cs);
    let mut r = String::new();
    let mut i: usize = 0;
    while i < comps.len()
        invariant
            i <= comps@.len(),
            cs == comps@.map_values(|s: String| s@),
            enc == encoded_components(cs),
            r@ == join_segments(enc.take(i as int)),
        decreases comps@.len() - i,
    {
        proof {
            assert(enc.take(i + 1).drop_last() == enc.take(i as int));
            assert(enc.take(i + 1).last() == enc[i as int]);
        }
        if i > 0 {
            append_str(&mut r, "/");
            proof {
                reveal_strlit("/");
            }
        } else {
            assert(enc.take(1)[0] == enc[0]);
            assert(r@ =~= Seq::<char>::empty());
        }
        let e = percent_encode_segment(comps[i].as_str());
        append_str(&mut r, e.as_str());
        i = i + 1;
    }
    assert(enc.take(comps@.len() as int) == enc);
    r
}

/// The link of the browsing page of a directory: `/browse/` and its URL path.
pub open spec fn browse_href(p: PathModel) -> Seq<char> {
    "/browse/"@ + url_path(p)
}

/// The breadcrumb trail of a directory: `Home` first, then one crumb per
/// component, each naming the component and linking to the directory made
/// of the components up to it.
pub open spec fn breadcrumbs_spec(p: PathModel) -> Seq<(Seq<char>, Seq<char>)> {
    let cs = path_components(p);
    seq![("Home"@, "/browse/"@)] + Seq::new(
        cs.len(),
        |k: int| (cs[k], "/browse/"@ + join_segments(encoded_components(cs.take(k + 1)))),
    )
}

/// The breadcrumb trail of a directory.
pub fn format_breadcrumbs(path: &MediaPath) -> (r: Vec<(String, String)>)
    ensures
        r@.map_values(|c: (String, String)| (c.0@, c.1@)) == breadcrumbs_spec(path@),
{
    let comps = components_of(path);
    let ghost cs = comps@.map_values(|s: String| s@);
    let ghost enc = encoded_components(cs);
    let mut crumbs: Vec<(String, String)> = Vec::new();
    crumbs.push((String::from_str("Home"), String::from_str("/browse/")));
    let mut running = String::new();
    let mut i: usize = 0;
    while i < comps.len()
        invariant
            i <= comps@.len(),
            cs == comps@.map_values(|s: String| s@),
            cs == path_components(path@),
            enc == encoded_components(cs),
            running@ == join_segments(enc.take(i as int)),
            crumbs@.len() == i + 1,
            crumbs@.map_values(|c: (String, String)| (c.0@, c.1@)) == breadcrumbs_spec(path@).take(
                i + 1,
            ),
        decreases comps@.len() - i,
    {
        proof {
            assert(enc.take(i + 1).drop_last() == enc.take(i as int));
            assert(enc.take(i + 1).last() == enc[i as int]);
            assert(encoded_components(cs.take(i + 1)) =~= enc.take(i + 1));
        }
        if i > 0 {
            append_str(&mut running, "/");
            proof {
                reveal_strlit("/");
            }
        } else {
            assert(enc.take(1)[0] == enc[0]);
            assert(running@ =~= Seq::<char>::empty());
        }
        let e = percent_encode_segment(comps[i].as_str());
        append_str(&mut running, e.as_str());
        let href = concat_str("/browse/", running.as_str());
        let ghost before = crumbs@;
        crumbs.push((comps[i].clone(), href));
        proof {
            let spec = breadcrumbs_spec(path@);
            assert(spec[i + 1] == (cs[i as int], "/browse/"@ + join_segments(
                encoded_components(cs.take(i + 1)),
            )));
            assert(comps@[i as int]@ == cs[i as int]);
            assert(running@ == join_segments(enc.take(i + 1)));
            assert(href@ == "/browse/"@ + join_segments(encoded_components(cs.take(i + 1))));
            assert((comps@[i as int]@, href@) == spec[i + 1]);
            assert(spec.take(i + 2) =~= spec.take(i + 1).push(spec[i + 1]));
            assert(crumbs@.map_values(|c: (String, String)| (c.0@, c.1@)) =~= before.map_values(
                |c: (String, String)| (c.0@, c.1@),
            ).push((comps@[i as int]@, href@)));
        }
        i = i + 1;
    }
    proof {
        let spec = breadcrumbs_spec(path@);
        assert(spec.take(spec.len() as int) == spec);
    }
    crumbs
}

/// Where a search result links to: a folder to its own page, a file to the
/// page of the folder that holds it.
pub fn search_result_href(relative_path: &MediaPath, is_folder: bool) -> (r: String)
    ensures
        is_folder ==> r@ == browse_href(relative_path@),
        !is_folder ==> r@ == browse_href(PathModel {
            absolute: relative_path@.absolute,
            segments: crate::path::parent_or_self(relative_path@.segments),
        }),
{
    if is_folder {
        let u = encode_url_path(relative_path);
        concat_str("/browse/", u.as_str())
    } else {
        let parent = relative_path.parent_or_self();
        let u = encode_url_path(&parent);
        proof {
            assert(parent@ == PathModel {
                absolute: relative_path@.absolute,
                segments: crate::path::parent_or_self(relative_path@.segments),
            });
        }
        concat_str("/browse/", u.as_str())
    }
}

/// The link that serves a video's thumbnail: `/thumb/video/` and the URL
/// path of the video.
pub fn video_thumbnail_href(relative_path: &MediaPath) -> (r: String)
    ensures
        r@ == "/thumb/video/"@ + url_path(relative_path@),
{
    let u = encode_url_path(relative_path);
    concat_str("/thumb/video/", u.as_str())
}

/// The URL path of a path with at least one component has exactly one
/// `/`-separated piece per component, the encoding of that component: the
/// encoding never puts a `/` inside a piece.
pub proof fn lemma_url_path_pieces(p: PathModel)
    requires
        path_components(p).len() >= 1,
    ensures
        split_slash(url_path(p)) == encoded_components(path_components(p)),
{
    let enc = encoded_components(path_components(p));
    assert forall|k: int| 0 <= k < enc.len() implies !(#[trigger] enc[k]).contains('/') by {
        lemma_percent_round_trip(encode_utf8(path_components(p)[k]));
        if enc[k].contains('/') {
            let j = choose|j: int| 0 <= j < enc[k].len() && enc[k][j] == '/';
            assert(enc[k][j] != '/');
        }
    }
    lemma_split_join(enc);
}

/// Whether a character is a hexadecimal digit.
pub open spec fn is_hex_digit(c: char) -> bool {
    ('0' <= c <= '9') || ('A' <= c <= 'F') || ('a' <= c <= 'f')
}

/// The value of a hexadecimal digit.
pub open spec fn hex_value(c: char) -> int {
    if '0' <= c <= '9' {
        c as int - 48
    } else if 'A' <= c <= 'F' {
        c as int - 55
    } else {
        c as int - 87
    }
}

/// Percent-decoding of ASCII text (`percent_decode_str`): `%` and two
/// hexadecimal digits stand for the byte they write, every other character
/// for its own code.
pub open spec fn percent_decoded(s: Seq<char>) -> Seq<u8>
    decreases s.len(),
{
    if s.len() == 0 {
        Seq::empty()
    } else if s.len() >= 3 && s[0] == '%' && is_hex_digit(s[1]) && is_hex_digit(s[2]) {
        seq![(hex_value(s[1]) * 16 + hex_value(s[2])) as u8] + percent_decoded(
            s.subrange(3, s.len() as int),
        )
    } else {
        seq![s[0] as u8] + percent_decoded(s.drop_first())
    }
}

/// The characters of a URL path: ASCII letters and digits, `%` and `/`.
pub open spec fn is_url_path_char(c: char) -> bool {
    ('0' <= c <= '9') || ('A' <= c <= 'Z') || ('a' <= c <= 'z') || c == '%' || c == '/'
}

proof fn lemma_hex_upper(v: int)
    requires
        0 <= v < 16,
    ensures
        is_hex_digit(hex_upper(v)),
        hex_value(hex_upper(v)) == v,
        hex_upper(v) != '/',
{
    assert(hex_upper(v) as u32 == if v < 10 { v + 48 } else { v + 55 });
}

proof fn lemma_percent_encoded_front(bytes: Seq<u8>)
    requires
        bytes.len() > 0,
    ensures
        percent_encoded(bytes) == percent_encoded(seq![bytes[0]]) + percent_encoded(bytes.drop_first()),
    decreases bytes.len(),
{
    assert(seq![bytes[0]].drop_last() == Seq::<u8>::empty());
    if bytes.len() > 1 {
        let d = bytes.drop_last();
        lemma_percent_encoded_front(d);
        assert(d.drop_first() == bytes.drop_first().drop_last());
        assert(d[0] == bytes[0]);
        assert(bytes.drop_first().last() == bytes.last());
    } else {
        assert(bytes.drop_last() == Seq::<u8>::empty());
        assert(bytes.drop_first() == Seq::<u8>::empty());
        assert(bytes.last() == bytes[0]);
    }
}

/// Percent-decoding undoes the encoding of a path component, and the
/// encoding uses only ASCII letters, digits and `%`.
proof fn lemma_percent_round_trip(bytes: Seq<u8>)
    ensures
        percent_decoded(percent_encoded(bytes)) == bytes,
        forall|k: int|
            0 <= k < percent_encoded(bytes).len() ==> is_url_path_char(
                #[trigger] percent_encoded(bytes)[k],
            ) && percent_encoded(bytes)[k] != '/',
    decreases bytes.len(),
{
    if bytes.len() > 0 {
        let b = bytes[0];
        let rest = bytes.drop_first();
        lemma_percent_encoded_front(bytes);
        lemma_percent_round_trip(rest);
        let head = percent_encoded(seq![b]);
        let e = percent_encoded(bytes);
        assert(seq![b].drop_last() == Seq::<u8>::empty());
        assert(seq![b].last() == b);
        assert(percent_encoded(Seq::<u8>::empty()) == Seq::<char>::empty());
        assert(percent_encoded(seq![b].drop_last()) == Seq::<char>::empty());
        if is_ascii_alphanumeric_byte(b) {
            assert(head == seq![b as char]);
            assert((b as char) as u32 == b as u32);
            assert(e[0] == b as char);
            assert(e.drop_first() == percent_encoded(rest));
        } else {
            let hi = (b / 16) as int;
            let lo = (b % 16) as int;
            lemma_hex_upper(hi);
            lemma_hex_upper(lo);
            assert(head == seq!['%', hex_upper(hi), hex_upper(lo)]);
            assert(e[0] == '%' && e[1] == hex_upper(hi) && e[2] == hex_upper(lo));
            assert(e.subrange(3, e.len() as int) == percent_encoded(rest));
            assert(hi * 16 + lo == b);
        }
        assert(percent_decoded(e) == seq![b] + rest);
        assert(seq![b] + rest == bytes);
        assert forall|k: int| 0 <= k < e.len() implies is_url_path_char(#[trigger] e[k]) && e[k]
            != '/' by {
            if k >= head.len() {
                assert(e[k] == percent_encoded(rest)[k - head.len()]);
            } else if is_ascii_alphanumeric_byte(b) {
                assert((b as char) as u32 == b as u32);
            }
        }
    }
}

proof fn lemma_join_url_path_chars(segs: Seq<Seq<char>>)
    requires
        forall|i: int, k: int|
            0 <= i < segs.len() && 0 <= k < segs[i].len() ==> is_url_path_char(#[trigger] segs[i][k]),
    ensures
        forall|k: int| 0 <= k < join_segments(segs).len() ==> is_url_path_char(#[trigger] join_segments(segs)[k]),
    decreases segs.len(),
{
    if segs.len() == 1 {
        assert forall|k: int| 0 <= k < join_segments(segs).len() implies is_url_path_char(
            #[trigger] join_segments(segs)[k],
        ) by {
            assert(segs[0][k] == join_segments(segs)[k]);
        }
    } else if segs.len() > 1 {
        let d = segs.drop_last();
        assert forall|i: int, k: int| 0 <= i < d.len() && 0 <= k < d[i].len() implies is_url_path_char(
            #[trigger] d[i][k],
        ) by {
            assert(d[i] == segs[i]);
        }
        lemma_join_url_path_chars(d);
        let j = join_segments(segs);
        let a = join_segments(d) + seq!['/'];
        assert forall|k: int| 0 <= k < j.len() implies is_url_path_char(#[trigger] j[k]) by {
            if k < join_segments(d).len() {
                assert(j[k] == join_segments(d)[k]);
            } else if k == join_segments(d).len() {
                assert(j[k] == '/');
            } else {
                assert(j[k] == segs.last()[k - a.len()]);
                assert(segs.last() == segs[segs.len() - 1]);
            }
        }
    }
}

/// The URL path of a path with at least one component is made of ASCII
/// letters, digits, `%` and `/`; it has one `/`-separated piece per
/// component, and percent-decoding a piece gives back the UTF-8 bytes of
/// its component, so decoding recovers the path.
pub proof fn lemma_url_path_decodes(p: PathModel)
    requires
        path_components(p).len() >= 1,
    ensures
        forall|k: int| 0 <= k < url_path(p).len() ==> is_url_path_char(#[trigger] url_path(p)[k]),
        split_slash(url_path(p)).len() == path_components(p).len(),
        forall|i: int|
            0 <= i < path_components(p).len() ==> percent_decoded(
                #[trigger] split_slash(url_path(p))[i],
            ) == encode_utf8(path_components(p)[i]),
{
    let cs = path_components(p);
    let enc = encoded_components(cs);
    lemma_url_path_pieces(p);
    assert forall|i: int| 0 <= i < cs.len() implies percent_decoded(#[trigger] enc[i]) == encode_utf8(
        cs[i],
    ) by {
        lemma_percent_round_trip(encode_utf8(cs[i]));
    }
    assert forall|i: int, k: int| 0 <= i < enc.len() && 0 <= k < enc[i].len() implies is_url_path_char(
        #[trigger] enc[i][k],
    ) by {
        lemma_percent_round_trip(encode_utf8(cs[i]));
        assert(enc[i] == percent_encoded(encode_utf8(cs[i])));
    }
    lemma_join_url_path_chars(enc);
}

/// The last breadcrumb of a path with components links to the path's own
/// page, and there is one crumb more than there are components.
pub proof fn lemma_last_breadcrumb_is_the_page(p: PathModel)
    ensures
        breadcrumbs_spec(p).len() == path_components(p).len() + 1,
        path_components(p).len() >= 1 ==> breadcrumbs_spec(p).last().1 == browse_href(p),
{
    let cs = path_components(p);
    if cs.len() >= 1 {
        assert(cs.take(cs.len() as int) == cs);
    }
}

} // verus!
