//! A parsed server URL from the `url` crate, together with the text that the
//! library reasons about: the URL's serialization.

use vstd::prelude::*;
use crate::text::has_prefix;

verus! {

#[verifier::external_type_specification]
#[verifier::external_body]
pub struct ExUrl(url::Url);

#[verifier::external_type_specification]
#[verifier::external_body]
pub struct ExUrlParseError(url::ParseError);

/// The serialization that `url::Url::parse` gives `input`, or `None` where
/// `input` is not an absolute URL that the crate accepts.
pub uninterp spec fn url_parse_text(input: Seq<char>) -> Option<Seq<char>>;

/// The serialization of a URL whose serialization was `text` after
/// `PathSegmentsMut::extend` appended `segments` to its path (percent-encoding
/// them, dropping `.` and `..`, keeping query and fragment).
pub uninterp spec fn url_extend_path_text(text: Seq<char>, segments: Seq<Seq<char>>) -> Seq<char>;

/// What follows the first `:` of `s` (empty when there is none).
pub open spec fn after_first_colon(s: Seq<char>) -> Seq<char>
    decreases s.len(),
{
    if s.len() == 0 {
        s
    } else if s[0] == ':' {
        s.drop_first()
    } else {
        after_first_colon(s.drop_first())
    }
}

/// `url::Url::cannot_be_a_base`, read off a serialization: the scheme ends
/// at the first `:`, and the URL can be a base exactly when a `/` follows it.
pub open spec fn cannot_be_a_base(text: Seq<char>) -> bool {
    !has_prefix(after_first_colon(text), seq!['/'])
}

/// A URL parsed by the `url` crate; its view is its serialization.
pub struct ServerUrl {
    inner: url::Url,
    text: Ghost<Seq<char>>,
}

impl View for ServerUrl {
    type V = Seq<char>;

    closed spec fn view(&self) -> Seq<char> {
        self.text@
    }
}

/// Parses `input` with `url::Url::parse`; the contract claims that the call
/// succeeds exactly where `url_parse_text` names a serialization, and that
/// the parsed URL serializes to that text. It also claims that an input
/// that begins with `http://` or `https://` keeps that scheme: both are
/// special schemes, written in lower case with `//` and a host.
#[verifier::external_body]
pub fn parse_url(input: &str) -> (r: Result<ServerUrl, url::ParseError>)
    ensures
        r is Ok <==> url_parse_text(input@) is Some,
        r matches Ok(u) ==> url_parse_text(input@) == Some(u@),
        r matches Ok(u) ==> (has_prefix(input@, "http://"@) ==> has_prefix(u@, "http://"@)),
        r matches Ok(u) ==> (has_prefix(input@, "https://"@) ==> has_prefix(u@, "https://"@)),
{
    match url::Url::parse(input) {
        Ok(inner) => Ok(ServerUrl { inner, text: Ghost(url_parse_text(input@)->0) }),
        Err(e) => Err(e),
    }
}

/// The number of bytes that UTF-8 uses for `c`.
pub open spec fn utf8_width(c: char) -> int {
    if (c as u32) < 0x80 {
        1
    } else if (c as u32) < 0x800 {
        2
    } else if (c as u32) < 0x10000 {
        3
    } else {
        4
    }
}

/// The length of `s` in UTF-8 bytes.
pub open spec fn utf8_len(s: Seq<char>) -> int
    decreases s.len(),
{
    if s.len() == 0 {
        0
    } else {
        utf8_len(s.drop_last()) + utf8_width(s.last())
    }
}

/// An upper bound on the bytes that appending `segments` to a path adds:
/// per segment, a `/`, one byte for the `file` scheme's path adjustments,
/// and at most three bytes per UTF-8 byte of the segment (a byte is copied
/// or percent-encoded as `%XX`).
pub open spec fn extension_bound(segments: Seq<Seq<char>>) -> int
    decreases segments.len(),
{
    if segments.len() == 0 {
        0
    } else {
        extension_bound(segments.drop_last()) + 2 + 3 * utf8_len(segments.last())
    }
}

/// Appends `segments` to the path of `u` through `url::Url::path_segments_mut`
/// and `PathSegmentsMut::extend`. The contract claims that this is refused
/// (returning `false`, leaving `u` unchanged) exactly when the URL cannot be a
/// base, and that otherwise the serialization becomes `url_extend_path_text`,
/// which leaves the scheme and authority in front of the path as they are
/// (so an `http://` or `https://` URL keeps that beginning).
/// The `url` crate keeps positions in the serialization as `u32` and panics
/// (in `Url::restore_after_path`) when the extended path outgrows them, so
/// the serialization (ASCII, so as many bytes as characters) plus what the
/// segments can add must stay within `u32::MAX`.
#[verifier::external_body]
pub fn extend_path(u: &mut ServerUrl, segments: &Vec<String>) -> (ok: bool)
    requires
        !cannot_be_a_base(old(u)@) ==> old(u)@.len() + extension_bound(
            segments@.map_values(|s: String| s@),
        ) <= u32::MAX,
    ensures
        ok == !cannot_be_a_base(old(u)@),
        ok ==> final(u)@ == url_extend_path_text(
            old(u)@,
            segments@.map_values(|s: String| s@),
        ),
        !ok ==> final(u)@ == old(u)@,
        has_prefix(old(u)@, "http://"@) ==> has_prefix(final(u)@, "http://"@),
        has_prefix(old(u)@, "https://"@) ==> has_prefix(final(u)@, "https://"@),
{
    match u.inner.path_segments_mut() {
        Ok(mut path) => {
            path.extend(segments.iter());
            drop(path);
            u.text = Ghost(url_extend_path_text(u.text@, segments@.map_values(|s: String| s@)));
            true
        },
        Err(()) => false,
    }
}

/// The serialization of `u`, through its `Display` impl (`to_string`), which
/// writes the serialization unchanged.
#[verifier::external_body]
pub fn url_text(u: &ServerUrl) -> (r: String)
    ensures
        r@ == u@,
{
    u.inner.to_string()
}

/// Whether a serialization's URL cannot be a base (no `/` after the first `:`).
pub fn text_cannot_be_a_base(s: &str) -> (r: bool)
    ensures
        r == cannot_be_a_base(s@),
{
    let len = s.unicode_len();
    let mut i: usize = 0;
    assert(s@.skip(0) =~= s@);
    while i < len && s.get_char(i) != ':'
        invariant
            len == s@.len(),
            i <= len,
            after_first_colon(s@) == after_first_colon(s@.skip(i as int)),
        decreases len - i,
    {
        assert(s@.skip(i as int).drop_first() =~= s@.skip(i + 1));
        i = i + 1;
    }
    if i == len {
        assert(s@.skip(i as int).len() == 0);
        return true;
    }
    assert(s@.skip(i as int).drop_first() =~= s@.skip(i + 1));
    let ghost after = s@.skip(i + 1);
    if i + 1 < len && s.get_char(i + 1) == '/' {
        assert(after.subrange(0, 1) =~= seq!['/']);
        false
    } else {
        assert(after.len() >= 1 ==> after.subrange(0, 1)[0] == after[0]);
        true
    }
}

proof fn lemma_extension_bound_prefix(segments: Seq<Seq<char>>, k: int)
    requires
        0 <= k <= segments.len(),
    ensures
        extension_bound(segments.take(k)) <= extension_bound(segments),
    decreases segments.len() - k,
{
    if k < segments.len() {
        assert(segments.drop_last().take(k) =~= segments.take(k));
        lemma_extension_bound_prefix(segments.drop_last(), k);
        lemma_utf8_len_nonneg(segments.last());
    } else {
        assert(segments.take(k) =~= segments);
    }
}

proof fn lemma_utf8_len_prefix(s: Seq<char>, k: int)
    requires
        0 <= k <= s.len(),
    ensures
        0 <= utf8_len(s.take(k)) <= utf8_len(s),
    decreases s.len() - k,
{
    if k < s.len() {
        assert(s.drop_last().take(k) =~= s.take(k));
        lemma_utf8_len_prefix(s.drop_last(), k);
    } else {
        assert(s.take(k) =~= s);
        lemma_utf8_len_nonneg(s);
    }
}

proof fn lemma_utf8_len_nonneg(s: Seq<char>)
    ensures
        utf8_len(s) >= 0,
    decreases s.len(),
{
    if s.len() > 0 {
        lemma_utf8_len_nonneg(s.drop_last());
    }
}

/// Whether `start` bytes plus what appending `segments` can add stay within
/// `u32::MAX`.
pub fn extension_fits(start: usize, segments: &Vec<String>) -> (r: bool)
    ensures
        r == (start + extension_bound(segments@.map_values(|s: String| s@)) <= u32::MAX),
{
    let ghost views = segments@.map_values(|s: String| s@);
    if start > 4294967295usize {
        proof {
            lemma_extension_bound_nonneg(views);
        }
        return false;
    }
    let mut acc: u64 = start as u64;
    let mut i: usize = 0;
    assert(views.take(0) =~= Seq::<Seq<char>>::empty());
    while i < segments.len()
        invariant
            i <= segments.len(),
            views == segments@.map_values(|s: String| s@),
            acc == start + extension_bound(views.take(i as int)),
            acc <= 4294967295u64,
        decreases segments.len() - i,
    {
        assert(views.take(i + 1).drop_last() =~= views.take(i as int));
        assert(views.take(i + 1).last() == views[i as int]);
        let seg = segments[i].as_str();
        assert(seg@ == views[i as int]);
        let len = seg.unicode_len();
        let ghost before = acc;
        if acc + 2 > 4294967295u64 {
            proof {
                lemma_utf8_len_nonneg(views[i as int]);
                lemma_extension_bound_prefix(views, i + 1);
            }
            return false;
        }
        acc = acc + 2;
        let mut k: usize = 0;
        assert(seg@.take(0) =~= Seq::<char>::empty());
        while k < len
            invariant
                len == seg@.len(),
                k <= len,
                seg@ == views[i as int],
                i < segments.len(),
                views == segments@.map_values(|s: String| s@),
                acc == before + 2 + 3 * utf8_len(seg@.take(k as int)),
                before == start + extension_bound(views.take(i as int)),
                acc <= 4294967295u64,
            decreases len - k,
        {
            let c = seg.get_char(k);
            let w: u64 = if (c as u32) < 0x80 {
                1
            } else if (c as u32) < 0x800 {
                2
            } else if (c as u32) < 0x10000 {
                3
            } else {
                4
            };
            assert(seg@.take(k + 1).drop_last() =~= seg@.take(k as int));
            assert(seg@.take(k + 1).last() == c);
            if acc + 3 * w > 4294967295u64 {
                proof {
                    lemma_utf8_len_prefix(seg@, k + 1);
                    lemma_extension_bound_prefix(views, i + 1);
                    assert(views.take(i + 1).drop_last() =~= views.take(i as int));
                    assert(views.take(i + 1).last() == views[i as int]);
                    assert(utf8_len(seg@.take(k + 1)) == utf8_len(seg@.take(k as int)) + utf8_width(c));
                }
                return false;
            }
            acc = acc + 3 * w;
            k = k + 1;
        }
        assert(seg@.take(len as int) =~= seg@);
        i = i + 1;
    }
    assert(views.take(segments.len() as int) =~= views);
    true
}

proof fn lemma_extension_bound_nonneg(segments: Seq<Seq<char>>)
    ensures
        extension_bound(segments) >= 0,
    decreases segments.len(),
{
    if segments.len() > 0 {
        lemma_extension_bound_nonneg(segments.drop_last());
        lemma_utf8_len_nonneg(segments.last());
    }
}

} // verus!
