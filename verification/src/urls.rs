use vstd::prelude::*;
use vstd::string::*;
use vstd::utf8::*;
use crate::text::{append_str, push_decimal, decimal, ends_with, starts_with};

verus! {

broadcast use vstd::string::group_string_axioms;

/// The parts of a parsed URL that the library reads.
pub struct UrlParts {
    pub scheme: String,
    /// `host_str()`.
    pub host: Option<String>,
    /// The explicit port, `None` when absent or the scheme's default.
    pub port: Option<u16>,
    pub path: String,
    /// `origin().ascii_serialization()`.
    pub origin: String,
}

/// What `url::Url::parse` makes of a text, read into `UrlParts`; `None` when it is not a URL.
pub uninterp spec fn url_parse_parts(text: Seq<char>) -> Option<UrlParts>;

/// The URL that `url::Url::parse(text)` serializes to after `set_path(path)`; `None` when
/// the text is not a URL.
pub uninterp spec fn url_path_replaced(text: Seq<char>, path: Seq<char>) -> Option<Seq<char>>;

/// The URL that `url::Url::parse(text)` serializes to after `set_path(path)`,
/// `set_query(None)` and `set_fragment(None)`; `None` when the text is not a URL.
pub uninterp spec fn url_endpoint_replaced(text: Seq<char>, path: Seq<char>) -> Option<Seq<char>>;

/// `url::Url::parse`, with the scheme, host, port, path and origin of the result read out.
#[verifier::external_body]
pub(crate) fn parse_url(text: &str) -> (r: Option<UrlParts>)
    ensures
        r == url_parse_parts(text@),
{
    let u = url::Url::parse(text).ok()?;
    Some(UrlParts {
        scheme: u.scheme().to_string(),
        host: u.host_str().map(|h| h.to_string()),
        port: u.port(),
        path: u.path().to_string(),
        origin: u.origin().ascii_serialization(),
    })
}

/// A path ending that starts with `/` and holds only `/` and ASCII lowercase letters: the
/// path percent-encode set leaves each of its characters as it is, and it holds no `.` or
/// `..` segment.
pub open spec fn plain_path_suffix(s: Seq<char>) -> bool {
    &&& s.len() > 0
    &&& s[0] == '/'
    &&& forall|i: int| 0 <= i < s.len() ==> (#[trigger] s[i] == '/' || ('a' <= s[i] && s[i] <= 'z'))
}

/// Whether a scheme is `http` or `https` (`Url::scheme` is lower case).
pub open spec fn is_http_scheme(scheme: Seq<char>) -> bool {
    scheme == "http"@ || scheme == "https"@
}

/// `url::Url::parse` followed by `set_path`, serialized with `to_string`. Parsing is the
/// only step that fails.
///
/// Of the path the result holds, one fact is stated, for `http` and `https` URLs only: a
/// plain ending of the path handed to `set_path` (see `plain_path_suffix`) is still the
/// ending of the path that parsing the result gives. For such a URL `set_path` writes a `/`
/// after the host and runs the path parser in setter mode over the new path
/// (`Parser::parse_path_start`, `Parser::parse_path`): it percent-encodes with the path set
/// (`?` and `#` included), turns `\` into `/` and resolves dot segments, none of which
/// touches such an ending; and a `Url`'s serialization parses back to the same path (the
/// crate's `check_invariants` asserts it). What the rest of the path becomes, and anything
/// about the path for other schemes, is not stated.
#[verifier::external_body]
pub(crate) fn replace_url_path(text: &str, path: &str) -> (r: Option<String>)
    ensures
        r is Some <==> url_parse_parts(text@) is Some,
        r is Some ==> url_path_replaced(text@, path@) == Some(r->0@),
        r is None ==> url_path_replaced(text@, path@) is None,
        forall|suffix: Seq<char>|
            #![trigger ends_with(path@, suffix), plain_path_suffix(suffix)]
            r is Some && is_http_scheme(url_parse_parts(text@)->0.scheme@) && plain_path_suffix(
                suffix,
            ) && ends_with(path@, suffix) ==> url_parse_parts(r->0@) is Some && ends_with(
                url_parse_parts(r->0@)->0.path@,
                suffix,
            ),
{
    let mut u = url::Url::parse(text).ok()?;
    u.set_path(path);
    Some(u.to_string())
}

/// `url::Url::parse` followed by `set_path`, `set_query(None)` and `set_fragment(None)`,
/// serialized with `to_string`. Parsing is the only step that fails.
#[verifier::external_body]
pub(crate) fn replace_url_endpoint(text: &str, path: &str) -> (r: Option<String>)
    ensures
        r is Some <==> url_parse_parts(text@) is Some,
        r is Some ==> url_endpoint_replaced(text@, path@) == Some(r->0@),
        r is None ==> url_endpoint_replaced(text@, path@) is None,
{
    let mut u = url::Url::parse(text).ok()?;
    u.set_path(path);
    u.set_query(None);
    u.set_fragment(None);
    Some(u.to_string())
}


/// The text `url::Url::parse` serializes a URL to (`as_str`); `None` when it is not a URL.
pub uninterp spec fn url_serialization(text: Seq<char>) -> Option<Seq<char>>;

/// `url::Url::parse(text)` read back with `as_str`. It fails exactly when parsing fails;
/// which message the error carries is not stated.
#[verifier::external_body]
pub(crate) fn serialize_url(text: &str) -> (r: Result<String, String>)
    ensures
        r is Ok <==> url_parse_parts(text@) is Some,
        r is Ok <==> url_serialization(text@) is Some,
        r is Ok ==> url_serialization(text@) == Some(r->Ok_0@),
{
    url::Url::parse(text).map(|u| u.as_str().to_string()).map_err(|e| e.to_string())
}

/// `scheme://host[:port]` of a parsed URL (an absent host counts as empty).
pub open spec fn base_of(p: UrlParts) -> Seq<char> {
    let host = match p.host {
        Some(h) => h@,
        None => Seq::empty(),
    };
    let port = match p.port {
        Some(n) => ":"@ + decimal(n as nat),
        None => Seq::empty(),
    };
    p.scheme@ + "://"@ + host + port
}

/// Builds `scheme://host[:port]` from a parsed URL.
pub fn url_base(p: &UrlParts) -> (r: String)
    ensures
        r@ == base_of(*p),
{
    let mut s = p.scheme.clone();
    append_str(&mut s, "://");
    match &p.host {
        Some(h) => append_str(&mut s, h.as_str()),
        None => {},
    }
    match p.port {
        Some(n) => {
            append_str(&mut s, ":");
            push_decimal(&mut s, n as u64);
        },
        None => {},
    }
    proof {
        reveal_strlit("://");
        reveal_strlit(":");
    }
    assert(s@ =~= base_of(*p));
    s
}

/// Uppercase hexadecimal digit of `d < 16`.
pub open spec fn hex_upper(d: nat) -> char {
    if d < 10 {
        ((d + 48) as u8) as char
    } else {
        ((d + 55) as u8) as char
    }
}

/// `%XX` with the byte in uppercase hexadecimal.
pub open spec fn percent_byte(b: u8) -> Seq<char> {
    seq!['%', hex_upper((b / 16) as nat), hex_upper((b % 16) as nat)]
}

pub open spec fn is_ascii_alnum_byte(b: u8) -> bool {
    (48 <= b <= 57) || (65 <= b <= 90) || (97 <= b <= 122)
}

/// Bytes that `urlencoding::encode` leaves as they are: ASCII letters and digits, `-`, `.`,
/// `_` and `~`.
pub open spec fn url_unreserved(b: u8) -> bool {
    is_ascii_alnum_byte(b) || b == 45 || b == 46 || b == 95 || b == 126
}

/// Bytes that a path segment keeps: ASCII letters and digits, `-`, `_` and `.`.
pub open spec fn path_segment_safe(b: u8) -> bool {
    is_ascii_alnum_byte(b) || b == 45 || b == 95 || b == 46
}

/// Percent-encoding of `bytes`: each byte that `keep` accepts stands as its ASCII character,
/// every other byte as `%XX`.
pub open spec fn percent_encode_spec(bytes: Seq<u8>, keep: spec_fn(u8) -> bool) -> Seq<char>
    decreases bytes.len(),
{
    if bytes.len() == 0 {
        Seq::empty()
    } else {
        percent_encode_spec(bytes.drop_last(), keep) + if keep(bytes.last()) {
            seq![bytes.last() as char]
        } else {
            percent_byte(bytes.last())
        }
    }
}

/// `urlencoding::encode`: every byte of the UTF-8 text but ASCII letters, digits and
/// `-._~` is written `%XX`.
#[verifier::external_body]
pub(crate) fn url_encode(text: &str) -> (r: String)
    ensures
        r@ == percent_encode_spec(encode_utf8(text@), |b: u8| url_unreserved(b)),
{
    urlencoding::encode(text).into_owned()
}

/// `percent_encoding::percent_encode_byte`: `%XX` with the byte in uppercase hexadecimal.
#[verifier::external_body]
fn percent_encode_byte(b: u8) -> (r: &'static str)
    ensures
        r@ == percent_byte(b),
{
    percent_encoding::percent_encode_byte(b)
}

/// Encodes a path segment as `utf8_percent_encode` does with `NON_ALPHANUMERIC` minus `-`,
/// `_` and `.`: every byte of the UTF-8 text but ASCII letters, digits and `-_.` is written
/// `%XX`.
pub fn encode_path_segment(text: &str) -> (r: String)
    ensures
        r@ == percent_encode_spec(encode_utf8(text@), |b: u8| path_segment_safe(b)),
{
    let bytes = text.as_bytes();
    let ghost keep = |b: u8| path_segment_safe(b);
    let mut out = String::new();
    let mut i: usize = 0;
    while i < bytes.len()
        invariant
            i <= bytes.len(),
            bytes@ == encode_utf8(text@),
            keep == (|b: u8| path_segment_safe(b)),
            out@ == percent_encode_spec(bytes@.take(i as int), keep),
        decreases bytes.len() - i,
    {
        let b = bytes[i];
        proof {
            assert(bytes@.take(i + 1).drop_last() =~= bytes@.take(i as int));
            assert(bytes@.take(i + 1).last() == b);
        }
        let safe = (48 <= b && b <= 57) || (65 <= b && b <= 90) || (97 <= b && b <= 122) || b == 45
            || b == 95 || b == 46;
        if safe {
            crate::text::push_char(&mut out, b as char);
            assert(out@ =~= percent_encode_spec(bytes@.take(i + 1), keep));
        } else {
            append_str(&mut out, percent_encode_byte(b));
            assert(out@ =~= percent_encode_spec(bytes@.take(i + 1), keep));
        }
        i = i + 1;
    }
    assert(bytes@.take(bytes.len() as int) =~= bytes@);
    out
}

} // verus!
