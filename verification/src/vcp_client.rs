use vstd::prelude::*;
use vstd::string::*;
use vstd::utf8::*;
use crate::json::{JsonNode, json_parse, field, field_str, entry_text, get_field, get_field_str, lookup_entry, parse_json};
use crate::lifecycle_controller::Settings;
use crate::text::{
    append_str, ascii_lower, chars_of, concat2, contains_seq, contains_str, find_from, is_blank,
    join, join_strings, replace_all, replace_str, split_char, split_on, starts_with,
    starts_with_str, ends_with, ends_with_str, str_eq, strip_trailing, take_chars, to_ascii_lowercase,
    trim, trim_end_char, trim_str, views, lemma_views_push, slice_range, string_from_chars,
    decimal, push_decimal, no_self_overlap, lemma_replace_all_keeps_ending,
};
use crate::urls::{
    UrlParts, parse_url, replace_url_path, replace_url_endpoint, serialize_url, url_encode, url_parse_parts,
    plain_path_suffix, is_http_scheme, url_endpoint_replaced,
    url_path_replaced, url_serialization, percent_encode_spec, url_unreserved,
};

verus! {

broadcast use vstd::string::group_string_axioms;

// ------------------------------------------------------------------ audio data URLs

/// The audio format named by the metadata part of a data URL (`mp3` when none matches).
pub open spec fn audio_format_spec(meta: Seq<char>) -> Seq<char> {
    if contains_seq(meta, "audio/aac"@) {
        "aac"@
    } else if contains_seq(meta, "audio/wav"@) {
        "wav"@
    } else if contains_seq(meta, "audio/ogg"@) {
        "ogg"@
    } else if contains_seq(meta, "audio/flac"@) {
        "flac"@
    } else if contains_seq(meta, "audio/mp4"@) || contains_seq(meta, "audio/m4a"@) {
        "mp4"@
    } else if contains_seq(meta, "audio/opus"@) {
        "opus"@
    } else {
        "mp3"@
    }
}

/// Position of the first `c` in `s`, if any.
pub open spec fn first_index_of(s: Seq<char>, c: char) -> Option<int> {
    if exists|i: int| 0 <= i < s.len() && s[i] == c {
        Some(choose|i: int| 0 <= i < s.len() && s[i] == c && forall|j: int| 0 <= j < i ==> s[j] != c)
    } else {
        None
    }
}

/// What `split_audio_data_url` gives: the payload after the first comma with the format of
/// the part before it, or the whole text as `mp3`.
pub open spec fn split_audio_spec(url: Seq<char>) -> (Seq<char>, Seq<char>) {
    match first_index_of(url, ',') {
        Some(i) => (url.skip(i + 1), audio_format_spec(url.take(i))),
        None => (url, "mp3"@),
    }
}

fn audio_format(meta: &str) -> (r: String)
    ensures
        r@ == audio_format_spec(meta@),
{
    if contains_str(meta, "audio/aac") {
        String::from_str("aac")
    } else if contains_str(meta, "audio/wav") {
        String::from_str("wav")
    } else if contains_str(meta, "audio/ogg") {
        String::from_str("ogg")
    } else if contains_str(meta, "audio/flac") {
        String::from_str("flac")
    } else if contains_str(meta, "audio/mp4") || contains_str(meta, "audio/m4a") {
        String::from_str("mp4")
    } else if contains_str(meta, "audio/opus") {
        String::from_str("opus")
    } else {
        String::from_str("mp3")
    }
}

/// Splits an audio data URL into the bare base64 payload and the format the model API
/// expects.
pub fn split_audio_data_url(audio_url: &str) -> (r: (String, String))
    ensures
        (r.0@, r.1@) == split_audio_spec(audio_url@),
{
    let v = chars_of(audio_url);
    let mut i: usize = 0;
    while i < v.len() && v[i] != ','
        invariant
            i <= v.len(),
            v@ == audio_url@,
            forall|j: int| 0 <= j < i ==> v@[j] != ',',
        decreases v.len() - i,
    {
        i = i + 1;
    }
    if i < v.len() {
        let meta = string_from_chars(slice_range(v.as_slice(), 0, i).as_slice());
        let data = string_from_chars(slice_range(v.as_slice(), i + 1, v.len()).as_slice());
        let format = audio_format(meta.as_str());
        proof {
            assert(exists|k: int| 0 <= k < v@.len() && v@[k] == ',') by {
                assert(v@[i as int] == ',');
            }
            let k = first_index_of(audio_url@, ',')->0;
            assert(k == i) by {
                if k < i {
                } else if k > i {
                    assert(v@[i as int] == ',');
                }
            }
            assert(meta@ =~= audio_url@.take(i as int));
            assert(data@ =~= audio_url@.skip(i + 1));
        }
        (data, format)
    } else {
        proof {
            assert(!exists|k: int| 0 <= k < audio_url@.len() && audio_url@[k] == ',');
        }
        (audio_url.to_string(), String::from_str("mp3"))
    }
}

// ------------------------------------------------------------------ image host

/// Where uploaded images go and the keys that guard it.
pub struct ImageHostConfig {
    pub base_url: String,
    pub image_key: String,
    pub upload_key: String,
}

/// A trimmed, non-empty string of the extra settings.
pub open spec fn setting_string_spec(settings: Settings, key: Seq<char>) -> Option<Seq<char>> {
    match field_str(settings.extra, key) {
        Some(s) => if trim(s).len() > 0 {
            Some(trim(s))
        } else {
            None
        },
        None => None,
    }
}

/// Reads a string of the extra settings, trimmed; empty counts as absent.
pub fn setting_string(settings: &Settings, key: &str) -> (r: Option<String>)
    ensures
        match r {
            Some(s) => setting_string_spec(*settings, key@) == Some(s@),
            None => setting_string_spec(*settings, key@) is None,
        },
{
    let s = get_field_str(&settings.extra, key)?;
    let t = trim_str(s.as_str());
    if t.unicode_len() > 0 {
        Some(t)
    } else {
        None
    }
}

/// The origin of a URL without trailing slashes; `None` when it does not parse or has an
/// opaque (`null`) origin.
pub open spec fn origin_spec(url: Seq<char>) -> Option<Seq<char>> {
    match url_parse_parts(url) {
        Some(p) => if p.origin@ == "null"@ {
            None
        } else {
            Some(strip_trailing(p.origin@, '/'))
        },
        None => None,
    }
}

/// The origin of a URL (see `origin_spec`).
pub fn origin_from_url(url: &str) -> (r: Option<String>)
    ensures
        match r {
            Some(s) => origin_spec(url@) == Some(s@),
            None => origin_spec(url@) is None,
        },
{
    let p = parse_url(url)?;
    if str_eq(p.origin.as_str(), "null") {
        None
    } else {
        Some(trim_end_char(p.origin.as_str(), '/'))
    }
}

/// The image key: the `imageKey` setting, else the file key (trimmed).
pub open spec fn image_key_spec(settings: Settings) -> Seq<char> {
    match setting_string_spec(settings, "imageKey"@) {
        Some(k) => trim(k),
        None => trim(trim(settings.file_key@)),
    }
}

/// The image server: the origin of `imageServerUrl` (else `imagePublicBaseUrl`) when that
/// setting is given and its origin exists, else the origin of the VCP URL.
pub open spec fn image_base_spec(vcp_url: Seq<char>, settings: Settings) -> Option<Seq<char>> {
    let configured = match setting_string_spec(settings, "imageServerUrl"@) {
        Some(u) => Some(u),
        None => setting_string_spec(settings, "imagePublicBaseUrl"@),
    };
    let from_setting = match configured {
        Some(u) => origin_spec(u),
        None => None,
    };
    match from_setting {
        Some(o) => Some(o),
        None => origin_spec(vcp_url),
    }
}

/// Whether an image host is configured, and with what.
pub open spec fn image_host_spec(vcp_url: Seq<char>, settings: Settings) -> Option<
    (Seq<char>, Seq<char>, Seq<char>),
> {
    let key = image_key_spec(settings);
    if key.len() == 0 {
        None
    } else {
        match image_base_spec(vcp_url, settings) {
            Some(base) => Some(
                (
                    base,
                    key,
                    match setting_string_spec(settings, "imageUploadKey"@) {
                        Some(u) => u,
                        None => key,
                    },
                ),
            ),
            None => None,
        }
    }
}

pub open spec fn config_view(c: ImageHostConfig) -> (Seq<char>, Seq<char>, Seq<char>) {
    (c.base_url@, c.image_key@, c.upload_key@)
}

/// `urlencoding::encode` as a value.
pub open spec fn url_encoded(s: Seq<char>) -> Seq<char> {
    percent_encode_spec(encode_utf8(s), |b: u8| url_unreserved(b))
}

/// The public URL of an uploaded image key: each `/`-separated piece of the key encoded.
pub open spec fn public_url_spec(c: (Seq<char>, Seq<char>, Seq<char>), key: Seq<char>) -> Seq<char> {
    c.0 + "/pw="@ + url_encoded(c.1) + "/images/"@ + join(
        split_on(key, '/').map_values(|piece: Seq<char>| url_encoded(piece)),
        "/"@,
    )
}

impl ImageHostConfig {
    /// The image host the settings describe, if any: an image key is needed, and a server,
    /// from the settings or else the VCP URL's origin.
    pub fn from_settings(vcp_url: &str, settings: &Settings) -> (r: Option<ImageHostConfig>)
        ensures
            match r {
                Some(c) => image_host_spec(vcp_url@, *settings) == Some(config_view(c)),
                None => image_host_spec(vcp_url@, *settings) is None,
            },
    {
        let image_key = match setting_string(settings, "imageKey") {
            Some(k) => trim_str(k.as_str()),
            None => {
                let t = trim_str(settings.file_key.as_str());
                trim_str(t.as_str())
            },
        };
        if image_key.unicode_len() == 0 {
            return None;
        }
        let configured = match setting_string(settings, "imageServerUrl") {
            Some(u) => Some(u),
            None => setting_string(settings, "imagePublicBaseUrl"),
        };
        let from_setting = match configured {
            Some(u) => origin_from_url(u.as_str()),
            None => None,
        };
        let base_url = match from_setting {
            Some(o) => o,
            None => origin_from_url(vcp_url)?,
        };
        let upload_key = match setting_string(settings, "imageUploadKey") {
            Some(u) => u,
            None => image_key.clone(),
        };
        Some(ImageHostConfig { base_url, image_key, upload_key })
    }

    /// `{base}/pw={upload key}/images/upload`.
    pub fn upload_url(&self) -> (r: String)
        ensures
            r@ == self.base_url@ + "/pw="@ + url_encoded(self.upload_key@) + "/images/upload"@,
    {
        let mut s = self.base_url.clone();
        append_str(&mut s, "/pw=");
        let k = url_encode(self.upload_key.as_str());
        append_str(&mut s, k.as_str());
        append_str(&mut s, "/images/upload");
        s
    }

    /// `{base}/pw={image key}/images/{key}` with each piece of the key encoded.
    pub fn public_url_for_key(&self, key: &str) -> (r: String)
        ensures
            r@ == public_url_spec(config_view(*self), key@),
    {
        let pieces = split_char(key, '/');
        let mut encoded: Vec<String> = Vec::new();
        let mut i: usize = 0;
        while i < pieces.len()
            invariant
                i <= pieces.len(),
                views(pieces@) == split_on(key@, '/'),
                views(encoded@) == views(pieces@).take(i as int).map_values(
                    |piece: Seq<char>| url_encoded(piece),
                ),
            decreases pieces.len() - i,
        {
            let e = url_encode(pieces[i].as_str());
            proof {
                lemma_views_push(encoded@, e);
                assert(views(pieces@)[i as int] == pieces@[i as int]@);
            }
            encoded.push(e);
            assert(views(encoded@) =~= views(pieces@).take(i + 1).map_values(
                |piece: Seq<char>| url_encoded(piece),
            ));
            i = i + 1;
        }
        assert(views(pieces@).take(pieces.len() as int) =~= views(pieces@));
        let joined = join_strings(encoded.as_slice(), "/");
        let mut s = self.base_url.clone();
        append_str(&mut s, "/pw=");
        let k = url_encode(self.image_key.as_str());
        append_str(&mut s, k.as_str());
        append_str(&mut s, "/images/");
        append_str(&mut s, joined.as_str());
        s
    }

    /// The key under which uploads to this host are cached: `{base}|{image key}`.
    pub fn cache_scope(&self) -> (r: String)
        ensures
            r@ == self.base_url@ + "|"@ + self.image_key@,
    {
        let mut s = self.base_url.clone();
        append_str(&mut s, "|");
        append_str(&mut s, self.image_key.as_str());
        s
    }
}

/// Where an upload response's `url` or `key` points: an absolute http(s) URL as it is, a
/// root-relative path under the host, anything else as a key on the host.
pub open spec fn upload_location_spec(c: (Seq<char>, Seq<char>, Seq<char>), value: Seq<char>) -> Option<
    Seq<char>,
> {
    let v = trim(value);
    if v.len() == 0 {
        None
    } else if url_parse_parts(v) is Some && (url_parse_parts(v)->0.scheme@ == "http"@
        || url_parse_parts(v)->0.scheme@ == "https"@) {
        Some(v)
    } else if v[0] == '/' {
        Some(strip_trailing(c.0, '/') + v)
    } else {
        Some(public_url_spec(c, v))
    }
}

/// Resolves the location an image host reported for an upload.
pub fn normalize_image_upload_location(config: &ImageHostConfig, value: &str) -> (r: Option<String>)
    ensures
        match r {
            Some(s) => upload_location_spec(config_view(*config), value@) == Some(s@),
            None => upload_location_spec(config_view(*config), value@) is None,
        },
{
    let v = trim_str(value);
    if v.unicode_len() == 0 {
        return None;
    }
    match parse_url(v.as_str()) {
        Some(p) => {
            if str_eq(p.scheme.as_str(), "http") || str_eq(p.scheme.as_str(), "https") {
                return Some(v);
            }
        },
        None => {},
    }
    if v.get_char(0) == '/' {
        let mut s = trim_end_char(config.base_url.as_str(), '/');
        append_str(&mut s, v.as_str());
        return Some(s);
    }
    Some(config.public_url_for_key(v.as_str()))
}

/// The file extension used for an uploaded media type (`png` when unknown).
pub open spec fn extension_for_lower_mime(m: Seq<char>) -> Seq<char> {
    if m == "image/jpeg"@ || m == "image/jpg"@ {
        "jpg"@
    } else if m == "image/png"@ {
        "png"@
    } else if m == "image/gif"@ {
        "gif"@
    } else if m == "image/webp"@ {
        "webp"@
    } else if m == "image/svg+xml"@ {
        "svg"@
    } else if m == "image/bmp"@ {
        "bmp"@
    } else if m == "image/x-icon"@ || m == "image/vnd.microsoft.icon"@ {
        "ico"@
    } else if m == "video/mp4"@ {
        "mp4"@
    } else if m == "video/webm"@ {
        "webm"@
    } else if m == "video/quicktime"@ {
        "mov"@
    } else if m == "video/x-matroska"@ {
        "mkv"@
    } else if m == "video/x-msvideo"@ {
        "avi"@
    } else if m == "video/x-ms-wmv"@ {
        "wmv"@
    } else if m == "video/x-flv"@ {
        "flv"@
    } else if m == "video/3gpp"@ {
        "3gp"@
    } else if m == "video/3gpp2"@ {
        "3g2"@
    } else if m == "video/mp2t"@ {
        "ts"@
    } else {
        "png"@
    }
}

/// The file extension for a media type, compared without ASCII case.
pub fn image_extension_for_mime(mime: &str) -> (r: String)
    ensures
        r@ == extension_for_lower_mime(ascii_lower(mime@)),
{
    let l = to_ascii_lowercase(mime);
    let m = l.as_str();
    if str_eq(m, "image/jpeg") || str_eq(m, "image/jpg") {
        String::from_str("jpg")
    } else if str_eq(m, "image/png") {
        String::from_str("png")
    } else if str_eq(m, "image/gif") {
        String::from_str("gif")
    } else if str_eq(m, "image/webp") {
        String::from_str("webp")
    } else if str_eq(m, "image/svg+xml") {
        String::from_str("svg")
    } else if str_eq(m, "image/bmp") {
        String::from_str("bmp")
    } else if str_eq(m, "image/x-icon") || str_eq(m, "image/vnd.microsoft.icon") {
        String::from_str("ico")
    } else if str_eq(m, "video/mp4") {
        String::from_str("mp4")
    } else if str_eq(m, "video/webm") {
        String::from_str("webm")
    } else if str_eq(m, "video/quicktime") {
        String::from_str("mov")
    } else if str_eq(m, "video/x-matroska") {
        String::from_str("mkv")
    } else if str_eq(m, "video/x-msvideo") {
        String::from_str("avi")
    } else if str_eq(m, "video/x-ms-wmv") {
        String::from_str("wmv")
    } else if str_eq(m, "video/x-flv") {
        String::from_str("flv")
    } else if str_eq(m, "video/3gpp") {
        String::from_str("3gp")
    } else if str_eq(m, "video/3gpp2") {
        String::from_str("3g2")
    } else if str_eq(m, "video/mp2t") {
        String::from_str("ts")
    } else {
        String::from_str("png")
    }
}

/// The last component of a path as `std::path::Path::file_name` gives it.
pub uninterp spec fn std_path_file_name(path: Seq<char>) -> Option<Seq<char>>;

/// Whether `std::path::Path::extension` finds an extension in a path.
pub uninterp spec fn std_path_has_extension(path: Seq<char>) -> bool;

/// `std::path::Path::file_name` (a `&str` path always gives UTF-8 names).
#[verifier::external_body]
pub(crate) fn path_file_name(path: &str) -> (r: Option<String>)
    ensures
        match r {
            Some(s) => std_path_file_name(path@) == Some(s@),
            None => std_path_file_name(path@) is None,
        },
{
    std::path::Path::new(path).file_name().and_then(|n| n.to_str()).map(|n| n.to_string())
}

/// `std::path::Path::extension(..).is_some()`.
#[verifier::external_body]
fn path_has_extension(path: &str) -> (r: bool)
    ensures
        r == std_path_has_extension(path@),
{
    std::path::Path::new(path).extension().is_some()
}

/// The base name an upload is sent under.
pub open spec fn upload_base_name(file_name: Seq<char>) -> Seq<char> {
    match std_path_file_name(file_name) {
        Some(n) => if trim(n).len() > 0 {
            trim(n)
        } else {
            "upload"@
        },
        None => "upload"@,
    }
}

/// The name an upload is sent under: the file's base name (or `upload`), with an extension
/// for its media type added when it has none.
pub open spec fn safe_upload_name_spec(file_name: Seq<char>, mime: Seq<char>) -> Seq<char> {
    let raw = upload_base_name(file_name);
    if std_path_has_extension(raw) {
        raw
    } else {
        raw + "."@ + extension_for_lower_mime(ascii_lower(mime))
    }
}

/// A safe file name for an upload.
pub fn safe_upload_file_name(file_name: &str, mime: &str) -> (r: String)
    ensures
        r@ == safe_upload_name_spec(file_name@, mime@),
{
    let raw = match path_file_name(file_name) {
        Some(n) => {
            let t = trim_str(n.as_str());
            if t.unicode_len() > 0 {
                t
            } else {
                String::from_str("upload")
            }
        },
        None => String::from_str("upload"),
    };
    if path_has_extension(raw.as_str()) {
        raw
    } else {
        let mut s = raw;
        append_str(&mut s, ".");
        let ext = image_extension_for_mime(mime);
        append_str(&mut s, ext.as_str());
        s
    }
}

/// The type and full text of the media type `mime_guess::from_path(path).first_or_octet_stream()`
/// gives for a path.
pub uninterp spec fn mime_guess_for_path(path: Seq<char>) -> (Seq<char>, Seq<char>);

/// `mime_guess::from_path(path).first_or_octet_stream()`, read as its top-level type and its
/// full text.
#[verifier::external_body]
pub(crate) fn guess_mime(path: &str) -> (r: (String, String))
    ensures
        (r.0@, r.1@) == mime_guess_for_path(path@),
{
    let m = mime_guess::from_path(path).first_or_octet_stream();
    (m.type_().as_str().to_string(), m.to_string())
}

/// The media type an image upload is declared with: the declared type when it is an image,
/// else the guess from the path when that is an image, else `image/png`.
pub open spec fn image_mime_spec(path: Seq<char>, declared: Seq<char>) -> Seq<char> {
    if starts_with(declared, "image/"@) {
        declared
    } else if mime_guess_for_path(path).0 == "image"@ {
        mime_guess_for_path(path).1
    } else {
        "image/png"@
    }
}

/// Chooses the media type of an image upload.
pub fn image_mime_for_path(path: &str, declared_mime: &str) -> (r: String)
    ensures
        r@ == image_mime_spec(path@, declared_mime@),
{
    if starts_with_str(declared_mime, "image/") {
        return declared_mime.to_string();
    }
    let (t, full) = guess_mime(path);
    if str_eq(t.as_str(), "image") {
        full
    } else {
        String::from_str("image/png")
    }
}

/// An error body as it goes into a message: trimmed, newlines as spaces, cut after 240
/// characters with `...` marking the cut.
pub open spec fn trimmed_error_body(body: Seq<char>) -> Seq<char> {
    let compact = replace_all(trim(body), "\n"@, " "@);
    if compact.len() > 240 {
        compact.take(240) + "..."@
    } else {
        compact
    }
}

/// Shortens an upload error body for a message.
pub fn trim_upload_error_body(body: &str) -> (r: String)
    ensures
        r@ == trimmed_error_body(body@),
{
    let t = trim_str(body);
    proof {
        reveal_strlit("\n");
    }
    let compact = replace_str(t.as_str(), "\n", " ");
    let clipped = take_chars(compact.as_str(), 240);
    if compact.unicode_len() > 240 {
        let mut s = clipped;
        append_str(&mut s, "...");
        s
    } else {
        compact
    }
}

// ------------------------------------------------------------------ request URLs

/// The interrupt endpoint of the server that serves a request URL: path `/v1/interrupt`,
/// without query or fragment.
pub fn interrupt_url_for_request(url: &str) -> (r: Option<String>)
    ensures
        r is Some <==> url_parse_parts(url@) is Some,
        r is Some ==> url_endpoint_replaced(url@, "/v1/interrupt"@) == Some(r->0@),
{
    replace_url_endpoint(url, "/v1/interrupt")
}

/// The path that `normalize_vcp_url` gives a URL path, or `None` when it already ends in
/// `/chat/completions`.
pub open spec fn normalized_vcp_path(path: Seq<char>) -> Option<Seq<char>> {
    if ends_with(path, "/chatvcp/completions"@) {
        Some(replace_all(path, "/chatvcp/completions"@, "/chat/completions"@))
    } else if !ends_with(path, "/chat/completions"@) {
        Some(
            if ends_with(path, "/"@) {
                path + "v1/chat/completions"@
            } else {
                path + "/v1/chat/completions"@
            },
        )
    } else {
        None
    }
}

/// A VCP URL pointed at the standard chat completions endpoint.
pub open spec fn normalize_vcp_url_spec(url: Seq<char>) -> Seq<char> {
    match url_parse_parts(url) {
        Some(p) => match normalized_vcp_path(p.path@) {
            Some(np) => url_path_replaced(url, np)->0,
            None => url,
        },
        None => url,
    }
}

proof fn lemma_tool_route_no_self_overlap()
    ensures
        no_self_overlap("/chatvcp/completions"@),
        plain_path_suffix("/chat/completions"@),
{
    reveal_strlit("/chatvcp/completions");
    reveal_strlit("/chat/completions");
    let p = "/chatvcp/completions"@;
    assert forall|k: int| 0 < k < p.len() implies #[trigger] p.subrange(k, p.len() as int)
        != p.subrange(0, p.len() - k) by {
        if k == 8 {
            assert(p.subrange(k, p.len() as int)[2] != p.subrange(0, p.len() - k)[2]);
        } else {
            assert(p.subrange(k, p.len() as int)[0] != p.subrange(0, p.len() - k)[0]);
        }
    }
}

/// A path already ending in `/chat/completions` does not end in the tool route.
proof fn lemma_endings_exclusive(path: Seq<char>)
    requires
        ends_with(path, "/chat/completions"@),
    ensures
        !ends_with(path, "/chatvcp/completions"@),
{
    reveal_strlit("/chatvcp/completions");
    reveal_strlit("/chat/completions");
    if ends_with(path, "/chatvcp/completions"@) {
        let n = path.len();
        assert(path.subrange(n - 17, n as int)[4] == path[n - 13]);
        assert(path.subrange(n - 20, n as int)[7] == path[n - 13]);
    }
}

/// Appending the endpoint to a path gives a path that ends in `/chat/completions`.
proof fn lemma_appended_ending(path: Seq<char>, tail: Seq<char>)
    requires
        tail == "/v1/chat/completions"@ || tail == "v1/chat/completions"@,
    ensures
        ends_with(path + tail, "/chat/completions"@),
{
    reveal_strlit("/v1/chat/completions");
    reveal_strlit("v1/chat/completions");
    reveal_strlit("/chat/completions");
    let s = path + tail;
    let e = "/chat/completions"@;
    assert(s.subrange(s.len() - e.len(), s.len() as int) =~= e);
}

/// Points a VCP server URL at `/v1/chat/completions`: the tool route `/chatvcp/completions`
/// becomes `/chat/completions`, and a path not yet ending in `/chat/completions` gets
/// `/v1/chat/completions` appended. A text that is not a URL is left as it is. For an
/// `http` or `https` URL, and for a text that is not a URL, the result is normalized
/// already: normalizing it again changes nothing.
pub fn normalize_vcp_url(url: &str) -> (r: String)
    ensures
        r@ == normalize_vcp_url_spec(url@),
        (url_parse_parts(url@) is None || is_http_scheme(url_parse_parts(url@)->0.scheme@))
            ==> normalize_vcp_url_spec(r@) == r@,
{
    match parse_url(url) {
        Some(p) => {
            let path = p.path.as_str();
            if ends_with_str(path, "/chatvcp/completions") {
                proof {
                    reveal_strlit("/chatvcp/completions");
                    reveal_strlit("/chat/completions");
                    lemma_tool_route_no_self_overlap();
                    lemma_replace_all_keeps_ending(
                        path@,
                        "/chatvcp/completions"@,
                        "/chat/completions"@,
                    );
                }
                let np = replace_str(path, "/chatvcp/completions", "/chat/completions");
                match replace_url_path(url, np.as_str()) {
                    Some(u) => {
                        proof {
                            assert(ends_with(np@, "/chat/completions"@));
                            assert(plain_path_suffix("/chat/completions"@));
                            if is_http_scheme(p.scheme@) {
                                lemma_endings_exclusive(url_parse_parts(u@)->0.path@);
                            }
                        }
                        u
                    },
                    None => url.to_string(),
                }
            } else if !ends_with_str(path, "/chat/completions") {
                let np = if ends_with_str(path, "/") {
                    concat2(path, "v1/chat/completions")
                } else {
                    concat2(path, "/v1/chat/completions")
                };
                proof {
                    if ends_with(path@, "/"@) {
                        lemma_appended_ending(path@, "v1/chat/completions"@);
                    } else {
                        lemma_appended_ending(path@, "/v1/chat/completions"@);
                    }
                    lemma_tool_route_no_self_overlap();
                }
                match replace_url_path(url, np.as_str()) {
                    Some(u) => {
                        proof {
                            assert(ends_with(np@, "/chat/completions"@));
                            assert(plain_path_suffix("/chat/completions"@));
                            if is_http_scheme(p.scheme@) {
                                lemma_endings_exclusive(url_parse_parts(u@)->0.path@);
                            }
                        }
                        u
                    },
                    None => url.to_string(),
                }
            } else {
                proof {
                    lemma_endings_exclusive(path@);
                }
                url.to_string()
            }
        },
        None => url.to_string(),
    }
}


// ------------------------------------------------------------------ completion responses

/// The text of a content part when it is a `text` or `output_text` part with a string `text`.
pub open spec fn text_part(t: Seq<char>) -> Option<Seq<char>> {
    match json_parse(t) {
        Some(v) => {
            let ty = field_str(v, "type"@);
            if ty == Some("text"@) || ty == Some("output_text"@) {
                field_str(v, "text"@)
            } else {
                None
            }
        },
        None => None,
    }
}

/// The texts of the text parts among element texts, in order.
pub open spec fn text_parts(items: Seq<String>) -> Seq<Seq<char>>
    decreases items.len(),
{
    if items.len() == 0 {
        Seq::empty()
    } else {
        let p = text_parts(items.drop_last());
        match text_part(items.last()@) {
            Some(t) => p.push(t),
            None => p,
        }
    }
}

/// The text a message content stands for: a string itself, the text parts of an array
/// joined by newlines, the `text` string of an object, or empty.
pub open spec fn text_for_hash(v: JsonNode) -> Seq<char> {
    match v {
        JsonNode::Str(s) => s@,
        JsonNode::Array(items) => join(text_parts(items@), "\n"@),
        JsonNode::Object(_) => match field_str(v, "text"@) {
            Some(t) => t,
            None => Seq::empty(),
        },
        _ => Seq::empty(),
    }
}

/// Extracts the text of a message content (see `text_for_hash`).
pub fn extract_text_for_hash(content: &JsonNode) -> (r: String)
    ensures
        r@ == text_for_hash(*content),
{
    match content {
        JsonNode::Str(s) => s.clone(),
        JsonNode::Array(items) => {
            let mut parts: Vec<String> = Vec::new();
            let mut i: usize = 0;
            while i < items.len()
                invariant
                    i <= items.len(),
                    views(parts@) == text_parts(items@.take(i as int)),
                decreases items.len() - i,
            {
                proof {
                    assert(items@.take(i + 1).drop_last() =~= items@.take(i as int));
                    assert(items@.take(i + 1).last() == items@[i as int]);
                }
                match parse_json(items[i].as_str()) {
                    Ok(v) => {
                        let is_text = match get_field_str(&v, "type") {
                            Some(t) => str_eq(t.as_str(), "text") || str_eq(t.as_str(), "output_text"),
                            None => false,
                        };
                        if is_text {
                            match get_field_str(&v, "text") {
                                Some(t) => {
                                    proof {
                                        lemma_views_push(parts@, t);
                                    }
                                    parts.push(t);
                                },
                                None => {},
                            }
                        }
                    },
                    Err(_) => {},
                }
                i = i + 1;
            }
            assert(items@.take(items.len() as int) =~= items@);
            proof {
                reveal_strlit("\n");
            }
            join_strings(parts.as_slice(), "\n")
        },
        JsonNode::Object(_) => match get_field_str(content, "text") {
            Some(t) => t,
            None => String::new(),
        },
        _ => String::new(),
    }
}

/// A field of an optional value, when present and readable.
pub open spec fn child(v: Option<JsonNode>, key: Seq<char>) -> Option<JsonNode> {
    match v {
        Some(n) => match field(n, key) {
            Some(Some(c)) => Some(c),
            _ => None,
        },
        None => None,
    }
}

/// The text of an optional value when it is not blank.
pub open spec fn non_empty_text(v: Option<JsonNode>) -> Option<Seq<char>> {
    match v {
        Some(n) => if trim(text_for_hash(n)).len() > 0 {
            Some(text_for_hash(n))
        } else {
            None
        },
        None => None,
    }
}

fn child_exec(v: &Option<JsonNode>, key: &str) -> (r: Option<JsonNode>)
    ensures
        r == child(*v, key@),
{
    match v {
        Some(n) => match get_field(n, key) {
            Some(Some(c)) => Some(c),
            _ => None,
        },
        None => None,
    }
}

/// Extracts the text of a value when it is not blank.
pub fn extract_non_empty_text(v: &Option<JsonNode>) -> (r: Option<String>)
    ensures
        match r {
            Some(s) => non_empty_text(*v) == Some(s@),
            None => non_empty_text(*v) is None,
        },
{
    match v {
        Some(n) => {
            let t = extract_text_for_hash(n);
            if is_blank(t.as_str()) {
                None
            } else {
                Some(t)
            }
        },
        None => None,
    }
}

/// The first choice of a completion response (an unreadable one counts as `null`).
pub open spec fn first_choice(response: JsonNode) -> Option<JsonNode> {
    match field(response, "choices"@) {
        Some(Some(JsonNode::Array(items))) => if items@.len() > 0 {
            Some(
                match json_parse(items@[0]@) {
                    Some(c) => c,
                    None => JsonNode::Null,
                },
            )
        } else {
            None
        },
        _ => None,
    }
}

/// What a response without a choice is reported with: its `error` value as JSON text.
pub open spec fn missing_choice_detail(response: JsonNode) -> Seq<char> {
    match response {
        JsonNode::Object(entries) => match entry_text(entries@, "error"@) {
            Some(t) => t@,
            None => "missing choices[0]"@,
        },
        _ => "missing choices[0]"@,
    }
}

pub open spec fn first_some(a: Option<Seq<char>>, b: Option<Seq<char>>) -> Option<Seq<char>> {
    match a {
        Some(x) => Some(x),
        None => b,
    }
}

/// The answer text of a choice: the first non-blank of the message content, the message
/// refusal, the delta content and the choice text.
pub open spec fn choice_content(choice: JsonNode) -> Seq<char> {
    let message = child(Some(choice), "message"@);
    let delta = child(Some(choice), "delta"@);
    match first_some(
        non_empty_text(child(message, "content"@)),
        first_some(
            non_empty_text(child(message, "refusal"@)),
            first_some(
                non_empty_text(child(delta, "content"@)),
                non_empty_text(child(Some(choice), "text"@)),
            ),
        ),
    ) {
        Some(t) => t,
        None => Seq::empty(),
    }
}

/// The first non-blank reasoning text of a value among its three reasoning keys.
pub open spec fn reasoning_of(v: Option<JsonNode>) -> Option<Seq<char>> {
    first_some(
        non_empty_text(child(v, "reasoning_content"@)),
        first_some(
            non_empty_text(child(v, "reasoningContent"@)),
            non_empty_text(child(v, "reasoning"@)),
        ),
    )
}

/// The reasoning of a choice: from its message, else from its delta.
pub open spec fn choice_reasoning(choice: JsonNode) -> Seq<char> {
    match first_some(
        reasoning_of(child(Some(choice), "message"@)),
        reasoning_of(child(Some(choice), "delta"@)),
    ) {
        Some(t) => t,
        None => Seq::empty(),
    }
}

/// Content with the reasoning in front, inside a `<think>` block.
pub open spec fn with_reasoning(reasoning: Seq<char>, content: Seq<char>) -> Seq<char> {
    if reasoning.len() == 0 {
        content
    } else {
        "<think>"@ + reasoning + "</think>"@ + content
    }
}

/// A finish reason as the app records it: `stop` is `completed`.
pub open spec fn finish_reason_spec(choice: JsonNode) -> Option<Seq<char>> {
    match field_str(choice, "finish_reason"@) {
        Some(r) => Some(
            if r == "stop"@ {
                "completed"@
            } else {
                r
            },
        ),
        None => None,
    }
}

pub open spec fn no_choice_prefix() -> Seq<char> {
    "VCP non-stream response did not contain a completion choice: "@
}

pub open spec fn empty_completion_msg() -> Seq<char> {
    "VCP non-stream response contained no assistant content or reasoning"@
}

/// The full content and finish reason of a non-streamed completion, or why there is none.
pub open spec fn completion_spec(response: JsonNode) -> Result<(Seq<char>, Option<Seq<char>>), Seq<char>> {
    match first_choice(response) {
        None => Err(no_choice_prefix() + missing_choice_detail(response)),
        Some(choice) => {
            let full = with_reasoning(choice_reasoning(choice), choice_content(choice));
            if trim(full).len() == 0 {
                Err(empty_completion_msg())
            } else {
                Ok((full, finish_reason_spec(choice)))
            }
        },
    }
}

/// The answer of a non-streamed completion, with the response it was read from.
pub struct NonStreamCompletion {
    pub response: JsonNode,
    pub full_content: String,
    /// Always `false`: nothing was streamed.
    pub streaming_started: bool,
    pub finish_reason: Option<String>,
}

fn first_text(cands: &Vec<Option<JsonNode>>) -> (r: Option<String>)
    ensures
        match r {
            Some(s) => exists|i: int|
                0 <= i < cands@.len() && non_empty_text(cands@[i]) == Some(s@) && forall|j: int|
                    0 <= j < i ==> non_empty_text(#[trigger] cands@[j]) is None,
            None => forall|j: int| 0 <= j < cands@.len() ==> non_empty_text(#[trigger] cands@[j]) is None,
        },
{
    let mut i: usize = 0;
    while i < cands.len()
        invariant
            i <= cands.len(),
            forall|j: int| 0 <= j < i ==> non_empty_text(#[trigger] cands@[j]) is None,
        decreases cands.len() - i,
    {
        match extract_non_empty_text(&cands[i]) {
            Some(t) => {
                return Some(t);
            },
            None => {},
        }
        i = i + 1;
    }
    None
}

fn message_reasoning(v: &Option<JsonNode>) -> (r: Option<String>)
    ensures
        match r {
            Some(s) => reasoning_of(*v) == Some(s@),
            None => reasoning_of(*v) is None,
        },
{
    let mut cands: Vec<Option<JsonNode>> = Vec::new();
    cands.push(child_exec(v, "reasoning_content"));
    cands.push(child_exec(v, "reasoningContent"));
    cands.push(child_exec(v, "reasoning"));
    let r = first_text(&cands);
    proof {
        assert(cands@.len() == 3);
        if r is Some {
            let s = r->0;
            let i = choose|i: int|
                0 <= i < cands@.len() && non_empty_text(cands@[i]) == Some(s@) && forall|j: int|
                    0 <= j < i ==> non_empty_text(#[trigger] cands@[j]) is None;
            if i >= 1 {
                assert(non_empty_text(cands@[0]) is None);
            }
            if i >= 2 {
                assert(non_empty_text(cands@[1]) is None);
            }
        } else {
            assert(non_empty_text(cands@[0]) is None);
            assert(non_empty_text(cands@[1]) is None);
            assert(non_empty_text(cands@[2]) is None);
        }
    }
    r
}

/// Normalizes a non-streamed completion response into its full content (reasoning wrapped
/// in `<think>`) and finish reason, keeping the response itself and marking that streaming
/// never started.
pub fn normalize_non_stream_completion(response: JsonNode) -> (r: Result<NonStreamCompletion, String>)
    ensures
        match (r, completion_spec(response)) {
            (Ok(c), Ok(t)) => c.response == response && !c.streaming_started && c.full_content@
                == t.0 && match (c.finish_reason, t.1) {
                (Some(a), Some(b)) => a@ == b,
                (None, None) => true,
                _ => false,
            },
            (Err(e), Err(m)) => e@ == m,
            _ => false,
        },
{
    let choice: Option<JsonNode> = match get_field(&response, "choices") {
        Some(Some(JsonNode::Array(items))) => {
            if items.len() > 0 {
                match parse_json(items[0].as_str()) {
                    Ok(c) => Some(c),
                    Err(_) => Some(JsonNode::Null),
                }
            } else {
                None
            }
        },
        _ => None,
    };
    let choice = match choice {
        Some(c) => c,
        None => {
            let mut msg = String::from_str(
                "VCP non-stream response did not contain a completion choice: ",
            );
            let detail = match &response {
                JsonNode::Object(entries) => match lookup_entry(entries, "error") {
                    Some(t) => t,
                    None => String::from_str("missing choices[0]"),
                },
                _ => String::from_str("missing choices[0]"),
            };
            append_str(&mut msg, detail.as_str());
            return Err(msg);
        },
    };
    let finish_reason = match get_field_str(&choice, "finish_reason") {
        Some(r) => {
            if str_eq(r.as_str(), "stop") {
                Some(String::from_str("completed"))
            } else {
                Some(r)
            }
        },
        None => None,
    };
    let some_choice = Some(choice);
    let message = child_exec(&some_choice, "message");
    let delta = child_exec(&some_choice, "delta");
    let mut cands: Vec<Option<JsonNode>> = Vec::new();
    cands.push(child_exec(&message, "content"));
    cands.push(child_exec(&message, "refusal"));
    cands.push(child_exec(&delta, "content"));
    cands.push(child_exec(&some_choice, "text"));
    let found = first_text(&cands);
    proof {
        assert(cands@.len() == 4);
        if found is Some {
            let s = found->0;
            let i = choose|i: int|
                0 <= i < cands@.len() && non_empty_text(cands@[i]) == Some(s@) && forall|j: int|
                    0 <= j < i ==> non_empty_text(#[trigger] cands@[j]) is None;
            if i >= 1 {
                assert(non_empty_text(cands@[0]) is None);
            }
            if i >= 2 {
                assert(non_empty_text(cands@[1]) is None);
            }
            if i >= 3 {
                assert(non_empty_text(cands@[2]) is None);
            }
        } else {
            assert(non_empty_text(cands@[0]) is None);
            assert(non_empty_text(cands@[1]) is None);
            assert(non_empty_text(cands@[2]) is None);
            assert(non_empty_text(cands@[3]) is None);
        }
    }
    let content = match found {
        Some(t) => t,
        None => String::new(),
    };
    let reasoning = match message_reasoning(&message) {
        Some(t) => Some(t),
        None => message_reasoning(&delta),
    };
    let reasoning = match reasoning {
        Some(t) => t,
        None => String::new(),
    };
    let full = if reasoning.unicode_len() == 0 {
        content
    } else {
        let mut s = String::from_str("<think>");
        append_str(&mut s, reasoning.as_str());
        append_str(&mut s, "</think>");
        append_str(&mut s, content.as_str());
        s
    };
    if is_blank(full.as_str()) {
        return Err(String::from_str("VCP non-stream response contained no assistant content or reasoning"));
    }
    Ok(NonStreamCompletion { response, full_content: full, streaming_started: false, finish_reason })
}

/// A streamed data event carrying text.
pub struct DataEvent {
    pub kind: String,
    pub message_id: String,
    pub chunk: String,
    pub context: Option<JsonNode>,
}

/// The data event that publishes a non-streamed answer before the terminal event; an
/// answer that is blank is refused.
pub fn non_stream_content_event(
    normalized: &NonStreamCompletion,
    message_id: String,
    context: Option<JsonNode>,
) -> (r: Result<DataEvent, String>)
    ensures
        r is Ok <==> trim(normalized.full_content@).len() > 0,
        r is Ok ==> r->Ok_0.kind@ == "data"@ && r->Ok_0.message_id == message_id
            && r->Ok_0.chunk@ == normalized.full_content@ && r->Ok_0.context == context,
        r is Err ==> r->Err_0@ == "VCP non-stream response normalized to empty content"@,
{
    if is_blank(normalized.full_content.as_str()) {
        return Err(String::from_str("VCP non-stream response normalized to empty content"));
    }
    Ok(
        DataEvent {
            kind: String::from_str("data"),
            message_id,
            chunk: normalized.full_content.clone(),
            context,
        },
    )
}

// ------------------------------------------------------------------ log masking

/// A path segment as logged: a `pw=` segment carries a password and is masked.
pub open spec fn mask_segment(seg: Seq<char>) -> Seq<char> {
    if starts_with(seg, "pw="@) {
        "pw=***"@
    } else {
        seg
    }
}

/// The path of an image URL with its password segments masked, joined without the leading
/// `/` (as `path_segments` splits it and `set_path` receives it).
pub open spec fn masked_path(path: Seq<char>) -> Seq<char> {
    join(split_on(path.drop_first(), '/').map_values(|seg: Seq<char>| mask_segment(seg)), "/"@)
}

/// An image URL as it may be written to the log: the password segments of its path
/// (`/pw=...`) are masked.
pub fn mask_image_url_for_log(url: &str) -> (r: String)
    ensures
        match url_parse_parts(url@) {
            None => r@ == replace_all(url@, "/pw="@, "/pw=***"@),
            Some(p) => if p.path@.len() > 0 && p.path@[0] == '/' {
                url_path_replaced(url@, masked_path(p.path@)) == Some(r@)
            } else {
                url_serialization(url@) == Some(r@)
            },
        },
{
    match parse_url(url) {
        None => {
            proof {
                reveal_strlit("/pw=");
            }
            replace_str(url, "/pw=", "/pw=***")
        },
        Some(parts) => {
            let path = parts.path.as_str();
            if starts_with_str(path, "/") {
                proof {
                    reveal_strlit("/");
                }
                let pv = chars_of(path);
                let rest = string_from_chars(slice_range(pv.as_slice(), 1, pv.len()).as_slice());
                let segments = split_char(rest.as_str(), '/');
                let mut masked: Vec<String> = Vec::new();
                let mut i: usize = 0;
                while i < segments.len()
                    invariant
                        i <= segments.len(),
                        views(masked@) == views(segments@).take(i as int).map_values(
                            |seg: Seq<char>| mask_segment(seg),
                        ),
                    decreases segments.len() - i,
                {
                    let seg = &segments[i];
                    let m = if starts_with_str(seg.as_str(), "pw=") {
                        String::from_str("pw=***")
                    } else {
                        seg.clone()
                    };
                    proof {
                        lemma_views_push(masked@, m);
                        assert(views(segments@).take(i + 1) =~= views(segments@).take(
                            i as int,
                        ).push(seg@));
                    }
                    masked.push(m);
                    proof {
                        assert(views(masked@) =~= views(segments@).take(i + 1).map_values(
                            |seg: Seq<char>| mask_segment(seg),
                        ));
                    }
                    i = i + 1;
                }
                assert(views(segments@).take(segments@.len() as int) =~= views(segments@));
                let joined = join_strings(masked.as_slice(), "/");
                assert(rest@ =~= parts.path@.drop_first());
                assert(views(masked@) =~= split_on(parts.path@.drop_first(), '/').map_values(
                    |seg: Seq<char>| mask_segment(seg),
                ));
                assert(joined@ == masked_path(parts.path@));
                assert(parts.path@.len() > 0 && parts.path@[0] == '/') by {
                    assert(parts.path@.subrange(0, 1)[0] == "/"@[0]);
                }
                match replace_url_path(url, joined.as_str()) {
                    Some(r) => r,
                    None => String::new(),
                }
            } else {
                proof {
                    reveal_strlit("/");
                    if parts.path@.len() > 0 && parts.path@[0] == '/' {
                        assert(parts.path@.subrange(0, 1) =~= "/"@);
                    }
                }
                match serialize_url(url) {
                    Ok(r) => r,
                    Err(_) => String::new(),
                }
            }
        },
    }
}

// ------------------------------------------------------------------ image uploads

/// Only images and videos are uploaded to the image host.
pub fn check_upload_mime(mime: &str) -> (r: Result<(), String>)
    ensures
        r is Ok <==> (starts_with(mime@, "image/"@) || starts_with(mime@, "video/"@)),
        r matches Err(e) ==> e@ == "unsupported media MIME: "@ + mime@,
{
    if !starts_with_str(mime, "image/") && !starts_with_str(mime, "video/") {
        return Err(concat2("unsupported media MIME: ", mime));
    }
    Ok(())
}

/// The error for an upload the host answered with a failing status.
pub fn upload_http_error(status: u16, body: &str) -> (r: String)
    ensures
        r@ == "image host returned HTTP "@ + decimal(status as nat) + ": "@ + trimmed_error_body(
            body@,
        ),
{
    let mut s = String::from_str("image host returned HTTP ");
    push_decimal(&mut s, status as u64);
    append_str(&mut s, ": ");
    let t = trim_upload_error_body(body);
    append_str(&mut s, t.as_str());
    s
}

/// The error for an upload answer that is not the expected JSON.
pub fn upload_parse_error(parse_error: &str, body: &str) -> (r: String)
    ensures
        r@ == "image host JSON parse failed: "@ + parse_error@ + " ("@ + trimmed_error_body(body@)
            + ")"@,
{
    let mut s = String::from_str("image host JSON parse failed: ");
    append_str(&mut s, parse_error);
    append_str(&mut s, " (");
    let t = trim_upload_error_body(body);
    append_str(&mut s, t.as_str());
    append_str(&mut s, ")");
    s
}

/// What an image host answers to an upload.
pub struct ImageUploadResponse {
    pub success: Option<bool>,
    pub url: Option<String>,
    pub key: Option<String>,
    pub error: Option<String>,
}

/// Where an upload went: a failure the host reported gives its error (or a default
/// message); otherwise the location of its `url`, else of its `key`.
pub open spec fn upload_result_spec(c: (Seq<char>, Seq<char>, Seq<char>), r: ImageUploadResponse) -> Result<
    Seq<char>,
    Seq<char>,
> {
    if r.success == Some(false) {
        Err(
            match r.error {
                Some(e) => e@,
                None => "image host reported upload failure"@,
            },
        )
    } else {
        let from_url = match r.url {
            Some(u) => upload_location_spec(c, u@),
            None => None,
        };
        let from_key = match r.key {
            Some(k) => upload_location_spec(c, k@),
            None => None,
        };
        match from_url {
            Some(l) => Ok(l),
            None => match from_key {
                Some(l) => Ok(l),
                None => Err("image host upload response did not include url/key"@),
            },
        }
    }
}

/// Reads where an upload went from the host's answer (see `upload_result_spec`).
pub fn upload_result(config: &ImageHostConfig, response: ImageUploadResponse) -> (r: Result<
    String,
    String,
>)
    ensures
        match (r, upload_result_spec(config_view(*config), response)) {
            (Ok(a), Ok(b)) => a@ == b,
            (Err(a), Err(b)) => a@ == b,
            _ => false,
        },
{
    if response.success == Some(false) {
        return Err(
            match response.error {
                Some(e) => e,
                None => String::from_str("image host reported upload failure"),
            },
        );
    }
    let from_url = match &response.url {
        Some(u) => normalize_image_upload_location(config, u.as_str()),
        None => None,
    };
    match from_url {
        Some(l) => Ok(l),
        None => {
            let from_key = match &response.key {
                Some(k) => normalize_image_upload_location(config, k.as_str()),
                None => None,
            };
            match from_key {
                Some(l) => Ok(l),
                None => Err(String::from_str("image host upload response did not include url/key")),
            }
        },
    }
}

// ------------------------------------------------------------------ connection test

/// The model list a server is tested with: `/v1/models` under `scheme://host[:port]`.
pub open spec fn models_url_spec(p: UrlParts) -> Seq<char> {
    let base = crate::urls::base_of(p);
    if base.len() > 0 && base.last() == '/' {
        base + "v1/models"@
    } else {
        base + "/v1/models"@
    }
}

/// The URL a connection test of a server asks for the model list; a server URL that does
/// not parse is refused with `URL 解析失败: ` and the parser's message.
pub fn models_url(vcp_url: &str) -> (r: Result<String, String>)
    ensures
        r is Ok <==> url_parse_parts(vcp_url@) is Some,
        r matches Ok(u) ==> u@ == models_url_spec(url_parse_parts(vcp_url@)->0),
        r matches Err(e) ==> starts_with(e@, "URL 解析失败: "@),
{
    match parse_url(vcp_url) {
        Some(parts) => {
            let mut s = crate::urls::url_base(&parts);
            let n = s.unicode_len();
            if n > 0 && s.get_char(n - 1) == '/' {
                append_str(&mut s, "v1/models");
            } else {
                append_str(&mut s, "/v1/models");
            }
            Ok(s)
        },
        None => {
            let detail = match serialize_url(vcp_url) {
                Err(e) => e,
                Ok(_) => String::new(),
            };
            let e = concat2("URL 解析失败: ", detail.as_str());
            proof {
                reveal_strlit("URL 解析失败: ");
                assert(e@.subrange(0, "URL 解析失败: "@.len() as int) =~= "URL 解析失败: "@);
            }
            Err(e)
        },
    }
}

/// The number of models a model list reports: the length of its `data` array, 0 when there
/// is none.
pub fn model_count(models: &JsonNode) -> (r: usize)
    ensures
        r == match field(*models, "data"@) {
            Some(Some(JsonNode::Array(items))) => items@.len(),
            _ => 0,
        },
{
    match get_field(models, "data") {
        Some(Some(JsonNode::Array(items))) => items.len(),
        _ => 0,
    }
}

/// The error of a connection test the server refused.
pub fn connection_refused_error(status: u16, body: &str) -> (r: String)
    ensures
        r@ == "验证失败 ("@ + decimal(status as nat) + "): "@ + body@,
{
    let mut s = String::from_str("验证失败 (");
    push_decimal(&mut s, status as u64);
    append_str(&mut s, "): ");
    append_str(&mut s, body);
    s
}

} // verus!
