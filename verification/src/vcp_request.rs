use vstd::prelude::*;
use vstd::string::*;
use crate::json::{JsonNode, json_parse, field, field_str, entry_text, get_field, get_field_str, lookup_entry, parse_json};
use crate::lifecycle_controller::Settings;
use crate::text::{
    append_str, concat2, is_blank, replace_all, replace_str, starts_with, starts_with_str, str_eq,
    trim,
};
use crate::urls::{replace_url_path, url_parse_parts, url_path_replaced};
use crate::vcp_client::{
    normalize_vcp_url, normalize_vcp_url_spec, path_file_name, split_audio_data_url, split_audio_spec,
    std_path_file_name,
};

verus! {

broadcast use vstd::string::group_string_axioms;

// ------------------------------------------------------------------ which message carries images

/// A content part that is a local image file.
pub open spec fn is_local_image_part(t: Seq<char>) -> bool {
    match json_parse(t) {
        Some(p) => field_str(p, "type"@) == Some("local_file"@) && match field_str(p, "mime"@) {
            Some(m) => starts_with(m, "image/"@),
            None => false,
        },
        None => false,
    }
}

/// Some part is a local image file.
pub open spec fn parts_have_local_image(items: Seq<String>) -> bool {
    exists|k: int| 0 <= k < items.len() && #[trigger] is_local_image_part(items[k]@)
}

/// A user message with a local image file among its content parts.
pub open spec fn has_local_image(msg: JsonNode) -> bool {
    field_str(msg, "role"@) == Some("user"@) && match field(msg, "content"@) {
        Some(Some(JsonNode::Array(items))) => parts_have_local_image(items@),
        _ => false,
    }
}

fn is_local_image_part_exec(t: &str) -> (r: bool)
    ensures
        r == is_local_image_part(t@),
{
    match parse_json(t) {
        Ok(p) => {
            let is_file = match get_field_str(&p, "type") {
                Some(ty) => str_eq(ty.as_str(), "local_file"),
                None => false,
            };
            if !is_file {
                return false;
            }
            match get_field_str(&p, "mime") {
                Some(m) => starts_with_str(m.as_str(), "image/"),
                None => false,
            }
        },
        Err(_) => false,
    }
}

fn has_local_image_exec(msg: &JsonNode) -> (r: bool)
    ensures
        r == has_local_image(*msg),
{
    let is_user = match get_field_str(msg, "role") {
        Some(role) => str_eq(role.as_str(), "user"),
        None => false,
    };
    if !is_user {
        return false;
    }
    match get_field(msg, "content") {
        Some(Some(JsonNode::Array(items))) => {
            let mut k: usize = 0;
            while k < items.len()
                invariant
                    k <= items.len(),
                    field(*msg, "content"@) == Some(Some(JsonNode::Array(items))),
                    field_str(*msg, "role"@) == Some("user"@),
                    forall|j: int| 0 <= j < k ==> !is_local_image_part(#[trigger] items@[j]@),
                decreases items.len() - k,
            {
                if is_local_image_part_exec(items[k].as_str()) {
                    assert(is_local_image_part(items@[k as int]@));
                    assert(parts_have_local_image(items@));
                    return true;
                }
                k = k + 1;
            }
            false
        },
        _ => false,
    }
}

/// The last user message that carries a local image: only its images are sent; images of
/// earlier messages are not replayed.
pub fn latest_image_user_message_index(messages: &Vec<JsonNode>) -> (r: Option<usize>)
    ensures
        match r {
            Some(i) => i < messages@.len() && has_local_image(messages@[i as int]) && forall|j: int|
                i < j < messages@.len() ==> !has_local_image(#[trigger] messages@[j]),
            None => forall|j: int| 0 <= j < messages@.len() ==> !has_local_image(#[trigger] messages@[j]),
        },
{
    let mut i: usize = messages.len();
    while i > 0
        invariant
            i <= messages.len(),
            forall|j: int| i <= j < messages@.len() ==> !has_local_image(#[trigger] messages@[j]),
        decreases i,
    {
        if has_local_image_exec(&messages[i - 1]) {
            return Some(i - 1);
        }
        i = i - 1;
    }
    None
}

// ------------------------------------------------------------------ local file parts

/// The extension of a path as `std::path::Path::extension` gives it.
pub uninterp spec fn std_path_extension(path: Seq<char>) -> Option<Seq<char>>;

/// `str::to_lowercase` (full Unicode lowercase mapping).
pub uninterp spec fn std_lowercase(text: Seq<char>) -> Seq<char>;

/// `std::path::Path::extension` (a `&str` path always gives UTF-8).
#[verifier::external_body]
pub(crate) fn path_extension(path: &str) -> (r: Option<String>)
    ensures
        match r {
            Some(s) => std_path_extension(path@) == Some(s@),
            None => std_path_extension(path@) is None,
        },
{
    std::path::Path::new(path).extension().and_then(|e| e.to_str()).map(|e| e.to_string())
}

/// `str::to_lowercase`.
#[verifier::external_body]
fn to_lowercase(text: &str) -> (r: String)
    ensures
        r@ == std_lowercase(text@),
{
    text.to_lowercase()
}

/// The path of a `local_file` part with any `file://` removed.
pub fn local_file_path(path: &str) -> (r: String)
    ensures
        r@ == replace_all(path@, "file://"@, ""@),
{
    proof {
        reveal_strlit("file://");
    }
    replace_str(path, "file://", "")
}

/// The name an attachment is shown under: its non-empty `name`, else the path's non-empty
/// file name, else `附件文件`.
pub open spec fn display_name_spec(name: Option<Seq<char>>, path: Seq<char>) -> Seq<char> {
    match name {
        Some(n) if n.len() > 0 => n,
        _ => match std_path_file_name(path) {
            Some(f) if f.len() > 0 => f,
            _ => "附件文件"@,
        },
    }
}

/// Chooses the name an attachment is shown under.
pub fn attachment_display_name(name: Option<String>, path: &str) -> (r: String)
    ensures
        r@ == display_name_spec(
            match name {
                Some(n) => Some(n@),
                None => None,
            },
            path@,
        ),
{
    match name {
        Some(n) => {
            if n.unicode_len() > 0 {
                return n;
            }
        },
        None => {},
    }
    match path_file_name(path) {
        Some(f) => {
            if f.unicode_len() > 0 {
                return f;
            }
        },
        None => {},
    }
    String::from_str("附件文件")
}

/// The text that stands for an attachment that could not be sent as media.
pub fn attachment_fallback_text(display_name: &str) -> (r: String)
    ensures
        r@ == "[附件文件: "@ + display_name@ + "]"@,
{
    let mut s = String::from_str("[附件文件: ");
    append_str(&mut s, display_name);
    append_str(&mut s, "]");
    s
}

pub open spec fn is_image_ext(e: Seq<char>) -> bool {
    e == "png"@ || e == "jpg"@ || e == "jpeg"@ || e == "webp"@ || e == "gif"@ || e == "bmp"@ || e
        == "tiff"@ || e == "tif"@ || e == "heic"@ || e == "heif"@ || e == "avif"@ || e == "ico"@
}

pub open spec fn is_audio_ext(e: Seq<char>) -> bool {
    e == "mp3"@ || e == "wav"@ || e == "ogg"@ || e == "flac"@ || e == "aac"@ || e == "m4a"@ || e
        == "opus"@ || e == "wma"@ || e == "amr"@ || e == "aiff"@ || e == "aif"@
}

pub open spec fn is_video_ext(e: Seq<char>) -> bool {
    e == "mp4"@ || e == "mkv"@ || e == "webm"@ || e == "avi"@ || e == "mov"@ || e == "flv"@ || e
        == "m4v"@ || e == "3gp"@ || e == "3g2"@ || e == "wmv"@ || e == "ts"@ || e == "mts"@ || e
        == "m2ts"@ || e == "qt"@
}

/// The kind of media an attachment is: by its declared type when that is image, audio or
/// video, else by its lowercased extension.
pub open spec fn media_kind_spec(declared: Seq<char>, ext: Seq<char>) -> Seq<char> {
    if starts_with(declared, "image/"@) {
        "image"@
    } else if starts_with(declared, "audio/"@) {
        "audio"@
    } else if starts_with(declared, "video/"@) {
        "video"@
    } else if is_image_ext(ext) {
        "image"@
    } else if is_audio_ext(ext) {
        "audio"@
    } else if is_video_ext(ext) {
        "video"@
    } else {
        "application"@
    }
}

fn in_list(e: &str, list: &[&str]) -> (r: bool)
    ensures
        r == exists|k: int| 0 <= k < list@.len() && list@[k]@ == e@,
{
    let mut k: usize = 0;
    while k < list.len()
        invariant
            k <= list.len(),
            forall|j: int| 0 <= j < k ==> list@[j]@ != e@,
        decreases list.len() - k,
    {
        if str_eq(list[k], e) {
            return true;
        }
        k = k + 1;
    }
    false
}

/// The kind of media an attachment at `path` with the declared type is.
pub fn attachment_media_kind(declared_mime: &str, path: &str) -> (r: String)
    ensures
        r@ == media_kind_spec(
            declared_mime@,
            match std_path_extension(path@) {
                Some(e) => std_lowercase(e),
                None => std_lowercase(""@),
            },
        ),
{
    let raw = match path_extension(path) {
        Some(e) => e,
        None => String::new(),
    };
    let ext = to_lowercase(raw.as_str());
    let e = ext.as_str();
    proof {
        reveal_strlit("");
        assert(""@ =~= Seq::<char>::empty());
        assert(ext@ == match std_path_extension(path@) {
            Some(e) => std_lowercase(e),
            None => std_lowercase(""@),
        });
    }
    if starts_with_str(declared_mime, "image/") {
        return String::from_str("image");
    }
    if starts_with_str(declared_mime, "audio/") {
        return String::from_str("audio");
    }
    if starts_with_str(declared_mime, "video/") {
        return String::from_str("video");
    }
    let images = ["png", "jpg", "jpeg", "webp", "gif", "bmp", "tiff", "tif", "heic", "heif", "avif", "ico"];
    let audios = ["mp3", "wav", "ogg", "flac", "aac", "m4a", "opus", "wma", "amr", "aiff", "aif"];
    let videos = ["mp4", "mkv", "webm", "avi", "mov", "flv", "m4v", "3gp", "3g2", "wmv", "ts", "mts", "m2ts", "qt"];
    let is_image = in_list(e, &images);
    let is_audio = in_list(e, &audios);
    let is_video = in_list(e, &videos);
    proof {
        assert(is_image == is_image_ext(e@)) by {
            if is_image_ext(e@) {
                if e@ == "png"@ { assert(images@[0]@ == e@); }
                if e@ == "jpg"@ { assert(images@[1]@ == e@); }
                if e@ == "jpeg"@ { assert(images@[2]@ == e@); }
                if e@ == "webp"@ { assert(images@[3]@ == e@); }
                if e@ == "gif"@ { assert(images@[4]@ == e@); }
                if e@ == "bmp"@ { assert(images@[5]@ == e@); }
                if e@ == "tiff"@ { assert(images@[6]@ == e@); }
                if e@ == "tif"@ { assert(images@[7]@ == e@); }
                if e@ == "heic"@ { assert(images@[8]@ == e@); }
                if e@ == "heif"@ { assert(images@[9]@ == e@); }
                if e@ == "avif"@ { assert(images@[10]@ == e@); }
                if e@ == "ico"@ { assert(images@[11]@ == e@); }
            }
        }
        assert(is_audio == is_audio_ext(e@)) by {
            if is_audio_ext(e@) {
                if e@ == "mp3"@ { assert(audios@[0]@ == e@); }
                if e@ == "wav"@ { assert(audios@[1]@ == e@); }
                if e@ == "ogg"@ { assert(audios@[2]@ == e@); }
                if e@ == "flac"@ { assert(audios@[3]@ == e@); }
                if e@ == "aac"@ { assert(audios@[4]@ == e@); }
                if e@ == "m4a"@ { assert(audios@[5]@ == e@); }
                if e@ == "opus"@ { assert(audios@[6]@ == e@); }
                if e@ == "wma"@ { assert(audios@[7]@ == e@); }
                if e@ == "amr"@ { assert(audios@[8]@ == e@); }
                if e@ == "aiff"@ { assert(audios@[9]@ == e@); }
                if e@ == "aif"@ { assert(audios@[10]@ == e@); }
            }
        }
        assert(is_video == is_video_ext(e@)) by {
            if is_video_ext(e@) {
                if e@ == "mp4"@ { assert(videos@[0]@ == e@); }
                if e@ == "mkv"@ { assert(videos@[1]@ == e@); }
                if e@ == "webm"@ { assert(videos@[2]@ == e@); }
                if e@ == "avi"@ { assert(videos@[3]@ == e@); }
                if e@ == "mov"@ { assert(videos@[4]@ == e@); }
                if e@ == "flv"@ { assert(videos@[5]@ == e@); }
                if e@ == "m4v"@ { assert(videos@[6]@ == e@); }
                if e@ == "3gp"@ { assert(videos@[7]@ == e@); }
                if e@ == "3g2"@ { assert(videos@[8]@ == e@); }
                if e@ == "wmv"@ { assert(videos@[9]@ == e@); }
                if e@ == "ts"@ { assert(videos@[10]@ == e@); }
                if e@ == "mts"@ { assert(videos@[11]@ == e@); }
                if e@ == "m2ts"@ { assert(videos@[12]@ == e@); }
                if e@ == "qt"@ { assert(videos@[13]@ == e@); }
            }
        }
    }
    if is_image {
        String::from_str("image")
    } else if is_audio {
        String::from_str("audio")
    } else if is_video {
        String::from_str("video")
    } else {
        String::from_str("application")
    }
}

// ------------------------------------------------------------------ message contents

/// What happens to a message's content before it is sent.
pub enum ContentRewrite {
    /// Left as it is (a string, `null`, or absent).
    Keep,
    /// An array of parts, each processed in turn.
    Parts,
    /// Replaced by the JSON value with this text (an object's `text` value).
    Json(String),
    /// Replaced by this string (the JSON text of a value that is not a string).
    Text(String),
}

/// How a message's content is rewritten: arrays part by part; an object by its `text`
/// value, or by its own JSON text as a string; a boolean or number by its JSON text as a
/// string; strings, `null` and absent contents stay.
pub open spec fn content_rewrite_spec(msg: JsonNode) -> (int, Seq<char>) {
    match msg {
        JsonNode::Object(entries) => match entry_text(entries@, "content"@) {
            Some(t) => match json_parse(t@) {
                Some(JsonNode::Array(_)) => (1, Seq::empty()),
                Some(JsonNode::Object(inner)) => match entry_text(inner@, "text"@) {
                    Some(x) => (2, x@),
                    None => (3, t@),
                },
                Some(JsonNode::Bool(_)) => (3, t@),
                Some(JsonNode::Number(_)) => (3, t@),
                _ => (0, Seq::empty()),
            },
            None => (0, Seq::empty()),
        },
        _ => (0, Seq::empty()),
    }
}

pub open spec fn rewrite_view(r: ContentRewrite) -> (int, Seq<char>) {
    match r {
        ContentRewrite::Keep => (0, Seq::empty()),
        ContentRewrite::Parts => (1, Seq::empty()),
        ContentRewrite::Json(s) => (2, s@),
        ContentRewrite::Text(s) => (3, s@),
    }
}

/// Decides how a message's content is rewritten (see `content_rewrite_spec`).
pub fn content_rewrite(msg: &JsonNode) -> (r: ContentRewrite)
    ensures
        rewrite_view(r) == content_rewrite_spec(*msg),
{
    match msg {
        JsonNode::Object(entries) => match lookup_entry(entries, "content") {
            Some(t) => match parse_json(t.as_str()) {
                Ok(JsonNode::Array(_)) => ContentRewrite::Parts,
                Ok(JsonNode::Object(inner)) => match lookup_entry(&inner, "text") {
                    Some(x) => ContentRewrite::Json(x),
                    None => ContentRewrite::Text(t),
                },
                Ok(JsonNode::Bool(_)) => ContentRewrite::Text(t),
                Ok(JsonNode::Number(_)) => ContentRewrite::Text(t),
                _ => ContentRewrite::Keep,
            },
            None => ContentRewrite::Keep,
        },
        _ => ContentRewrite::Keep,
    }
}

// ------------------------------------------------------------------ routing

/// Whether the settings turn on VCP tool injection (`enableVcpToolInjection`, off by default).
pub open spec fn tool_injection_spec(settings: Settings) -> bool {
    match field(settings.extra, "enableVcpToolInjection"@) {
        Some(Some(JsonNode::Bool(b))) => b,
        _ => false,
    }
}

pub fn tool_injection_enabled(settings: &Settings) -> (r: bool)
    ensures
        r == tool_injection_spec(*settings),
{
    match get_field(&settings.extra, "enableVcpToolInjection") {
        Some(Some(JsonNode::Bool(b))) => b,
        _ => false,
    }
}

/// A content part that is an inline base64 image (`image_url.url` starting `data:image/`).
pub open spec fn is_inline_image_part(t: Seq<char>) -> bool {
    match json_parse(t) {
        Some(p) => match field(p, "image_url"@) {
            Some(Some(img)) => match field_str(img, "url"@) {
                Some(u) => starts_with(u, "data:image/"@),
                None => false,
            },
            _ => false,
        },
        None => false,
    }
}

/// Some part is an inline base64 image.
pub open spec fn parts_have_inline_image(items: Seq<String>) -> bool {
    exists|k: int| 0 <= k < items.len() && #[trigger] is_inline_image_part(items[k]@)
}

pub open spec fn message_has_inline_image(msg: JsonNode) -> bool {
    match field(msg, "content"@) {
        Some(Some(JsonNode::Array(items))) => parts_have_inline_image(items@),
        _ => false,
    }
}

fn is_inline_image_part_exec(t: &str) -> (r: bool)
    ensures
        r == is_inline_image_part(t@),
{
    match parse_json(t) {
        Ok(p) => match get_field(&p, "image_url") {
            Some(Some(img)) => match get_field_str(&img, "url") {
                Some(u) => starts_with_str(u.as_str(), "data:image/"),
                None => false,
            },
            _ => false,
        },
        Err(_) => false,
    }
}

fn message_has_inline_image_exec(msg: &JsonNode) -> (r: bool)
    ensures
        r == message_has_inline_image(*msg),
{
    match get_field(msg, "content") {
        Some(Some(JsonNode::Array(items))) => {
            let mut k: usize = 0;
            while k < items.len()
                invariant
                    k <= items.len(),
                    field(*msg, "content"@) == Some(Some(JsonNode::Array(items))),
                    forall|j: int| 0 <= j < k ==> !is_inline_image_part(#[trigger] items@[j]@),
                decreases items.len() - k,
            {
                if is_inline_image_part_exec(items[k].as_str()) {
                    assert(is_inline_image_part(items@[k as int]@));
                    assert(parts_have_inline_image(items@));
                    return true;
                }
                k = k + 1;
            }
            false
        },
        _ => false,
    }
}

/// Whether any message carries an inline base64 image.
pub fn has_inline_images(messages: &Vec<JsonNode>) -> (r: bool)
    ensures
        r == exists|i: int| 0 <= i < messages@.len() && #[trigger] message_has_inline_image(messages@[i]),
{
    let mut i: usize = 0;
    while i < messages.len()
        invariant
            i <= messages.len(),
            forall|j: int| 0 <= j < i ==> !message_has_inline_image(#[trigger] messages@[j]),
        decreases messages.len() - i,
    {
        if message_has_inline_image_exec(&messages[i]) {
            assert(message_has_inline_image(messages@[i as int]));
            return true;
        }
        i = i + 1;
    }
    false
}

/// The URL a chat request goes to: the tool route `/v1/chatvcp/completions` when tool
/// injection is on and no inline image must be preserved (the URL as given if it does not
/// parse), else the standard completions URL.
pub open spec fn request_url_spec(vcp_url: Seq<char>, inject: bool, inline_images: bool) -> Seq<char> {
    if inject && !inline_images {
        match url_path_replaced(vcp_url, "/v1/chatvcp/completions"@) {
            Some(u) => u,
            None => vcp_url,
        }
    } else {
        normalize_vcp_url_spec(vcp_url)
    }
}

/// Without tool injection a request goes to the normalized standard completions URL,
/// whatever the images; with an inline image to keep it does too; only tool injection
/// without inline images routes it to `/v1/chatvcp/completions` (the URL as given when it
/// does not parse).
pub proof fn lemma_tool_route_only_when_injecting(vcp_url: Seq<char>, inject: bool, inline_images: bool)
    ensures
        !inject ==> request_url_spec(vcp_url, inject, inline_images) == normalize_vcp_url_spec(
            vcp_url,
        ),
        inline_images ==> request_url_spec(vcp_url, inject, inline_images)
            == normalize_vcp_url_spec(vcp_url),
        inject && !inline_images ==> request_url_spec(vcp_url, inject, inline_images) == (
        match url_path_replaced(vcp_url, "/v1/chatvcp/completions"@) {
            Some(u) => u,
            None => vcp_url,
        }),
{
}

pub fn request_url(vcp_url: &str, inject: bool, inline_images: bool) -> (r: String)
    ensures
        r@ == request_url_spec(vcp_url@, inject, inline_images),
        !inject ==> r@ == normalize_vcp_url_spec(vcp_url@),
{
    if inject && !inline_images {
        match replace_url_path(vcp_url, "/v1/chatvcp/completions") {
            Some(u) => u,
            None => vcp_url.to_string(),
        }
    } else {
        normalize_vcp_url(vcp_url)
    }
}

/// Whether a system message is present (else an empty one is put first).
pub fn has_system_message(messages: &Vec<JsonNode>) -> (r: bool)
    ensures
        r == exists|i: int| 0 <= i < messages@.len() && field_str(#[trigger] messages@[i], "role"@) == Some("system"@),
{
    let mut i: usize = 0;
    while i < messages.len()
        invariant
            i <= messages.len(),
            forall|j: int| 0 <= j < i ==> field_str(#[trigger] messages@[j], "role"@) != Some("system"@),
        decreases messages.len() - i,
    {
        match get_field_str(&messages[i], "role") {
            Some(role) => {
                if str_eq(role.as_str(), "system") {
                    return true;
                }
            },
            None => {},
        }
        i = i + 1;
    }
    false
}

/// Whether the model configuration asks for streaming (`stream`, off by default).
pub fn stream_requested(model_config: &JsonNode) -> (r: bool)
    ensures
        r == match field(*model_config, "stream"@) {
            Some(Some(JsonNode::Bool(b))) => b,
            _ => false,
        },
{
    match get_field(model_config, "stream") {
        Some(Some(JsonNode::Bool(b))) => b,
        _ => false,
    }
}

// ------------------------------------------------------------------ attachment outcomes

/// How the conversion of an attachment's file ended.
pub enum Conversion {
    /// The file was missing, or its kind is not converted.
    NotAttempted,
    /// The converted data URL.
    Converted(String),
    /// The conversion reported an error.
    Failed(String),
    /// The task running the conversion did not finish.
    Crashed(String),
}

/// What a `local_file` part of a request becomes.
pub enum AttachmentAction {
    /// A historical image: left out of the replayed request.
    Skip,
    /// An `image_url` part with the data URL (`detail: high`).
    Image(String),
    /// An `image_url` part with the video's data URL.
    Video(String),
    /// An `input_audio` part: bare base64 and format.
    Audio(String, String),
    /// A text part standing for the attachment.
    Text(String),
    /// The request is not sent: the newest message's image could not be converted.
    Refuse(String),
}

/// Historical images are not converted and sent again: only the newest user message's
/// declared images are.
pub fn skips_attachment(declared_is_image: bool, is_latest_user_message: bool) -> (r: bool)
    ensures
        r == (declared_is_image && !is_latest_user_message),
{
    declared_is_image && !is_latest_user_message
}

pub open spec fn refuse_unconverted_spec(name: Seq<char>) -> Seq<char> {
    "图片附件“"@ + name + "”未能转换为 Base64，消息未发送；请重新选择图片后重试"@
}

/// What an attachment that was not skipped becomes (as `action_view` shows it), from its
/// kind (`image`, `video`, `audio` or another), its shown name, whether it declared an image
/// type, whether it belongs to the newest user message with images, and how its conversion
/// ended.
pub open spec fn attachment_action_spec(
    kind: Seq<char>,
    name: Seq<char>,
    declared_is_image: bool,
    is_latest: bool,
    conversion: Conversion,
) -> (int, Seq<char>, Seq<char>) {
    let fallback = "[附件文件: "@ + name + "]"@;
    let refuse = (5int, refuse_unconverted_spec(name), Seq::<char>::empty());
    let text_or_refuse = |t: Seq<char>|
        if declared_is_image && is_latest {
            refuse
        } else {
            (4int, t, Seq::<char>::empty())
        };
    if kind == "image"@ {
        match conversion {
            Conversion::Converted(url) => (1, url@, Seq::empty()),
            Conversion::Failed(e) => if is_latest {
                (5, "图片附件“"@ + name + "”转换为 Base64 失败，消息未发送："@ + e@, Seq::empty())
            } else {
                text_or_refuse(fallback)
            },
            Conversion::Crashed(e) => if is_latest {
                (5, "图片附件“"@ + name + "”转换任务失败，消息未发送："@ + e@, Seq::empty())
            } else {
                text_or_refuse(fallback)
            },
            Conversion::NotAttempted => text_or_refuse(fallback),
        }
    } else if kind == "video"@ {
        match conversion {
            Conversion::Converted(url) => (2, url@, Seq::empty()),
            Conversion::Failed(e) => text_or_refuse(
                "[视频附件发送失败: "@ + name + "] (原因: "@ + e@ + ")"@,
            ),
            Conversion::Crashed(e) => text_or_refuse(
                "[视频附件发送失败: "@ + name + "] (原因: "@ + e@ + ")"@,
            ),
            Conversion::NotAttempted => text_or_refuse(fallback),
        }
    } else if kind == "audio"@ {
        match conversion {
            Conversion::Converted(url) => (3, split_audio_spec(url@).0, split_audio_spec(url@).1),
            _ => text_or_refuse(fallback),
        }
    } else {
        text_or_refuse(fallback)
    }
}

/// Compares two actions by the characters of the texts they carry.
pub open spec fn action_view(a: AttachmentAction) -> (int, Seq<char>, Seq<char>) {
    match a {
        AttachmentAction::Skip => (0, Seq::empty(), Seq::empty()),
        AttachmentAction::Image(u) => (1, u@, Seq::empty()),
        AttachmentAction::Video(u) => (2, u@, Seq::empty()),
        AttachmentAction::Audio(d, f) => (3, d@, f@),
        AttachmentAction::Text(t) => (4, t@, Seq::empty()),
        AttachmentAction::Refuse(e) => (5, e@, Seq::empty()),
    }
}


fn unconverted_action(name: &str, declared_is_image: bool, is_latest: bool, fallback: String) -> (r:
    AttachmentAction)
    ensures
        action_view(r) == (if declared_is_image && is_latest {
            (5int, refuse_unconverted_spec(name@), Seq::<char>::empty())
        } else {
            (4int, fallback@, Seq::<char>::empty())
        }),
{
    if declared_is_image && is_latest {
        let mut s = String::from_str("图片附件“");
        append_str(&mut s, name);
        append_str(&mut s, "”未能转换为 Base64，消息未发送；请重新选择图片后重试");
        AttachmentAction::Refuse(s)
    } else {
        AttachmentAction::Text(fallback)
    }
}

fn video_failure_text(name: &str, e: &str) -> (r: String)
    ensures
        r@ == "[视频附件发送失败: "@ + name@ + "] (原因: "@ + e@ + ")"@,
{
    let mut s = String::from_str("[视频附件发送失败: ");
    append_str(&mut s, name);
    append_str(&mut s, "] (原因: ");
    append_str(&mut s, e);
    append_str(&mut s, ")");
    s
}

/// Decides what an attachment that was not skipped becomes (see `attachment_action_spec`).
pub fn attachment_action(
    kind: &str,
    display_name: &str,
    declared_is_image: bool,
    is_latest_user_message: bool,
    conversion: Conversion,
) -> (r: AttachmentAction)
    ensures
        action_view(r) == attachment_action_spec(
            kind@,
            display_name@,
            declared_is_image,
            is_latest_user_message,
            conversion,
        ),
{
    let fallback = attachment_fallback_text(display_name);
    if str_eq(kind, "image") {
        match conversion {
            Conversion::Converted(url) => AttachmentAction::Image(url),
            Conversion::Failed(e) => {
                if is_latest_user_message {
                    let mut s = String::from_str("图片附件“");
                    append_str(&mut s, display_name);
                    append_str(&mut s, "”转换为 Base64 失败，消息未发送：");
                    append_str(&mut s, e.as_str());
                    AttachmentAction::Refuse(s)
                } else {
                    unconverted_action(display_name, declared_is_image, false, fallback)
                }
            },
            Conversion::Crashed(e) => {
                if is_latest_user_message {
                    let mut s = String::from_str("图片附件“");
                    append_str(&mut s, display_name);
                    append_str(&mut s, "”转换任务失败，消息未发送：");
                    append_str(&mut s, e.as_str());
                    AttachmentAction::Refuse(s)
                } else {
                    unconverted_action(display_name, declared_is_image, false, fallback)
                }
            },
            Conversion::NotAttempted => unconverted_action(
                display_name,
                declared_is_image,
                is_latest_user_message,
                fallback,
            ),
        }
    } else if str_eq(kind, "video") {
        match conversion {
            Conversion::Converted(url) => AttachmentAction::Video(url),
            Conversion::Failed(e) => unconverted_action(
                display_name,
                declared_is_image,
                is_latest_user_message,
                video_failure_text(display_name, e.as_str()),
            ),
            Conversion::Crashed(e) => unconverted_action(
                display_name,
                declared_is_image,
                is_latest_user_message,
                video_failure_text(display_name, e.as_str()),
            ),
            Conversion::NotAttempted => unconverted_action(
                display_name,
                declared_is_image,
                is_latest_user_message,
                fallback,
            ),
        }
    } else if str_eq(kind, "audio") {
        match conversion {
            Conversion::Converted(url) => {
                let (data, format) = split_audio_data_url(url.as_str());
                AttachmentAction::Audio(data, format)
            },
            _ => unconverted_action(display_name, declared_is_image, is_latest_user_message, fallback),
        }
    } else {
        unconverted_action(display_name, declared_is_image, is_latest_user_message, fallback)
    }
}

} // verus!
