use vstd::prelude::*;
use vstd::string::*;
use vstd::utf8::*;
use crate::json::{JsonNode, json_parse, field, field_str, get_field, get_field_str, parse_json};
use crate::batch_diff_handler::text_as_str;
use crate::lifecycle_controller::Settings;
use crate::text::{append_str, concat2, decimal, is_blank, push_decimal, starts_with, trim, views};
use crate::urls::{
    UrlParts, base_of, encode_path_segment, parse_url, path_segment_safe, percent_encode_spec,
    url_base, url_parse_parts,
};

verus! {

broadcast use vstd::string::group_string_axioms;

/// One diary of a notebook, as the server lists it.
pub struct DiaryNote {
    pub name: String,
    pub last_modified: String,
    pub preview: String,
}

/// A diary named by its notebook and file.
pub struct DiaryNoteRef {
    pub folder: String,
    pub file: String,
}

/// Where the admin API lives and the credentials it is called with.
pub struct AdminCtx {
    pub base: String,
    pub user: String,
    pub pass: String,
}

pub open spec fn server_missing_msg() -> Seq<char> {
    "VCP 服务器地址未配置，请在 设置 → 服务器连接 中填写"@
}

pub open spec fn credentials_missing_msg() -> Seq<char> {
    "管理员账号或密码未配置，请在 设置 → 数据同步 中填写管理员账号和密码"@
}

pub open spec fn invalid_server_msg() -> Seq<char> {
    "VCP 服务器地址无效"@
}

/// The admin context that the settings give: the server URL must be set, both admin
/// credentials must be set, and the URL must parse; the base is its `scheme://host[:port]`.
pub open spec fn admin_ctx_spec(s: Settings) -> Result<(Seq<char>, Seq<char>, Seq<char>), Seq<char>> {
    if s.vcp_server_url@.len() == 0 {
        Err(server_missing_msg())
    } else if s.admin_username@.len() == 0 || s.admin_password@.len() == 0 {
        Err(credentials_missing_msg())
    } else {
        match url_parse_parts(s.vcp_server_url@) {
            Some(p) => Ok((base_of(p), s.admin_username@, s.admin_password@)),
            None => Err(invalid_server_msg()),
        }
    }
}

/// Checks the settings and derives the admin API context from them.
pub fn admin_ctx(settings: &Settings) -> (r: Result<AdminCtx, String>)
    ensures
        match (r, admin_ctx_spec(*settings)) {
            (Ok(c), Ok(t)) => c.base@ == t.0 && c.user@ == t.1 && c.pass@ == t.2,
            (Err(e), Err(m)) => e@ == m,
            _ => false,
        },
{
    if settings.vcp_server_url.unicode_len() == 0 {
        return Err(String::from_str("VCP 服务器地址未配置，请在 设置 → 服务器连接 中填写"));
    }
    if settings.admin_username.unicode_len() == 0 || settings.admin_password.unicode_len() == 0 {
        return Err(
            String::from_str("管理员账号或密码未配置，请在 设置 → 数据同步 中填写管理员账号和密码"),
        );
    }
    match parse_url(settings.vcp_server_url.as_str()) {
        Some(p) => Ok(
            AdminCtx {
                base: url_base(&p),
                user: settings.admin_username.clone(),
                pass: settings.admin_password.clone(),
            },
        ),
        None => Err(String::from_str("VCP 服务器地址无效")),
    }
}

/// The URL of an admin diary endpoint.
pub fn diary_url(ctx: &AdminCtx, suffix: &str) -> (r: String)
    ensures
        r@ == ctx.base@ + "/admin_api/dailynotes"@ + suffix@,
{
    let mut s = ctx.base.clone();
    append_str(&mut s, "/admin_api/dailynotes");
    append_str(&mut s, suffix);
    s
}

/// A path segment as the diary endpoints expect it.
pub open spec fn enc(seg: Seq<char>) -> Seq<char> {
    percent_encode_spec(encode_utf8(seg), |b: u8| path_segment_safe(b))
}

/// `/folder/{folder}` with the notebook name encoded.
pub fn folder_suffix(folder: &str) -> (r: String)
    ensures
        r@ == "/folder/"@ + enc(folder@),
{
    let e = encode_path_segment(folder);
    concat2("/folder/", e.as_str())
}

/// `/note/{folder}/{file}` with both names encoded.
pub fn note_suffix(folder: &str, file: &str) -> (r: String)
    ensures
        r@ == "/note/"@ + enc(folder@) + "/"@ + enc(file@),
{
    let mut s = String::from_str("/note/");
    let f = encode_path_segment(folder);
    append_str(&mut s, f.as_str());
    append_str(&mut s, "/");
    let n = encode_path_segment(file);
    append_str(&mut s, n.as_str());
    s
}

/// The message a failed response carries: its JSON `message` string, else its `error` string.
pub open spec fn server_message(text: Seq<char>) -> Option<Seq<char>> {
    match json_parse(text) {
        Some(v) => match field_str(v, "message"@) {
            Some(m) => Some(m),
            None => field_str(v, "error"@),
        },
        None => None,
    }
}

/// Interprets an admin API response. A failed status gives the server's message, else
/// `接口返回 {status} — {url}`; an empty (blank) body is `null`; any other body must be JSON.
pub fn interpret_admin_response(success: bool, status: &str, url: &str, text: &str) -> (r: Result<
    JsonNode,
    String,
>)
    ensures
        !success ==> r is Err && r->Err_0@ == match server_message(text@) {
            Some(m) => m,
            None => "接口返回 "@ + status@ + " — "@ + url@,
        },
        success && trim(text@).len() == 0 ==> r == Ok::<JsonNode, String>(JsonNode::Null),
        success && trim(text@).len() > 0 ==> (r is Ok <==> json_parse(text@) is Some),
        success && trim(text@).len() > 0 && r is Ok ==> r->Ok_0 == json_parse(text@)->0,
        success && r is Err ==> starts_with(r->Err_0@, "解析响应失败: "@),
{
    if !success {
        let msg = match parse_json(text) {
            Ok(v) => match get_field_str(&v, "message") {
                Some(m) => Some(m),
                None => get_field_str(&v, "error"),
            },
            Err(_) => None,
        };
        return match msg {
            Some(m) => Err(m),
            None => {
                let mut s = String::from_str("接口返回 ");
                append_str(&mut s, status);
                append_str(&mut s, " — ");
                append_str(&mut s, url);
                Err(s)
            },
        };
    }
    if is_blank(text) {
        return Ok(JsonNode::Null);
    }
    match parse_json(text) {
        Ok(v) => Ok(v),
        Err(e) => {
            let mut s = String::from_str("解析响应失败: ");
            let ghost prefix = s@;
            append_str(&mut s, e.as_str());
            assert(s@.subrange(0, prefix.len() as int) =~= prefix);
            Err(s)
        },
    }
}

/// The string values among element texts, in order; the others are skipped.
pub open spec fn strings_among(items: Seq<String>) -> Seq<Seq<char>>
    decreases items.len(),
{
    if items.len() == 0 {
        Seq::empty()
    } else {
        let p = strings_among(items.drop_last());
        match text_as_str(items.last()@) {
            Some(s) => p.push(s),
            None => p,
        }
    }
}

/// The notebooks listed by a `/folders` response: the strings of its `folders` array.
pub open spec fn folders_spec(v: JsonNode) -> Seq<Seq<char>> {
    match field(v, "folders"@) {
        Some(Some(JsonNode::Array(items))) => strings_among(items@),
        _ => Seq::empty(),
    }
}

/// Reads the notebook names of a `/folders` response; entries that are not strings are
/// skipped and a missing list is empty.
pub fn folders_from_response(v: &JsonNode) -> (r: Vec<String>)
    ensures
        views(r@) == folders_spec(*v),
{
    let mut out: Vec<String> = Vec::new();
    match get_field(v, "folders") {
        Some(Some(JsonNode::Array(items))) => {
            let mut i: usize = 0;
            while i < items.len()
                invariant
                    i <= items.len(),
                    views(out@) == strings_among(items@.take(i as int)),
                decreases items.len() - i,
            {
                proof {
                    assert(items@.take(i + 1).drop_last() =~= items@.take(i as int));
                    assert(items@.take(i + 1).last() == items@[i as int]);
                }
                match parse_json(items[i].as_str()) {
                    Ok(JsonNode::Str(s)) => {
                        proof {
                            crate::text::lemma_views_push(out@, s);
                        }
                        out.push(s);
                    },
                    _ => {},
                }
                i = i + 1;
            }
            assert(items@.take(items.len() as int) =~= items@);
        },
        _ => {},
    }
    out
}

/// The three text fields of a diary entry, as `serde` fills `DiaryNote` from a JSON value:
/// an object needs a string `name`, and `lastModified` and `preview` default to empty but
/// must be strings when present; an array gives the fields in that order, one to three of
/// them, all strings.
pub open spec fn diary_note_spec(text: Seq<char>) -> Option<(Seq<char>, Seq<char>, Seq<char>)> {
    match json_parse(text) {
        Some(JsonNode::Object(entries)) => {
            let v = JsonNode::Object(entries);
            let name = field_str(v, "name"@);
            let lm_ok = field(v, "lastModified"@) is None || field_str(v, "lastModified"@) is Some;
            let pv_ok = field(v, "preview"@) is None || field_str(v, "preview"@) is Some;
            if name is Some && lm_ok && pv_ok {
                Some(
                    (
                        name->0,
                        match field_str(v, "lastModified"@) {
                            Some(s) => s,
                            None => Seq::empty(),
                        },
                        match field_str(v, "preview"@) {
                            Some(s) => s,
                            None => Seq::empty(),
                        },
                    ),
                )
            } else {
                None
            }
        },
        Some(JsonNode::Array(items)) => {
            let n = items@.len();
            if 1 <= n <= 3 && (forall|k: int| 0 <= k < n ==> (#[trigger] text_as_str(items@[k]@)) is Some) {
                Some(
                    (
                        text_as_str(items@[0]@)->0,
                        if n >= 2 {
                            text_as_str(items@[1]@)->0
                        } else {
                            Seq::empty()
                        },
                        if n >= 3 {
                            text_as_str(items@[2]@)->0
                        } else {
                            Seq::empty()
                        },
                    ),
                )
            } else {
                None
            }
        },
        _ => None,
    }
}

pub open spec fn note_view(n: DiaryNote) -> (Seq<char>, Seq<char>, Seq<char>) {
    (n.name@, n.last_modified@, n.preview@)
}

/// Whether every element of the `notes` list reads as a diary entry.
pub open spec fn all_notes_valid(items: Seq<String>) -> bool {
    forall|k: int| 0 <= k < items.len() ==> (#[trigger] diary_note_spec(items[k]@)) is Some
}

/// The `notes` list of a response, when it is an array.
pub open spec fn notes_list(v: JsonNode) -> Option<Seq<String>> {
    match field(v, "notes"@) {
        Some(Some(JsonNode::Array(items))) => Some(items@),
        _ => None,
    }
}

pub open spec fn notes_error_prefix() -> Seq<char> {
    "解析日记列表失败: "@
}

fn read_optional_text(v: &JsonNode, key: &str) -> (r: Option<String>)
    ensures
        match r {
            Some(s) => (field(*v, key@) is None && s@ == Seq::<char>::empty()) || field_str(
                *v,
                key@,
            ) == Some(s@),
            None => field(*v, key@) is Some && field_str(*v, key@) is None,
        },
{
    match get_field(v, key) {
        None => Some(String::new()),
        Some(Some(JsonNode::Str(s))) => Some(s),
        _ => None,
    }
}

fn read_text_item(items: &Vec<String>, k: usize) -> (r: Option<String>)
    requires
        k < items.len(),
    ensures
        match r {
            Some(s) => text_as_str(items@[k as int]@) == Some(s@),
            None => text_as_str(items@[k as int]@) is None,
        },
{
    match parse_json(items[k].as_str()) {
        Ok(JsonNode::Str(s)) => Some(s),
        _ => None,
    }
}

/// Reads one diary entry from its JSON text.
fn diary_note_from_text(text: &str) -> (r: Option<DiaryNote>)
    ensures
        match r {
            Some(n) => diary_note_spec(text@) == Some(note_view(n)),
            None => diary_note_spec(text@) is None,
        },
{
    match parse_json(text) {
        Ok(JsonNode::Object(entries)) => {
            let v = JsonNode::Object(entries);
            let name = get_field_str(&v, "name")?;
            let last_modified = read_optional_text(&v, "lastModified")?;
            let preview = read_optional_text(&v, "preview")?;
            Some(DiaryNote { name, last_modified, preview })
        },
        Ok(JsonNode::Array(items)) => {
            let n = items.len();
            if n < 1 || n > 3 {
                return None;
            }
            let name = read_text_item(&items, 0)?;
            let last_modified = if n >= 2 {
                read_text_item(&items, 1)?
            } else {
                String::new()
            };
            let preview = if n >= 3 {
                read_text_item(&items, 2)?
            } else {
                String::new()
            };
            assert(forall|k: int| 0 <= k < n ==> (#[trigger] text_as_str(items@[k]@)) is Some);
            Some(DiaryNote { name, last_modified, preview })
        },
        _ => None,
    }
}

/// Reads the diary list of a `/folder/{name}` response. It fails when `notes` is missing or
/// not a list, or when one of its entries is not a diary entry.
pub fn notes_from_response(v: &JsonNode) -> (r: Result<Vec<DiaryNote>, String>)
    ensures
        r is Ok <==> (notes_list(*v) is Some && all_notes_valid(notes_list(*v)->0)),
        r is Ok ==> r->Ok_0@.len() == notes_list(*v)->0.len() && forall|k: int|
            0 <= k < r->Ok_0@.len() ==> diary_note_spec(notes_list(*v)->0[k]@) == Some(
                #[trigger] note_view(r->Ok_0@[k]),
            ),
        r is Err ==> starts_with(r->Err_0@, notes_error_prefix()),
{
    let items = match get_field(v, "notes") {
        Some(Some(JsonNode::Array(items))) => items,
        _ => {
            let s = String::from_str("解析日记列表失败: notes is not a list");
            proof {
                reveal_strlit("解析日记列表失败: notes is not a list");
                reveal_strlit("解析日记列表失败: ");
                assert(s@.subrange(0, notes_error_prefix().len() as int) =~= notes_error_prefix());
            }
            return Err(s);
        },
    };
    let mut out: Vec<DiaryNote> = Vec::new();
    let mut i: usize = 0;
    while i < items.len()
        invariant
            i <= items.len(),
            notes_list(*v) == Some(items@),
            out@.len() == i,
            forall|k: int|
                0 <= k < i ==> diary_note_spec(items@[k]@) == Some(#[trigger] note_view(out@[k])),
        decreases items.len() - i,
    {
        match diary_note_from_text(items[i].as_str()) {
            Some(n) => out.push(n),
            None => {
                let mut s = String::from_str("解析日记列表失败: invalid entry at index ");
                push_decimal(&mut s, i as u64);
                proof {
                    reveal_strlit("解析日记列表失败: invalid entry at index ");
                    reveal_strlit("解析日记列表失败: ");
                    assert(s@.subrange(0, notes_error_prefix().len() as int) =~= notes_error_prefix());
                }
                return Err(s);
            },
        }
        i = i + 1;
    }
    assert forall|k: int| 0 <= k < items@.len() implies (#[trigger] diary_note_spec(
        items@[k]@,
    )) is Some by {
        assert(diary_note_spec(items@[k]@) == Some(note_view(out@[k])));
    }
    Ok(out)
}

/// The text of a `/note/...` response: its `content` string, or empty.
pub fn note_content_from_response(v: &JsonNode) -> (r: String)
    ensures
        r@ == match field_str(*v, "content"@) {
            Some(s) => s,
            None => Seq::<char>::empty(),
        },
{
    match get_field_str(v, "content") {
        Some(s) => s,
        None => String::new(),
    }
}

/// The query of a keyword search: the term, the notebook when one is given and non-empty,
/// and the limit (200 when none is given).
pub fn search_query(term: String, folder: Option<String>, limit: Option<u32>) -> (r: Vec<
    (String, String),
>)
    ensures
        r@.len() == (if folder is Some && folder->0@.len() > 0 {
            3nat
        } else {
            2nat
        }),
        r@[0].0@ == "term"@ && r@[0].1@ == term@,
        folder is Some && folder->0@.len() > 0 ==> r@[1].0@ == "folder"@ && r@[1].1@
            == folder->0@,
        r@[r@.len() - 1].0@ == "limit"@,
        r@[r@.len() - 1].1@ == decimal(
            match limit {
                Some(n) => n as nat,
                None => 200nat,
            },
        ),
{
    let mut q: Vec<(String, String)> = Vec::new();
    q.push((String::from_str("term"), term));
    match folder {
        Some(f) => {
            if f.unicode_len() > 0 {
                q.push((String::from_str("folder"), f));
            }
        },
        None => {},
    }
    let n: u32 = match limit {
        Some(n) => n,
        None => 200,
    };
    let mut ls = String::new();
    push_decimal(&mut ls, n as u64);
    q.push((String::from_str("limit"), ls));
    q
}

} // verus!
