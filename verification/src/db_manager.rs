use vstd::prelude::*;
use vstd::string::*;
use vstd::utf8::*;
use crate::text::{
    append_str, chars_of, concat2, contains_string, push_char, push_decimal, push_decimal_i64,
    decimal, decimal_signed, str_eq, trim, trim_str, views,
};
use crate::hashing::{fnv1a, fnv1a_bytes, FNV_OFFSET};
use crate::message_repository::{
    bounded_decompress_spec, string_from_utf8, zstd_frame, ContentCompressor, COMPRESSION_LEVEL,
    MAX_DECOMPRESSED_MESSAGE_BYTES,
};

verus! {

broadcast use vstd::string::group_string_axioms;

/// `s` with every `"` doubled.
pub open spec fn double_quotes(s: Seq<char>) -> Seq<char>
    decreases s.len(),
{
    if s.len() == 0 {
        Seq::empty()
    } else if s.last() == '"' {
        double_quotes(s.drop_last()) + seq!['"', '"']
    } else {
        double_quotes(s.drop_last()).push(s.last())
    }
}

/// An SQL identifier in double quotes, with embedded quotes doubled.
pub open spec fn quote_ident_spec(s: Seq<char>) -> Seq<char> {
    seq!['"'] + double_quotes(s) + seq!['"']
}

/// Quotes an SQL identifier.
pub fn quote_ident(identifier: &str) -> (r: String)
    ensures
        r@ == quote_ident_spec(identifier@),
{
    let v = chars_of(identifier);
    let mut out = String::new();
    push_char(&mut out, '"');
    let mut i: usize = 0;
    while i < v.len()
        invariant
            i <= v.len(),
            v@ == identifier@,
            out@ == seq!['"'] + double_quotes(v@.take(i as int)),
        decreases v.len() - i,
    {
        proof {
            assert(v@.take((i + 1) as int).drop_last() =~= v@.take(i as int));
            assert(v@.take((i + 1) as int).last() == v@[i as int]);
        }
        if v[i] == '"' {
            push_char(&mut out, '"');
            push_char(&mut out, '"');
            assert(out@ =~= seq!['"'] + double_quotes(v@.take((i + 1) as int)));
        } else {
            push_char(&mut out, v[i]);
            assert(out@ =~= seq!['"'] + double_quotes(v@.take((i + 1) as int)));
        }
        i = i + 1;
    }
    push_char(&mut out, '"');
    assert(v@.take(v.len() as int) =~= v@);
    assert(out@ =~= quote_ident_spec(identifier@));
    out
}

/// The lowercase hex digit of `d < 16`.
pub open spec fn hex_digit(d: nat) -> char {
    if d < 10 {
        ((d + 48) as u8) as char
    } else {
        ((d + 87) as u8) as char
    }
}

/// `n` in lowercase hex, zero-padded to `k` digits (the low `k` digits).
pub open spec fn hex_padded(n: nat, k: nat) -> Seq<char>
    decreases k,
{
    if k == 0 {
        Seq::empty()
    } else {
        hex_padded(n / 16, (k - 1) as nat).push(hex_digit(n % 16))
    }
}

fn push_hex_padded(s: &mut String, n: u64, k: u32)
    requires
        k <= 16,
    ensures
        final(s)@ == old(s)@ + hex_padded(n as nat, k as nat),
    decreases k,
{
    if k == 0 {
        assert(final(s)@ =~= old(s)@ + hex_padded(n as nat, 0));
        return;
    }
    push_hex_padded(s, n / 16, k - 1);
    let d: u8 = (n % 16) as u8;
    let c: char = if d < 10 { (d + 48u8) as char } else { (d + 87u8) as char };
    push_char(s, c);
    assert(hex_digit((n % 16) as nat) == c);
    assert(final(s)@ =~= old(s)@ + hex_padded(n as nat, k as nat));
}

/// The 16-digit lowercase hex FNV-1a hash of `input`'s UTF-8 bytes (`{:016x}`).
pub fn stable_hex(input: &str) -> (r: String)
    ensures
        r@ == hex_padded(fnv1a(vstd::utf8::encode_utf8(input@), FNV_OFFSET) as nat, 16),
{
    let h = fnv1a_bytes(input.as_bytes(), FNV_OFFSET);
    let mut s = String::new();
    push_hex_padded(&mut s, h, 16);
    assert(s@ =~= hex_padded(h as nat, 16));
    s
}

pub open spec fn opt_view(o: Option<String>) -> Option<Seq<char>> {
    match o {
        Some(s) => Some(s@),
        None => None,
    }
}

/// The topic a message without one is migrated into: `(topic id, owner type, owner id)`.
pub open spec fn legacy_topic_spec(agent_id: Option<Seq<char>>, group_id: Option<Seq<char>>, is_group_message: bool) -> (
    Seq<char>,
    Seq<char>,
    Seq<char>,
) {
    let is_group = is_group_message || group_id is Some;
    let owner_type = if is_group { "group"@ } else { "agent"@ };
    let owner_id = if is_group {
        match group_id {
            Some(g) => g,
            None => "legacy_group"@,
        }
    } else {
        match agent_id {
            Some(a) => a,
            None => "legacy_agent"@,
        }
    };
    (
        "legacy_migrated_"@ + owner_type + "_"@ + hex_padded(
            fnv1a(vstd::utf8::encode_utf8(owner_id), FNV_OFFSET) as nat,
            16,
        ),
        owner_type,
        owner_id,
    )
}

/// Each owner gets its own legacy topic: the topic id is `legacy_migrated_`, the owner type,
/// `_` and the 16-digit hex FNV-1a hash of the owner id itself. The owner is the group of a
/// group message (`legacy_group` when it has none), else the agent (`legacy_agent` when it
/// has none).
pub proof fn lemma_legacy_topic_names_its_owner(
    agent_id: Option<Seq<char>>,
    group_id: Option<Seq<char>>,
    is_group_message: bool,
)
    ensures
        ({
            let (topic, kind, owner) = legacy_topic_spec(agent_id, group_id, is_group_message);
            &&& topic == "legacy_migrated_"@ + kind + "_"@ + hex_padded(
                fnv1a(vstd::utf8::encode_utf8(owner), FNV_OFFSET) as nat,
                16,
            )
            &&& (is_group_message || group_id is Some) ==> kind == "group"@ && owner == (
            match group_id {
                Some(g) => g,
                None => "legacy_group"@,
            })
            &&& !(is_group_message || group_id is Some) ==> kind == "agent"@ && owner == (
            match agent_id {
                Some(a) => a,
                None => "legacy_agent"@,
            })
        }),
{
}

/// Chooses the legacy topic for a message from before topics existed.
pub fn legacy_topic_for_message(agent_id: &Option<String>, group_id: &Option<String>, is_group_message: bool) -> (r: (
    String,
    String,
    String,
))
    ensures
        (r.0@, r.1@, r.2@) == legacy_topic_spec(opt_view(*agent_id), opt_view(*group_id), is_group_message),
        r.0@ == "legacy_migrated_"@ + r.1@ + "_"@ + hex_padded(
            fnv1a(vstd::utf8::encode_utf8(r.2@), FNV_OFFSET) as nat,
            16,
        ),
{
    let is_group = is_group_message || group_id.is_some();
    let owner_type = if is_group {
        String::from_str("group")
    } else {
        String::from_str("agent")
    };
    let owner_id = if is_group {
        match group_id {
            Some(g) => g.clone(),
            None => String::from_str("legacy_group"),
        }
    } else {
        match agent_id {
            Some(a) => a.clone(),
            None => String::from_str("legacy_agent"),
        }
    };
    let mut topic_id = concat2("legacy_migrated_", owner_type.as_str());
    append_str(&mut topic_id, "_");
    let hex = stable_hex(owner_id.as_str());
    append_str(&mut topic_id, hex.as_str());
    (topic_id, owner_type, owner_id)
}

/// `alias."column"` when the table has the column, else the fallback expression.
pub fn aliased_col_expr(columns: &[String], alias: &str, column: &str, fallback: &str) -> (r: String)
    ensures
        r@ == (if views(columns@).contains(column@) {
            alias@ + "."@ + quote_ident_spec(column@)
        } else {
            fallback@
        }),
{
    if contains_string(columns, column) {
        let mut s = concat2(alias, ".");
        let q = quote_ident(column);
        append_str(&mut s, q.as_str());
        s
    } else {
        String::from_str(fallback)
    }
}

/// The names of the primary-key columns in key order (stable for equal positions), given
/// `(name, pk position)` rows where position 0 means "not in the key".
pub open spec fn pk_names(rows: Seq<(Seq<char>, i64)>) -> Seq<Seq<char>> {
    let keyed = rows.filter(|r: (Seq<char>, i64)| r.1 > 0);
    if keyed.len() == 2 && keyed[1].1 < keyed[0].1 {
        seq![keyed[1].0, keyed[0].0]
    } else {
        keyed.map_values(|r: (Seq<char>, i64)| r.0)
    }
}

pub open spec fn rows_view(rows: Seq<(String, i64)>) -> Seq<(Seq<char>, i64)> {
    rows.map_values(|r: (String, i64)| (r.0@, r.1))
}

/// Whether an existing `messages` table must be rebuilt: it lacks `topic_id`, or its
/// primary key is not exactly `(topic_id, msg_id)`.
pub open spec fn needs_rebuild_spec(rows: Seq<(Seq<char>, i64)>) -> bool {
    !rows.map_values(|r: (Seq<char>, i64)| r.0).contains("topic_id"@) || pk_names(rows) != seq![
        "topic_id"@,
        "msg_id"@,
    ]
}

/// Decides from `PRAGMA table_info(messages)` rows whether the table must be rebuilt.
pub fn messages_table_needs_rebuild(rows: &[(String, i64)]) -> (r: bool)
    ensures
        r == needs_rebuild_spec(rows_view(rows@)),
{
    let ghost rv = rows_view(rows@);
    let mut has_topic = false;
    let mut keyed: Vec<(String, i64)> = Vec::new();
    let mut i: usize = 0;
    proof {
        reveal(Seq::filter);
        assert(rv.take(0).filter(|r: (Seq<char>, i64)| r.1 > 0) =~= Seq::<(Seq<char>, i64)>::empty());
        assert(rows_view(keyed@) =~= Seq::<(Seq<char>, i64)>::empty());
    }
    while i < rows.len()
        invariant
            i <= rows.len(),
            rv == rows_view(rows@),
            has_topic == rv.take(i as int).map_values(|r: (Seq<char>, i64)| r.0).contains("topic_id"@),
            rows_view(keyed@) == rv.take(i as int).filter(|r: (Seq<char>, i64)| r.1 > 0),
        decreases rows.len() - i,
    {
        proof {
            reveal(Seq::filter);
            assert(rv.take((i + 1) as int).drop_last() =~= rv.take(i as int));
            assert(rv.take((i + 1) as int).last() == (rows@[i as int].0@, rows@[i as int].1));
            let a = rv.take((i + 1) as int).map_values(|r: (Seq<char>, i64)| r.0);
            let b = rv.take(i as int).map_values(|r: (Seq<char>, i64)| r.0);
            assert(a =~= b.push(rows@[i as int].0@));
            if b.contains("topic_id"@) {
                let k = choose|k: int| 0 <= k < b.len() && b[k] == "topic_id"@;
                assert(a[k] == "topic_id"@);
            }
            if a.contains("topic_id"@) && rows@[i as int].0@ != "topic_id"@ {
                let k = choose|k: int| 0 <= k < a.len() && a[k] == "topic_id"@;
                assert(b[k] == "topic_id"@);
            }
            if rows@[i as int].0@ == "topic_id"@ {
                assert(a[i as int] == "topic_id"@);
            }
        }
        if str_eq(rows[i].0.as_str(), "topic_id") {
            has_topic = true;
        }
        if rows[i].1 > 0 {
            let ghost before = keyed@;
            keyed.push((rows[i].0.clone(), rows[i].1));
            proof {
                assert(rows_view(keyed@) =~= rows_view(before).push((rows@[i as int].0@, rows@[i as int].1)));
            }
        }
        i = i + 1;
    }
    assert(rv.take(rows.len() as int) =~= rv);
    if !has_topic {
        return true;
    }
    let ghost kv = rows_view(keyed@);
    if keyed.len() != 2 {
        proof {
            let m = kv.map_values(|r: (Seq<char>, i64)| r.0);
            assert(m.len() != 2);
            assert(m != seq!["topic_id"@, "msg_id"@]);
        }
        return true;
    }
    let (first, second) = if keyed[1].1 < keyed[0].1 {
        (&keyed[1].0, &keyed[0].0)
    } else {
        (&keyed[0].0, &keyed[1].0)
    };
    proof {
        assert(kv[0] == (keyed@[0].0@, keyed@[0].1));
        assert(kv[1] == (keyed@[1].0@, keyed@[1].1));
        let names = pk_names(rv);
        assert(names =~= seq![first@, second@]);
        if first@ == "topic_id"@ && second@ == "msg_id"@ {
            assert(names =~= seq!["topic_id"@, "msg_id"@]);
        } else {
            assert(names[0] != "topic_id"@ || names[1] != "msg_id"@);
        }
    }
    !(str_eq(first.as_str(), "topic_id") && str_eq(second.as_str(), "msg_id"))
}

/// The name of a backup of `table`: `<table>_legacy_backup_<millis>_<process id>`.
pub fn legacy_backup_name(table: &str, now_millis: i64, process_id: u32) -> (r: String)
    ensures
        r@ == table@ + "_legacy_backup_"@ + decimal_signed(now_millis as int) + "_"@ + decimal(
            process_id as nat,
        ),
{
    let mut s = concat2(table, "_legacy_backup_");
    push_decimal_i64(&mut s, now_millis);
    append_str(&mut s, "_");
    push_decimal(&mut s, process_id as u64);
    s
}

} // verus!

verus! {

// ------------------------------------------------------------------ schema statements

/// `ALTER TABLE "table" ADD COLUMN "column" definition`.
pub fn add_column_sql(table: &str, column: &str, definition: &str) -> (r: String)
    ensures
        r@ == "ALTER TABLE "@ + quote_ident_spec(table@) + " ADD COLUMN "@ + quote_ident_spec(
            column@,
        ) + " "@ + definition@,
{
    let mut s = String::from_str("ALTER TABLE ");
    let t = quote_ident(table);
    append_str(&mut s, t.as_str());
    append_str(&mut s, " ADD COLUMN ");
    let c = quote_ident(column);
    append_str(&mut s, c.as_str());
    append_str(&mut s, " ");
    append_str(&mut s, definition);
    s
}

/// `ALTER TABLE "table" RENAME TO "backup"`.
pub fn rename_table_sql(table: &str, backup: &str) -> (r: String)
    ensures
        r@ == "ALTER TABLE "@ + quote_ident_spec(table@) + " RENAME TO "@ + quote_ident_spec(backup@),
{
    let mut s = String::from_str("ALTER TABLE ");
    let t = quote_ident(table);
    append_str(&mut s, t.as_str());
    append_str(&mut s, " RENAME TO ");
    let b = quote_ident(backup);
    append_str(&mut s, b.as_str());
    s
}

/// The `LIKE` pattern that finds the backups of a table.
pub fn legacy_backup_pattern(table: &str) -> (r: String)
    ensures
        r@ == table@ + "_legacy_backup_%"@,
{
    concat2(table, "_legacy_backup_%")
}

/// Whether a column must be added: the table lacks it.
pub fn column_missing(columns: &Vec<String>, column: &str) -> (r: bool)
    ensures
        r == !views(columns@).contains(column@),
{
    !contains_string(columns.as_slice(), column)
}

// ------------------------------------------------------------------ legacy messages

/// A text column of a legacy row as it is read: trimmed, and empty counts as absent.
pub open spec fn cleaned(v: Option<Seq<char>>) -> Option<Seq<char>> {
    match v {
        Some(s) => if trim(s).len() > 0 {
            Some(trim(s))
        } else {
            None
        },
        None => None,
    }
}

fn clean_text(v: &Option<String>) -> (r: Option<String>)
    ensures
        opt_view(r) == cleaned(opt_view(*v)),
{
    match v {
        Some(s) => {
            let t = trim_str(s.as_str());
            if t.unicode_len() > 0 {
                Some(t)
            } else {
                None
            }
        },
        None => None,
    }
}

/// The columns of a row of a legacy `messages` table, as far as they could be read.
pub struct LegacyMessageRow {
    pub rowid: Option<i64>,
    pub msg_id: Option<String>,
    pub id: Option<String>,
    pub role: Option<String>,
    pub name: Option<String>,
    pub agent_id: Option<String>,
    pub group_id: Option<String>,
    pub is_group_message: Option<i64>,
    pub timestamp: Option<i64>,
    pub created_at: Option<i64>,
    pub updated_at: Option<i64>,
    pub deleted_at: Option<i64>,
    pub finish_reason: Option<String>,
    pub content_hash: Option<String>,
    pub topic_id: Option<String>,
    pub owner_type: Option<String>,
    pub owner_id: Option<String>,
    pub title: Option<String>,
}

/// A legacy message as it is written into the new tables (its content aside).
pub struct MigratedMessage {
    pub msg_id: String,
    pub role: String,
    pub name: Option<String>,
    pub agent_id: Option<String>,
    pub group_id: Option<String>,
    pub is_group_message: bool,
    pub timestamp: i64,
    pub created_at: i64,
    pub updated_at: i64,
    pub deleted_at: Option<i64>,
    pub finish_reason: Option<String>,
    pub content_hash: String,
    pub topic_id: String,
    pub owner_type: String,
    pub owner_id: String,
    pub title: String,
}

pub open spec fn or_else_seq(v: Option<Seq<char>>, d: Seq<char>) -> Seq<char> {
    match v {
        Some(s) => s,
        None => d,
    }
}

pub open spec fn or_else_int(v: Option<i64>, d: i64) -> i64 {
    match v {
        Some(x) => x,
        None => d,
    }
}

/// How a legacy row is migrated: blank text counts as absent; the id falls back to `id`,
/// then `legacy_msg_{rowid}`; the role to `assistant`; a message with a group is a group
/// message; times fall back to the message time, which falls back to `now`; the topic and
/// owner fall back to the derived legacy topic, the title to `Migrated chat`.
pub open spec fn migrated_message_ok(row: LegacyMessageRow, now: i64, m: MigratedMessage) -> bool {
    let agent = cleaned(opt_view(row.agent_id));
    let group = cleaned(opt_view(row.group_id));
    let is_group = or_else_int(row.is_group_message, 0) != 0 || group is Some;
    let ts = or_else_int(row.timestamp, now);
    let fallback = legacy_topic_spec(agent, group, is_group);
    &&& m.msg_id@ == match cleaned(opt_view(row.msg_id)) {
        Some(x) => x,
        None => match cleaned(opt_view(row.id)) {
            Some(x) => x,
            None => "legacy_msg_"@ + decimal_signed(or_else_int(row.rowid, 0) as int),
        },
    }
    &&& m.role@ == or_else_seq(cleaned(opt_view(row.role)), "assistant"@)
    &&& opt_view(m.name) == cleaned(opt_view(row.name))
    &&& opt_view(m.agent_id) == agent
    &&& opt_view(m.group_id) == group
    &&& m.is_group_message == is_group
    &&& m.timestamp == ts
    &&& m.created_at == or_else_int(row.created_at, ts)
    &&& m.updated_at == or_else_int(row.updated_at, ts)
    &&& m.deleted_at == row.deleted_at
    &&& opt_view(m.finish_reason) == cleaned(opt_view(row.finish_reason))
    &&& m.content_hash@ == or_else_seq(cleaned(opt_view(row.content_hash)), Seq::empty())
    &&& m.topic_id@ == or_else_seq(cleaned(opt_view(row.topic_id)), fallback.0)
    &&& m.owner_type@ == or_else_seq(cleaned(opt_view(row.owner_type)), fallback.1)
    &&& m.owner_id@ == or_else_seq(cleaned(opt_view(row.owner_id)), fallback.2)
    &&& m.title@ == or_else_seq(cleaned(opt_view(row.title)), "Migrated chat"@)
}

fn or_default(v: Option<String>, d: String) -> (r: String)
    ensures
        r@ == or_else_seq(opt_view(v), d@),
{
    match v {
        Some(s) => s,
        None => d,
    }
}

/// Migrates one row of a legacy `messages` table (see `migrated_message_ok`).
pub fn migrate_legacy_row(row: &LegacyMessageRow, now: i64) -> (m: MigratedMessage)
    ensures
        migrated_message_ok(*row, now, m),
{
    let agent_id = clean_text(&row.agent_id);
    let group_id = clean_text(&row.group_id);
    let is_group = (match row.is_group_message {
        Some(v) => v,
        None => 0,
    }) != 0 || group_id.is_some();
    let timestamp = match row.timestamp {
        Some(t) => t,
        None => now,
    };
    let msg_id = match clean_text(&row.msg_id) {
        Some(x) => x,
        None => match clean_text(&row.id) {
            Some(x) => x,
            None => {
                let mut s = String::from_str("legacy_msg_");
                push_decimal_i64(&mut s, match row.rowid {
                    Some(r) => r,
                    None => 0,
                });
                s
            },
        },
    };
    let (fallback_topic, fallback_type, fallback_owner) = legacy_topic_for_message(
        &agent_id,
        &group_id,
        is_group,
    );
    MigratedMessage {
        msg_id,
        role: or_default(clean_text(&row.role), String::from_str("assistant")),
        name: clean_text(&row.name),
        agent_id,
        group_id,
        is_group_message: is_group,
        timestamp,
        created_at: match row.created_at {
            Some(t) => t,
            None => timestamp,
        },
        updated_at: match row.updated_at {
            Some(t) => t,
            None => timestamp,
        },
        deleted_at: row.deleted_at,
        finish_reason: clean_text(&row.finish_reason),
        content_hash: or_default(clean_text(&row.content_hash), String::new()),
        topic_id: or_default(clean_text(&row.topic_id), fallback_topic),
        owner_type: or_default(clean_text(&row.owner_type), fallback_type),
        owner_id: or_default(clean_text(&row.owner_id), fallback_owner),
        title: or_default(clean_text(&row.title), String::from_str("Migrated chat")),
    }
}

/// The `content` column of a legacy row, as it could be read.
pub enum LegacyContent {
    Text(String),
    Bytes(Vec<u8>),
    Unreadable,
}

/// Whether stored bytes already are compressed message content (they decompress within
/// the limit to UTF-8).
pub open spec fn is_compressed_content(b: Seq<u8>) -> bool {
    bounded_decompress_spec(b) is Some && valid_utf8(bounded_decompress_spec(b)->0)
}

/// The text a legacy row's content migrates as, when it is not kept as it is: the text
/// itself, bytes decoded as UTF-8, or empty text when nothing readable is there.
pub open spec fn legacy_text(content: LegacyContent) -> Seq<char> {
    match content {
        LegacyContent::Text(t) => t@,
        LegacyContent::Bytes(b) => if valid_utf8(b@) {
            decode_utf8(b@)
        } else {
            Seq::empty()
        },
        LegacyContent::Unreadable => Seq::empty(),
    }
}

/// The compressed content a legacy row migrates with: bytes that already are compressed
/// content are kept; anything else is the compressed UTF-8 of its `legacy_text`, which
/// decompresses back to that text (within the safety limit). It always succeeds.
pub fn legacy_content_blob(content: LegacyContent) -> (r: Result<Vec<u8>, String>)
    ensures
        r is Ok,
        (content matches LegacyContent::Bytes(b) && is_compressed_content(b@)) ==> r->Ok_0@
            == content->Bytes_0@,
        !(content matches LegacyContent::Bytes(b) && is_compressed_content(b@)) ==> {
            &&& r->Ok_0@ == zstd_frame(encode_utf8(legacy_text(content)), COMPRESSION_LEVEL)
            &&& encode_utf8(legacy_text(content)).len() <= MAX_DECOMPRESSED_MESSAGE_BYTES
                ==> bounded_decompress_spec(r->Ok_0@) == Some(encode_utf8(legacy_text(content)))
        },
{
    match content {
        LegacyContent::Text(t) => ContentCompressor::compress(t.as_str()),
        LegacyContent::Bytes(b) => {
            if ContentCompressor::decompress(b.as_slice()).is_ok() {
                return Ok(b);
            }
            match string_from_utf8(b) {
                Ok(text) => ContentCompressor::compress(text.as_str()),
                Err(_) => {
                    let e = String::new();
                    proof {
                        assert(e@ =~= Seq::<char>::empty());
                    }
                    ContentCompressor::compress(e.as_str())
                },
            }
        },
        LegacyContent::Unreadable => {
            let e = String::new();
            proof {
                assert(e@ =~= Seq::<char>::empty());
            }
            ContentCompressor::compress(e.as_str())
        },
    }
}

/// The earliest and latest message time of each migrated topic, in order of first
/// appearance.
pub struct TopicSpans {
    pub spans: Vec<(String, i64, i64)>,
}

pub open spec fn has_topic(spans: Seq<(String, i64, i64)>, t: Seq<char>) -> bool {
    exists|i: int| 0 <= i < spans.len() && (#[trigger] spans[i]).0@ == t
}

/// An existing span after a message time was recorded: the same topic, widened to the
/// time when it is the recorded topic, unchanged otherwise.
pub open spec fn widened(
    before: (String, i64, i64),
    after: (String, i64, i64),
    t: Seq<char>,
    ts: i64,
) -> bool {
    &&& after.0 == before.0
    &&& before.0@ != t ==> after == before
    &&& before.0@ == t ==> after.1 == (if ts < before.1 {
        ts
    } else {
        before.1
    }) && after.2 == (if ts > before.2 {
        ts
    } else {
        before.2
    })
}

impl TopicSpans {
    pub open spec fn wf(&self) -> bool {
        &&& forall|i: int, j: int|
            0 <= i < j < self.spans@.len() ==> self.spans@[i].0@ != self.spans@[j].0@
        &&& forall|i: int| 0 <= i < self.spans@.len() ==> (#[trigger] self.spans@[i]).1 <= self.spans@[i].2
    }

    pub fn new() -> (t: TopicSpans)
        ensures
            t.wf(),
            t.spans@.len() == 0,
    {
        TopicSpans { spans: Vec::new() }
    }

    /// Widens the span of a topic to include a message time (a new topic spans that time).
    pub fn record(&mut self, topic_id: &str, timestamp: i64)
        requires
            old(self).wf(),
        ensures
            final(self).wf(),
            has_topic(final(self).spans@, topic_id@),
            forall|i: int|
                0 <= i < old(self).spans@.len() ==> widened(
                    old(self).spans@[i],
                    final(self).spans@[i],
                    topic_id@,
                    timestamp,
                ),
            has_topic(old(self).spans@, topic_id@) ==> final(self).spans@.len()
                == old(self).spans@.len(),
            !has_topic(old(self).spans@, topic_id@) ==> final(self).spans@.len()
                == old(self).spans@.len() + 1 && final(self).spans@.last().0@ == topic_id@
                && final(self).spans@.last().1 == timestamp && final(self).spans@.last().2
                == timestamp,
    {
        let mut i: usize = 0;
        while i < self.spans.len()
            invariant
                i <= self.spans.len(),
                self.wf(),
                *self == *old(self),
                forall|k: int| 0 <= k < i ==> self.spans@[k].0@ != topic_id@,
            decreases self.spans.len() - i,
        {
            if str_eq(self.spans[i].0.as_str(), topic_id) {
                let (t, lo, hi) = self.spans.remove(i);
                let nlo = if timestamp < lo {
                    timestamp
                } else {
                    lo
                };
                let nhi = if timestamp > hi {
                    timestamp
                } else {
                    hi
                };
                self.spans.insert(i, (t, nlo, nhi));
                proof {
                    assert forall|a: int, b: int|
                        0 <= a < b < self.spans@.len() implies self.spans@[a].0@ != self.spans@[b].0@ by {
                        assert(a != i ==> self.spans@[a] == old(self).spans@[a]);
                        assert(b != i ==> self.spans@[b] == old(self).spans@[b]);
                    }
                    assert forall|a: int| 0 <= a < self.spans@.len() implies (#[trigger] self.spans@[a]).1 <= self.spans@[a].2 by {
                        assert(a != i ==> self.spans@[a] == old(self).spans@[a]);
                    }
                    assert(self.spans@[i as int].0@ == topic_id@);
                    assert forall|k: int|
                        0 <= k < old(self).spans@.len() && old(self).spans@[k].0@ == topic_id@ implies k == i by {
                        if k != i {
                            if k < i {
                            } else {
                                assert(old(self).spans@[i as int].0@ == topic_id@);
                            }
                        }
                    }
                }
                return;
            }
            i = i + 1;
        }
        self.spans.push((topic_id.to_string(), timestamp, timestamp));
        proof {
            let n = old(self).spans@.len() as int;
            assert(self.spans@[n].0@ == topic_id@);
            assert forall|a: int, b: int|
                0 <= a < b < self.spans@.len() implies self.spans@[a].0@ != self.spans@[b].0@ by {
                if b == n {
                    assert(self.spans@[a] == old(self).spans@[a]);
                }
            }
        }
    }
}

} // verus!
