use vstd::prelude::*;
use vstd::string::*;
use crate::text::{
    append_str, chars_of, first_token, newline_segments, parse_uint_chars, parse_uint_spec,
    slice_range, split_newlines, split_whitespace_chars, starts_with, starts_with_chars,
    ws_tokens,
};

verus! {

broadcast use vstd::string::group_string_axioms;

/// Where a saved performance report went.
pub struct SavedPerformanceReport {
    pub path: String,
    pub filename: String,
    pub saved_at: String,
}

/// Where reports are kept and what build wrote them.
pub struct PerformanceDiagnosticsInfo {
    pub reports_dir: String,
    pub platform: String,
    pub arch: String,
    pub debug_build: bool,
}

/// The file name of a report saved at a `%Y%m%d-%H%M%S` time stamp.
pub fn report_filename(stamp: &str) -> (r: String)
    ensures
        r@ == "vcp-mobile-performance-"@ + stamp@ + ".json"@,
{
    let mut s = String::from_str("vcp-mobile-performance-");
    append_str(&mut s, stamp);
    append_str(&mut s, ".json");
    s
}

/// The value of the first line of `/proc/self/status` that starts with `key` and whose
/// first token after it reads as a number no larger than `max`.
pub open spec fn status_value(lines: Seq<Seq<char>>, key: Seq<char>, max: nat) -> Option<nat>
    decreases lines.len(),
{
    if lines.len() == 0 {
        None
    } else {
        let line = lines[0];
        let found = if starts_with(line, key) {
            match first_token(line.skip(key.len() as int)) {
                Some(tok) => parse_uint_spec(tok, max),
                None => None,
            }
        } else {
            None
        };
        match found {
            Some(v) => Some(v),
            None => status_value(lines.drop_first(), key, max),
        }
    }
}

fn line_value(line: &[char], key: &[char], max: u64) -> (r: Option<u64>)
    ensures
        match r {
            Some(v) => starts_with(line@, key@) && first_token(line@.skip(key@.len() as int)) is Some
                && parse_uint_spec(first_token(line@.skip(key@.len() as int))->0, max as nat) == Some(
                v as nat,
            ),
            None => !(starts_with(line@, key@) && first_token(line@.skip(key@.len() as int)) is Some
                && parse_uint_spec(first_token(line@.skip(key@.len() as int))->0, max as nat) is Some),
        },
{
    if !starts_with_chars(line, key) {
        return None;
    }
    let rest = slice_range(line, key.len(), line.len());
    assert(rest@ =~= line@.skip(key@.len() as int));
    let toks = split_whitespace_chars(rest.as_slice());
    if toks.len() == 0 {
        return None;
    }
    proof {
        assert(toks@.map_values(|v: Vec<char>| v@)[0] == toks@[0]@);
    }
    parse_uint_chars(toks[0].as_slice(), max)
}

/// Reads the number after `key` in a status text (see `status_value`; `\r` before a line
/// break is whitespace and never changes a token).
pub fn parse_status_value(content: &str, key: &str, max: u64) -> (r: Option<u64>)
    ensures
        match r {
            Some(v) => status_value(newline_segments(content@), key@, max as nat) == Some(v as nat)
                && v <= max,
            None => status_value(newline_segments(content@), key@, max as nat) is None,
        },
{
    let lines = split_newlines(content);
    let k = chars_of(key);
    let ghost ls = lines@.map_values(|v: Vec<char>| v@);
    let mut i: usize = 0;
    assert(ls.skip(0) =~= ls);
    while i < lines.len()
        invariant
            i <= lines.len(),
            ls == lines@.map_values(|v: Vec<char>| v@),
            ls == newline_segments(content@),
            k@ == key@,
            status_value(ls.skip(i as int), key@, max as nat) == status_value(ls, key@, max as nat),
        decreases lines.len() - i,
    {
        proof {
            assert(ls.skip(i as int)[0] == lines@[i as int]@);
            assert(ls.skip(i as int).drop_first() =~= ls.skip(i + 1));
        }
        match line_value(lines[i].as_slice(), k.as_slice(), max) {
            Some(v) => {
                return Some(v);
            },
            None => {},
        }
        i = i + 1;
    }
    assert(ls.skip(i as int) =~= Seq::<Seq<char>>::empty());
    None
}

/// A status value in kilobytes, read as bytes.
pub open spec fn status_kb_spec(content: Seq<char>, key: Seq<char>) -> Option<nat> {
    match status_value(newline_segments(content), key, u64::MAX as nat) {
        Some(v) => Some(v * 1024),
        None => None,
    }
}

/// Reads a `kB` value of `/proc/self/status` (such as `VmRSS:`) in bytes. The byte count
/// must fit `u64`.
pub fn parse_status_kb(content: &str, key: &str) -> (r: Option<u64>)
    requires
        match status_value(newline_segments(content@), key@, u64::MAX as nat) {
            Some(v) => v * 1024 <= u64::MAX,
            None => true,
        },
    ensures
        match r {
            Some(v) => status_kb_spec(content@, key@) == Some(v as nat),
            None => status_kb_spec(content@, key@) is None,
        },
{
    match parse_status_value(content, key, u64::MAX) {
        Some(v) => Some(v * 1024),
        None => None,
    }
}

/// Reads a count of `/proc/self/status` (such as `Threads:`).
pub fn parse_status_u32(content: &str, key: &str) -> (r: Option<u32>)
    ensures
        match r {
            Some(v) => status_value(newline_segments(content@), key@, u32::MAX as nat) == Some(
                v as nat,
            ),
            None => status_value(newline_segments(content@), key@, u32::MAX as nat) is None,
        },
{
    match parse_status_value(content, key, u32::MAX as u64) {
        Some(v) => Some(v as u32),
        None => None,
    }
}

/// `) ` stands at position `i`.
pub open spec fn name_end_at(s: Seq<char>, i: int) -> bool {
    0 <= i && i + 2 <= s.len() && s[i] == ')' && s[i + 1] == ' '
}

/// The fields of `/proc/self/stat` after the command name: the text after the last `) `,
/// split at whitespace.
pub open spec fn stat_fields(stat: Seq<char>) -> Option<Seq<Seq<char>>> {
    if exists|i: int| #[trigger] name_end_at(stat, i) {
        let i = choose|i: int|
            #[trigger] name_end_at(stat, i) && forall|j: int| i < j ==> !#[trigger] name_end_at(stat, j);
        Some(ws_tokens(stat.skip(i + 2)))
    } else {
        None
    }
}

/// Splits `/proc/self/stat` after the command name (see `stat_fields`).
pub fn stat_fields_after_name(stat: &str) -> (r: Option<Vec<Vec<char>>>)
    ensures
        match r {
            Some(v) => stat_fields(stat@) == Some(v@.map_values(|w: Vec<char>| w@)),
            None => stat_fields(stat@) is None,
        },
{
    let v = chars_of(stat);
    if v.len() < 2 {
        assert forall|j: int| !#[trigger] name_end_at(stat@, j) by {}
        return None;
    }
    let mut i: usize = v.len() - 1;
    loop
        invariant
            1 <= i + 1 <= v.len(),
            v@ == stat@,
            forall|j: int| i < j ==> !#[trigger] name_end_at(v@, j),
        decreases i,
    {
        if i + 1 < v.len() && v[i] == ')' && v[i + 1] == ' ' {
            let rest = slice_range(v.as_slice(), i + 2, v.len());
            let toks = split_whitespace_chars(rest.as_slice());
            proof {
                assert(name_end_at(stat@, i as int));
                let k = choose|k: int|
                    #[trigger] name_end_at(stat@, k) && forall|j: int| k < j ==> !#[trigger] name_end_at(stat@, j);
                assert(k == i) by {
                    if k < i {
                        assert(name_end_at(stat@, i as int));
                    } else if k > i {
                        assert(name_end_at(stat@, k));
                    }
                }
                assert(rest@ =~= stat@.skip(i + 2));
            }
            return Some(toks);
        }
        assert(!name_end_at(v@, i as int));
        if i == 0 {
            assert forall|j: int| !#[trigger] name_end_at(stat@, j) by {
                if j >= 0 {
                }
            }
            return None;
        }
        i = i - 1;
    }
}

/// The CPU ticks a process has used: `utime + stime`, fields 14 and 15 of its stat line.
pub open spec fn process_ticks_spec(stat: Seq<char>) -> Option<nat> {
    match stat_fields(stat) {
        Some(f) => if f.len() > 12 && parse_uint_spec(f[11], u64::MAX as nat) is Some
            && parse_uint_spec(f[12], u64::MAX as nat) is Some {
            Some(parse_uint_spec(f[11], u64::MAX as nat)->0 + parse_uint_spec(f[12], u64::MAX as nat)->0)
        } else {
            None
        },
        None => None,
    }
}

/// Reads the CPU ticks of a process from its stat line. The sum must fit `u64`.
pub fn process_cpu_ticks_from_stat(stat: &str) -> (r: Option<u64>)
    requires
        match process_ticks_spec(stat@) {
            Some(t) => t <= u64::MAX,
            None => true,
        },
    ensures
        match r {
            Some(t) => process_ticks_spec(stat@) == Some(t as nat),
            None => process_ticks_spec(stat@) is None,
        },
{
    let fields = stat_fields_after_name(stat)?;
    if fields.len() <= 12 {
        return None;
    }
    let utime = parse_uint_chars(fields[11].as_slice(), u64::MAX)?;
    let stime = parse_uint_chars(fields[12].as_slice(), u64::MAX)?;
    Some(utime + stime)
}

/// The sum of the numbers among tokens.
pub open spec fn sum_numbers(toks: Seq<Seq<char>>) -> nat
    decreases toks.len(),
{
    if toks.len() == 0 {
        0
    } else {
        sum_numbers(toks.drop_last()) + match parse_uint_spec(toks.last(), u64::MAX as nat) {
            Some(v) => v,
            None => 0,
        }
    }
}

/// The CPU ticks of the whole machine: the sum of the numbers on the `cpu ` line of
/// `/proc/stat`, which must be its first line.
pub open spec fn total_ticks_spec(stat: Seq<char>) -> Option<nat> {
    let lines = newline_segments(stat);
    if lines.len() > 0 && starts_with(lines[0], "cpu "@) {
        Some(sum_numbers(ws_tokens(lines[0].skip(4))))
    } else {
        None
    }
}

/// Reads the machine's CPU ticks from `/proc/stat`. The sum must fit `u64`.
pub fn total_cpu_ticks_from_stat(stat: &str) -> (r: Option<u64>)
    requires
        match total_ticks_spec(stat@) {
            Some(t) => t <= u64::MAX,
            None => true,
        },
    ensures
        match r {
            Some(t) => total_ticks_spec(stat@) == Some(t as nat),
            None => total_ticks_spec(stat@) is None,
        },
{
    let lines = split_newlines(stat);
    if lines.len() == 0 {
        return None;
    }
    let prefix = ['c', 'p', 'u', ' '];
    proof {
        reveal_strlit("cpu ");
        assert(prefix@ =~= "cpu "@);
        assert(lines@.map_values(|v: Vec<char>| v@)[0] == lines@[0]@);
    }
    if !starts_with_chars(lines[0].as_slice(), &prefix) {
        return None;
    }
    let rest = slice_range(lines[0].as_slice(), 4, lines[0].len());
    assert(rest@ =~= lines@[0]@.skip(4));
    let toks = split_whitespace_chars(rest.as_slice());
    let ghost ts = toks@.map_values(|v: Vec<char>| v@);
    let mut sum: u64 = 0;
    let mut i: usize = 0;
    while i < toks.len()
        invariant
            i <= toks.len(),
            ts == toks@.map_values(|v: Vec<char>| v@),
            ts == ws_tokens(lines@[0]@.skip(4)),
            total_ticks_spec(stat@) == Some(sum_numbers(ts)),
            sum_numbers(ts) <= u64::MAX,
            sum as nat == sum_numbers(ts.take(i as int)),
        decreases toks.len() - i,
    {
        proof {
            assert(ts.take(i + 1).drop_last() =~= ts.take(i as int));
            assert(ts.take(i + 1).last() == toks@[i as int]@);
            lemma_sum_numbers_prefix(ts, i + 1);
        }
        match parse_uint_chars(toks[i].as_slice(), u64::MAX) {
            Some(v) => {
                sum = sum + v;
            },
            None => {},
        }
        i = i + 1;
    }
    assert(ts.take(toks.len() as int) =~= ts);
    Some(sum)
}

proof fn lemma_sum_numbers_prefix(toks: Seq<Seq<char>>, k: int)
    requires
        0 <= k <= toks.len(),
    ensures
        sum_numbers(toks.take(k)) <= sum_numbers(toks),
    decreases toks.len() - k,
{
    if k < toks.len() {
        lemma_sum_numbers_prefix(toks, k + 1);
        assert(toks.take(k + 1).drop_last() =~= toks.take(k));
    } else {
        assert(toks.take(k) =~= toks);
    }
}

// ------------------------------------------------------------------ range checks

/// Whether a `kB` status value, read in bytes, fits `u64` (what `parse_status_kb` needs).
pub fn status_kb_fits(content: &str, key: &str) -> (r: bool)
    ensures
        r == match status_value(newline_segments(content@), key@, u64::MAX as nat) {
            Some(v) => v * 1024 <= u64::MAX,
            None => true,
        },
{
    match parse_status_value(content, key, u64::MAX) {
        Some(v) => v <= u64::MAX / 1024,
        None => true,
    }
}

/// Whether the tick sum of a stat line fits `u64` (what `process_cpu_ticks_from_stat`
/// needs).
pub fn process_ticks_fit(stat: &str) -> (r: bool)
    ensures
        r == match process_ticks_spec(stat@) {
            Some(t) => t <= u64::MAX,
            None => true,
        },
{
    let fields = match stat_fields_after_name(stat) {
        Some(f) => f,
        None => {
            return true;
        },
    };
    if fields.len() <= 12 {
        return true;
    }
    let utime = match parse_uint_chars(fields[11].as_slice(), u64::MAX) {
        Some(v) => v,
        None => {
            return true;
        },
    };
    let stime = match parse_uint_chars(fields[12].as_slice(), u64::MAX) {
        Some(v) => v,
        None => {
            return true;
        },
    };
    utime <= u64::MAX - stime
}

/// Whether the machine's tick sum fits `u64` (what `total_cpu_ticks_from_stat` needs).
pub fn total_ticks_fit(stat: &str) -> (r: bool)
    ensures
        r == match total_ticks_spec(stat@) {
            Some(t) => t <= u64::MAX,
            None => true,
        },
{
    let lines = split_newlines(stat);
    if lines.len() == 0 {
        return true;
    }
    let prefix = ['c', 'p', 'u', ' '];
    proof {
        reveal_strlit("cpu ");
        assert(prefix@ =~= "cpu "@);
        assert(lines@.map_values(|v: Vec<char>| v@)[0] == lines@[0]@);
    }
    if !starts_with_chars(lines[0].as_slice(), &prefix) {
        return true;
    }
    let rest = slice_range(lines[0].as_slice(), 4, lines[0].len());
    assert(rest@ =~= lines@[0]@.skip(4));
    let toks = split_whitespace_chars(rest.as_slice());
    let ghost ts = toks@.map_values(|v: Vec<char>| v@);
    let mut sum: u64 = 0;
    let mut i: usize = 0;
    while i < toks.len()
        invariant
            i <= toks.len(),
            ts == toks@.map_values(|v: Vec<char>| v@),
            ts == ws_tokens(lines@[0]@.skip(4)),
            total_ticks_spec(stat@) == Some(sum_numbers(ts)),
            sum as nat == sum_numbers(ts.take(i as int)),
        decreases toks.len() - i,
    {
        proof {
            assert(ts.take(i + 1).drop_last() =~= ts.take(i as int));
            assert(ts.take(i + 1).last() == toks@[i as int]@);
            lemma_sum_numbers_prefix(ts, i + 1);
        }
        match parse_uint_chars(toks[i].as_slice(), u64::MAX) {
            Some(v) => {
                if v > u64::MAX - sum {
                    return false;
                }
                sum = sum + v;
            },
            None => {},
        }
        i = i + 1;
    }
    assert(ts.take(toks.len() as int) =~= ts);
    true
}

} // verus!
