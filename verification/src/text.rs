use vstd::prelude::*;
use vstd::string::*;

verus! {

broadcast use vstd::string::group_string_axioms;

/// Collects the characters of a string slice.
pub fn chars_of(s: &str) -> (v: Vec<char>)
    ensures
        v@ == s@,
{
    let mut v: Vec<char> = Vec::new();
    for c in it: s.chars()
        invariant
            v@ == it.seq().take(it.index() as int),
            it.seq() == s@,
    {
        v.push(c);
    }
    v
}

/// Appends one character to a `String` (`String::push`).
#[verifier::external_body]
pub(crate) fn push_char(s: &mut String, c: char)
    ensures
        final(s)@ == old(s)@.push(c),
{
    s.push(c);
}

/// Builds a `String` holding exactly the given characters.
pub fn string_from_chars(v: &[char]) -> (s: String)
    ensures
        s@ == v@,
{
    let mut s = String::new();
    let mut i: usize = 0;
    while i < v.len()
        invariant
            i <= v.len(),
            s@ == v@.take(i as int),
        decreases v.len() - i,
    {
        push_char(&mut s, v[i]);
        i = i + 1;
        assert(v@.take(i as int) =~= v@.take((i - 1) as int).push(v@[i - 1]));
    }
    assert(v@.take(v.len() as int) =~= v@);
    s
}

/// Appends the characters of `tail` to `s`.
pub fn append_chars(s: &mut String, tail: &[char])
    ensures
        final(s)@ == old(s)@ + tail@,
{
    let ghost start = s@;
    let mut i: usize = 0;
    while i < tail.len()
        invariant
            i <= tail.len(),
            s@ == start + tail@.take(i as int),
        decreases tail.len() - i,
    {
        push_char(s, tail[i]);
        i = i + 1;
        assert(tail@.take(i as int) =~= tail@.take((i - 1) as int).push(tail@[i - 1]));
    }
    assert(tail@.take(tail.len() as int) =~= tail@);
}

/// Appends a string slice to `s`.
pub fn append_str(s: &mut String, tail: &str)
    ensures
        final(s)@ == old(s)@ + tail@,
{
    let v = chars_of(tail);
    append_chars(s, v.as_slice());
}

/// Concatenation of two string slices into a new `String`.
pub fn concat2(a: &str, b: &str) -> (s: String)
    ensures
        s@ == a@ + b@,
{
    let mut s = String::new();
    append_str(&mut s, a);
    append_str(&mut s, b);
    assert(s@ =~= a@ + b@);
    s
}

/// The Unicode `White_Space` property, which `char::is_whitespace` reports.
pub open spec fn is_ws(c: char) -> bool {
    let u = c as u32;
    (0x9 <= u && u <= 0xD) || u == 0x20 || u == 0x85 || u == 0xA0 || u == 0x1680 || (0x2000
        <= u && u <= 0x200A) || u == 0x2028 || u == 0x2029 || u == 0x202F || u == 0x205F || u
        == 0x3000
}

pub fn is_whitespace(c: char) -> (r: bool)
    ensures
        r == is_ws(c),
{
    let u = c as u32;
    (0x9 <= u && u <= 0xD) || u == 0x20 || u == 0x85 || u == 0xA0 || u == 0x1680 || (0x2000
        <= u && u <= 0x200A) || u == 0x2028 || u == 0x2029 || u == 0x202F || u == 0x205F || u
        == 0x3000
}

/// Number of leading whitespace characters.
pub open spec fn lead_ws(s: Seq<char>) -> nat
    decreases s.len(),
{
    if s.len() > 0 && is_ws(s[0]) {
        1 + lead_ws(s.drop_first())
    } else {
        0
    }
}

/// Number of trailing whitespace characters.
pub open spec fn trail_ws(s: Seq<char>) -> nat
    decreases s.len(),
{
    if s.len() > 0 && is_ws(s.last()) {
        1 + trail_ws(s.drop_last())
    } else {
        0
    }
}

/// `str::trim_start` on a character sequence.
pub open spec fn trim_start(s: Seq<char>) -> Seq<char> {
    s.subrange(lead_ws(s) as int, s.len() as int)
}

/// `str::trim_end` on a character sequence.
pub open spec fn trim_end(s: Seq<char>) -> Seq<char> {
    s.subrange(0, s.len() - trail_ws(s))
}

/// `str::trim` on a character sequence.
pub open spec fn trim(s: Seq<char>) -> Seq<char> {
    trim_end(trim_start(s))
}

pub proof fn lemma_lead_ws(s: Seq<char>)
    ensures
        lead_ws(s) <= s.len(),
        forall|k: int| 0 <= k < lead_ws(s) ==> is_ws(#[trigger] s[k]),
        lead_ws(s) < s.len() ==> !is_ws(s[lead_ws(s) as int]),
    decreases s.len(),
{
    if s.len() > 0 && is_ws(s[0]) {
        lemma_lead_ws(s.drop_first());
        assert forall|k: int| 0 <= k < lead_ws(s) implies is_ws(#[trigger] s[k]) by {
            if k > 0 {
                assert(s[k] == s.drop_first()[k - 1]);
            }
        }
    }
}

pub proof fn lemma_trail_ws(s: Seq<char>)
    ensures
        trail_ws(s) <= s.len(),
        forall|k: int| s.len() - trail_ws(s) <= k < s.len() ==> is_ws(#[trigger] s[k]),
        trail_ws(s) < s.len() ==> !is_ws(s[s.len() - trail_ws(s) - 1]),
    decreases s.len(),
{
    if s.len() > 0 && is_ws(s.last()) {
        lemma_trail_ws(s.drop_last());
        assert forall|k: int| s.len() - trail_ws(s) <= k < s.len() implies is_ws(#[trigger] s[k]) by {
            if k < s.len() - 1 {
                assert(s[k] == s.drop_last()[k]);
            }
        }
    }
}

/// `lead_ws` is determined by the first non-whitespace position.
pub proof fn lemma_lead_ws_unique(s: Seq<char>, i: int)
    requires
        0 <= i <= s.len(),
        forall|k: int| 0 <= k < i ==> is_ws(#[trigger] s[k]),
        i < s.len() ==> !is_ws(s[i]),
    ensures
        lead_ws(s) == i,
    decreases s.len(),
{
    if i > 0 {
        assert(is_ws(s[0]));
        assert forall|k: int| 0 <= k < i - 1 implies is_ws(#[trigger] s.drop_first()[k]) by {
            assert(s.drop_first()[k] == s[k + 1]);
        }
        lemma_lead_ws_unique(s.drop_first(), i - 1);
    }
}

/// `trail_ws` is determined by the last non-whitespace position.
pub proof fn lemma_trail_ws_unique(s: Seq<char>, j: int)
    requires
        0 <= j <= s.len(),
        forall|k: int| j <= k < s.len() ==> is_ws(#[trigger] s[k]),
        j > 0 ==> !is_ws(s[j - 1]),
    ensures
        trail_ws(s) == s.len() - j,
    decreases s.len(),
{
    if j < s.len() {
        assert(is_ws(s.last()));
        assert forall|k: int| j <= k < s.len() - 1 implies is_ws(#[trigger] s.drop_last()[k]) by {
            assert(s.drop_last()[k] == s[k]);
        }
        lemma_trail_ws_unique(s.drop_last(), j);
    }
}

/// Bounds `(start, end)` of the trimmed part of `v`.
pub fn trim_bounds(v: &[char]) -> (r: (usize, usize))
    ensures
        r.0 <= r.1 <= v.len(),
        r.0 == lead_ws(v@),
        v@.subrange(r.0 as int, r.1 as int) == trim(v@),
{
    let mut i: usize = 0;
    while i < v.len() && is_whitespace(v[i])
        invariant
            i <= v.len(),
            forall|k: int| 0 <= k < i ==> is_ws(#[trigger] v@[k]),
        decreases v.len() - i,
    {
        i = i + 1;
    }
    proof {
        lemma_lead_ws_unique(v@, i as int);
    }
    let mut j: usize = v.len();
    while j > i && is_whitespace(v[j - 1])
        invariant
            i <= j <= v.len(),
            forall|k: int| j <= k < v.len() ==> is_ws(#[trigger] v@[k]),
        decreases j,
    {
        j = j - 1;
    }
    proof {
        let t = trim_start(v@);
        assert(t =~= v@.subrange(i as int, v.len() as int));
        let jj = j - i;
        assert forall|k: int| jj <= k < t.len() implies is_ws(#[trigger] t[k]) by {
            assert(t[k] == v@[k + i]);
        }
        if jj > 0 {
            assert(t[jj - 1] == v@[j - 1]);
        }
        lemma_trail_ws_unique(t, jj);
        assert(trim(v@) =~= v@.subrange(i as int, j as int));
    }
    (i, j)
}

/// `str::trim` returning the characters.
pub fn trim_chars(v: &[char]) -> (r: Vec<char>)
    ensures
        r@ == trim(v@),
{
    let (a, b) = trim_bounds(v);
    slice_range(v, a, b)
}

/// Copies `v[a..b]`.
pub fn slice_range(v: &[char], a: usize, b: usize) -> (r: Vec<char>)
    requires
        a <= b <= v.len(),
    ensures
        r@ == v@.subrange(a as int, b as int),
{
    let mut r: Vec<char> = Vec::new();
    let mut i = a;
    while i < b
        invariant
            a <= i <= b <= v.len(),
            r@ == v@.subrange(a as int, i as int),
        decreases b - i,
    {
        r.push(v[i]);
        i = i + 1;
        assert(r@ =~= v@.subrange(a as int, i as int));
    }
    r
}


/// `str::trim_end_matches` with a single character.
pub open spec fn strip_trailing(s: Seq<char>, c: char) -> Seq<char>
    decreases s.len(),
{
    if s.len() > 0 && s.last() == c {
        strip_trailing(s.drop_last(), c)
    } else {
        s
    }
}

/// Removes every trailing `c`.
pub fn trim_end_char(s: &str, c: char) -> (r: String)
    ensures
        r@ == strip_trailing(s@, c),
{
    let v = chars_of(s);
    let mut j: usize = v.len();
    assert(v@.take(v.len() as int) =~= v@);
    while j > 0 && v[j - 1] == c
        invariant
            j <= v.len(),
            strip_trailing(v@.take(j as int), c) == strip_trailing(v@, c),
        decreases j,
    {
        assert(v@.take(j as int).drop_last() =~= v@.take(j - 1));
        j = j - 1;
    }
    assert(v@.take(v.len() as int) =~= v@);
    let r = slice_range(v.as_slice(), 0, j);
    assert(r@ =~= v@.take(j as int));
    string_from_chars(r.as_slice())
}

/// `str::split` on a character: the pieces between occurrences of `c` (never empty).
pub open spec fn split_on(s: Seq<char>, c: char) -> Seq<Seq<char>>
    decreases s.len(),
{
    if s.len() == 0 {
        seq![Seq::<char>::empty()]
    } else {
        let p = split_on(s.drop_last(), c);
        if s.last() == c {
            p.push(Seq::empty())
        } else {
            p.update(p.len() - 1, p.last().push(s.last()))
        }
    }
}

pub proof fn lemma_split_on_nonempty(s: Seq<char>, c: char)
    ensures
        split_on(s, c).len() >= 1,
    decreases s.len(),
{
    if s.len() > 0 {
        lemma_split_on_nonempty(s.drop_last(), c);
    }
}

/// Splits a string at every occurrence of `c`.
pub fn split_char(s: &str, c: char) -> (r: Vec<String>)
    ensures
        views(r@) == split_on(s@, c),
{
    let v = chars_of(s);
    let mut done: Vec<String> = Vec::new();
    let mut cur: Vec<char> = Vec::new();
    let mut i: usize = 0;
    while i < v.len()
        invariant
            i <= v.len(),
            v@ == s@,
            views(done@).push(cur@) == split_on(v@.take(i as int), c),
        decreases v.len() - i,
    {
        proof {
            assert(v@.take(i + 1).drop_last() =~= v@.take(i as int));
            lemma_split_on_nonempty(v@.take(i as int), c);
        }
        if v[i] == c {
            let piece = string_from_chars(cur.as_slice());
            proof {
                lemma_views_push(done@, piece);
            }
            done.push(piece);
            cur = Vec::new();
            assert(views(done@).push(cur@) =~= split_on(v@.take(i + 1), c));
        } else {
            let ghost before = cur@;
            cur.push(v[i]);
            assert(views(done@).push(cur@) =~= split_on(v@.take(i + 1), c));
        }
        i = i + 1;
    }
    assert(v@.take(v.len() as int) =~= v@);
    let last = string_from_chars(cur.as_slice());
    proof {
        lemma_views_push(done@, last);
    }
    done.push(last);
    done
}

/// `str::replace`: every leftmost, non-overlapping occurrence of `p` (non-empty) becomes `q`.
pub open spec fn replace_all(s: Seq<char>, p: Seq<char>, q: Seq<char>) -> Seq<char>
    decreases s.len(),
{
    if p.len() == 0 || s.len() < p.len() {
        s
    } else if s.take(p.len() as int) == p {
        q + replace_all(s.skip(p.len() as int), p, q)
    } else {
        seq![s[0]] + replace_all(s.skip(1), p, q)
    }
}

/// No proper suffix of `p` is also a prefix of it, so two occurrences never overlap.
pub open spec fn no_self_overlap(p: Seq<char>) -> bool {
    forall|k: int|
        0 < k < p.len() ==> #[trigger] p.subrange(k, p.len() as int) != p.subrange(
            0,
            p.len() - k,
        )
}

/// Replacing a pattern that cannot overlap itself, in a text that ends with it, by a
/// non-empty text gives a text that ends with the replacement, longer than the replacement when the text was longer
/// than the pattern.
pub proof fn lemma_replace_all_keeps_ending(s: Seq<char>, p: Seq<char>, q: Seq<char>)
    requires
        p.len() > 0,
        q.len() > 0,
        no_self_overlap(p),
        ends_with(s, p),
    ensures
        ends_with(replace_all(s, p, q), q),
        s.len() > p.len() ==> replace_all(s, p, q).len() > q.len(),
    decreases s.len(),
{
    let r = replace_all(s, p, q);
    if s.len() == p.len() {
        assert(s.subrange(0, s.len() as int) =~= s);
        assert(s.take(p.len() as int) =~= p);
        assert(replace_all(s.skip(p.len() as int), p, q) =~= Seq::<char>::empty());
        assert(r =~= q);
        assert(r.subrange(0, r.len() as int) =~= r);
    } else if s.take(p.len() as int) == p {
        let rest = s.skip(p.len() as int);
        let d = s.len() - p.len();
        if d < p.len() {
            assert(p.subrange(d, p.len() as int) =~= p.subrange(0, p.len() - d)) by {
                assert forall|j: int| 0 <= j < p.len() - d implies p.subrange(d, p.len() as int)[j]
                    == p.subrange(0, p.len() - d)[j] by {
                    assert(s.take(p.len() as int)[d + j] == s[d + j]);
                    assert(s.subrange(s.len() - p.len(), s.len() as int)[j] == s[d + j]);
                }
            }
            assert(false);
        }
        assert(rest.subrange(rest.len() - p.len(), rest.len() as int) =~= s.subrange(
            s.len() - p.len(),
            s.len() as int,
        ));
        lemma_replace_all_keeps_ending(rest, p, q);
        let t = replace_all(rest, p, q);
        assert(r =~= q + t);
        assert(r.subrange(r.len() - q.len(), r.len() as int) =~= t.subrange(
            t.len() - q.len(),
            t.len() as int,
        ));
    } else {
        let rest = s.skip(1);
        assert(rest.subrange(rest.len() - p.len(), rest.len() as int) =~= s.subrange(
            s.len() - p.len(),
            s.len() as int,
        ));
        lemma_replace_all_keeps_ending(rest, p, q);
        let t = replace_all(rest, p, q);
        assert(r =~= seq![s[0]] + t);
        assert(r.subrange(r.len() - q.len(), r.len() as int) =~= t.subrange(
            t.len() - q.len(),
            t.len() as int,
        ));
    }
}

/// Replaces each occurrence of `p` (non-empty) with `q`.
pub fn replace_str(s: &str, p: &str, q: &str) -> (r: String)
    requires
        p@.len() > 0,
    ensures
        r@ == replace_all(s@, p@, q@),
{
    let v = chars_of(s);
    let pv = chars_of(p);
    let mut out = String::new();
    let mut i: usize = 0;
    assert(v@.skip(0) =~= v@);
    assert(out@ + replace_all(v@.skip(0), p@, q@) =~= replace_all(s@, p@, q@));
    while i < v.len()
        invariant
            i <= v.len(),
            v@ == s@,
            pv@ == p@,
            pv@.len() > 0,
            out@ + replace_all(v@.skip(i as int), p@, q@) == replace_all(s@, p@, q@),
        decreases v.len() - i,
    {
        let ghost rest = v@.skip(i as int);
        if occurs_at_exec(v.as_slice(), pv.as_slice(), i) {
            proof {
                assert(rest.take(p@.len() as int) =~= v@.subrange(i as int, i + p@.len()));
                assert(rest.skip(p@.len() as int) =~= v@.skip(i + p@.len()));
                assert(out@ + q@ + replace_all(v@.skip(i + p@.len()), p@, q@) =~= out@ + (q@
                    + replace_all(rest.skip(p@.len() as int), p@, q@)));
            }
            append_str(&mut out, q);
            i = i + pv.len();
        } else {
            proof {
                assert(rest.skip(1) =~= v@.skip(i + 1));
                assert(rest[0] == v@[i as int]);
                if rest.len() >= p@.len() {
                    assert(rest.take(p@.len() as int) =~= v@.subrange(i as int, i + p@.len()));
                    assert(replace_all(rest, p@, q@) == seq![rest[0]] + replace_all(
                        rest.skip(1),
                        p@,
                        q@,
                    ));
                    assert(out@.push(v@[i as int]) + replace_all(v@.skip(i + 1), p@, q@) =~= out@
                        + (seq![rest[0]] + replace_all(rest.skip(1), p@, q@)));
                } else {
                    assert(replace_all(rest, p@, q@) == rest);
                    assert(replace_all(rest.skip(1), p@, q@) == rest.skip(1));
                    assert(out@.push(v@[i as int]) + replace_all(v@.skip(i + 1), p@, q@) =~= out@
                        + rest);
                }
            }
            push_char(&mut out, v[i]);
            i = i + 1;
        }
    }
    assert(v@.skip(v.len() as int) =~= Seq::<char>::empty());
    assert(out@ + Seq::<char>::empty() =~= out@);
    out
}

/// `char::to_ascii_lowercase`.
pub open spec fn ascii_lower_char(c: char) -> char {
    if 'A' <= c && c <= 'Z' {
        ((c as u32) + 32) as char
    } else {
        c
    }
}

/// `str::to_ascii_lowercase`.
pub open spec fn ascii_lower(s: Seq<char>) -> Seq<char> {
    s.map_values(|c: char| ascii_lower_char(c))
}

/// Lowercases the ASCII letters of a string.
pub fn to_ascii_lowercase(s: &str) -> (r: String)
    ensures
        r@ == ascii_lower(s@),
{
    let v = chars_of(s);
    let mut out = String::new();
    let mut i: usize = 0;
    while i < v.len()
        invariant
            i <= v.len(),
            v@ == s@,
            out@ == ascii_lower(v@.take(i as int)),
        decreases v.len() - i,
    {
        let c = v[i];
        let l = if 'A' <= c && c <= 'Z' {
            ((c as u32) + 32) as u8 as char
        } else {
            c
        };
        assert(l == ascii_lower_char(c));
        push_char(&mut out, l);
        assert(ascii_lower(v@.take(i + 1)) =~= ascii_lower(v@.take(i as int)).push(l));
        i = i + 1;
    }
    assert(v@.take(v.len() as int) =~= v@);
    out
}

/// The first `n` characters of a string (all of it when shorter).
pub fn take_chars(s: &str, n: usize) -> (r: String)
    ensures
        r@ == s@.take(if n < s@.len() { n as int } else { s@.len() as int }),
{
    let v = chars_of(s);
    let end = if n < v.len() {
        n
    } else {
        v.len()
    };
    let r = slice_range(v.as_slice(), 0, end);
    assert(r@ =~= s@.take(end as int));
    string_from_chars(r.as_slice())
}

/// `str::trim_start_matches` with a non-empty string pattern: every leading copy of `p` removed.
pub open spec fn strip_leading_all(s: Seq<char>, p: Seq<char>) -> Seq<char>
    decreases s.len(),
{
    if p.len() > 0 && starts_with(s, p) {
        strip_leading_all(s.skip(p.len() as int), p)
    } else {
        s
    }
}

/// Removes every leading copy of `p` (non-empty).
pub fn trim_start_matches_str(s: &str, p: &str) -> (r: String)
    requires
        p@.len() > 0,
    ensures
        r@ == strip_leading_all(s@, p@),
{
    let v = chars_of(s);
    let pv = chars_of(p);
    let mut i: usize = 0;
    assert(v@.skip(0) =~= v@);
    while occurs_at_exec(v.as_slice(), pv.as_slice(), i)
        invariant
            i <= v.len(),
            v@ == s@,
            pv@ == p@,
            p@.len() > 0,
            strip_leading_all(v@.skip(i as int), p@) == strip_leading_all(s@, p@),
        decreases v.len() - i,
    {
        proof {
            let rest = v@.skip(i as int);
            assert(rest.subrange(0, p@.len() as int) =~= v@.subrange(i as int, i + p@.len()));
            assert(rest.skip(p@.len() as int) =~= v@.skip(i + p@.len()));
        }
        i = i + pv.len();
    }
    proof {
        let rest = v@.skip(i as int);
        if rest.len() >= p@.len() {
            assert(rest.subrange(0, p@.len() as int) =~= v@.subrange(i as int, i + p@.len()));
        }
    }
    let r = slice_range(v.as_slice(), i, v.len());
    assert(r@ =~= v@.skip(i as int));
    string_from_chars(r.as_slice())
}

/// `str::trim`.
pub fn trim_str(s: &str) -> (r: String)
    ensures
        r@ == trim(s@),
{
    let v = chars_of(s);
    let t = trim_chars(v.as_slice());
    string_from_chars(t.as_slice())
}

/// Whether `s` is empty after trimming.
pub fn is_blank(s: &str) -> (r: bool)
    ensures
        r == (trim(s@).len() == 0),
{
    let v = chars_of(s);
    let (a, b) = trim_bounds(v.as_slice());
    a == b
}

/// Character-sequence equality.
pub fn chars_eq(a: &[char], b: &[char]) -> (r: bool)
    ensures
        r == (a@ == b@),
{
    if a.len() != b.len() {
        return false;
    }
    let mut i: usize = 0;
    while i < a.len()
        invariant
            a.len() == b.len(),
            i <= a.len(),
            forall|k: int| 0 <= k < i ==> a@[k] == b@[k],
        decreases a.len() - i,
    {
        if a[i] != b[i] {
            return false;
        }
        i = i + 1;
    }
    assert(a@ =~= b@);
    true
}

/// String-slice equality.
pub fn str_eq(a: &str, b: &str) -> (r: bool)
    ensures
        r == (a@ == b@),
{
    let va = chars_of(a);
    let vb = chars_of(b);
    chars_eq(va.as_slice(), vb.as_slice())
}

/// `p` occurs in `s` at position `i`.
pub open spec fn occurs_at(s: Seq<char>, p: Seq<char>, i: int) -> bool {
    0 <= i && i + p.len() <= s.len() && s.subrange(i, i + p.len()) == p
}

/// `str::contains` with a string pattern.
pub open spec fn contains_seq(s: Seq<char>, p: Seq<char>) -> bool {
    exists|i: int| occurs_at(s, p, i)
}

/// `str::starts_with`.
pub open spec fn starts_with(s: Seq<char>, p: Seq<char>) -> bool {
    occurs_at(s, p, 0)
}

/// `str::ends_with`.
pub open spec fn ends_with(s: Seq<char>, p: Seq<char>) -> bool {
    occurs_at(s, p, s.len() - p.len())
}

/// Whether `p` occurs in `s` at position `i`.
pub fn occurs_at_exec(s: &[char], p: &[char], i: usize) -> (r: bool)
    ensures
        r == occurs_at(s@, p@, i as int),
{
    if i > s.len() || p.len() > s.len() - i {
        return false;
    }
    let mut k: usize = 0;
    while k < p.len()
        invariant
            i + p.len() <= s.len(),
            k <= p.len(),
            forall|m: int| 0 <= m < k ==> s@[i + m] == p@[m],
        decreases p.len() - k,
    {
        if s[i + k] != p[k] {
            assert(s@.subrange(i as int, i + p.len())[k as int] != p@[k as int]);
            return false;
        }
        k = k + 1;
    }
    assert(s@.subrange(i as int, i + p.len()) =~= p@);
    true
}

/// Position of the first occurrence of `p` in `s` at or after `from`.
pub fn find_from(s: &[char], p: &[char], from: usize) -> (r: Option<usize>)
    ensures
        match r {
            Some(i) => from <= i && occurs_at(s@, p@, i as int) && forall|j: int|
                from <= j < i ==> !occurs_at(s@, p@, j),
            None => forall|j: int| from <= j ==> !occurs_at(s@, p@, j),
        },
{
    if p.len() > s.len() {
        return None;
    }
    let last = s.len() - p.len();
    let mut i = from;
    while i <= last
        invariant
            last == s.len() - p.len(),
            from <= i,
            forall|j: int| from <= j < i ==> !occurs_at(s@, p@, j),
        decreases last + 1 - i,
    {
        if occurs_at_exec(s, p, i) {
            return Some(i);
        }
        if i == last {
            assert forall|j: int| from <= j implies !occurs_at(s@, p@, j) by {
                if j > last {
                }
            }
            return None;
        }
        i = i + 1;
    }
    None
}

/// `str::contains` on character slices.
pub fn contains_chars(s: &[char], p: &[char]) -> (r: bool)
    ensures
        r == contains_seq(s@, p@),
{
    match find_from(s, p, 0) {
        Some(_) => true,
        None => {
            assert forall|j: int| !occurs_at(s@, p@, j) by {
                if j >= 0 {
                }
            }
            false
        },
    }
}

/// `str::contains` on string slices.
pub fn contains_str(s: &str, p: &str) -> (r: bool)
    ensures
        r == contains_seq(s@, p@),
{
    let vs = chars_of(s);
    let vp = chars_of(p);
    contains_chars(vs.as_slice(), vp.as_slice())
}

/// `str::starts_with` on character slices.
pub fn starts_with_chars(s: &[char], p: &[char]) -> (r: bool)
    ensures
        r == starts_with(s@, p@),
{
    occurs_at_exec(s, p, 0)
}

/// `str::ends_with` on character slices.
pub fn ends_with_chars(s: &[char], p: &[char]) -> (r: bool)
    ensures
        r == ends_with(s@, p@),
{
    if p.len() > s.len() {
        return false;
    }
    occurs_at_exec(s, p, s.len() - p.len())
}

/// `str::ends_with` on string slices.
pub fn ends_with_str(s: &str, p: &str) -> (r: bool)
    ensures
        r == ends_with(s@, p@),
{
    let vs = chars_of(s);
    let vp = chars_of(p);
    ends_with_chars(vs.as_slice(), vp.as_slice())
}

/// `str::starts_with` on string slices.
pub fn starts_with_str(s: &str, p: &str) -> (r: bool)
    ensures
        r == starts_with(s@, p@),
{
    let vs = chars_of(s);
    let vp = chars_of(p);
    starts_with_chars(vs.as_slice(), vp.as_slice())
}


/// The character sequences of a list of strings.
pub open spec fn views(v: Seq<String>) -> Seq<Seq<char>> {
    v.map_values(|s: String| s@)
}

pub proof fn lemma_views_push(v: Seq<String>, x: String)
    ensures
        views(v.push(x)) == views(v).push(x@),
{
    assert(views(v.push(x)) =~= views(v).push(x@));
}

/// Whether some string of `v` equals `s`.
pub fn contains_string(v: &[String], s: &str) -> (r: bool)
    ensures
        r == views(v@).contains(s@),
{
    let mut i: usize = 0;
    while i < v.len()
        invariant
            i <= v.len(),
            forall|k: int| 0 <= k < i ==> v@[k]@ != s@,
        decreases v.len() - i,
    {
        if str_eq(v[i].as_str(), s) {
            assert(views(v@)[i as int] == s@);
            return true;
        }
        i = i + 1;
    }
    assert forall|k: int| 0 <= k < views(v@).len() implies views(v@)[k] != s@ by {
        assert(views(v@)[k] == v@[k]@);
    }
    false
}

/// Whether one of the first `n` strings of `v` equals `s`.
pub fn contains_string_before(v: &[String], n: usize, s: &str) -> (r: bool)
    requires
        n <= v@.len(),
    ensures
        r == views(v@).take(n as int).contains(s@),
{
    let mut i: usize = 0;
    while i < n
        invariant
            i <= n <= v.len(),
            forall|k: int| 0 <= k < i ==> v@[k]@ != s@,
        decreases n - i,
    {
        if str_eq(v[i].as_str(), s) {
            assert(views(v@).take(n as int)[i as int] == s@);
            return true;
        }
        i = i + 1;
    }
    assert forall|k: int| 0 <= k < views(v@).take(n as int).len() implies views(v@).take(n as int)[k] != s@ by {
        assert(views(v@).take(n as int)[k] == v@[k]@);
    }
    false
}

/// `parts.join(sep)`.
pub open spec fn join(parts: Seq<Seq<char>>, sep: Seq<char>) -> Seq<char>
    decreases parts.len(),
{
    if parts.len() == 0 {
        Seq::empty()
    } else if parts.len() == 1 {
        parts[0]
    } else {
        join(parts.drop_last(), sep) + sep + parts.last()
    }
}

/// Joins strings with a separator.
pub fn join_strings(parts: &[String], sep: &str) -> (r: String)
    ensures
        r@ == join(views(parts@), sep@),
{
    let mut r = String::new();
    let mut i: usize = 0;
    while i < parts.len()
        invariant
            i <= parts.len(),
            r@ == join(views(parts@.take(i as int)), sep@),
        decreases parts.len() - i,
    {
        let ghost before = r@;
        if i > 0 {
            append_str(&mut r, sep);
        }
        append_str(&mut r, parts[i].as_str());
        proof {
            let p = views(parts@.take((i + 1) as int));
            assert(parts@.take((i + 1) as int) =~= parts@.take(i as int).push(parts@[i as int]));
            lemma_views_push(parts@.take(i as int), parts@[i as int]);
            assert(p.drop_last() =~= views(parts@.take(i as int)));
            if i == 0 {
                assert(before =~= Seq::<char>::empty());
                assert(r@ =~= parts@[0]@);
            }
        }
        i = i + 1;
    }
    assert(parts@.take(parts.len() as int) =~= parts@);
    r
}


/// Index of the first `'\n'` in `s`, or `s.len()`.
pub open spec fn first_newline(s: Seq<char>) -> nat
    decreases s.len(),
{
    if s.len() == 0 {
        0
    } else if s[0] == '\n' {
        0
    } else {
        1 + first_newline(s.drop_first())
    }
}

/// The pieces of `str::split_inclusive('\n')` with the newline removed: what `str::lines`
/// yields, except that a `'\r'` before the newline is kept.
pub open spec fn newline_segments(s: Seq<char>) -> Seq<Seq<char>>
    decreases s.len(),
{
    if s.len() == 0 {
        Seq::empty()
    } else {
        let k = first_newline(s);
        if k >= s.len() {
            seq![s]
        } else {
            seq![s.subrange(0, k as int)] + newline_segments(s.subrange(k as int + 1, s.len() as int))
        }
    }
}

pub proof fn lemma_first_newline(s: Seq<char>)
    ensures
        first_newline(s) <= s.len(),
        forall|k: int| 0 <= k < first_newline(s) ==> s[k] != '\n',
        first_newline(s) < s.len() ==> s[first_newline(s) as int] == '\n',
    decreases s.len(),
{
    if s.len() > 0 && s[0] != '\n' {
        lemma_first_newline(s.drop_first());
        assert forall|k: int| 0 <= k < first_newline(s) implies s[k] != '\n' by {
            if k > 0 {
                assert(s[k] == s.drop_first()[k - 1]);
            }
        }
    }
}

pub proof fn lemma_first_newline_unique(s: Seq<char>, k: int)
    requires
        0 <= k <= s.len(),
        forall|j: int| 0 <= j < k ==> s[j] != '\n',
        k < s.len() ==> s[k] == '\n',
    ensures
        first_newline(s) == k,
    decreases s.len(),
{
    if k > 0 {
        assert forall|j: int| 0 <= j < k - 1 implies s.drop_first()[j] != '\n' by {
            assert(s.drop_first()[j] == s[j + 1]);
        }
        lemma_first_newline_unique(s.drop_first(), k - 1);
    }
}

/// Splits text into newline-separated segments (see `newline_segments`).
pub fn split_newlines(text: &str) -> (r: Vec<Vec<char>>)
    ensures
        r@.map_values(|v: Vec<char>| v@) == newline_segments(text@),
{
    let v = chars_of(text);
    let mut out: Vec<Vec<char>> = Vec::new();
    let mut start: usize = 0;
    proof {
        assert(v@.subrange(0, v@.len() as int) =~= v@);
    }
    while start < v.len()
        invariant
            start <= v.len(),
            v@ == text@,
            out@.map_values(|w: Vec<char>| w@) + newline_segments(v@.subrange(start as int, v@.len() as int))
                == newline_segments(text@),
        decreases v.len() - start,
    {
        let ghost rest = v@.subrange(start as int, v@.len() as int);
        let mut end = start;
        while end < v.len() && v[end] != '\n'
            invariant
                start <= end <= v.len(),
                forall|j: int| start <= j < end ==> v@[j] != '\n',
            decreases v.len() - end,
        {
            end = end + 1;
        }
        proof {
            assert forall|j: int| 0 <= j < end - start implies rest[j] != '\n' by {
                assert(rest[j] == v@[start + j]);
            }
            if end < v.len() {
                assert(rest[end - start] == v@[end as int]);
            }
            lemma_first_newline_unique(rest, (end - start) as int);
        }
        let seg = slice_range(v.as_slice(), start, end);
        let ghost before = out@;
        out.push(seg);
        proof {
            assert(out@.map_values(|w: Vec<char>| w@) =~= before.map_values(|w: Vec<char>| w@).push(seg@));
            assert(seg@ =~= rest.subrange(0, (end - start) as int));
        }
        if end >= v.len() {
            proof {
                assert(newline_segments(rest) == seq![rest]);
                assert(rest.subrange(0, (end - start) as int) =~= rest);
                assert(newline_segments(v@.subrange(v@.len() as int, v@.len() as int)) =~= Seq::<Seq<char>>::empty());
                assert(out@.map_values(|w: Vec<char>| w@) =~= out@.map_values(|w: Vec<char>| w@) + Seq::<Seq<char>>::empty());
            }
            start = end;
        } else {
            proof {
                assert(rest.subrange((end - start) + 1, rest.len() as int) =~= v@.subrange(end + 1, v@.len() as int));
                assert(newline_segments(rest) == seq![rest.subrange(0, (end - start) as int)] + newline_segments(v@.subrange(end + 1, v@.len() as int)));
                assert(before.map_values(|w: Vec<char>| w@) + newline_segments(rest) =~= out@.map_values(|w: Vec<char>| w@) + newline_segments(v@.subrange(end + 1, v@.len() as int)));
            }
            start = end + 1;
        }
    }
    proof {
        assert(newline_segments(v@.subrange(start as int, v@.len() as int)) =~= Seq::<Seq<char>>::empty());
        assert(out@.map_values(|w: Vec<char>| w@) =~= out@.map_values(|w: Vec<char>| w@) + Seq::<Seq<char>>::empty());
    }
    out
}


/// The ASCII digit for `d < 10`.
pub open spec fn digit_char(d: nat) -> char {
    ((d + 48) as u8) as char
}

/// Decimal notation of `n`, as `u64`'s `Display` prints it.
pub open spec fn decimal(n: nat) -> Seq<char>
    decreases n,
{
    if n < 10 {
        seq![digit_char(n)]
    } else {
        decimal(n / 10).push(digit_char(n % 10))
    }
}

/// Appends the decimal notation of `n`.
pub fn push_decimal(s: &mut String, n: u64)
    ensures
        final(s)@ == old(s)@ + decimal(n as nat),
    decreases n,
{
    if n >= 10 {
        push_decimal(s, n / 10);
    }
    let d: u8 = (n % 10) as u8;
    push_char(s, (d + 48u8) as char);
    proof {
        assert(digit_char((n % 10) as nat) == ((d + 48u8) as char));
    }
}

/// Decimal notation of `n` as a new string.
pub fn decimal_string(n: u64) -> (r: String)
    ensures
        r@ == decimal(n as nat),
{
    let mut s = String::new();
    push_decimal(&mut s, n);
    assert(s@ =~= decimal(n as nat));
    s
}

/// Lexicographic order by code point, which is the byte order of UTF-8 strings and hence
/// the order of Rust's `String`.
pub open spec fn lex_lt(a: Seq<char>, b: Seq<char>) -> bool
    decreases a.len(),
{
    if a.len() == 0 {
        b.len() > 0
    } else if b.len() == 0 {
        false
    } else if a[0] != b[0] {
        (a[0] as u32) < (b[0] as u32)
    } else {
        lex_lt(a.drop_first(), b.drop_first())
    }
}

pub proof fn lemma_lex_irreflexive(a: Seq<char>)
    ensures
        !lex_lt(a, a),
    decreases a.len(),
{
    if a.len() > 0 {
        lemma_lex_irreflexive(a.drop_first());
    }
}

pub proof fn lemma_lex_transitive(a: Seq<char>, b: Seq<char>, c: Seq<char>)
    requires
        lex_lt(a, b),
        lex_lt(b, c),
    ensures
        lex_lt(a, c),
    decreases a.len(),
{
    if a.len() > 0 && b.len() > 0 && c.len() > 0 {
        if a[0] == b[0] && b[0] == c[0] {
            lemma_lex_transitive(a.drop_first(), b.drop_first(), c.drop_first());
        }
    }
}

pub proof fn lemma_lex_total(a: Seq<char>, b: Seq<char>)
    requires
        a != b,
    ensures
        lex_lt(a, b) || lex_lt(b, a),
    decreases a.len(),
{
    if a.len() == 0 && b.len() == 0 {
        assert(a =~= b);
    } else if a.len() == 0 || b.len() == 0 {
    } else if a[0] == b[0] {
        if a.drop_first() == b.drop_first() {
            assert(a =~= seq![a[0]] + a.drop_first());
            assert(b =~= seq![b[0]] + b.drop_first());
        }
        lemma_lex_total(a.drop_first(), b.drop_first());
    } else {
        let x = a[0];
        let y = b[0];
        assert(x as u32 != y as u32) by {
            if x as u32 == y as u32 {
                vstd::utf8::char_u32_cast(x, x as u32);
                vstd::utf8::char_u32_cast(y, y as u32);
                assert(x == y);
            }
        }
    }
}

/// `a < b` for strings given as characters.
pub fn lex_less(a: &[char], b: &[char]) -> (r: bool)
    ensures
        r == lex_lt(a@, b@),
{
    let mut i: usize = 0;
    proof {
        assert(a@.subrange(0, a@.len() as int) =~= a@);
        assert(b@.subrange(0, b@.len() as int) =~= b@);
    }
    while i < a.len() && i < b.len() && a[i] == b[i]
        invariant
            i <= a.len(),
            i <= b.len(),
            lex_lt(a@, b@) == lex_lt(a@.subrange(i as int, a@.len() as int), b@.subrange(i as int, b@.len() as int)),
        decreases a.len() - i,
    {
        proof {
            let sa = a@.subrange(i as int, a@.len() as int);
            let sb = b@.subrange(i as int, b@.len() as int);
            assert(sa.drop_first() =~= a@.subrange(i + 1, a@.len() as int));
            assert(sb.drop_first() =~= b@.subrange(i + 1, b@.len() as int));
        }
        i = i + 1;
    }
    proof {
        assert(a@.subrange(0, a@.len() as int) =~= a@);
        assert(b@.subrange(0, b@.len() as int) =~= b@);
    }
    if i == a.len() {
        i < b.len()
    } else if i == b.len() {
        false
    } else {
        (a[i] as u32) < (b[i] as u32)
    }
}

/// Strictly increasing in `lex_lt`.
pub open spec fn strictly_sorted(v: Seq<Seq<char>>) -> bool {
    forall|i: int, j: int| 0 <= i < j < v.len() ==> lex_lt(#[trigger] v[i], #[trigger] v[j])
}

/// Inserts `x` into a strictly sorted list that does not hold it.
pub fn insert_sorted(v: &mut Vec<String>, x: String)
    requires
        strictly_sorted(views(old(v)@)),
        !views(old(v)@).contains(x@),
    ensures
        strictly_sorted(views(final(v)@)),
        views(final(v)@).to_set() == views(old(v)@).to_set().insert(x@),
        views(final(v)@).len() == views(old(v)@).len() + 1,
{
    let xv = chars_of(x.as_str());
    let mut p: usize = 0;
    let mut found = false;
    while p < v.len() && !found
        invariant
            p <= v.len(),
            xv@ == x@,
            found ==> p < v.len() && lex_lt(x@, v@[p as int]@),
            forall|k: int| 0 <= k < p ==> !lex_lt(x@, #[trigger] v@[k]@),
        decreases v.len() - p + (if found { 0int } else { 1int }),
    {
        let vp = chars_of(v[p].as_str());
        if lex_less(xv.as_slice(), vp.as_slice()) {
            found = true;
        } else {
            p = p + 1;
        }
    }
    let ghost old_v = views(v@);
    proof {
        assert forall|k: int| 0 <= k < p implies lex_lt(#[trigger] old_v[k], x@) by {
            assert(old_v[k] == v@[k]@);
            assert(old_v[k] != x@);
            lemma_lex_total(old_v[k], x@);
        }
        assert forall|k: int| p <= k < old_v.len() implies lex_lt(x@, #[trigger] old_v[k]) by {
            assert(old_v[p as int] == v@[p as int]@);
            if k > p {
                lemma_lex_transitive(x@, old_v[p as int], old_v[k]);
            }
        }
    }
    v.insert(p, x);
    proof {
        let nv = views(v@);
        assert(nv =~= old_v.subrange(0, p as int).push(x@) + old_v.subrange(p as int, old_v.len() as int));
        assert forall|i: int, j: int| 0 <= i < j < nv.len() implies lex_lt(#[trigger] nv[i], #[trigger] nv[j]) by {
            if j < p {
                assert(nv[i] == old_v[i] && nv[j] == old_v[j]);
            } else if j == p {
                assert(nv[i] == old_v[i]);
            } else if i < p {
                assert(nv[i] == old_v[i] && nv[j] == old_v[j - 1]);
                lemma_lex_transitive(old_v[i], x@, old_v[j - 1]);
            } else if i == p {
                assert(nv[j] == old_v[j - 1]);
            } else {
                assert(nv[i] == old_v[i - 1] && nv[j] == old_v[j - 1]);
            }
        }
        assert forall|e: Seq<char>| nv.to_set().contains(e) <==> old_v.to_set().insert(x@).contains(e) by {
            if nv.contains(e) {
                let i = choose|i: int| 0 <= i < nv.len() && nv[i] == e;
                if i < p {
                    assert(old_v[i] == e);
                } else if i > p {
                    assert(old_v[i - 1] == e);
                }
            }
            if old_v.contains(e) {
                let i = choose|i: int| 0 <= i < old_v.len() && old_v[i] == e;
                if i < p {
                    assert(nv[i] == e);
                } else {
                    assert(nv[i + 1] == e);
                }
            }
            if e == x@ {
                assert(nv[p as int] == e);
            }
        }
        assert(nv.to_set() =~= old_v.to_set().insert(x@));
    }
}


/// Decimal notation of a signed integer, as `i64`'s `Display` prints it.
pub open spec fn decimal_signed(n: int) -> Seq<char> {
    if n < 0 {
        seq!['-'] + decimal((-n) as nat)
    } else {
        decimal(n as nat)
    }
}

/// Appends the decimal notation of a signed integer.
pub fn push_decimal_i64(s: &mut String, n: i64)
    ensures
        final(s)@ == old(s)@ + decimal_signed(n as int),
{
    if n < 0 {
        push_char(s, '-');
        let m: u64 = if n == i64::MIN {
            9223372036854775808u64
        } else {
            (-n) as u64
        };
        assert(m as int == -(n as int));
        push_decimal(s, m);
        assert(s@ =~= old(s)@ + decimal_signed(n as int));
    } else {
        push_decimal(s, n as u64);
    }
}

/// The value of a non-empty ASCII digit string.
pub open spec fn digits_value(d: Seq<char>) -> nat
    decreases d.len(),
{
    if d.len() == 0 {
        0
    } else {
        digits_value(d.drop_last()) * 10 + ((d.last() as u32) - 48) as nat
    }
}

pub open spec fn all_digits(d: Seq<char>) -> bool {
    forall|i: int| 0 <= i < d.len() ==> '0' <= #[trigger] d[i] <= '9'
}

/// A JSON integer that fits `i64`: an optional `-` and at least one digit.
pub open spec fn parse_i64_spec(t: Seq<char>) -> Option<int> {
    let neg = t.len() > 0 && t[0] == '-';
    let d = if neg { t.drop_first() } else { t };
    if d.len() == 0 || !all_digits(d) {
        None
    } else {
        let v = if neg { -(digits_value(d) as int) } else { digits_value(d) as int };
        if i64::MIN <= v <= i64::MAX { Some(v) } else { None }
    }
}

proof fn lemma_digits_value_step(d: Seq<char>, i: int)
    requires
        0 <= i < d.len(),
    ensures
        digits_value(d.take(i + 1)) == digits_value(d.take(i)) * 10 + ((d[i] as u32) - 48) as nat,
{
    assert(d.take(i + 1).drop_last() =~= d.take(i));
}

/// Reads an integer written as JSON prints an `i64`.
pub fn parse_i64_chars(t: &[char]) -> (r: Option<i64>)
    ensures
        match r {
            Some(v) => parse_i64_spec(t@) == Some(v as int),
            None => parse_i64_spec(t@) is None,
        },
{
    let neg = t.len() > 0 && t[0] == '-';
    let start: usize = if neg { 1 } else { 0 };
    let ghost d = if neg { t@.drop_first() } else { t@ };
    assert(d =~= t@.subrange(start as int, t@.len() as int));
    if t.len() == start {
        return None;
    }
    // accumulate in u128 to detect overflow of the i64 range
    let limit: u128 = if neg { 9223372036854775808u128 } else { 9223372036854775807u128 };
    let mut acc: u128 = 0;
    let mut i: usize = start;
    while i < t.len()
        invariant
            start <= i <= t.len(),
            neg == (t@.len() > 0 && t@[0] == '-'),
            start == (if neg { 1usize } else { 0usize }),
            d == (if neg { t@.drop_first() } else { t@ }),
            limit == (if neg { 9223372036854775808u128 } else { 9223372036854775807u128 }),
            d =~= t@.subrange(start as int, t@.len() as int),
            all_digits(d.take(i - start)),
            acc as nat == digits_value(d.take(i - start)),
            acc <= limit,
            limit <= 9223372036854775808u128,
        decreases t.len() - i,
    {
        let c = t[i];
        if c < '0' || c > '9' {
            assert(d[i - start] == c);
            assert(!all_digits(d));
            return None;
        }
        proof {
            lemma_digits_value_step(d, i - start);
            assert(d.take(i - start + 1) =~= d.take(i - start).push(c));
        }
        let digit: u128 = ((c as u32) - 48) as u128;
        acc = acc * 10 + digit;
        if acc > limit {
            proof {
                if all_digits(d) {
                    lemma_digits_prefix_bound(d, i - start + 1);
                }
            }
            return None;
        }
        i = i + 1;
    }
    assert(d.take(d.len() as int) =~= d);
    if neg {
        if acc == 9223372036854775808u128 {
            Some(i64::MIN)
        } else {
            Some(-(acc as i64))
        }
    } else {
        Some(acc as i64)
    }
}

/// An unsigned integer as `str::parse` reads it: an optional `+` and at least one digit,
/// worth at most `max`.
pub open spec fn parse_uint_spec(t: Seq<char>, max: nat) -> Option<nat> {
    let plus = t.len() > 0 && t[0] == '+';
    let d = if plus {
        t.drop_first()
    } else {
        t
    };
    if d.len() == 0 || !all_digits(d) || digits_value(d) > max {
        None
    } else {
        Some(digits_value(d))
    }
}

/// Reads an unsigned integer no larger than `max` (see `parse_uint_spec`).
pub fn parse_uint_chars(t: &[char], max: u64) -> (r: Option<u64>)
    ensures
        match r {
            Some(v) => parse_uint_spec(t@, max as nat) == Some(v as nat),
            None => parse_uint_spec(t@, max as nat) is None,
        },
{
    let plus = t.len() > 0 && t[0] == '+';
    let start: usize = if plus { 1 } else { 0 };
    let ghost d = if plus { t@.drop_first() } else { t@ };
    assert(d =~= t@.subrange(start as int, t@.len() as int));
    if t.len() == start {
        return None;
    }
    let mut acc: u128 = 0;
    let mut i: usize = start;
    while i < t.len()
        invariant
            start <= i <= t.len(),
            plus == (t@.len() > 0 && t@[0] == '+'),
            start == (if plus { 1usize } else { 0usize }),
            d == (if plus { t@.drop_first() } else { t@ }),
            d =~= t@.subrange(start as int, t@.len() as int),
            all_digits(d.take(i - start)),
            acc as nat == digits_value(d.take(i - start)),
            acc <= max,
        decreases t.len() - i,
    {
        let c = t[i];
        if c < '0' || c > '9' {
            assert(d[i - start] == c);
            assert(!all_digits(d));
            return None;
        }
        proof {
            lemma_digits_value_step(d, i - start);
            assert(d.take(i - start + 1) =~= d.take(i - start).push(c));
        }
        let digit: u128 = ((c as u32) - 48) as u128;
        acc = acc * 10 + digit;
        if acc > max as u128 {
            proof {
                if all_digits(d) {
                    lemma_digits_prefix_bound(d, i - start + 1);
                }
            }
            return None;
        }
        i = i + 1;
    }
    assert(d.take(d.len() as int) =~= d);
    Some(acc as u64)
}

/// Index of the first whitespace character of `s`, or `s.len()`.
pub open spec fn first_ws(s: Seq<char>) -> nat
    decreases s.len(),
{
    if s.len() == 0 {
        0
    } else if is_ws(s[0]) {
        0
    } else {
        1 + first_ws(s.drop_first())
    }
}

pub proof fn lemma_first_ws(s: Seq<char>)
    ensures
        first_ws(s) <= s.len(),
        forall|k: int| 0 <= k < first_ws(s) ==> !is_ws(#[trigger] s[k]),
        first_ws(s) < s.len() ==> is_ws(s[first_ws(s) as int]),
    decreases s.len(),
{
    if s.len() > 0 && !is_ws(s[0]) {
        lemma_first_ws(s.drop_first());
        assert forall|k: int| 0 <= k < first_ws(s) implies !is_ws(#[trigger] s[k]) by {
            if k > 0 {
                assert(s[k] == s.drop_first()[k - 1]);
            }
        }
    }
}

pub proof fn lemma_first_ws_unique(s: Seq<char>, k: int)
    requires
        0 <= k <= s.len(),
        forall|j: int| 0 <= j < k ==> !is_ws(#[trigger] s[j]),
        k < s.len() ==> is_ws(s[k]),
    ensures
        first_ws(s) == k,
    decreases s.len(),
{
    if k > 0 {
        assert(!is_ws(s[0]));
        assert forall|j: int| 0 <= j < k - 1 implies !is_ws(#[trigger] s.drop_first()[j]) by {
            assert(s.drop_first()[j] == s[j + 1]);
        }
        lemma_first_ws_unique(s.drop_first(), k - 1);
    }
}

/// The pieces `str::split_whitespace` yields.
pub open spec fn ws_tokens(s: Seq<char>) -> Seq<Seq<char>>
    decreases s.len(),
{
    let t = trim_start(s);
    if t.len() == 0 {
        Seq::empty()
    } else {
        let k = first_ws(t);
        if k >= 1 && k <= t.len() && t.len() <= s.len() {
            seq![t.take(k as int)] + ws_tokens(t.skip(k as int))
        } else {
            Seq::empty()
        }
    }
}

pub proof fn lemma_ws_tokens_unfold(s: Seq<char>)
    requires
        trim_start(s).len() > 0,
    ensures
        ws_tokens(s) == seq![trim_start(s).take(first_ws(trim_start(s)) as int)] + ws_tokens(
            trim_start(s).skip(first_ws(trim_start(s)) as int),
        ),
{
    lemma_lead_ws(s);
    let t = trim_start(s);
    assert(!is_ws(t[0])) by {
        assert(t[0] == s[lead_ws(s) as int]);
    }
    lemma_first_ws(t);
}

/// The first whitespace-separated token of a string, if any.
pub open spec fn first_token(s: Seq<char>) -> Option<Seq<char>> {
    if ws_tokens(s).len() > 0 {
        Some(ws_tokens(s)[0])
    } else {
        None
    }
}

/// Splits at runs of whitespace, as `str::split_whitespace` does.
pub fn split_whitespace_chars(s: &[char]) -> (r: Vec<Vec<char>>)
    ensures
        r@.map_values(|v: Vec<char>| v@) == ws_tokens(s@),
{
    let mut out: Vec<Vec<char>> = Vec::new();
    let mut i: usize = 0;
    assert(s@.skip(0) =~= s@);
    while i < s.len()
        invariant
            i <= s.len(),
            out@.map_values(|v: Vec<char>| v@) + ws_tokens(s@.skip(i as int)) == ws_tokens(s@),
        decreases s.len() - i,
    {
        let ghost rest = s@.skip(i as int);
        let mut j = i;
        while j < s.len() && is_whitespace(s[j])
            invariant
                i <= j <= s.len(),
                forall|k: int| i <= k < j ==> is_ws(#[trigger] s@[k]),
            decreases s.len() - j,
        {
            j = j + 1;
        }
        proof {
            assert forall|k: int| 0 <= k < j - i implies is_ws(#[trigger] rest[k]) by {
                assert(rest[k] == s@[i + k]);
            }
            if j < s.len() {
                assert(rest[j - i] == s@[j as int]);
            }
            lemma_lead_ws_unique(rest, (j - i) as int);
            assert(trim_start(rest) =~= s@.skip(j as int));
        }
        if j == s.len() {
            proof {
                assert(trim_start(rest).len() == 0);
                assert(ws_tokens(rest) == Seq::<Seq<char>>::empty());
                assert(s@.skip(j as int) =~= Seq::<char>::empty());
                assert(ws_tokens(s@.skip(j as int)) == Seq::<Seq<char>>::empty()) by {
                    assert(trim_start(s@.skip(j as int)).len() == 0);
                }
            }
            i = j;
        } else {
            let mut e = j;
            while e < s.len() && !is_whitespace(s[e])
                invariant
                    j <= e <= s.len(),
                    forall|k: int| j <= k < e ==> !is_ws(#[trigger] s@[k]),
                decreases s.len() - e,
            {
                e = e + 1;
            }
            let tok = slice_range(s, j, e);
            proof {
                let t = trim_start(rest);
                assert forall|k: int| 0 <= k < e - j implies !is_ws(#[trigger] t[k]) by {
                    assert(t[k] == s@[j + k]);
                }
                if e < s.len() {
                    assert(t[e - j] == s@[e as int]);
                }
                lemma_first_ws_unique(t, (e - j) as int);
                lemma_ws_tokens_unfold(rest);
                assert(t.take((e - j) as int) =~= tok@);
                assert(t.skip((e - j) as int) =~= s@.skip(e as int));
            }
            let ghost before = out@;
            out.push(tok);
            proof {
                assert(out@.map_values(|v: Vec<char>| v@) =~= before.map_values(|v: Vec<char>| v@).push(tok@));
                assert(before.map_values(|v: Vec<char>| v@) + ws_tokens(rest) =~= out@.map_values(
                    |v: Vec<char>| v@,
                ) + ws_tokens(s@.skip(e as int)));
            }
            i = e;
        }
    }
    proof {
        assert(s@.skip(i as int) =~= Seq::<char>::empty());
        assert(ws_tokens(s@.skip(i as int)) == Seq::<Seq<char>>::empty()) by {
            assert(trim_start(s@.skip(i as int)).len() == 0);
        }
        assert(out@.map_values(|v: Vec<char>| v@) + Seq::<Seq<char>>::empty() =~= out@.map_values(
            |v: Vec<char>| v@,
        ));
    }
    out
}

/// A longer digit string is worth at least as much as its prefix.
proof fn lemma_digits_prefix_bound(d: Seq<char>, k: int)
    requires
        0 <= k <= d.len(),
        all_digits(d),
    ensures
        digits_value(d) >= digits_value(d.take(k)),
    decreases d.len() - k,
{
    if k < d.len() {
        lemma_digits_prefix_bound(d, k + 1);
        lemma_digits_value_step(d, k);
    } else {
        assert(d.take(k) =~= d);
    }
}

} // verus!
