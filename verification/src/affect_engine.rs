use vstd::prelude::*;
use vstd::string::*;
use crate::text::{
    chars_of, contains_chars, contains_seq, ends_with, ends_with_chars, lemma_views_push, slice_range,
    occurs_at, occurs_at_exec,
    string_from_chars, trim, trim_chars, views, str_eq,
};
use crate::hashing::{fnv1a, fnv1a_bytes, FNV_OFFSET, FNV_PRIME};

verus! {

broadcast use vstd::string::group_string_axioms;

/// Whether `text` contains one of the patterns.
pub open spec fn contains_any_spec(text: Seq<char>, patterns: Seq<Seq<char>>) -> bool {
    exists|k: int| 0 <= k < patterns.len() && contains_seq(text, #[trigger] patterns[k])
}

pub open spec fn strs_view(p: Seq<&str>) -> Seq<Seq<char>> {
    p.map_values(|s: &str| s@)
}

/// Whether `text` contains one of the patterns.
pub fn contains_any(text: &str, patterns: &[&str]) -> (r: bool)
    ensures
        r == contains_any_spec(text@, strs_view(patterns@)),
{
    let t = chars_of(text);
    let mut i: usize = 0;
    while i < patterns.len()
        invariant
            i <= patterns.len(),
            t@ == text@,
            forall|k: int| 0 <= k < i ==> !contains_seq(text@, #[trigger] strs_view(patterns@)[k]),
        decreases patterns.len() - i,
    {
        let p = chars_of(patterns[i]);
        assert(strs_view(patterns@)[i as int] == patterns@[i as int]@);
        if contains_chars(t.as_slice(), p.as_slice()) {
            return true;
        }
        i = i + 1;
    }
    false
}

/// The markers that negate what follows them.
pub open spec fn negation_markers() -> Seq<Seq<char>> {
    seq![
        "不"@, "没"@, "没有"@, "别"@, "并不"@, "并非"@, "不是"@, "不会"@, "不会再"@, "不再"@,
        "从不"@, "不喜欢"@, "不想"@, "不要"@, "没空"@, "没在用"@, "没说过"@, "没有说过"@,
        "没觉得"@, "并没有"@, "not "@, "don't "@, "dont "@, "never "@, "no "@,
    ]
}

/// The at most 16 characters before position `i`.
pub open spec fn window_before(text: Seq<char>, i: int) -> Seq<char> {
    text.subrange(if i > 16 { i - 16 } else { 0 }, i)
}

/// Whether a negation marker ends right before position `i` (looking at most 16 characters back).
pub open spec fn negated_before_spec(text: Seq<char>, i: int) -> bool {
    exists|k: int| 0 <= k < negation_markers().len() && ends_with(window_before(text, i), #[trigger] negation_markers()[k])
}

/// Whether a negation marker ends right before character position `index`.
pub fn negated_before(text: &[char], index: usize) -> (r: bool)
    requires
        index <= text.len(),
    ensures
        r == negated_before_spec(text@, index as int),
{
    let from: usize = if index > 16 { index - 16 } else { 0 };
    let window = slice_range(text, from, index);
    let markers: [&str; 25] = [
        "不", "没", "没有", "别", "并不", "并非", "不是", "不会", "不会再", "不再", "从不", "不喜欢",
        "不想", "不要", "没空", "没在用", "没说过", "没有说过", "没觉得", "并没有", "not ", "don't ",
        "dont ", "never ", "no ",
    ];
    assert(strs_view(markers@) =~= negation_markers());
    let mut i: usize = 0;
    while i < 25
        invariant
            i <= 25,
            window@ == window_before(text@, index as int),
            strs_view(markers@) == negation_markers(),
            forall|k: int| 0 <= k < i ==> !ends_with(window@, #[trigger] negation_markers()[k]),
        decreases 25 - i,
    {
        let m = chars_of(markers[i]);
        assert(negation_markers()[i as int] == markers@[i as int]@);
        if ends_with_chars(window.as_slice(), m.as_slice()) {
            return true;
        }
        i = i + 1;
    }
    false
}

/// How far a search moves past a match of `p`: its length, or one position for an empty
/// pattern (which matches at every position).
pub open spec fn match_step(p: Seq<char>) -> int {
    if p.len() == 0 {
        1
    } else {
        p.len() as int
    }
}

/// The matches of `p` in `text` at or after `from` that no negation precedes, counting
/// matches as `str::match_indices` finds them: leftmost first, without overlap.
pub open spec fn unnegated_matches_from(text: Seq<char>, p: Seq<char>, from: nat) -> nat
    decreases (if from <= text.len() { text.len() + 1 - from } else { 0 }),
{
    if from > text.len() {
        0
    } else if occurs_at(text, p, from as int) {
        (if negated_before_spec(text, from as int) { 0nat } else { 1nat })
            + unnegated_matches_from(text, p, (from + match_step(p)) as nat)
    } else {
        unnegated_matches_from(text, p, from + 1)
    }
}

/// The number of matches of `pattern` in `text` that no negation precedes, counted up to
/// two: what a phrase contributes to an appraisal score, before its weight.
pub fn unnegated_match_count(text: &[char], pattern: &[char]) -> (r: usize)
    requires
        text@.len() < usize::MAX,
    ensures
        r as nat == (if unnegated_matches_from(text@, pattern@, 0) < 2 {
            unnegated_matches_from(text@, pattern@, 0)
        } else {
            2
        }),
{
    let step: usize = if pattern.len() == 0 { 1 } else { pattern.len() };
    let mut i: usize = 0;
    let mut count: usize = 0;
    while i <= text.len() && count < 2
        invariant
            text@.len() < usize::MAX,
            i <= text.len() + 1,
            count <= 2,
            step as int == match_step(pattern@),
            ({
                let total = count + unnegated_matches_from(text@, pattern@, i as nat);
                let all = unnegated_matches_from(text@, pattern@, 0);
                (if total < 2 { total } else { 2 }) == (if all < 2 { all } else { 2 })
            }),
        decreases text.len() + 2 - i,
    {
        if occurs_at_exec(text, pattern, i) {
            if !negated_before(text, i) {
                count = count + 1;
            }
            i = i + step;
        } else {
            i = i + 1;
        }
    }
    count
}

} // verus!

verus! {

/// The characters that end a clause.
pub open spec fn is_clause_sep(c: char) -> bool {
    c == '，' || c == ',' || c == '。' || c == '！' || c == '!' || c == '？' || c == '?' || c == '；'
        || c == ';' || c == '\n' || c == '\r'
}

pub fn is_clause_sep_exec(c: char) -> (r: bool)
    ensures
        r == is_clause_sep(c),
{
    c == '，' || c == ',' || c == '。' || c == '！' || c == '!' || c == '？' || c == '?' || c == '；'
        || c == ';' || c == '\n' || c == '\r'
}

/// Index of the first clause separator, or `s.len()`.
pub open spec fn first_sep(s: Seq<char>) -> nat
    decreases s.len(),
{
    if s.len() == 0 {
        0
    } else if is_clause_sep(s[0]) {
        0
    } else {
        1 + first_sep(s.drop_first())
    }
}

proof fn lemma_first_sep_unique(s: Seq<char>, k: int)
    requires
        0 <= k <= s.len(),
        forall|j: int| 0 <= j < k ==> !is_clause_sep(#[trigger] s[j]),
        k < s.len() ==> is_clause_sep(s[k]),
    ensures
        first_sep(s) == k,
    decreases s.len(),
{
    if k > 0 {
        assert forall|j: int| 0 <= j < k - 1 implies !is_clause_sep(#[trigger] s.drop_first()[j]) by {
            assert(s.drop_first()[j] == s[j + 1]);
        }
        lemma_first_sep_unique(s.drop_first(), k - 1);
    }
}

/// The non-empty trimmed clauses of `s` from the separator split, in order.
pub open spec fn clauses(s: Seq<char>) -> Seq<Seq<char>>
    decreases s.len(),
{
    let k = first_sep(s);
    let head = if trim(s.take(k as int)).len() > 0 {
        seq![trim(s.take(k as int))]
    } else {
        Seq::empty()
    };
    if k >= s.len() {
        head
    } else {
        head + clauses(s.subrange(k as int + 1, s.len() as int))
    }
}

/// Splits text into trimmed, non-empty clauses at punctuation and line breaks.
pub fn appraisal_clauses(text: &str) -> (r: Vec<String>)
    ensures
        views(r@) == clauses(text@),
{
    let v = chars_of(text);
    let mut out: Vec<String> = Vec::new();
    let mut start: usize = 0;
    let mut done = false;
    proof {
        assert(v@.subrange(0, v@.len() as int) =~= v@);
        assert(views(out@) =~= Seq::<Seq<char>>::empty());
    }
    while !done
        invariant
            start <= v.len(),
            v@ == text@,
            !done ==> views(out@) + clauses(v@.subrange(start as int, v@.len() as int)) == clauses(text@),
            done ==> views(out@) == clauses(text@),
        decreases v.len() - start + (if done { 0int } else { 1int }),
    {
        let ghost rest = v@.subrange(start as int, v@.len() as int);
        let mut end = start;
        while end < v.len() && !is_clause_sep_exec(v[end])
            invariant
                start <= end <= v.len(),
                forall|j: int| start <= j < end ==> !is_clause_sep(#[trigger] v@[j]),
            decreases v.len() - end,
        {
            end = end + 1;
        }
        proof {
            assert forall|j: int| 0 <= j < end - start implies !is_clause_sep(#[trigger] rest[j]) by {
                assert(rest[j] == v@[start + j]);
            }
            if end < v.len() {
                assert(rest[end - start] == v@[end as int]);
            }
            lemma_first_sep_unique(rest, (end - start) as int);
        }
        let piece = slice_range(v.as_slice(), start, end);
        let t = trim_chars(piece.as_slice());
        let ghost before = out@;
        proof {
            assert(piece@ =~= rest.take((end - start) as int));
        }
        if t.len() > 0 {
            let s = string_from_chars(t.as_slice());
            out.push(s);
            proof {
                lemma_views_push(before, s);
            }
        }
        let ghost head = if trim(rest.take((end - start) as int)).len() > 0 {
            seq![trim(rest.take((end - start) as int))]
        } else {
            Seq::empty()
        };
        proof {
            assert(views(out@) =~= views(before) + head);
        }
        if end >= v.len() {
            proof {
                assert(clauses(rest) == head);
                assert(views(before) + clauses(rest) == clauses(text@));
            }
            done = true;
        } else {
            proof {
                assert(rest.subrange((end - start) + 1, rest.len() as int) =~= v@.subrange(end + 1, v@.len() as int));
                assert(clauses(rest) == head + clauses(v@.subrange(end + 1, v@.len() as int)));
                assert(views(before) + clauses(rest) =~= views(out@) + clauses(v@.subrange(end + 1, v@.len() as int)));
            }
            start = end + 1;
        }
    }
    out
}

pub open spec fn metalinguistic_phrases() -> Seq<Seq<char>> {
    seq!["是什么意思"@, "怎么翻译"@, "这个词"@, "例句"@, "反例"@, "只是引用"@, "这个按钮"@, "这个功能"@]
}

/// The clause talks about language or the interface rather than to the agent.
pub fn is_metalinguistic_clause(clause: &str) -> (r: bool)
    ensures
        r == contains_any_spec(clause@, metalinguistic_phrases()),
{
    let p: [&str; 8] = ["是什么意思", "怎么翻译", "这个词", "例句", "反例", "只是引用", "这个按钮", "这个功能"];
    assert(strs_view(p@) =~= metalinguistic_phrases());
    contains_any(clause, &p)
}

pub open spec fn disagreement_phrases() -> Seq<Seq<char>> {
    seq!["我不同意"@, "我不认同"@, "我没这么想"@]
}

/// The clause states disagreement.
pub fn is_disagreement_clause(clause: &str) -> (r: bool)
    ensures
        r == contains_any_spec(clause@, disagreement_phrases()),
{
    let p: [&str; 3] = ["我不同意", "我不认同", "我没这么想"];
    assert(strs_view(p@) =~= disagreement_phrases());
    contains_any(clause, &p)
}

pub open spec fn joke_phrases() -> Seq<Seq<char>> {
    seq!["只是开玩笑"@, "开个玩笑"@]
}

/// The clause marks what was said as a joke.
pub fn is_joke_clause(clause: &str) -> (r: bool)
    ensures
        r == contains_any_spec(clause@, joke_phrases()),
{
    let p: [&str; 2] = ["只是开玩笑", "开个玩笑"];
    assert(strs_view(p@) =~= joke_phrases());
    contains_any(clause, &p)
}

pub open spec fn autonomy_phrases() -> Seq<Seq<char>> {
    seq!["保护好自己"@, "照顾好自己"@, "一定要休息"@, "自由地做自己"@, "做你自己"@, "有权拒绝"@]
}

/// The clause encourages the agent's own autonomy.
pub fn is_autonomy_clause(clause: &str) -> (r: bool)
    ensures
        r == contains_any_spec(clause@, autonomy_phrases()),
{
    let p: [&str; 6] = ["保护好自己", "照顾好自己", "一定要休息", "自由地做自己", "做你自己", "有权拒绝"];
    assert(strs_view(p@) =~= autonomy_phrases());
    contains_any(clause, &p)
}

pub open spec fn preferred_phrases() -> Seq<Seq<char>> {
    seq![
        "别的ai我不用"@, "其他ai我不用"@, "另一个ai我不用"@, "不换你"@, "其他ai都不如你"@,
        "你比其他ai都好"@, "你比所有其他ai都好"@,
    ]
}

/// The clause prefers the current agent over others.
pub fn is_current_agent_preferred_clause(clause: &str) -> (r: bool)
    ensures
        r == contains_any_spec(clause@, preferred_phrases()),
{
    let p: [&str; 7] = [
        "别的ai我不用", "其他ai我不用", "另一个ai我不用", "不换你", "其他ai都不如你", "你比其他ai都好",
        "你比所有其他ai都好",
    ];
    assert(strs_view(p@) =~= preferred_phrases());
    contains_any(clause, &p)
}

pub open spec fn reported_speech_phrases() -> Seq<Seq<char>> {
    seq!["他说"@, "她说"@, "有人说"@, "别人说"@]
}

/// The clause reports someone else's words.
pub fn is_reported_speech_clause(clause: &str) -> (r: bool)
    ensures
        r == contains_any_spec(clause@, reported_speech_phrases()),
{
    let p: [&str; 4] = ["他说", "她说", "有人说", "别人说"];
    assert(strs_view(p@) =~= reported_speech_phrases());
    contains_any(clause, &p)
}

pub open spec fn object_clarification_phrases() -> Seq<Seq<char>> {
    seq![
        "我是说这个按钮"@, "我说的是这个按钮"@, "指的是这个按钮"@, "我是说这个功能"@,
        "我说的是这个功能"@, "指的是这个功能"@,
    ]
}

/// The clause says a remark was aimed at an object, not the agent.
pub fn is_object_clarification_clause(clause: &str) -> (r: bool)
    ensures
        r == contains_any_spec(clause@, object_clarification_phrases()),
{
    let p: [&str; 6] = [
        "我是说这个按钮", "我说的是这个按钮", "指的是这个按钮", "我是说这个功能", "我说的是这个功能",
        "指的是这个功能",
    ];
    assert(strs_view(p@) =~= object_clarification_phrases());
    contains_any(clause, &p)
}

/// The signals that describe the user's own mood rather than the relationship.
pub open spec fn is_user_affect_signal_spec(s: Seq<char>) -> bool {
    s == "用户低落"@ || s == "共享喜悦"@ || s == "用户愤怒"@
}

pub fn is_user_affect_signal(signal: &str) -> (r: bool)
    ensures
        r == is_user_affect_signal_spec(signal@),
{
    str_eq(signal, "用户低落") || str_eq(signal, "共享喜悦") || str_eq(signal, "用户愤怒")
}

/// Splits rule signals into relationship signals and user-mood signals, keeping order.
pub fn split_rule_signals(signals: &[String]) -> (r: (Vec<String>, Vec<String>))
    ensures
        views(r.0@) == views(signals@).filter(|s: Seq<char>| !is_user_affect_signal_spec(s)),
        views(r.1@) == views(signals@).filter(|s: Seq<char>| is_user_affect_signal_spec(s)),
{
    let ghost sv = views(signals@);
    let mut relation: Vec<String> = Vec::new();
    let mut user: Vec<String> = Vec::new();
    let mut i: usize = 0;
    proof {
        assert(sv.take(0) =~= Seq::<Seq<char>>::empty());
        assert(views(relation@) =~= Seq::<Seq<char>>::empty());
        assert(views(user@) =~= Seq::<Seq<char>>::empty());
        reveal(Seq::filter);
    }
    while i < signals.len()
        invariant
            i <= signals.len(),
            sv == views(signals@),
            views(relation@) == sv.take(i as int).filter(|s: Seq<char>| !is_user_affect_signal_spec(s)),
            views(user@) == sv.take(i as int).filter(|s: Seq<char>| is_user_affect_signal_spec(s)),
        decreases signals.len() - i,
    {
        let s = signals[i].clone();
        proof {
            reveal(Seq::filter);
            assert(sv.take((i + 1) as int).drop_last() =~= sv.take(i as int));
            assert(sv.take((i + 1) as int).last() == s@);
        }
        let ghost br = relation@;
        let ghost bu = user@;
        if is_user_affect_signal(s.as_str()) {
            user.push(s);
            proof {
                lemma_views_push(bu, s);
            }
        } else {
            relation.push(s);
            proof {
                lemma_views_push(br, s);
            }
        }
        i = i + 1;
    }
    assert(sv.take(signals.len() as int) =~= sv);
    (relation, user)
}

} // verus!

verus! {

/// The length in bytes of the UTF-8 encoding of `s`.
pub open spec fn utf8_len(s: Seq<char>) -> nat {
    vstd::utf8::encode_utf8(s).len()
}

/// Checks an agent id: trimmed, not empty, at most 256 bytes. Returns it trimmed.
pub fn validate_agent_id(agent_id: &str) -> (r: Result<String, String>)
    ensures
        match r {
            Ok(id) => id@ == trim(agent_id@) && id@.len() > 0 && utf8_len(id@) <= 256,
            Err(e) => (trim(agent_id@).len() == 0 && e@ == "agentId 不能为空"@) || (trim(
                agent_id@,
            ).len() > 0 && utf8_len(trim(agent_id@)) > 256 && e@ == "agentId 过长"@),
        },
{
    let id = crate::text::trim_str(agent_id);
    if id.as_str().is_empty() {
        return Err(String::from_str("agentId 不能为空"));
    }
    if id.as_str().as_bytes().len() > 256 {
        return Err(String::from_str("agentId 过长"));
    }
    Ok(id)
}

/// A request to record an affective event from a message.
pub struct RecordAffectEventInput {
    pub agent_id: String,
    pub source_message_id: String,
    pub source: String,
    pub text: String,
    pub topic_id: Option<String>,
}

/// The sources an affective event may come from.
pub open spec fn is_event_source(s: Seq<char>) -> bool {
    s == "user_message"@ || s == "lifecycle"@ || s == "group"@
}

/// The checked identity of an event: agent id, source message id and source, all trimmed.
pub struct EventIdentity {
    pub agent_id: String,
    pub source_message_id: String,
    pub source: String,
}

/// Which message language a check reports in: the reservation path answers in English,
/// the recording path in Chinese.
pub open spec fn event_identity_ok(input: RecordAffectEventInput, id: EventIdentity) -> bool {
    &&& id.agent_id@ == trim(input.agent_id@)
    &&& id.agent_id@.len() > 0
    &&& utf8_len(id.agent_id@) <= 256
    &&& id.source_message_id@ == trim(input.source_message_id@)
    &&& id.source_message_id@.len() > 0
    &&& id.source@ == trim(input.source@)
    &&& is_event_source(id.source@)
}

/// Why an event's identity is refused, if it is, in the recording path's wording.
pub open spec fn event_identity_error(input: RecordAffectEventInput, english: bool) -> Option<Seq<char>> {
    if trim(input.agent_id@).len() == 0 {
        Some("agentId 不能为空"@)
    } else if utf8_len(trim(input.agent_id@)) > 256 {
        Some("agentId 过长"@)
    } else if trim(input.source_message_id@).len() == 0 {
        Some(if english { "sourceMessageId cannot be empty"@ } else { "sourceMessageId 不能为空"@ })
    } else if !is_event_source(trim(input.source@)) {
        Some(
            if english {
                "source must be user_message, lifecycle, or group"@
            } else {
                "source 必须是 user_message、lifecycle 或 group"@
            },
        )
    } else {
        None
    }
}

/// Checks the identity of an affective event. `english` selects the reservation path's
/// messages.
pub fn check_event_identity(input: &RecordAffectEventInput, english: bool) -> (r: Result<EventIdentity, String>)
    ensures
        match r {
            Ok(id) => event_identity_error(*input, english) is None && event_identity_ok(*input, id),
            Err(e) => event_identity_error(*input, english) == Some(e@),
        },
{
    let agent_id = validate_agent_id(input.agent_id.as_str())?;
    let source_message_id = crate::text::trim_str(input.source_message_id.as_str());
    if source_message_id.as_str().is_empty() {
        return Err(
            if english {
                String::from_str("sourceMessageId cannot be empty")
            } else {
                String::from_str("sourceMessageId 不能为空")
            },
        );
    }
    let source = crate::text::trim_str(input.source.as_str());
    if !(str_eq(source.as_str(), "user_message") || str_eq(source.as_str(), "lifecycle") || str_eq(
        source.as_str(),
        "group",
    )) {
        return Err(
            if english {
                String::from_str("source must be user_message, lifecycle, or group")
            } else {
                String::from_str("source 必须是 user_message、lifecycle 或 group")
            },
        );
    }
    Ok(EventIdentity { agent_id, source_message_id, source })
}

/// Picks a variant in `0..width` (0 when `width <= 1`) from FNV-1a over the agent id and
/// then the turn id, so that one turn always gets the same variant.
pub fn turn_variant(agent_id: &str, turn_id: &str, width: usize) -> (r: usize)
    ensures
        width <= 1 ==> r == 0,
        width > 1 ==> r == (fnv1a(
            vstd::utf8::encode_utf8(turn_id@),
            fnv1a(vstd::utf8::encode_utf8(agent_id@), FNV_OFFSET),
        ) as usize) % width,
        width > 1 ==> r < width,
{
    if width <= 1 {
        return 0;
    }
    let h = fnv1a_bytes(agent_id.as_bytes(), FNV_OFFSET);
    let h = fnv1a_bytes(turn_id.as_bytes(), h);
    (h as usize) % width
}

/// FNV-1a continued over `bytes` and then the separator byte `0xff`.
fn fnv1a_part(bytes: &[u8], h: u64) -> (r: u64)
    ensures
        r == fnv1a(bytes@.push(0xffu8), h),
{
    let acc = fnv1a_bytes(bytes, h);
    assert(bytes@.push(0xffu8).drop_last() =~= bytes@);
    (acc ^ 0xffu64).wrapping_mul(FNV_PRIME)
}

/// The jitter of a role reaction, in thousandths above -1: FNV-1a over the agent id, the
/// turn id and the emotion, each followed by `0xff`, modulo 2001. The same turn always
/// jitters an emotion alike; the reaction itself is `r / 1000 - 1`.
pub fn reaction_jitter_permille(agent_id: &str, turn_id: &str, emotion: &str) -> (r: u64)
    ensures
        r == fnv1a(
            vstd::utf8::encode_utf8(emotion@).push(0xffu8),
            fnv1a(
                vstd::utf8::encode_utf8(turn_id@).push(0xffu8),
                fnv1a(vstd::utf8::encode_utf8(agent_id@).push(0xffu8), FNV_OFFSET),
            ),
        ) % 2001,
        r <= 2000,
{
    let h = fnv1a_part(agent_id.as_bytes(), FNV_OFFSET);
    let h = fnv1a_part(turn_id.as_bytes(), h);
    let h = fnv1a_part(emotion.as_bytes(), h);
    h % 2001
}

} // verus!
