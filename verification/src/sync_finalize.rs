use vstd::prelude::*;
use vstd::string::*;
use crate::db_write_queue::{owners_of_kind, repeat_join, repeat_join_str, split_affected_owners};
use crate::text::{append_str, contains_string, decimal, push_decimal, views};

verus! {

/// The end of a sync run: the write queue is flushed, the counts and hashes of the modified
/// topics are recomputed and bubbled up to their owners. The statements run in the
/// application; what they cover is decided here.
pub struct SyncFinalizer;

/// The columns of a modified topic that its hash is recomputed from.
pub struct TopicBubbleMeta {
    pub topic_id: String,
    pub owner_id: String,
    pub owner_type: String,
    pub title: String,
    pub created_at: i64,
    pub locked: bool,
    pub unread: bool,
}

/// Which topics are bubbled, and which owners after them.
pub struct BubblePlan {
    pub topics: Vec<String>,
    pub agents: Vec<String>,
    pub groups: Vec<String>,
}

pub open spec fn meta_ids(metas: Seq<TopicBubbleMeta>) -> Seq<Seq<char>> {
    metas.map_values(|m: TopicBubbleMeta| m.topic_id@)
}

/// The owners (id, kind) of the metas of modified topics, in the metas' order.
pub open spec fn modified_owner(metas: Seq<TopicBubbleMeta>, modified: Seq<Seq<char>>, k: int) -> bool {
    modified.contains(metas[k].topic_id@)
}

/// An owner of the given kind has a modified topic among the metas.
pub open spec fn owner_affected(
    metas: Seq<TopicBubbleMeta>,
    modified: Seq<Seq<char>>,
    kind: Seq<char>,
    id: Seq<char>,
) -> bool {
    exists|k: int|
        0 <= k < metas.len() && modified_owner(metas, modified, k) && #[trigger] metas[k].owner_id@
            == id && metas[k].owner_type@ == kind
}

pub open spec fn refresh_counts_sql_spec(n: nat) -> Seq<char> {
    "UPDATE topics SET\n            msg_count = (SELECT COUNT(*) FROM messages WHERE messages.topic_id = topics.topic_id AND deleted_at IS NULL),\n            updated_at = ?\n         WHERE topic_id IN ("@
        + repeat_join("?"@, ","@, n) + ") AND deleted_at IS NULL"@
}

pub open spec fn load_topics_sql_spec(n: nat) -> Seq<char> {
    "SELECT topic_id, owner_id, owner_type, title, created_at, locked, unread FROM topics WHERE topic_id IN ("@
        + repeat_join("?"@, ","@, n) + ") AND deleted_at IS NULL"@
}

proof fn lemma_push_contains(s: Seq<Seq<char>>, t: Seq<char>, x: Seq<char>)
    ensures
        s.push(t).contains(x) <==> (s.contains(x) || x == t),
{
    if s.push(t).contains(x) && x != t {
        let j = choose|j: int| 0 <= j < s.push(t).len() && s.push(t)[j] == x;
        assert(s[j] == x);
    }
    if s.contains(x) {
        let j = choose|j: int| 0 <= j < s.len() && s[j] == x;
        assert(s.push(t)[j] == x);
    }
    if x == t {
        assert(s.push(t)[s.len() as int] == x);
    }
}

impl SyncFinalizer {
    /// The statement that recounts the live messages of `n` modified topics and stamps them;
    /// none when no topic was modified.
    pub fn refresh_counts_sql(n: usize) -> (r: Option<String>)
        ensures
            r is None <==> n == 0,
            r matches Some(s) ==> s@ == refresh_counts_sql_spec(n as nat),
    {
        if n == 0 {
            return None;
        }
        let mut s = String::from_str(
            "UPDATE topics SET\n            msg_count = (SELECT COUNT(*) FROM messages WHERE messages.topic_id = topics.topic_id AND deleted_at IS NULL),\n            updated_at = ?\n         WHERE topic_id IN (",
        );
        let p = repeat_join_str("?", ",", n);
        append_str(&mut s, p.as_str());
        append_str(&mut s, ") AND deleted_at IS NULL");
        Some(s)
    }

    /// The query that loads the live ones among `n` modified topics.
    pub fn load_topics_sql(n: usize) -> (r: String)
        ensures
            r@ == load_topics_sql_spec(n as nat),
    {
        let mut s = String::from_str(
            "SELECT topic_id, owner_id, owner_type, title, created_at, locked, unread FROM topics WHERE topic_id IN (",
        );
        let p = repeat_join_str("?", ",", n);
        append_str(&mut s, p.as_str());
        append_str(&mut s, ") AND deleted_at IS NULL");
        s
    }

    /// The progress line shown while `n` topics are checked.
    pub fn progress_message(n: usize) -> (r: String)
        ensures
            r@ == "正在校验 "@ + decimal(n as nat) + " 个话题的一致性..."@,
    {
        let mut s = String::from_str("正在校验 ");
        push_decimal(&mut s, n as u64);
        append_str(&mut s, " 个话题的一致性...");
        s
    }

    /// The error of a failed bubbling step: `[SyncFinalizer] Failed to bubble {what} {id}: {error}`.
    pub fn bubble_failure(what: &str, id: &str, error: &str) -> (r: String)
        ensures
            r@ == "[SyncFinalizer] Failed to bubble "@ + what@ + " "@ + id@ + ": "@ + error@,
    {
        let mut s = String::from_str("[SyncFinalizer] Failed to bubble ");
        append_str(&mut s, what);
        append_str(&mut s, " ");
        append_str(&mut s, id);
        append_str(&mut s, ": ");
        append_str(&mut s, error);
        s
    }

    /// What is bubbled: each modified topic that was loaded (live), once, in the order of
    /// `modified`; then each agent and each group that owns one of them, once.
    pub fn bubble_plan(modified: &Vec<String>, metas: &Vec<TopicBubbleMeta>) -> (r: BubblePlan)
        requires
            meta_ids(metas@).no_duplicates(),
        ensures
            views(r.topics@).no_duplicates(),
            forall|t: Seq<char>|
                views(r.topics@).contains(t) <==> (views(modified@).contains(t) && meta_ids(
                    metas@,
                ).contains(t)),
            views(r.agents@).no_duplicates(),
            views(r.groups@).no_duplicates(),
            forall|id: Seq<char>|
                views(r.agents@).contains(id) <==> owner_affected(
                    metas@,
                    views(modified@),
                    "agent"@,
                    id,
                ),
            forall|id: Seq<char>|
                views(r.groups@).contains(id) <==> owner_affected(
                    metas@,
                    views(modified@),
                    "group"@,
                    id,
                ),
    {
        let mut topics: Vec<String> = Vec::new();
        let mut i: usize = 0;
        while i < modified.len()
            invariant
                i <= modified.len(),
                views(topics@).no_duplicates(),
                forall|t: Seq<char>|
                    views(topics@).contains(t) <==> (views(modified@).take(i as int).contains(t)
                        && meta_ids(metas@).contains(t)),
            decreases modified.len() - i,
        {
            let t = &modified[i];
            let ghost before = views(topics@);
            proof {
                assert(views(modified@).take(i + 1) =~= views(modified@).take(i as int).push(
                    t@,
                ));
            }
            let present = contains_string(topics.as_slice(), t.as_str());
            let known = Self::has_meta(metas, t.as_str());
            if !present && known {
                let c = t.clone();
                proof {
                    crate::text::lemma_views_push(topics@, c);
                }
                topics.push(c);
                proof {
                    assert forall|a: int, b: int|
                        0 <= a < b < views(topics@).len() implies views(topics@)[a] != views(
                        topics@,
                    )[b] by {
                        if b == before.len() {
                            assert(before.contains(before[a]));
                        }
                    }
                }
            }
            proof {
                let prev = views(modified@).take(i as int);
                assert forall|x: Seq<char>|
                    views(topics@).contains(x) <==> (prev.push(t@).contains(x) && meta_ids(
                        metas@,
                    ).contains(x)) by {
                    lemma_push_contains(prev, t@, x);
                    if !present && known {
                        assert(views(topics@) =~= before.push(t@));
                        lemma_push_contains(before, t@, x);
                    } else {
                        assert(views(topics@) =~= before);
                    }
                }
            }
            i = i + 1;
        }
        assert(views(modified@).take(modified@.len() as int) =~= views(modified@));
        let mut owners: Vec<(String, String)> = Vec::new();
        let mut k: usize = 0;
        while k < metas.len()
            invariant
                k <= metas.len(),
                forall|kind: Seq<char>, id: Seq<char>|
                    #![trigger owners_of_kind(owners@, owners@.len() as int, kind, id)]
                    owners_of_kind(owners@, owners@.len() as int, kind, id) <==> exists|j: int|
                        0 <= j < k && modified_owner(metas@, views(modified@), j)
                            && #[trigger] metas@[j].owner_id@ == id && metas@[j].owner_type@
                            == kind,
            decreases metas.len() - k,
        {
            let m = &metas[k];
            let ghost old_owners = owners@;
            if contains_string(modified.as_slice(), m.topic_id.as_str()) {
                owners.push((m.owner_id.clone(), m.owner_type.clone()));
            }
            proof {
                assert forall|kind: Seq<char>, id: Seq<char>|
                    owners_of_kind(owners@, owners@.len() as int, kind, id) <==> exists|j: int|
                        0 <= j < k + 1 && modified_owner(metas@, views(modified@), j)
                            && #[trigger] metas@[j].owner_id@ == id && metas@[j].owner_type@
                            == kind by {
                    if owners_of_kind(owners@, owners@.len() as int, kind, id) {
                        let q = choose|q: int|
                            0 <= q < owners@.len() && owners@[q].0@ == id && #[trigger] owners@[q].1@
                                == kind;
                        if q < old_owners.len() {
                            assert(owners@[q] == old_owners[q]);
                            assert(owners_of_kind(old_owners, old_owners.len() as int, kind, id));
                        } else {
                            assert(modified_owner(metas@, views(modified@), k as int));
                            assert(metas@[k as int].owner_id@ == id);
                        }
                    }
                    if exists|j: int|
                        0 <= j < k + 1 && modified_owner(metas@, views(modified@), j)
                            && #[trigger] metas@[j].owner_id@ == id && metas@[j].owner_type@
                            == kind {
                        let j = choose|j: int|
                            0 <= j < k + 1 && modified_owner(metas@, views(modified@), j)
                                && #[trigger] metas@[j].owner_id@ == id && metas@[j].owner_type@
                                == kind;
                        if j < k {
                            assert(owners_of_kind(old_owners, old_owners.len() as int, kind, id));
                            let q = choose|q: int|
                                0 <= q < old_owners.len() && old_owners[q].0@ == id
                                    && #[trigger] old_owners[q].1@ == kind;
                            assert(owners@[q] == old_owners[q]);
                        } else {
                            let q = old_owners.len() as int;
                            assert(owners@[q].1@ == kind);
                        }
                    }
                }
            }
            k = k + 1;
        }
        let (agents, groups) = split_affected_owners(&owners);
        proof {
            assert forall|id: Seq<char>|
                views(agents@).contains(id) <==> owner_affected(
                    metas@,
                    views(modified@),
                    "agent"@,
                    id,
                ) by {
                assert(owners_of_kind(owners@, owners@.len() as int, "agent"@, id) <==> exists|
                    j: int,
                |
                    0 <= j < metas@.len() && modified_owner(metas@, views(modified@), j)
                        && #[trigger] metas@[j].owner_id@ == id && metas@[j].owner_type@
                        == "agent"@);
            }
            assert forall|id: Seq<char>|
                views(groups@).contains(id) <==> owner_affected(
                    metas@,
                    views(modified@),
                    "group"@,
                    id,
                ) by {
                assert(owners_of_kind(owners@, owners@.len() as int, "group"@, id) <==> exists|
                    j: int,
                |
                    0 <= j < metas@.len() && modified_owner(metas@, views(modified@), j)
                        && #[trigger] metas@[j].owner_id@ == id && metas@[j].owner_type@
                        == "group"@);
            }
        }
        BubblePlan { topics, agents, groups }
    }

    fn has_meta(metas: &Vec<TopicBubbleMeta>, topic_id: &str) -> (r: bool)
        ensures
            r == meta_ids(metas@).contains(topic_id@),
    {
        let mut i: usize = 0;
        while i < metas.len()
            invariant
                i <= metas.len(),
                forall|j: int| 0 <= j < i ==> metas@[j].topic_id@ != topic_id@,
            decreases metas.len() - i,
        {
            if crate::text::str_eq(metas[i].topic_id.as_str(), topic_id) {
                assert(meta_ids(metas@)[i as int] == topic_id@);
                return true;
            }
            i = i + 1;
        }
        proof {
            if meta_ids(metas@).contains(topic_id@) {
                let j = choose|j: int| 0 <= j < meta_ids(metas@).len() && meta_ids(metas@)[j] == topic_id@;
                assert(metas@[j].topic_id@ == topic_id@);
            }
        }
        false
    }
}

} // verus!
