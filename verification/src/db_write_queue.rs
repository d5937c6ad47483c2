use vstd::prelude::*;
use vstd::string::*;
use crate::message_repository::kept_indices;
use crate::text::{append_str, contains_string, str_eq, views};

verus! {

broadcast use vstd::string::group_string_axioms;

// ------------------------------------------------------------------ batching and errors

/// Most tasks written in one transaction.
pub const MAX_TASKS_PER_TRANSACTION: usize = 200;

/// Most messages written in one transaction.
pub const MAX_MESSAGES_PER_TRANSACTION: u64 = 5000;

/// Whether the worker keeps gathering tasks into the current transaction.
pub fn batch_accepts_more(task_count: usize, message_count: u64) -> (r: bool)
    ensures
        r == (task_count < MAX_TASKS_PER_TRANSACTION && message_count < MAX_MESSAGES_PER_TRANSACTION),
{
    task_count < MAX_TASKS_PER_TRANSACTION && message_count < MAX_MESSAGES_PER_TRANSACTION
}

/// Holds the first write error since the last flush, so that the next flush reports it.
pub struct FlushLatch {
    pub pending_error: Option<String>,
}

/// The error a latch holds after recording a transaction's outcome.
pub open spec fn recorded(pending: Option<String>, batch_error: Option<String>) -> Option<String> {
    if pending is Some {
        pending
    } else {
        batch_error
    }
}

/// What a flush answers when the latch holds `pending`.
pub open spec fn flush_answer(pending: Option<String>) -> Result<(), String> {
    match pending {
        Some(e) => Err(e),
        None => Ok(()),
    }
}

/// The error a latch holds after recording each outcome of `outcomes` in turn.
pub open spec fn recorded_all(pending: Option<String>, outcomes: Seq<Option<String>>) -> Option<
    String,
>
    decreases outcomes.len(),
{
    if outcomes.len() == 0 {
        pending
    } else {
        recorded_all(recorded(pending, outcomes[0]), outcomes.drop_first())
    }
}

/// The first error among transaction outcomes.
pub open spec fn first_error(outcomes: Seq<Option<String>>) -> Option<String>
    decreases outcomes.len(),
{
    if outcomes.len() == 0 {
        None
    } else if outcomes[0] is Some {
        outcomes[0]
    } else {
        first_error(outcomes.drop_first())
    }
}

impl FlushLatch {
    pub fn new() -> (l: FlushLatch)
        ensures
            l.pending_error is None,
    {
        FlushLatch { pending_error: None }
    }

    /// Records the outcome of a transaction: an error is kept unless an earlier one is.
    pub fn record(&mut self, batch_error: Option<String>)
        ensures
            final(self).pending_error == recorded(old(self).pending_error, batch_error),
    {
        if self.pending_error.is_none() {
            self.pending_error = batch_error;
        }
    }

    /// Answers a flush: the kept error, if any, which is then cleared.
    pub fn flush(&mut self) -> (r: Result<(), String>)
        ensures
            r == flush_answer(old(self).pending_error),
            final(self).pending_error is None,
    {
        match self.pending_error.take() {
            Some(e) => Err(e),
            None => Ok(()),
        }
    }
}

proof fn lemma_recorded_all(pending: Option<String>, outcomes: Seq<Option<String>>)
    ensures
        recorded_all(pending, outcomes) == (if pending is Some {
            pending
        } else {
            first_error(outcomes)
        }),
    decreases outcomes.len(),
{
    if outcomes.len() > 0 {
        lemma_recorded_all(recorded(pending, outcomes[0]), outcomes.drop_first());
    }
}

/// A failed transaction is reported by exactly one flush. From a latch a flush has just
/// emptied, the next flush answers the first error among the outcomes recorded since
/// (success when there was none). That flush empties the latch again, so a flush with no
/// outcome recorded in between succeeds.
pub proof fn lemma_error_reported_once(outcomes: Seq<Option<String>>)
    ensures
        flush_answer(recorded_all(None, outcomes)) == (match first_error(outcomes) {
            Some(e) => Err::<(), String>(e),
            None => Ok(()),
        }),
        flush_answer(recorded_all(None, Seq::empty())) == Ok::<(), String>(()),
{
    lemma_recorded_all(None, outcomes);
}

/// What a transaction that failed reports.
pub fn write_failure(detail: &str, worker_failed: bool) -> (r: String)
    ensures
        r@ == (if worker_failed {
            "Database write worker failed: "@
        } else {
            "Database write failed: "@
        }) + detail@,
{
    let mut s = if worker_failed {
        String::from_str("Database write worker failed: ")
    } else {
        String::from_str("Database write failed: ")
    };
    append_str(&mut s, detail);
    s
}

// ------------------------------------------------------------------ owners

/// How the activity of an owner is checked before its data is written.
#[derive(PartialEq, Eq, Structural)]
pub enum OwnerCheck {
    /// Active when a live agent row exists.
    AgentRow,
    /// Active when a live group row exists.
    GroupRow,
    /// `user` and `system` are always active.
    Always,
    /// Any other owner type is never active.
    Never,
}

pub fn owner_check(owner_type: &str) -> (r: OwnerCheck)
    ensures
        r == (if owner_type@ == "agent"@ {
            OwnerCheck::AgentRow
        } else if owner_type@ == "group"@ {
            OwnerCheck::GroupRow
        } else if owner_type@ == "user"@ || owner_type@ == "system"@ {
            OwnerCheck::Always
        } else {
            OwnerCheck::Never
        }),
{
    if str_eq(owner_type, "agent") {
        OwnerCheck::AgentRow
    } else if str_eq(owner_type, "group") {
        OwnerCheck::GroupRow
    } else if str_eq(owner_type, "user") || str_eq(owner_type, "system") {
        OwnerCheck::Always
    } else {
        OwnerCheck::Never
    }
}

/// The ids of the owners of one kind among the first `n` affected owners.
pub open spec fn owners_of_kind(owners: Seq<(String, String)>, n: int, kind: Seq<char>, id: Seq<char>) -> bool {
    exists|k: int| 0 <= k < n && owners[k].0@ == id && #[trigger] owners[k].1@ == kind
}

proof fn lemma_owner_step(
    before: Seq<Seq<char>>,
    after: Seq<Seq<char>>,
    owners: Seq<(String, String)>,
    i: int,
    kind: Seq<char>,
)
    requires
        0 <= i < owners.len(),
        before.no_duplicates(),
        forall|x: Seq<char>| before.contains(x) <==> owners_of_kind(owners, i, kind, x),
        owners[i].1@ == kind ==> after.contains(owners[i].0@) && (after == before || (after
            == before.push(owners[i].0@) && !before.contains(owners[i].0@))),
        owners[i].1@ != kind ==> after == before,
    ensures
        after.no_duplicates(),
        forall|x: Seq<char>| after.contains(x) <==> owners_of_kind(owners, i + 1, kind, x),
{
    if after != before {
        assert forall|a: int, b: int| 0 <= a < b < after.len() implies after[a] != after[b] by {
            if b == after.len() - 1 {
                assert(before.contains(before[a]));
            }
        }
    }
    assert forall|x: Seq<char>| after.contains(x) <==> owners_of_kind(owners, i + 1, kind, x) by {
        if after.contains(x) {
            if before.contains(x) {
                let k = choose|k: int| 0 <= k < i && owners[k].0@ == x && #[trigger] owners[k].1@ == kind;
                assert(owners_of_kind(owners, i + 1, kind, x));
            } else {
                assert(after != before);
                let j = choose|j: int| 0 <= j < after.len() && after[j] == x;
                assert(x == owners[i].0@);
                assert(owners[i].1@ == kind);
                assert(owners_of_kind(owners, i + 1, kind, x));
            }
        }
        if owners_of_kind(owners, i + 1, kind, x) {
            let k = choose|k: int| 0 <= k < i + 1 && owners[k].0@ == x && #[trigger] owners[k].1@ == kind;
            if k < i {
                assert(owners_of_kind(owners, i, kind, x));
                assert(before.contains(x));
                if after != before {
                    let j = choose|j: int| 0 <= j < before.len() && before[j] == x;
                    assert(after[j] == x);
                }
            }
        }
    }
}

/// The owners whose hashes are refreshed after a transaction, split by kind, each once.
pub fn split_affected_owners(owners: &Vec<(String, String)>) -> (r: (Vec<String>, Vec<String>))
    ensures
        views(r.0@).no_duplicates(),
        views(r.1@).no_duplicates(),
        forall|id: Seq<char>| views(r.0@).contains(id) <==> owners_of_kind(owners@, owners@.len() as int, "agent"@, id),
        forall|id: Seq<char>| views(r.1@).contains(id) <==> owners_of_kind(owners@, owners@.len() as int, "group"@, id),
{
    let mut agents: Vec<String> = Vec::new();
    let mut groups: Vec<String> = Vec::new();
    let mut i: usize = 0;
    while i < owners.len()
        invariant
            i <= owners.len(),
            views(agents@).no_duplicates(),
            views(groups@).no_duplicates(),
            forall|id: Seq<char>| views(agents@).contains(id) <==> owners_of_kind(owners@, i as int, "agent"@, id),
            forall|id: Seq<char>| views(groups@).contains(id) <==> owners_of_kind(owners@, i as int, "group"@, id),
        decreases owners.len() - i,
    {
        let id = &owners[i].0;
        let kind = &owners[i].1;
        let ghost a0 = views(agents@);
        let ghost g0 = views(groups@);
        let is_agent = str_eq(kind.as_str(), "agent");
        let is_group = str_eq(kind.as_str(), "group");
        if is_agent {
            if !contains_string(agents.as_slice(), id.as_str()) {
                let c = id.clone();
                proof {
                    crate::text::lemma_views_push(agents@, c);
                }
                agents.push(c);
                assert(views(agents@)[views(agents@).len() - 1] == id@);
            }
        } else if is_group {
            if !contains_string(groups.as_slice(), id.as_str()) {
                let c = id.clone();
                proof {
                    crate::text::lemma_views_push(groups@, c);
                }
                groups.push(c);
                assert(views(groups@)[views(groups@).len() - 1] == id@);
            }
        }
        proof {
            reveal_strlit("agent");
            reveal_strlit("group");
            assert("agent"@ != "group"@) by {
                assert("agent"@[0] != "group"@[0]);
            }
            assert(kind@ == owners@[i as int].1@);
            assert(id@ == owners@[i as int].0@);
            lemma_owner_step(a0, views(agents@), owners@, i as int, "agent"@);
            lemma_owner_step(g0, views(groups@), owners@, i as int, "group"@);
        }
        i = i + 1;
    }
    (agents, groups)
}

// ------------------------------------------------------------------ message batches

/// A message batch carries one compressed content, one render and one hash per message.
pub fn message_batch_consistent(messages: usize, compressed: usize, render: usize, hashes: usize) -> (r: bool)
    ensures
        r == (compressed == messages && render == messages && hashes == messages),
{
    compressed == messages && render == messages && hashes == messages
}

/// The messages of a batch that are written: those whose id is not tombstoned, in order.
pub fn eligible_message_indices(ids: &Vec<String>, tombstoned: &Vec<String>) -> (r: Vec<usize>)
    ensures
        r@.map_values(|i: usize| i as int) == kept_indices(views(ids@), views(tombstoned@)),
{
    let ghost hv = views(ids@);
    let ghost tv = views(tombstoned@);
    let mut out: Vec<usize> = Vec::new();
    let mut i: usize = 0;
    while i < ids.len()
        invariant
            i <= ids.len(),
            hv == views(ids@),
            tv == views(tombstoned@),
            out@.map_values(|k: usize| k as int) == kept_indices(hv.take(i as int), tv),
        decreases ids.len() - i,
    {
        proof {
            assert(hv.take(i + 1).drop_last() =~= hv.take(i as int));
            assert(hv.take(i + 1).last() == ids@[i as int]@);
        }
        if !contains_string(tombstoned.as_slice(), ids[i].as_str()) {
            out.push(i);
            assert(out@.map_values(|k: usize| k as int) =~= kept_indices(hv.take(i + 1), tv));
        } else {
            assert(out@.map_values(|k: usize| k as int) =~= kept_indices(hv.take(i + 1), tv));
        }
        i = i + 1;
    }
    assert(hv.take(ids.len() as int) =~= hv);
    out
}

/// Most bound parameters of one SQLite statement.
pub const MAX_SQL_PARAMS: usize = 999;

/// `item` written `n` times with `sep` between.
pub open spec fn repeat_join(item: Seq<char>, sep: Seq<char>, n: nat) -> Seq<char>
    decreases n,
{
    if n == 0 {
        Seq::empty()
    } else if n == 1 {
        item
    } else {
        repeat_join(item, sep, (n - 1) as nat) + sep + item
    }
}

/// Writes `item` `n` times with `sep` between.
pub fn repeat_join_str(item: &str, sep: &str, n: usize) -> (r: String)
    ensures
        r@ == repeat_join(item@, sep@, n as nat),
{
    let mut s = String::new();
    let mut i: usize = 0;
    while i < n
        invariant
            i <= n,
            s@ == repeat_join(item@, sep@, i as nat),
        decreases n - i,
    {
        if i > 0 {
            append_str(&mut s, sep);
        }
        append_str(&mut s, item);
        i = i + 1;
        assert(s@ =~= repeat_join(item@, sep@, i as nat));
    }
    s
}

/// The `VALUES` rows of a multi-row insert: `rows` groups of `(?, ?, ...)` with
/// `per_row` parameters each.
pub fn values_rows(rows: usize, per_row: usize) -> (r: String)
    ensures
        r@ == repeat_join("("@ + repeat_join("?"@, ", "@, per_row as nat) + ")"@, ", "@, rows as nat),
{
    let mut row = String::from_str("(");
    let inner = repeat_join_str("?", ", ", per_row);
    append_str(&mut row, inner.as_str());
    append_str(&mut row, ")");
    repeat_join_str(row.as_str(), ", ", rows)
}

/// How many rows of `per_row` parameters fit in one statement.
pub fn rows_per_statement(per_row: usize) -> (r: usize)
    requires
        per_row > 0,
    ensures
        r == MAX_SQL_PARAMS / per_row,
{
    MAX_SQL_PARAMS / per_row
}

/// Splits `0..len` into consecutive chunks of `size` (the last may be shorter).
pub fn chunk_ranges(len: usize, size: usize) -> (r: Vec<(usize, usize)>)
    requires
        size > 0,
    ensures
        r@.len() > 0 ==> r@[0].0 == 0 && r@[r@.len() - 1].1 == len,
        len == 0 <==> r@.len() == 0,
        forall|k: int| 0 <= k < r@.len() ==> r@[k].0 < r@[k].1 <= len && r@[k].1 - r@[k].0 <= size,
        forall|k: int| 0 <= k < r@.len() - 1 ==> r@[k].1 == r@[k + 1].0 && r@[k].1 - r@[k].0 == size,
{
    let mut out: Vec<(usize, usize)> = Vec::new();
    let mut start: usize = 0;
    while start < len
        invariant
            start <= len,
            size > 0,
            out@.len() > 0 ==> out@[0].0 == 0 && out@[out@.len() - 1].1 == start,
            out@.len() == 0 ==> start == 0,
            forall|k: int| 0 <= k < out@.len() ==> out@[k].0 < out@[k].1 <= start && out@[k].1 - out@[k].0 <= size,
            forall|k: int| 0 <= k < out@.len() - 1 ==> out@[k].1 == out@[k + 1].0 && out@[k].1 - out@[k].0 == size,
            out@.len() > 0 && start < len ==> out@[out@.len() - 1].1 - out@[out@.len() - 1].0 == size,
        decreases len - start,
    {
        let end = if len - start > size {
            start + size
        } else {
            len
        };
        out.push((start, end));
        start = end;
    }
    out
}

/// The status an attachment relation is written with: its own, else `ready`.
pub fn attachment_status(status: &Option<String>) -> (r: String)
    ensures
        r@ == match status {
            Some(s) => s@,
            None => "ready"@,
        },
{
    match status {
        Some(s) => s.clone(),
        None => String::from_str("ready"),
    }
}

} // verus!
