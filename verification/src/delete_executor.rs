use vstd::prelude::*;
use vstd::string::*;
use crate::request_control::CancelledGroupTurns;
use crate::text::{str_eq, views};

verus! {

/// Soft deletion of agents, groups, topics, messages and avatars. The statements run in
/// the application; the decisions around them are made here.
pub struct DeleteExecutor;

/// The kind of owner whose data a cascade removes.
#[derive(Clone, Copy, Debug, PartialEq, Eq, Structural)]
pub enum OwnerScope {
    Agent,
    Group,
}

/// What is deleted when a lifecycle job loses its target.
#[derive(Clone, Copy, Debug, PartialEq, Eq, Structural)]
pub enum DeletedTarget {
    Agent,
    Group,
    Topic,
}

/// How long a day is, in milliseconds.
pub const DAY_MILLIS: i64 = 86_400_000;

pub open spec fn owner_scope_spec(owner_type: Seq<char>) -> Option<OwnerScope> {
    if owner_type == "agent"@ {
        Some(OwnerScope::Agent)
    } else if owner_type == "group"@ {
        Some(OwnerScope::Group)
    } else {
        None
    }
}

pub open spec fn cancel_reason_spec(target: DeletedTarget) -> Seq<char> {
    match target {
        DeletedTarget::Agent => "所属 Agent 已删除"@,
        DeletedTarget::Group => "所属群组已删除"@,
        DeletedTarget::Topic => "所属话题已删除"@,
    }
}

impl OwnerScope {
    /// The `owner_type` column value of the scope.
    pub fn owner_type(&self) -> (r: &'static str)
        ensures
            owner_scope_spec(r@) == Some(*self),
    {
        match self {
            OwnerScope::Agent => {
                let r = "agent";
                proof {
                    reveal_strlit("agent");
                }
                assert(r@ == "agent"@);
                r
            },
            OwnerScope::Group => {
                let r = "group";
                proof {
                    reveal_strlit("agent");
                    reveal_strlit("group");
                }
                assert(r@[0] != "agent"@[0]);
                assert(r@ != "agent"@);
                r
            },
        }
    }
}

impl DeleteExecutor {
    /// A message can only be deleted by a non-empty id.
    pub fn check_message_id(message_id: &str) -> (r: Result<(), String>)
        ensures
            r is Ok <==> message_id@.len() > 0,
            r matches Err(e) ==> e@ == "Message id cannot be empty"@,
    {
        if message_id.unicode_len() == 0 {
            Err(String::from_str("Message id cannot be empty"))
        } else {
            Ok(())
        }
    }

    /// Which owner a topic belongs to, by its `owner_type`: its hash is recomputed and its
    /// cached configuration dropped after the topic is deleted; other kinds have neither.
    pub fn owner_scope(owner_type: &str) -> (r: Option<OwnerScope>)
        ensures
            r == owner_scope_spec(owner_type@),
    {
        if str_eq(owner_type, "agent") {
            Some(OwnerScope::Agent)
        } else if str_eq(owner_type, "group") {
            Some(OwnerScope::Group)
        } else {
            None
        }
    }

    /// Why pending lifecycle jobs are cancelled when their target is deleted.
    pub fn cancel_reason(target: DeletedTarget) -> (r: String)
        ensures
            r@ == cancel_reason_spec(target),
    {
        match target {
            DeletedTarget::Agent => String::from_str("所属 Agent 已删除"),
            DeletedTarget::Group => String::from_str("所属群组已删除"),
            DeletedTarget::Topic => String::from_str("所属话题已删除"),
        }
    }

    /// What a cascade on an owner cancels its jobs for.
    pub fn scope_target(scope: OwnerScope) -> (r: DeletedTarget)
        ensures
            scope == OwnerScope::Agent ==> r == DeletedTarget::Agent,
            scope == OwnerScope::Group ==> r == DeletedTarget::Group,
    {
        match scope {
            OwnerScope::Agent => DeletedTarget::Agent,
            OwnerScope::Group => DeletedTarget::Group,
        }
    }

    /// The deletion time before which tombstoned records are cleaned up.
    pub fn cleanup_threshold(now_millis: i64, days: i64) -> (r: i64)
        requires
            i64::MIN <= now_millis - days * DAY_MILLIS <= i64::MAX,
            i64::MIN <= days * DAY_MILLIS <= i64::MAX,
        ensures
            r == now_millis - days * DAY_MILLIS,
    {
        now_millis - days * DAY_MILLIS
    }

    /// The text that replaces the content of a message cleaned up after the safety period.
    pub fn cleared_content() -> (r: String)
        ensures
            r@ == "[已清空]"@,
    {
        String::from_str("[已清空]")
    }

    /// Marks the group relay turns that a cancellation stopped, so that they are not resumed.
    pub fn record_cancelled_turns(turns: &mut CancelledGroupTurns, turn_ids: &Vec<String>)
        ensures
            final(turns).view_set() == old(turns).view_set().union(views(turn_ids@).to_set()),
    {
        let mut i: usize = 0;
        while i < turn_ids.len()
            invariant
                i <= turn_ids.len(),
                turns.view_set() == old(turns).view_set().union(
                    views(turn_ids@.subrange(0, i as int)).to_set(),
                ),
            decreases turn_ids.len() - i,
        {
            let id = turn_ids[i].clone();
            let ghost before = turns.view_set();
            let _ = turns.interrupt_group_turn(id, None);
            proof {
                assert(views(turn_ids@.subrange(0, i + 1)) =~= views(
                    turn_ids@.subrange(0, i as int),
                ).push(turn_ids@[i as int]@));
                views(turn_ids@.subrange(0, i as int)).lemma_push_to_set_commute(
                    turn_ids@[i as int]@,
                );
                assert(turns.view_set() =~= old(turns).view_set().union(
                    views(turn_ids@.subrange(0, i + 1)).to_set(),
                ));
            }
            i = i + 1;
        }
        assert(turn_ids@.subrange(0, turn_ids@.len() as int) =~= turn_ids@);
    }
}

} // verus!
