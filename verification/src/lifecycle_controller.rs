use vstd::prelude::*;
use vstd::string::*;
use crate::json::JsonNode;
use crate::text::{is_blank, trim};

verus! {

broadcast use vstd::string::group_string_axioms;

/// The application settings that the library's logic reads.
pub struct Settings {
    pub vcp_server_url: String,
    pub vcp_log_url: String,
    pub vcp_log_key: String,
    pub file_key: String,
    pub admin_username: String,
    pub admin_password: String,
    pub distributed_enabled: bool,
    /// Free-form extra settings (a JSON object when present).
    pub extra: JsonNode,
}

impl Settings {
    /// Empty strings, distributed mode off, no extra settings.
    pub fn default_settings() -> (s: Settings)
        ensures
            s.vcp_server_url@ == Seq::<char>::empty(),
            s.vcp_log_url@ == Seq::<char>::empty(),
            s.vcp_log_key@ == Seq::<char>::empty(),
            s.file_key@ == Seq::<char>::empty(),
            s.admin_username@ == Seq::<char>::empty(),
            s.admin_password@ == Seq::<char>::empty(),
            !s.distributed_enabled,
            s.extra is Null,
    {
        Settings {
            vcp_server_url: String::new(),
            vcp_log_url: String::new(),
            vcp_log_key: String::new(),
            file_key: String::new(),
            admin_username: String::new(),
            admin_password: String::new(),
            distributed_enabled: false,
            extra: JsonNode::Null,
        }
    }
}

impl Default for Settings {
    fn default() -> (s: Settings)
        ensures
            s.vcp_log_url@ == Seq::<char>::empty(),
            s.vcp_log_key@ == Seq::<char>::empty(),
            !s.distributed_enabled,
    {
        Settings::default_settings()
    }
}

/// Both the VCPLog URL and key are set (not blank).
pub open spec fn log_configured_spec(s: Settings) -> bool {
    trim(s.vcp_log_url@).len() > 0 && trim(s.vcp_log_key@).len() > 0
}

/// Whether VCPLog is configured: both URL and key are non-blank.
pub fn has_log_configuration(settings: &Settings) -> (r: bool)
    ensures
        r == log_configured_spec(*settings),
{
    !is_blank(settings.vcp_log_url.as_str()) && !is_blank(settings.vcp_log_key.as_str())
}

/// The foreground/background state of the app, with a counter of transitions and the
/// connections that a background linger cut.
pub struct LifecycleState {
    pub is_foreground: bool,
    pub transition_epoch: u64,
    pub is_log_disconnected: bool,
    pub is_dist_disconnected: bool,
}

impl LifecycleState {
    /// A fresh state: in the foreground, no transition yet, nothing disconnected.
    pub fn new() -> (s: LifecycleState)
        ensures
            s.is_foreground,
            s.transition_epoch == 0,
            !s.is_log_disconnected,
            !s.is_dist_disconnected,
    {
        LifecycleState {
            is_foreground: true,
            transition_epoch: 0,
            is_log_disconnected: false,
            is_dist_disconnected: false,
        }
    }
}

/// Whether work started for transition `epoch` into `is_foreground` is still current.
pub fn transition_matches(state: &LifecycleState, epoch: u64, is_foreground: bool) -> (r: bool)
    ensures
        r == (state.transition_epoch == epoch && state.is_foreground == is_foreground),
{
    state.transition_epoch == epoch && state.is_foreground == is_foreground
}

/// Whether the app counts as in the foreground: yes when no lifecycle state is registered.
pub fn is_app_in_foreground(state: Option<&LifecycleState>) -> (r: bool)
    ensures
        r == match state {
            Some(s) => s.is_foreground,
            None => true,
        },
{
    match state {
        Some(s) => s.is_foreground,
        None => true,
    }
}

/// The epoch after `e` (the counter wraps like an atomic `fetch_add`).
pub open spec fn next_epoch(e: u64) -> u64 {
    if e == u64::MAX {
        0
    } else {
        (e + 1) as u64
    }
}

/// The state after a transition into `is_foreground` was asked for: unchanged when the app
/// already is in that state, else in that state under the next epoch.
pub open spec fn after_transition(s: LifecycleState, is_foreground: bool) -> LifecycleState {
    if s.is_foreground == is_foreground {
        s
    } else {
        LifecycleState {
            is_foreground,
            transition_epoch: next_epoch(s.transition_epoch),
            is_log_disconnected: s.is_log_disconnected,
            is_dist_disconnected: s.is_dist_disconnected,
        }
    }
}

/// Starts a foreground/background transition. Returns the new epoch, or `None` when the
/// app is already in that state (then nothing changes).
pub fn begin_transition(state: &mut LifecycleState, is_foreground: bool) -> (r: Option<u64>)
    ensures
        *final(state) == after_transition(*old(state), is_foreground),
        r == (if old(state).is_foreground == is_foreground {
            None
        } else {
            Some(next_epoch(old(state).transition_epoch))
        }),
{
    if state.is_foreground == is_foreground {
        return None;
    }
    state.is_foreground = is_foreground;
    state.transition_epoch = if state.transition_epoch == u64::MAX {
        0
    } else {
        state.transition_epoch + 1
    };
    Some(state.transition_epoch)
}

/// Records the outcome of an attempt to restore a service: the retry flag is cleared only
/// on success. Returns whether it succeeded.
pub fn finish_restore_attempt(retry_flag: &mut bool, result: &Result<(), String>) -> (r: bool)
    ensures
        r == result is Ok,
        *final(retry_flag) == (if result is Ok { false } else { *old(retry_flag) }),
{
    match result {
        Ok(()) => {
            *retry_flag = false;
            true
        },
        Err(_) => false,
    }
}

/// What entering the background does with the log and distributed connections.
pub struct BackgroundPlan {
    /// Keep VCPLog/VCPInfo alive for ten minutes under a foreground lock.
    pub linger_log: bool,
    /// Keep the distributed client alive for five minutes.
    pub linger_distributed: bool,
}

/// Decides what entering the background keeps alive. `settings` is `None` when they could
/// not be read; the statuses are those of the VCPLog and VCPInfo connections.
pub fn plan_background(
    settings: Option<&Settings>,
    log_status: &str,
    info_status: &str,
    distributed_running: bool,
) -> (p: BackgroundPlan)
    ensures
        p.linger_log == (match settings {
            Some(s) => log_configured_spec(*s),
            None => false,
        } || log_status@ != "closed"@ || info_status@ != "closed"@),
        p.linger_distributed == (match settings {
            Some(s) => s.distributed_enabled,
            None => false,
        } || distributed_running),
{
    let log_configured = match settings {
        Some(s) => has_log_configuration(s),
        None => false,
    };
    let log_open = !crate::text::str_eq(log_status, "closed");
    let info_open = !crate::text::str_eq(info_status, "closed");
    let dist_enabled = match settings {
        Some(s) => s.distributed_enabled,
        None => false,
    };
    BackgroundPlan {
        linger_log: log_configured || log_open || info_open,
        linger_distributed: dist_enabled || distributed_running,
    }
}

/// How the log connections are brought back on return to the foreground.
#[derive(PartialEq, Eq, Structural)]
pub enum LogRestore {
    /// They were not cut: only deliver the events cached in the background.
    FlushCachedLogs,
    /// They were cut but are no longer configured: clear the retry flag and deliver the cache.
    ClearFlagAndFlush,
    /// They were cut: reconnect with the configured URL and key.
    Reconnect,
}

/// How the distributed client is brought back on return to the foreground.
#[derive(PartialEq, Eq, Structural)]
pub enum DistributedRestore {
    Nothing,
    ClearFlag,
    Reconcile,
}

/// What returning to the foreground does, once the settings were read.
pub struct ForegroundPlan {
    pub disable_keepalive: bool,
    pub log: LogRestore,
    pub distributed: DistributedRestore,
}

/// Decides how to restore connections on return to the foreground.
pub fn plan_foreground(settings: &Settings, was_log_disconnected: bool, was_dist_disconnected: bool) -> (p: ForegroundPlan)
    ensures
        p.disable_keepalive == settings.distributed_enabled,
        p.log == (if !was_log_disconnected {
            LogRestore::FlushCachedLogs
        } else if log_configured_spec(*settings) {
            LogRestore::Reconnect
        } else {
            LogRestore::ClearFlagAndFlush
        }),
        p.distributed == (if !was_dist_disconnected {
            DistributedRestore::Nothing
        } else if settings.distributed_enabled {
            DistributedRestore::Reconcile
        } else {
            DistributedRestore::ClearFlag
        }),
{
    let log = if !was_log_disconnected {
        LogRestore::FlushCachedLogs
    } else if has_log_configuration(settings) {
        LogRestore::Reconnect
    } else {
        LogRestore::ClearFlagAndFlush
    };
    let distributed = if !was_dist_disconnected {
        DistributedRestore::Nothing
    } else if settings.distributed_enabled {
        DistributedRestore::Reconcile
    } else {
        DistributedRestore::ClearFlag
    };
    ForegroundPlan { disable_keepalive: settings.distributed_enabled, log, distributed }
}

/// Entering the background clears both disconnection flags (fresh lingers start).
pub fn reset_linger_flags(state: &mut LifecycleState)
    ensures
        !final(state).is_log_disconnected,
        !final(state).is_dist_disconnected,
        final(state).is_foreground == old(state).is_foreground,
        final(state).transition_epoch == old(state).transition_epoch,
{
    state.is_log_disconnected = false;
    state.is_dist_disconnected = false;
}

/// Work begun in state `s` (its epoch and foreground flag) is still current in `t`.
pub open spec fn work_current(t: LifecycleState, s: LifecycleState) -> bool {
    t.transition_epoch == s.transition_epoch && t.is_foreground == s.is_foreground
}

/// The state after the transitions in `requests` were asked for, in order.
pub open spec fn after_transitions(s: LifecycleState, requests: Seq<bool>) -> LifecycleState
    decreases requests.len(),
{
    if requests.len() == 0 {
        s
    } else {
        after_transitions(after_transition(s, requests[0]), requests.drop_first())
    }
}

/// How many of the requests in `requests` changed the state.
pub open spec fn effective_transitions(s: LifecycleState, requests: Seq<bool>) -> nat
    decreases requests.len(),
{
    if requests.len() == 0 {
        0
    } else {
        (if s.is_foreground != requests[0] {
            1nat
        } else {
            0nat
        }) + effective_transitions(after_transition(s, requests[0]), requests.drop_first())
    }
}

proof fn lemma_epoch_counts_transitions(s: LifecycleState, requests: Seq<bool>)
    ensures
        after_transitions(s, requests).transition_epoch as int == (s.transition_epoch
            + effective_transitions(s, requests)) % 0x10000000000000000int,
        effective_transitions(s, requests) <= requests.len(),
        effective_transitions(s, requests) == 0 ==> after_transitions(s, requests) == s,
    decreases requests.len(),
{
    if requests.len() > 0 {
        let s1 = after_transition(s, requests[0]);
        lemma_epoch_counts_transitions(s1, requests.drop_first());
        let k = effective_transitions(s1, requests.drop_first());
        if s.is_foreground != requests[0] {
            assert(s1.transition_epoch as int == (s.transition_epoch + 1) % 0x10000000000000000int);
            assert((((s.transition_epoch + 1) % 0x10000000000000000int) + k)
                % 0x10000000000000000int == (s.transition_epoch + 1 + k) % 0x10000000000000000int)
                by (nonlinear_arith);
        }
    }
}

/// Stale work is recognised: after any run of transition requests (fewer than the epoch
/// counter's 2^64 values), work begun in the earlier state is still current exactly when
/// none of the requests changed the state. In particular leaving a state and coming back
/// makes the work begun before stale, and asking for the current state again does not.
pub proof fn lemma_stale_work_is_recognised(s: LifecycleState, requests: Seq<bool>)
    requires
        requests.len() < 0x10000000000000000int,
    ensures
        work_current(after_transitions(s, requests), s) <==> effective_transitions(s, requests)
            == 0,
{
    lemma_epoch_counts_transitions(s, requests);
    let k = effective_transitions(s, requests);
    if k > 0 {
        assert((s.transition_epoch + k) % 0x10000000000000000int != s.transition_epoch as int)
            by (nonlinear_arith)
            requires
                0 < k < 0x10000000000000000int,
                0 <= s.transition_epoch < 0x10000000000000000int,
        ;
    }
}

} // verus!
