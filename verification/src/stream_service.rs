use vstd::prelude::*;
use vstd::string::*;

verus! {

/// Keeps the platform's foreground streaming service running while a reply streams. The
/// platform calls themselves are made by the caller; this records whether the service runs.
pub struct StreamServiceGuard {
    pub agent_name: String,
    pub active: bool,
    pub log_prefix: String,
}

impl StreamServiceGuard {
    /// The guard after the platform was asked to start the service: active exactly when the
    /// start succeeded.
    pub fn start(agent_name: String, log_prefix: &str, started: &Result<(), String>) -> (g: StreamServiceGuard)
        ensures
            g.agent_name == agent_name,
            g.log_prefix@ == log_prefix@,
            g.active == started is Ok,
    {
        StreamServiceGuard { agent_name, active: started.is_ok(), log_prefix: log_prefix.to_string() }
    }

    /// Whether stopping must ask the platform: only while the service runs.
    pub fn needs_stop(&self) -> (r: bool)
        ensures
            r == self.active,
    {
        self.active
    }

    /// Records the platform's answer to a stop: the service stops only when that succeeded
    /// (a failed stop is retried by the next `stop`, or when the guard is dropped).
    pub fn stop_finished(&mut self, result: &Result<(), String>)
        ensures
            final(self).active == (old(self).active && result is Err),
            final(self).agent_name == old(self).agent_name,
            final(self).log_prefix == old(self).log_prefix,
    {
        if result.is_ok() {
            self.active = false;
        }
    }
}

} // verus!
