//! Companion-application reload control: the decisions of one reload
//! pass, separated from the process signalling that carries them out.

use vstd::prelude::*;

verus! {

/// One step a reload pass can take next.
pub enum ReloadStep {
    /// Ask the running application to reload in place.
    SendSignal,
    /// Stop the application and start it afresh.
    Restart,
    /// Start the application, which was not running.
    Launch,
    /// Nothing further is owed.
    Done,
}

/// The next step of a reload pass. `running` reports whether the
/// application's process exists; `signal_result` whether the in-place
/// reload signal succeeded, once one was sent. A stopped application is
/// launched; a running one is signalled first and restarted only when
/// the signal fails.
pub fn plan_reload(running: bool, signal_result: Option<bool>) -> (r: ReloadStep)
    ensures
        !running ==> r is Launch,
        running && signal_result is None ==> r is SendSignal,
        running && signal_result == Some(true) ==> r is Done,
        running && signal_result == Some(false) ==> r is Restart,
{
    if !running {
        ReloadStep::Launch
    } else {
        match signal_result {
            None => ReloadStep::SendSignal,
            Some(true) => ReloadStep::Done,
            Some(false) => ReloadStep::Restart,
        }
    }
}

} // verus!
