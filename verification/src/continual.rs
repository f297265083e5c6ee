use vstd::prelude::*;
use vstd::string::*;
use crate::error_state::ErrorState;

verus! {

/// Whether a continually updated value just received new data.
#[derive(Copy, Clone, Debug, PartialEq, Eq, Structural)]
pub enum ContinuallyUpdatedState {
    Pending,
    GotNewData,
}

/// The updating task's side of an update: after the update of `data` ran, a failed update
/// rolls `data` back to what it was before (`data_before_update`), so that no half-done update
/// is kept. Returns the error of a failed update.
pub fn settle_update<T>(data: &mut T, data_before_update: T, outcome: Result<(), String>) -> (res:
    Option<String>)
    ensures
        match outcome {
            Ok(()) => res is None && *final(data) == *old(data),
            Err(e) => res == Some(e) && *final(data) == data_before_update,
        },
{
    match outcome {
        Ok(()) => None,
        Err(err) => {
            *data = data_before_update;
            Some(err)
        },
    }
}

/// The client's side of an update, given what the updating task handed back since the last
/// call, if anything: new data replaces the current data and clears the error reported under
/// `name`; a failure keeps the current data and reports its error under `name`. Returns the
/// state, and whether a new update is to be started (whenever something came back).
pub fn receive_update<T>(
    curr_data: &mut T,
    name: &str,
    received: Option<Result<T, String>>,
    error_state: &mut ErrorState,
) -> (res: (ContinuallyUpdatedState, bool))
    requires
        old(error_state).wf(),
    ensures
        final(error_state).wf(),
        match received {
            Some(Ok(new_data)) => {
                &&& *final(curr_data) == new_data
                &&& final(error_state)@ == old(error_state)@.remove(name@)
                &&& res == (ContinuallyUpdatedState::GotNewData, true)
            },
            Some(Err(err)) => {
                &&& *final(curr_data) == *old(curr_data)
                &&& final(error_state)@ == old(error_state)@.insert(name@, err@)
                &&& res == (ContinuallyUpdatedState::Pending, true)
            },
            None => {
                &&& *final(curr_data) == *old(curr_data)
                &&& final(error_state)@ == old(error_state)@
                &&& res == (ContinuallyUpdatedState::Pending, false)
            },
        },
{
    match received {
        Some(Ok(new_data)) => {
            *curr_data = new_data;
            error_state.unreport(name);
            (ContinuallyUpdatedState::GotNewData, true)
        },
        Some(Err(err)) => {
            error_state.report(name, err);
            (ContinuallyUpdatedState::Pending, true)
        },
        None => (ContinuallyUpdatedState::Pending, false),
    }
}

/// How long the updating task sleeps after an update that took `time_to_complete`, so that
/// updates start at least `min_time_between_updates` apart (both in nanoseconds); `None` if
/// the update took longer than that.
pub fn time_to_sleep(min_time_between_updates: i64, time_to_complete: i64) -> (res: Option<i64>)
    requires
        i64::MIN <= min_time_between_updates - time_to_complete <= i64::MAX,
    ensures
        match res {
            Some(t) => t == min_time_between_updates - time_to_complete && t >= 0,
            None => min_time_between_updates - time_to_complete < 0,
        },
{
    let remaining = min_time_between_updates - time_to_complete;
    if remaining >= 0 {
        Some(remaining)
    } else {
        None
    }
}

/// Checks that the online streaming server answers, trying a few times per check.
#[derive(Clone, Debug)]
pub struct ServerStatusChecker {
    pub url: String,
    pub num_retries: u8,
}

impl ServerStatusChecker {
    pub fn new(url: &str, num_retries: u8) -> (res: ServerStatusChecker)
        ensures
            res.url@ == url@,
            res.num_retries == num_retries,
    {
        ServerStatusChecker { url: String::from_str(url), num_retries }
    }

    /// Whether another try is owed after `attempts_made` failed ones.
    pub fn should_retry(&self, attempts_made: u8) -> (res: bool)
        ensures
            res == (attempts_made < self.num_retries),
    {
        attempts_made < self.num_retries
    }
}

} // verus!
