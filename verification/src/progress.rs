use vstd::prelude::*;

verus! {

/// The stage of the classroom crawl that a progress bar follows.
pub enum ProgressState {
    GetRecordingLives,
    GetLiveIds,
    GetLiveUrls,
    GetDeviceCodes,
}

/// Prefix of the progress events of each stage: "step1" while lecture
/// identifiers are gathered, "step2" while addresses and device codes are
/// looked up; stages the front end has no bar for report under "bug".
pub open spec fn signal_text(state: ProgressState) -> Seq<char> {
    match state {
        ProgressState::GetRecordingLives => "bug"@,
        ProgressState::GetLiveIds => "step1"@,
        ProgressState::GetLiveUrls => "step2"@,
        ProgressState::GetDeviceCodes => "step2"@,
    }
}

/// Whether a stage runs under the second progress bar.
pub open spec fn is_second_step(state: ProgressState) -> bool {
    match state {
        ProgressState::GetLiveUrls => true,
        ProgressState::GetDeviceCodes => true,
        _ => false,
    }
}

/// The prefix of the progress events of `state`.
pub fn progress_signal(state: &ProgressState) -> (s: String)
    ensures
        s@ == signal_text(*state),
{
    let text: &str = match state {
        ProgressState::GetRecordingLives => "bug",
        ProgressState::GetLiveIds => "step1",
        ProgressState::GetLiveUrls => "step2",
        ProgressState::GetDeviceCodes => "step2",
    };
    String::from_str(text)
}

/// Whether starting a bar for `state` is announced with "step2:started"
/// (and whether finishing it is reported with a "stopped" event).
pub fn opens_second_step(state: &ProgressState) -> (b: bool)
    ensures
        b == is_second_step(*state),
{
    match state {
        ProgressState::GetLiveUrls => true,
        ProgressState::GetDeviceCodes => true,
        _ => false,
    }
}

/// The event reporting the progress of the bar with prefix `signal`.
pub fn set_progress_event(signal: &str) -> (e: String)
    ensures
        e@ == signal@ + ":set-progress"@,
{
    let mut e = String::from_str(signal);
    e.append(":set-progress");
    e
}

/// The event reporting that the bar with prefix `signal` has stopped.
pub fn stopped_event(signal: &str) -> (e: String)
    ensures
        e@ == signal@ + ":stopped"@,
{
    let mut e = String::from_str(signal);
    e.append(":stopped");
    e
}

/// What a finishing progress bar reports: full progress when the crawl
/// was not cancelled, and a stop event for second-step bars.
pub struct FinishPlan {
    pub full_progress: bool,
    pub stopped: bool,
}

/// What the bar of `state` reports when it finishes; `go_on` tells whether
/// the crawl is still running (not cancelled).
pub fn finish_plan(state: &ProgressState, go_on: bool) -> (p: FinishPlan)
    ensures
        p.full_progress == go_on,
        p.stopped == is_second_step(*state),
{
    FinishPlan { full_progress: go_on, stopped: opens_second_step(state) }
}

/// Work done so far out of a total, counted the way an atomic counter
/// counts (wrapping on overflow).
pub struct ProgressCounter {
    pub done: u64,
    pub total: u64,
}

impl ProgressCounter {
    /// A counter at zero for `total` steps.
    pub fn new(total: u64) -> (c: Self)
        ensures
            c.done == 0,
            c.total == total,
    {
        ProgressCounter { done: 0, total }
    }

    /// Counts `delta` more steps and hands back the new count.
    pub fn inc(&mut self, delta: u64) -> (done: u64)
        ensures
            final(self).done == vstd::wrapping::u64_specs::wrapping_add(old(self).done, delta),
            final(self).total == old(self).total,
            done == final(self).done,
    {
        self.done = self.done.wrapping_add(delta);
        self.done
    }
}

} // verus!
