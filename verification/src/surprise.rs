use vstd::prelude::*;
use vstd::string::*;
use crate::text::str_equal;

verus! {

/// Whether a local hour (0 to 23) is within a surprise's hours, both ends included.
pub fn in_acceptable_hour_range(local_hour: u32, local_hours_24_start: u8, local_hours_24_end: u8) -> (res: bool)
    ensures
        res == (local_hours_24_start <= local_hour && local_hour <= local_hours_24_end),
{
    local_hour >= local_hours_24_start as u32 && local_hour <= local_hours_24_end as u32
}

/// The settings of a surprise are usable: it appears for at least one step and for fewer than
/// the most steps that can be counted, and its hours are hours of a day.
pub open spec fn surprise_settings_valid(num_update_steps_to_appear_for: u16, local_hours_24_start: u8, local_hours_24_end: u8) -> bool {
    &&& 0 < num_update_steps_to_appear_for < u16::MAX
    &&& local_hours_24_start <= 23
    &&& local_hours_24_end <= 23
}

pub fn are_surprise_settings_valid(num_update_steps_to_appear_for: u16, local_hours_24_start: u8, local_hours_24_end: u8) -> (res: bool)
    ensures
        res == surprise_settings_valid(num_update_steps_to_appear_for, local_hours_24_start, local_hours_24_end),
{
    num_update_steps_to_appear_for > 0 && num_update_steps_to_appear_for < u16::MAX
        && local_hours_24_start <= 23 && local_hours_24_end <= 23
}

/// Whether some surprise path occurs twice.
pub fn has_duplicate_paths(paths: &Vec<String>) -> (res: bool)
    ensures
        res == exists|i: int, j: int| 0 <= i < j < paths@.len() && #[trigger] paths@[i]@ == #[trigger] paths@[j]@,
{
    let n = paths.len();
    let mut i: usize = 0;
    while i < n
        invariant
            n == paths@.len(),
            i <= n,
            forall|a: int, b: int| 0 <= a < b < n && a < i ==> #[trigger] paths@[a]@ != #[trigger] paths@[b]@,
        decreases n - i,
    {
        let mut j: usize = i + 1;
        while j < n
            invariant
                n == paths@.len(),
                i < n,
                i + 1 <= j <= n,
                forall|a: int, b: int| 0 <= a < b < n && a < i ==> #[trigger] paths@[a]@ != #[trigger] paths@[b]@,
                forall|b: int| i < b < j ==> paths@[i as int]@ != #[trigger] paths@[b]@,
            decreases n - j,
        {
            if str_equal(paths[i].as_str(), paths[j].as_str()) {
                return true;
            }
            j = j + 1;
        }
        i = i + 1;
    }
    false
}

/// Takes the first queued trigger of the surprise at `path` off the queue, if there is one.
/// Returns whether there was one.
pub fn take_queued_surprise(queue: &mut Vec<String>, path: &str) -> (res: bool)
    ensures
        match res {
            true => exists|i: int| {
                &&& 0 <= i < old(queue)@.len()
                &&& #[trigger] old(queue)@[i]@ == path@
                &&& forall|j: int| 0 <= j < i ==> #[trigger] old(queue)@[j]@ != path@
                &&& final(queue)@ == old(queue)@.remove(i)
            },
            false => {
                &&& forall|j: int| 0 <= j < old(queue)@.len() ==> #[trigger] old(queue)@[j]@ != path@
                &&& final(queue)@ == old(queue)@
            },
        },
{
    let mut i: usize = 0;
    while i < queue.len()
        invariant
            *queue == *old(queue),
            i <= queue@.len(),
            forall|j: int| 0 <= j < i ==> #[trigger] queue@[j]@ != path@,
        decreases queue@.len() - i,
    {
        if str_equal(queue[i].as_str(), path) {
            let ghost before = queue@;
            queue.remove(i);
            assert(before[i as int]@ == path@);
            return true;
        }
        i = i + 1;
    }
    false
}

/// The state of one surprise: how long it shows for, and for how many steps it has shown, if
/// it is showing.
#[derive(Copy, Clone, Debug)]
pub struct SurpriseState {
    pub num_update_steps_to_appear_for: u16,
    pub curr_num_steps_when_appeared: Option<u16>,
    pub flicker_window: bool,
}

/// One step of a surprise, from whether it was triggered (by chance or on request) and whether
/// its window is currently hidden: returns the next state, and the window's hiding setting
/// when the surprise is showing (`None` leaves the window as it is). A triggered surprise that
/// is not showing starts showing; a showing one counts the step, and hides and stops after its
/// last step; in between it stays shown, or flickers (hides every other step) if it is set to.
pub open spec fn surprise_step(s: SurpriseState, triggered: bool, drawing_is_skipped: bool) -> (SurpriseState, Option<bool>) {
    let started = if triggered && s.curr_num_steps_when_appeared is None {
        Some(0u16)
    } else {
        s.curr_num_steps_when_appeared
    };
    match started {
        Some(n) => {
            let count = (n + 1) as u16;
            if count == s.num_update_steps_to_appear_for + 1 {
                (SurpriseState { curr_num_steps_when_appeared: None, ..s }, Some(true))
            } else if s.flicker_window {
                (SurpriseState { curr_num_steps_when_appeared: Some(count), ..s }, Some(!drawing_is_skipped))
            } else {
                (SurpriseState { curr_num_steps_when_appeared: Some(count), ..s }, Some(false))
            }
        },
        None => (s, None),
    }
}

impl SurpriseState {
    /// Well-formedness: valid step counts, and a showing surprise has not shown past its last
    /// step.
    pub open spec fn wf(self) -> bool {
        &&& 0 < self.num_update_steps_to_appear_for < u16::MAX
        &&& match self.curr_num_steps_when_appeared {
            Some(n) => n <= self.num_update_steps_to_appear_for,
            None => true,
        }
    }

    /// A surprise that is not showing.
    pub fn new(num_update_steps_to_appear_for: u16, flicker_window: bool) -> (res: SurpriseState)
        requires
            0 < num_update_steps_to_appear_for < u16::MAX,
        ensures
            res.wf(),
            res.num_update_steps_to_appear_for == num_update_steps_to_appear_for,
            (res.curr_num_steps_when_appeared is None),
            res.flicker_window == flicker_window,
    {
        SurpriseState { num_update_steps_to_appear_for, curr_num_steps_when_appeared: None, flicker_window }
    }

    /// Runs one step (see `surprise_step`).
    pub fn step(&mut self, triggered: bool, drawing_is_skipped: bool) -> (res: Option<bool>)
        requires
            old(self).wf(),
        ensures
            final(self).wf(),
            (*final(self), res) == surprise_step(*old(self), triggered, drawing_is_skipped),
    {
        if triggered && self.curr_num_steps_when_appeared.is_none() {
            self.curr_num_steps_when_appeared = Some(0);
        }
        match self.curr_num_steps_when_appeared {
            Some(n) => {
                let count = n + 1;
                if count == self.num_update_steps_to_appear_for + 1 {
                    self.curr_num_steps_when_appeared = None;
                    Some(true)
                } else {
                    self.curr_num_steps_when_appeared = Some(count);
                    if self.flicker_window {
                        Some(!drawing_is_skipped)
                    } else {
                        Some(false)
                    }
                }
            },
            None => None,
        }
    }
}

/// The state after `k` more steps of a showing surprise that does not flicker (triggers do not
/// matter while it shows).
pub open spec fn steps_after(s: SurpriseState, k: nat) -> SurpriseState
    decreases k,
{
    if k == 0 {
        s
    } else {
        surprise_step(steps_after(s, (k - 1) as nat), false, false).0
    }
}

/// A triggered surprise shows for exactly its number of steps: after the step that triggers
/// it and `k` more, it has shown for `k + 1` steps while `k + 1` is at most its number of
/// steps, and the step after its last one stops it.
pub proof fn law_surprise_shows_for_its_steps(s: SurpriseState, k: nat)
    requires
        s.wf(),
        (s.curr_num_steps_when_appeared is None),
        k < s.num_update_steps_to_appear_for,
    ensures
        steps_after(surprise_step(s, true, false).0, k).curr_num_steps_when_appeared == Some((k + 1) as u16),
        steps_after(surprise_step(s, true, false).0, (s.num_update_steps_to_appear_for - 1) as nat)
            == (SurpriseState { curr_num_steps_when_appeared: Some(s.num_update_steps_to_appear_for), ..s }),
        (steps_after(surprise_step(s, true, false).0, s.num_update_steps_to_appear_for as nat).curr_num_steps_when_appeared is None),
    decreases k,
{
    lemma_steps_count(s, k);
    lemma_steps_count(s, (s.num_update_steps_to_appear_for - 1) as nat);
    let last = steps_after(surprise_step(s, true, false).0, (s.num_update_steps_to_appear_for - 1) as nat);
    assert(steps_after(surprise_step(s, true, false).0, s.num_update_steps_to_appear_for as nat)
        == surprise_step(last, false, false).0);
}

proof fn lemma_steps_count(s: SurpriseState, k: nat)
    requires
        s.wf(),
        (s.curr_num_steps_when_appeared is None),
        k < s.num_update_steps_to_appear_for,
    ensures
        steps_after(surprise_step(s, true, false).0, k) == (SurpriseState { curr_num_steps_when_appeared: Some((k + 1) as u16), ..s }),
    decreases k,
{
    if k > 0 {
        lemma_steps_count(s, (k - 1) as nat);
    }
}

} // verus!
