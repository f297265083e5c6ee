use vstd::prelude::*;

verus! {

/// The number of distinct frame indices before the frame counter wraps around.
pub open spec fn frame_index_modulus() -> nat {
    65536
}

/// How often (in frames) a window updater runs.
#[derive(Copy, Clone)]
pub struct UpdateRate {
    every_n_frames: u16,
}

impl UpdateRate {
    /// Well-formedness: an update rate never has zero frames between updates.
    pub closed spec fn wf(self) -> bool {
        self.every_n_frames >= 1
    }

    /// The number of frames between two updates.
    pub closed spec fn frames(self) -> nat {
        self.every_n_frames as nat
    }

    /// An update rate that fires on every frame.
    pub fn once_per_frame() -> (rate: UpdateRate)
        ensures
            rate.wf(),
            rate.frames() == 1,
    {
        UpdateRate { every_n_frames: 1 }
    }

    /// An update rate that fires once every `num_frames` frames (the floored frame count
    /// that a number of seconds between updates yields at a given frame rate).
    pub fn with_num_frames(num_frames: u16) -> (rate: UpdateRate)
        requires
            num_frames >= 1,
        ensures
            rate.wf(),
            rate.frames() == num_frames,
    {
        UpdateRate { every_n_frames: num_frames }
    }

    /// Whether an updater with this rate runs on the frame the counter is at.
    pub fn is_time_to_update(self, frame_counter: FrameCounter) -> (res: bool)
        requires
            self.wf(),
        ensures
            res == (frame_counter.index() % self.frames() == 0),
    {
        frame_counter.wrapping_frame_index % self.every_n_frames == 0
    }
}

/// A frame index that wraps around after `u16::MAX`.
#[derive(Copy, Clone)]
pub struct FrameCounter {
    wrapping_frame_index: u16,
}

impl FrameCounter {
    /// The current (wrapped) frame index.
    pub closed spec fn index(self) -> nat {
        self.wrapping_frame_index as nat
    }

    pub fn new() -> (counter: FrameCounter)
        ensures
            counter.index() == 0,
    {
        FrameCounter { wrapping_frame_index: 0 }
    }

    /// Advances the counter by one frame, wrapping to 0 after `u16::MAX`.
    pub fn tick(&mut self)
        ensures
            final(self).index() == (old(self).index() + 1) % frame_index_modulus(),
    {
        if self.wrapping_frame_index == u16::MAX {
            self.wrapping_frame_index = 0;
        } else {
            self.wrapping_frame_index = self.wrapping_frame_index + 1;
        }
    }
}

/// Makes update rates for a display with a given refresh rate.
#[derive(Copy, Clone)]
pub struct UpdateRateCreator {
    fps: u16,
}

impl UpdateRateCreator {
    pub closed spec fn frames_per_second(self) -> nat {
        self.fps as nat
    }

    pub fn new(fps: u16) -> (creator: UpdateRateCreator)
        ensures
            creator.frames_per_second() == fps,
    {
        UpdateRateCreator { fps }
    }

    pub fn get_fps(self) -> (fps: u16)
        ensures
            fps == self.frames_per_second(),
    {
        self.fps
    }
}

/// Law: an updater that runs once per frame runs on every frame.
pub proof fn law_once_per_frame_always_updates(rate: UpdateRate, counter: FrameCounter)
    requires
        rate.frames() == 1,
    ensures
        counter.index() % rate.frames() == 0,
{
}

/// Law: as long as the frame counter does not wrap, an updater that runs on some frame
/// runs again exactly its number of frames later, and on no frame in between.
pub proof fn law_update_rate_is_periodic(rate: UpdateRate, start: nat, offset: nat)
    requires
        rate.wf(),
        start % rate.frames() == 0,
        0 < offset <= rate.frames(),
    ensures
        ((start + offset) % rate.frames() == 0) == (offset == rate.frames()),
{
    let n = rate.frames() as int;
    let s = start as int;
    let o = offset as int;
    vstd::arithmetic::div_mod::lemma_fundamental_div_mod(s, n);
    let q = s / n;
    assert(s == n * q);
    vstd::arithmetic::div_mod::lemma_mod_multiples_vanish(q, o, n);
    assert((n * q + o) % n == o % n);
    if o < n {
        vstd::arithmetic::div_mod::lemma_small_mod(offset, n as nat);
    } else {
        vstd::arithmetic::div_mod::lemma_mod_self_0(n);
    }
}

} // verus!
