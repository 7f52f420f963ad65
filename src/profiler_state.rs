//! Frame-time history for the profiler overlay.
use vstd::prelude::*;
use std::collections::VecDeque;
use std::time::Duration;

verus! {

/// The most recent frame times, newest first, at most `memory` of them.
pub struct ProfilerState {
    delta_times: VecDeque<Duration>,
    memory: usize,
}

impl View for ProfilerState {
    type V = (Seq<Duration>, usize);

    closed spec fn view(&self) -> (Seq<Duration>, usize) {
        (self.delta_times@, self.memory)
    }
}

impl ProfilerState {
    pub fn new(memory: usize) -> (r: ProfilerState)
        ensures
            r@ == (Seq::<Duration>::empty(), memory),
    {
        ProfilerState { delta_times: VecDeque::with_capacity(memory), memory }
    }

    pub fn memory(&self) -> (r: usize)
        ensures
            r == self@.1,
    {
        self.memory
    }

    /// Changes how many frames are kept; the history is cut down on the
    /// next update.
    pub fn set_memory(&mut self, memory: usize)
        ensures
            final(self)@ == (old(self)@.0, memory),
    {
        self.memory = memory;
    }

    /// Records a frame time as the newest and forgets the oldest beyond
    /// `memory`.
    pub fn update(&mut self, delta: Duration)
        ensures
            final(self)@.1 == old(self)@.1,
            final(self)@.0 == if old(self)@.0.len() + 1 <= old(self)@.1 {
                seq![delta] + old(self)@.0
            } else {
                (seq![delta] + old(self)@.0).take(old(self)@.1 as int)
            },
    {
        self.delta_times.push_front(delta);
        self.delta_times.truncate(self.memory);
    }

    /// The recorded frame times, newest first.
    pub fn delta_times(&self) -> (r: &VecDeque<Duration>)
        ensures
            r@ == self@.0,
    {
        &self.delta_times
    }
}

} // verus!
