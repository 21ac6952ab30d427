//! The ingestion rate sparkline: entries per tick over the last sixty
//! ticks.

use std::collections::VecDeque;
use vstd::prelude::*;
use crate::action::Action;
use crate::theme::Theme;

verus! {

/// Number of ticks shown.
pub const SPARKLINE_WIDTH: usize = 60;

/// The sparkline's state.
pub struct SparklineChart {
    /// Entries per completed tick, oldest first.
    pub data: VecDeque<u64>,
    /// Entries seen in the tick in progress.
    pub current_tick_count: u64,
    /// Entries seen in the last completed tick.
    pub current_rate: u64,
    /// The color theme.
    pub theme: Theme,
}

impl SparklineChart {
    /// Exactly sixty completed ticks are kept.
    pub open spec fn wf(&self) -> bool {
        self.data@.len() == SPARKLINE_WIDTH
    }

    /// Sixty empty ticks.
    pub fn new(theme: Theme) -> (s: SparklineChart)
        ensures
            s.wf(),
            forall|i: int| 0 <= i < SPARKLINE_WIDTH ==> s.data@[i] == 0,
            s.current_tick_count == 0,
            s.current_rate == 0,
            s.theme == theme,
    {
        let mut data: VecDeque<u64> = VecDeque::with_capacity(SPARKLINE_WIDTH);
        let mut i: usize = 0;
        while i < SPARKLINE_WIDTH
            invariant
                i <= SPARKLINE_WIDTH,
                data@.len() == i,
                forall|k: int| 0 <= k < i ==> data@[k] == 0,
            decreases SPARKLINE_WIDTH - i,
        {
            data.push_back(0);
            i += 1;
        }
        SparklineChart { data, current_tick_count: 0, current_rate: 0, theme }
    }

    /// Count `count` more entries in the current tick.
    pub fn record_entries(&mut self, count: u64)
        requires
            old(self).current_tick_count + count <= u64::MAX,
        ensures
            *final(self) == (SparklineChart {
                current_tick_count: (old(self).current_tick_count + count) as u64,
                ..*old(self)
            }),
    {
        self.current_tick_count = self.current_tick_count + count;
    }

    /// Close the current tick: its count becomes the rate and joins the
    /// data, the oldest count leaves, and a new tick starts.
    pub fn tick(&mut self)
        requires
            old(self).wf(),
        ensures
            final(self).wf(),
            final(self).data@ == old(self).data@.drop_first().push(old(self).current_tick_count),
            final(self).current_rate == old(self).current_tick_count,
            final(self).current_tick_count == 0,
            final(self).theme == old(self).theme,
    {
        self.current_rate = self.current_tick_count;
        self.data.pop_front();
        self.data.push_back(self.current_tick_count);
        self.current_tick_count = 0;
    }

    /// Entries seen in the last completed tick.
    pub fn current_rate(&self) -> (r: u64)
        ensures
            r == self.current_rate,
    {
        self.current_rate
    }

    /// React to an action: a tick closes the current count. Never produces
    /// a follow-up action.
    pub fn handle_action(&mut self, action: &Action) -> (r: Option<Action>)
        requires
            old(self).wf(),
        ensures
            final(self).wf(),
            r is None,
            !(action is Tick) ==> *final(self) == *old(self),
            action is Tick ==> final(self).data@ == old(self).data@.drop_first().push(old(self).current_tick_count)
                && final(self).current_rate == old(self).current_tick_count && final(self).current_tick_count == 0,
    {
        if let Action::Tick = action {
            self.tick();
        }
        None
    }
}

} // verus!
