//! The log volume histogram: per-tick counts of entries, errors and
//! warnings over the last sixty ticks.

use std::collections::VecDeque;
use vstd::prelude::*;
use crate::action::Action;
use crate::text::{lowercase, str_eq, to_lowercase};
use crate::theme::Theme;

verus! {

/// Number of completed ticks kept.
pub const MAX_BUCKETS: usize = 60;

/// The counts of one tick.
#[derive(Debug, Clone, Copy, PartialEq, Eq, Structural)]
pub struct HistogramBucket {
    /// Entries seen.
    pub total: u64,
    /// Error entries seen.
    pub errors: u64,
    /// Warning entries seen.
    pub warnings: u64,
}

/// An empty bucket.
pub open spec fn empty_bucket() -> HistogramBucket {
    HistogramBucket { total: 0, errors: 0, warnings: 0 }
}

/// Whether a level (lowercased) counts as an error.
pub open spec fn is_error_level(l: Seq<char>) -> bool {
    l == "error"@ || l == "err"@ || l == "fatal"@ || l == "critical"@
}

/// Whether a level (lowercased) counts as a warning.
pub open spec fn is_warning_level(l: Seq<char>) -> bool {
    l == "warn"@ || l == "warning"@
}

/// The bucket after counting one entry at `level`.
pub open spec fn counted(b: HistogramBucket, level: Option<Seq<char>>) -> HistogramBucket {
    let t = HistogramBucket { total: (b.total + 1) as u64, ..b };
    match level {
        Some(l) => if is_error_level(lowercase(l)) {
            HistogramBucket { errors: (b.errors + 1) as u64, ..t }
        } else if is_warning_level(lowercase(l)) {
            HistogramBucket { warnings: (b.warnings + 1) as u64, ..t }
        } else {
            t
        },
        None => t,
    }
}

/// Counting an entry adds one to the total; it adds one to the errors
/// exactly when its level, lowercased, is `error`, `err`, `fatal` or
/// `critical`, and one to the warnings exactly when it is `warn` or
/// `warning`; an entry without a level counts only in the total.
pub proof fn law_counted_levels(b: HistogramBucket, level: Option<Seq<char>>)
    ensures
        counted(b, level).total == (b.total + 1) as u64,
        level matches Some(l) ==> {
            let k = lowercase(l);
            let error = k == "error"@ || k == "err"@ || k == "fatal"@ || k == "critical"@;
            let warning = k == "warn"@ || k == "warning"@;
            &&& counted(b, level).errors == if error { (b.errors + 1) as u64 } else { b.errors }
            &&& counted(b, level).warnings == if !error && warning {
                (b.warnings + 1) as u64
            } else {
                b.warnings
            }
        },
        level is None ==> counted(b, level).errors == b.errors && counted(b, level).warnings == b.warnings,
{
}

/// The histogram counts as errors exactly the levels the statistics panel
/// counts as errors.
pub proof fn law_error_levels_agree(k: Seq<char>)
    ensures
        is_error_level(k) == crate::components::stats_panel::is_error_key(k),
{
}

/// The histogram's state.
pub struct Histogram {
    /// Completed ticks, oldest first.
    pub buckets: VecDeque<HistogramBucket>,
    /// The tick in progress.
    pub current_bucket: HistogramBucket,
    /// The color theme.
    pub theme: Theme,
    /// Whether the threshold line follows the data.
    pub auto_threshold: bool,
}

impl Histogram {
    /// Exactly sixty completed ticks are kept, and no count of the current
    /// tick exceeds its total.
    pub open spec fn wf(&self) -> bool {
        &&& self.buckets@.len() == MAX_BUCKETS
        &&& self.current_bucket.errors <= self.current_bucket.total
        &&& self.current_bucket.warnings <= self.current_bucket.total
    }

    /// Sixty empty ticks.
    pub fn new(theme: Theme) -> (h: Histogram)
        ensures
            h.wf(),
            forall|i: int| 0 <= i < MAX_BUCKETS ==> h.buckets@[i] == empty_bucket(),
            h.current_bucket == empty_bucket(),
            h.theme == theme,
            !h.auto_threshold,
    {
        let mut buckets: VecDeque<HistogramBucket> = VecDeque::with_capacity(MAX_BUCKETS);
        let mut i: usize = 0;
        while i < MAX_BUCKETS
            invariant
                i <= MAX_BUCKETS,
                buckets@.len() == i,
                forall|k: int| 0 <= k < i ==> buckets@[k] == empty_bucket(),
            decreases MAX_BUCKETS - i,
        {
            buckets.push_back(HistogramBucket { total: 0, errors: 0, warnings: 0 });
            i += 1;
        }
        Histogram {
            buckets,
            current_bucket: HistogramBucket { total: 0, errors: 0, warnings: 0 },
            theme,
            auto_threshold: false,
        }
    }

    /// Count one entry at `level` (errors: error, err, fatal, critical;
    /// warnings: warn, warning; any case) in the current tick.
    pub fn record_entry(&mut self, level: Option<&str>)
        requires
            old(self).wf(),
            old(self).current_bucket.total < u64::MAX,
        ensures
            final(self).wf(),
            *final(self) == (Histogram {
                current_bucket: counted(old(self).current_bucket, match level {
                    Some(l) => Some(l@),
                    None => None,
                }),
                ..*old(self)
            }),
    {
        self.current_bucket.total = self.current_bucket.total + 1;
        if let Some(lvl) = level {
            let low = to_lowercase(lvl);
            let l = low.as_str();
            if str_eq(l, "error") || str_eq(l, "err") || str_eq(l, "fatal") || str_eq(l, "critical") {
                self.current_bucket.errors = self.current_bucket.errors + 1;
            } else if str_eq(l, "warn") || str_eq(l, "warning") {
                self.current_bucket.warnings = self.current_bucket.warnings + 1;
            }
        }
    }

    /// Close the current tick: it joins the completed ticks, the oldest
    /// leaves, and a new empty tick starts.
    pub fn tick(&mut self)
        requires
            old(self).wf(),
        ensures
            final(self).wf(),
            final(self).buckets@ == old(self).buckets@.drop_first().push(old(self).current_bucket),
            final(self).current_bucket == empty_bucket(),
            final(self).theme == old(self).theme,
            final(self).auto_threshold == old(self).auto_threshold,
    {
        self.buckets.pop_front();
        self.buckets.push_back(self.current_bucket);
        self.current_bucket = HistogramBucket { total: 0, errors: 0, warnings: 0 };
    }

    /// Entries seen in the current tick.
    pub fn total_rate(&self) -> (n: u64)
        ensures
            n == self.current_bucket.total,
    {
        self.current_bucket.total
    }

    /// Switch the threshold line between following the data and fixed.
    pub fn toggle_auto_threshold(&mut self)
        ensures
            *final(self) == (Histogram { auto_threshold: !old(self).auto_threshold, ..*old(self) }),
    {
        self.auto_threshold = !self.auto_threshold;
    }

    /// React to an action: a tick closes the current bucket. Never produces
    /// a follow-up action.
    pub fn handle_action(&mut self, action: &Action) -> (r: Option<Action>)
        requires
            old(self).wf(),
        ensures
            final(self).wf(),
            r is None,
            !(action is Tick) ==> *final(self) == *old(self),
            action is Tick ==> final(self).buckets@ == old(self).buckets@.drop_first().push(old(self).current_bucket)
                && final(self).current_bucket == empty_bucket(),
    {
        if let Action::Tick = action {
            self.tick();
        }
        None
    }
}

} // verus!
