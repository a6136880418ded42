use crate::breaks::{Break, BreakView};
use crate::time::in_range;
use vstd::prelude::*;

verus! {

/// One clock-in-to-clock-out interval, owning the breaks that closed inside
/// it. The currently open break, if any, lives at the project level until it
/// closes.
#[derive(Debug, PartialEq, Eq)]
pub struct Session {
    pub start: i64,
    pub end: Option<i64>,
    pub breaks: Vec<Break>,
}

/// The mathematical value of a `Session`.
#[verifier::ext_equal]
pub struct SessionView {
    pub start: int,
    pub end: Option<int>,
    pub breaks: Seq<BreakView>,
}

impl View for Session {
    type V = SessionView;

    open spec fn view(&self) -> SessionView {
        SessionView {
            start: self.start as int,
            end: match self.end {
                Some(e) => Some(e as int),
                None => None,
            },
            breaks: self.breaks@.map_values(|b: Break| b@),
        }
    }
}

/// The latest instant a prefix of `breaks` reaches: the end of the break
/// before index `i`, or the session start for the first break.
pub open spec fn break_lower(start: int, breaks: Seq<BreakView>, i: int) -> int
    recommends
        0 <= i <= breaks.len(),
{
    if i == 0 {
        start
    } else {
        breaks[i - 1].end.unwrap()
    }
}

/// The break at index `i` is closed, well formed, and starts no earlier
/// than the previous one ended (or the session started).
pub open spec fn chain_entry(start: int, breaks: Seq<BreakView>, i: int) -> bool {
    &&& breaks[i].wf()
    &&& breaks[i].is_closed()
    &&& breaks[i].start >= break_lower(start, breaks, i)
}

/// The breaks are closed, well formed, and chronological: each starts no
/// earlier than the previous one ended, and none before the session start.
pub open spec fn breaks_chained(start: int, breaks: Seq<BreakView>) -> bool {
    forall|i: int| 0 <= i < breaks.len() ==> #[trigger] chain_entry(start, breaks, i)
}

/// The latest instant the break list reaches: the last break's end, or the
/// session start when there is none.
pub open spec fn breaks_high(start: int, breaks: Seq<BreakView>) -> int {
    break_lower(start, breaks, breaks.len() as int)
}

/// Total seconds spent in the given breaks.
pub open spec fn sum_break_secs(breaks: Seq<BreakView>) -> int
    decreases breaks.len(),
{
    if breaks.len() == 0 {
        0
    } else {
        sum_break_secs(breaks.drop_last()) + breaks.last().dur()
    }
}

/// A chained break list stays chained when truncated.
pub proof fn lemma_chained_prefix(start: int, breaks: Seq<BreakView>, n: int)
    requires
        breaks_chained(start, breaks),
        0 <= n <= breaks.len(),
    ensures
        breaks_chained(start, breaks.subrange(0, n)),
{
    let pre = breaks.subrange(0, n);
    assert forall|i: int| 0 <= i < pre.len() implies #[trigger] chain_entry(start, pre, i) by {
        assert(chain_entry(start, breaks, i));
        assert(pre[i] == breaks[i]);
        if i > 0 {
            assert(pre[i - 1] == breaks[i - 1]);
        }
    }
}

/// Breaks that lie chained inside a session take, together, no more time
/// than the span from the session start to the last break's end.
pub proof fn lemma_break_sum_bounds(start: int, breaks: Seq<BreakView>)
    requires
        breaks_chained(start, breaks),
    ensures
        0 <= sum_break_secs(breaks) <= breaks_high(start, breaks) - start,
        breaks_high(start, breaks) >= start,
    decreases breaks.len(),
{
    if breaks.len() == 0 {
    } else {
        let n = breaks.len() as int;
        let pre = breaks.drop_last();
        assert(pre == breaks.subrange(0, n - 1));
        lemma_chained_prefix(start, breaks, n - 1);
        lemma_break_sum_bounds(start, pre);
        let last = breaks.last();
        assert(chain_entry(start, breaks, n - 1));
        assert(last == breaks[n - 1]);
        assert(breaks_high(start, pre) == break_lower(start, breaks, n - 1));
    }
}

/// Appending a closed break that starts after the chain's last end keeps the
/// chain, and moves its high mark to the new break's end.
pub proof fn lemma_chain_push(start: int, breaks: Seq<BreakView>, nb: BreakView)
    requires
        breaks_chained(start, breaks),
        nb.wf(),
        nb.is_closed(),
        nb.start >= breaks_high(start, breaks),
    ensures
        breaks_chained(start, breaks.push(nb)),
        breaks_high(start, breaks.push(nb)) == nb.end.unwrap(),
{
    let bs2 = breaks.push(nb);
    let n = breaks.len() as int;
    assert forall|i: int| 0 <= i < bs2.len() implies #[trigger] chain_entry(start, bs2, i) by {
        if i < n {
            assert(chain_entry(start, breaks, i));
            assert(bs2[i] == breaks[i]);
            if i > 0 {
                assert(bs2[i - 1] == breaks[i - 1]);
            }
        } else {
            assert(bs2[i] == nb);
            if i > 0 {
                assert(chain_entry(start, breaks, i - 1));
                assert(bs2[i - 1] == breaks[i - 1]);
            }
        }
    }
    assert(bs2[bs2.len() - 1] == nb);
}

impl SessionView {
    pub open spec fn is_closed(self) -> bool {
        self.end is Some
    }

    /// Start and end lie in range, the breaks lie chained inside the
    /// session, and the end (once set) lies after all of them.
    pub open spec fn wf(self) -> bool {
        &&& in_range(self.start)
        &&& breaks_chained(self.start, self.breaks)
        &&& match self.end {
            Some(e) => in_range(e) && e >= self.start && e >= breaks_high(self.start, self.breaks),
            None => true,
        }
    }

    /// Seconds from clock-in to clock-out; meaningful only once closed.
    pub open spec fn duration(self) -> int
        recommends
            self.is_closed(),
    {
        self.end.unwrap() - self.start
    }

    /// Total seconds of the closed breaks this session holds.
    pub open spec fn total_break(self) -> int {
        sum_break_secs(self.breaks)
    }

    /// Duration minus total break time; meaningful only once closed.
    pub open spec fn work(self) -> int
        recommends
            self.is_closed(),
    {
        self.duration() - self.total_break()
    }
}

/// For every closed, well-formed session, work time equals duration minus
/// total break time, and that value is never negative, because the breaks
/// are sub-intervals of the session by construction.
pub proof fn lemma_work_time_nonneg(s: SessionView)
    requires
        s.wf(),
        s.is_closed(),
    ensures
        s.work() == s.duration() - s.total_break(),
        0 <= s.work() <= s.duration(),
{
    lemma_break_sum_bounds(s.start, s.breaks);
}

impl Session {
    /// Opens a session at `start`, with no breaks.
    pub fn new(start: i64) -> (s: Session)
        ensures
            s@ == (SessionView { start: start as int, end: None, breaks: Seq::<BreakView>::empty() }),
    {
        let s = Session { start, end: None, breaks: Vec::new() };
        proof {
            assert(s@.breaks =~= Seq::<BreakView>::empty());
            assert(s@ =~= SessionView { start: start as int, end: None, breaks: Seq::<BreakView>::empty() });
        }
        s
    }

    /// Closes the session at `end`. The project calls this exactly once per
    /// session; a second call would overwrite the first.
    pub fn finish(&mut self, end: i64)
        ensures
            final(self)@ == (SessionView {
                start: old(self)@.start,
                end: Some(end as int),
                breaks: old(self)@.breaks,
            }),
    {
        self.end = Some(end);
        proof {
            assert(final(self)@ =~= SessionView {
                start: old(self)@.start,
                end: Some(end as int),
                breaks: old(self)@.breaks,
            });
        }
    }

    /// Appends a break that has already closed; breaks are kept in the order
    /// they closed.
    pub fn add_break(&mut self, b: Break)
        requires
            b@.is_closed(),
        ensures
            final(self)@ == (SessionView {
                start: old(self)@.start,
                end: old(self)@.end,
                breaks: old(self)@.breaks.push(b@),
            }),
    {
        let ghost bv = b@;
        self.breaks.push(b);
        proof {
            assert(final(self)@.breaks =~= old(self)@.breaks.push(bv));
            assert(final(self)@ =~= SessionView {
                start: old(self)@.start,
                end: old(self)@.end,
                breaks: old(self)@.breaks.push(bv),
            });
        }
    }

    /// `end - start` once the session is closed; nothing while it is open.
    pub fn duration(&self) -> (d: Option<i64>)
        requires
            self@.wf(),
        ensures
            match self@.end {
                Some(_) => d matches Some(v) && v as int == self@.duration() && v >= 0,
                None => d is None,
            },
    {
        match self.end {
            Some(e) => Some(e - self.start),
            None => None,
        }
    }

    /// True iff the session has not been closed yet.
    pub fn is_active(&self) -> (r: bool)
        ensures
            r == (self@.end is None),
    {
        self.end.is_none()
    }

    /// Sum of the closed breaks' durations; zero if none.
    pub fn total_break_time(&self) -> (t: i64)
        requires
            self@.wf(),
        ensures
            t as int == self@.total_break(),
            t >= 0,
    {
        let ghost st = self@.start;
        let ghost bs = self@.breaks;
        let mut acc: i64 = 0;
        let mut i: usize = 0;
        proof {
            assert(bs.subrange(0, 0) =~= Seq::<BreakView>::empty());
        }
        while i < self.breaks.len()
            invariant
                in_range(st),
                breaks_chained(st, bs),
                bs == self@.breaks,
                bs.len() == self.breaks@.len(),
                0 <= i <= bs.len(),
                acc as int == sum_break_secs(bs.subrange(0, i as int)),
                0 <= acc as int <= break_lower(st, bs, i as int) - st,
                break_lower(st, bs, i as int) <= crate::time::MAX_INSTANT,
            decreases bs.len() - i,
        {
            let b = &self.breaks[i];
            proof {
                assert(bs[i as int] == b@);
                assert(chain_entry(st, bs, i as int));
                assert(bs.subrange(0, i + 1).drop_last() =~= bs.subrange(0, i as int));
                assert(bs.subrange(0, i + 1).last() == bs[i as int]);
            }
            let e = match b.end {
                Some(e) => e,
                None => 0,
            };
            acc = acc + (e - b.start);
            i = i + 1;
        }
        proof {
            assert(bs.subrange(0, bs.len() as int) =~= bs);
        }
        acc
    }

    /// Fails to be meaningful while the session is open; once closed, equals
    /// `duration() - total_break_time()`, which is never negative.
    pub fn work_time(&self) -> (w: Option<i64>)
        requires
            self@.wf(),
        ensures
            match self@.end {
                Some(_) => w matches Some(v) && v as int == self@.work() && 0 <= v as int
                    <= self@.duration(),
                None => w is None,
            },
    {
        match self.end {
            Some(e) => {
                let tb = self.total_break_time();
                proof {
                    lemma_work_time_nonneg(self@);
                }
                Some((e - self.start) - tb)
            },
            None => None,
        }
    }

    /// An identical, independently owned session.
    pub fn duplicate(&self) -> (s: Session)
        ensures
            s@ == self@,
    {
        let mut copied: Vec<Break> = Vec::new();
        let mut i: usize = 0;
        while i < self.breaks.len()
            invariant
                0 <= i <= self.breaks@.len(),
                copied@.len() == i,
                forall|j: int| 0 <= j < i ==> copied@[j]@ == #[trigger] self.breaks@[j]@,
            decreases self.breaks@.len() - i,
        {
            copied.push(self.breaks[i].duplicate());
            i = i + 1;
        }
        let s = Session { start: self.start, end: self.end, breaks: copied };
        proof {
            assert(s@.breaks =~= self@.breaks);
            assert(s@ =~= self@);
        }
        s
    }
}

} // verus!
