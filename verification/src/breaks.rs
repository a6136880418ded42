use crate::time::in_range;
use vstd::prelude::*;

verus! {

/// A single pause interval nested inside a session. Created open; `end` is
/// set exactly once when the break finishes.
#[derive(Debug, PartialEq, Eq)]
pub struct Break {
    pub start: i64,
    pub end: Option<i64>,
}

/// The mathematical value of a `Break`.
pub struct BreakView {
    pub start: int,
    pub end: Option<int>,
}

impl View for Break {
    type V = BreakView;

    open spec fn view(&self) -> BreakView {
        BreakView {
            start: self.start as int,
            end: match self.end {
                Some(e) => Some(e as int),
                None => None,
            },
        }
    }
}

impl BreakView {
    pub open spec fn is_closed(self) -> bool {
        self.end is Some
    }

    /// `end`, when present, lies at or after `start`, and both lie in the
    /// library's instant range.
    pub open spec fn wf(self) -> bool {
        &&& in_range(self.start)
        &&& match self.end {
            Some(e) => in_range(e) && e >= self.start,
            None => true,
        }
    }

    /// Seconds between start and end; meaningful only once closed.
    pub open spec fn dur(self) -> int
        recommends
            self.is_closed(),
    {
        self.end.unwrap() - self.start
    }
}

impl Break {
    /// Opens a break at `start`.
    pub fn new(start: i64) -> (b: Break)
        ensures
            b@ == (BreakView { start: start as int, end: None }),
    {
        Break { start, end: None }
    }

    /// Closes the break at `end`. The project calls this exactly once per
    /// break; a second call would overwrite the first.
    pub fn finish(&mut self, end: i64)
        ensures
            final(self)@ == (BreakView { start: old(self)@.start, end: Some(end as int) }),
    {
        self.end = Some(end);
    }

    /// `end - start` once the break is closed; nothing while it is open.
    pub fn duration(&self) -> (d: Option<i64>)
        requires
            self@.wf(),
        ensures
            match self@.end {
                Some(_) => d matches Some(v) && v as int == self@.dur() && v >= 0,
                None => d is None,
            },
    {
        match self.end {
            Some(e) => Some(e - self.start),
            None => None,
        }
    }

    /// True iff the break has not been closed yet.
    pub fn is_active(&self) -> (r: bool)
        ensures
            r == (self@.end is None),
    {
        self.end.is_none()
    }

    /// An identical, independently owned break.
    pub fn duplicate(&self) -> (b: Break)
        ensures
            b@ == self@,
    {
        Break { start: self.start, end: self.end }
    }
}

} // verus!
