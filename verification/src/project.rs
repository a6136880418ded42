use crate::breaks::{Break, BreakView};
use crate::errors::StateError;
use crate::session::{
    breaks_chained, breaks_high, lemma_break_sum_bounds, lemma_chain_push, lemma_work_time_nonneg,
    sum_break_secs, Session, SessionView,
};
use crate::time::{
    clip_instant, in_range, max_instant, spec_clip, spec_max, MAX_INSTANT, MIN_INSTANT,
    SPAN_SECONDS,
};
use vstd::prelude::*;

verus! {

/// What the project is doing right now. Carrying the open session and the
/// open break inside the variants makes a break without a session
/// unrepresentable.
#[derive(Debug, PartialEq, Eq)]
pub enum ProjectState {
    /// No session open.
    Idle,
    /// A session is open; no break is.
    Working { session: Session },
    /// A session and a break are open. The break joins the session's list
    /// once it closes.
    OnBreak { session: Session, current: Break },
}

/// The mathematical value of a `ProjectState`.
#[verifier::ext_equal]
pub enum StateView {
    Idle,
    Working { session: SessionView },
    OnBreak { session: SessionView, current: BreakView },
}

impl View for ProjectState {
    type V = StateView;

    open spec fn view(&self) -> StateView {
        match self {
            ProjectState::Idle => StateView::Idle,
            ProjectState::Working { session } => StateView::Working { session: session@ },
            ProjectState::OnBreak { session, current } => StateView::OnBreak {
                session: session@,
                current: current@,
            },
        }
    }
}

/// The aggregate root: a name, the current state, and the history of closed
/// sessions, append-only and chronological.
#[derive(Debug, PartialEq, Eq)]
pub struct Project {
    pub name: String,
    pub state: ProjectState,
    pub sessions: Vec<Session>,
}

/// The mathematical value of a `Project`.
#[verifier::ext_equal]
pub struct ProjectView {
    pub name: Seq<char>,
    pub state: StateView,
    pub sessions: Seq<SessionView>,
}

impl View for Project {
    type V = ProjectView;

    open spec fn view(&self) -> ProjectView {
        ProjectView {
            name: self.name@,
            state: self.state@,
            sessions: self.sessions@.map_values(|s: Session| s@),
        }
    }
}

/// The instant a closed session ends.
pub open spec fn session_end(s: SessionView) -> int
    recommends
        s.is_closed(),
{
    s.end.unwrap()
}

/// The earliest instant the session at index `i` may start: the end of the
/// one before it, or the floor of the instant range for the first.
pub open spec fn hist_lower(ss: Seq<SessionView>, i: int) -> int
    recommends
        0 <= i <= ss.len(),
{
    if i == 0 {
        MIN_INSTANT as int
    } else {
        session_end(ss[i - 1])
    }
}

/// The session at index `i` is closed, well formed, and starts no earlier
/// than the previous one ended.
pub open spec fn hist_entry(ss: Seq<SessionView>, i: int) -> bool {
    &&& ss[i].wf()
    &&& ss[i].is_closed()
    &&& ss[i].start >= hist_lower(ss, i)
}

/// Every session in the history is closed, well formed, and starts no
/// earlier than the previous one ended.
pub open spec fn history_ok(ss: Seq<SessionView>) -> bool {
    forall|i: int| 0 <= i < ss.len() ==> #[trigger] hist_entry(ss, i)
}

/// The latest instant the history reaches: the last session's end, or the
/// floor of the instant range when the history is empty.
pub open spec fn hist_high(ss: Seq<SessionView>) -> int {
    hist_lower(ss, ss.len() as int)
}

/// An open session: unclosed, well formed, and starting no earlier than
/// `after` (the end of the history before it).
pub open spec fn open_session_ok(after: int, s: SessionView) -> bool {
    &&& s.end is None
    &&& s.wf()
    &&& s.start >= after
}

impl ProjectView {
    /// The project invariant: an ordered history of closed sessions, an open
    /// session only inside `Working` or `OnBreak`, and an open break only
    /// inside `OnBreak`, starting after everything the session recorded.
    pub open spec fn wf(self) -> bool {
        &&& history_ok(self.sessions)
        &&& match self.state {
            StateView::Idle => true,
            StateView::Working { session } => open_session_ok(hist_high(self.sessions), session),
            StateView::OnBreak { session, current } => {
                &&& open_session_ok(hist_high(self.sessions), session)
                &&& current.end is None
                &&& in_range(current.start)
                &&& current.start >= breaks_high(session.start, session.breaks)
            },
        }
    }

    /// The latest instant this project has recorded anywhere.
    pub open spec fn latest_instant(self) -> int {
        match self.state {
            StateView::Idle => hist_high(self.sessions),
            StateView::Working { session } => breaks_high(session.start, session.breaks),
            StateView::OnBreak { session, current } => current.start,
        }
    }

    /// The instant a mutating operation actually records for a raw clock
    /// reading: clipped into the instant range, and never before the latest
    /// instant already recorded, so that durations stay non-negative even
    /// under a clock that jumped backwards.
    pub open spec fn eff_instant(self, raw: int) -> int {
        spec_max(spec_clip(raw), self.latest_instant())
    }

    pub open spec fn is_on_break(self) -> bool {
        self.state is OnBreak
    }

    pub open spec fn has_open_session(self) -> bool {
        !(self.state is Idle)
    }
}

/// The effective instant lies in range and at or after everything recorded.
pub proof fn lemma_eff_in_range(p: ProjectView, raw: int)
    requires
        p.wf(),
    ensures
        in_range(p.eff_instant(raw)),
        p.eff_instant(raw) >= p.latest_instant(),
        p.latest_instant() >= hist_high(p.sessions),
        MIN_INSTANT <= hist_high(p.sessions),
{
    let ss = p.sessions;
    if ss.len() > 0 {
        assert(hist_entry(ss, ss.len() - 1));
    }
    match p.state {
        StateView::Idle => {},
        StateView::Working { session } => {
            lemma_break_sum_bounds(session.start, session.breaks);
            if session.breaks.len() > 0 {
                assert(crate::session::chain_entry(
                    session.start,
                    session.breaks,
                    session.breaks.len() - 1,
                ));
            }
        },
        StateView::OnBreak { session, current } => {
            lemma_break_sum_bounds(session.start, session.breaks);
        },
    }
}

/// The open session's closed breaks fit inside it, so its live work time
/// is never negative.
pub proof fn lemma_break_sum_bounds_for_state(p: ProjectView)
    requires
        p.wf(),
    ensures
        match p.state {
            StateView::Idle => true,
            StateView::Working { session } => 0 <= sum_break_secs(session.breaks) && sum_break_secs(
                session.breaks,
            ) <= breaks_high(session.start, session.breaks) - session.start,
            StateView::OnBreak { session, current } => 0 <= sum_break_secs(session.breaks)
                && sum_break_secs(session.breaks) <= breaks_high(session.start, session.breaks)
                - session.start && current.start >= breaks_high(session.start, session.breaks),
        },
{
    match p.state {
        StateView::Idle => {},
        StateView::Working { session } => {
            lemma_break_sum_bounds(session.start, session.breaks);
        },
        StateView::OnBreak { session, current } => {
            lemma_break_sum_bounds(session.start, session.breaks);
        },
    }
}

/// Appending a closed session that starts after the history's end keeps the
/// history ordered and moves its high mark to the new session's end.
pub proof fn lemma_history_push(ss: Seq<SessionView>, s: SessionView)
    requires
        history_ok(ss),
        s.wf(),
        s.is_closed(),
        s.start >= hist_high(ss),
    ensures
        history_ok(ss.push(s)),
        hist_high(ss.push(s)) == session_end(s),
{
    let ss2 = ss.push(s);
    let n = ss.len() as int;
    assert forall|i: int| 0 <= i < ss2.len() implies #[trigger] hist_entry(ss2, i) by {
        if i < n {
            assert(hist_entry(ss, i));
            assert(ss2[i] == ss[i]);
            if i > 0 {
                assert(ss2[i - 1] == ss[i - 1]);
            }
        } else {
            assert(ss2[i] == s);
            if i > 0 {
                assert(hist_entry(ss, i - 1));
                assert(ss2[i - 1] == ss[i - 1]);
            }
        }
    }
    assert(ss2[ss2.len() - 1] == s);
}

/// Clock-in at the project level: opens a new session at `t` and drops any
/// open session or break; the service layer is what refuses a clock-in from
/// the wrong state.
pub open spec fn spec_start_session(p: ProjectView, t: int) -> ProjectView {
    ProjectView {
        name: p.name,
        state: StateView::Working {
            session: SessionView { start: t, end: None, breaks: Seq::<BreakView>::empty() },
        },
        sessions: p.sessions,
    }
}

/// A session closed at `t`.
pub open spec fn close_session(s: SessionView, t: int) -> SessionView {
    SessionView { start: s.start, end: Some(t), breaks: s.breaks }
}

/// A break closed at `t`.
pub open spec fn close_break(b: BreakView, t: int) -> BreakView {
    BreakView { start: b.start, end: Some(t) }
}

/// Clock-out: closes any open break first, folds it into the session, then
/// closes the session and appends it to the history. The value returned is
/// the closed session's work time.
pub open spec fn spec_end_session(p: ProjectView, t: int) -> Result<(ProjectView, int), StateError> {
    match p.state {
        StateView::Idle => Err(StateError::NoActiveSession),
        StateView::Working { session } => {
            let closed = close_session(session, t);
            Ok(
                (
                    ProjectView {
                        name: p.name,
                        state: StateView::Idle,
                        sessions: p.sessions.push(closed),
                    },
                    closed.work(),
                ),
            )
        },
        StateView::OnBreak { session, current } => {
            let folded = SessionView {
                start: session.start,
                end: None,
                breaks: session.breaks.push(close_break(current, t)),
            };
            let closed = close_session(folded, t);
            Ok(
                (
                    ProjectView {
                        name: p.name,
                        state: StateView::Idle,
                        sessions: p.sessions.push(closed),
                    },
                    closed.work(),
                ),
            )
        },
    }
}

/// Break start: opens a break at `t`. The value returned is the work time
/// accrued in the open session before the break began.
pub open spec fn spec_start_break(p: ProjectView, t: int) -> Result<(ProjectView, int), StateError> {
    match p.state {
        StateView::Idle => Err(StateError::NotClockedIn),
        StateView::OnBreak { .. } => Err(StateError::AlreadyOnBreak),
        StateView::Working { session } => Ok(
            (
                ProjectView {
                    name: p.name,
                    state: StateView::OnBreak {
                        session,
                        current: BreakView { start: t, end: None },
                    },
                    sessions: p.sessions,
                },
                (t - session.start) - sum_break_secs(session.breaks),
            ),
        ),
    }
}

/// Break end: closes the open break at `t` and folds it into the session's
/// break list. The value returned is the closed break's duration.
pub open spec fn spec_end_break(p: ProjectView, t: int) -> Result<(ProjectView, int), StateError> {
    match p.state {
        StateView::OnBreak { session, current } => {
            let cb = close_break(current, t);
            Ok(
                (
                    ProjectView {
                        name: p.name,
                        state: StateView::Working {
                            session: SessionView {
                                start: session.start,
                                end: None,
                                breaks: session.breaks.push(cb),
                            },
                        },
                        sessions: p.sessions,
                    },
                    cb.dur(),
                ),
            )
        },
        _ => Err(StateError::NotOnBreak),
    }
}

/// Every transition, taken at the effective instant, preserves the project
/// invariant, and every duration it reports is non-negative.
pub proof fn lemma_transitions_wf(p: ProjectView, raw: int)
    requires
        p.wf(),
    ensures
        spec_start_session(p, p.eff_instant(raw)).wf(),
        match spec_end_session(p, p.eff_instant(raw)) {
            Ok((pv, w)) => pv.wf() && 0 <= w,
            Err(_) => true,
        },
        match spec_start_break(p, p.eff_instant(raw)) {
            Ok((pv, w)) => pv.wf() && 0 <= w,
            Err(_) => true,
        },
        match spec_end_break(p, p.eff_instant(raw)) {
            Ok((pv, d)) => pv.wf() && 0 <= d,
            Err(_) => true,
        },
        (p.state matches StateView::Working { session } ==> close_session(
            session,
            p.eff_instant(raw),
        ).wf()),
        (p.state matches StateView::OnBreak { session, current } ==> close_session(
            SessionView {
                start: session.start,
                end: None,
                breaks: session.breaks.push(close_break(current, p.eff_instant(raw))),
            },
            p.eff_instant(raw),
        ).wf()),
{
    let t = p.eff_instant(raw);
    lemma_eff_in_range(p, raw);
    match p.state {
        StateView::Idle => {
            assert(breaks_chained(t, Seq::<BreakView>::empty()));
        },
        StateView::Working { session } => {
            lemma_break_sum_bounds(session.start, session.breaks);
            assert(breaks_chained(t, Seq::<BreakView>::empty()));
            // clock-out from Working
            let closed = close_session(session, t);
            assert(closed.wf());
            lemma_history_push(p.sessions, closed);
            lemma_work_time_nonneg(closed);
        },
        StateView::OnBreak { session, current } => {
            lemma_break_sum_bounds(session.start, session.breaks);
            assert(breaks_chained(t, Seq::<BreakView>::empty()));
            let cb = close_break(current, t);
            lemma_chain_push(session.start, session.breaks, cb);
            // resume from break
            let resumed = SessionView {
                start: session.start,
                end: None,
                breaks: session.breaks.push(cb),
            };
            assert(resumed.wf());
            // clock-out from OnBreak
            let closed = close_session(resumed, t);
            assert(closed.wf());
            lemma_history_push(p.sessions, closed);
            lemma_work_time_nonneg(closed);
        },
    }
}

/// Total seconds from clock-in to clock-out over the given closed sessions.
pub open spec fn sum_session_durations(ss: Seq<SessionView>) -> int
    decreases ss.len(),
{
    if ss.len() == 0 {
        0
    } else {
        sum_session_durations(ss.drop_last()) + ss.last().duration()
    }
}

/// Total work seconds (duration minus breaks) over the given closed sessions.
pub open spec fn sum_session_work(ss: Seq<SessionView>) -> int
    decreases ss.len(),
{
    if ss.len() == 0 {
        0
    } else {
        sum_session_work(ss.drop_last()) + ss.last().work()
    }
}

/// Total break seconds over the given closed sessions.
pub open spec fn sum_session_breaks(ss: Seq<SessionView>) -> int
    decreases ss.len(),
{
    if ss.len() == 0 {
        0
    } else {
        sum_session_breaks(ss.drop_last()) + ss.last().total_break()
    }
}

/// An ordered history stays ordered when truncated.
pub proof fn lemma_history_prefix(ss: Seq<SessionView>, n: int)
    requires
        history_ok(ss),
        0 <= n <= ss.len(),
    ensures
        history_ok(ss.subrange(0, n)),
{
    let pre = ss.subrange(0, n);
    assert forall|i: int| 0 <= i < pre.len() implies #[trigger] hist_entry(pre, i) by {
        assert(hist_entry(ss, i));
        assert(pre[i] == ss[i]);
        if i > 0 {
            assert(pre[i - 1] == ss[i - 1]);
        }
    }
}

/// Over an ordered history the three sums are non-negative, work and break
/// time partition the duration, and the whole fits inside the span the
/// history covers.
pub proof fn lemma_history_sum_bounds(ss: Seq<SessionView>)
    requires
        history_ok(ss),
    ensures
        0 <= sum_session_work(ss),
        0 <= sum_session_breaks(ss),
        sum_session_work(ss) + sum_session_breaks(ss) == sum_session_durations(ss),
        sum_session_durations(ss) <= hist_high(ss) - MIN_INSTANT,
        MIN_INSTANT <= hist_high(ss) <= MAX_INSTANT,
    decreases ss.len(),
{
    if ss.len() == 0 {
    } else {
        let n = ss.len() as int;
        let pre = ss.drop_last();
        assert(pre == ss.subrange(0, n - 1));
        lemma_history_prefix(ss, n - 1);
        lemma_history_sum_bounds(pre);
        let last = ss.last();
        assert(hist_entry(ss, n - 1));
        assert(last == ss[n - 1]);
        assert(hist_high(pre) == hist_lower(ss, n - 1));
        lemma_work_time_nonneg(last);
        lemma_break_sum_bounds(last.start, last.breaks);
    }
}


/// One step of an aggregate loop over an ordered history: how each sum
/// grows, and the bounds on the new term.
pub proof fn lemma_sum_step(ss: Seq<SessionView>, i: int)
    requires
        history_ok(ss),
        0 <= i < ss.len(),
    ensures
        sum_session_durations(ss.subrange(0, i + 1)) == sum_session_durations(
            ss.subrange(0, i),
        ) + ss[i].duration(),
        sum_session_work(ss.subrange(0, i + 1)) == sum_session_work(ss.subrange(0, i))
            + ss[i].work(),
        sum_session_breaks(ss.subrange(0, i + 1)) == sum_session_breaks(ss.subrange(0, i))
            + ss[i].total_break(),
        ss[i].wf(),
        ss[i].is_closed(),
        0 <= ss[i].duration() <= SPAN_SECONDS,
        0 <= ss[i].work() <= ss[i].duration(),
        0 <= ss[i].total_break() <= ss[i].duration(),
{
    assert(hist_entry(ss, i));
    assert(ss.subrange(0, i + 1).drop_last() =~= ss.subrange(0, i));
    assert(ss.subrange(0, i + 1).last() == ss[i]);
    lemma_break_sum_bounds(ss[i].start, ss[i].breaks);
    lemma_work_time_nonneg(ss[i]);
}

/// Every partial sum of an ordered history lies between zero and the sum
/// over the whole history.
pub proof fn lemma_partial_sum_le(ss: Seq<SessionView>, n: int)
    requires
        history_ok(ss),
        0 <= n <= ss.len(),
    ensures
        0 <= sum_session_durations(ss.subrange(0, n)) <= sum_session_durations(ss),
        0 <= sum_session_work(ss.subrange(0, n)) <= sum_session_work(ss),
        0 <= sum_session_breaks(ss.subrange(0, n)) <= sum_session_breaks(ss),
    decreases ss.len() - n,
{
    lemma_history_prefix(ss, n);
    lemma_history_sum_bounds(ss.subrange(0, n));
    if n == ss.len() {
        assert(ss.subrange(0, n) =~= ss);
    } else {
        lemma_sum_step(ss, n);
        lemma_partial_sum_le(ss, n + 1);
    }
}

/// Sum of the durations of an ordered list of closed sessions.
fn sum_durations_exec(list: &Vec<Session>) -> (t: i64)
    requires
        history_ok(list@.map_values(|s: Session| s@)),
    ensures
        t as int == sum_session_durations(list@.map_values(|s: Session| s@)),
        t >= 0,
{
    let ghost ss = list@.map_values(|s: Session| s@);
    proof {
        lemma_history_sum_bounds(ss);
        assert(ss.subrange(0, 0) =~= Seq::<SessionView>::empty());
    }
    let mut acc: i64 = 0;
    let mut i: usize = 0;
    while i < list.len()
        invariant
            history_ok(ss),
            ss == list@.map_values(|s: Session| s@),
            ss.len() == list@.len(),
            0 <= i <= ss.len(),
            acc as int == sum_session_durations(ss.subrange(0, i as int)),
            0 <= acc as int <= crate::time::SPAN_SECONDS,
        decreases ss.len() - i,
    {
        let s = &list[i];
        proof {
            assert(ss[i as int] == s@);
            lemma_sum_step(ss, i as int);
            lemma_partial_sum_le(ss, i + 1);
            lemma_history_sum_bounds(ss);
        }
        let e = match s.end {
            Some(e) => e,
            None => 0,
        };
        acc = acc + (e - s.start);
        i = i + 1;
    }
    proof {
        assert(ss.subrange(0, ss.len() as int) =~= ss);
    }
    acc
}

/// Sum of the work times of an ordered list of closed sessions.
fn sum_work_exec(list: &Vec<Session>) -> (t: i64)
    requires
        history_ok(list@.map_values(|s: Session| s@)),
    ensures
        t as int == sum_session_work(list@.map_values(|s: Session| s@)),
        t >= 0,
{
    let ghost ss = list@.map_values(|s: Session| s@);
    proof {
        lemma_history_sum_bounds(ss);
        assert(ss.subrange(0, 0) =~= Seq::<SessionView>::empty());
    }
    let mut acc: i64 = 0;
    let mut i: usize = 0;
    while i < list.len()
        invariant
            history_ok(ss),
            ss == list@.map_values(|s: Session| s@),
            ss.len() == list@.len(),
            0 <= i <= ss.len(),
            acc as int == sum_session_work(ss.subrange(0, i as int)),
            0 <= acc as int <= crate::time::SPAN_SECONDS,
        decreases ss.len() - i,
    {
        let s = &list[i];
        proof {
            assert(ss[i as int] == s@);
            lemma_sum_step(ss, i as int);
            lemma_partial_sum_le(ss, i + 1);
            lemma_history_sum_bounds(ss);
        }
        let w = match s.work_time() {
            Some(w) => w,
            None => 0,
        };
        acc = acc + w;
        i = i + 1;
    }
    proof {
        assert(ss.subrange(0, ss.len() as int) =~= ss);
    }
    acc
}

/// Sum of the break times of an ordered list of closed sessions.
fn sum_breaks_exec(list: &Vec<Session>) -> (t: i64)
    requires
        history_ok(list@.map_values(|s: Session| s@)),
    ensures
        t as int == sum_session_breaks(list@.map_values(|s: Session| s@)),
        t >= 0,
{
    let ghost ss = list@.map_values(|s: Session| s@);
    proof {
        lemma_history_sum_bounds(ss);
        assert(ss.subrange(0, 0) =~= Seq::<SessionView>::empty());
    }
    let mut acc: i64 = 0;
    let mut i: usize = 0;
    while i < list.len()
        invariant
            history_ok(ss),
            ss == list@.map_values(|s: Session| s@),
            ss.len() == list@.len(),
            0 <= i <= ss.len(),
            acc as int == sum_session_breaks(ss.subrange(0, i as int)),
            0 <= acc as int <= crate::time::SPAN_SECONDS,
        decreases ss.len() - i,
    {
        let s = &list[i];
        proof {
            assert(ss[i as int] == s@);
            lemma_sum_step(ss, i as int);
            lemma_partial_sum_le(ss, i + 1);
            lemma_history_sum_bounds(ss);
        }
        let tb = s.total_break_time();
        acc = acc + tb;
        i = i + 1;
    }
    proof {
        assert(ss.subrange(0, ss.len() as int) =~= ss);
    }
    acc
}

/// Clocking out while on a break closes the break first, folds it into the
/// session's break list, and the closed session's work time excludes that
/// break's duration along with the earlier ones.
pub proof fn lemma_end_session_folds_break(p: ProjectView, raw: int)
    requires
        p.wf(),
        p.state is OnBreak,
    ensures
        ({
            let t = p.eff_instant(raw);
            match (p.state, spec_end_session(p, t)) {
                (StateView::OnBreak { session, current }, Ok((pv, w))) => {
                    &&& pv.state is Idle
                    &&& pv.sessions == p.sessions.push(
                        SessionView {
                            start: session.start,
                            end: Some(t),
                            breaks: session.breaks.push(close_break(current, t)),
                        },
                    )
                    &&& w == (t - session.start) - (sum_break_secs(session.breaks) + (t
                        - current.start))
                    &&& 0 <= w
                },
                _ => false,
            }
        }),
{
    let t = p.eff_instant(raw);
    lemma_transitions_wf(p, raw);
    match p.state {
        StateView::OnBreak { session, current } => {
            let cb = close_break(current, t);
            let folded = SessionView {
                start: session.start,
                end: Some(t),
                breaks: session.breaks.push(cb),
            };
            assert(folded.breaks.drop_last() =~= session.breaks);
            assert(folded.breaks.last() == cb);
        },
        _ => {},
    }
}

/// Starting a break fails while idle, and fails again if requested a
/// second time without an intervening resume: the first success leaves the
/// project on a break, and from there every further request is refused.
pub proof fn lemma_start_break_needs_working(p: ProjectView, raw1: int, raw2: int)
    requires
        p.wf(),
    ensures
        p.state is Idle ==> spec_start_break(p, p.eff_instant(raw1)) == Err::<
            (ProjectView, int),
            StateError,
        >(StateError::NotClockedIn),
        match spec_start_break(p, p.eff_instant(raw1)) {
            Ok((pv, w)) => spec_start_break(pv, pv.eff_instant(raw2)) == Err::<
                (ProjectView, int),
                StateError,
            >(StateError::AlreadyOnBreak),
            Err(_) => true,
        },
{
}

impl Project {
    /// A fresh project: no open session, no open break, empty history.
    pub fn new(name: String) -> (p: Project)
        ensures
            p@ == (ProjectView {
                name: name@,
                state: StateView::Idle,
                sessions: Seq::<SessionView>::empty(),
            }),
            p@.wf(),
    {
        let p = Project { name, state: ProjectState::Idle, sessions: Vec::new() };
        proof {
            assert(p@.sessions =~= Seq::<SessionView>::empty());
            assert(p@ =~= ProjectView {
                name: p.name@,
                state: StateView::Idle,
                sessions: Seq::<SessionView>::empty(),
            });
        }
        p
    }

    /// The latest instant this project has recorded anywhere.
    fn latest(&self) -> (t: i64)
        requires
            self@.wf(),
        ensures
            t as int == self@.latest_instant(),
    {
        match &self.state {
            ProjectState::Idle => {
                let n = self.sessions.len();
                if n == 0 {
                    MIN_INSTANT
                } else {
                    proof {
                        assert(hist_entry(self@.sessions, n - 1));
                    }
                    match self.sessions[n - 1].end {
                        Some(e) => e,
                        None => MIN_INSTANT,
                    }
                }
            },
            ProjectState::Working { session } => {
                let nb = session.breaks.len();
                if nb == 0 {
                    session.start
                } else {
                    proof {
                        assert(crate::session::chain_entry(session@.start, session@.breaks, nb - 1));
                    }
                    match session.breaks[nb - 1].end {
                        Some(e) => e,
                        None => session.start,
                    }
                }
            },
            ProjectState::OnBreak { current, .. } => current.start,
        }
    }

    /// The instant a mutating operation records for the raw reading `raw`.
    pub fn effective_now(&self, raw: i64) -> (t: i64)
        requires
            self@.wf(),
        ensures
            t as int == self@.eff_instant(raw as int),
            in_range(t as int),
    {
        proof {
            lemma_eff_in_range(self@, raw as int);
        }
        max_instant(clip_instant(raw), self.latest())
    }

    /// Opens a new session at `now`, clearing any current break. Callers
    /// that must refuse a clock-in from `Working` or `OnBreak` check the
    /// state first, as the service does.
    pub fn start_session(&mut self, now: i64)
        requires
            old(self)@.wf(),
        ensures
            final(self)@ == spec_start_session(old(self)@, old(self)@.eff_instant(now as int)),
            final(self)@.wf(),
    {
        let t = self.effective_now(now);
        self.state = ProjectState::Working { session: Session::new(t) };
        proof {
            lemma_transitions_wf(old(self)@, now as int);
            assert(final(self)@ =~= spec_start_session(old(self)@, old(self)@.eff_instant(now as int)));
        }
    }

    /// Closes the open session at `now` (closing and folding in any open
    /// break first), appends it to the history, and returns its work time.
    /// Fails when no session is open.
    pub fn end_session(&mut self, now: i64) -> (r: Result<i64, StateError>)
        requires
            old(self)@.wf(),
        ensures
            match spec_end_session(old(self)@, old(self)@.eff_instant(now as int)) {
                Ok((pv, w)) => r matches Ok(v) && v as int == w && 0 <= w && final(self)@ == pv
                    && pv.wf(),
                Err(e) => r == Err::<i64, StateError>(e) && final(self)@ == old(self)@,
            },
    {
        let t = self.effective_now(now);
        proof {
            lemma_transitions_wf(old(self)@, now as int);
        }
        let mut st = ProjectState::Idle;
        core::mem::swap(&mut st, &mut self.state);
        match st {
            ProjectState::Idle => {
                self.state = ProjectState::Idle;
                proof {
                    assert(final(self)@ =~= old(self)@);
                }
                Err(StateError::NoActiveSession)
            },
            ProjectState::Working { mut session } => {
                let ghost sv = session@;
                session.finish(t);
                proof {
                    assert(session@ =~= close_session(sv, t as int));
                }
                let w = match session.work_time() {
                    Some(w) => w,
                    None => 0,
                };
                self.sessions.push(session);
                proof {
                    let spec_p = spec_end_session(old(self)@, t as int).unwrap().0;
                    assert(final(self)@.sessions =~= spec_p.sessions);
                    assert(final(self)@ =~= spec_p);
                }
                Ok(w)
            },
            ProjectState::OnBreak { mut session, mut current } => {
                let ghost sv = session@;
                let ghost cv = current@;
                current.finish(t);
                session.add_break(current);
                session.finish(t);
                proof {
                    assert(session@ =~= close_session(
                        SessionView {
                            start: sv.start,
                            end: None,
                            breaks: sv.breaks.push(close_break(cv, t as int)),
                        },
                        t as int,
                    ));
                }
                let w = match session.work_time() {
                    Some(w) => w,
                    None => 0,
                };
                self.sessions.push(session);
                proof {
                    let spec_p = spec_end_session(old(self)@, t as int).unwrap().0;
                    assert(final(self)@.sessions =~= spec_p.sessions);
                    assert(final(self)@ =~= spec_p);
                }
                Ok(w)
            },
        }
    }

    /// Opens a break at `now`. Fails when no session is open or a break
    /// already is.
    pub fn start_break(&mut self, now: i64) -> (r: Result<i64, StateError>)
        requires
            old(self)@.wf(),
        ensures
            match spec_start_break(old(self)@, old(self)@.eff_instant(now as int)) {
                Ok((pv, w)) => r matches Ok(v) && v as int == w && 0 <= w && final(self)@ == pv
                    && pv.wf(),
                Err(e) => r == Err::<i64, StateError>(e) && final(self)@ == old(self)@,
            },
    {
        let t = self.effective_now(now);
        proof {
            lemma_transitions_wf(old(self)@, now as int);
        }
        match &self.state {
            ProjectState::Idle => Err(StateError::NotClockedIn),
            ProjectState::OnBreak { .. } => Err(StateError::AlreadyOnBreak),
            ProjectState::Working { session } => {
                let accrued = (t - session.start) - session.total_break_time();
                let mut st = ProjectState::Idle;
                core::mem::swap(&mut st, &mut self.state);
                match st {
                    ProjectState::Working { session } => {
                        self.state = ProjectState::OnBreak { session, current: Break::new(t) };
                        proof {
                            let spec_p = spec_start_break(old(self)@, t as int).unwrap().0;
                            assert(final(self)@ =~= spec_p);
                        }
                        Ok(accrued)
                    },
                    _ => {
                        proof {
                            assert(false);
                        }
                        Err(StateError::NotClockedIn)
                    },
                }
            },
        }
    }

    /// Closes the open break at `now`, folds it into the session, and
    /// returns the break's duration. Fails when no break is open.
    pub fn end_break(&mut self, now: i64) -> (r: Result<i64, StateError>)
        requires
            old(self)@.wf(),
        ensures
            match spec_end_break(old(self)@, old(self)@.eff_instant(now as int)) {
                Ok((pv, d)) => r matches Ok(v) && v as int == d && 0 <= d && final(self)@ == pv
                    && pv.wf(),
                Err(e) => r == Err::<i64, StateError>(e) && final(self)@ == old(self)@,
            },
    {
        let t = self.effective_now(now);
        proof {
            lemma_transitions_wf(old(self)@, now as int);
        }
        let mut st = ProjectState::Idle;
        core::mem::swap(&mut st, &mut self.state);
        match st {
            ProjectState::OnBreak { mut session, mut current } => {
                let b_start = current.start;
                current.finish(t);
                session.add_break(current);
                self.state = ProjectState::Working { session };
                proof {
                    let spec_p = spec_end_break(old(self)@, t as int).unwrap().0;
                    assert(final(self)@ =~= spec_p);
                }
                Ok(t - b_start)
            },
            other => {
                self.state = other;
                proof {
                    assert(final(self)@ =~= old(self)@);
                }
                Err(StateError::NotOnBreak)
            },
        }
    }

    /// True iff a session is open right now.
    pub fn has_open_session(&self) -> (r: bool)
        ensures
            r == self@.has_open_session(),
    {
        match &self.state {
            ProjectState::Idle => false,
            _ => true,
        }
    }

    /// True iff a break is open right now.
    pub fn is_on_break(&self) -> (r: bool)
        ensures
            r == self@.is_on_break(),
    {
        match &self.state {
            ProjectState::OnBreak { .. } => true,
            _ => false,
        }
    }

    /// Total time tracked over the closed-session history: the sum of every
    /// closed session's duration. An open session does not count yet.
    pub fn total_time_tracked(&self) -> (t: i64)
        requires
            self@.wf(),
        ensures
            t as int == sum_session_durations(self@.sessions),
            t >= 0,
    {
        sum_durations_exec(&self.sessions)
    }

    /// Total work time over the closed-session history: each session's
    /// duration minus its break time. An open session does not count yet.
    pub fn total_work_time(&self) -> (t: i64)
        requires
            self@.wf(),
        ensures
            t as int == sum_session_work(self@.sessions),
            t >= 0,
    {
        sum_work_exec(&self.sessions)
    }

    /// Total break time over the closed-session history. An open session's
    /// breaks do not count yet.
    pub fn total_break_time(&self) -> (t: i64)
        requires
            self@.wf(),
        ensures
            t as int == sum_session_breaks(self@.sessions),
            t >= 0,
    {
        sum_breaks_exec(&self.sessions)
    }

    /// An identical, independently owned project.
    pub fn duplicate(&self) -> (p: Project)
        ensures
            p@ == self@,
    {
        let state = match &self.state {
            ProjectState::Idle => ProjectState::Idle,
            ProjectState::Working { session } => ProjectState::Working {
                session: session.duplicate(),
            },
            ProjectState::OnBreak { session, current } => ProjectState::OnBreak {
                session: session.duplicate(),
                current: current.duplicate(),
            },
        };
        let mut sessions: Vec<Session> = Vec::new();
        let mut i: usize = 0;
        while i < self.sessions.len()
            invariant
                0 <= i <= self.sessions@.len(),
                sessions@.len() == i,
                forall|j: int| 0 <= j < i ==> sessions@[j]@ == #[trigger] self.sessions@[j]@,
            decreases self.sessions@.len() - i,
        {
            sessions.push(self.sessions[i].duplicate());
            i = i + 1;
        }
        let p = Project { name: self.name.clone(), state, sessions };
        proof {
            assert(p@.sessions =~= self@.sessions);
            assert(p@ =~= self@);
        }
        p
    }
}

} // verus!
