use crate::breaks::{Break, BreakView};
use crate::errors::{PersistError, StateError, TrackerError};
use crate::project::{
    hist_entry, history_ok, lemma_break_sum_bounds_for_state, lemma_eff_in_range,
    lemma_partial_sum_le, lemma_sum_step, spec_end_break, spec_end_session, spec_start_break,
    spec_start_session, sum_session_breaks, sum_session_work, Project, ProjectState, ProjectView,
    StateView,
};
use crate::repository::{Repository, StoreModel};
use crate::session::{sum_break_secs, Session, SessionView};
use crate::time::{in_range, local_midnight, spec_local_midnight, Clock, SPAN_SECONDS};
use vstd::prelude::*;

verus! {

/// Total work seconds over the closed sessions that start at or after `m`.
pub open spec fn sum_work_from(ss: Seq<SessionView>, m: int) -> int
    decreases ss.len(),
{
    if ss.len() == 0 {
        0
    } else {
        sum_work_from(ss.drop_last(), m) + if ss.last().start >= m {
            ss.last().work()
        } else {
            0
        }
    }
}

/// Total break seconds over the closed sessions that start at or after `m`.
pub open spec fn sum_breaks_from(ss: Seq<SessionView>, m: int) -> int
    decreases ss.len(),
{
    if ss.len() == 0 {
        0
    } else {
        sum_breaks_from(ss.drop_last(), m) + if ss.last().start >= m {
            ss.last().total_break()
        } else {
            0
        }
    }
}

/// How many closed sessions start at or after `m`.
pub open spec fn count_from(ss: Seq<SessionView>, m: int) -> int
    decreases ss.len(),
{
    if ss.len() == 0 {
        0
    } else {
        count_from(ss.drop_last(), m) + if ss.last().start >= m {
            1int
        } else {
            0int
        }
    }
}

/// The start of the open session, if one is open.
pub open spec fn open_session_start(st: StateView) -> Option<int> {
    match st {
        StateView::Idle => None,
        StateView::Working { session } => Some(session.start),
        StateView::OnBreak { session, current } => Some(session.start),
    }
}

/// Work seconds the open session has accrued by instant `t`: elapsed time
/// minus its closed breaks, and minus the open break's elapsed time, so
/// work pauses while a break is open.
pub open spec fn live_work(st: StateView, t: int) -> int {
    match st {
        StateView::Idle => 0,
        StateView::Working { session } => (t - session.start) - sum_break_secs(session.breaks),
        StateView::OnBreak { session, current } => (current.start - session.start)
            - sum_break_secs(session.breaks),
    }
}

/// Break seconds the open session has accrued by instant `t`: its closed
/// breaks, plus the open break's elapsed time.
pub open spec fn live_break(st: StateView, t: int) -> int {
    match st {
        StateView::Idle => 0,
        StateView::Working { session } => sum_break_secs(session.breaks),
        StateView::OnBreak { session, current } => sum_break_secs(session.breaks) + (t
            - current.start),
    }
}

/// Today's work seconds: closed sessions that started at or after the local
/// midnight `m`, plus the open session's live work if it started today.
pub open spec fn spec_today_work(p: ProjectView, t: int, m: int) -> int {
    sum_work_from(p.sessions, m) + match open_session_start(p.state) {
        Some(s0) => if s0 >= m {
            live_work(p.state, t)
        } else {
            0
        },
        None => 0,
    }
}

/// Today's break seconds, on the same window.
pub open spec fn spec_today_break(p: ProjectView, t: int, m: int) -> int {
    sum_breaks_from(p.sessions, m) + match open_session_start(p.state) {
        Some(s0) => if s0 >= m {
            live_break(p.state, t)
        } else {
            0
        },
        None => 0,
    }
}

/// How many of today's sessions are already closed; an open one shows as
/// the current session instead.
pub open spec fn spec_today_count(p: ProjectView, m: int) -> int {
    count_from(p.sessions, m)
}

/// The mathematical value of a `StatusInfo`.
#[verifier::ext_equal]
pub struct StatusView {
    pub project_name: Seq<char>,
    pub current_session: Option<SessionView>,
    pub current_break: Option<BreakView>,
    pub last_session: Option<SessionView>,
    pub total_sessions: int,
    pub current_time: int,
    pub today_start: int,
    pub today_work_seconds: int,
    pub today_break_seconds: int,
    pub today_session_count: int,
    pub total_work_seconds: int,
    pub total_break_seconds: int,
}

/// A read-only snapshot of the project for display: the current state, the
/// most recent closed session, and the today and all-time aggregates.
#[derive(Debug)]
pub struct StatusInfo {
    pub project_name: String,
    pub current_session: Option<Session>,
    pub current_break: Option<Break>,
    pub last_session: Option<Session>,
    pub total_sessions: usize,
    pub current_time: i64,
    pub today_start: i64,
    pub today_work_seconds: i64,
    pub today_break_seconds: i64,
    pub today_session_count: usize,
    pub total_work_seconds: i64,
    pub total_break_seconds: i64,
}

impl View for StatusInfo {
    type V = StatusView;

    open spec fn view(&self) -> StatusView {
        StatusView {
            project_name: self.project_name@,
            current_session: match self.current_session {
                Some(ref s) => Some(s@),
                None => None,
            },
            current_break: match self.current_break {
                Some(ref b) => Some(b@),
                None => None,
            },
            last_session: match self.last_session {
                Some(ref s) => Some(s@),
                None => None,
            },
            total_sessions: self.total_sessions as int,
            current_time: self.current_time as int,
            today_start: self.today_start as int,
            today_work_seconds: self.today_work_seconds as int,
            today_break_seconds: self.today_break_seconds as int,
            today_session_count: self.today_session_count as int,
            total_work_seconds: self.total_work_seconds as int,
            total_break_seconds: self.total_break_seconds as int,
        }
    }
}

/// What `get_status` reports for project `p` at instant `t`, with today's
/// window starting at `m`.
pub open spec fn spec_status(p: ProjectView, t: int, m: int) -> StatusView {
    StatusView {
        project_name: p.name,
        current_session: match p.state {
            StateView::Idle => None,
            StateView::Working { session } => Some(session),
            StateView::OnBreak { session, current } => Some(session),
        },
        current_break: match p.state {
            StateView::OnBreak { session, current } => Some(current),
            _ => None,
        },
        last_session: if p.sessions.len() > 0 {
            Some(p.sessions.last())
        } else {
            None
        },
        total_sessions: p.sessions.len() as int,
        current_time: t,
        today_start: m,
        today_work_seconds: spec_today_work(p, t, m),
        today_break_seconds: spec_today_break(p, t, m),
        today_session_count: spec_today_count(p, m),
        total_work_seconds: sum_session_work(p.sessions) + live_work(p.state, t),
        total_break_seconds: sum_session_breaks(p.sessions) + live_break(p.state, t),
    }
}

/// Today's three filtered history sums in one pass.
fn sums_from_exec(list: &Vec<Session>, m: i64) -> (r: (i64, i64, usize))
    requires
        history_ok(list@.map_values(|s: Session| s@)),
    ensures
        r.0 as int == sum_work_from(list@.map_values(|s: Session| s@), m as int),
        r.1 as int == sum_breaks_from(list@.map_values(|s: Session| s@), m as int),
        r.2 as int == count_from(list@.map_values(|s: Session| s@), m as int),
        0 <= r.0 <= SPAN_SECONDS,
        0 <= r.1 <= SPAN_SECONDS,
        r.2 <= list@.len(),
{
    let ghost ss = list@.map_values(|s: Session| s@);
    proof {
        crate::project::lemma_history_sum_bounds(ss);
        assert(ss.subrange(0, 0) =~= Seq::<SessionView>::empty());
    }
    let mut work: i64 = 0;
    let mut brk: i64 = 0;
    let mut count: usize = 0;
    let mut i: usize = 0;
    while i < list.len()
        invariant
            history_ok(ss),
            ss == list@.map_values(|s: Session| s@),
            ss.len() == list@.len(),
            0 <= i <= ss.len(),
            work as int == sum_work_from(ss.subrange(0, i as int), m as int),
            brk as int == sum_breaks_from(ss.subrange(0, i as int), m as int),
            count as int == count_from(ss.subrange(0, i as int), m as int),
            count <= i,
            0 <= work as int <= sum_session_work(ss.subrange(0, i as int)),
            0 <= brk as int <= sum_session_breaks(ss.subrange(0, i as int)),
            sum_session_work(ss.subrange(0, i as int)) <= SPAN_SECONDS,
            sum_session_breaks(ss.subrange(0, i as int)) <= SPAN_SECONDS,
        decreases ss.len() - i,
    {
        let s = &list[i];
        proof {
            assert(ss[i as int] == s@);
            lemma_sum_step(ss, i as int);
            lemma_partial_sum_le(ss, i + 1);
            crate::project::lemma_history_sum_bounds(ss);
            assert(ss.subrange(0, i + 1).drop_last() =~= ss.subrange(0, i as int));
            assert(ss.subrange(0, i + 1).last() == ss[i as int]);
        }
        if s.start >= m {
            let w = match s.work_time() {
                Some(w) => w,
                None => 0,
            };
            let tb = s.total_break_time();
            work = work + w;
            brk = brk + tb;
            count = count + 1;
        }
        i = i + 1;
    }
    proof {
        assert(ss.subrange(0, ss.len() as int) =~= ss);
    }
    (work, brk, count)
}

/// Builds the status snapshot of `p` as of instant `now`, with today's
/// window starting at `today_start`. `now` must not precede what the
/// project has recorded; the service guarantees that by clipping the clock.
pub fn compute_status(p: &Project, now: i64, today_start: i64) -> (r: StatusInfo)
    requires
        p@.wf(),
        in_range(now as int),
        now as int >= p@.latest_instant(),
        today_start <= now,
    ensures
        r@ == spec_status(p@, now as int, today_start as int),
{
    let ghost pv = p@;
    proof {
        lemma_eff_in_range(pv, now as int);
        crate::project::lemma_history_sum_bounds(pv.sessions);
        lemma_break_sum_bounds_for_state(pv);
    }
    let (current_session, current_break): (Option<Session>, Option<Break>) = match &p.state {
        ProjectState::Idle => (None, None),
        ProjectState::Working { session } => (Some(session.duplicate()), None),
        ProjectState::OnBreak { session, current } => (
            Some(session.duplicate()),
            Some(current.duplicate()),
        ),
    };
    let last_session: Option<Session> = if p.sessions.len() > 0 {
        proof {
            assert(hist_entry(pv.sessions, pv.sessions.len() - 1));
        }
        Some(p.sessions[p.sessions.len() - 1].duplicate())
    } else {
        None
    };
    let hist_work = p.total_work_time();
    let hist_break = p.total_break_time();
    let (today_work_hist, today_break_hist, today_count_hist) = sums_from_exec(
        &p.sessions,
        today_start,
    );
    let (lw, lb, open_today): (i64, i64, bool) = match &p.state {
        ProjectState::Idle => (0, 0, false),
        ProjectState::Working { session } => {
            let tb = session.total_break_time();
            ((now - session.start) - tb, tb, session.start >= today_start)
        },
        ProjectState::OnBreak { session, current } => {
            let tb = session.total_break_time();
            (
                (current.start - session.start) - tb,
                tb + (now - current.start),
                session.start >= today_start,
            )
        },
    };
    let today_work_seconds = if open_today {
        today_work_hist + lw
    } else {
        today_work_hist
    };
    let today_break_seconds = if open_today {
        today_break_hist + lb
    } else {
        today_break_hist
    };
    let today_session_count = today_count_hist;
    let r = StatusInfo {
        project_name: p.name.clone(),
        current_session,
        current_break,
        last_session,
        total_sessions: p.sessions.len(),
        current_time: now,
        today_start,
        today_work_seconds,
        today_break_seconds,
        today_session_count,
        total_work_seconds: hist_work + lw,
        total_break_seconds: hist_break + lb,
    };
    proof {
        assert(r@ =~= spec_status(pv, now as int, today_start as int));
    }
    r
}

/// What the clock-in command does to the project at instant `t`: from idle
/// it opens a new session; from a break it resumes by closing the break; it
/// never runs from plain working state.
pub open spec fn spec_clock_in(p: ProjectView, t: int) -> ProjectView {
    match p.state {
        StateView::Idle => spec_start_session(p, t),
        StateView::OnBreak { .. } => match spec_end_break(p, t) {
            Ok((pv, d)) => pv,
            Err(_) => p,
        },
        StateView::Working { .. } => p,
    }
}

/// Orchestrates every command as one load, mutate, save cycle over the
/// injected store and clock.
pub struct SessionService<R: Repository, C: Clock> {
    pub repository: R,
    pub clock: C,
}

impl<R: Repository, C: Clock> SessionService<R, C> {
    /// What the service's store holds.
    pub open spec fn store(&self) -> StoreModel {
        self.repository.state()
    }

    pub fn new(repository: R, clock: C) -> (s: SessionService<R, C>)
        ensures
            s.repository == repository,
            s.clock == clock,
    {
        SessionService { repository, clock }
    }

    /// Creates and persists a fresh project. Fails when a record already
    /// exists (or cannot even be decoded), leaving the store unchanged.
    pub fn init_project(&mut self, name: String) -> (r: Result<(), TrackerError>)
        ensures
            (old(self).store() matches StoreModel::Present(_)) ==> r == Err::<(), TrackerError>(
                TrackerError::AlreadyInitialized,
            ) && final(self).store() == old(self).store(),
            old(self).store() is Corrupt ==> r == Err::<(), TrackerError>(
                TrackerError::Persistence(PersistError::Parse),
            ) && final(self).store() == old(self).store(),
            old(self).store() is Absent ==> match r {
                Ok(_) => final(self).store() == StoreModel::Present(
                    ProjectView {
                        name: name@,
                        state: StateView::Idle,
                        sessions: Seq::<SessionView>::empty(),
                    },
                ),
                Err(e) => final(self).store() == StoreModel::Absent && (e
                    matches TrackerError::Persistence(pe) && (pe == PersistError::Io || pe
                    == PersistError::Serialize)),
            },
    {
        match self.repository.load() {
            Ok(_) => Err(TrackerError::AlreadyInitialized),
            Err(PersistError::NotFound) => {
                let project = Project::new(name);
                match self.repository.save(&project) {
                    Ok(_) => Ok(()),
                    Err(e) => Err(TrackerError::Persistence(e)),
                }
            },
            Err(_) => Err(TrackerError::Persistence(PersistError::Parse)),
        }
    }

    /// Clock-in. From idle opens a new session; from a break resumes by
    /// closing the break without opening a second session; while already
    /// working it fails. Returns the resulting project for display.
    pub fn start_session(&mut self) -> (r: Result<Project, TrackerError>)
        ensures
            old(self).store() is Absent ==> r == Err::<Project, TrackerError>(
                TrackerError::NotInitialized,
            ) && final(self).store() == old(self).store(),
            old(self).store() is Corrupt ==> r == Err::<Project, TrackerError>(
                TrackerError::Persistence(PersistError::Parse),
            ) && final(self).store() == old(self).store(),
            old(self).store() matches StoreModel::Present(pv) ==> pv.state is Working ==> r
                == Err::<Project, TrackerError>(
                TrackerError::InvalidState(StateError::AlreadyClockedIn),
            ) && final(self).store() == old(self).store(),
            old(self).store() matches StoreModel::Present(pv) ==> !(pv.state is Working)
                ==> match r {
                Ok(proj) => {
                    &&& (exists|raw: int|
                        proj@ == spec_clock_in(pv, #[trigger] pv.eff_instant(raw)))
                    &&& proj@.wf()
                    &&& proj@.state is Working
                    &&& proj@.name == pv.name
                    &&& proj@.sessions == pv.sessions
                    &&& final(self).store() == StoreModel::Present(proj@)
                },
                Err(e) => final(self).store() == old(self).store() && (e
                    matches TrackerError::Persistence(pe) && (pe == PersistError::Io || pe
                    == PersistError::Serialize)),
            },
    {
        let mut project = match self.repository.load() {
            Ok(p) => p,
            Err(PersistError::NotFound) => {
                return Err(TrackerError::NotInitialized);
            },
            Err(_) => {
                return Err(TrackerError::Persistence(PersistError::Parse));
            },
        };
        if !project.has_open_session() {
            let now = self.clock.now();
            project.start_session(now);
            match self.repository.save(&project) {
                Ok(_) => Ok(project),
                Err(e) => Err(TrackerError::Persistence(e)),
            }
        } else if project.is_on_break() {
            let now = self.clock.now();
            let closed = project.end_break(now);
            proof {
                assert(closed is Ok);
            }
            match self.repository.save(&project) {
                Ok(_) => Ok(project),
                Err(e) => Err(TrackerError::Persistence(e)),
            }
        } else {
            Err(TrackerError::InvalidState(StateError::AlreadyClockedIn))
        }
    }

    /// Clock-out: ends the open session (closing any open break first) and
    /// returns the project and the closed session's work time. Fails when
    /// idle.
    pub fn end_session(&mut self) -> (r: Result<(Project, i64), TrackerError>)
        ensures
            old(self).store() is Absent ==> r == Err::<(Project, i64), TrackerError>(
                TrackerError::NotInitialized,
            ) && final(self).store() == old(self).store(),
            old(self).store() is Corrupt ==> r == Err::<(Project, i64), TrackerError>(
                TrackerError::Persistence(PersistError::Parse),
            ) && final(self).store() == old(self).store(),
            old(self).store() matches StoreModel::Present(pv) ==> pv.state is Idle ==> r
                == Err::<(Project, i64), TrackerError>(
                TrackerError::InvalidState(StateError::NoActiveSession),
            ) && final(self).store() == old(self).store(),
            old(self).store() matches StoreModel::Present(pv) ==> !(pv.state is Idle)
                ==> match r {
                Ok((proj, w)) => {
                    &&& (exists|raw: int|
                        {
                            let t = #[trigger] pv.eff_instant(raw);
                            spec_end_session(pv, t) matches Ok((pv2, w2)) && proj@ == pv2 && w
                                as int == w2
                        })
                    &&& proj@.wf()
                    &&& proj@.state is Idle
                    &&& proj@.sessions.len() == pv.sessions.len() + 1
                    &&& w >= 0
                    &&& final(self).store() == StoreModel::Present(proj@)
                },
                Err(e) => final(self).store() == old(self).store() && (e
                    matches TrackerError::Persistence(pe) && (pe == PersistError::Io || pe
                    == PersistError::Serialize)),
            },
    {
        let mut project = match self.repository.load() {
            Ok(p) => p,
            Err(PersistError::NotFound) => {
                return Err(TrackerError::NotInitialized);
            },
            Err(_) => {
                return Err(TrackerError::Persistence(PersistError::Parse));
            },
        };
        if !project.has_open_session() {
            return Err(TrackerError::InvalidState(StateError::NoActiveSession));
        }
        let now = self.clock.now();
        let w = match project.end_session(now) {
            Ok(w) => w,
            Err(_) => {
                proof {
                    assert(false);
                }
                0
            },
        };
        match self.repository.save(&project) {
            Ok(_) => Ok((project, w)),
            Err(e) => Err(TrackerError::Persistence(e)),
        }
    }

    /// Opens a break and returns the work time accrued in the session
    /// before the break began (for display only; it is not persisted).
    /// Fails when idle or already on a break.
    pub fn start_break(&mut self) -> (r: Result<i64, TrackerError>)
        ensures
            old(self).store() is Absent ==> r == Err::<i64, TrackerError>(
                TrackerError::NotInitialized,
            ) && final(self).store() == old(self).store(),
            old(self).store() is Corrupt ==> r == Err::<i64, TrackerError>(
                TrackerError::Persistence(PersistError::Parse),
            ) && final(self).store() == old(self).store(),
            old(self).store() matches StoreModel::Present(pv) ==> pv.state is Idle ==> r
                == Err::<i64, TrackerError>(TrackerError::InvalidState(StateError::NotClockedIn))
                && final(self).store() == old(self).store(),
            old(self).store() matches StoreModel::Present(pv) ==> pv.state is OnBreak ==> r
                == Err::<i64, TrackerError>(TrackerError::InvalidState(StateError::AlreadyOnBreak))
                && final(self).store() == old(self).store(),
            old(self).store() matches StoreModel::Present(pv) ==> pv.state is Working
                ==> match r {
                Ok(w) => {
                    &&& (exists|raw: int|
                        {
                            let t = #[trigger] pv.eff_instant(raw);
                            spec_start_break(pv, t) matches Ok((pv2, w2)) && w as int == w2
                                && final(self).store() == StoreModel::Present(pv2)
                        })
                    &&& w >= 0
                },
                Err(e) => final(self).store() == old(self).store() && (e
                    matches TrackerError::Persistence(pe) && (pe == PersistError::Io || pe
                    == PersistError::Serialize)),
            },
    {
        let mut project = match self.repository.load() {
            Ok(p) => p,
            Err(PersistError::NotFound) => {
                return Err(TrackerError::NotInitialized);
            },
            Err(_) => {
                return Err(TrackerError::Persistence(PersistError::Parse));
            },
        };
        let now = self.clock.now();
        let w = match project.start_break(now) {
            Ok(w) => w,
            Err(e) => {
                return Err(TrackerError::InvalidState(e));
            },
        };
        match self.repository.save(&project) {
            Ok(_) => Ok(w),
            Err(e) => Err(TrackerError::Persistence(e)),
        }
    }

    /// Read-only status snapshot: current state, last closed session,
    /// session count, and the today and all-time work/break aggregates. The
    /// today window runs from the machine's local midnight.
    pub fn get_status(&self) -> (r: Result<StatusInfo, TrackerError>)
        ensures
            self.store() is Absent ==> r == Err::<StatusInfo, TrackerError>(
                TrackerError::NotInitialized,
            ),
            self.store() is Corrupt ==> r == Err::<StatusInfo, TrackerError>(
                TrackerError::Persistence(PersistError::Parse),
            ),
            self.store() matches StoreModel::Present(pv) ==> (r matches Ok(st) && exists|
                raw: int,
                off: int,
            |
                {
                    &&& -86400 < off < 86400
                    &&& st@ == #[trigger] spec_status(
                        pv,
                        pv.eff_instant(raw),
                        spec_local_midnight(pv.eff_instant(raw), off),
                    )
                }),
    {
        let project = match self.repository.load() {
            Ok(p) => p,
            Err(PersistError::NotFound) => {
                return Err(TrackerError::NotInitialized);
            },
            Err(_) => {
                return Err(TrackerError::Persistence(PersistError::Parse));
            },
        };
        let raw = self.clock.now();
        let now = project.effective_now(raw);
        let today_start = local_midnight(now);
        proof {
            lemma_eff_in_range(project@, raw as int);
        }
        let st = compute_status(&project, now, today_start);
        Ok(st)
    }
}

/// Clock-in while on a break resumes: it closes the break and folds it
/// into the still-open session rather than opening a second one. Afterwards
/// exactly one session is open, no break is, and the history is untouched.
pub proof fn lemma_clock_in_resumes(p: ProjectView, raw: int)
    requires
        p.wf(),
        p.state is OnBreak,
    ensures
        ({
            let t = p.eff_instant(raw);
            let pv = spec_clock_in(p, t);
            match p.state {
                StateView::OnBreak { session, current } => {
                    &&& pv.state == (StateView::Working {
                        session: SessionView {
                            start: session.start,
                            end: None,
                            breaks: session.breaks.push(
                                crate::project::close_break(current, t),
                            ),
                        },
                    })
                    &&& pv.sessions == p.sessions
                    &&& pv.wf()
                },
                _ => false,
            }
        }),
{
    crate::project::lemma_transitions_wf(p, raw);
}

} // verus!
