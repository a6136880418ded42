use crate::breaks::{Break, BreakView};
use crate::errors::PersistError;
use crate::project::{
    hist_entry, hist_lower, history_ok, open_session_ok, Project, ProjectState, ProjectView,
    StateView,
};
use crate::session::{breaks_chained, breaks_high, chain_entry, Session, SessionView};
use crate::time::{in_range, MAX_INSTANT, MIN_INSTANT};
use vstd::prelude::*;

verus! {

/// A break as the persisted project record carries it.
#[derive(Debug, PartialEq, Eq)]
pub struct BreakRecord {
    pub start: i64,
    pub end: Option<i64>,
}

impl View for BreakRecord {
    type V = BreakView;

    open spec fn view(&self) -> BreakView {
        BreakView {
            start: self.start as int,
            end: match self.end {
                Some(e) => Some(e as int),
                None => None,
            },
        }
    }
}

/// A session as the persisted record carries it. A record written before
/// breaks existed has no break list; loading defaults it to empty.
#[derive(Debug, PartialEq, Eq)]
pub struct SessionRecord {
    pub start: i64,
    pub end: Option<i64>,
    pub breaks: Option<Vec<BreakRecord>>,
}

/// The mathematical value of a `SessionRecord`.
#[verifier::ext_equal]
pub struct SessionRecView {
    pub start: int,
    pub end: Option<int>,
    pub breaks: Option<Seq<BreakView>>,
}

impl View for SessionRecord {
    type V = SessionRecView;

    open spec fn view(&self) -> SessionRecView {
        SessionRecView {
            start: self.start as int,
            end: match self.end {
                Some(e) => Some(e as int),
                None => None,
            },
            breaks: match self.breaks {
                Some(ref bs) => Some(bs@.map_values(|b: BreakRecord| b@)),
                None => None,
            },
        }
    }
}

/// The whole persisted record: name, the optional open session and break,
/// and the closed-session history.
#[derive(Debug, PartialEq, Eq)]
pub struct ProjectRecord {
    pub name: String,
    pub current_session: Option<SessionRecord>,
    pub current_break: Option<BreakRecord>,
    pub sessions: Vec<SessionRecord>,
}

/// The mathematical value of a `ProjectRecord`.
#[verifier::ext_equal]
pub struct ProjectRecView {
    pub name: Seq<char>,
    pub current_session: Option<SessionRecView>,
    pub current_break: Option<BreakView>,
    pub sessions: Seq<SessionRecView>,
}

impl View for ProjectRecord {
    type V = ProjectRecView;

    open spec fn view(&self) -> ProjectRecView {
        ProjectRecView {
            name: self.name@,
            current_session: match self.current_session {
                Some(ref s) => Some(s@),
                None => None,
            },
            current_break: match self.current_break {
                Some(ref b) => Some(b@),
                None => None,
            },
            sessions: self.sessions@.map_values(|s: SessionRecord| s@),
        }
    }
}

/// How a session is written into the record.
pub open spec fn record_of_session(s: SessionView) -> SessionRecView {
    SessionRecView { start: s.start, end: s.end, breaks: Some(s.breaks) }
}

/// How a session is read back: a missing break list means none were
/// recorded.
pub open spec fn session_of_record(r: SessionRecView) -> SessionView {
    SessionView {
        start: r.start,
        end: r.end,
        breaks: match r.breaks {
            Some(bs) => bs,
            None => Seq::<BreakView>::empty(),
        },
    }
}

/// How a project is written into the record: the open session and break go
/// into the two optional fields, the history into the list.
pub open spec fn spec_to_record(p: ProjectView) -> ProjectRecView {
    ProjectRecView {
        name: p.name,
        current_session: match p.state {
            StateView::Idle => None,
            StateView::Working { session } => Some(record_of_session(session)),
            StateView::OnBreak { session, current } => Some(record_of_session(session)),
        },
        current_break: match p.state {
            StateView::OnBreak { session, current } => Some(current),
            _ => None,
        },
        sessions: p.sessions.map_values(|s: SessionView| record_of_session(s)),
    }
}

/// The state the two optional fields denote; a break without a session
/// denotes nothing.
pub open spec fn state_of_record(cs: Option<SessionRecView>, cb: Option<BreakView>) -> Option<
    StateView,
> {
    match cs {
        None => match cb {
            None => Some(StateView::Idle),
            Some(_) => None,
        },
        Some(sr) => match cb {
            None => Some(StateView::Working { session: session_of_record(sr) }),
            Some(b) => Some(StateView::OnBreak { session: session_of_record(sr), current: b }),
        },
    }
}

/// How a record is read back: the fields must denote a state, and the
/// result must satisfy the project invariant; anything else is a parse
/// failure.
pub open spec fn spec_from_record(r: ProjectRecView) -> Option<ProjectView> {
    match state_of_record(r.current_session, r.current_break) {
        None => None,
        Some(st) => {
            let p = ProjectView {
                name: r.name,
                state: st,
                sessions: r.sessions.map_values(|s: SessionRecView| session_of_record(s)),
            };
            if p.wf() {
                Some(p)
            } else {
                None
            }
        },
    }
}

/// Writing a well-formed project into a record and reading it back yields
/// the same project, nested breaks and history order included.
pub proof fn lemma_record_round_trip(p: ProjectView)
    requires
        p.wf(),
    ensures
        spec_from_record(spec_to_record(p)) == Some(p),
{
    let r = spec_to_record(p);
    let back = r.sessions.map_values(|s: SessionRecView| session_of_record(s));
    assert forall|i: int| 0 <= i < p.sessions.len() implies back[i] == #[trigger] p.sessions[i] by {
        assert(back[i] =~= p.sessions[i]);
    }
    assert(back =~= p.sessions);
    match p.state {
        StateView::Idle => {
            assert(spec_from_record(r) == Some(p)) by {
                assert(ProjectView { name: r.name, state: StateView::Idle, sessions: back } =~= p);
            }
        },
        StateView::Working { session } => {
            assert(session_of_record(record_of_session(session)) =~= session);
            assert(ProjectView {
                name: r.name,
                state: StateView::Working { session: session_of_record(record_of_session(session)) },
                sessions: back,
            } =~= p);
        },
        StateView::OnBreak { session, current } => {
            assert(session_of_record(record_of_session(session)) =~= session);
            assert(ProjectView {
                name: r.name,
                state: StateView::OnBreak {
                    session: session_of_record(record_of_session(session)),
                    current,
                },
                sessions: back,
            } =~= p);
        },
    }
}

/// True iff the break is closed, in range, and starts no earlier than
/// `lower`; hands back its end for the next link of the chain.
fn check_closed_break(b: &Break, lower: i64) -> (r: Option<i64>)
    ensures
        match r {
            Some(e) => b@.wf() && b@.is_closed() && b@.start >= lower && e as int
                == b@.end.unwrap(),
            None => !(b@.wf() && b@.is_closed() && b@.start >= lower),
        },
{
    match b.end {
        Some(e) => {
            if MIN_INSTANT <= b.start && b.start <= MAX_INSTANT && MIN_INSTANT <= e && e
                <= MAX_INSTANT && e >= b.start && b.start >= lower {
                Some(e)
            } else {
                None
            }
        },
        None => None,
    }
}

/// True iff the session is well formed; its breaks must chain inside it and
/// its end, when set, must close after all of them.
pub fn check_session_wf(s: &Session) -> (r: bool)
    ensures
        r == s@.wf(),
{
    let ghost sv = s@;
    if !(MIN_INSTANT <= s.start && s.start <= MAX_INSTANT) {
        return false;
    }
    let mut lower: i64 = s.start;
    let mut i: usize = 0;
    while i < s.breaks.len()
        invariant
            sv == s@,
            in_range(sv.start),
            0 <= i <= sv.breaks.len(),
            sv.breaks.len() == s.breaks@.len(),
            forall|j: int| 0 <= j < i ==> #[trigger] chain_entry(sv.start, sv.breaks, j),
            lower as int == crate::session::break_lower(sv.start, sv.breaks, i as int),
            in_range(lower as int),
        decreases sv.breaks.len() - i,
    {
        let b = &s.breaks[i];
        proof {
            assert(sv.breaks[i as int] == b@);
        }
        match check_closed_break(b, lower) {
            Some(e) => {
                proof {
                    assert(chain_entry(sv.start, sv.breaks, i as int));
                }
                lower = e;
            },
            None => {
                proof {
                    assert(!chain_entry(sv.start, sv.breaks, i as int));
                }
                return false;
            },
        }
        i = i + 1;
    }
    proof {
        assert(breaks_chained(sv.start, sv.breaks));
        assert(lower as int == breaks_high(sv.start, sv.breaks));
    }
    match s.end {
        Some(e) => MIN_INSTANT <= e && e <= MAX_INSTANT && e >= s.start && e >= lower,
        None => true,
    }
}

/// True iff the whole project satisfies its invariant.
pub fn check_project_wf(p: &Project) -> (r: bool)
    ensures
        r == p@.wf(),
{
    let ghost pv = p@;
    let ghost ss = pv.sessions;
    let mut prev_end: i64 = MIN_INSTANT;
    let mut i: usize = 0;
    while i < p.sessions.len()
        invariant
            pv == p@,
            ss == pv.sessions,
            ss.len() == p.sessions@.len(),
            0 <= i <= ss.len(),
            forall|j: int| 0 <= j < i ==> #[trigger] hist_entry(ss, j),
            prev_end as int == hist_lower(ss, i as int),
            in_range(prev_end as int) || prev_end == MIN_INSTANT,
        decreases ss.len() - i,
    {
        let s = &p.sessions[i];
        proof {
            assert(ss[i as int] == s@);
        }
        let wf_ok = check_session_wf(s);
        let closed_end = match s.end {
            Some(e) => Some(e),
            None => None,
        };
        match closed_end {
            Some(e) => {
                if !(wf_ok && s.start >= prev_end) {
                    proof {
                        assert(!hist_entry(ss, i as int));
                    }
                    return false;
                }
                proof {
                    assert(hist_entry(ss, i as int));
                }
                prev_end = e;
            },
            None => {
                proof {
                    assert(!hist_entry(ss, i as int));
                }
                return false;
            },
        }
        i = i + 1;
    }
    proof {
        assert(history_ok(ss));
        assert(prev_end as int == crate::project::hist_high(ss));
    }
    match &p.state {
        ProjectState::Idle => true,
        ProjectState::Working { session } => {
            let open_ok = check_session_wf(session);
            open_ok && session.end.is_none() && session.start >= prev_end
        },
        ProjectState::OnBreak { session, current } => {
            let open_ok = check_session_wf(session);
            if !(open_ok && session.end.is_none() && session.start >= prev_end) {
                return false;
            }
            if !current.end.is_none() {
                return false;
            }
            if !(MIN_INSTANT <= current.start && current.start <= MAX_INSTANT) {
                return false;
            }
            // the open break must begin after the session's last closed break
            let mut high: i64 = session.start;
            let mut k: usize = 0;
            while k < session.breaks.len()
                invariant
                    session@.wf(),
                    0 <= k <= session@.breaks.len(),
                    session@.breaks.len() == session.breaks@.len(),
                    high as int == crate::session::break_lower(
                        session@.start,
                        session@.breaks,
                        k as int,
                    ),
                decreases session@.breaks.len() - k,
            {
                proof {
                    assert(chain_entry(session@.start, session@.breaks, k as int));
                }
                high = match session.breaks[k].end {
                    Some(e) => e,
                    None => high,
                };
                k = k + 1;
            }
            proof {
                assert(high as int == breaks_high(session@.start, session@.breaks));
            }
            current.start >= high
        },
    }
}

/// Writes the project into its persisted record form.
pub fn project_to_record(p: &Project) -> (r: ProjectRecord)
    ensures
        r@ == spec_to_record(p@),
{
    let (current_session, current_break): (Option<SessionRecord>, Option<BreakRecord>) = match &p
        .state {
        ProjectState::Idle => (None, None),
        ProjectState::Working { session } => (Some(session_to_record(session)), None),
        ProjectState::OnBreak { session, current } => (
            Some(session_to_record(session)),
            Some(BreakRecord { start: current.start, end: current.end }),
        ),
    };
    let mut sessions: Vec<SessionRecord> = Vec::new();
    let mut i: usize = 0;
    while i < p.sessions.len()
        invariant
            0 <= i <= p.sessions@.len(),
            sessions@.len() == i,
            forall|j: int|
                0 <= j < i ==> #[trigger] sessions@[j]@ == record_of_session(p.sessions@[j]@),
        decreases p.sessions@.len() - i,
    {
        sessions.push(session_to_record(&p.sessions[i]));
        i = i + 1;
    }
    let r = ProjectRecord { name: p.name.clone(), current_session, current_break, sessions };
    proof {
        assert(r@.sessions =~= spec_to_record(p@).sessions);
        assert(r@ =~= spec_to_record(p@));
    }
    r
}

/// Writes one session into its record form.
fn session_to_record(s: &Session) -> (r: SessionRecord)
    ensures
        r@ == record_of_session(s@),
{
    let mut breaks: Vec<BreakRecord> = Vec::new();
    let mut i: usize = 0;
    while i < s.breaks.len()
        invariant
            0 <= i <= s.breaks@.len(),
            breaks@.len() == i,
            forall|j: int| 0 <= j < i ==> #[trigger] breaks@[j]@ == s.breaks@[j]@,
        decreases s.breaks@.len() - i,
    {
        let b = &s.breaks[i];
        breaks.push(BreakRecord { start: b.start, end: b.end });
        i = i + 1;
    }
    let r = SessionRecord { start: s.start, end: s.end, breaks: Some(breaks) };
    proof {
        assert(r@.breaks.unwrap() =~= record_of_session(s@).breaks.unwrap());
        assert(r@ =~= record_of_session(s@));
    }
    r
}

/// Reads one session out of its record form, defaulting a missing break
/// list to empty.
fn session_from_record(r: &SessionRecord) -> (s: Session)
    ensures
        s@ == session_of_record(r@),
{
    let breaks: Vec<Break> = match &r.breaks {
        Some(bs) => {
            let mut out: Vec<Break> = Vec::new();
            let mut i: usize = 0;
            while i < bs.len()
                invariant
                    0 <= i <= bs@.len(),
                    out@.len() == i,
                    forall|j: int| 0 <= j < i ==> #[trigger] out@[j]@ == bs@[j]@,
                decreases bs@.len() - i,
            {
                let b = &bs[i];
                out.push(Break { start: b.start, end: b.end });
                i = i + 1;
            }
            out
        },
        None => Vec::new(),
    };
    let s = Session { start: r.start, end: r.end, breaks };
    proof {
        assert(s@.breaks =~= session_of_record(r@).breaks);
        assert(s@ =~= session_of_record(r@));
    }
    s
}

/// Reads a record back into a project. A break without a session, or any
/// violation of the project invariant, is a parse failure.
pub fn record_to_project(r: &ProjectRecord) -> (res: Result<Project, PersistError>)
    ensures
        match spec_from_record(r@) {
            Some(pv) => res matches Ok(p) && p@ == pv && pv.wf(),
            None => res == Err::<Project, PersistError>(PersistError::Parse),
        },
{
    let state: ProjectState = match (&r.current_session, &r.current_break) {
        (None, None) => ProjectState::Idle,
        (None, Some(_)) => {
            return Err(PersistError::Parse);
        },
        (Some(sr), None) => ProjectState::Working { session: session_from_record(sr) },
        (Some(sr), Some(cb)) => ProjectState::OnBreak {
            session: session_from_record(sr),
            current: Break { start: cb.start, end: cb.end },
        },
    };
    let mut sessions: Vec<Session> = Vec::new();
    let mut i: usize = 0;
    while i < r.sessions.len()
        invariant
            0 <= i <= r.sessions@.len(),
            sessions@.len() == i,
            forall|j: int|
                0 <= j < i ==> #[trigger] sessions@[j]@ == session_of_record(r.sessions@[j]@),
        decreases r.sessions@.len() - i,
    {
        sessions.push(session_from_record(&r.sessions[i]));
        i = i + 1;
    }
    let p = Project { name: r.name.clone(), state, sessions };
    proof {
        let st = state_of_record(r@.current_session, r@.current_break).unwrap();
        assert(p@.sessions =~= r@.sessions.map_values(|s: SessionRecView| session_of_record(s)));
        assert(p@ =~= ProjectView {
            name: r@.name,
            state: st,
            sessions: r@.sessions.map_values(|s: SessionRecView| session_of_record(s)),
        });
    }
    if check_project_wf(&p) {
        Ok(p)
    } else {
        Err(PersistError::Parse)
    }
}

} // verus!
