use clockme::breaks::Break;
use clockme::project::{Project, ProjectState};
use clockme::session::Session;

// 2025-10-13, as seconds since the Unix epoch (UTC).
const T_0900: i64 = 1760346000;
const T_1200: i64 = 1760356800;
const T_1215: i64 = 1760357700;
const T_1700: i64 = 1760374800;

#[test]
fn test_new_break() {
    let break_period = Break::new(T_1200);

    assert_eq!(break_period.start, T_1200);
    assert!(break_period.end.is_none());
    assert!(break_period.is_active());
    assert!(break_period.duration().is_none());
}

#[test]
fn test_finish_break() {
    let mut break_period = Break::new(T_1200);
    break_period.finish(T_1215);

    assert!(!break_period.is_active());
    assert_eq!(break_period.duration().unwrap(), 15 * 60);
}

#[test]
fn test_new_session() {
    let session = Session::new(T_0900);

    assert_eq!(session.start, T_0900);
    assert!(session.end.is_none());
    assert!(session.is_active());
    assert!(session.duration().is_none());
}

#[test]
fn test_finish_session() {
    let mut session = Session::new(T_0900);
    session.finish(T_1700);

    assert!(!session.is_active());
    assert_eq!(session.duration().unwrap(), 8 * 3600);
}

#[test]
fn test_session_work_time_excludes_breaks() {
    let mut session = Session::new(T_0900);
    let mut b = Break::new(T_1200);
    b.finish(T_1215);
    session.add_break(b);
    assert!(session.work_time().is_none());
    session.finish(T_1700);

    assert_eq!(session.total_break_time(), 15 * 60);
    assert_eq!(session.duration().unwrap(), 8 * 3600);
    assert_eq!(session.work_time().unwrap(), 8 * 3600 - 15 * 60);
    assert_eq!(
        session.work_time().unwrap(),
        session.duration().unwrap() - session.total_break_time()
    );
    assert!(session.work_time().unwrap() >= 0);
}

#[test]
fn test_new_project() {
    let project = Project::new("test".to_string());
    assert_eq!(project.name, "test");
    assert!(matches!(project.state, ProjectState::Idle));
    assert_eq!(project.sessions.len(), 0);
}

#[test]
fn test_start_and_end_session() {
    let mut project = Project::new("test".to_string());

    project.start_session(T_0900);
    assert!(matches!(project.state, ProjectState::Working { .. }));

    let work = project.end_session(T_1700).unwrap();
    assert!(matches!(project.state, ProjectState::Idle));
    assert_eq!(project.sessions.len(), 1);
    assert_eq!(work, 8 * 3600);
}

#[test]
fn test_end_session_while_on_break_folds_it() {
    let mut project = Project::new("test".to_string());
    project.start_session(T_0900);
    let accrued = project.start_break(T_1200).unwrap();
    assert_eq!(accrued, 3 * 3600);

    // clocking out while on a break keeps the break record
    let work = project.end_session(T_1700).unwrap();
    assert_eq!(project.sessions.len(), 1);
    let closed = &project.sessions[0];
    assert_eq!(closed.breaks.len(), 1);
    assert_eq!(closed.breaks[0].start, T_1200);
    assert_eq!(closed.breaks[0].end, Some(T_1700));
    // work time excludes the folded break entirely
    assert_eq!(work, (T_1700 - T_0900) - (T_1700 - T_1200));
}

#[test]
fn test_start_break_fails_when_idle_and_when_on_break() {
    let mut project = Project::new("test".to_string());
    assert_eq!(
        project.start_break(T_0900),
        Err(clockme::errors::StateError::NotClockedIn)
    );

    project.start_session(T_0900);
    assert!(project.start_break(T_1200).is_ok());
    assert!(project.is_on_break());
    // a second request without an intervening resume is refused
    assert_eq!(
        project.start_break(T_1215),
        Err(clockme::errors::StateError::AlreadyOnBreak)
    );
}

#[test]
fn test_end_break_returns_duration() {
    let mut project = Project::new("test".to_string());
    assert_eq!(
        project.end_break(T_1200),
        Err(clockme::errors::StateError::NotOnBreak)
    );
    project.start_session(T_0900);
    project.start_break(T_1200).unwrap();
    let dur = project.end_break(T_1215).unwrap();
    assert_eq!(dur, 15 * 60);
    assert!(matches!(project.state, ProjectState::Working { .. }));
}

#[test]
fn test_total_time_tracked() {
    let mut project = Project::new("test".to_string());
    project.start_session(T_0900);
    project.end_session(T_1200).unwrap();
    project.start_session(T_1215);
    project.end_session(T_1700).unwrap();

    assert_eq!(
        project.total_time_tracked(),
        (T_1200 - T_0900) + (T_1700 - T_1215)
    );
    assert_eq!(project.total_work_time(), project.total_time_tracked());
    assert_eq!(project.total_break_time(), 0);
}
