use clockme::errors::{PersistError, StateError, TrackerError};
use clockme::project::{Project, ProjectState};
use clockme::records::{project_to_record, record_to_project, BreakRecord, SessionRecord};
use clockme::repository::{MemoryRepository, Repository};
use clockme::session_service::{compute_status, SessionService};
use clockme::time::{midnight_with_offset, Clock, FixedClock, SystemClock};

// 2025-10-13, as seconds since the Unix epoch (UTC).
const MIDNIGHT: i64 = 1760313600;
const T_0900: i64 = 1760346000;
const T_1200: i64 = 1760356800;
const T_1230: i64 = 1760358600;
const T_1700: i64 = 1760374800;
// the day before
const Y_0900: i64 = 1760259600;
const Y_1700: i64 = 1760288400;

fn service_at(t: i64) -> SessionService<MemoryRepository, FixedClock> {
    SessionService::new(MemoryRepository::empty(), FixedClock { instant: t })
}

#[test]
fn test_system_clock() {
    let clock = SystemClock;
    let now = clock.now();

    // Just verify it returns a valid datetime
    assert!(now > 0);
}

#[test]
fn test_local_midnight_at_fixed_offset() {
    assert_eq!(midnight_with_offset(T_1200, 0), MIDNIGHT);
    // one hour east of UTC, noon still belongs to the same local day
    assert_eq!(midnight_with_offset(T_1200, 3600), MIDNIGHT - 3600);
    // far enough west, local time is still the previous day
    assert_eq!(midnight_with_offset(MIDNIGHT + 3600, -7200), MIDNIGHT - 86400 + 7200);
}

#[test]
fn test_init_project() {
    let mut service = service_at(T_0900);
    assert!(service.init_project("test-project".to_string()).is_ok());
}

#[test]
fn test_init_project_twice_fails() {
    let mut service = service_at(T_0900);
    service.init_project("demo".to_string()).unwrap();
    assert_eq!(
        service.init_project("demo".to_string()),
        Err(TrackerError::AlreadyInitialized)
    );
}

#[test]
fn test_init_on_corrupt_store_fails() {
    let mut service = SessionService::new(
        MemoryRepository::corrupt(),
        FixedClock { instant: T_0900 },
    );
    assert_eq!(
        service.init_project("demo".to_string()),
        Err(TrackerError::Persistence(PersistError::Parse))
    );
    assert!(service.get_status().is_err());
}

#[test]
fn test_start_session_without_init() {
    let mut service = service_at(T_0900);
    assert!(service.start_session().is_err());
}

#[test]
fn test_full_day_without_breaks() {
    // init, clock in at 09:00, clock out at 17:00
    let mut service = service_at(T_0900);
    service.init_project("demo".to_string()).unwrap();
    let p = service.start_session().unwrap();
    assert!(matches!(p.state, ProjectState::Working { .. }));

    service.clock.instant = T_1700;
    let (p2, work) = service.end_session().unwrap();
    assert_eq!(work, 8 * 3600);
    assert_eq!(p2.sessions.len(), 1);
    assert!(matches!(p2.state, ProjectState::Idle));
    assert!(p2.sessions[0].breaks.is_empty());
}

#[test]
fn test_day_with_a_break_resumed_by_clock_in() {
    let mut service = service_at(T_0900);
    service.init_project("demo".to_string()).unwrap();
    service.start_session().unwrap();

    service.clock.instant = T_1200;
    let accrued = service.start_break().unwrap();
    assert_eq!(accrued, 3 * 3600);

    // the clock-in verb doubles as "resume from break"
    service.clock.instant = T_1230;
    let resumed = service.start_session().unwrap();
    assert!(matches!(resumed.state, ProjectState::Working { .. }));
    assert_eq!(resumed.sessions.len(), 0);

    service.clock.instant = T_1700;
    let (p, work) = service.end_session().unwrap();
    assert_eq!(work, 7 * 3600 + 1800);
    assert_eq!(p.sessions.len(), 1);
    assert_eq!(p.sessions[0].breaks.len(), 1);
    assert_eq!(p.sessions[0].breaks[0].start, T_1200);
    assert_eq!(p.sessions[0].breaks[0].end, Some(T_1230));
}

#[test]
fn test_clock_in_twice_fails() {
    let mut service = service_at(T_0900);
    service.init_project("demo".to_string()).unwrap();
    service.start_session().unwrap();

    service.clock.instant = T_1200;
    assert_eq!(
        service.start_session().err(),
        Some(TrackerError::InvalidState(StateError::AlreadyClockedIn))
    );
}

#[test]
fn test_clock_out_without_init_leaves_store_unchanged() {
    let mut service = service_at(T_1700);
    assert_eq!(service.end_session().err(), Some(TrackerError::NotInitialized));
    assert!(service.repository.stored().is_none());
}

#[test]
fn test_clock_out_while_idle_fails() {
    let mut service = service_at(T_0900);
    service.init_project("demo".to_string()).unwrap();
    assert_eq!(
        service.end_session().err(),
        Some(TrackerError::InvalidState(StateError::NoActiveSession))
    );
}

#[test]
fn test_break_errors_at_service_level() {
    let mut service = service_at(T_0900);
    service.init_project("demo".to_string()).unwrap();
    assert_eq!(
        service.start_break().err(),
        Some(TrackerError::InvalidState(StateError::NotClockedIn))
    );
    service.start_session().unwrap();
    service.clock.instant = T_1200;
    service.start_break().unwrap();
    assert_eq!(
        service.start_break().err(),
        Some(TrackerError::InvalidState(StateError::AlreadyOnBreak))
    );
}

#[test]
fn test_status_today_excludes_yesterday() {
    // one session closed yesterday, one closed today, live session open now
    let mut project = Project::new("demo".to_string());
    project.start_session(Y_0900);
    project.end_session(Y_1700).unwrap();
    project.start_session(T_0900);
    project.end_session(T_1200).unwrap();
    project.start_session(T_1230);

    let status = compute_status(&project, T_1700, MIDNIGHT);
    // yesterday's session is excluded from today's numbers even though it
    // is in the history
    assert_eq!(status.today_work_seconds, (T_1200 - T_0900) + (T_1700 - T_1230));
    assert_eq!(status.today_break_seconds, 0);
    assert_eq!(status.today_session_count, 1);
    // all-time includes everything, live contribution included
    assert_eq!(
        status.total_work_seconds,
        (Y_1700 - Y_0900) + (T_1200 - T_0900) + (T_1700 - T_1230)
    );
    assert_eq!(status.total_sessions, 2);
    assert!(status.current_session.is_some());
    assert!(status.current_break.is_none());
    assert_eq!(status.current_time, T_1700);
}

#[test]
fn test_status_with_closed_session_only_yesterday() {
    // the most recent closed session started before local midnight: today
    // shows nothing even though that session leads the history
    let mut project = Project::new("demo".to_string());
    project.start_session(Y_0900);
    project.end_session(Y_1700).unwrap();

    let status = compute_status(&project, T_0900, MIDNIGHT);
    assert_eq!(status.today_work_seconds, 0);
    assert_eq!(status.today_break_seconds, 0);
    assert_eq!(status.today_session_count, 0);
    assert_eq!(status.total_work_seconds, Y_1700 - Y_0900);
    assert_eq!(status.last_session.unwrap().start, Y_0900);
}

#[test]
fn test_status_pauses_work_during_open_break() {
    let mut project = Project::new("demo".to_string());
    project.start_session(T_0900);
    project.start_break(T_1200).unwrap();

    let status = compute_status(&project, T_1230, MIDNIGHT);
    // work accrued only until the break began
    assert_eq!(status.today_work_seconds, T_1200 - T_0900);
    // the open break accrues break time instead
    assert_eq!(status.today_break_seconds, T_1230 - T_1200);
    assert!(status.current_break.is_some());
}

#[test]
fn test_get_status_through_service() {
    let mut service = service_at(T_0900);
    service.init_project("demo".to_string()).unwrap();
    service.start_session().unwrap();
    service.clock.instant = T_1200;
    let status = service.get_status().unwrap();
    assert_eq!(status.project_name, "demo");
    assert_eq!(status.total_sessions, 0);
    assert_eq!(status.total_work_seconds, 3 * 3600);
    assert!(status.today_start <= status.current_time);
}

#[test]
fn test_record_round_trip() {
    let mut project = Project::new("demo".to_string());
    project.start_session(Y_0900);
    project.end_session(Y_1700).unwrap();
    project.start_session(T_0900);
    project.start_break(T_1200).unwrap();
    project.end_break(T_1230).unwrap();
    project.start_break(T_1700).unwrap();

    let record = project_to_record(&project);
    let back = record_to_project(&record).unwrap();
    assert_eq!(back, project);
}

#[test]
fn test_record_missing_breaks_defaults_to_empty() {
    let record = clockme::records::ProjectRecord {
        name: "old".to_string(),
        current_session: None,
        current_break: None,
        sessions: vec![SessionRecord { start: Y_0900, end: Some(Y_1700), breaks: None }],
    };
    let project = record_to_project(&record).unwrap();
    assert_eq!(project.sessions.len(), 1);
    assert!(project.sessions[0].breaks.is_empty());
}

#[test]
fn test_record_break_without_session_is_parse_error() {
    let record = clockme::records::ProjectRecord {
        name: "bad".to_string(),
        current_session: None,
        current_break: Some(BreakRecord { start: T_1200, end: None }),
        sessions: vec![],
    };
    assert_eq!(record_to_project(&record), Err(PersistError::Parse));
}

#[test]
fn test_record_unordered_history_is_parse_error() {
    let record = clockme::records::ProjectRecord {
        name: "bad".to_string(),
        current_session: None,
        current_break: None,
        sessions: vec![
            SessionRecord { start: T_0900, end: Some(T_1700), breaks: None },
            SessionRecord { start: Y_0900, end: Some(Y_1700), breaks: None },
        ],
    };
    assert_eq!(record_to_project(&record), Err(PersistError::Parse));
}

#[test]
fn test_memory_repository_round_trip() {
    let mut repo = MemoryRepository::empty();
    assert_eq!(repo.load().err(), Some(PersistError::NotFound));
    let project = Project::new("demo".to_string());
    repo.save(&project).unwrap();
    let loaded = repo.load().unwrap();
    assert_eq!(loaded, project);
    assert_eq!(repo.stored().unwrap(), &project);
}

#[test]
fn test_file_repository_paths() {
    let repo = clockme::repository::FileRepository::new();
    assert_eq!(repo.data_dir, ".clockme");
    assert_eq!(repo.data_file, ".clockme/data.json");
}

#[test]
fn test_backward_clock_does_not_corrupt() {
    // a clock that jumps backwards between commands must not produce a
    // negative duration anywhere
    let mut service = service_at(T_1200);
    service.init_project("demo".to_string()).unwrap();
    service.start_session().unwrap();
    service.clock.instant = T_0900;
    let (p, work) = service.end_session().unwrap();
    assert!(work >= 0);
    assert!(p.sessions[0].end.unwrap() >= p.sessions[0].start);
}

#[test]
fn test_error_message_texts() {
    assert_eq!(
        TrackerError::NotInitialized.message(),
        "No project found. Run 'clock-me init' first."
    );
    assert!(TrackerError::AlreadyInitialized.message().contains("already initialized"));
    assert_eq!(
        TrackerError::InvalidState(StateError::NoActiveSession).message(),
        "No active session"
    );
}
