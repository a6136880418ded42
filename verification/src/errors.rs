use vstd::prelude::*;

verus! {

/// Why a project name was rejected by the validator.
#[derive(Clone, Copy, Debug, PartialEq, Eq, Structural)]
pub enum NameError {
    Empty,
    TooLong,
    BadFormat,
}

/// Why a duration string was rejected by the parser.
#[derive(Clone, Copy, Debug, PartialEq, Eq, Structural)]
pub enum DurationError {
    Empty,
    BadFormat,
    Zero,
    TooLarge,
}

/// A state-machine operation was attempted from a state that forbids it.
#[derive(Clone, Copy, Debug, PartialEq, Eq, Structural)]
pub enum StateError {
    /// Clock-out (or a query of the open session) with no session open.
    NoActiveSession,
    /// Clock-in while a session is already open and no break is open.
    AlreadyClockedIn,
    /// Break requested while no session is open.
    NotClockedIn,
    /// Break requested while a break is already open.
    AlreadyOnBreak,
    /// Break end requested while no break is open.
    NotOnBreak,
}

/// A failure of the persistence collaborator.
#[derive(Clone, Copy, Debug, PartialEq, Eq, Structural)]
pub enum PersistError {
    /// No record exists in the store.
    NotFound,
    /// A record exists but could not be decoded into a well-formed project.
    Parse,
    /// The store could not be read or written.
    Io,
    /// The record could not be encoded.
    Serialize,
}

/// Everything a service command can fail with.
#[derive(Clone, Copy, Debug, PartialEq, Eq, Structural)]
pub enum TrackerError {
    /// No project record found; run init first.
    NotInitialized,
    /// Init called where a record already exists.
    AlreadyInitialized,
    /// The operation is forbidden in the current session/break state.
    InvalidState(StateError),
    /// The underlying read/write/decode of the record failed.
    Persistence(PersistError),
    /// A project name failed its pattern rules.
    Validation(NameError),
}

pub open spec fn name_error_text(e: NameError) -> Seq<char> {
    match e {
        NameError::Empty => "Project name cannot be empty"@,
        NameError::TooLong => "Project name must be 50 characters or less"@,
        NameError::BadFormat => "Project name must start with a letter or number and can only contain letters, numbers, hyphens, and underscores"@,
    }
}

pub open spec fn duration_error_text(e: DurationError) -> Seq<char> {
    match e {
        DurationError::Empty => "Duration cannot be empty"@,
        DurationError::BadFormat => "Invalid duration format. Use format like '2h 30m', '1.5h', '1h', or '45m'"@,
        DurationError::Zero => "Duration must be positive"@,
        DurationError::TooLarge => "Duration is too large"@,
    }
}

pub open spec fn state_error_text(e: StateError) -> Seq<char> {
    match e {
        StateError::NoActiveSession => "No active session"@,
        StateError::AlreadyClockedIn => "Already clocked in. Use 'clock-me out' first."@,
        StateError::NotClockedIn => "Not clocked in"@,
        StateError::AlreadyOnBreak => "Already on break"@,
        StateError::NotOnBreak => "Not on break"@,
    }
}

pub open spec fn persist_error_text(e: PersistError) -> Seq<char> {
    match e {
        PersistError::NotFound => "No project found. Run 'clock-me init' first."@,
        PersistError::Parse => "Failed to parse project data"@,
        PersistError::Io => "Failed to write project data"@,
        PersistError::Serialize => "Failed to serialize project data"@,
    }
}

pub open spec fn tracker_error_text(e: TrackerError) -> Seq<char> {
    match e {
        TrackerError::NotInitialized => "No project found. Run 'clock-me init' first."@,
        TrackerError::AlreadyInitialized => "Project already initialized in this directory. Use a different directory or delete .clockme folder."@,
        TrackerError::InvalidState(s) => state_error_text(s),
        TrackerError::Persistence(p) => persist_error_text(p),
        TrackerError::Validation(n) => name_error_text(n),
    }
}

impl NameError {
    /// The user-facing description of this error.
    pub fn message(&self) -> (r: String)
        ensures
            r@ == name_error_text(*self),
    {
        match self {
            NameError::Empty => "Project name cannot be empty".to_owned(),
            NameError::TooLong => "Project name must be 50 characters or less".to_owned(),
            NameError::BadFormat => "Project name must start with a letter or number and can only contain letters, numbers, hyphens, and underscores".to_owned(),
        }
    }
}

impl DurationError {
    /// The user-facing description of this error.
    pub fn message(&self) -> (r: String)
        ensures
            r@ == duration_error_text(*self),
    {
        match self {
            DurationError::Empty => "Duration cannot be empty".to_owned(),
            DurationError::BadFormat => "Invalid duration format. Use format like '2h 30m', '1.5h', '1h', or '45m'".to_owned(),
            DurationError::Zero => "Duration must be positive".to_owned(),
            DurationError::TooLarge => "Duration is too large".to_owned(),
        }
    }
}

impl StateError {
    /// The user-facing description of this error.
    pub fn message(&self) -> (r: String)
        ensures
            r@ == state_error_text(*self),
    {
        match self {
            StateError::NoActiveSession => "No active session".to_owned(),
            StateError::AlreadyClockedIn => "Already clocked in. Use 'clock-me out' first.".to_owned(),
            StateError::NotClockedIn => "Not clocked in".to_owned(),
            StateError::AlreadyOnBreak => "Already on break".to_owned(),
            StateError::NotOnBreak => "Not on break".to_owned(),
        }
    }
}

impl PersistError {
    /// The user-facing description of this error.
    pub fn message(&self) -> (r: String)
        ensures
            r@ == persist_error_text(*self),
    {
        match self {
            PersistError::NotFound => "No project found. Run 'clock-me init' first.".to_owned(),
            PersistError::Parse => "Failed to parse project data".to_owned(),
            PersistError::Io => "Failed to write project data".to_owned(),
            PersistError::Serialize => "Failed to serialize project data".to_owned(),
        }
    }
}

impl TrackerError {
    /// The user-facing description of this error.
    pub fn message(&self) -> (r: String)
        ensures
            r@ == tracker_error_text(*self),
    {
        match self {
            TrackerError::NotInitialized => "No project found. Run 'clock-me init' first.".to_owned(),
            TrackerError::AlreadyInitialized => "Project already initialized in this directory. Use a different directory or delete .clockme folder.".to_owned(),
            TrackerError::InvalidState(s) => s.message(),
            TrackerError::Persistence(p) => p.message(),
            TrackerError::Validation(n) => n.message(),
        }
    }
}

} // verus!
