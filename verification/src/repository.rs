use crate::errors::PersistError;
use crate::project::{Project, ProjectView};
use crate::records::check_project_wf;
use vstd::prelude::*;

verus! {

/// What a project store abstractly holds: nothing yet, a record that does
/// not decode to a well-formed project, or a well-formed project.
pub enum StoreModel {
    Absent,
    Corrupt,
    Present(ProjectView),
}

/// Persistence abstraction over the single project record. A store only
/// ever reports a well-formed project as present; any other record it
/// reports as corrupt.
pub trait Repository: Sized {
    /// The store's contents, as the contracts see them.
    spec fn state(&self) -> StoreModel;

    /// Loads the stored project: absent stores report not-found, corrupt
    /// ones a parse failure.
    fn load(&self) -> (r: Result<Project, PersistError>)
        ensures
            match self.state() {
                StoreModel::Absent => r == Err::<Project, PersistError>(PersistError::NotFound),
                StoreModel::Corrupt => r == Err::<Project, PersistError>(PersistError::Parse),
                StoreModel::Present(pv) => r matches Ok(p) && p@ == pv && pv.wf(),
            },
    ;

    /// Replaces the record with `p`, all or nothing: on failure the store
    /// is unchanged.
    fn save(&mut self, p: &Project) -> (r: Result<(), PersistError>)
        requires
            p@.wf(),
        ensures
            match r {
                Ok(_) => final(self).state() == StoreModel::Present(p@),
                Err(e) => final(self).state() == old(self).state() && (e == PersistError::Io || e
                    == PersistError::Serialize),
            },
    ;
}

enum MemorySlot {
    Absent,
    Corrupt,
    Present(Project),
}

/// An in-memory store: the deterministic stand-in for the file store under
/// test, and the carrier the application seeds from the file it read.
pub struct MemoryRepository {
    slot: MemorySlot,
}

impl MemoryRepository {
    /// A store holding nothing.
    pub fn empty() -> (r: MemoryRepository)
        ensures
            r.state() == StoreModel::Absent,
    {
        MemoryRepository { slot: MemorySlot::Absent }
    }

    /// A store holding a record that does not decode.
    pub fn corrupt() -> (r: MemoryRepository)
        ensures
            r.state() == StoreModel::Corrupt,
    {
        MemoryRepository { slot: MemorySlot::Corrupt }
    }

    /// A store holding the given project.
    pub fn with_project(p: Project) -> (r: MemoryRepository)
        requires
            p@.wf(),
        ensures
            r.state() == StoreModel::Present(p@),
    {
        MemoryRepository { slot: MemorySlot::Present(p) }
    }

    /// A borrow of the stored project, if one is present.
    pub fn stored(&self) -> (r: Option<&Project>)
        ensures
            match self.state() {
                StoreModel::Present(pv) => r matches Some(p) && p@ == pv,
                _ => r is None,
            },
    {
        match &self.slot {
            MemorySlot::Present(p) => {
                if check_project_wf(p) {
                    Some(p)
                } else {
                    None
                }
            },
            _ => None,
        }
    }
}

impl Repository for MemoryRepository {
    closed spec fn state(&self) -> StoreModel {
        match self.slot {
            MemorySlot::Absent => StoreModel::Absent,
            MemorySlot::Corrupt => StoreModel::Corrupt,
            MemorySlot::Present(p) => if p@.wf() {
                StoreModel::Present(p@)
            } else {
                StoreModel::Corrupt
            },
        }
    }

    fn load(&self) -> (r: Result<Project, PersistError>) {
        match &self.slot {
            MemorySlot::Absent => Err(PersistError::NotFound),
            MemorySlot::Corrupt => Err(PersistError::Parse),
            MemorySlot::Present(p) => {
                if check_project_wf(p) {
                    Ok(p.duplicate())
                } else {
                    Err(PersistError::Parse)
                }
            },
        }
    }

    fn save(&mut self, p: &Project) -> (r: Result<(), PersistError>) {
        self.slot = MemorySlot::Present(p.duplicate());
        Ok(())
    }
}

/// Where the file store keeps the record: a `.clockme` directory beside the
/// working directory, holding one `data.json`. The file reads and writes
/// themselves live with the caller that owns the file system.
pub struct FileRepository {
    pub data_dir: String,
    pub data_file: String,
}

impl FileRepository {
    /// The conventional store location.
    pub fn new() -> (r: FileRepository)
        ensures
            r.data_dir@ == ".clockme"@,
            r.data_file@ == ".clockme/data.json"@,
    {
        FileRepository {
            data_dir: ".clockme".to_owned(),
            data_file: ".clockme/data.json".to_owned(),
        }
    }
}

} // verus!
