use vstd::prelude::*;
use crate::direction::Direction;
use crate::ids::TaskId;

verus! {

/// The deduplication key of a task: uploads are keyed by the file's sign, downloads by
/// their URL. At most one task group holds a given key.
#[derive(Debug, Clone)]
pub struct TaskKey {
    pub direction: Direction,
    pub id: String,
}

/// What a key stands for: its direction and the text of its identifying string.
pub type KeyView = (Direction, Seq<char>);

impl View for TaskKey {
    type V = KeyView;

    open spec fn view(&self) -> KeyView {
        (self.direction, self.id@)
    }
}

impl TaskKey {
    pub fn new(direction: Direction, id: String) -> (k: TaskKey)
        ensures
            k@ == (direction, id@),
    {
        TaskKey { direction, id }
    }

    /// A second key equal to this one.
    pub fn copy(&self) -> (k: TaskKey)
        ensures
            k@ == self@,
    {
        TaskKey { direction: self.direction, id: self.id.clone() }
    }

    /// The two keys name the same group.
    pub fn same(&self, other: &TaskKey) -> (r: bool)
        ensures
            r == (self@ == other@),
    {
        self.direction == other.direction && self.id == other.id
    }

    /// The key as a plain pair.
    pub fn to_pair(&self) -> (p: (Direction, String))
        ensures
            p.0 == self.direction,
            p.1@ == self.id@,
    {
        (self.direction, self.id.clone())
    }
}

/// The scheduler's record of a submitted task: who it is, what it moves and how.
#[derive(Debug, Clone)]
pub struct InnerTask {
    pub task_id: TaskId,
    /// The MD5 sign of an upload's file, or the caller's label for a download.
    pub file_sign: String,
    pub file_name: String,
    pub direction: Direction,
    pub total_size: u64,
    pub chunk_size: u64,
    pub url: String,
    /// How many times a failed chunk is tried again before the task fails.
    pub max_chunk_retries: u32,
}

/// The deduplication key of a task: `(Upload, file_sign)` or `(Download, url)`.
pub open spec fn key_of(t: InnerTask) -> KeyView {
    match t.direction {
        Direction::Upload => (Direction::Upload, t.file_sign@),
        Direction::Download => (Direction::Download, t.url@),
    }
}

impl InnerTask {
    pub fn dedupe_key(&self) -> (k: TaskKey)
        ensures
            k@ == key_of(*self),
    {
        match self.direction {
            Direction::Upload => TaskKey { direction: Direction::Upload, id: self.file_sign.clone() },
            Direction::Download => TaskKey { direction: Direction::Download, id: self.url.clone() },
        }
    }

    /// Whether the task belongs under `key`.
    pub fn has_key(&self, key: &TaskKey) -> (r: bool)
        ensures
            r == (key_of(*self) == key@),
    {
        match self.direction {
            Direction::Upload => key.direction == Direction::Upload && self.file_sign == key.id,
            Direction::Download => key.direction == Direction::Download && self.url == key.id,
        }
    }
}

} // verus!
