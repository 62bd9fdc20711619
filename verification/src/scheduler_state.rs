//! The scheduler's state: which task groups exist, which wait, which run, which are
//! paused, and how far each has come. Every operation keeps the state well-formed.
use vstd::prelude::*;
use crate::assoc::{assoc_keys, assoc_map, keys_distinct, lemma_assoc_dom, lemma_assoc_index, lemma_assoc_push, lemma_assoc_remove, lemma_assoc_update, lemma_filter_out, lemma_remove_is_filter, other_than};
use crate::direction::Direction;
use crate::ids::TaskId;
use crate::inner_task::{key_of, InnerTask, KeyView, TaskKey};
use crate::error::{code_value, ErrorView, InnerErrorCode, MeowError};
use crate::status_record::{make_record, record_of, RecordView, StatusRecord};
use crate::transfer_status::{StatusView, TransferStatus};
use crate::transfer_snapshot::TransferSnapshot;
use crate::text::{push_uuid, uuid_text};

verus! {

/// What the application must do after the scheduler has decided.
#[derive(Debug)]
pub enum SchedulerAction {
    /// Hand `record` to the progress callback of task `listener` and to every global
    /// progress listener.
    Notify { listener: TaskId, record: StatusRecord },
    /// Start transferring the group `key`, led by task `leader`, from byte `start_offset`.
    StartRun { key: TaskKey, leader: TaskId, start_offset: u64 },
    /// Signal the running transfer of `key` to stop.
    CancelRun { key: TaskKey },
    /// Stop tracking the running transfer of `key`.
    ForgetRun { key: TaskKey },
    /// Task `task_id` has left the scheduler; what the application keeps for it can go.
    Release { task_id: TaskId },
}

/// What an action says.
pub enum ActionView {
    Notify { listener: TaskId, record: RecordView },
    StartRun { key: KeyView, leader: TaskId, start_offset: u64 },
    CancelRun { key: KeyView },
    ForgetRun { key: KeyView },
    Release { task_id: TaskId },
}

impl View for SchedulerAction {
    type V = ActionView;

    open spec fn view(&self) -> ActionView {
        match self {
            SchedulerAction::Notify { listener, record } => ActionView::Notify { listener: *listener, record: record@ },
            SchedulerAction::StartRun { key, leader, start_offset } =>
                ActionView::StartRun { key: key@, leader: *leader, start_offset: *start_offset },
            SchedulerAction::CancelRun { key } => ActionView::CancelRun { key: key@ },
            SchedulerAction::ForgetRun { key } => ActionView::ForgetRun { key: key@ },
            SchedulerAction::Release { task_id } => ActionView::Release { task_id: *task_id },
        }
    }
}

/// The views of a list of actions.
pub open spec fn actions_view(v: Seq<SchedulerAction>) -> Seq<ActionView> {
    v.map_values(|a: SchedulerAction| a@)
}

/// The views of a list of keys.
pub open spec fn keys_view(v: Seq<TaskKey>) -> Seq<KeyView> {
    v.map_values(|k: TaskKey| k@)
}

/// The abstract scheduler.
pub struct SchedulerModel {
    /// How many upload groups may run at once.
    pub max_upload: nat,
    /// How many download groups may run at once.
    pub max_download: nat,
    /// Key -> the task that leads the group of that key.
    pub groups: Map<KeyView, InnerTask>,
    /// The keys of `groups`, oldest first.
    pub group_order: Seq<KeyView>,
    /// Task id -> the key of its group, for control calls.
    pub task_index: Map<TaskId, KeyView>,
    /// Keys waiting to start, first in line first.
    pub queued: Seq<KeyView>,
    /// Keys that were paused and may be resumed.
    pub paused: Seq<KeyView>,
    /// Keys whose transfer is running, in the order they started.
    pub active: Seq<KeyView>,
    /// Key -> the byte offset its transfer has reached.
    pub offsets: Map<KeyView, u64>,
}

/// Whether a key is of direction `d`.
pub open spec fn of_direction(d: Direction) -> spec_fn(KeyView) -> bool {
    |k: KeyView| k.0 == d
}

/// How many keys of direction `d` are in `s`.
pub open spec fn count_dir(s: Seq<KeyView>, d: Direction) -> nat {
    s.filter(of_direction(d)).len()
}

/// How many groups of direction `d` may run at once.
pub open spec fn capacity(m: SchedulerModel, d: Direction) -> nat {
    match d {
        Direction::Upload => m.max_upload,
        Direction::Download => m.max_download,
    }
}

/// The offset a key has reached, zero if none is recorded.
pub open spec fn offset_of(m: SchedulerModel, k: KeyView) -> u64 {
    if m.offsets.dom().contains(k) { m.offsets[k] } else { 0 }
}

/// The well-formedness of the abstract scheduler:
/// - no key is twice in the queue, in the paused list or in the running list;
/// - no key is both waiting and running;
/// - every running key has its group;
/// - no direction runs more groups than its limit;
/// - the group order lists exactly the groups, once each.
pub open spec fn model_wf(m: SchedulerModel) -> bool {
    &&& m.queued.no_duplicates()
    &&& m.paused.no_duplicates()
    &&& m.active.no_duplicates()
    &&& forall|k: KeyView| m.queued.contains(k) ==> !m.active.contains(k)
    &&& forall|k: KeyView| m.active.contains(k) ==> m.groups.dom().contains(k)
    &&& count_dir(m.active, Direction::Upload) <= m.max_upload
    &&& count_dir(m.active, Direction::Download) <= m.max_download
    &&& m.group_order.no_duplicates()
    &&& forall|k: KeyView| m.group_order.contains(k) <==> m.groups.dom().contains(k)
    &&& index_sound(m)
    &&& paused_wf(m)
}

/// Every indexed task id names a live group, and that group is led by the task.
pub open spec fn index_sound(m: SchedulerModel) -> bool {
    forall|id: TaskId| #[trigger] m.task_index.dom().contains(id) ==>
        m.groups.dom().contains(m.task_index[id]) && m.groups[m.task_index[id]].task_id == id
}

/// A paused key keeps its group and does not wait in the queue: only resuming puts it
/// back in line.
pub open spec fn paused_wf(m: SchedulerModel) -> bool {
    forall|k: KeyView| #[trigger] m.paused.contains(k) ==> m.groups.dom().contains(k) && !m.queued.contains(k)
}

/// The task index and the groups agree: each indexed id names a group led by that task,
/// and each group's leader is indexed under its key.
pub open spec fn index_consistent(m: SchedulerModel) -> bool {
    &&& forall|id: TaskId| #[trigger] m.task_index.dom().contains(id) ==>
        m.groups.dom().contains(m.task_index[id]) && m.groups[m.task_index[id]].task_id == id
    &&& forall|k: KeyView| #[trigger] m.groups.dom().contains(k) ==>
        m.task_index.dom().contains(m.groups[k].task_id) && m.task_index[m.groups[k].task_id] == k
}

/// A task id that no group uses yet.
pub open spec fn fresh_id(m: SchedulerModel, id: TaskId) -> bool {
    !m.task_index.dom().contains(id)
}

/// The scheduler's state.
pub struct SchedulerState {
    max_upload_concurrency: usize,
    max_download_concurrency: usize,
    groups: Vec<InnerTask>,
    task_index: Vec<(TaskId, TaskKey)>,
    queued: Vec<TaskKey>,
    paused: Vec<TaskKey>,
    active: Vec<TaskKey>,
    offsets: Vec<(TaskKey, u64)>,
}

/// The groups as key/task pairs.
pub open spec fn group_pairs(v: Seq<InnerTask>) -> Seq<(KeyView, InnerTask)> {
    v.map_values(|t: InnerTask| (key_of(t), t))
}

/// The task index as id/key pairs.
pub open spec fn index_pairs(v: Seq<(TaskId, TaskKey)>) -> Seq<(TaskId, KeyView)> {
    v.map_values(|p: (TaskId, TaskKey)| (p.0, p.1@))
}

/// The offsets as key/offset pairs.
pub open spec fn offset_pairs(v: Seq<(TaskKey, u64)>) -> Seq<(KeyView, u64)> {
    v.map_values(|p: (TaskKey, u64)| (p.0@, p.1))
}

impl View for SchedulerState {
    type V = SchedulerModel;

    closed spec fn view(&self) -> SchedulerModel {
        SchedulerModel {
            max_upload: self.max_upload_concurrency as nat,
            max_download: self.max_download_concurrency as nat,
            groups: assoc_map(group_pairs(self.groups@)),
            group_order: assoc_keys(group_pairs(self.groups@)),
            task_index: assoc_map(index_pairs(self.task_index@)),
            queued: keys_view(self.queued@),
            paused: keys_view(self.paused@),
            active: keys_view(self.active@),
            offsets: assoc_map(offset_pairs(self.offsets@)),
        }
    }
}

impl SchedulerState {
    /// The state is well-formed: its lists hold distinct keys and the model is well-formed.
    pub closed spec fn wf(&self) -> bool {
        self.rep_ok() && model_wf(self@)
    }

    /// The lists that stand for maps hold each key once.
    closed spec fn rep_ok(&self) -> bool {
        &&& keys_distinct(group_pairs(self.groups@))
        &&& keys_distinct(index_pairs(self.task_index@))
        &&& keys_distinct(offset_pairs(self.offsets@))
    }

    /// A well-formed state has a well-formed model.
    pub proof fn lemma_wf(&self)
        requires
            self.wf(),
        ensures
            model_wf(self@),
    {
    }

    /// An empty scheduler with the given concurrency limits.
    pub fn new(max_upload_concurrency: usize, max_download_concurrency: usize) -> (s: Self)
        ensures
            s.wf(),
            s@.max_upload == max_upload_concurrency,
            s@.max_download == max_download_concurrency,
            s@.groups == Map::<KeyView, InnerTask>::empty(),
            s@.task_index == Map::<TaskId, KeyView>::empty(),
            s@.queued.len() == 0,
            s@.paused.len() == 0,
            s@.active.len() == 0,
            s@.offsets == Map::<KeyView, u64>::empty(),
    {
        let s = SchedulerState {
            max_upload_concurrency,
            max_download_concurrency,
            groups: Vec::new(),
            task_index: Vec::new(),
            queued: Vec::new(),
            paused: Vec::new(),
            active: Vec::new(),
            offsets: Vec::new(),
        };
        proof {
            assert(s@.queued =~= Seq::<KeyView>::empty());
            assert(s@.active =~= Seq::<KeyView>::empty());
            assert(s@.paused =~= Seq::<KeyView>::empty());
            assert(s@.active.filter(of_direction(Direction::Upload)) =~= Seq::<KeyView>::empty());
            assert(s@.active.filter(of_direction(Direction::Download)) =~= Seq::<KeyView>::empty());
            assert(s@.group_order =~= Seq::<KeyView>::empty());
        }
        s
    }

    pub fn max_upload_concurrency(&self) -> (n: usize)
        ensures
            n == self@.max_upload,
    {
        self.max_upload_concurrency
    }

    pub fn max_download_concurrency(&self) -> (n: usize)
        ensures
            n == self@.max_download,
    {
        self.max_download_concurrency
    }
}

/// The notification about task `t` sent to the listener of task `listener`.
pub open spec fn notify_view(listener: TaskId, t: InnerTask, status: StatusView, transferred: u64, total: u64) -> ActionView {
    ActionView::Notify { listener, record: record_of(t, status, transferred, total) }
}

/// The notification about the leader of group `k`, to that leader's listener.
pub open spec fn group_notify(m: SchedulerModel, k: KeyView, status: StatusView, transferred: u64, total: u64) -> ActionView {
    notify_view(m.groups[k].task_id, m.groups[k], status, transferred, total)
}

/// `s` with `k` appended unless it is already there.
pub open spec fn insert_once(s: Seq<KeyView>, k: KeyView) -> Seq<KeyView> {
    if s.contains(k) { s } else { s.push(k) }
}

/// The error of a control call that names no known task.
pub open spec fn is_task_not_found(e: ErrorView) -> bool {
    e.code == code_value(InnerErrorCode::TaskNotFound)
}

/// The error of a state that forbids the operation.
pub open spec fn invalid_state(msg: Seq<char>) -> ErrorView {
    ErrorView { code: code_value(InnerErrorCode::InvalidTaskState), msg, source: None }
}

/// What pausing group `k` does to the scheduler: the key leaves the queue and is marked
/// paused. A running transfer keeps its slot until it reports that it stopped.
pub open spec fn pause_model(m: SchedulerModel, k: KeyView) -> SchedulerModel {
    SchedulerModel { queued: m.queued.filter(other_than(k)), paused: insert_once(m.paused, k), ..m }
}

/// What pausing group `k` asks of the application: stop the running transfer, then tell
/// the leader's listeners that the task is paused at its current offset.
pub open spec fn pause_actions(m: SchedulerModel, k: KeyView) -> Seq<ActionView> {
    (if m.active.contains(k) { seq![ActionView::CancelRun { key: k }] } else { Seq::empty() })
    + (if m.groups.dom().contains(k) {
        seq![group_notify(m, k, StatusView::Paused, offset_of(m, k), m.groups[k].total_size)]
    } else {
        Seq::empty()
    })
}

/// What canceling group `k` does to the scheduler: the key leaves the running list, the
/// queue and the paused list; its group and its leader's index entry go.
pub open spec fn cancel_model(m: SchedulerModel, k: KeyView) -> SchedulerModel {
    let base = SchedulerModel {
        active: m.active.filter(other_than(k)),
        queued: m.queued.filter(other_than(k)),
        paused: m.paused.filter(other_than(k)),
        ..m
    };
    if m.groups.dom().contains(k) {
        SchedulerModel {
            groups: m.groups.remove(k),
            group_order: m.group_order.filter(other_than(k)),
            task_index: m.task_index.remove(m.groups[k].task_id),
            ..base
        }
    } else {
        base
    }
}

/// What canceling group `k` asks of the application: stop and forget its transfer if one
/// runs, then tell the leader's listeners that the task is canceled and release it.
pub open spec fn cancel_actions(m: SchedulerModel, k: KeyView) -> Seq<ActionView> {
    (if m.active.contains(k) {
        seq![ActionView::CancelRun { key: k }, ActionView::ForgetRun { key: k }]
    } else {
        Seq::empty()
    })
    + (if m.groups.dom().contains(k) {
        seq![
            group_notify(m, k, StatusView::Canceled, offset_of(m, k), m.groups[k].total_size),
            ActionView::Release { task_id: m.groups[k].task_id },
        ]
    } else {
        Seq::empty()
    })
}

/// The messages of the refusals of `resume`.
pub open spec fn not_paused_message() -> Seq<char> { "resume target is not paused"@ }
pub open spec fn still_stopping_message() -> Seq<char> { "resume target is still stopping, retry later"@ }
pub open spec fn group_missing_message() -> Seq<char> { "resume target group missing"@ }

/// What resuming group `k` answers, does and asks: only a paused key whose transfer has
/// stopped can resume; it is unmarked, its leader's listeners hear `Pending`, and it joins
/// the end of the queue.
pub open spec fn resume_spec(m: SchedulerModel, k: KeyView) -> (Result<(), ErrorView>, SchedulerModel, Seq<ActionView>) {
    if !m.paused.contains(k) {
        (Err(invalid_state(not_paused_message())), m, Seq::empty())
    } else if m.active.contains(k) {
        (Err(invalid_state(still_stopping_message())), m, Seq::empty())
    } else {
        let unpaused = SchedulerModel { paused: m.paused.filter(other_than(k)), ..m };
        if !m.groups.dom().contains(k) {
            (Err(invalid_state(group_missing_message())), unpaused, Seq::empty())
        } else {
            (
                Ok(()),
                SchedulerModel { queued: insert_once(m.queued, k), ..unpaused },
                seq![group_notify(m, k, StatusView::Pending, offset_of(m, k), m.groups[k].total_size)],
            )
        }
    }
}

/// Dropping a key never raises the number of keys of a direction.
proof fn lemma_count_filter(s: Seq<KeyView>, k: KeyView, d: Direction)
    ensures
        count_dir(s.filter(other_than(k)), d) <= count_dir(s, d),
    decreases s.len(),
{
    if s.len() > 0 {
        let p = s.drop_last();
        lemma_count_filter(p, k, d);
        assert(s =~= p.push(s.last()));
        p.lemma_filter_push(s.last(), other_than(k));
        p.lemma_filter_push(s.last(), of_direction(d));
        let q = p.filter(other_than(k));
        q.lemma_filter_push(s.last(), of_direction(d));
    } else {
        assert(s.filter(other_than(k)) =~= s);
    }
}

/// Appending a key of another direction leaves the count of a direction unchanged;
/// appending one of that direction raises it by one.
proof fn lemma_count_push(s: Seq<KeyView>, k: KeyView, d: Direction)
    ensures
        count_dir(s.push(k), d) == count_dir(s, d) + (if k.0 == d { 1int } else { 0int }),
{
    s.lemma_filter_push(k, of_direction(d));
}

/// One pass of the scheduler over the queue `q`, front to back, with `active` running:
/// a key that already runs or has no group is dropped; a key whose direction has a free
/// slot starts; any other key stays queued, in order. Gives the running keys after the
/// pass, the keys still queued, and the keys started, in order.
pub open spec fn schedule_pass(m: SchedulerModel, active: Seq<KeyView>, q: Seq<KeyView>) -> (Seq<KeyView>, Seq<KeyView>, Seq<KeyView>)
    decreases q.len(),
{
    if q.len() == 0 {
        (active, Seq::empty(), Seq::empty())
    } else {
        let k = q[0];
        let rest = q.drop_first();
        if active.contains(k) || !m.groups.dom().contains(k) {
            schedule_pass(m, active, rest)
        } else if count_dir(active, k.0) < capacity(m, k.0) {
            let r = schedule_pass(m, active.push(k), rest);
            (r.0, r.1, seq![k] + r.2)
        } else {
            let r = schedule_pass(m, active, rest);
            (r.0, seq![k] + r.1, r.2)
        }
    }
}

/// What starting the keys `started` asks of the application, key by key: tell the
/// leader's listeners that the task transmits from its current offset, then start it.
pub open spec fn start_actions(m: SchedulerModel, started: Seq<KeyView>) -> Seq<ActionView>
    decreases started.len(),
{
    if started.len() == 0 {
        Seq::empty()
    } else {
        let k = started.last();
        start_actions(m, started.drop_last()) + seq![
            group_notify(m, k, StatusView::Transmission, offset_of(m, k), m.groups[k].total_size),
            ActionView::StartRun { key: k, leader: m.groups[k].task_id, start_offset: offset_of(m, k) },
        ]
    }
}

/// The scheduler after starting what can start.
pub open spec fn start_model(m: SchedulerModel) -> SchedulerModel {
    let r = schedule_pass(m, m.active, m.queued);
    SchedulerModel { active: r.0, queued: r.1, ..m }
}

/// The keys that starting what can start starts, in order.
pub open spec fn started_keys(m: SchedulerModel) -> Seq<KeyView> {
    schedule_pass(m, m.active, m.queued).2
}

/// Nothing in the queue could start: every queued key has its group and its direction
/// has no free slot.
pub open spec fn saturated(m: SchedulerModel) -> bool {
    forall|k: KeyView| #[trigger] m.queued.contains(k) ==>
        m.groups.dom().contains(k) && count_dir(m.active, k.0) >= capacity(m, k.0)
}

proof fn lemma_count_add(a: Seq<KeyView>, b: Seq<KeyView>, d: Direction)
    ensures
        count_dir(a + b, d) == count_dir(a, d) + count_dir(b, d),
{
    Seq::filter_distributes_over_add(a, b, of_direction(d));
}

/// What a pass guarantees, from a well-formed start: the running keys grow by the started
/// ones; nothing runs twice or beyond its limit; the kept keys are distinct, not running,
/// have groups and wait on a full direction; kept and started keys come from the queue.
pub open spec fn pass_ok(m: SchedulerModel, active: Seq<KeyView>, q: Seq<KeyView>, r: (Seq<KeyView>, Seq<KeyView>, Seq<KeyView>)) -> bool {
    &&& r.0 == active + r.2
    &&& r.0.no_duplicates()
    &&& r.1.no_duplicates()
    &&& r.2.no_duplicates()
    &&& forall|k: KeyView| r.1.contains(k) ==> !r.0.contains(k)
    &&& forall|k: KeyView| #[trigger] r.0.contains(k) ==> m.groups.dom().contains(k)
    &&& count_dir(r.0, Direction::Upload) <= m.max_upload
    &&& count_dir(r.0, Direction::Download) <= m.max_download
    &&& forall|k: KeyView| #[trigger] r.1.contains(k) ==>
        m.groups.dom().contains(k) && count_dir(r.0, k.0) >= capacity(m, k.0)
    &&& forall|k: KeyView| r.1.contains(k) ==> q.contains(k)
    &&& forall|k: KeyView| r.2.contains(k) ==> q.contains(k)
    &&& forall|k: KeyView| #[trigger] r.2.contains(k) ==> m.groups.dom().contains(k)
}

/// Dropping a live group together with the index entry of its leader leaves every other
/// index entry naming its live group.
proof fn lemma_drop_group_sound(m: SchedulerModel, n: SchedulerModel, k: KeyView)
    requires
        index_sound(m),
        m.groups.dom().contains(k),
        n.groups == m.groups.remove(k),
        n.task_index == m.task_index.remove(m.groups[k].task_id),
    ensures
        index_sound(n),
{
    assert forall|id: TaskId| #[trigger] n.task_index.dom().contains(id) implies
        n.groups.dom().contains(n.task_index[id]) && n.groups[n.task_index[id]].task_id == id by {
        assert(m.task_index.dom().contains(id) && id != m.groups[k].task_id);
        assert(m.task_index[id] != k);
    }
}

/// Unmarking `k` as paused, with a queue that only shrinks and groups that are kept
/// (apart from `k`'s own), keeps paused keys grouped and out of the queue.
proof fn lemma_unpause_keeps_paused_wf(m: SchedulerModel, n: SchedulerModel, k: KeyView)
    requires
        paused_wf(m),
        m.paused.no_duplicates(),
        n.paused == m.paused.filter(other_than(k)),
        forall|x: KeyView| #[trigger] n.queued.contains(x) ==> m.queued.contains(x),
        forall|x: KeyView| x != k && #[trigger] m.groups.dom().contains(x) ==> n.groups.dom().contains(x),
    ensures
        paused_wf(n),
{
    lemma_filter_out(m.paused, k);
    assert forall|x: KeyView| #[trigger] n.paused.contains(x) implies
        n.groups.dom().contains(x) && !n.queued.contains(x) by {
        assert(m.paused.contains(x) && x != k);
        assert(m.groups.dom().contains(x));
    }
}

proof fn lemma_pass(m: SchedulerModel, active: Seq<KeyView>, q: Seq<KeyView>)
    requires
        active.no_duplicates(),
        q.no_duplicates(),
        forall|k: KeyView| q.contains(k) ==> !active.contains(k),
        forall|k: KeyView| active.contains(k) ==> m.groups.dom().contains(k),
        count_dir(active, Direction::Upload) <= m.max_upload,
        count_dir(active, Direction::Download) <= m.max_download,
    ensures
        pass_ok(m, active, q, schedule_pass(m, active, q)),
    decreases q.len(),
{
    let r = schedule_pass(m, active, q);
    if q.len() == 0 {
        assert(active + Seq::<KeyView>::empty() =~= active);
        assert(r.2 == Seq::<KeyView>::empty());
        assert(forall|x: KeyView| !r.2.contains(x));
        assert(forall|x: KeyView| !r.1.contains(x));
        assert(pass_ok(m, active, q, r));
    } else {
        let k = q[0];
        let rest = q.drop_first();
        assert(rest.no_duplicates()) by {
            assert forall|a: int, b: int| 0 <= a < rest.len() && 0 <= b < rest.len() && a != b implies rest[a] != rest[b] by {
                assert(rest[a] == q[a + 1] && rest[b] == q[b + 1]);
            }
        }
        assert forall|x: KeyView| rest.contains(x) implies q.contains(x) && x != k by {
            let j = choose|j: int| 0 <= j < rest.len() && rest[j] == x;
            assert(q[j + 1] == x);
            assert(q[0] != q[j + 1]);
        }
        assert(q.contains(k));
        if active.contains(k) || !m.groups.dom().contains(k) {
            lemma_pass(m, active, rest);
            assert(r == schedule_pass(m, active, rest));
            assert(forall|x: KeyView| r.2.contains(x) ==> m.groups.dom().contains(x));
            assert(pass_ok(m, active, q, r));
        } else if count_dir(active, k.0) < capacity(m, k.0) {
            let a2 = active.push(k);
            assert(a2.no_duplicates()) by {
                assert forall|a: int, b: int| 0 <= a < a2.len() && 0 <= b < a2.len() && a != b implies a2[a] != a2[b] by {
                    if a == active.len() as int { assert(active.contains(a2[b])); }
                    else if b == active.len() as int { assert(active.contains(a2[a])); }
                }
            }
            assert forall|x: KeyView| rest.contains(x) implies !a2.contains(x) by {
                if a2.contains(x) {
                    let j = choose|j: int| 0 <= j < a2.len() && a2[j] == x;
                    if j < active.len() { assert(active.contains(x)); }
                }
            }
            assert forall|x: KeyView| a2.contains(x) implies m.groups.dom().contains(x) by {
                let j = choose|j: int| 0 <= j < a2.len() && a2[j] == x;
                if j < active.len() { assert(active.contains(x)); }
            }
            lemma_count_push(active, k, Direction::Upload);
            lemma_count_push(active, k, Direction::Download);
            lemma_pass(m, a2, rest);
            let r2 = schedule_pass(m, a2, rest);
            assert(r.0 == r2.0 && r.1 == r2.1 && r.2 == seq![k] + r2.2);
            assert(active + r.2 =~= a2 + r2.2);
            assert(r.2.no_duplicates()) by {
                assert(!r2.2.contains(k));
                assert forall|a: int, b: int| 0 <= a < r.2.len() && 0 <= b < r.2.len() && a != b implies r.2[a] != r.2[b] by {
                    if a == 0 { assert(r2.2.contains(r.2[b])); }
                    else if b == 0 { assert(r2.2.contains(r.2[a])); }
                    else { assert(r.2[a] == r2.2[a - 1] && r.2[b] == r2.2[b - 1]); }
                }
            }
            assert forall|x: KeyView| #[trigger] r.2.contains(x) implies q.contains(x) && m.groups.dom().contains(x) by {
                let j = choose|j: int| 0 <= j < r.2.len() && r.2[j] == x;
                if j > 0 { assert(r2.2[j - 1] == x); assert(r2.2.contains(x)); }
            }
            assert forall|x: KeyView| #[trigger] r.1.contains(x) implies m.groups.dom().contains(x)
                && count_dir(r.0, x.0) >= capacity(m, x.0) && q.contains(x) && !r.0.contains(x) by {
                assert(r2.1.contains(x));
            }
            assert(pass_ok(m, active, q, r));
        } else {
            lemma_pass(m, active, rest);
            let r2 = schedule_pass(m, active, rest);
            assert(r.0 == r2.0 && r.1 == seq![k] + r2.1 && r.2 == r2.2);
            lemma_count_add(active, r2.2, k.0);
            assert(!r2.1.contains(k));
            assert(!r2.2.contains(k));
            assert(!r.0.contains(k)) by {
                if r.0.contains(k) {
                    let j = choose|j: int| 0 <= j < r.0.len() && r.0[j] == k;
                    if j < active.len() { assert(active[j] == k); } else { assert(r2.2[j - active.len()] == k); }
                }
            }
            assert(r.1.no_duplicates()) by {
                assert forall|a: int, b: int| 0 <= a < r.1.len() && 0 <= b < r.1.len() && a != b implies r.1[a] != r.1[b] by {
                    if a == 0 { assert(r2.1.contains(r.1[b])); }
                    else if b == 0 { assert(r2.1.contains(r.1[a])); }
                    else { assert(r.1[a] == r2.1[a - 1] && r.1[b] == r2.1[b - 1]); }
                }
            }
            assert(forall|x: KeyView| r.2.contains(x) ==> m.groups.dom().contains(x));
            assert forall|x: KeyView| #[trigger] r.1.contains(x) implies !r.0.contains(x) && q.contains(x)
                && m.groups.dom().contains(x) && count_dir(r.0, x.0) >= capacity(m, x.0) by {
                let j = choose|j: int| 0 <= j < r.1.len() && r.1[j] == x;
                if j > 0 { assert(r2.1[j - 1] == x); assert(r2.1.contains(x)); }
            }
        }
    }
}

/// When nothing in the queue can start, a pass changes nothing.
proof fn lemma_pass_idle(m: SchedulerModel, active: Seq<KeyView>, q: Seq<KeyView>)
    requires
        forall|k: KeyView| q.contains(k) ==> !active.contains(k),
        forall|k: KeyView| #[trigger] q.contains(k) ==>
            m.groups.dom().contains(k) && count_dir(active, k.0) >= capacity(m, k.0),
    ensures
        schedule_pass(m, active, q) == (active, q, Seq::<KeyView>::empty()),
    decreases q.len(),
{
    if q.len() > 0 {
        let rest = q.drop_first();
        assert forall|x: KeyView| rest.contains(x) implies q.contains(x) by {
            let j = choose|j: int| 0 <= j < rest.len() && rest[j] == x;
            assert(q[j + 1] == x);
        }
        assert(q.contains(q[0]));
        lemma_pass_idle(m, active, rest);
        assert(seq![q[0]] + rest =~= q);
    }
}

/// The error of a duplicate submission: the same file or URL already has a group.
pub open spec fn duplicate_error() -> ErrorView {
    ErrorView { code: code_value(InnerErrorCode::DuplicateTaskError), msg: Seq::empty(), source: None }
}

/// The scheduler right after a new task `t` (whose key has no group) joined, before
/// anything is started: it is indexed, leads a new group, and waits in the queue unless
/// its key already runs or waits.
pub open spec fn admit_model(m: SchedulerModel, t: InnerTask) -> SchedulerModel {
    let k = key_of(t);
    SchedulerModel {
        task_index: m.task_index.insert(t.task_id, k),
        groups: m.groups.insert(k, t),
        group_order: m.group_order.push(k),
        queued: if !m.active.contains(k) && !m.queued.contains(k) { m.queued.push(k) } else { m.queued },
        ..m
    }
}

/// What submitting task `t` does: a task whose key already has a group changes nothing;
/// otherwise the task joins (see [`admit_model`]) and whatever can start starts.
pub open spec fn enqueue_model(m: SchedulerModel, t: InnerTask) -> SchedulerModel {
    if m.groups.dom().contains(key_of(t)) {
        m
    } else {
        start_model(admit_model(m, t))
    }
}

/// What submitting task `t` asks of the application. A duplicate is reported to the new
/// task's listener as failed with `DuplicateTaskError` (the report describes the task that
/// holds the key), and the new task is released. Otherwise the new task is announced as
/// pending at its key's offset (and as transmitting if its key is running), then whatever
/// can start starts.
pub open spec fn enqueue_actions(m: SchedulerModel, t: InnerTask) -> Seq<ActionView> {
    let k = key_of(t);
    if m.groups.dom().contains(k) {
        seq![
            notify_view(t.task_id, m.groups[k], StatusView::Failed(duplicate_error()), 0, m.groups[k].total_size),
            ActionView::Release { task_id: t.task_id },
        ]
    } else {
        let m1 = admit_model(m, t);
        seq![notify_view(t.task_id, t, StatusView::Pending, offset_of(m, k), t.total_size)]
        + (if m.active.contains(k) {
            seq![notify_view(t.task_id, t, StatusView::Transmission, offset_of(m, k), t.total_size)]
        } else {
            Seq::empty()
        })
        + start_actions(m1, started_keys(m1))
    }
}

/// A group ends: its key leaves the running list and the paused list, and, when it has a
/// group, the group and its leader's index entry go.
pub open spec fn end_model(m: SchedulerModel, k: KeyView) -> SchedulerModel {
    let base = SchedulerModel {
        active: m.active.filter(other_than(k)),
        paused: m.paused.filter(other_than(k)),
        offsets: m.offsets.remove(k),
        ..m
    };
    if m.groups.dom().contains(k) {
        SchedulerModel {
            groups: m.groups.remove(k),
            group_order: m.group_order.filter(other_than(k)),
            task_index: m.task_index.remove(m.groups[k].task_id),
            ..base
        }
    } else {
        base
    }
}

/// The report of a group's end with the given status and byte counts, then the release of
/// its leader; nothing when the key has no group.
pub open spec fn end_actions(m: SchedulerModel, k: KeyView, status: StatusView, transferred: u64, total: u64) -> Seq<ActionView> {
    if m.groups.dom().contains(k) {
        seq![
            group_notify(m, k, status, transferred, total),
            ActionView::Release { task_id: m.groups[k].task_id },
        ]
    } else {
        Seq::empty()
    }
}

/// What a transfer reports back while it runs or when it stops.
#[derive(Debug)]
pub enum WorkerEvent {
    /// The transfer of `key` reached `next_offset` of `total_size` bytes.
    Progress { key: TaskKey, next_offset: u64, total_size: u64 },
    /// The transfer of `key` finished with `total_size` bytes.
    Completed { key: TaskKey, total_size: u64 },
    /// The transfer of `key` failed.
    Failed { key: TaskKey, error: MeowError },
    /// The transfer of `key` stopped because it was asked to.
    Canceled { key: TaskKey },
}

/// What handling a transfer's report does to the scheduler.
/// - progress: the key's offset moves;
/// - completed or failed: the group ends (see [`end_model`]);
/// - canceled: the key stops running; unless it is paused, the group ends.
pub open spec fn event_model(m: SchedulerModel, ev: WorkerEvent) -> SchedulerModel {
    match ev {
        WorkerEvent::Progress { key, next_offset, total_size } =>
            SchedulerModel { offsets: m.offsets.insert(key@, next_offset), ..m },
        WorkerEvent::Completed { key, total_size } => end_model(m, key@),
        WorkerEvent::Failed { key, error } => end_model(m, key@),
        WorkerEvent::Canceled { key } =>
            if m.paused.contains(key@) {
                SchedulerModel { active: m.active.filter(other_than(key@)), ..m }
            } else {
                end_model(m, key@)
            },
    }
}

/// What handling a transfer's report asks of the application.
/// - progress: tell the leader's listeners it transmits, at the reported offset and total;
/// - completed: forget the run, report `Complete` with all bytes done, release the task;
/// - failed: forget the run, report the failure at the key's offset, release the task;
/// - canceled: forget the run; unless paused, report `Canceled` and release the task.
pub open spec fn event_actions(m: SchedulerModel, ev: WorkerEvent) -> Seq<ActionView> {
    match ev {
        WorkerEvent::Progress { key, next_offset, total_size } =>
            if m.groups.dom().contains(key@) {
                seq![group_notify(m, key@, StatusView::Transmission, next_offset, total_size)]
            } else {
                Seq::empty()
            },
        WorkerEvent::Completed { key, total_size } =>
            seq![ActionView::ForgetRun { key: key@ }]
            + end_actions(m, key@, StatusView::Complete, total_size, total_size),
        WorkerEvent::Failed { key, error } =>
            seq![ActionView::ForgetRun { key: key@ }]
            + end_actions(m, key@, StatusView::Failed(error@), offset_of(m, key@),
                m.groups[key@].total_size),
        WorkerEvent::Canceled { key } =>
            seq![ActionView::ForgetRun { key: key@ }]
            + (if m.paused.contains(key@) {
                Seq::empty()
            } else {
                end_actions(m, key@, StatusView::Canceled, offset_of(m, key@), m.groups[key@].total_size)
            }),
    }
}

/// The scheduler after `close`: nothing is left but the limits.
pub open spec fn closed_model(m: SchedulerModel) -> SchedulerModel {
    SchedulerModel {
        groups: Map::empty(),
        group_order: Seq::empty(),
        task_index: Map::empty(),
        queued: Seq::empty(),
        paused: Seq::empty(),
        active: Seq::empty(),
        offsets: Map::empty(),
        ..m
    }
}

/// What `close` asks of the application: stop every running transfer, then tell every
/// group's listeners that it is paused at its offset.
pub open spec fn close_actions(m: SchedulerModel) -> Seq<ActionView> {
    m.active.map_values(|k: KeyView| ActionView::CancelRun { key: k })
    + m.group_order.map_values(|k: KeyView| group_notify(m, k, StatusView::Paused, offset_of(m, k), m.groups[k].total_size))
}

/// The message of a control call that names an unknown task.
pub open spec fn not_found_message(id: TaskId) -> Seq<char> {
    "task not found: "@ + uuid_text(id.spec_value())
}

/// What pausing the task `id` answers, leaves and asks: a known task's group is paused;
/// either way whatever can start starts.
pub open spec fn pause_spec(m: SchedulerModel, id: TaskId) -> (bool, SchedulerModel, Seq<ActionView>) {
    if m.task_index.dom().contains(id) {
        let m1 = pause_model(m, m.task_index[id]);
        (true, start_model(m1), pause_actions(m, m.task_index[id]) + start_actions(m1, started_keys(m1)))
    } else {
        (false, start_model(m), start_actions(m, started_keys(m)))
    }
}

/// What canceling the task `id` answers, leaves and asks: a known task's group is
/// canceled; either way whatever can start starts.
pub open spec fn cancel_spec(m: SchedulerModel, id: TaskId) -> (bool, SchedulerModel, Seq<ActionView>) {
    if m.task_index.dom().contains(id) {
        let m1 = cancel_model(m, m.task_index[id]);
        (true, start_model(m1), cancel_actions(m, m.task_index[id]) + start_actions(m1, started_keys(m1)))
    } else {
        (false, start_model(m), start_actions(m, started_keys(m)))
    }
}

/// What resuming the task `id` answers, leaves and asks: a known task's group is resumed
/// (which may be refused, see [`resume_spec`]); either way whatever can start starts.
pub open spec fn resume_task_spec(m: SchedulerModel, id: TaskId) -> (Result<(), ErrorView>, SchedulerModel, Seq<ActionView>) {
    if m.task_index.dom().contains(id) {
        let (res, m1, acts) = resume_spec(m, m.task_index[id]);
        (res, start_model(m1), acts + start_actions(m1, started_keys(m1)))
    } else {
        (
            Err(ErrorView { code: code_value(InnerErrorCode::TaskNotFound), msg: not_found_message(id), source: None }),
            start_model(m),
            start_actions(m, started_keys(m)),
        )
    }
}

/// The answer to a control call on a task that may be unknown.
pub open spec fn control_answer(r: Result<(), MeowError>, found: bool, id: TaskId) -> bool {
    if found {
        r is Ok
    } else {
        r matches Err(e) && e@ == (ErrorView {
            code: code_value(InnerErrorCode::TaskNotFound),
            msg: not_found_message(id),
            source: None,
        })
    }
}

/// A request to the scheduler.
#[derive(Debug)]
pub enum SchedulerCommand {
    /// Submit a task.
    Enqueue(InnerTask),
    /// Pause the task with this id.
    Pause(TaskId),
    /// Resume the paused task with this id.
    Resume(TaskId),
    /// Cancel the task with this id.
    Cancel(TaskId),
    /// Report what waits and what runs.
    Snapshot,
    /// Stop everything and end.
    Close,
}

/// The scheduler's answer to a request.
#[derive(Debug)]
pub enum CommandReply {
    /// A submission needs no answer: its outcome goes to the task's listener.
    Submitted,
    /// The result of a pause, resume or cancel.
    Control(Result<(), MeowError>),
    /// What waits and what runs.
    Snapshot(TransferSnapshot),
    /// The scheduler is closed and handles nothing more.
    Closed,
}

/// Appends a notification about task `t` for the listener of task `listener`.
fn push_notify(
    out: &mut Vec<SchedulerAction>,
    listener: TaskId,
    t: &InnerTask,
    status: TransferStatus,
    transferred: u64,
    total: u64,
)
    ensures
        actions_view(final(out)@) == actions_view(old(out)@).push(
            notify_view(listener, *t, status@, transferred, total)),
{
    let record = make_record(t, status, transferred, total);
    out.push(SchedulerAction::Notify { listener, record });
    assert(actions_view(out@) =~= actions_view(old(out)@).push(notify_view(listener, *t, status@, transferred, total)));
}

/// Appends one action.
fn push_action(out: &mut Vec<SchedulerAction>, a: SchedulerAction)
    ensures
        actions_view(final(out)@) == actions_view(old(out)@).push(a@),
{
    out.push(a);
    assert(actions_view(out@) =~= actions_view(old(out)@).push(a@));
}

/// Whether `key` is in the list.
fn list_contains(v: &Vec<TaskKey>, key: &TaskKey) -> (r: bool)
    ensures
        r == keys_view(v@).contains(key@),
{
    let mut i: usize = 0;
    while i < v.len()
        invariant
            i <= v.len(),
            forall|j: int| 0 <= j < i ==> keys_view(v@)[j] != key@,
        decreases v.len() - i,
    {
        if v[i].same(key) {
            assert(keys_view(v@)[i as int] == key@);
            return true;
        }
        i = i + 1;
    }
    false
}

/// The list without `key`.
fn list_without(v: &Vec<TaskKey>, key: &TaskKey) -> (r: Vec<TaskKey>)
    ensures
        keys_view(r@) == keys_view(v@).filter(other_than(key@)),
{
    let ghost f = other_than(key@);
    let mut out: Vec<TaskKey> = Vec::new();
    let mut i: usize = 0;
    assert(keys_view(v@).take(0).filter(f) =~= Seq::<KeyView>::empty());
    while i < v.len()
        invariant
            i <= v.len(),
            f == other_than(key@),
            keys_view(out@) == keys_view(v@).take(i as int).filter(f),
        decreases v.len() - i,
    {
        let ghost before = keys_view(v@).take(i as int);
        assert(keys_view(v@).take(i + 1) =~= before.push(keys_view(v@)[i as int]));
        proof { before.lemma_filter_push(keys_view(v@)[i as int], f); }
        if !v[i].same(key) {
            out.push(v[i].copy());
            assert(keys_view(out@) =~= keys_view(v@).take(i + 1).filter(f));
        } else {
            assert(keys_view(out@) =~= keys_view(v@).take(i + 1).filter(f));
        }
        i = i + 1;
    }
    assert(keys_view(v@).take(v.len() as int) =~= keys_view(v@));
    out
}

impl SchedulerState {
    /// The position of the group of `key`.
    fn find_group(&self, key: &TaskKey) -> (r: Option<usize>)
        requires
            self.rep_ok(),
        ensures
            match r {
                Some(i) => i < self.groups@.len() && key_of(self.groups@[i as int]) == key@
                    && self@.groups.dom().contains(key@) && self@.groups[key@] == self.groups@[i as int],
                None => !self@.groups.dom().contains(key@),
            },
    {
        let mut i: usize = 0;
        while i < self.groups.len()
            invariant
                i <= self.groups@.len(),
                self.rep_ok(),
                forall|j: int| 0 <= j < i ==> key_of(self.groups@[j]) != key@,
            decreases self.groups@.len() - i,
        {
            if self.groups[i].has_key(key) {
                proof {
                    assert(group_pairs(self.groups@)[i as int] == (key_of(self.groups@[i as int]), self.groups@[i as int]));
                    lemma_assoc_index(group_pairs(self.groups@), i as int);
                }
                return Some(i);
            }
            i = i + 1;
        }
        proof {
            lemma_assoc_dom(group_pairs(self.groups@), key@);
            if self@.groups.dom().contains(key@) {
                let j = choose|j: int| 0 <= j < group_pairs(self.groups@).len() && group_pairs(self.groups@)[j].0 == key@;
                assert(group_pairs(self.groups@)[j].0 == key_of(self.groups@[j]));
            }
        }
        None
    }

    /// The key of the group that task `id` belongs to, if it is indexed.
    fn lookup_task(&self, id: TaskId) -> (r: Option<TaskKey>)
        requires
            self.rep_ok(),
        ensures
            match r {
                Some(k) => self@.task_index.dom().contains(id) && self@.task_index[id] == k@,
                None => !self@.task_index.dom().contains(id),
            },
    {
        match self.find_index_entry(id) {
            Some(i) => Some(self.task_index[i].1.copy()),
            None => None,
        }
    }

    fn find_index_entry(&self, id: TaskId) -> (r: Option<usize>)
        requires
            self.rep_ok(),
        ensures
            match r {
                Some(i) => i < self.task_index@.len() && self.task_index@[i as int].0 == id
                    && self@.task_index.dom().contains(id) && self@.task_index[id] == self.task_index@[i as int].1@,
                None => !self@.task_index.dom().contains(id),
            },
    {
        let mut i: usize = 0;
        while i < self.task_index.len()
            invariant
                i <= self.task_index@.len(),
                self.rep_ok(),
                forall|j: int| 0 <= j < i ==> self.task_index@[j].0 != id,
            decreases self.task_index@.len() - i,
        {
            if self.task_index[i].0 == id {
                proof {
                    assert(index_pairs(self.task_index@)[i as int] == (self.task_index@[i as int].0, self.task_index@[i as int].1@));
                    lemma_assoc_index(index_pairs(self.task_index@), i as int);
                }
                return Some(i);
            }
            i = i + 1;
        }
        proof {
            lemma_assoc_dom(index_pairs(self.task_index@), id);
            if self@.task_index.dom().contains(id) {
                let j = choose|j: int| 0 <= j < index_pairs(self.task_index@).len() && index_pairs(self.task_index@)[j].0 == id;
                assert(index_pairs(self.task_index@)[j].0 == self.task_index@[j].0);
            }
        }
        None
    }

    fn find_offset(&self, key: &TaskKey) -> (r: Option<usize>)
        requires
            self.rep_ok(),
        ensures
            match r {
                Some(i) => i < self.offsets@.len() && self.offsets@[i as int].0@ == key@
                    && self@.offsets.dom().contains(key@) && self@.offsets[key@] == self.offsets@[i as int].1,
                None => !self@.offsets.dom().contains(key@),
            },
    {
        let mut i: usize = 0;
        while i < self.offsets.len()
            invariant
                i <= self.offsets@.len(),
                self.rep_ok(),
                forall|j: int| 0 <= j < i ==> self.offsets@[j].0@ != key@,
            decreases self.offsets@.len() - i,
        {
            if self.offsets[i].0.same(key) {
                proof {
                    assert(offset_pairs(self.offsets@)[i as int] == (self.offsets@[i as int].0@, self.offsets@[i as int].1));
                    lemma_assoc_index(offset_pairs(self.offsets@), i as int);
                }
                return Some(i);
            }
            i = i + 1;
        }
        proof {
            lemma_assoc_dom(offset_pairs(self.offsets@), key@);
            if self@.offsets.dom().contains(key@) {
                let j = choose|j: int| 0 <= j < offset_pairs(self.offsets@).len() && offset_pairs(self.offsets@)[j].0 == key@;
                assert(offset_pairs(self.offsets@)[j].0 == self.offsets@[j].0@);
            }
        }
        None
    }

    /// The offset `key` has reached, zero when none is recorded.
    fn offset_for(&self, key: &TaskKey) -> (r: u64)
        requires
            self.rep_ok(),
        ensures
            r == offset_of(self@, key@),
    {
        match self.find_offset(key) {
            Some(i) => self.offsets[i].1,
            None => 0,
        }
    }

    /// Records that `key` has reached `value`.
    fn set_offset(&mut self, key: &TaskKey, value: u64)
        requires
            old(self).rep_ok(),
        ensures
            final(self).rep_ok(),
            final(self)@ == (SchedulerModel { offsets: old(self)@.offsets.insert(key@, value), ..old(self)@ }),
    {
        match self.find_offset(key) {
            Some(i) => {
                proof {
                    assert(offset_pairs(self.offsets@.update(i as int, (self.offsets@[i as int].0, value)))
                        =~= offset_pairs(self.offsets@).update(i as int, (offset_pairs(self.offsets@)[i as int].0, value)));
                    lemma_assoc_update(offset_pairs(self.offsets@), i as int, value);
                }
                let k = self.offsets[i].0.copy();
                self.offsets.set(i, (k, value));
                assert(offset_pairs(self.offsets@) =~= offset_pairs(old(self).offsets@).update(i as int, (offset_pairs(old(self).offsets@)[i as int].0, value)));
            },
            None => {
                proof {
                    lemma_assoc_push(offset_pairs(self.offsets@), key@, value);
                }
                self.offsets.push((key.copy(), value));
                assert(offset_pairs(self.offsets@) =~= offset_pairs(old(self).offsets@).push((key@, value)));
            },
        }
    }

    /// Forgets the offset of `key`.
    fn drop_offset(&mut self, key: &TaskKey)
        requires
            old(self).rep_ok(),
        ensures
            final(self).rep_ok(),
            final(self)@ == (SchedulerModel { offsets: old(self)@.offsets.remove(key@), ..old(self)@ }),
    {
        match self.find_offset(key) {
            Some(i) => {
                proof {
                    lemma_assoc_remove(offset_pairs(self.offsets@), i as int);
                }
                self.offsets.remove(i);
                assert(offset_pairs(self.offsets@) =~= offset_pairs(old(self).offsets@).remove(i as int));
            },
            None => {
                assert(old(self)@.offsets.remove(key@) =~= old(self)@.offsets);
            },
        }
    }

    /// Indexes task `id` under `key`.
    fn index_insert(&mut self, id: TaskId, key: &TaskKey)
        requires
            old(self).rep_ok(),
        ensures
            final(self).rep_ok(),
            final(self)@ == (SchedulerModel { task_index: old(self)@.task_index.insert(id, key@), ..old(self)@ }),
    {
        match self.find_index_entry(id) {
            Some(i) => {
                proof {
                    lemma_assoc_update(index_pairs(self.task_index@), i as int, key@);
                }
                self.task_index.set(i, (id, key.copy()));
                assert(index_pairs(self.task_index@) =~= index_pairs(old(self).task_index@).update(i as int, (id, key@)));
            },
            None => {
                proof {
                    lemma_assoc_push(index_pairs(self.task_index@), id, key@);
                }
                self.task_index.push((id, key.copy()));
                assert(index_pairs(self.task_index@) =~= index_pairs(old(self).task_index@).push((id, key@)));
            },
        }
    }

    /// Removes task `id` from the index.
    fn index_remove(&mut self, id: TaskId)
        requires
            old(self).rep_ok(),
        ensures
            final(self).rep_ok(),
            final(self)@ == (SchedulerModel { task_index: old(self)@.task_index.remove(id), ..old(self)@ }),
    {
        match self.find_index_entry(id) {
            Some(i) => {
                proof {
                    lemma_assoc_remove(index_pairs(self.task_index@), i as int);
                }
                self.task_index.remove(i);
                assert(index_pairs(self.task_index@) =~= index_pairs(old(self).task_index@).remove(i as int));
            },
            None => {
                assert(old(self)@.task_index.remove(id) =~= old(self)@.task_index);
            },
        }
    }

    /// Adds a group led by `t`, whose key has no group yet.
    fn add_group(&mut self, t: InnerTask)
        requires
            old(self).rep_ok(),
            model_wf(old(self)@) ==> old(self)@.group_order.no_duplicates(),
            !old(self)@.groups.dom().contains(key_of(t)),
        ensures
            final(self).rep_ok(),
            final(self)@ == (SchedulerModel {
                groups: old(self)@.groups.insert(key_of(t), t),
                group_order: old(self)@.group_order.push(key_of(t)),
                ..old(self)@
            }),
    {
        proof {
            lemma_assoc_push(group_pairs(self.groups@), key_of(t), t);
        }
        self.groups.push(t);
        assert(group_pairs(self.groups@) =~= group_pairs(old(self).groups@).push((key_of(t), t)));
        assert(assoc_keys(group_pairs(self.groups@)) =~= assoc_keys(group_pairs(old(self).groups@)).push(key_of(t)));
    }

    /// Removes the group at position `i` and gives back its leader.
    fn take_group(&mut self, i: usize) -> (t: InnerTask)
        requires
            old(self).rep_ok(),
            i < old(self).groups@.len(),
        ensures
            final(self).rep_ok(),
            t == old(self).groups@[i as int],
            final(self)@ == (SchedulerModel {
                groups: old(self)@.groups.remove(key_of(t)),
                group_order: old(self)@.group_order.remove(i as int),
                ..old(self)@
            }),
            old(self)@.group_order[i as int] == key_of(t),
    {
        proof {
            lemma_assoc_remove(group_pairs(self.groups@), i as int);
        }
        let t = self.groups.remove(i);
        assert(group_pairs(self.groups@) =~= group_pairs(old(self).groups@).remove(i as int));
        assert(assoc_keys(group_pairs(self.groups@)) =~= assoc_keys(group_pairs(old(self).groups@)).remove(i as int));
        t
    }

    /// Pauses group `key`: it leaves the queue and is marked paused; a running transfer is
    /// signalled to stop but keeps its slot until it reports back.
    pub fn pause_group(&mut self, key: &TaskKey, out: &mut Vec<SchedulerAction>)
        requires
            old(self).wf(),
            old(self)@.groups.dom().contains(key@),
        ensures
            final(self).wf(),
            final(self)@ == pause_model(old(self)@, key@),
            actions_view(final(out)@) == actions_view(old(out)@) + pause_actions(old(self)@, key@),
    {
        let ghost m = self@;
        let ghost out0 = actions_view(out@);
        if list_contains(&self.active, key) {
            push_action(out, SchedulerAction::CancelRun { key: key.copy() });
        }
        assert(actions_view(out@) == out0 + (if m.active.contains(key@) { seq![ActionView::CancelRun { key: key@ }] } else { Seq::<ActionView>::empty() }));
        self.queued = list_without(&self.queued, key);
        if !list_contains(&self.paused, key) {
            self.paused.push(key.copy());
            assert(keys_view(self.paused@) =~= keys_view(old(self).paused@).push(key@));
        }
        let ghost out1 = actions_view(out@);
        match self.find_group(key) {
            Some(i) => {
                let current = self.offset_for(key);
                let total = self.groups[i].total_size;
                let listener = self.groups[i].task_id;
                push_notify(out, listener, &self.groups[i], TransferStatus::Paused, current, total);
            },
            None => {},
        }
        proof {
            assert(actions_view(out@) =~= out0 + pause_actions(m, key@));
            lemma_filter_out(m.queued, key@);
            assert(self@ =~= pause_model(m, key@));
            assert(model_wf(self@)) by {
                assert forall|k: KeyView| #[trigger] self@.paused.contains(k) implies
                    self@.groups.dom().contains(k) && !self@.queued.contains(k) by {
                    if k != key@ {
                        if !m.paused.contains(key@) {
                            let j = choose|j: int| 0 <= j < self@.paused.len() && self@.paused[j] == k;
                            assert(m.paused[j] == k);
                        }
                        assert(m.paused.contains(k));
                    }
                }
                if !m.paused.contains(key@) {
                    assert forall|a: int, b: int| 0 <= a < self@.paused.len() && 0 <= b < self@.paused.len() && a != b
                        implies self@.paused[a] != self@.paused[b] by {
                        if a == m.paused.len() as int {
                            assert(m.paused.contains(self@.paused[b]));
                        } else if b == m.paused.len() as int {
                            assert(m.paused.contains(self@.paused[a]));
                        }
                    }
                }
            }
        }
    }

    /// Resumes group `key`: it must be paused and its transfer must have stopped; it is
    /// unmarked, announced as pending and queued again.
    pub fn resume_group(&mut self, key: &TaskKey, out: &mut Vec<SchedulerAction>) -> (r: Result<(), MeowError>)
        requires
            old(self).wf(),
        ensures
            final(self).wf(),
            ({
                let (res, m2, acts) = resume_spec(old(self)@, key@);
                &&& final(self)@ == m2
                &&& actions_view(final(out)@) == actions_view(old(out)@) + acts
                &&& match (r, res) {
                    (Ok(_), Ok(_)) => true,
                    (Err(e), Err(ev)) => e@ == ev,
                    _ => false,
                }
            }),
    {
        let ghost m = self@;
        proof {
            reveal_strlit("resume target is not paused");
            reveal_strlit("resume target is still stopping, retry later");
            reveal_strlit("resume target group missing");
        }
        if !list_contains(&self.paused, key) {
            assert(actions_view(out@) =~= actions_view(old(out)@) + Seq::<ActionView>::empty());
            return Err(MeowError::from_code_str(InnerErrorCode::InvalidTaskState, "resume target is not paused"));
        }
        if list_contains(&self.active, key) {
            assert(actions_view(out@) =~= actions_view(old(out)@) + Seq::<ActionView>::empty());
            return Err(MeowError::from_code_str(InnerErrorCode::InvalidTaskState, "resume target is still stopping, retry later"));
        }
        self.paused = list_without(&self.paused, key);
        proof {
            lemma_filter_out(m.paused, key@);
        }
        match self.find_group(key) {
            None => {
                assert(actions_view(out@) =~= actions_view(old(out)@) + Seq::<ActionView>::empty());
                assert(self@ =~= resume_spec(m, key@).1);
                return Err(MeowError::from_code_str(InnerErrorCode::InvalidTaskState, "resume target group missing"));
            },
            Some(i) => {
                let current = self.offset_for(key);
                let total = self.groups[i].total_size;
                let listener = self.groups[i].task_id;
                push_notify(out, listener, &self.groups[i], TransferStatus::Pending, current, total);
            },
        }
        if !list_contains(&self.active, key) && !list_contains(&self.queued, key) {
            self.queued.push(key.copy());
            assert(keys_view(self.queued@) =~= keys_view(old(self).queued@).push(key@));
        }
        proof {
            assert(actions_view(out@) =~= actions_view(old(out)@) + resume_spec(m, key@).2);
            assert(self@ =~= resume_spec(m, key@).1);
            assert(model_wf(self@)) by {
                assert forall|k: KeyView| #[trigger] self@.paused.contains(k) implies
                    self@.groups.dom().contains(k) && !self@.queued.contains(k) by {
                    assert(m.paused.contains(k) && k != key@);
                    if self@.queued.contains(k) && !m.queued.contains(key@) {
                        let j = choose|j: int| 0 <= j < self@.queued.len() && self@.queued[j] == k;
                        if j < m.queued.len() { assert(m.queued[j] == k); }
                    }
                }
                if !m.queued.contains(key@) {
                    assert forall|a: int, b: int| 0 <= a < self@.queued.len() && 0 <= b < self@.queued.len() && a != b
                        implies self@.queued[a] != self@.queued[b] by {
                        if a == m.queued.len() as int {
                            assert(m.queued.contains(self@.queued[b]));
                        } else if b == m.queued.len() as int {
                            assert(m.queued.contains(self@.queued[a]));
                        }
                    }
                    assert forall|k: KeyView| self@.queued.contains(k) implies !self@.active.contains(k) by {
                        if k != key@ {
                            let j = choose|j: int| 0 <= j < self@.queued.len() && self@.queued[j] == k;
                            assert(m.queued[j] == k);
                        }
                    }
                }
            }
        }
        Ok(())
    }

    /// Cancels group `key`: a running transfer is stopped and forgotten, the key leaves the
    /// queue and the paused list, and the group with its index entry is removed.
    pub fn cancel_group(&mut self, key: &TaskKey, out: &mut Vec<SchedulerAction>)
        requires
            old(self).wf(),
        ensures
            final(self).wf(),
            final(self)@ == cancel_model(old(self)@, key@),
            actions_view(final(out)@) == actions_view(old(out)@) + cancel_actions(old(self)@, key@),
    {
        let ghost m = self@;
        let ghost out0 = actions_view(out@);
        if list_contains(&self.active, key) {
            self.active = list_without(&self.active, key);
            push_action(out, SchedulerAction::CancelRun { key: key.copy() });
            push_action(out, SchedulerAction::ForgetRun { key: key.copy() });
        } else {
            proof { lemma_filter_out(m.active, key@); }
            self.active = list_without(&self.active, key);
        }
        self.queued = list_without(&self.queued, key);
        self.paused = list_without(&self.paused, key);
        let ghost mid = self@;
        match self.find_group(key) {
            Some(i) => {
                let current = self.offset_for(key);
                let t = self.take_group(i);
                self.index_remove(t.task_id);
                let total = t.total_size;
                let id = t.task_id;
                push_notify(out, id, &t, TransferStatus::Canceled, current, total);
                push_action(out, SchedulerAction::Release { task_id: id });
                proof {
                    lemma_remove_is_filter(m.group_order, i as int);
                }
            },
            None => {},
        }
        proof {
            lemma_filter_out(m.active, key@);
            lemma_filter_out(m.queued, key@);
            lemma_filter_out(m.paused, key@);
            lemma_filter_out(m.group_order, key@);
            lemma_count_filter(m.active, key@, Direction::Upload);
            lemma_count_filter(m.active, key@, Direction::Download);
            assert(actions_view(out@) =~= out0 + cancel_actions(m, key@));
            assert(self@ =~= cancel_model(m, key@));
            let n = self@;
            lemma_unpause_keeps_paused_wf(m, n, key@);
            if m.groups.dom().contains(key@) {
                lemma_drop_group_sound(m, n, key@);
            }
            assert forall|k: KeyView| n.active.contains(k) implies n.groups.dom().contains(k) by {
                assert(m.active.contains(k) && k != key@);
            }
            assert forall|k: KeyView| n.group_order.contains(k) <==> n.groups.dom().contains(k) by {
                if m.groups.dom().contains(key@) {
                    assert(n.group_order.contains(k) <==> (m.group_order.contains(k) && k != key@));
                } else {
                    assert(!m.group_order.contains(key@));
                }
            }
            assert forall|k: KeyView| n.queued.contains(k) implies !n.active.contains(k) by {
                assert(m.queued.contains(k));
            }
        }
    }

    /// One round over the queue: see [`schedule_pass`].
    fn schedule_round(&mut self, out: &mut Vec<SchedulerAction>, started: &mut Vec<TaskKey>) -> (any: bool)
        requires
            old(self).wf(),
        ensures
            final(self).wf(),
            final(self)@ == start_model(old(self)@),
            keys_view(final(started)@) == keys_view(old(started)@) + started_keys(old(self)@),
            actions_view(final(out)@) == actions_view(old(out)@) + start_actions(old(self)@, started_keys(old(self)@)),
            any == (started_keys(old(self)@).len() > 0),
            saturated(final(self)@),
    {
        let ghost m = self@;
        let ghost out0 = actions_view(out@);
        let ghost st0 = keys_view(started@);
        let mut pending: Vec<TaskKey> = Vec::new();
        std::mem::swap(&mut pending, &mut self.queued);
        let ghost q = keys_view(pending@);
        assert(q == m.queued);
        let mut any = false;
        let mut i: usize = 0;
        let ghost mut st: Seq<KeyView> = Seq::empty();
        proof {
            assert(q.skip(0) =~= q);
            assert(keys_view(self.queued@) =~= Seq::<KeyView>::empty());
            assert(Seq::<KeyView>::empty() + schedule_pass(m, m.active, q).1 =~= schedule_pass(m, m.active, q).1);
            assert(Seq::<KeyView>::empty() + schedule_pass(m, m.active, q).2 =~= schedule_pass(m, m.active, q).2);
            assert(start_actions(m, Seq::<KeyView>::empty()) =~= Seq::<ActionView>::empty());
        }
        while i < pending.len()
            invariant
                i <= pending@.len(),
                q == keys_view(pending@),
                self.rep_ok(),
                self@ == (SchedulerModel { active: self@.active, queued: self@.queued, ..m }),
                schedule_pass(m, m.active, q) == ({
                    let r = schedule_pass(m, self@.active, q.skip(i as int));
                    (r.0, self@.queued + r.1, st + r.2)
                }),
                keys_view(started@) == st0 + st,
                actions_view(out@) == out0 + start_actions(m, st),
                any == (st.len() > 0),
            decreases pending@.len() - i,
        {
            let ghost before = self@;
            let ghost k = q[i as int];
            assert(q.skip(i as int)[0] == k);
            assert(q.skip(i as int).drop_first() =~= q.skip(i + 1));
            let key = &pending[i];
            if list_contains(&self.active, key) {
                i = i + 1;
                continue;
            }
            let gi = match self.find_group(key) {
                Some(gi) => gi,
                None => {
                    i = i + 1;
                    continue;
                },
            };
            let d = key.direction;
            let limit = match d {
                Direction::Upload => self.max_upload_concurrency,
                Direction::Download => self.max_download_concurrency,
            };
            if self.count_active(d) >= limit {
                self.queued.push(key.copy());
                proof {
                    assert(keys_view(self.queued@) =~= before.queued.push(k));
                    let r = schedule_pass(m, before.active, q.skip(i + 1));
                    assert(before.queued.push(k) + r.1 =~= before.queued + (seq![k] + r.1));
                }
                i = i + 1;
                continue;
            }
            let current = self.offset_for(key);
            let total = self.groups[gi].total_size;
            let leader = self.groups[gi].task_id;
            push_notify(out, leader, &self.groups[gi], TransferStatus::Transmission, current, total);
            push_action(out, SchedulerAction::StartRun { key: key.copy(), leader, start_offset: current });
            self.active.push(key.copy());
            let ghost sv = keys_view(started@);
            started.push(key.copy());
            assert(keys_view(started@) =~= sv.push(k));
            any = true;
            proof {
                assert(keys_view(self.active@) =~= before.active.push(k));
                assert(keys_view(started@) =~= st0 + st.push(k));
                assert(st.push(k).drop_last() =~= st);
                assert(m.groups[k] == self.groups@[gi as int]);
                assert(offset_of(m, k) == current);
                let r = schedule_pass(m, before.active.push(k), q.skip(i + 1));
                assert(st + (seq![k] + r.2) =~= st.push(k) + r.2);
                st = st.push(k);
                assert(actions_view(out@) =~= out0 + start_actions(m, st));
            }
            i = i + 1;
        }
        proof {
            assert(q.skip(i as int) =~= Seq::<KeyView>::empty());
            assert(self@.queued + Seq::<KeyView>::empty() =~= self@.queued);
            assert(st + Seq::<KeyView>::empty() =~= st);
            lemma_pass(m, m.active, m.queued);
            assert(self@ =~= start_model(m));
        }
        any
    }

    /// Starts what can start: one pass over the queue that starts each key whose direction
    /// has a free slot, keeping the others in order (see [`schedule_pass`]). Gives back the
    /// keys started.
    pub fn try_start_next(&mut self, out: &mut Vec<SchedulerAction>) -> (started: Vec<TaskKey>)
        requires
            old(self).wf(),
        ensures
            final(self).wf(),
            final(self)@ == start_model(old(self)@),
            keys_view(started@) == started_keys(old(self)@),
            actions_view(final(out)@) == actions_view(old(out)@) + start_actions(old(self)@, started_keys(old(self)@)),
            saturated(final(self)@),
    {
        let ghost m = self@;
        let ghost out0 = actions_view(out@);
        let mut started: Vec<TaskKey> = Vec::new();
        let ghost mut rounds: int = 0;
        proof {
            assert(keys_view(started@) =~= Seq::<KeyView>::empty());
            assert(out0 + Seq::<ActionView>::empty() =~= out0);
            if m.queued.len() == 0 {
                assert(schedule_pass(m, m.active, m.queued) == (m.active, Seq::<KeyView>::empty(), Seq::<KeyView>::empty()));
                assert(m.queued =~= Seq::<KeyView>::empty());
                assert(start_model(m) =~= m);
            }
        }
        loop
            invariant_except_break
                self.wf(),
                0 <= rounds <= 1,
                rounds == 0 ==> self@ == m && keys_view(started@) == Seq::<KeyView>::empty()
                    && actions_view(out@) == out0,
                rounds == 1 ==> self@ == start_model(m) && keys_view(started@) == started_keys(m)
                    && actions_view(out@) == out0 + start_actions(m, started_keys(m)) && saturated(self@),
            ensures
                self.wf(),
                self@ == start_model(m),
                keys_view(started@) == started_keys(m),
                actions_view(out@) == out0 + start_actions(m, started_keys(m)),
                saturated(self@),
            decreases 1 - rounds,
        {
            if self.queued.len() == 0 {
                proof {
                    if rounds == 0 {
                        assert(m.queued =~= Seq::<KeyView>::empty());
                        assert(start_model(m) =~= m);
                        assert(start_actions(m, Seq::<KeyView>::empty()) =~= Seq::<ActionView>::empty());
                        assert(out0 + Seq::<ActionView>::empty() =~= out0);
                    }
                }
                break;
            }
            let ghost before = self@;
            let any = self.schedule_round(out, &mut started);
            proof {
                if rounds == 1 {
                    lemma_pass_idle(before, before.active, before.queued);
                    assert(started_keys(before) =~= Seq::<KeyView>::empty());
                    assert(start_model(before) =~= before);
                    assert(start_actions(before, Seq::<KeyView>::empty()) =~= Seq::<ActionView>::empty());
                    assert(keys_view(started@) =~= started_keys(m));
                    assert(actions_view(out@) =~= out0 + start_actions(m, started_keys(m)));
                } else {
                    assert(keys_view(started@) =~= started_keys(m));
                }
            }
            if !any {
                break;
            }
            proof { rounds = 1; }
        }
        started
    }

    /// Submits task `t`: a duplicate of an existing group's key is refused (reported to
    /// the new task's listener and released); otherwise the task leads a new group, is
    /// announced as pending and queued, and whatever can start starts.
    pub fn enqueue(&mut self, t: InnerTask, out: &mut Vec<SchedulerAction>)
        requires
            old(self).wf(),
        ensures
            final(self).wf(),
            final(self)@ == enqueue_model(old(self)@, t),
            actions_view(final(out)@) == actions_view(old(out)@) + enqueue_actions(old(self)@, t),
            !old(self)@.groups.dom().contains(key_of(t)) ==> saturated(final(self)@),
    {
        let ghost m = self@;
        let ghost out0 = actions_view(out@);
        let key = t.dedupe_key();
        match self.find_group(&key) {
            Some(i) => {
                let total = self.groups[i].total_size;
                push_notify(out, t.task_id, &self.groups[i],
                    TransferStatus::Failed(MeowError::from_code1(InnerErrorCode::DuplicateTaskError)), 0, total);
                push_action(out, SchedulerAction::Release { task_id: t.task_id });
                assert(actions_view(out@) =~= out0 + enqueue_actions(m, t));
                return;
            },
            None => {},
        }
        self.index_insert(t.task_id, &key);
        let should_send_running = list_contains(&self.active, &key);
        let current = self.offset_for(&key);
        let id = t.task_id;
        let total = t.total_size;
        push_notify(out, id, &t, TransferStatus::Pending, current, total);
        if should_send_running {
            push_notify(out, id, &t, TransferStatus::Transmission, current, total);
        }
        let ghost out1 = actions_view(out@);
        self.add_group(t);
        if !list_contains(&self.active, &key) && !list_contains(&self.queued, &key) {
            self.queued.push(key.copy());
            assert(keys_view(self.queued@) =~= m.queued.push(key@));
        }
        proof {
            let m1 = admit_model(m, t);
            assert(self@ =~= m1);
            assert(model_wf(m1)) by {
                assert forall|k: KeyView| #[trigger] m1.active.contains(k) implies m1.groups.dom().contains(k) by {
                    assert(m.groups.dom().contains(k));
                }
                assert forall|a: int, b: int| 0 <= a < m1.group_order.len() && 0 <= b < m1.group_order.len() && a != b
                    implies m1.group_order[a] != m1.group_order[b] by {
                    if a == m.group_order.len() as int { assert(m.group_order.contains(m1.group_order[b])); }
                    else if b == m.group_order.len() as int { assert(m.group_order.contains(m1.group_order[a])); }
                }
                assert forall|k: KeyView| #[trigger] m1.group_order.contains(k) <==> m1.groups.dom().contains(k) by {
                    if m1.group_order.contains(k) && k != key@ {
                        let j = choose|j: int| 0 <= j < m1.group_order.len() && m1.group_order[j] == k;
                        assert(m.group_order[j] == k);
                        assert(m.group_order.contains(k));
                    }
                    if k == key@ { assert(m1.group_order[m.group_order.len() as int] == k); }
                    if m1.groups.dom().contains(k) && k != key@ {
                        assert(m.groups.dom().contains(k));
                        assert(m.group_order.contains(k));
                        let j = choose|j: int| 0 <= j < m.group_order.len() && m.group_order[j] == k;
                        assert(m1.group_order[j] == k);
                    }
                }
                if !m.active.contains(key@) && !m.queued.contains(key@) {
                    assert forall|a: int, b: int| 0 <= a < m1.queued.len() && 0 <= b < m1.queued.len() && a != b
                        implies m1.queued[a] != m1.queued[b] by {
                        if a == m.queued.len() as int { assert(m.queued.contains(m1.queued[b])); }
                        else if b == m.queued.len() as int { assert(m.queued.contains(m1.queued[a])); }
                    }
                    assert forall|k: KeyView| #[trigger] m1.queued.contains(k) implies !m1.active.contains(k) by {
                        if k != key@ {
                            let j = choose|j: int| 0 <= j < m1.queued.len() && m1.queued[j] == k;
                            assert(m.queued[j] == k);
                        }
                    }
                }
            }
        }
        self.try_start_next(out);
        proof {
            assert(actions_view(out@) =~= out0 + enqueue_actions(m, t));
        }
    }

    /// Removes the group of `key`, if any, with its leader's index entry; reports `status`
    /// to its listeners with the given counts (the key's offset and the leader's size when
    /// `counts` is `None`) and releases the leader.
    fn end_group(&mut self, key: &TaskKey, status: TransferStatus, counts: Option<u64>, out: &mut Vec<SchedulerAction>)
        requires
            old(self).wf(),
        ensures
            final(self).rep_ok(),
            final(self)@ == (if old(self)@.groups.dom().contains(key@) {
                SchedulerModel {
                    groups: old(self)@.groups.remove(key@),
                    group_order: old(self)@.group_order.filter(other_than(key@)),
                    task_index: old(self)@.task_index.remove(old(self)@.groups[key@].task_id),
                    ..old(self)@
                }
            } else {
                old(self)@
            }),
            actions_view(final(out)@) == actions_view(old(out)@) + (match counts {
                Some(n) => end_actions(old(self)@, key@, status@, n, n),
                None => end_actions(old(self)@, key@, status@, offset_of(old(self)@, key@),
                    old(self)@.groups[key@].total_size),
            }),
    {
        let ghost m = self@;
        match self.find_group(key) {
            Some(i) => {
                let current = self.offset_for(key);
                let t = self.take_group(i);
                self.index_remove(t.task_id);
                let (done, total) = match counts {
                    Some(n) => (n, n),
                    None => (current, t.total_size),
                };
                let id = t.task_id;
                push_notify(out, id, &t, status, done, total);
                push_action(out, SchedulerAction::Release { task_id: id });
                proof {
                    lemma_remove_is_filter(m.group_order, i as int);
                }
            },
            None => {
                assert(actions_view(out@) =~= actions_view(old(out)@) + Seq::<ActionView>::empty());
            },
        }
        proof {
            assert(actions_view(out@) =~= actions_view(old(out)@) + (match counts {
                Some(n) => end_actions(m, key@, status@, n, n),
                None => end_actions(m, key@, status@, offset_of(m, key@), m.groups[key@].total_size),
            }));
        }
    }

    /// Handles what a transfer reported (see [`event_model`] and [`event_actions`]).
    pub fn handle_worker_event(&mut self, ev: WorkerEvent, out: &mut Vec<SchedulerAction>)
        requires
            old(self).wf(),
        ensures
            final(self).wf(),
            final(self)@ == event_model(old(self)@, ev),
            actions_view(final(out)@) == actions_view(old(out)@) + event_actions(old(self)@, ev),
    {
        let ghost m = self@;
        let ghost out0 = actions_view(out@);
        let ghost ev0 = ev;
        match ev {
            WorkerEvent::Progress { key, next_offset, total_size } => {
                self.set_offset(&key, next_offset);
                match self.find_group(&key) {
                    Some(i) => {
                        let listener = self.groups[i].task_id;
                        push_notify(out, listener, &self.groups[i], TransferStatus::Transmission, next_offset, total_size);
                    },
                    None => {},
                }
                assert(actions_view(out@) =~= out0 + event_actions(m, ev0));
            },
            WorkerEvent::Completed { key, total_size } => {
                self.active = list_without(&self.active, &key);
                push_action(out, SchedulerAction::ForgetRun { key: key.copy() });
                self.paused = list_without(&self.paused, &key);
                proof { self.lemma_end_prefix_wf(m, key@); }
                self.end_group(&key, TransferStatus::Complete, Some(total_size), out);
                self.drop_offset(&key);
                proof {
                    self.lemma_end_wf(m, key@);
                    assert(actions_view(out@) =~= out0 + event_actions(m, ev0));
                }
            },
            WorkerEvent::Failed { key, error } => {
                self.active = list_without(&self.active, &key);
                push_action(out, SchedulerAction::ForgetRun { key: key.copy() });
                self.paused = list_without(&self.paused, &key);
                proof { self.lemma_end_prefix_wf(m, key@); }
                self.end_group(&key, TransferStatus::Failed(error), None, out);
                self.drop_offset(&key);
                proof {
                    self.lemma_end_wf(m, key@);
                    assert(actions_view(out@) =~= out0 + event_actions(m, ev0));
                }
            },
            WorkerEvent::Canceled { key } => {
                self.active = list_without(&self.active, &key);
                push_action(out, SchedulerAction::ForgetRun { key: key.copy() });
                if list_contains(&self.paused, &key) {
                    proof {
                        lemma_filter_out(m.active, key@);
                        lemma_count_filter(m.active, key@, Direction::Upload);
                        lemma_count_filter(m.active, key@, Direction::Download);
                        assert forall|k: KeyView| #[trigger] self@.queued.contains(k) implies !self@.active.contains(k) by {
                            assert(m.queued.contains(k));
                        }
                        assert forall|k: KeyView| #[trigger] self@.active.contains(k) implies self@.groups.dom().contains(k) by {
                            assert(m.active.contains(k));
                        }
                        assert forall|k: KeyView| #[trigger] self@.group_order.contains(k) <==> self@.groups.dom().contains(k) by {
                            assert(m.group_order.contains(k) <==> m.groups.dom().contains(k));
                        }
                        assert(self@ =~= event_model(m, ev0));
                        assert(actions_view(out@) =~= out0 + event_actions(m, ev0));
                    }
                    return;
                }
                self.paused = list_without(&self.paused, &key);
                proof {
                    lemma_filter_out(m.paused, key@);
                    assert(m.paused.filter(other_than(key@)) == m.paused);
                    self.lemma_end_prefix_wf(m, key@);
                }
                self.end_group(&key, TransferStatus::Canceled, None, out);
                self.drop_offset(&key);
                proof {
                    self.lemma_end_wf(m, key@);
                    assert(actions_view(out@) =~= out0 + event_actions(m, ev0));
                }
            },
        }
    }

    /// After the key left the running and paused lists, the state is well-formed.
    proof fn lemma_end_prefix_wf(&self, m: SchedulerModel, k: KeyView)
        requires
            model_wf(m),
            self.rep_ok(),
            self@ == (SchedulerModel { active: m.active.filter(other_than(k)), paused: m.paused.filter(other_than(k)), ..m }),
        ensures
            self.wf(),
    {
        lemma_unpause_keeps_paused_wf(m, self@, k);
        lemma_filter_out(m.active, k);
        lemma_filter_out(m.paused, k);
        lemma_count_filter(m.active, k, Direction::Upload);
        lemma_count_filter(m.active, k, Direction::Download);
        assert forall|x: KeyView| #[trigger] self@.queued.contains(x) implies !self@.active.contains(x) by {
            assert(m.queued.contains(x));
        }
        assert forall|x: KeyView| #[trigger] self@.active.contains(x) implies self@.groups.dom().contains(x) by {
            assert(m.active.contains(x));
        }
        assert forall|x: KeyView| #[trigger] self@.group_order.contains(x) <==> self@.groups.dom().contains(x) by {
            assert(m.group_order.contains(x) <==> m.groups.dom().contains(x));
        }
    }

    /// After a group ended, the state is the end model and is well-formed.
    proof fn lemma_end_wf(&self, m: SchedulerModel, k: KeyView)
        requires
            model_wf(m),
            self.rep_ok(),
            ({
                let base = SchedulerModel { active: m.active.filter(other_than(k)), paused: m.paused.filter(other_than(k)), ..m };
                let ended = if base.groups.dom().contains(k) {
                    SchedulerModel {
                        groups: base.groups.remove(k),
                        group_order: base.group_order.filter(other_than(k)),
                        task_index: base.task_index.remove(base.groups[k].task_id),
                        ..base
                    }
                } else {
                    base
                };
                self@ == (SchedulerModel { offsets: ended.offsets.remove(k), ..ended })
            }),
        ensures
            self.wf(),
            self@ == end_model(m, k),
    {
        lemma_filter_out(m.active, k);
        lemma_filter_out(m.paused, k);
        lemma_filter_out(m.group_order, k);
        lemma_count_filter(m.active, k, Direction::Upload);
        lemma_count_filter(m.active, k, Direction::Download);
        let n = self@;
        assert(n =~= end_model(m, k));
        lemma_unpause_keeps_paused_wf(m, n, k);
        if m.groups.dom().contains(k) {
            lemma_drop_group_sound(m, n, k);
        }
        assert forall|x: KeyView| #[trigger] n.queued.contains(x) implies !n.active.contains(x) by {
            assert(m.queued.contains(x));
        }
        assert forall|x: KeyView| #[trigger] n.active.contains(x) implies n.groups.dom().contains(x) by {
            assert(m.active.contains(x) && x != k);
        }
        assert forall|x: KeyView| #[trigger] n.group_order.contains(x) <==> n.groups.dom().contains(x) by {
            assert(m.group_order.contains(x) <==> m.groups.dom().contains(x));
            if m.groups.dom().contains(k) {
                assert(n.group_order.contains(x) <==> (m.group_order.contains(x) && x != k));
            } else {
                assert(n.group_order == m.group_order);
                assert(n.groups == m.groups);
            }
        }
    }

    /// Handles what a transfer reported, then starts whatever can start.
    pub fn on_worker_event(&mut self, ev: WorkerEvent, out: &mut Vec<SchedulerAction>)
        requires
            old(self).wf(),
        ensures
            final(self).wf(),
            final(self)@ == start_model(event_model(old(self)@, ev)),
            actions_view(final(out)@) == actions_view(old(out)@) + event_actions(old(self)@, ev)
                + start_actions(event_model(old(self)@, ev), started_keys(event_model(old(self)@, ev))),
            saturated(final(self)@),
    {
        let ghost m = self@;
        let ghost out0 = actions_view(out@);
        let ghost ev0 = ev;
        self.handle_worker_event(ev, out);
        self.try_start_next(out);
        assert(actions_view(out@) =~= out0 + event_actions(m, ev0)
            + start_actions(event_model(m, ev0), started_keys(event_model(m, ev0))));
    }

    /// The numbers of waiting and running groups and the keys of the running ones.
    pub fn snapshot(&self) -> (s: TransferSnapshot)
        requires
            self.wf(),
        ensures
            s.queued_groups == self@.queued.len(),
            s.active_groups == self@.active.len(),
            s.active_keys@.map_values(|p: (Direction, String)| (p.0, p.1@)) == self@.active,
    {
        let mut keys: Vec<(Direction, String)> = Vec::new();
        let mut i: usize = 0;
        while i < self.active.len()
            invariant
                i <= self.active@.len(),
                keys@.map_values(|p: (Direction, String)| (p.0, p.1@)) == keys_view(self.active@).take(i as int),
            decreases self.active@.len() - i,
        {
            let ghost before = keys@;
            let pair = self.active[i].to_pair();
            keys.push(pair);
            assert(keys@ == before.push(pair));
            assert(keys_view(self.active@).take(i + 1) =~= keys_view(self.active@).take(i as int).push(self.active@[i as int]@));
            assert((pair.0, pair.1@) == self.active@[i as int]@);
            assert(keys@.map_values(|p: (Direction, String)| (p.0, p.1@)) =~= keys_view(self.active@).take(i + 1));
            i = i + 1;
        }
        assert(keys_view(self.active@).take(self.active@.len() as int) =~= keys_view(self.active@));
        TransferSnapshot { queued_groups: self.queued.len(), active_groups: self.active.len(), active_keys: keys }
    }

    /// Stops every running transfer, reports every group as paused, and empties the
    /// scheduler.
    pub fn close(&mut self, out: &mut Vec<SchedulerAction>)
        requires
            old(self).wf(),
        ensures
            final(self).wf(),
            final(self)@ == closed_model(old(self)@),
            actions_view(final(out)@) == actions_view(old(out)@) + close_actions(old(self)@),
    {
        let ghost m = self@;
        let ghost out0 = actions_view(out@);
        let mut i: usize = 0;
        while i < self.active.len()
            invariant
                i <= self.active@.len(),
                self@ == m,
                actions_view(out@) == out0 + m.active.take(i as int).map_values(|k: KeyView| ActionView::CancelRun { key: k }),
            decreases self.active@.len() - i,
        {
            push_action(out, SchedulerAction::CancelRun { key: self.active[i].copy() });
            assert(m.active.take(i + 1).map_values(|k: KeyView| ActionView::CancelRun { key: k })
                =~= m.active.take(i as int).map_values(|k: KeyView| ActionView::CancelRun { key: k }).push(ActionView::CancelRun { key: m.active[i as int] }));
            i = i + 1;
        }
        assert(m.active.take(m.active.len() as int) =~= m.active);
        let ghost out1 = actions_view(out@);
        let mut j: usize = 0;
        while j < self.groups.len()
            invariant
                j <= self.groups@.len(),
                self@ == m,
                self.wf(),
                actions_view(out@) == out1 + m.group_order.take(j as int).map_values(
                    |k: KeyView| group_notify(m, k, StatusView::Paused, offset_of(m, k), m.groups[k].total_size)),
            decreases self.groups@.len() - j,
        {
            let key = self.groups[j].dedupe_key();
            let current = self.offset_for(&key);
            let total = self.groups[j].total_size;
            let listener = self.groups[j].task_id;
            proof {
                assert(group_pairs(self.groups@)[j as int] == (key_of(self.groups@[j as int]), self.groups@[j as int]));
                lemma_assoc_index(group_pairs(self.groups@), j as int);
                assert(m.group_order[j as int] == key@);
            }
            push_notify(out, listener, &self.groups[j], TransferStatus::Paused, current, total);
            assert(m.group_order.take(j + 1).map_values(
                    |k: KeyView| group_notify(m, k, StatusView::Paused, offset_of(m, k), m.groups[k].total_size))
                =~= m.group_order.take(j as int).map_values(
                    |k: KeyView| group_notify(m, k, StatusView::Paused, offset_of(m, k), m.groups[k].total_size))
                    .push(group_notify(m, key@, StatusView::Paused, offset_of(m, key@), m.groups[key@].total_size)));
            j = j + 1;
        }
        assert(m.group_order.take(m.group_order.len() as int) =~= m.group_order);
        self.active.clear();
        self.groups.clear();
        self.task_index.clear();
        self.queued.clear();
        self.paused.clear();
        self.offsets.clear();
        proof {
            assert(actions_view(out@) =~= out0 + close_actions(m));
            let n = self@;
            assert(n.queued =~= Seq::<KeyView>::empty());
            assert(n.active =~= Seq::<KeyView>::empty());
            assert(n.paused =~= Seq::<KeyView>::empty());
            assert(n.group_order =~= Seq::<KeyView>::empty());
            assert(n.groups =~= Map::<KeyView, InnerTask>::empty());
            assert(n.task_index =~= Map::<TaskId, KeyView>::empty());
            assert(n.offsets =~= Map::<KeyView, u64>::empty());
            assert(n.active.filter(of_direction(Direction::Upload)) =~= Seq::<KeyView>::empty());
            assert(n.active.filter(of_direction(Direction::Download)) =~= Seq::<KeyView>::empty());
            assert(n =~= closed_model(m));
        }
    }

    /// The error of a control call that names an unknown task.
    fn not_found(id: TaskId) -> (e: MeowError)
        ensures
            e@ == (ErrorView { code: code_value(InnerErrorCode::TaskNotFound), msg: not_found_message(id), source: None }),
    {
        let mut msg = String::new();
        msg.append("task not found: ");
        push_uuid(&mut msg, id.as_u128());
        MeowError::from_code(InnerErrorCode::TaskNotFound, msg)
    }

    /// Pauses the group of task `id`, then starts whatever can start. An unknown id is a
    /// `TaskNotFound` error.
    pub fn pause(&mut self, id: TaskId, out: &mut Vec<SchedulerAction>) -> (r: Result<(), MeowError>)
        requires
            old(self).wf(),
        ensures
            final(self).wf(),
            control_answer(r, pause_spec(old(self)@, id).0, id),
            final(self)@ == pause_spec(old(self)@, id).1,
            actions_view(final(out)@) == actions_view(old(out)@) + pause_spec(old(self)@, id).2,
            saturated(final(self)@),
    {
        let ghost m = self@;
        let ghost out0 = actions_view(out@);
        let r = match self.lookup_task(id) {
            Some(key) => {
                self.pause_group(&key, out);
                Ok(())
            },
            None => Err(Self::not_found(id)),
        };
        self.try_start_next(out);
        assert(actions_view(out@) =~= out0 + pause_spec(m, id).2);
        r
    }

    /// Cancels the group of task `id`, then starts whatever can start. An unknown id is a
    /// `TaskNotFound` error.
    pub fn cancel(&mut self, id: TaskId, out: &mut Vec<SchedulerAction>) -> (r: Result<(), MeowError>)
        requires
            old(self).wf(),
        ensures
            final(self).wf(),
            control_answer(r, cancel_spec(old(self)@, id).0, id),
            final(self)@ == cancel_spec(old(self)@, id).1,
            actions_view(final(out)@) == actions_view(old(out)@) + cancel_spec(old(self)@, id).2,
            saturated(final(self)@),
    {
        let ghost m = self@;
        let ghost out0 = actions_view(out@);
        let r = match self.lookup_task(id) {
            Some(key) => {
                self.cancel_group(&key, out);
                Ok(())
            },
            None => Err(Self::not_found(id)),
        };
        self.try_start_next(out);
        assert(actions_view(out@) =~= out0 + cancel_spec(m, id).2);
        r
    }

    /// Resumes the group of task `id` (see [`resume_spec`]), then starts whatever can
    /// start. An unknown id is a `TaskNotFound` error.
    pub fn resume(&mut self, id: TaskId, out: &mut Vec<SchedulerAction>) -> (r: Result<(), MeowError>)
        requires
            old(self).wf(),
        ensures
            final(self).wf(),
            match (r, resume_task_spec(old(self)@, id).0) {
                (Ok(_), Ok(_)) => true,
                (Err(e), Err(ev)) => e@ == ev,
                _ => false,
            },
            final(self)@ == resume_task_spec(old(self)@, id).1,
            actions_view(final(out)@) == actions_view(old(out)@) + resume_task_spec(old(self)@, id).2,
            saturated(final(self)@),
    {
        let ghost m = self@;
        let ghost out0 = actions_view(out@);
        let r = match self.lookup_task(id) {
            Some(key) => self.resume_group(&key, out),
            None => Err(Self::not_found(id)),
        };
        self.try_start_next(out);
        assert(actions_view(out@) =~= out0 + resume_task_spec(m, id).2);
        r
    }

    /// Handles one request (see [`SchedulerState::enqueue`], [`SchedulerState::pause`],
    /// [`SchedulerState::resume`], [`SchedulerState::cancel`], [`SchedulerState::snapshot`]
    /// and [`SchedulerState::close`]).
    pub fn handle_command(&mut self, cmd: SchedulerCommand, out: &mut Vec<SchedulerAction>) -> (reply: CommandReply)
        requires
            old(self).wf(),
        ensures
            final(self).wf(),
            match cmd {
                SchedulerCommand::Enqueue(t) => {
                    &&& reply is Submitted
                    &&& final(self)@ == enqueue_model(old(self)@, t)
                    &&& actions_view(final(out)@) == actions_view(old(out)@) + enqueue_actions(old(self)@, t)
                },
                SchedulerCommand::Pause(id) => {
                    &&& reply matches CommandReply::Control(r) && control_answer(r, pause_spec(old(self)@, id).0, id)
                    &&& final(self)@ == pause_spec(old(self)@, id).1
                    &&& actions_view(final(out)@) == actions_view(old(out)@) + pause_spec(old(self)@, id).2
                },
                SchedulerCommand::Resume(id) => {
                    &&& reply matches CommandReply::Control(r) && match (r, resume_task_spec(old(self)@, id).0) {
                        (Ok(_), Ok(_)) => true,
                        (Err(e), Err(ev)) => e@ == ev,
                        _ => false,
                    }
                    &&& final(self)@ == resume_task_spec(old(self)@, id).1
                    &&& actions_view(final(out)@) == actions_view(old(out)@) + resume_task_spec(old(self)@, id).2
                },
                SchedulerCommand::Cancel(id) => {
                    &&& reply matches CommandReply::Control(r) && control_answer(r, cancel_spec(old(self)@, id).0, id)
                    &&& final(self)@ == cancel_spec(old(self)@, id).1
                    &&& actions_view(final(out)@) == actions_view(old(out)@) + cancel_spec(old(self)@, id).2
                },
                SchedulerCommand::Snapshot => {
                    &&& reply matches CommandReply::Snapshot(snap) && snap.queued_groups == old(self)@.queued.len()
                        && snap.active_groups == old(self)@.active.len()
                        && snap.active_keys@.map_values(|p: (Direction, String)| (p.0, p.1@)) == old(self)@.active
                    &&& final(self)@ == old(self)@
                    &&& actions_view(final(out)@) == actions_view(old(out)@)
                },
                SchedulerCommand::Close => {
                    &&& reply is Closed
                    &&& final(self)@ == closed_model(old(self)@)
                    &&& actions_view(final(out)@) == actions_view(old(out)@) + close_actions(old(self)@)
                },
            },
    {
        match cmd {
            SchedulerCommand::Enqueue(t) => {
                self.enqueue(t, out);
                CommandReply::Submitted
            },
            SchedulerCommand::Pause(id) => CommandReply::Control(self.pause(id, out)),
            SchedulerCommand::Resume(id) => CommandReply::Control(self.resume(id, out)),
            SchedulerCommand::Cancel(id) => CommandReply::Control(self.cancel(id, out)),
            SchedulerCommand::Snapshot => CommandReply::Snapshot(self.snapshot()),
            SchedulerCommand::Close => {
                self.close(out);
                CommandReply::Closed
            },
        }
    }

    /// How many running groups go in direction `d`.
    fn count_active(&self, d: Direction) -> (r: usize)
        ensures
            r == count_dir(self@.active, d),
    {
        let ghost f = of_direction(d);
        let ghost a = keys_view(self.active@);
        let mut n: usize = 0;
        let mut i: usize = 0;
        assert(a.take(0).filter(f) =~= Seq::<KeyView>::empty());
        while i < self.active.len()
            invariant
                i <= self.active@.len(),
                a == keys_view(self.active@),
                a == self@.active,
                f == of_direction(d),
                n == a.take(i as int).filter(f).len(),
            decreases self.active@.len() - i,
        {
            assert(a.take(i + 1) =~= a.take(i as int).push(a[i as int]));
            proof {
                a.take(i as int).lemma_filter_push(a[i as int], f);
                assert(a.take(i as int).filter(f).len() <= i) by {
                    a.take(i as int).lemma_filter_len(f);
                }
            }
            if self.active[i].direction == d {
                n = n + 1;
            }
            i = i + 1;
        }
        assert(a.take(self.active@.len() as int) =~= a);
        n
    }
}

} // verus!

verus! {

/// No direction ever runs more transfers at once than its limit allows.
pub proof fn law_concurrency_limit(s: &SchedulerState)
    requires
        s.wf(),
    ensures
        count_dir(s@.active, Direction::Upload) <= s@.max_upload,
        count_dir(s@.active, Direction::Download) <= s@.max_download,
{
    s.lemma_wf();
}

/// Submitting a task whose file (upload) or URL (download) already has a group changes
/// nothing; the new task's listener hears that it failed with `DuplicateTaskError`, and
/// the new task is released.
pub proof fn law_duplicate_is_refused(m: SchedulerModel, t: InnerTask)
    requires
        m.groups.dom().contains(key_of(t)),
    ensures
        enqueue_model(m, t) == m,
        enqueue_actions(m, t) == seq![
            ActionView::Notify {
                listener: t.task_id,
                record: record_of(m.groups[key_of(t)], StatusView::Failed(duplicate_error()), 0,
                    m.groups[key_of(t)].total_size),
            },
            ActionView::Release { task_id: t.task_id },
        ],
{
}

/// A submitted task that is not a duplicate can be controlled by its id: its id names its
/// group, which it leads.
pub proof fn law_submitted_task_is_indexed(m: SchedulerModel, t: InnerTask)
    requires
        !m.groups.dom().contains(key_of(t)),
    ensures
        enqueue_model(m, t).task_index.dom().contains(t.task_id),
        enqueue_model(m, t).task_index[t.task_id] == key_of(t),
        enqueue_model(m, t).groups.dom().contains(key_of(t)),
        enqueue_model(m, t).groups[key_of(t)] == t,
{
}

/// Submitting a task with a fresh id keeps the task index and the groups in agreement.
pub proof fn law_enqueue_keeps_index(m: SchedulerModel, t: InnerTask)
    requires
        index_consistent(m),
        fresh_id(m, t.task_id),
    ensures
        index_consistent(enqueue_model(m, t)),
{
    let k = key_of(t);
    if !m.groups.dom().contains(k) {
        let n = enqueue_model(m, t);
        assert forall|id: TaskId| #[trigger] n.task_index.dom().contains(id) implies
            n.groups.dom().contains(n.task_index[id]) && n.groups[n.task_index[id]].task_id == id by {
            if id != t.task_id {
                assert(m.task_index.dom().contains(id));
                assert(m.task_index[id] != k);
            }
        }
        assert forall|x: KeyView| #[trigger] n.groups.dom().contains(x) implies
            n.task_index.dom().contains(n.groups[x].task_id) && n.task_index[n.groups[x].task_id] == x by {
            if x != k {
                assert(m.groups.dom().contains(x));
                assert(m.task_index.dom().contains(m.groups[x].task_id));
                assert(m.groups[x].task_id != t.task_id);
            }
        }
    }
}

/// Once a task is canceled, its id names nothing: pausing, resuming or canceling it again
/// is a `TaskNotFound` error.
pub proof fn law_cancel_forgets_task(m: SchedulerModel, id: TaskId)
    requires
        index_consistent(m),
        m.task_index.dom().contains(id),
    ensures
        cancel_spec(m, id).0,
        !cancel_spec(m, id).1.task_index.dom().contains(id),
        !pause_spec(cancel_spec(m, id).1, id).0,
        !cancel_spec(cancel_spec(m, id).1, id).0,
        resume_task_spec(cancel_spec(m, id).1, id).0 matches Err(e) && is_task_not_found(e),
{
    let k = m.task_index[id];
    assert(m.groups.dom().contains(k) && m.groups[k].task_id == id);
}

/// Dropping a group together with the index entry of its leader keeps the task index and
/// the groups in agreement.
proof fn lemma_drop_group_keeps_index(m: SchedulerModel, n: SchedulerModel, k: KeyView)
    requires
        index_consistent(m),
        m.groups.dom().contains(k),
        n.groups == m.groups.remove(k),
        n.task_index == m.task_index.remove(m.groups[k].task_id),
    ensures
        index_consistent(n),
{
    let id = m.groups[k].task_id;
    assert(m.task_index[id] == k);
    assert forall|j: TaskId| #[trigger] n.task_index.dom().contains(j) implies
        n.groups.dom().contains(n.task_index[j]) && n.groups[n.task_index[j]].task_id == j by {
        assert(m.task_index.dom().contains(j) && j != id);
        assert(m.task_index[j] != k);
    }
    assert forall|x: KeyView| #[trigger] n.groups.dom().contains(x) implies
        n.task_index.dom().contains(n.groups[x].task_id) && n.task_index[n.groups[x].task_id] == x by {
        assert(m.groups.dom().contains(x) && x != k);
        assert(m.task_index[m.groups[x].task_id] == x);
    }
}

/// Canceling keeps the task index and the groups in agreement.
pub proof fn law_cancel_keeps_index(m: SchedulerModel, id: TaskId)
    requires
        index_consistent(m),
    ensures
        index_consistent(cancel_spec(m, id).1),
{
    if m.task_index.dom().contains(id) {
        let k = m.task_index[id];
        lemma_drop_group_keeps_index(m, cancel_spec(m, id).1, k);
    }
}

/// Every operation keeps the task index and the groups in agreement, so that a task id
/// names its group for as long as the group lives: pausing, resuming, handling a
/// transfer's report, starting what can start and closing (and, by the laws above,
/// submitting a task under a fresh id and canceling).
pub proof fn law_index_stays_consistent(m: SchedulerModel, id: TaskId, ev: WorkerEvent)
    requires
        index_consistent(m),
    ensures
        index_consistent(pause_spec(m, id).1),
        index_consistent(resume_task_spec(m, id).1),
        index_consistent(event_model(m, ev)),
        index_consistent(start_model(m)),
        index_consistent(closed_model(m)),
{
    assert(pause_spec(m, id).1.groups == m.groups && pause_spec(m, id).1.task_index == m.task_index);
    assert(resume_task_spec(m, id).1.groups == m.groups && resume_task_spec(m, id).1.task_index == m.task_index);
    assert(start_model(m).groups == m.groups && start_model(m).task_index == m.task_index);
    let n = event_model(m, ev);
    let k = match ev {
        WorkerEvent::Progress { key, .. } => key@,
        WorkerEvent::Completed { key, .. } => key@,
        WorkerEvent::Failed { key, .. } => key@,
        WorkerEvent::Canceled { key } => key@,
    };
    if m.groups.dom().contains(k) && !(n.groups == m.groups && n.task_index == m.task_index) {
        lemma_drop_group_keeps_index(m, n, k);
    }
}

/// Resuming needs a paused task: resuming any other is refused with `InvalidTaskState`
/// and changes nothing.
pub proof fn law_resume_needs_pause(m: SchedulerModel, k: KeyView)
    requires
        !m.paused.contains(k),
    ensures
        resume_spec(m, k) == (Err::<(), ErrorView>(invalid_state(not_paused_message())), m, Seq::<ActionView>::empty()),
{
}

/// A task that waits (not running) and is paused can be resumed at once: it is unmarked,
/// announced as pending at the offset it had reached, and queued again; its group and
/// every offset stay as they were.
pub proof fn law_pause_then_resume(m: SchedulerModel, k: KeyView)
    requires
        model_wf(m),
        m.groups.dom().contains(k),
        !m.active.contains(k),
    ensures
        ({
            let m1 = pause_model(m, k);
            let (res, m2, acts) = resume_spec(m1, k);
            &&& res is Ok
            &&& m2.queued.contains(k)
            &&& !m2.paused.contains(k)
            &&& m2.groups == m.groups
            &&& m2.offsets == m.offsets
            &&& m2.task_index == m.task_index
            &&& acts == seq![group_notify(m, k, StatusView::Pending, offset_of(m, k), m.groups[k].total_size)]
        }),
{
    let m1 = pause_model(m, k);
    assert(m1.paused.contains(k)) by {
        if !m.paused.contains(k) {
            assert(m.paused.push(k)[m.paused.len() as int] == k);
        }
    }
    let m2 = resume_spec(m1, k).1;
    lemma_filter_out(m.queued, k);
    lemma_filter_out(m.paused, k);
    assert(!m1.queued.contains(k));
    assert(m2.queued == m1.queued.push(k));
    assert(m2.queued[m1.queued.len() as int] == k);
    assert(m2.paused == m1.paused.filter(other_than(k)));
    if !m.paused.contains(k) {
        lemma_filter_out(m.paused.push(k), k);
        assert(m.paused.push(k).no_duplicates()) by {
            assert forall|a: int, b: int| 0 <= a < m.paused.len() + 1 && 0 <= b < m.paused.len() + 1 && a != b
                implies m.paused.push(k)[a] != m.paused.push(k)[b] by {
                if a == m.paused.len() as int { assert(m.paused.contains(m.paused.push(k)[b])); }
                else if b == m.paused.len() as int { assert(m.paused.contains(m.paused.push(k)[a])); }
            }
        }
    }
}

/// A running task that is paused keeps its slot until its transfer reports that it
/// stopped: until then resuming is refused; after the report the task keeps its group and
/// offset and can be resumed.
pub proof fn law_pause_running_then_resume(m: SchedulerModel, key: TaskKey)
    requires
        model_wf(m),
        m.groups.dom().contains(key@),
        m.active.contains(key@),
    ensures
        ({
            let m1 = pause_model(m, key@);
            let m2 = event_model(m1, WorkerEvent::Canceled { key });
            &&& resume_spec(m1, key@).0 == Err::<(), ErrorView>(invalid_state(still_stopping_message()))
            &&& m1.active.contains(key@)
            &&& event_actions(m1, WorkerEvent::Canceled { key }) == seq![ActionView::ForgetRun { key: key@ }]
            &&& !m2.active.contains(key@)
            &&& m2.groups == m.groups
            &&& m2.offsets == m.offsets
            &&& resume_spec(m2, key@).0 is Ok
            &&& resume_spec(m2, key@).1.queued.contains(key@)
        }),
{
    let k = key@;
    let m1 = pause_model(m, k);
    assert(m1.paused.contains(k)) by {
        if !m.paused.contains(k) {
            assert(m.paused.push(k)[m.paused.len() as int] == k);
        }
    }
    assert(event_actions(m1, WorkerEvent::Canceled { key }) =~= seq![ActionView::ForgetRun { key: k }]);
    let m2 = event_model(m1, WorkerEvent::Canceled { key });
    lemma_filter_out(m.active, k);
    lemma_filter_out(m.queued, k);
    assert(!m2.active.contains(k));
    assert(!m2.queued.contains(k));
    let m3 = resume_spec(m2, k).1;
    assert(m3.queued[m2.queued.len() as int] == k);
}

/// When a transfer completes, its task ends: listeners hear `Complete` with every byte
/// done, the task is released, and its id names nothing any more.
pub proof fn law_completion_ends_task(m: SchedulerModel, key: TaskKey, total: u64)
    requires
        model_wf(m),
        index_consistent(m),
        m.groups.dom().contains(key@),
    ensures
        ({
            let t = m.groups[key@];
            let ev = WorkerEvent::Completed { key, total_size: total };
            &&& event_actions(m, ev) == seq![
                ActionView::ForgetRun { key: key@ },
                notify_view(t.task_id, t, StatusView::Complete, total, total),
                ActionView::Release { task_id: t.task_id },
            ]
            &&& !event_model(m, ev).groups.dom().contains(key@)
            &&& !event_model(m, ev).task_index.dom().contains(t.task_id)
            &&& !event_model(m, ev).active.contains(key@)
        }),
{
    let ev = WorkerEvent::Completed { key, total_size: total };
    assert(event_actions(m, ev) =~= seq![
        ActionView::ForgetRun { key: key@ },
        group_notify(m, key@, StatusView::Complete, total, total),
        ActionView::Release { task_id: m.groups[key@].task_id },
    ]);
    lemma_filter_out(m.active, key@);
}

/// A pass never starts a key that has no group or already runs, and starts keys in queue
/// order; the keys it keeps are exactly those it neither started nor dropped.
pub proof fn law_start_keeps_order(m: SchedulerModel)
    requires
        model_wf(m),
    ensures
        model_wf(start_model(m)),
        saturated(start_model(m)),
        start_model(m).active == m.active + started_keys(m),
        forall|k: KeyView| #[trigger] started_keys(m).contains(k) ==> m.queued.contains(k) && m.groups.dom().contains(k),
        forall|k: KeyView| #[trigger] start_model(m).queued.contains(k) ==> m.queued.contains(k),
{
    lemma_pass(m, m.active, m.queued);
    let n = start_model(m);
    assert forall|x: KeyView| #[trigger] n.group_order.contains(x) <==> n.groups.dom().contains(x) by {
        assert(m.group_order.contains(x) <==> m.groups.dom().contains(x));
    }
}

/// A paused task is not started until it is resumed. Pausing a task takes its key out of
/// the queue and marks it paused without starting anything under it; a paused key keeps
/// its group and never waits in the queue, and a start pass starts only queued keys, so
/// no pass starts it. (Only resuming puts a paused key back in line; ending or canceling
/// its group unmarks it.)
pub proof fn law_paused_is_not_started(m: SchedulerModel, id: TaskId, k: KeyView)
    requires
        model_wf(m),
    ensures
        m.task_index.dom().contains(id) ==> ({
            let key = m.task_index[id];
            let n = pause_spec(m, id).1;
            &&& n.paused.contains(key)
            &&& !n.queued.contains(key)
            &&& n.groups.dom().contains(key)
            &&& (n.active.contains(key) <==> m.active.contains(key))
        }),
        m.paused.contains(k) ==> {
            &&& !started_keys(m).contains(k)
            &&& (start_model(m).active.contains(k) <==> m.active.contains(k))
            &&& !start_model(m).queued.contains(k)
            &&& start_model(m).paused.contains(k)
        },
{
    lemma_pass(m, m.active, m.queued);
    if m.paused.contains(k) {
        assert(!m.queued.contains(k));
        assert(!started_keys(m).contains(k));
        assert(start_model(m).active =~= m.active + started_keys(m));
        if start_model(m).active.contains(k) && !m.active.contains(k) {
            let j = choose|j: int| 0 <= j < start_model(m).active.len() && start_model(m).active[j] == k;
            assert(started_keys(m)[j - m.active.len()] == k);
        }
        if m.active.contains(k) {
            let j = choose|j: int| 0 <= j < m.active.len() && m.active[j] == k;
            assert(start_model(m).active[j] == k);
        }
        if start_model(m).queued.contains(k) {
            assert(schedule_pass(m, m.active, m.queued).1.contains(k));
            assert(m.queued.contains(k));
        }
        assert(start_model(m).paused == m.paused);
    }
    if m.task_index.dom().contains(id) {
        let key = m.task_index[id];
        let m1 = pause_model(m, key);
        assert(m1.paused.contains(key)) by {
            if !m.paused.contains(key) {
                assert(m.paused.push(key)[m.paused.len() as int] == key);
            }
        }
        lemma_filter_out(m.queued, key);
        assert(model_wf(m1)) by {
            assert forall|x: KeyView| #[trigger] m1.paused.contains(x) implies
                m1.groups.dom().contains(x) && !m1.queued.contains(x) by {
                if x != key {
                    if !m.paused.contains(key) {
                        let j = choose|j: int| 0 <= j < m1.paused.len() && m1.paused[j] == x;
                        assert(m.paused[j] == x);
                    }
                    assert(m.paused.contains(x));
                }
            }
            if !m.paused.contains(key) {
                assert forall|a: int, b: int| 0 <= a < m1.paused.len() && 0 <= b < m1.paused.len() && a != b
                    implies m1.paused[a] != m1.paused[b] by {
                    if a == m.paused.len() as int {
                        assert(m.paused.contains(m1.paused[b]));
                    } else if b == m.paused.len() as int {
                        assert(m.paused.contains(m1.paused[a]));
                    }
                }
            }
        }
        lemma_pass(m1, m1.active, m1.queued);
        assert(!started_keys(m1).contains(key));
        let n = start_model(m1);
        assert(n.active =~= m1.active + started_keys(m1));
        if n.active.contains(key) && !m.active.contains(key) {
            let j = choose|j: int| 0 <= j < n.active.len() && n.active[j] == key;
            assert(started_keys(m1)[j - m1.active.len()] == key);
        }
        if m.active.contains(key) {
            let j = choose|j: int| 0 <= j < m.active.len() && m.active[j] == key;
            assert(n.active[j] == key);
        }
        if n.queued.contains(key) {
            assert(schedule_pass(m1, m1.active, m1.queued).1.contains(key));
            assert(m1.queued.contains(key));
        }
        assert(n.paused == m1.paused);
        assert(n.groups == m.groups);
        assert(pause_spec(m, id).1 == n);
    }
}

/// Submitting a task whose key has no group, neither runs nor waits puts its key at the
/// end of the line: the keys already waiting keep their places ahead of it. Submitting
/// then runs one start pass over exactly that line, with the new group added and its
/// leader indexed; nothing else changes.
pub proof fn law_submission_joins_the_end(m: SchedulerModel, t: InnerTask)
    requires
        !m.groups.dom().contains(key_of(t)),
        !m.active.contains(key_of(t)),
        !m.queued.contains(key_of(t)),
    ensures
        admit_model(m, t).queued == m.queued.push(key_of(t)),
        admit_model(m, t).queued.len() == m.queued.len() + 1,
        admit_model(m, t).queued.last() == key_of(t),
        forall|i: int| 0 <= i < m.queued.len() ==> admit_model(m, t).queued[i] == m.queued[i],
        enqueue_model(m, t) == start_model(SchedulerModel {
            groups: m.groups.insert(key_of(t), t),
            group_order: m.group_order.push(key_of(t)),
            task_index: m.task_index.insert(t.task_id, key_of(t)),
            queued: m.queued.push(key_of(t)),
            ..m
        }),
{
}

/// A progress report about a key with a group updates only that key's offset, and tells
/// the group leader's listeners exactly what the transfer reported: `Transmission`, with
/// the reported offset as the bytes done and the reported total as the size (a download
/// learns its size from the server, so its submitted size, often zero, is not used).
pub proof fn law_progress_reports_what_the_transfer_says(m: SchedulerModel, key: TaskKey, next_offset: u64, total_size: u64)
    requires
        m.groups.dom().contains(key@),
    ensures
        ({
            let ev = WorkerEvent::Progress { key, next_offset, total_size };
            let t = m.groups[key@];
            &&& event_actions(m, ev) == seq![ActionView::Notify {
                listener: t.task_id,
                record: RecordView {
                    task_id: t.task_id,
                    file_sign: t.file_sign@,
                    file_name: t.file_name@,
                    total_size: total_size,
                    transferred: next_offset,
                    status: StatusView::Transmission,
                    direction: t.direction,
                },
            }]
            &&& event_model(m, ev).offsets == m.offsets.insert(key@, next_offset)
            &&& event_model(m, ev).groups == m.groups
            &&& event_model(m, ev).active == m.active
            &&& event_model(m, ev).queued == m.queued
            &&& event_model(m, ev).paused == m.paused
        }),
{
}

/// Closing stops every running transfer, in the order they started, and then tells each
/// group's leader, group by group in the order the groups were made, that its task is
/// paused where it stands: the bytes done are the offset the transfer reached (zero if
/// none was recorded) and the size is the task's.
pub proof fn law_close_reports_where_each_task_stands(m: SchedulerModel)
    ensures
        close_actions(m).len() == m.active.len() + m.group_order.len(),
        forall|i: int| 0 <= i < m.active.len() ==>
            close_actions(m)[i] == (ActionView::CancelRun { key: m.active[i] }),
        forall|i: int| #![trigger m.group_order[i]] 0 <= i < m.group_order.len() ==> ({
            let k = m.group_order[i];
            let t = m.groups[k];
            close_actions(m)[m.active.len() + i] == (ActionView::Notify {
                listener: t.task_id,
                record: RecordView {
                    task_id: t.task_id,
                    file_sign: t.file_sign@,
                    file_name: t.file_name@,
                    total_size: t.total_size,
                    transferred: if m.offsets.dom().contains(k) { m.offsets[k] } else { 0 },
                    status: StatusView::Paused,
                    direction: t.direction,
                },
            })
        }),
{
    let a = m.active.map_values(|k: KeyView| ActionView::CancelRun { key: k });
    let g = m.group_order.map_values(|k: KeyView| group_notify(m, k, StatusView::Paused, offset_of(m, k), m.groups[k].total_size));
    assert(close_actions(m) == a + g);
    assert forall|i: int| 0 <= i < m.group_order.len() implies #[trigger] close_actions(m)[m.active.len() + i] == g[i] by {
        assert((a + g)[a.len() + i] == g[i]);
    }
}

/// Once a direction has no free slot, the rest of a pass starts nothing of that direction.
proof fn lemma_full_direction_starts_none(m: SchedulerModel, a: Seq<KeyView>, q: Seq<KeyView>, d: Direction)
    requires
        count_dir(a, d) >= capacity(m, d),
    ensures
        forall|x: KeyView| #[trigger] schedule_pass(m, a, q).2.contains(x) ==> x.0 != d,
    decreases q.len(),
{
    if q.len() > 0 {
        let k = q[0];
        let rest = q.drop_first();
        if a.contains(k) || !m.groups.dom().contains(k) {
            lemma_full_direction_starts_none(m, a, rest, d);
            assert(schedule_pass(m, a, q).2 == schedule_pass(m, a, rest).2);
        } else if count_dir(a, k.0) < capacity(m, k.0) {
            lemma_count_push(a, k, d);
            lemma_full_direction_starts_none(m, a.push(k), rest, d);
            let r2 = schedule_pass(m, a.push(k), rest);
            assert forall|x: KeyView| #[trigger] schedule_pass(m, a, q).2.contains(x) implies x.0 != d by {
                assert(schedule_pass(m, a, q).2 == seq![k] + r2.2);
                if x != k {
                    let p = choose|p: int| 0 <= p < (seq![k] + r2.2).len() && (seq![k] + r2.2)[p] == x;
                    assert(r2.2[p - 1] == x);
                    assert(r2.2.contains(x));
                } else {
                    assert(k.0 != d);
                }
            }
        } else {
            lemma_full_direction_starts_none(m, a, rest, d);
            assert(schedule_pass(m, a, q).2 == schedule_pass(m, a, rest).2);
        }
    } else {
        assert(schedule_pass(m, a, q).2 == Seq::<KeyView>::empty());
    }
}

/// First come, first served within a direction: in a pass over a line of distinct keys,
/// if a key starts, then every key of the same direction ahead of it in line that has a
/// group and is not running starts too.
proof fn lemma_pass_keeps_arrival_order(m: SchedulerModel, a: Seq<KeyView>, q: Seq<KeyView>, i: int, j: int)
    requires
        q.no_duplicates(),
        0 <= i < j < q.len(),
        q[i].0 == q[j].0,
        m.groups.dom().contains(q[i]),
        !a.contains(q[i]),
        schedule_pass(m, a, q).2.contains(q[j]),
    ensures
        schedule_pass(m, a, q).2.contains(q[i]),
    decreases q.len(),
{
    let k = q[0];
    let rest = q.drop_first();
    assert(rest.no_duplicates()) by {
        assert forall|x: int, y: int| 0 <= x < rest.len() && 0 <= y < rest.len() && x != y implies rest[x] != rest[y] by {
            assert(rest[x] == q[x + 1] && rest[y] == q[y + 1]);
        }
    }
    assert(rest[j - 1] == q[j]);
    if i == 0 {
        if count_dir(a, k.0) < capacity(m, k.0) {
            assert(schedule_pass(m, a, q).2 == seq![k] + schedule_pass(m, a.push(k), rest).2);
            assert((seq![k] + schedule_pass(m, a.push(k), rest).2)[0] == k);
        } else {
            lemma_full_direction_starts_none(m, a, rest, k.0);
            assert(schedule_pass(m, a, q).2 == schedule_pass(m, a, rest).2);
            assert(schedule_pass(m, a, rest).2.contains(rest[j - 1]));
        }
    } else {
        assert(k != q[i] && k != q[j]);
        assert(rest[i - 1] == q[i]);
        if a.contains(k) || !m.groups.dom().contains(k) {
            lemma_pass_keeps_arrival_order(m, a, rest, i - 1, j - 1);
        } else if count_dir(a, k.0) < capacity(m, k.0) {
            let r2 = schedule_pass(m, a.push(k), rest);
            assert(schedule_pass(m, a, q).2 == seq![k] + r2.2);
            let p = choose|p: int| 0 <= p < (seq![k] + r2.2).len() && (seq![k] + r2.2)[p] == q[j];
            assert(r2.2[p - 1] == q[j]);
            assert(!a.push(k).contains(q[i])) by {
                if a.push(k).contains(q[i]) {
                    let z = choose|z: int| 0 <= z < a.push(k).len() && a.push(k)[z] == q[i];
                    if z < a.len() { assert(a[z] == q[i]); }
                }
            }
            lemma_pass_keeps_arrival_order(m, a.push(k), rest, i - 1, j - 1);
            let w = choose|w: int| 0 <= w < r2.2.len() && r2.2[w] == q[i];
            assert((seq![k] + r2.2)[w + 1] == q[i]);
        } else {
            lemma_pass_keeps_arrival_order(m, a, rest, i - 1, j - 1);
        }
    }
}

/// First come, first served: when tasks wait for a direction, one that was submitted
/// (or resumed) later never starts ahead of one that has waited longer. If a waiting key
/// is started, every waiting key of its direction ahead of it in line is started too.
pub proof fn law_first_come_first_served(m: SchedulerModel, i: int, j: int)
    requires
        model_wf(m),
        0 <= i < j < m.queued.len(),
        m.queued[i].0 == m.queued[j].0,
        m.groups.dom().contains(m.queued[i]),
        started_keys(m).contains(m.queued[j]),
    ensures
        started_keys(m).contains(m.queued[i]),
{
    assert(m.queued.contains(m.queued[i]));
    lemma_pass_keeps_arrival_order(m, m.active, m.queued, i, j);
}

} // verus!
