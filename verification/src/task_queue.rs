//! The task queue: four pending priority bands, dependency gating on
//! dispatch, and terminal-state archives. Every task lives in exactly one
//! collection at a time.

use vstd::prelude::*;

use crate::clock::current_epoch_secs;
use crate::errors::{AgentError, AgentErrorView};
use crate::ids::fresh_uuid;
use crate::json::{JsonValue, JsonView};
use crate::message::{duplicate_opt_string, opt_str_view, opt_u64_view};
use crate::types::{Priority, TaskStatus, TaskStatusView, TaskType};

verus! {

/// A unit of work tracked by the queue.
#[derive(Debug)]
pub struct Task {
    pub id: String,
    pub task_type: TaskType,
    pub priority: Priority,
    pub status: TaskStatus,
    pub payload: JsonValue,
    pub dependencies: Vec<String>,
    pub assigned_to: Option<String>,
    pub created_by: String,
    pub created_at: u64,
    pub updated_at: u64,
    pub deadline: Option<u64>,
    pub metadata: JsonValue,
}

/// Ghost form of [`Task`].
pub struct TaskView {
    pub id: Seq<char>,
    pub task_type: TaskType,
    pub priority: Priority,
    pub status: TaskStatusView,
    pub payload: JsonView,
    pub dependencies: Seq<Seq<char>>,
    pub assigned_to: Option<Seq<char>>,
    pub created_by: Seq<char>,
    pub created_at: int,
    pub updated_at: int,
    pub deadline: Option<int>,
    pub metadata: JsonView,
}

impl View for Task {
    type V = TaskView;

    open spec fn view(&self) -> TaskView {
        TaskView {
            id: self.id@,
            task_type: self.task_type,
            priority: self.priority,
            status: self.status@,
            payload: self.payload@,
            dependencies: self.dependencies.deep_view(),
            assigned_to: opt_str_view(self.assigned_to),
            created_by: self.created_by@,
            created_at: self.created_at as int,
            updated_at: self.updated_at as int,
            deadline: opt_u64_view(self.deadline),
            metadata: self.metadata@,
        }
    }
}

impl DeepView for Task {
    type V = TaskView;

    open spec fn deep_view(&self) -> TaskView {
        self.view()
    }
}

impl TaskView {
    /// Whether the deadline has passed at time `now`.
    pub open spec fn expired_at(self, now: int) -> bool {
        match self.deadline {
            Some(d) => now > d,
            None => false,
        }
    }
}

/// Whether some task in `s` carries the id.
pub open spec fn contains_id(s: Seq<TaskView>, id: Seq<char>) -> bool {
    exists|k: int| 0 <= k < s.len() && s[k].id == id
}

/// A task is eligible when each of its dependencies is in the completed
/// archive.
pub open spec fn deps_satisfied(t: TaskView, completed: Seq<TaskView>) -> bool {
    forall|d: int| 0 <= d < t.dependencies.len() ==> contains_id(completed, t.dependencies[d])
}

/// The position of the first eligible task of a band, scanned in insertion
/// order.
pub open spec fn first_eligible(s: Seq<TaskView>, completed: Seq<TaskView>) -> Option<int>
    decreases s.len(),
{
    if s.len() == 0 {
        None
    } else if deps_satisfied(s[0], completed) {
        Some(0)
    } else {
        match first_eligible(s.drop_first(), completed) {
            Some(i) => Some(i + 1),
            None => None,
        }
    }
}

/// The band entries whose deadline has not passed at `now`, in order.
pub open spec fn unexpired(s: Seq<TaskView>, now: int) -> Seq<TaskView>
    decreases s.len(),
{
    if s.len() == 0 {
        Seq::empty()
    } else if !s.last().expired_at(now) {
        unexpired(s.drop_last(), now).push(s.last())
    } else {
        unexpired(s.drop_last(), now)
    }
}

impl Task {
    /// A fresh pending task with no dependencies, no assignee, no deadline
    /// and an empty-object metadata. Identifier and timestamps come from the
    /// random source and the clock.
    pub fn new(task_type: TaskType, priority: Priority, payload: JsonValue, created_by: String)
        -> (r: Task)
        ensures
            r@.task_type == task_type,
            r@.priority == priority,
            r@.status is Pending,
            r@.payload == payload@,
            r@.dependencies =~= Seq::<Seq<char>>::empty(),
            r@.assigned_to is None,
            r@.created_by == created_by@,
            r@.deadline is None,
            r@.metadata == JsonView::Obj(Seq::<(Seq<char>, JsonView)>::empty()),
    {
        let deps: Vec<String> = Vec::new();
        let now = current_epoch_secs();
        let r = Task {
            id: fresh_uuid(),
            task_type,
            priority,
            status: TaskStatus::Pending,
            payload,
            dependencies: deps,
            assigned_to: None,
            created_by,
            created_at: now,
            updated_at: now,
            deadline: None,
            metadata: JsonValue::empty_object(),
        };
        proof {
            assert(r@.dependencies =~= Seq::<Seq<char>>::empty());
        }
        r
    }

    /// Records a dependency, once.
    pub fn add_dependency(&mut self, task_id: String)
        ensures
            final(self)@ == (TaskView {
                dependencies: if old(self)@.dependencies.contains(task_id@) {
                    old(self)@.dependencies
                } else {
                    old(self)@.dependencies.push(task_id@)
                },
                ..old(self)@
            }),
    {
        let ghost pre = self.dependencies.deep_view();
        let mut k: usize = 0;
        let mut found = false;
        while k < self.dependencies.len()
            invariant
                k <= self.dependencies.len(),
                self == old(self),
                pre == self.dependencies.deep_view(),
                found == exists|j: int| 0 <= j < k && pre[j] == task_id@,
            decreases self.dependencies.len() - k,
        {
            proof {
                assert(pre[k as int] == self.dependencies@[k as int]@);
            }
            if self.dependencies[k] == task_id {
                found = true;
                proof {
                    assert(0 <= k < k + 1 && pre[k as int] == task_id@);
                }
            }
            k += 1;
        }
        if !found {
            self.dependencies.push(task_id);
            proof {
                assert(self.dependencies.deep_view() =~= pre.push(task_id@));
                assert(!pre.contains(task_id@));
            }
        } else {
            proof {
                assert(pre.contains(task_id@));
            }
        }
    }

    /// The same task with a deadline.
    pub fn with_deadline(self, deadline: u64) -> (r: Task)
        ensures
            r@ == (TaskView { deadline: Some(deadline as int), ..self@ }),
    {
        Task { deadline: Some(deadline), ..self }
    }

    /// The same task with other metadata.
    pub fn with_metadata(self, metadata: JsonValue) -> (r: Task)
        ensures
            r@ == (TaskView { metadata: metadata@, ..self@ }),
    {
        Task { metadata, ..self }
    }

    /// Whether the deadline has passed at time `now`.
    pub fn is_expired(&self, now: u64) -> (r: bool)
        ensures
            r == self@.expired_at(now as int),
    {
        match self.deadline {
            Some(d) => now > d,
            None => false,
        }
    }

    /// Sets the status and refreshes the update time.
    pub fn update_status(&mut self, status: TaskStatus, now: u64)
        ensures
            final(self)@ == (TaskView {
                status: status@,
                updated_at: now as int,
                ..old(self)@
            }),
    {
        self.status = status;
        self.updated_at = now;
    }

    /// Value-preserving copy.
    pub fn duplicate(&self) -> (r: Task)
        ensures
            r@ == self@,
    {
        let mut deps: Vec<String> = Vec::new();
        let mut k: usize = 0;
        while k < self.dependencies.len()
            invariant
                k <= self.dependencies.len(),
                deps.len() == k,
                forall|j: int| 0 <= j < k ==> deps.deep_view()[j]
                    == self.dependencies.deep_view()[j],
            decreases self.dependencies.len() - k,
        {
            let ghost dsnap = deps.deep_view();
            deps.push(self.dependencies[k].clone());
            proof {
                assert(forall|i: int| 0 <= i < k ==> (#[trigger] deps.deep_view()[i]) == dsnap[i]);
            }
            k += 1;
        }
        proof {
            assert(deps.deep_view() =~= self.dependencies.deep_view());
        }
        Task {
            id: self.id.clone(),
            task_type: self.task_type,
            priority: self.priority,
            status: self.status.duplicate(),
            payload: self.payload.duplicate(),
            dependencies: deps,
            assigned_to: duplicate_opt_string(&self.assigned_to),
            created_by: self.created_by.clone(),
            created_at: self.created_at,
            updated_at: self.updated_at,
            deadline: self.deadline,
            metadata: self.metadata.duplicate(),
        }
    }
}

/// Counts of tasks by collection.
#[derive(Debug, Clone, Copy, PartialEq, Eq, Structural)]
pub struct TaskQueueStats {
    pub pending: usize,
    pub in_progress: usize,
    pub completed: usize,
    pub failed: usize,
}

/// The queue itself.
pub struct TaskQueue {
    critical: Vec<Task>,
    high: Vec<Task>,
    normal: Vec<Task>,
    low: Vec<Task>,
    in_progress: Vec<Task>,
    completed: Vec<Task>,
    failed: Vec<Task>,
    recorded_dependencies: Vec<(String, Vec<String>)>,
}

impl TaskQueue {
    /// Ghost form of the `Critical` band.
    pub closed spec fn critical_v(&self) -> Seq<TaskView> {
        self.critical.deep_view()
    }

    /// Ghost form of the `High` band.
    pub closed spec fn high_v(&self) -> Seq<TaskView> {
        self.high.deep_view()
    }

    /// Ghost form of the `Normal` band.
    pub closed spec fn normal_v(&self) -> Seq<TaskView> {
        self.normal.deep_view()
    }

    /// Ghost form of the `Low` band.
    pub closed spec fn low_v(&self) -> Seq<TaskView> {
        self.low.deep_view()
    }

    /// Ghost form of the in-progress collection.
    pub closed spec fn in_progress_v(&self) -> Seq<TaskView> {
        self.in_progress.deep_view()
    }

    /// Ghost form of the completed archive.
    pub closed spec fn completed_v(&self) -> Seq<TaskView> {
        self.completed.deep_view()
    }

    /// Ghost form of the failed archive.
    pub closed spec fn failed_v(&self) -> Seq<TaskView> {
        self.failed.deep_view()
    }

    /// Ghost form of the recorded dependency bookkeeping.
    pub closed spec fn recorded_deps_v(&self) -> Seq<(Seq<char>, Seq<Seq<char>>)> {
        Seq::new(
            self.recorded_dependencies@.len(),
            |i: int|
                if 0 <= i < self.recorded_dependencies@.len() {
                    (
                        self.recorded_dependencies@[i].0@,
                        self.recorded_dependencies@[i].1.deep_view(),
                    )
                } else {
                    (Seq::<char>::empty(), Seq::<Seq<char>>::empty())
                },
        )
    }

    /// The band for a priority.
    pub open spec fn band_v(&self, p: Priority) -> Seq<TaskView> {
        match p {
            Priority::Critical => self.critical_v(),
            Priority::High => self.high_v(),
            Priority::Normal => self.normal_v(),
            Priority::Low => self.low_v(),
        }
    }

    /// The seven collections a task can live in, bands first.
    pub open spec fn collections(&self) -> Seq<Seq<TaskView>> {
        seq![
            self.critical_v(),
            self.high_v(),
            self.normal_v(),
            self.low_v(),
            self.in_progress_v(),
            self.completed_v(),
            self.failed_v(),
        ]
    }

    /// Whether any collection holds a task with this id.
    pub open spec fn knows_id(&self, id: Seq<char>) -> bool {
        exists|a: int|
            0 <= a < self.collections().len() && contains_id(#[trigger] self.collections()[a], id)
    }

    /// Every task appears in exactly one collection: ids are distinct across
    /// and within all seven.
    pub open spec fn wf(&self) -> bool {
        forall|a: int, b: int, i: int, k: int|
            0 <= a < self.collections().len() && 0 <= b < self.collections().len() && 0 <= i
                < self.collections()[a].len() && 0 <= k < self.collections()[b].len() && (a != b
                || i != k) ==> (#[trigger] self.collections()[a][i]).id
                != (#[trigger] self.collections()[b][k]).id
    }

    /// The spec-level dispatch decision: the first eligible task of the
    /// most urgent band that has one.
    pub open spec fn dequeue_spec(&self) -> Option<TaskView> {
        match first_eligible(self.critical_v(), self.completed_v()) {
            Some(i) => Some(self.critical_v()[i]),
            None => match first_eligible(self.high_v(), self.completed_v()) {
                Some(i) => Some(self.high_v()[i]),
                None => match first_eligible(self.normal_v(), self.completed_v()) {
                    Some(i) => Some(self.normal_v()[i]),
                    None => match first_eligible(self.low_v(), self.completed_v()) {
                        Some(i) => Some(self.low_v()[i]),
                        None => None,
                    },
                },
            },
        }
    }

    /// A fresh empty queue.
    pub fn new() -> (r: TaskQueue)
        ensures
            r.wf(),
            r.critical_v() =~= Seq::<TaskView>::empty(),
            r.high_v() =~= Seq::<TaskView>::empty(),
            r.normal_v() =~= Seq::<TaskView>::empty(),
            r.low_v() =~= Seq::<TaskView>::empty(),
            r.in_progress_v() =~= Seq::<TaskView>::empty(),
            r.completed_v() =~= Seq::<TaskView>::empty(),
            r.failed_v() =~= Seq::<TaskView>::empty(),
            r.recorded_deps_v() =~= Seq::<(Seq<char>, Seq<Seq<char>>)>::empty(),
    {
        TaskQueue {
            critical: Vec::new(),
            high: Vec::new(),
            normal: Vec::new(),
            low: Vec::new(),
            in_progress: Vec::new(),
            completed: Vec::new(),
            failed: Vec::new(),
            recorded_dependencies: Vec::new(),
        }
    }
}

/// Whether some task in `tasks` carries `id`.
#[verifier::loop_isolation(false)]
fn seq_has_id(tasks: &Vec<Task>, id: &String) -> (r: bool)
    ensures
        r == contains_id(tasks.deep_view(), id@),
{
    let mut k: usize = 0;
    while k < tasks.len()
        invariant
            k <= tasks.len(),
            forall|j: int| 0 <= j < k ==> tasks.deep_view()[j].id != id@,
        decreases tasks.len() - k,
    {
        if tasks[k].id == *id {
            proof {
                assert(tasks.deep_view()[k as int].id == id@);
            }
            return true;
        }
        k += 1;
    }
    false
}

/// Whether each dependency of `task` is in the completed archive.
#[verifier::loop_isolation(false)]
fn deps_ok(task: &Task, completed: &Vec<Task>) -> (r: bool)
    ensures
        r == deps_satisfied(task@, completed.deep_view()),
{
    let mut k: usize = 0;
    while k < task.dependencies.len()
        invariant
            k <= task.dependencies.len(),
            forall|j: int| 0 <= j < k ==> contains_id(
                completed.deep_view(),
                task@.dependencies[j],
            ),
        decreases task.dependencies.len() - k,
    {
        if !seq_has_id(completed, &task.dependencies[k]) {
            proof {
                assert(task@.dependencies[k as int] == task.dependencies@[k as int]@);
            }
            return false;
        }
        proof {
            assert(task@.dependencies[k as int] == task.dependencies@[k as int]@);
        }
        k += 1;
    }
    true
}

/// Removes and returns the first eligible task of one band.
#[verifier::loop_isolation(false)]
fn take_eligible(band: &mut Vec<Task>, completed: &Vec<Task>) -> (r: Option<Task>)
    ensures
        match r {
            Some(t) => ({
                &&& first_eligible(old(band).deep_view(), completed.deep_view()) matches Some(i)
                    && t@ == old(band).deep_view()[i] && final(band).deep_view() =~= old(band).deep_view().remove(i)
                &&& deps_satisfied(t@, completed.deep_view())
            }),
            None => first_eligible(old(band).deep_view(), completed.deep_view()) is None && final(band).deep_view() == old(band).deep_view(),
        },
{
    let ghost dv = band.deep_view();
    let ghost cv = completed.deep_view();
    proof {
        assert(dv.skip(0) =~= dv);
    }
    let mut k: usize = 0;
    while k < band.len()
        invariant
            k <= band.len(),
            band.deep_view() == dv,
            first_eligible(dv, cv) == (match first_eligible(dv.skip(k as int), cv) {
                Some(i) => Some(i + k as int),
                None => None::<int>,
            }),
            forall|j: int| 0 <= j < k ==> !deps_satisfied(dv[j], cv),
        decreases band.len() - k,
    {
        proof {
            assert(dv.skip(k as int)[0] == dv[k as int]);
            assert(dv.skip(k as int).drop_first() =~= dv.skip(k as int + 1));
        }
        if deps_ok(&band[k], completed) {
            let t = band.remove(k);
            proof {
                assert(first_eligible(dv.skip(k as int), cv) == Some(0int));
                assert(band.deep_view() =~= dv.remove(k as int));
            }
            return Some(t);
        }
        k += 1;
    }
    proof {
        assert(dv.skip(k as int) =~= Seq::<TaskView>::empty());
    }
    None
}

/// Saturating usize addition.
fn sat_add(a: usize, b: usize) -> (r: usize)
    ensures
        a + b <= usize::MAX ==> r == a + b,
        a + b > usize::MAX ==> r == usize::MAX,
{
    if a <= usize::MAX - b {
        a + b
    } else {
        usize::MAX
    }
}

/// What dispatch finds: the first eligible position, with nothing eligible
/// before it; or a guarantee that nothing in the band is eligible.
pub proof fn lemma_first_eligible(s: Seq<TaskView>, c: Seq<TaskView>)
    ensures
        match first_eligible(s, c) {
            Some(i) => 0 <= i < s.len() && deps_satisfied(s[i], c) && (forall|j: int|
                0 <= j < i ==> !deps_satisfied(s[j], c)),
            None => forall|j: int| 0 <= j < s.len() ==> !deps_satisfied(s[j], c),
        },
    decreases s.len(),
{
    if s.len() > 0 {
        lemma_first_eligible(s.drop_first(), c);
        assert(forall|j: int| 0 <= j < s.len() - 1 ==> s.drop_first()[j] == s[j + 1]);
        if !deps_satisfied(s[0], c) {
            match first_eligible(s.drop_first(), c) {
                Some(ip) => {
                    assert(s.drop_first()[ip] == s[ip + 1]);
                    assert forall|j: int| 0 <= j < ip + 1 implies !deps_satisfied(s[j], c) by {
                        if j > 0 {
                            assert(s.drop_first()[j - 1] == s[j]);
                            assert(!deps_satisfied(s.drop_first()[j - 1], c));
                        }
                    }
                },
                None => {
                    assert forall|j: int| 0 <= j < s.len() implies !deps_satisfied(s[j], c) by {
                        if j > 0 {
                            assert(s.drop_first()[j - 1] == s[j]);
                            assert(!deps_satisfied(s.drop_first()[j - 1], c));
                        }
                    }
                },
            }
        }
    }
}

/// Tasks surviving a deadline sweep keep their distinct ids and all come
/// from the original band.
pub proof fn lemma_unexpired_subset(s: Seq<TaskView>, now: int)
    ensures
        forall|k: int|
            0 <= k < unexpired(s, now).len() ==> exists|j: int|
                0 <= j < s.len() && #[trigger] unexpired(s, now)[k] == s[j],
        unexpired(s, now).len() <= s.len(),
        (forall|i: int, j: int|
            0 <= i < j < s.len() ==> s[i].id != s[j].id) ==> (forall|i: int, j: int|
            0 <= i < j < unexpired(s, now).len() ==> (#[trigger] unexpired(s, now)[i]).id != (
            #[trigger] unexpired(s, now)[j]).id),
    decreases s.len(),
{
    if s.len() == 0 {
    } else {
        lemma_unexpired_subset(s.drop_last(), now);
        assert(forall|j: int| 0 <= j < s.len() - 1 ==> s.drop_last()[j] == s[j]);
    }
}

impl TaskQueue {
    /// Places a task in the band of its priority and records non-empty
    /// dependency lists. A task id already known anywhere is rejected, so
    /// that no task ever lives in two collections.
    pub fn enqueue(&mut self, task: Task) -> (r: Result<(), AgentError>)
        requires
            old(self).wf(),
        ensures
            final(self).wf(),
            match r {
                Ok(()) => ({
                    &&& !old(self).knows_id(task@.id)
                    &&& final(self).band_v(task@.priority) =~= old(self).band_v(
                        task@.priority,
                    ).push(task@)
                    &&& forall|p: Priority|
                        p != task@.priority ==> final(self).band_v(p) == old(self).band_v(p)
                    &&& final(self).in_progress_v() == old(self).in_progress_v()
                    &&& final(self).completed_v() == old(self).completed_v()
                    &&& final(self).failed_v() == old(self).failed_v()
                    &&& if task@.dependencies.len() > 0 {
                        final(self).recorded_deps_v() =~= old(self).recorded_deps_v().push(
                            (task@.id, task@.dependencies),
                        )
                    } else {
                        final(self).recorded_deps_v() == old(self).recorded_deps_v()
                    }
                }),
                Err(e) => ({
                    &&& old(self).knows_id(task@.id)
                    &&& e@ is InternalError
                    &&& final(self).collections() == old(self).collections()
                    &&& final(self).recorded_deps_v() == old(self).recorded_deps_v()
                }),
            },
    {
        if self.knows(&task.id) {
            return Err(AgentError::InternalError("task id already queued".to_owned()));
        }
        if task.dependencies.len() > 0 {
            let mut deps_copy: Vec<String> = Vec::new();
            let mut k: usize = 0;
            while k < task.dependencies.len()
                invariant
                    k <= task.dependencies.len(),
                    deps_copy.len() == k,
                    forall|j: int| 0 <= j < k ==> deps_copy.deep_view()[j]
                        == task.dependencies.deep_view()[j],
                decreases task.dependencies.len() - k,
            {
                let ghost dsnap = deps_copy.deep_view();
                deps_copy.push(task.dependencies[k].clone());
                proof {
                    assert(forall|i: int|
                        0 <= i < k ==> (#[trigger] deps_copy.deep_view()[i]) == dsnap[i]);
                }
                k += 1;
            }
            proof {
                assert(deps_copy.deep_view() =~= task@.dependencies);
            }
            let ghost rsnap = self.recorded_deps_v();
            self.recorded_dependencies.push((task.id.clone(), deps_copy));
            proof {
                assert(self.recorded_deps_v() =~= rsnap.push((task@.id, task@.dependencies)));
            }
        }
        let ghost tv = task@;
        let ghost pre = self.collections();
        match task.priority {
            Priority::Critical => self.critical.push(task),
            Priority::High => self.high.push(task),
            Priority::Normal => self.normal.push(task),
            Priority::Low => self.low.push(task),
        }
        proof {
            assert(final(self).band_v(tv.priority) =~= old(self).band_v(tv.priority).push(tv));
            assert forall|a: int, b: int, i: int, k: int|
                0 <= a < final(self).collections().len() && 0 <= b < final(self).collections().len() && 0 <= i < final(self).collections()[a].len() && 0 <= k
                    < final(self).collections()[b].len() && (a != b || i != k) implies (final(self).collections()[a][i]).id != (final(self).collections()[b][k]).id by {
                assert(forall|c: int, x: int|
                    0 <= c < final(self).collections().len() && 0 <= x < final(self).collections()[c].len() ==> (#[trigger] final(self).collections()[c][x])
                        == tv || (0 <= x < pre[c].len() && final(self).collections()[c][x]
                        == pre[c][x]));
                assert(!old(self).knows_id(tv.id));
            }
        }
        Ok(())
    }

    /// Whether any collection holds a task with this id.
    fn knows(&self, id: &String) -> (r: bool)
        ensures
            r == self.knows_id(id@),
    {
        proof {
            self.collections_unfold();
        }
        let r = seq_has_id(&self.critical, id) || seq_has_id(&self.high, id) || seq_has_id(
            &self.normal,
            id,
        ) || seq_has_id(&self.low, id) || seq_has_id(&self.in_progress, id) || seq_has_id(
            &self.completed,
            id,
        ) || seq_has_id(&self.failed, id);
        proof {
            if r {
                assert(self.knows_id(id@));
            } else {
                assert(forall|a: int|
                    0 <= a < self.collections().len() ==> !contains_id(
                        #[trigger] self.collections()[a],
                        id@,
                    )) by {
                    assert(!contains_id(self.collections()[0], id@));
                    assert(!contains_id(self.collections()[1], id@));
                    assert(!contains_id(self.collections()[2], id@));
                    assert(!contains_id(self.collections()[3], id@));
                    assert(!contains_id(self.collections()[4], id@));
                    assert(!contains_id(self.collections()[5], id@));
                    assert(!contains_id(self.collections()[6], id@));
                }
            }
        }
        r
    }

    /// Dispatch: scans `Critical` down to `Low`, in insertion order inside a
    /// band, and removes the first task all of whose dependencies are
    /// completed. A task with an unsatisfied dependency is never returned.
    pub fn dequeue(&mut self) -> (r: Option<Task>)
        requires
            old(self).wf(),
        ensures
            final(self).wf(),
            final(self).in_progress_v() == old(self).in_progress_v(),
            final(self).completed_v() == old(self).completed_v(),
            final(self).failed_v() == old(self).failed_v(),
            final(self).recorded_deps_v() == old(self).recorded_deps_v(),
            match r {
                Some(t) => ({
                    &&& Some(t@) == old(self).dequeue_spec()
                    &&& deps_satisfied(t@, old(self).completed_v())
                    &&& exists|p: Priority, i: int|
                        0 <= i < old(self).band_v(p).len() && t@ == old(self).band_v(p)[i]
                            && final(self).band_v(p) =~= old(self).band_v(p).remove(i) && (
                        forall|q: Priority| q != p ==> final(self).band_v(q) == old(self).band_v(
                            q,
                        ))
                }),
                None => ({
                    &&& old(self).dequeue_spec() is None
                    &&& final(self).collections() == old(self).collections()
                }),
            },
    {
        let ghost pre = self.collections();
        if let Some(t) = take_eligible(&mut self.critical, &self.completed) {
            proof {
                old(self).collections_unfold();
                self.collections_unfold();
                assert(forall|c: int|
                    0 <= c < 7 && c != 0 ==> self.collections()[c] == pre[c]);
                lemma_first_eligible(old(self).critical_v(), old(self).completed_v());
                let fe = first_eligible(old(self).critical_v(), old(self).completed_v());
                assert(fe is Some);
                let i = fe.unwrap();
                assert(t@ == old(self).critical_v()[i]);
                assert(self.critical_v() =~= old(self).critical_v().remove(i));
                self.lemma_band_removal(pre, i, Priority::Critical);
                assert(Some(t@) == old(self).dequeue_spec());
                assert(forall|q: Priority|
                    q != Priority::Critical ==> self.band_v(q) == old(self).band_v(q));
                assert(0 <= i < old(self).band_v(Priority::Critical).len() && t@ == old(self).band_v(
                    Priority::Critical,
                )[i] && final(self).band_v(Priority::Critical) =~= old(self).band_v(
                    Priority::Critical,
                ).remove(i));
            }
            return Some(t);
        }
        if let Some(t) = take_eligible(&mut self.high, &self.completed) {
            proof {
                old(self).collections_unfold();
                self.collections_unfold();
                assert(forall|c: int|
                    0 <= c < 7 && c != 1 ==> self.collections()[c] == pre[c]);
                lemma_first_eligible(old(self).high_v(), old(self).completed_v());
                let fe = first_eligible(old(self).high_v(), old(self).completed_v());
                assert(fe is Some);
                let i = fe.unwrap();
                assert(t@ == old(self).high_v()[i]);
                assert(self.high_v() =~= old(self).high_v().remove(i));
                self.lemma_band_removal(pre, i, Priority::High);
                assert(Some(t@) == old(self).dequeue_spec());
                assert(forall|q: Priority|
                    q != Priority::High ==> self.band_v(q) == old(self).band_v(q));
                assert(0 <= i < old(self).band_v(Priority::High).len() && t@ == old(self).band_v(
                    Priority::High,
                )[i] && final(self).band_v(Priority::High) =~= old(self).band_v(
                    Priority::High,
                ).remove(i));
            }
            return Some(t);
        }
        if let Some(t) = take_eligible(&mut self.normal, &self.completed) {
            proof {
                old(self).collections_unfold();
                self.collections_unfold();
                assert(forall|c: int|
                    0 <= c < 7 && c != 2 ==> self.collections()[c] == pre[c]);
                lemma_first_eligible(old(self).normal_v(), old(self).completed_v());
                let fe = first_eligible(old(self).normal_v(), old(self).completed_v());
                assert(fe is Some);
                let i = fe.unwrap();
                assert(t@ == old(self).normal_v()[i]);
                assert(self.normal_v() =~= old(self).normal_v().remove(i));
                self.lemma_band_removal(pre, i, Priority::Normal);
                assert(Some(t@) == old(self).dequeue_spec());
                assert(forall|q: Priority|
                    q != Priority::Normal ==> self.band_v(q) == old(self).band_v(q));
                assert(0 <= i < old(self).band_v(Priority::Normal).len() && t@ == old(self).band_v(
                    Priority::Normal,
                )[i] && final(self).band_v(Priority::Normal) =~= old(self).band_v(
                    Priority::Normal,
                ).remove(i));
            }
            return Some(t);
        }
        if let Some(t) = take_eligible(&mut self.low, &self.completed) {
            proof {
                old(self).collections_unfold();
                self.collections_unfold();
                assert(forall|c: int|
                    0 <= c < 7 && c != 3 ==> self.collections()[c] == pre[c]);
                lemma_first_eligible(old(self).low_v(), old(self).completed_v());
                let fe = first_eligible(old(self).low_v(), old(self).completed_v());
                assert(fe is Some);
                let i = fe.unwrap();
                assert(t@ == old(self).low_v()[i]);
                assert(self.low_v() =~= old(self).low_v().remove(i));
                self.lemma_band_removal(pre, i, Priority::Low);
                assert(Some(t@) == old(self).dequeue_spec());
                assert(forall|q: Priority|
                    q != Priority::Low ==> self.band_v(q) == old(self).band_v(q));
                assert(0 <= i < old(self).band_v(Priority::Low).len() && t@ == old(self).band_v(
                    Priority::Low,
                )[i] && final(self).band_v(Priority::Low) =~= old(self).band_v(
                    Priority::Low,
                ).remove(i));
            }
            return Some(t);
        }
        proof {
            assert(final(self).collections() =~= old(self).collections());
        }
        None
    }

    /// The seven collections, by index.
    pub proof fn collections_unfold(&self)
        ensures
            self.collections().len() == 7,
            self.collections()[0] == self.critical_v(),
            self.collections()[1] == self.high_v(),
            self.collections()[2] == self.normal_v(),
            self.collections()[3] == self.low_v(),
            self.collections()[4] == self.in_progress_v(),
            self.collections()[5] == self.completed_v(),
            self.collections()[6] == self.failed_v(),
    {
    }

    /// After removing one element from one band, distinctness still holds.
    proof fn lemma_band_removal(&self, pre: Seq<Seq<TaskView>>, i: int, p: Priority)
        requires
            pre.len() == 7,
            forall|a: int, b: int, x: int, y: int|
                0 <= a < 7 && 0 <= b < 7 && 0 <= x < pre[a].len() && 0 <= y < pre[b].len() && (a
                    != b || x != y) ==> (#[trigger] pre[a][x]).id != (#[trigger] pre[b][y]).id,
            0 <= i < pre[p.rank_band()].len(),
            self.collections()[p.rank_band()] =~= pre[p.rank_band()].remove(i),
            forall|c: int| 0 <= c < 7 && c != p.rank_band() ==> self.collections()[c] == pre[c],
        ensures
            self.wf(),
    {
        let bi = p.rank_band();
        assert(forall|x: int|
            0 <= x < self.collections()[bi].len() ==> (#[trigger] self.collections()[bi][x])
                == if x < i {
                pre[bi][x]
            } else {
                pre[bi][x + 1]
            });
        assert forall|a: int, b: int, x: int, y: int|
            0 <= a < self.collections().len() && 0 <= b < self.collections().len() && 0 <= x
                < self.collections()[a].len() && 0 <= y < self.collections()[b].len() && (a != b
                || x != y) implies (#[trigger] self.collections()[a][x]).id != (
        #[trigger] self.collections()[b][y]).id by {
            let xa = if a == bi && x >= i {
                x + 1
            } else {
                x
            };
            let yb = if b == bi && y >= i {
                y + 1
            } else {
                y
            };
            if a == bi {
                assert(self.collections()[a][x] == pre[a][xa]);
            } else {
                assert(self.collections()[a] == pre[a]);
            }
            if b == bi {
                assert(self.collections()[b][y] == pre[b][yb]);
            } else {
                assert(self.collections()[b] == pre[b]);
            }
            assert(pre[a][xa].id != pre[b][yb].id);
        }
    }
}

impl Priority {
    /// The index of this band inside `collections()`.
    pub open spec fn rank_band(self) -> int {
        match self {
            Priority::Critical => 0,
            Priority::High => 1,
            Priority::Normal => 2,
            Priority::Low => 3,
        }
    }
}


impl TaskQueue {
    /// Moves a task into the in-progress collection, marking it
    /// `InProgress` and refreshing its update time. A task id already held
    /// anywhere is rejected, so the task keeps a single home.
    pub fn mark_in_progress(&mut self, task: Task, now: u64) -> (r: Result<(), AgentError>)
        requires
            old(self).wf(),
        ensures
            final(self).wf(),
            match r {
                Ok(()) => ({
                    &&& !old(self).knows_id(task@.id)
                    &&& final(self).in_progress_v() =~= old(self).in_progress_v().push(
                        TaskView { status: TaskStatusView::InProgress, updated_at: now as int, ..task@ },
                    )
                    &&& forall|p: Priority| final(self).band_v(p) == old(self).band_v(p)
                    &&& final(self).completed_v() == old(self).completed_v()
                    &&& final(self).failed_v() == old(self).failed_v()
                    &&& final(self).recorded_deps_v() == old(self).recorded_deps_v()
                }),
                Err(e) => ({
                    &&& old(self).knows_id(task@.id)
                    &&& e@ is InternalError
                    &&& final(self).collections() == old(self).collections()
                    &&& final(self).recorded_deps_v() == old(self).recorded_deps_v()
                }),
            },
    {
        if self.knows(&task.id) {
            return Err(AgentError::InternalError("task id already tracked".to_owned()));
        }
        let mut task = task;
        let ghost pre = self.collections();
        let ghost tv0 = task@;
        task.update_status(TaskStatus::InProgress, now);
        let ghost tv = task@;
        self.in_progress.push(task);
        proof {
            old(self).collections_unfold();
            self.collections_unfold();
            assert(final(self).in_progress_v() =~= old(self).in_progress_v().push(tv));
            assert forall|a: int, b: int, x: int, y: int|
                0 <= a < self.collections().len() && 0 <= b < self.collections().len() && 0 <= x
                    < self.collections()[a].len() && 0 <= y < self.collections()[b].len() && (a
                    != b || x != y) implies (#[trigger] self.collections()[a][x]).id != (
            #[trigger] self.collections()[b][y]).id by {
                assert(forall|c: int, z: int|
                    0 <= c < 7 && 0 <= z < self.collections()[c].len()
                        ==> (#[trigger] self.collections()[c][z]) == tv || (0 <= z < pre[c].len()
                        && self.collections()[c][z] == pre[c][z]));
                assert(!old(self).knows_id(tv.id));
            }
        }
        Ok(())
    }

    /// Moves the in-progress task with this id into the completed archive
    /// and clears its recorded dependencies.
    pub fn mark_completed(&mut self, task_id: &str, now: u64) -> (r: Result<(), AgentError>)
        requires
            old(self).wf(),
        ensures
            final(self).wf(),
            forall|p: Priority| final(self).band_v(p) == old(self).band_v(p),
            final(self).failed_v() == old(self).failed_v(),
            r is Ok ==> final(self).recorded_deps_v() =~= recorded_without(
                old(self).recorded_deps_v(),
                task_id@,
            ),
            match r {
                Ok(()) => exists|j: int|
                    0 <= j < old(self).in_progress_v().len() && (#[trigger] old(self).in_progress_v()[j]).id == task_id@ && final(self).in_progress_v() =~= old(self).in_progress_v().remove(j) && final(self).completed_v() =~= old(self).completed_v().push(
                        TaskView {
                            status: TaskStatusView::Completed,
                            updated_at: now as int,
                            ..old(self).in_progress_v()[j]
                        },
                    ),
                Err(e) => ({
                    &&& !contains_id(old(self).in_progress_v(), task_id@)
                    &&& e@ == AgentErrorView::TaskNotFound(task_id@)
                    &&& final(self).collections() == old(self).collections()
                    &&& final(self).recorded_deps_v() == old(self).recorded_deps_v()
                }),
            },
    {
        let ghost pre = self.collections();
        match find_task(&self.in_progress, task_id) {
            None => Err(AgentError::TaskNotFound(task_id.to_owned())),
            Some(j) => {
                let mut task = self.in_progress.remove(j);
                task.update_status(TaskStatus::Completed, now);
                let ghost tv = task@;
                self.completed.push(task);
                self.remove_recorded(task_id);
                proof {
                    self.lemma_move_out(pre, j as int, 4, 5, tv);
                }
                Ok(())
            },
        }
    }

    /// Moves the in-progress task with this id into the failed archive with
    /// the given reason.
    pub fn mark_failed(&mut self, task_id: &str, reason: String, now: u64) -> (r: Result<
        (),
        AgentError,
    >)
        requires
            old(self).wf(),
        ensures
            final(self).wf(),
            forall|p: Priority| final(self).band_v(p) == old(self).band_v(p),
            final(self).completed_v() == old(self).completed_v(),
            match r {
                Ok(()) => exists|j: int|
                    0 <= j < old(self).in_progress_v().len() && (#[trigger] old(self).in_progress_v()[j]).id == task_id@ && final(self).in_progress_v() =~= old(self).in_progress_v().remove(j) && final(self).failed_v() =~= old(self).failed_v().push(
                        TaskView {
                            status: TaskStatusView::Failed(reason@),
                            updated_at: now as int,
                            ..old(self).in_progress_v()[j]
                        },
                    ),
                Err(e) => ({
                    &&& !contains_id(old(self).in_progress_v(), task_id@)
                    &&& e@ == AgentErrorView::TaskNotFound(task_id@)
                    &&& final(self).collections() == old(self).collections()
                }),
            },
    {
        let ghost pre = self.collections();
        match find_task(&self.in_progress, task_id) {
            None => Err(AgentError::TaskNotFound(task_id.to_owned())),
            Some(j) => {
                let mut task = self.in_progress.remove(j);
                task.update_status(TaskStatus::Failed(reason), now);
                let ghost tv = task@;
                self.failed.push(task);
                proof {
                    self.lemma_move_out(pre, j as int, 4, 6, tv);
                }
                Ok(())
            },
        }
    }

    /// Drops any recorded dependency entry for this id.
    #[verifier::loop_isolation(false)]
    fn remove_recorded(&mut self, task_id: &str)
        ensures
            final(self).collections() == old(self).collections(),
            final(self).recorded_deps_v() =~= recorded_without(
                old(self).recorded_deps_v(),
                task_id@,
            ),
    {
        let tid = task_id.to_owned();
        let mut out: Vec<(String, Vec<String>)> = Vec::new();
        let ghost pre = self.recorded_deps_v();
        let mut k: usize = 0;
        while k < self.recorded_dependencies.len()
            invariant
                k <= self.recorded_dependencies.len(),
                self.recorded_deps_v() == pre,
                self.collections() == old(self).collections(),
                rec_pairs_view(out@) =~= recorded_without(pre.take(k as int), task_id@),
            decreases self.recorded_dependencies.len() - k,
        {
            let ghost osnap = rec_pairs_view(out@);
            proof {
                assert(pre[k as int].0 == self.recorded_dependencies@[k as int].0@);
                assert(pre.take(k as int + 1).drop_last() =~= pre.take(k as int));
                assert(pre.take(k as int + 1).last() == pre[k as int]);
            }
            if !(self.recorded_dependencies[k].0 == tid) {
                let key = self.recorded_dependencies[k].0.clone();
                let mut vals: Vec<String> = Vec::new();
                let mut v: usize = 0;
                while v < rec_len(&self.recorded_dependencies, k)
                    invariant
                        k < self.recorded_dependencies.len(),
                        v <= self.recorded_dependencies@[k as int].1.len(),
                        vals.len() == v,
                        forall|z: int| 0 <= z < v ==> vals.deep_view()[z]
                            == self.recorded_dependencies@[k as int].1.deep_view()[z],
                    decreases self.recorded_dependencies@[k as int].1.len() - v,
                {
                    let ghost vsnap = vals.deep_view();
                    vals.push(self.recorded_dependencies[k].1[v].clone());
                    proof {
                        assert(forall|z: int|
                            0 <= z < v ==> (#[trigger] vals.deep_view()[z]) == vsnap[z]);
                    }
                    v += 1;
                }
                proof {
                    assert(vals.deep_view() =~= self.recorded_dependencies@[k as int]
                        .1.deep_view());
                }
                out.push((key, vals));
                proof {
                    assert(rec_pairs_view(out@) =~= osnap.push(pre[k as int]));
                }
            }
            k += 1;
        }
        proof {
            assert(pre.take(pre.len() as int) =~= pre);
        }
        self.recorded_dependencies = out;
        proof {
            assert(final(self).recorded_deps_v() =~= rec_pairs_view(out@));
        }
    }

    /// Status of the task with this id, wherever it lives.
    pub fn get_task_status(&self, task_id: &str) -> (r: Option<TaskStatus>)
        ensures
            match r {
                Some(st) => exists|a: int, i: int|
                    0 <= a < self.collections().len() && 0 <= i < self.collections()[a].len()
                        && (#[trigger] self.collections()[a][i]).id == task_id@ && st@
                        == self.collections()[a][i].status,
                None => !self.knows_id(task_id@),
            },
    {
        proof {
            self.collections_unfold();
        }
        if let Some(j) = find_task(&self.in_progress, task_id) {
            return Some(self.in_progress[j].status.duplicate());
        }
        if let Some(j) = find_task(&self.completed, task_id) {
            return Some(self.completed[j].status.duplicate());
        }
        if let Some(j) = find_task(&self.failed, task_id) {
            return Some(self.failed[j].status.duplicate());
        }
        if let Some(j) = find_task(&self.critical, task_id) {
            return Some(self.critical[j].status.duplicate());
        }
        if let Some(j) = find_task(&self.high, task_id) {
            return Some(self.high[j].status.duplicate());
        }
        if let Some(j) = find_task(&self.normal, task_id) {
            return Some(self.normal[j].status.duplicate());
        }
        if let Some(j) = find_task(&self.low, task_id) {
            return Some(self.low[j].status.duplicate());
        }
        proof {
            assert(forall|a: int|
                0 <= a < self.collections().len() ==> !contains_id(
                    #[trigger] self.collections()[a],
                    task_id@,
                )) by {
                assert(!contains_id(self.collections()[0], task_id@));
                assert(!contains_id(self.collections()[1], task_id@));
                assert(!contains_id(self.collections()[2], task_id@));
                assert(!contains_id(self.collections()[3], task_id@));
                assert(!contains_id(self.collections()[4], task_id@));
                assert(!contains_id(self.collections()[5], task_id@));
                assert(!contains_id(self.collections()[6], task_id@));
            }
        }
        None
    }

    /// All pending tasks: the four bands in priority order.
    #[verifier::loop_isolation(false)]
    pub fn get_all_pending(&self) -> (r: Vec<Task>)
        ensures
            r.deep_view() =~= self.critical_v() + self.high_v() + self.normal_v()
                + self.low_v(),
    {
        let mut out: Vec<Task> = Vec::new();
        append_band(&mut out, &self.critical);
        append_band(&mut out, &self.high);
        append_band(&mut out, &self.normal);
        append_band(&mut out, &self.low);
        proof {
            assert(out.deep_view() =~= self.critical_v() + self.high_v() + self.normal_v()
                + self.low_v());
        }
        out
    }

    /// How many tasks are pending over all bands.
    pub fn size(&self) -> (r: usize)
        ensures
            self.critical_v().len() + self.high_v().len() + self.normal_v().len()
                + self.low_v().len() <= usize::MAX ==> r == self.critical_v().len()
                + self.high_v().len() + self.normal_v().len() + self.low_v().len(),
    {
        sat_add(
            sat_add(sat_add(self.critical.len(), self.high.len()), self.normal.len()),
            self.low.len(),
        )
    }

    /// Counts of tasks by collection.
    pub fn get_stats(&self) -> (r: TaskQueueStats)
        ensures
            self.critical_v().len() + self.high_v().len() + self.normal_v().len()
                + self.low_v().len() <= usize::MAX ==> r.pending == self.critical_v().len()
                + self.high_v().len() + self.normal_v().len() + self.low_v().len(),
            r.in_progress == self.in_progress_v().len(),
            r.completed == self.completed_v().len(),
            r.failed == self.failed_v().len(),
    {
        TaskQueueStats {
            pending: self.size(),
            in_progress: self.in_progress.len(),
            completed: self.completed.len(),
            failed: self.failed.len(),
        }
    }

    /// Drops pending tasks whose deadline has passed at `now` and counts
    /// them. In-progress tasks are never force-cancelled.
    pub fn cleanup_expired(&mut self, now: u64) -> (r: usize)
        requires
            old(self).wf(),
        ensures
            final(self).wf(),
            forall|p: Priority| final(self).band_v(p) =~= unexpired(old(self).band_v(p), now as int),
            final(self).in_progress_v() == old(self).in_progress_v(),
            final(self).completed_v() == old(self).completed_v(),
            final(self).failed_v() == old(self).failed_v(),
            final(self).recorded_deps_v() == old(self).recorded_deps_v(),
            old(self).critical_v().len() + old(self).high_v().len() + old(self).normal_v().len()
                + old(self).low_v().len() <= usize::MAX ==> r == (old(self).critical_v().len()
                - unexpired(old(self).critical_v(), now as int).len()) + (old(self).high_v().len() - unexpired(old(self).high_v(), now as int).len()) + (old(self).normal_v().len() - unexpired(old(self).normal_v(), now as int).len()) + (old(self).low_v().len() - unexpired(old(self).low_v(), now as int).len()),
    {
        let ghost pre = self.collections();
        let c1 = sweep_band(&mut self.critical, now);
        let c2 = sweep_band(&mut self.high, now);
        let c3 = sweep_band(&mut self.normal, now);
        let c4 = sweep_band(&mut self.low, now);
        proof {
            old(self).collections_unfold();
            self.collections_unfold();
            lemma_unexpired_subset(pre[0], now as int);
            lemma_unexpired_subset(pre[1], now as int);
            lemma_unexpired_subset(pre[2], now as int);
            lemma_unexpired_subset(pre[3], now as int);
            assert forall|a: int, b: int, x: int, y: int|
                0 <= a < self.collections().len() && 0 <= b < self.collections().len() && 0 <= x
                    < self.collections()[a].len() && 0 <= y < self.collections()[b].len() && (a
                    != b || x != y) implies (#[trigger] self.collections()[a][x]).id != (
            #[trigger] self.collections()[b][y]).id by {
                if a == b && a < 4 {
                    assert(self.collections()[a][x].id != self.collections()[b][y].id);
                } else {
                    let xa: int = if a < 4 {
                        choose|j: int| 0 <= j < pre[a].len() && self.collections()[a][x] == pre[
                            a][j]
                    } else {
                        x
                    };
                    let yb: int = if b < 4 {
                        choose|j: int| 0 <= j < pre[b].len() && self.collections()[b][y] == pre[
                            b][j]
                    } else {
                        y
                    };
                    assert(self.collections()[a][x] == pre[a][xa]);
                    assert(self.collections()[b][y] == pre[b][yb]);
                    assert(pre[a][xa].id != pre[b][yb].id);
                }
            }
        }
        sat_add(sat_add(sat_add(c1, c2), c3), c4)
    }
}

/// The recorded entries whose key is not `id`, in order.
pub open spec fn recorded_without(
    s: Seq<(Seq<char>, Seq<Seq<char>>)>,
    id: Seq<char>,
) -> Seq<(Seq<char>, Seq<Seq<char>>)>
    decreases s.len(),
{
    if s.len() == 0 {
        Seq::empty()
    } else if s.last().0 != id {
        recorded_without(s.drop_last(), id).push(s.last())
    } else {
        recorded_without(s.drop_last(), id)
    }
}

/// Ghost form of a recorded-dependency list.
pub open spec fn rec_pairs_view(pairs: Seq<(String, Vec<String>)>) -> Seq<(
    Seq<char>,
    Seq<Seq<char>>,
)> {
    Seq::new(
        pairs.len(),
        |i: int|
            if 0 <= i < pairs.len() {
                (pairs[i].0@, pairs[i].1.deep_view())
            } else {
                (Seq::<char>::empty(), Seq::<Seq<char>>::empty())
            },
    )
}

/// Length of the value list of one recorded entry.
fn rec_len(pairs: &Vec<(String, Vec<String>)>, k: usize) -> (r: usize)
    requires
        k < pairs@.len(),
    ensures
        r == pairs@[k as int].1.len(),
{
    pairs[k].1.len()
}

/// The position of the task with this id, if present.
#[verifier::loop_isolation(false)]
fn find_task(tasks: &Vec<Task>, id: &str) -> (r: Option<usize>)
    ensures
        match r {
            Some(j) => j < tasks.deep_view().len() && tasks.deep_view()[j as int].id == id@,
            None => !contains_id(tasks.deep_view(), id@),
        },
{
    let id_owned = id.to_owned();
    let mut k: usize = 0;
    while k < tasks.len()
        invariant
            k <= tasks.len(),
            forall|j: int| 0 <= j < k ==> tasks.deep_view()[j].id != id@,
        decreases tasks.len() - k,
    {
        if tasks[k].id == id_owned {
            return Some(k);
        }
        k += 1;
    }
    None
}

/// Appends duplicates of a whole band.
#[verifier::loop_isolation(false)]
fn append_band(out: &mut Vec<Task>, band: &Vec<Task>)
    ensures
        final(out).deep_view() =~= old(out).deep_view() + band.deep_view(),
{
    let mut k: usize = 0;
    while k < band.len()
        invariant
            k <= band.len(),
            out.deep_view() =~= old(out).deep_view() + band.deep_view().take(k as int),
        decreases band.len() - k,
    {
        let ghost osnap = out.deep_view();
        out.push(band[k].duplicate());
        proof {
            assert(forall|i: int| 0 <= i < osnap.len() ==> (#[trigger] out.deep_view()[i])
                == osnap[i]);
            assert(out.deep_view() =~= old(out).deep_view() + band.deep_view().take(
                k as int + 1,
            ));
        }
        k += 1;
    }
    proof {
        assert(band.deep_view().take(band.deep_view().len() as int) =~= band.deep_view());
    }
}

/// Keeps only the unexpired tasks of one band; returns how many fell away.
#[verifier::loop_isolation(false)]
fn sweep_band(band: &mut Vec<Task>, now: u64) -> (r: usize)
    ensures
        final(band).deep_view() =~= unexpired(old(band).deep_view(), now as int),
        r == old(band).deep_view().len() - final(band).deep_view().len(),
{
    let ghost dv = old(band).deep_view();
    let mut out: Vec<Task> = Vec::new();
    let mut k: usize = 0;
    while k < band.len()
        invariant
            k <= band.len(),
            band.deep_view() == dv,
            out.deep_view() =~= unexpired(dv.take(k as int), now as int),
            out.len() <= k,
        decreases band.len() - k,
    {
        proof {
            assert(dv.take(k as int + 1).drop_last() =~= dv.take(k as int));
            assert(dv.take(k as int + 1).last() == dv[k as int]);
        }
        if !band[k].is_expired(now) {
            let ghost osnap = out.deep_view();
            out.push(band[k].duplicate());
            proof {
                assert(forall|i: int|
                    0 <= i < osnap.len() ==> (#[trigger] out.deep_view()[i]) == osnap[i]);
                assert(out.deep_view() =~= unexpired(dv.take(k as int + 1), now as int));
            }
        }
        k += 1;
    }
    proof {
        assert(dv.take(dv.len() as int) =~= dv);
        lemma_unexpired_subset(dv, now as int);
    }
    let removed = band.len() - out.len();
    *band = out;
    removed
}

/// Priority ordering: in a queue holding exactly one `Critical` and one
/// `Low` task, neither with dependencies, dispatch picks the `Critical` one;
/// once it is gone, the `Low` one.
pub proof fn lemma_priority_order(q1: &TaskQueue, q2: &TaskQueue, a: TaskView, b: TaskView)
    requires
        q1.critical_v() == seq![a],
        q1.low_v() == seq![b],
        q1.high_v().len() == 0,
        q1.normal_v().len() == 0,
        a.dependencies.len() == 0,
        b.dependencies.len() == 0,
        q2.critical_v().len() == 0,
        q2.high_v().len() == 0,
        q2.normal_v().len() == 0,
        q2.low_v() == seq![b],
    ensures
        q1.dequeue_spec() == Some(a),
        q2.dequeue_spec() == Some(b),
{
    assert(deps_satisfied(a, q1.completed_v()));
    assert(deps_satisfied(b, q2.completed_v()));
    assert(first_eligible(q1.critical_v(), q1.completed_v()) == Some(0int));
    assert(first_eligible(q2.critical_v(), q2.completed_v()) is None);
    assert(first_eligible(q2.high_v(), q2.completed_v()) is None);
    assert(first_eligible(q2.normal_v(), q2.completed_v()) is None);
    assert(first_eligible(q2.low_v(), q2.completed_v()) == Some(0int));
}

/// Dependency gating: with task `a` (`Critical`, depending on `b`) and task
/// `b` (`Low`, no dependencies), dispatch first picks `b`; once `b` is in
/// the completed archive, it picks `a`.
pub proof fn lemma_dependency_gating(q1: &TaskQueue, q2: &TaskQueue, a: TaskView, b: TaskView)
    requires
        a.dependencies == seq![b.id],
        b.dependencies.len() == 0,
        q1.critical_v() == seq![a],
        q1.low_v() == seq![b],
        q1.high_v().len() == 0,
        q1.normal_v().len() == 0,
        q1.completed_v().len() == 0,
        q2.critical_v() == seq![a],
        q2.high_v().len() == 0,
        q2.normal_v().len() == 0,
        q2.low_v().len() == 0,
        contains_id(q2.completed_v(), b.id),
    ensures
        q1.dequeue_spec() == Some(b),
        q2.dequeue_spec() == Some(a),
{
    assert(a.dependencies[0] == b.id);
    if contains_id(q1.completed_v(), b.id) {
        let k = choose|k: int|
            0 <= k < q1.completed_v().len() && q1.completed_v()[k].id == b.id;
        assert(false);
    }
    assert(0 <= 0 < a.dependencies.len() && !contains_id(
        q1.completed_v(),
        a.dependencies[0],
    ));
    assert(!deps_satisfied(a, q1.completed_v()));
    assert(q1.critical_v().drop_first() =~= Seq::<TaskView>::empty());
    assert(first_eligible(Seq::<TaskView>::empty(), q1.completed_v()) is None);
    assert(first_eligible(q1.critical_v(), q1.completed_v()) is None);
    assert(first_eligible(q1.high_v(), q1.completed_v()) is None);
    assert(first_eligible(q1.normal_v(), q1.completed_v()) is None);
    assert(deps_satisfied(b, q1.completed_v()));
    assert(first_eligible(q1.low_v(), q1.completed_v()) == Some(0int));
    assert(deps_satisfied(a, q2.completed_v()));
    assert(first_eligible(q2.critical_v(), q2.completed_v()) == Some(0int));
}


impl TaskQueue {
    /// Moving a task between collections with its id intact keeps every id
    /// in a single home.
    proof fn lemma_move_out(&self, pre: Seq<Seq<TaskView>>, j: int, from: int, to: int, tv: TaskView)
        requires
            pre.len() == 7,
            0 <= from < 7,
            0 <= to < 7,
            from != to,
            forall|a: int, b: int, x: int, y: int|
                0 <= a < 7 && 0 <= b < 7 && 0 <= x < pre[a].len() && 0 <= y < pre[b].len() && (a
                    != b || x != y) ==> (#[trigger] pre[a][x]).id != (#[trigger] pre[b][y]).id,
            0 <= j < pre[from].len(),
            tv.id == pre[from][j].id,
            self.collections()[from] =~= pre[from].remove(j),
            self.collections()[to] =~= pre[to].push(tv),
            forall|c: int|
                0 <= c < 7 && c != from && c != to ==> self.collections()[c] == pre[c],
        ensures
            self.wf(),
    {
        assert(forall|x: int|
            0 <= x < self.collections()[from].len() ==> (#[trigger] self.collections()[from][
                x]) == if x < j {
                pre[from][x]
            } else {
                pre[from][x + 1]
            });
        assert forall|a: int, b: int, x: int, y: int|
            0 <= a < self.collections().len() && 0 <= b < self.collections().len() && 0 <= x
                < self.collections()[a].len() && 0 <= y < self.collections()[b].len() && (a != b
                || x != y) implies (#[trigger] self.collections()[a][x]).id != (
        #[trigger] self.collections()[b][y]).id by {
            let xa: int = if a == from && x >= j {
                x + 1
            } else {
                x
            };
            let ya: int = if b == from && y >= j {
                y + 1
            } else {
                y
            };
            let oa: int = if a == to && x == pre[to].len() {
                from
            } else {
                a
            };
            let ob: int = if b == to && y == pre[to].len() {
                from
            } else {
                b
            };
            let fxa: int = if a == to && x == pre[to].len() {
                j
            } else {
                xa
            };
            let fyb: int = if b == to && y == pre[to].len() {
                j
            } else {
                ya
            };
            assert((self.collections()[a][x]).id == pre[oa][fxa].id);
            assert((self.collections()[b][y]).id == pre[ob][fyb].id);
            assert(oa != ob || fxa != fyb);
        }
    }
}


} // verus!
