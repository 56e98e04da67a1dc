//! The task queue: pending tasks in FIFO order, the active task and the completed ones.
use vstd::prelude::*;

use crate::text::{join, join_strings};

verus! {

/// A task: its id and what it is about.
pub struct TaskItem {
    pub id: String,
    pub description: String,
}

impl Clone for TaskItem {
    fn clone(&self) -> (res: Self)
        ensures
            res == *self,
    {
        TaskItem { id: self.id.clone(), description: self.description.clone() }
    }
}

pub open spec fn task_view(t: TaskItem) -> (Seq<char>, Seq<char>) {
    (t.id@, t.description@)
}

pub open spec fn tasks_view(s: Seq<TaskItem>) -> Seq<(Seq<char>, Seq<char>)> {
    s.map_values(|t: TaskItem| task_view(t))
}

/// The description stored last for `id` in an association list.
pub open spec fn lookup(s: Seq<(Seq<char>, Seq<char>)>, id: Seq<char>) -> Option<Seq<char>>
    decreases s.len(),
{
    if s.len() == 0 {
        None
    } else if s.last().0 == id {
        Some(s.last().1)
    } else {
        lookup(s.drop_last(), id)
    }
}

/// The entries of `s` whose id is not `id`.
pub open spec fn without_id(s: Seq<(Seq<char>, Seq<char>)>, id: Seq<char>) -> Seq<
    (Seq<char>, Seq<char>),
>
    decreases s.len(),
{
    if s.len() == 0 {
        Seq::empty()
    } else {
        let rest = without_id(s.drop_last(), id);
        if s.last().0 == id {
            rest
        } else {
            rest.push(s.last())
        }
    }
}

/// The ids of `s` other than `id`, in order.
pub open spec fn without(s: Seq<Seq<char>>, id: Seq<char>) -> Seq<Seq<char>>
    decreases s.len(),
{
    if s.len() == 0 {
        Seq::empty()
    } else {
        let rest = without(s.drop_last(), id);
        if s.last() == id {
            rest
        } else {
            rest.push(s.last())
        }
    }
}

/// The pending tasks as a map from id to description.
pub open spec fn as_map(s: Seq<(Seq<char>, Seq<char>)>) -> Map<Seq<char>, Seq<char>> {
    Map::new(|k: Seq<char>| lookup(s, k) is Some, |k: Seq<char>| lookup(s, k)->0)
}

/// The pending tasks listed in queue order: each id of `order` that has a task, with it.
pub open spec fn listing(order: Seq<Seq<char>>, tasks: Map<Seq<char>, Seq<char>>) -> Seq<
    (Seq<char>, Seq<char>),
>
    decreases order.len(),
{
    if order.len() == 0 {
        Seq::empty()
    } else {
        let rest = listing(order.drop_last(), tasks);
        if tasks.contains_key(order.last()) {
            rest.push((order.last(), tasks[order.last()]))
        } else {
            rest
        }
    }
}

/// The state of a queue.
pub struct QueueView {
    /// Pending tasks by id.
    pub tasks: Map<Seq<char>, Seq<char>>,
    /// Ids in the order in which they were added (an id added twice appears twice).
    pub order: Seq<Seq<char>>,
    /// Completed tasks, in completion order.
    pub completed: Seq<(Seq<char>, Seq<char>)>,
    /// The task being worked on.
    pub active: Option<(Seq<char>, Seq<char>)>,
}

/// Every pending task is still in the order it was added in: the ids of the tasks are ids
/// of the order (an id stays in the order until its task leaves the queue).
pub open spec fn queue_wf(q: QueueView) -> bool {
    forall|k: Seq<char>| #[trigger] q.tasks.contains_key(k) ==> q.order.contains(k)
}

/// The task queue.
pub struct TaskQueue {
    tasks: Vec<TaskItem>,
    order: Vec<String>,
    completed: Vec<TaskItem>,
    active: Option<TaskItem>,
}

impl View for TaskQueue {
    type V = QueueView;

    closed spec fn view(&self) -> QueueView {
        QueueView {
            tasks: as_map(tasks_view(self.tasks@)),
            order: self.order@.map_values(|s: String| s@),
            completed: tasks_view(self.completed@),
            active: match self.active {
                Some(t) => Some(task_view(t)),
                None => None,
            },
        }
    }
}

proof fn lemma_lookup_without(s: Seq<(Seq<char>, Seq<char>)>, id: Seq<char>, k: Seq<char>)
    ensures
        lookup(without_id(s, id), k) == if k == id {
            None
        } else {
            lookup(s, k)
        },
    decreases s.len(),
{
    if s.len() > 0 {
        lemma_lookup_without(s.drop_last(), id, k);
        let rest = without_id(s.drop_last(), id);
        if s.last().0 != id {
            assert(rest.push(s.last()).drop_last() =~= rest);
        }
    }
}

proof fn lemma_lookup_some_exists(s: Seq<(Seq<char>, Seq<char>)>, k: Seq<char>)
    ensures
        (lookup(s, k) is Some) <==> exists|i: int| 0 <= i < s.len() && (#[trigger] s[i]).0 == k,
    decreases s.len(),
{
    if s.len() > 0 {
        lemma_lookup_some_exists(s.drop_last(), k);
        if lookup(s, k) is Some && s.last().0 != k {
            let i = choose|i: int| 0 <= i < s.len() - 1 && (#[trigger] s.drop_last()[i]).0 == k;
            assert(s[i] == s.drop_last()[i]);
        }
        if exists|i: int| 0 <= i < s.len() && (#[trigger] s[i]).0 == k {
            let i = choose|i: int| 0 <= i < s.len() && (#[trigger] s[i]).0 == k;
            if i < s.len() - 1 {
                assert(s.drop_last()[i] == s[i]);
            }
        }
    }
}

proof fn lemma_without_keeps(s: Seq<Seq<char>>, id: Seq<char>, k: Seq<char>)
    requires
        s.contains(k),
        k != id,
    ensures
        without(s, id).contains(k),
    decreases s.len(),
{
    let rest = without(s.drop_last(), id);
    if s.last() == k {
        assert(rest.push(k).last() == k);
    } else {
        let i = choose|i: int| 0 <= i < s.len() && s[i] == k;
        assert(s.drop_last()[i] == k);
        lemma_without_keeps(s.drop_last(), id, k);
        if s.last() != id {
            let j = choose|j: int| 0 <= j < rest.len() && rest[j] == k;
            assert(rest.push(s.last())[j] == k);
        }
    }
}

proof fn lemma_map_empty_iff(s: Seq<(Seq<char>, Seq<char>)>)
    ensures
        (as_map(s).dom() =~= Set::<Seq<char>>::empty()) <==> s.len() == 0,
{
    if s.len() > 0 {
        lemma_lookup_some_exists(s, s[0].0);
        assert(as_map(s).dom().contains(s[0].0));
    } else {
        assert forall|k: Seq<char>| !as_map(s).dom().contains(k) by {
            lemma_lookup_some_exists(s, k);
        }
    }
}

/// The Markdown listing of a queue: completed tasks, then pending ones, or a note that
/// there is none.
pub open spec fn queue_listing(q: QueueView) -> Seq<char> {
    join(queue_parts(q), "\n"@)
}

pub open spec fn task_line(t: (Seq<char>, Seq<char>)) -> Seq<char> {
    "- "@ + t.0 + ": "@ + t.1
}

pub open spec fn task_lines(s: Seq<(Seq<char>, Seq<char>)>) -> Seq<Seq<char>> {
    s.map_values(|t: (Seq<char>, Seq<char>)| task_line(t))
}

/// The lines of the listing: a heading and one line per completed task (if any), a heading
/// and one line per pending task that is still known (if the order is not empty), and a
/// note when both are empty.
pub open spec fn queue_parts(q: QueueView) -> Seq<Seq<char>> {
    let done = if q.completed.len() > 0 {
        seq!["### 已完成"@] + task_lines(q.completed)
    } else {
        Seq::empty()
    };
    let pending = if q.order.len() > 0 {
        seq!["### 待处理"@] + task_lines(listing(q.order, q.tasks))
    } else if q.completed.len() == 0 {
        seq!["_暂无任务_"@]
    } else {
        Seq::empty()
    };
    done + pending
}

impl TaskQueue {
    #[verifier::type_invariant]
    spec fn inv(self) -> bool {
        queue_wf(self@)
    }

    /// An empty queue.
    pub fn new() -> (q: Self)
        ensures
            queue_wf(q@),
            q@.tasks == Map::<Seq<char>, Seq<char>>::empty(),
            q@.order == Seq::<Seq<char>>::empty(),
            q@.completed == Seq::<(Seq<char>, Seq<char>)>::empty(),
            q@.active is None,
    {
        let q = TaskQueue { tasks: Vec::new(), order: Vec::new(), completed: Vec::new(), active: None };
        proof {
            assert(as_map(tasks_view(q.tasks@)) =~= Map::<Seq<char>, Seq<char>>::empty());
            assert(q.order@.map_values(|s: String| s@) =~= Seq::<Seq<char>>::empty());
            assert(tasks_view(q.completed@) =~= Seq::<(Seq<char>, Seq<char>)>::empty());
        }
        q
    }

    /// Moves the parts out of the queue, which is left empty.
    fn take_parts(&mut self) -> (r: (Vec<TaskItem>, Vec<String>, Vec<TaskItem>, Option<TaskItem>))
        ensures
            r.0 == old(self).tasks,
            r.1 == old(self).order,
            r.2 == old(self).completed,
            r.3 == old(self).active,
            queue_wf(old(self)@),
    {
        proof {
            use_type_invariant(&*self);
        }
        let mut q = TaskQueue { tasks: Vec::new(), order: Vec::new(), completed: Vec::new(), active: None };
        proof {
            assert(as_map(tasks_view(q.tasks@)) =~= Map::<Seq<char>, Seq<char>>::empty());
        }
        std::mem::swap(&mut q, self);
        let TaskQueue { tasks, order, completed, active } = q;
        (tasks, order, completed, active)
    }

    fn drop_id_from_tasks(&mut self, id: &String)
        ensures
            tasks_view(final(self).tasks@) == without_id(tasks_view(old(self).tasks@), id@),
            final(self).order == old(self).order,
            final(self).completed == old(self).completed,
            final(self).active == old(self).active,
    {
        let ghost tv = tasks_view(self.tasks@);
        let mut kept: Vec<TaskItem> = Vec::new();
        let mut i: usize = 0;
        while i < self.tasks.len()
            invariant
                i <= self.tasks.len(),
                tv == tasks_view(self.tasks@),
                tasks_view(kept@) =~= without_id(tv.take(i as int), id@),
            decreases self.tasks.len() - i,
        {
            proof {
                assert(tv.take(i + 1).drop_last() =~= tv.take(i as int));
                assert(tv.take(i + 1).last() == task_view(self.tasks@[i as int]));
            }
            if self.tasks[i].id != *id {
                let c = self.tasks[i].clone();
                let ghost old_kept = kept@;
                kept.push(c);
                proof {
                    assert(tasks_view(kept@) =~= tasks_view(old_kept).push(task_view(c)));
                }
            }
            i = i + 1;
        }
        proof {
            assert(tv.take(self.tasks.len() as int) =~= tv);
            use_type_invariant(&*self);
            assert(tasks_view(kept@) == without_id(tv, id@));
            assert(self@.tasks == as_map(tv));
            assert forall|k: Seq<char>| #[trigger] as_map(tasks_view(kept@)).contains_key(k) implies self@.order.contains(k) by {
                lemma_lookup_without(tv, id@, k);
                assert(lookup(tasks_view(kept@), k) is Some);
                assert(lookup(tv, k) is Some);
                assert(as_map(tv).contains_key(k));
                assert(self@.tasks.contains_key(k));
            }
        }
        self.tasks = kept;
    }

    fn drop_id_from_order(&mut self, id: &String)
        requires
            !old(self)@.tasks.contains_key(id@),
        ensures
            final(self).order@.map_values(|s: String| s@) == without(
                old(self).order@.map_values(|s: String| s@),
                id@,
            ),
            final(self).tasks == old(self).tasks,
            final(self).completed == old(self).completed,
            final(self).active == old(self).active,
    {
        let ghost ov = self.order@.map_values(|s: String| s@);
        let mut kept: Vec<String> = Vec::new();
        let mut i: usize = 0;
        while i < self.order.len()
            invariant
                i <= self.order.len(),
                ov == self.order@.map_values(|s: String| s@),
                kept@.map_values(|s: String| s@) =~= without(ov.take(i as int), id@),
            decreases self.order.len() - i,
        {
            proof {
                assert(ov.take(i + 1).drop_last() =~= ov.take(i as int));
                assert(ov.take(i + 1).last() == self.order@[i as int]@);
            }
            if self.order[i] != *id {
                let c = self.order[i].clone();
                let ghost old_kept = kept@;
                kept.push(c);
                proof {
                    assert(kept@.map_values(|s: String| s@) =~= old_kept.map_values(
                        |s: String| s@,
                    ).push(c@));
                }
            }
            i = i + 1;
        }
        proof {
            assert(ov.take(self.order.len() as int) =~= ov);
            use_type_invariant(&*self);
            assert forall|k: Seq<char>| #[trigger] self@.tasks.contains_key(k) implies kept@.map_values(|s: String| s@).contains(k) by {
                lemma_without_keeps(ov, id@, k);
            }
        }
        self.order = kept;
    }

    fn find_task(&self, id: &String) -> (r: Option<TaskItem>)
        ensures
            match r {
                Some(t) => lookup(tasks_view(self.tasks@), id@) == Some(t.description@)
                    && t.id@ == id@,
                None => lookup(tasks_view(self.tasks@), id@) is None,
            },
    {
        let ghost tv = tasks_view(self.tasks@);
        let mut j: usize = self.tasks.len();
        proof {
            assert(tv.take(j as int) =~= tv);
        }
        while j > 0
            invariant
                j <= self.tasks.len(),
                tv == tasks_view(self.tasks@),
                lookup(tv, id@) == lookup(tv.take(j as int), id@),
            decreases j,
        {
            proof {
                assert(tv.take(j as int).drop_last() =~= tv.take(j - 1));
                assert(tv.take(j as int).last() == task_view(self.tasks@[j - 1]));
            }
            if self.tasks[j - 1].id == *id {
                return Some(self.tasks[j - 1].clone());
            }
            j = j - 1;
        }
        None
    }

    /// Adds a task at the back of the queue (a task with the same id is replaced, and the
    /// id is appended to the order again).
    pub fn add(&mut self, id: String, description: String)
        ensures
            queue_wf(final(self)@),
            final(self)@ == added(old(self)@, id@, description@),
            final(self)@.tasks == old(self)@.tasks.insert(id@, description@),
            final(self)@.order == old(self)@.order.push(id@),
            final(self)@.completed == old(self)@.completed,
            final(self)@.active == old(self)@.active,
    {
        let ghost old_tv = tasks_view(self.tasks@);
        let ghost old_ov = self.order@.map_values(|s: String| s@);
        self.drop_id_from_tasks(&id);
        let ghost mid = tasks_view(self.tasks@);
        let key = id.clone();
        let ghost q1 = self@;
        let (mut tasks, mut order, completed, active) = self.take_parts();
        order.push(id);
        tasks.push(TaskItem { id: key, description });
        proof {
            assert(tasks_view(tasks@) =~= mid.push((id@, description@)));
            assert forall|k: Seq<char>|
                #![trigger lookup(tasks_view(tasks@), k)]
                lookup(tasks_view(tasks@), k) == if k == id@ {
                    Some(description@)
                } else {
                    lookup(old_tv, k)
                } by {
                assert(mid.push((id@, description@)).drop_last() =~= mid);
                lemma_lookup_without(old_tv, id@, k);
            }
            assert(as_map(tasks_view(tasks@)) =~= as_map(old_tv).insert(id@, description@));
            assert(order@.map_values(|s: String| s@) =~= old_ov.push(id@));
            assert forall|k: Seq<char>| #[trigger] as_map(tasks_view(tasks@)).contains_key(k) implies order@.map_values(|s: String| s@).contains(k) by {
                if k == id@ {
                    assert(order@.map_values(|s: String| s@)[order@.len() - 1] == id@);
                } else {
                    lemma_lookup_without(old_tv, id@, k);
                    assert(lookup(mid, k) is Some);
                    assert(q1.tasks.contains_key(k));
                    assert(q1.order.contains(k));
                    let i = choose|i: int| 0 <= i < q1.order.len() && q1.order[i] == k;
                    assert(order@.map_values(|s: String| s@)[i] == k);
                }
            }
        }
        *self = TaskQueue { tasks, order, completed, active };
        proof {
            use_type_invariant(&*self);
        }
    }

    /// Removes the task `id` from the queue and returns it; `None` when there is none.
    /// The id leaves the order in every case.
    pub fn remove(&mut self, id: &str) -> (r: Option<TaskItem>)
        ensures
            queue_wf(final(self)@),
            final(self)@.tasks == old(self)@.tasks.remove(id@),
            final(self)@.order == without(old(self)@.order, id@),
            final(self)@.completed == old(self)@.completed,
            final(self)@.active == old(self)@.active,
            match r {
                Some(t) => old(self)@.tasks.contains_key(id@) && t.id@ == id@ && t.description@
                    == old(self)@.tasks[id@],
                None => !old(self)@.tasks.contains_key(id@),
            },
    {
        let key = id.to_owned();
        let r = self.remove_key(&key);
        proof {
            use_type_invariant(&*self);
        }
        r
    }

    fn remove_key(&mut self, key: &String) -> (r: Option<TaskItem>)
        ensures
            final(self)@.tasks == old(self)@.tasks.remove(key@),
            final(self)@.order == without(old(self)@.order, key@),
            final(self)@.completed == old(self)@.completed,
            final(self)@.active == old(self)@.active,
            match r {
                Some(t) => old(self)@.tasks.contains_key(key@) && t.id@ == key@ && t.description@
                    == old(self)@.tasks[key@],
                None => !old(self)@.tasks.contains_key(key@),
            },
    {
        let ghost old_tv = tasks_view(self.tasks@);
        let found = self.find_task(key);
        self.drop_id_from_tasks(key);
        proof {
            lemma_lookup_without(old_tv, key@, key@);
        }
        self.drop_id_from_order(key);
        proof {
            assert forall|k: Seq<char>| #![trigger lookup(tasks_view(self.tasks@), k)]
                lookup(tasks_view(self.tasks@), k) == if k == key@ {
                    None
                } else {
                    lookup(old_tv, k)
                } by {
                lemma_lookup_without(old_tv, key@, k);
            }
            assert(as_map(tasks_view(self.tasks@)) =~= as_map(old_tv).remove(key@));
        }
        found
    }

    /// Takes the task at the front of the queue (FIFO); `None` when the order is empty.
    pub fn pop_front(&mut self) -> (r: Option<TaskItem>)
        ensures
            queue_wf(final(self)@),
            old(self)@.order.len() == 0 ==> final(self)@ == old(self)@ && r is None,
            old(self)@.order.len() > 0 ==> {
                let id = old(self)@.order[0];
                &&& final(self)@ == popped(old(self)@)
                &&& final(self)@.tasks == old(self)@.tasks.remove(id)
                &&& final(self)@.order == old(self)@.order.drop_first()
                &&& final(self)@.completed == old(self)@.completed
                &&& final(self)@.active == old(self)@.active
                &&& match r {
                    Some(t) => old(self)@.tasks.contains_key(id) && t.id@ == id && t.description@
                        == old(self)@.tasks[id],
                    None => !old(self)@.tasks.contains_key(id),
                }
            },
    {
        proof {
            use_type_invariant(&*self);
        }
        if self.order.len() == 0 {
            return None;
        }
        let ghost old_tv = tasks_view(self.tasks@);
        let ghost old_ov = self.order@.map_values(|s: String| s@);
        let id = self.order[0].clone();
        let found = self.find_task(&id);
        self.drop_id_from_tasks(&id);
        let ghost mid = tasks_view(self.tasks@);
        let ghost q1 = self@;
        let (tasks, mut order, completed, active) = self.take_parts();
        order.remove(0);
        proof {
            assert(order@.map_values(|s: String| s@) =~= old_ov.drop_first());
            assert forall|k: Seq<char>| #![trigger lookup(tasks_view(tasks@), k)]
                lookup(tasks_view(tasks@), k) == if k == id@ {
                    None
                } else {
                    lookup(old_tv, k)
                } by {
                lemma_lookup_without(old_tv, id@, k);
            }
            assert(as_map(tasks_view(tasks@)) =~= as_map(old_tv).remove(id@));
            assert forall|k: Seq<char>| #[trigger] as_map(tasks_view(tasks@)).contains_key(k) implies order@.map_values(|s: String| s@).contains(k) by {
                assert(lookup(tasks_view(tasks@), k) is Some);
                assert(mid == tasks_view(tasks@));
                assert(q1.tasks.contains_key(k));
                assert(q1.order.contains(k));
                let i = choose|i: int| 0 <= i < q1.order.len() && q1.order[i] == k;
                assert(k != id@);
                assert(q1.order[0] == id@);
                assert(i != 0);
                assert(order@.map_values(|s: String| s@)[i - 1] == k);
            }
        }
        *self = TaskQueue { tasks, order, completed, active };
        proof {
            use_type_invariant(&*self);
        }
        found
    }

    /// Whether no task is pending.
    pub fn is_empty(&self) -> (b: bool)
        ensures
            b == (self@.tasks.dom() =~= Set::<Seq<char>>::empty()),
    {
        proof {
            lemma_map_empty_iff(tasks_view(self.tasks@));
        }
        self.tasks.len() == 0
    }

    /// The pending tasks in queue order.
    pub fn list(&self) -> (r: Vec<TaskItem>)
        ensures
            queue_wf(self@),
            tasks_view(r@) == listing(self@.order, self@.tasks),
    {
        proof {
            use_type_invariant(self);
        }
        let ghost ov = self.order@.map_values(|s: String| s@);
        let ghost m = self@.tasks;
        let mut r: Vec<TaskItem> = Vec::new();
        let mut i: usize = 0;
        while i < self.order.len()
            invariant
                i <= self.order.len(),
                ov == self.order@.map_values(|s: String| s@),
                m == as_map(tasks_view(self.tasks@)),
                tasks_view(r@) =~= listing(ov.take(i as int), m),
            decreases self.order.len() - i,
        {
            proof {
                assert(ov.take(i + 1).drop_last() =~= ov.take(i as int));
                assert(ov.take(i + 1).last() == self.order@[i as int]@);
            }
            match self.find_task(&self.order[i]) {
                Some(t) => {
                    let ghost old_r = r@;
                    r.push(t);
                    proof {
                        assert(tasks_view(r@) =~= tasks_view(old_r).push(task_view(t)));
                    }
                },
                None => {},
            }
            i = i + 1;
        }
        proof {
            assert(ov.take(self.order.len() as int) =~= ov);
        }
        r
    }

    /// Makes `id` the active task.
    pub fn set_active(&mut self, id: &str, description: &str)
        ensures
            queue_wf(final(self)@),
            final(self)@.active == Some((id@, description@)),
            final(self)@.tasks == old(self)@.tasks,
            final(self)@.order == old(self)@.order,
            final(self)@.completed == old(self)@.completed,
    {
        proof {
            use_type_invariant(&*self);
            assert(queue_wf(self@));
            assert forall|k: Seq<char>| #[trigger] as_map(tasks_view(self.tasks@)).contains_key(k) implies self.order@.map_values(|s: String| s@).contains(k) by {
                assert(self@.tasks.contains_key(k));
            }
        }
        self.active = Some(TaskItem { id: id.to_owned(), description: description.to_owned() });
        proof {
            use_type_invariant(&*self);
        }
    }

    /// Clears the active task.
    pub fn clear_active(&mut self)
        ensures
            queue_wf(final(self)@),
            final(self)@.active is None,
            final(self)@.tasks == old(self)@.tasks,
            final(self)@.order == old(self)@.order,
            final(self)@.completed == old(self)@.completed,
    {
        proof {
            use_type_invariant(&*self);
            assert(queue_wf(self@));
            assert forall|k: Seq<char>| #[trigger] as_map(tasks_view(self.tasks@)).contains_key(k) implies self.order@.map_values(|s: String| s@).contains(k) by {
                assert(self@.tasks.contains_key(k));
            }
        }
        self.active = None;
        proof {
            use_type_invariant(&*self);
        }
    }

    /// Whether a task is active.
    pub fn has_active(&self) -> (b: bool)
        ensures
            b == self@.active is Some,
    {
        self.active.is_some()
    }

    /// Marks `id` completed: a pending task `id` moves to the end of the completed list;
    /// otherwise the active task (if any) does. In both cases no task stays active, and the
    /// id leaves the order.
    pub fn complete_task(&mut self, id: &str)
        ensures
            queue_wf(final(self)@),
            final(self)@.tasks == old(self)@.tasks.remove(id@),
            final(self)@.order == without(old(self)@.order, id@),
            final(self)@.active is None,
            final(self)@.completed == if old(self)@.tasks.contains_key(id@) {
                old(self)@.completed.push((id@, old(self)@.tasks[id@]))
            } else {
                match old(self)@.active {
                    Some(a) => old(self)@.completed.push(a),
                    None => old(self)@.completed,
                }
            },
    {
        let ghost old_cv = tasks_view(self.completed@);
        let removed = self.remove(id);
        let (tasks, order, mut completed, active) = self.take_parts();
        let item = match removed {
            Some(t) => Some(t),
            None => active,
        };
        match item {
            Some(t) => {
                completed.push(t);
                proof {
                    assert(tasks_view(completed@) =~= old_cv.push(task_view(t)));
                }
            },
            None => {},
        }
        *self = TaskQueue { tasks, order, completed, active: None };
        proof {
            use_type_invariant(&*self);
        }
    }

    /// The completed tasks, in completion order.
    pub fn completed_list(&self) -> (r: Vec<TaskItem>)
        ensures
            tasks_view(r@) == self@.completed,
    {
        self.completed.clone()
    }

    /// The queue as Markdown: a "### 已完成" section, then a "### 待处理" section, or a note
    /// that there is no task.
    pub fn format_for_context(&self) -> (r: String)
        ensures
            r@ == queue_listing(self@),
    {
        let ghost q = self@;
        let mut parts: Vec<String> = Vec::new();
        if self.completed.len() > 0 {
            parts.push(String::from_str("### 已完成"));
            let mut i: usize = 0;
            while i < self.completed.len()
                invariant
                    i <= self.completed.len(),
                    q == self@,
                    self.completed.len() > 0,
                    parts@.map_values(|p: String| p@) =~= seq!["### 已完成"@] + task_lines(
                        q.completed.take(i as int),
                    ),
                decreases self.completed.len() - i,
            {
                let line = Self::line(&self.completed[i]);
                let ghost old_p = parts@;
                parts.push(line);
                proof {
                    assert(q.completed.take(i + 1) =~= q.completed.take(i as int).push(
                        task_view(self.completed@[i as int]),
                    ));
                    assert(parts@.map_values(|p: String| p@) =~= old_p.map_values(
                        |p: String| p@,
                    ).push(line@));
                }
                i = i + 1;
            }
            proof {
                assert(q.completed.take(self.completed.len() as int) =~= q.completed);
            }
        }
        let ghost done = parts@.map_values(|p: String| p@);
        if self.order.len() > 0 {
            let pending = self.list();
            let ghost pv = tasks_view(pending@);
            let ghost with_head = done + seq!["### 待处理"@];
            let ghost hp = parts@;
            parts.push(String::from_str("### 待处理"));
            proof {
                assert(parts@.map_values(|p: String| p@) =~= hp.map_values(|p: String| p@).push(
                    "### 待处理"@,
                ));
            }
            let mut i: usize = 0;
            while i < pending.len()
                invariant
                    i <= pending.len(),
                    pv == tasks_view(pending@),
                    parts@.map_values(|p: String| p@) =~= with_head + task_lines(
                        pv.take(i as int),
                    ),
                decreases pending.len() - i,
            {
                let line = Self::line(&pending[i]);
                let ghost old_p = parts@;
                parts.push(line);
                proof {
                    assert(pv.take(i + 1) =~= pv.take(i as int).push(task_view(pending@[i as int])));
                    assert(parts@.map_values(|p: String| p@) =~= old_p.map_values(
                        |p: String| p@,
                    ).push(line@));
                }
                i = i + 1;
            }
            proof {
                assert(pv.take(pending.len() as int) =~= pv);
            }
        } else if self.completed.len() == 0 {
            parts.push(String::from_str("_暂无任务_"));
        }
        proof {
            assert(parts@.map_values(|p: String| p@) =~= queue_parts(q));
        }
        join_strings(&parts, "\n")
    }

    fn line(t: &TaskItem) -> (r: String)
        ensures
            r@ == task_line(task_view(*t)),
    {
        let mut line = String::from_str("- ");
        line.append(t.id.as_str());
        line.append(": ");
        line.append(t.description.as_str());
        line
    }
}

/// The queue after `add(id, description)`, as `add` states it.
pub open spec fn added(q: QueueView, id: Seq<char>, description: Seq<char>) -> QueueView {
    QueueView { tasks: q.tasks.insert(id, description), order: q.order.push(id), ..q }
}

/// The queue after `pop_front` on a non-empty order, as `pop_front` states it.
pub open spec fn popped(q: QueueView) -> QueueView {
    QueueView { tasks: q.tasks.remove(q.order[0]), order: q.order.drop_first(), ..q }
}

/// First in, first out: two tasks added under different ids to an empty queue come out in
/// the order they went in, each with its description.
pub proof fn lemma_fifo(q: QueueView, id1: Seq<char>, d1: Seq<char>, id2: Seq<char>, d2: Seq<char>)
    requires
        q.order.len() == 0,
        q.tasks == Map::<Seq<char>, Seq<char>>::empty(),
        id1 != id2,
    ensures
        ({
            let q2 = added(added(q, id1, d1), id2, d2);
            &&& q2.order.len() == 2
            &&& q2.order[0] == id1 && q2.tasks.contains_key(id1) && q2.tasks[id1] == d1
            &&& popped(q2).order[0] == id2 && popped(q2).tasks.contains_key(id2)
                && popped(q2).tasks[id2] == d2
            &&& popped(popped(q2)).order.len() == 0
            &&& popped(popped(q2)).tasks == Map::<Seq<char>, Seq<char>>::empty()
        }),
{
    let q2 = added(added(q, id1, d1), id2, d2);
    assert(q2.order =~= seq![id1, id2]);
    assert(popped(q2).order =~= seq![id2]);
    assert(popped(popped(q2)).tasks =~= Map::<Seq<char>, Seq<char>>::empty());
}

} // verus!
