use vstd::prelude::*;
use crate::content::TaskContent;
use crate::result::{Message, SystemError};
use crate::status::Status;

verus! {

/// What the store records of one task: its description and status.
pub type TaskView = (Seq<char>, Status);

/// Description and status of a newly created task.
pub open spec fn default_view() -> TaskView {
    (Seq::<char>::empty(), Status::Active)
}

/// Properties of a task after an edit that sets the description and the
/// status that are given and keeps the others.
pub open spec fn edited_view(p: TaskView, desc: Option<Seq<char>>, status: Option<Status>) -> TaskView {
    (
        match desc {
            Some(d) => d,
            None => p.0,
        },
        match status {
            Some(s) => s,
            None => p.1,
        },
    )
}

/// The text of an optional string argument.
pub open spec fn opt_text(o: Option<&str>) -> Option<Seq<char>> {
    match o {
        Some(s) => Some(s@),
        None => None,
    }
}

/// No two tasks of the listing share a name.
pub open spec fn distinct_names(s: Seq<TaskContent>) -> bool {
    forall|i: int, j: int| 0 <= i < j < s.len() ==> s[i].name@ != s[j].name@
}

/// The listing `s` holds each task of the store `m` exactly once, with its
/// properties, and nothing else.
pub open spec fn lists(m: Map<Seq<char>, TaskView>, s: Seq<TaskContent>) -> bool {
    &&& distinct_names(s)
    &&& forall|i: int| 0 <= i < s.len() ==> #[trigger] m.contains_key(s[i].name@)
        && m[s[i].name@] == (s[i].desc@, s[i].status)
    &&& forall|k: Seq<char>| m.contains_key(k) ==> exists|i: int| 0 <= i < s.len() && #[trigger] s[i].name@ == k
}

/// Listing a store and building a store back from that listing gives the
/// same tasks with the same properties, whatever the order of the listing;
/// and the listing has no repeated name, so it can always be built back.
pub proof fn lemma_store_round_trip(m: Map<Seq<char>, TaskView>, s: Seq<TaskContent>, back: Map<Seq<char>, TaskView>)
    requires
        lists(m, s),
        lists(back, s),
    ensures
        distinct_names(s),
        back == m,
{
    assert forall|k: Seq<char>| #[trigger] back.contains_key(k) <==> m.contains_key(k) by {
        if back.contains_key(k) {
            let i = choose|i: int| 0 <= i < s.len() && #[trigger] s[i].name@ == k;
            assert(m.contains_key(s[i].name@));
        }
        if m.contains_key(k) {
            let i = choose|i: int| 0 <= i < s.len() && #[trigger] s[i].name@ == k;
            assert(back.contains_key(s[i].name@));
        }
    }
    assert forall|k: Seq<char>| #[trigger] back.contains_key(k) implies back[k] == m[k] by {
        let i = choose|i: int| 0 <= i < s.len() && #[trigger] s[i].name@ == k;
        assert(m.contains_key(s[i].name@));
    }
    assert(back =~= m);
}

/// After a task is deleted its name is no longer in the store, and every
/// other task is still there with the same properties.
pub proof fn lemma_deleted_task_is_gone(m: Map<Seq<char>, TaskView>, name: Seq<char>)
    ensures
        !m.remove(name).contains_key(name),
        forall|k: Seq<char>| k != name ==> (#[trigger] m.remove(name).contains_key(k) <==> m.contains_key(k)),
        forall|k: Seq<char>| k != name && m.contains_key(k) ==> #[trigger] m.remove(name)[k] == m[k],
{
}

struct TaskProperties {
    desc: String,
    status: Status,
}

impl TaskProperties {
    /// Properties of a new task: empty description, active.
    fn new() -> (r: Self)
        ensures
            (r.desc@, r.status) == default_view(),
    {
        TaskProperties { desc: String::new(), status: Status::Active }
    }
}

struct TaskEntry {
    name: String,
    props: TaskProperties,
}

spec fn value_of(e: TaskEntry) -> TaskView {
    (e.props.desc@, e.props.status)
}

spec fn unique_names(s: Seq<TaskEntry>) -> bool {
    forall|i: int, j: int| 0 <= i < j < s.len() ==> s[i].name@ != s[j].name@
}

spec fn map_of(s: Seq<TaskEntry>) -> Map<Seq<char>, TaskView>
    decreases s.len(),
{
    if s.len() == 0 {
        Map::empty()
    } else {
        map_of(s.drop_last()).insert(s.last().name@, value_of(s.last()))
    }
}

proof fn lemma_map_of(s: Seq<TaskEntry>)
    ensures
        forall|k: Seq<char>| #[trigger] map_of(s).contains_key(k)
            <==> exists|i: int| 0 <= i < s.len() && #[trigger] s[i].name@ == k,
        unique_names(s) ==> forall|i: int| 0 <= i < s.len()
            ==> #[trigger] map_of(s)[s[i].name@] == value_of(s[i]),
    decreases s.len(),
{
    if s.len() > 0 {
        let p = s.drop_last();
        lemma_map_of(p);
        assert forall|k: Seq<char>| #[trigger] map_of(s).contains_key(k)
            <==> exists|i: int| 0 <= i < s.len() && #[trigger] s[i].name@ == k by {
            assert(map_of(s) == map_of(p).insert(s.last().name@, value_of(s.last())));
            if map_of(s).contains_key(k) && k != s.last().name@ {
                assert(map_of(p).contains_key(k));
                let i = choose|i: int| 0 <= i < p.len() && #[trigger] p[i].name@ == k;
                assert(s[i].name@ == k);
            }
            if exists|i: int| 0 <= i < s.len() && #[trigger] s[i].name@ == k {
                let i = choose|i: int| 0 <= i < s.len() && #[trigger] s[i].name@ == k;
                if i < s.len() - 1 {
                    assert(p[i].name@ == k);
                    assert(map_of(p).contains_key(k));
                }
            }
        }
        if unique_names(s) {
            assert(unique_names(p)) by {
                assert forall|a: int, b: int| 0 <= a < b < p.len() implies p[a].name@ != p[b].name@ by {
                    assert(p[a] == s[a] && p[b] == s[b]);
                }
            }
            assert(map_of(s) == map_of(p).insert(s.last().name@, value_of(s.last())));
            assert forall|i: int| 0 <= i < s.len() implies #[trigger] map_of(s)[s[i].name@] == value_of(s[i]) by {
                if i < s.len() - 1 {
                    assert(p[i] == s[i]);
                    assert(s[i].name@ != s[s.len() - 1].name@);
                    assert(map_of(p)[p[i].name@] == value_of(p[i]));
                }
            }
        }
    }
}

proof fn lemma_map_of_push(s: Seq<TaskEntry>, e: TaskEntry)
    requires
        unique_names(s),
        !map_of(s).contains_key(e.name@),
    ensures
        unique_names(s.push(e)),
        map_of(s.push(e)) == map_of(s).insert(e.name@, value_of(e)),
{
    lemma_map_of(s);
    assert(s.push(e).drop_last() =~= s);
    assert forall|i: int, j: int| 0 <= i < j < s.len() + 1 implies s.push(e)[i].name@ != s.push(e)[j].name@ by {
        if j == s.len() {
            assert(s[i].name@ == s.push(e)[i].name@);
        }
    }
}

proof fn lemma_map_of_remove(s: Seq<TaskEntry>, i: int)
    requires
        unique_names(s),
        0 <= i < s.len(),
    ensures
        unique_names(s.remove(i)),
        map_of(s.remove(i)) == map_of(s).remove(s[i].name@),
{
    let t = s.remove(i);
    assert forall|a: int, b: int| 0 <= a < b < t.len() implies t[a].name@ != t[b].name@ by {
        let a2 = if a < i { a } else { a + 1 };
        let b2 = if b < i { b } else { b + 1 };
        assert(t[a] == s[a2] && t[b] == s[b2]);
    }
    lemma_map_of(s);
    lemma_map_of(t);
    let ms = map_of(s);
    let mt = map_of(t);
    let n = s[i].name@;
    assert forall|k: Seq<char>| #[trigger] mt.contains_key(k) <==> ms.remove(n).contains_key(k) by {
        if mt.contains_key(k) {
            let j = choose|j: int| 0 <= j < t.len() && #[trigger] t[j].name@ == k;
            let j2 = if j < i { j } else { j + 1 };
            assert(s[j2].name@ == k);
            assert(ms.contains_key(k));
        }
        if ms.remove(n).contains_key(k) {
            let j = choose|j: int| 0 <= j < s.len() && #[trigger] s[j].name@ == k;
            assert(j != i);
            let j2 = if j < i { j } else { j - 1 };
            assert(t[j2].name@ == k);
        }
    }
    assert forall|k: Seq<char>| #[trigger] mt.contains_key(k) implies mt[k] == ms[k] by {
        let j = choose|j: int| 0 <= j < t.len() && #[trigger] t[j].name@ == k;
        let j2 = if j < i { j } else { j + 1 };
        assert(t[j] == s[j2]);
    }
    assert(mt =~= ms.remove(n));
}

struct TaskData {
    tasks: Vec<TaskEntry>,
}

impl TaskData {
    /// Index of the task named `name`, if there is one.
    fn find(&self, name: &str) -> (r: Option<usize>)
        ensures
            match r {
                Some(i) => i < self.tasks.len() && self.tasks@[i as int].name@ == name@,
                None => forall|i: int| 0 <= i < self.tasks.len() ==> self.tasks@[i].name@ != name@,
            },
    {
        let key = name.to_owned();
        let mut i: usize = 0;
        while i < self.tasks.len()
            invariant
                key@ == name@,
                i <= self.tasks.len(),
                forall|j: int| 0 <= j < i ==> self.tasks@[j].name@ != name@,
            decreases self.tasks.len() - i,
        {
            if self.tasks[i].name == key {
                return Some(i);
            }
            i = i + 1;
        }
        None
    }
}

/// The store of tasks, keyed by name.
pub struct TaskHandler {
    data: TaskData,
}

impl View for TaskHandler {
    type V = Map<Seq<char>, TaskView>;

    closed spec fn view(&self) -> Map<Seq<char>, TaskView> {
        map_of(self.data.tasks@)
    }
}

impl TaskHandler {
    /// Names are unique in the store.
    pub closed spec fn wf(&self) -> bool {
        unique_names(self.data.tasks@)
    }

    proof fn lemma_find(&self, name: Seq<char>, r: Option<usize>)
        requires
            self.wf(),
            match r {
                Some(i) => i < self.data.tasks.len() && self.data.tasks@[i as int].name@ == name,
                None => forall|i: int| 0 <= i < self.data.tasks.len() ==> self.data.tasks@[i].name@ != name,
            },
        ensures
            r is Some <==> self@.contains_key(name),
            r matches Some(i) ==> self@[name] == value_of(self.data.tasks@[i as int]),
    {
        lemma_map_of(self.data.tasks@);
        if let Some(i) = r {
            assert(self.data.tasks@[i as int].name@ == name);
        }
    }

    /// An empty store.
    pub fn new() -> (r: Self)
        ensures
            r.wf(),
            r@ == Map::<Seq<char>, TaskView>::empty(),
    {
        TaskHandler { data: TaskData { tasks: Vec::new() } }
    }

    /// Whether a task named `name` is in the store.
    pub fn task_exists(&self, name: &str) -> (r: bool)
        requires
            self.wf(),
        ensures
            r == self@.contains_key(name@),
    {
        let f = self.data.find(name);
        proof { self.lemma_find(name@, f); }
        f.is_some()
    }

    /// Whether the store holds no task.
    pub fn is_empty(&self) -> (r: bool)
        ensures
            r == (self@.dom() == Set::<Seq<char>>::empty()),
    {
        proof {
            lemma_map_of(self.data.tasks@);
            if self.data.tasks.len() > 0 {
                assert(self@.contains_key(self.data.tasks@[0].name@));
            } else {
                assert(self@.dom() =~= Set::<Seq<char>>::empty());
            }
        }
        self.data.tasks.len() == 0
    }

    /// Adds a task named `name` with an empty description and status
    /// Active; fails, leaving the store as it was, if the name is taken.
    pub fn create_task(&mut self, name: &str) -> (r: Result<Message, SystemError>)
        requires
            old(self).wf(),
        ensures
            final(self).wf(),
            old(self)@.contains_key(name@) ==> final(self)@ == old(self)@
                && (r matches Err(SystemError::TaskAlreadyExists(n)) && n@ == name@),
            !old(self)@.contains_key(name@) ==> final(self)@ == old(self)@.insert(name@, default_view())
                && (r matches Ok(Message::CreatedTask(n)) && n@ == name@),
    {
        let f = self.data.find(name);
        proof { self.lemma_find(name@, f); }
        if f.is_some() {
            return Err(SystemError::TaskAlreadyExists(name.to_owned()));
        }
        let e = TaskEntry { name: name.to_owned(), props: TaskProperties::new() };
        proof { lemma_map_of_push(self.data.tasks@, e); }
        self.data.tasks.push(e);
        Ok(Message::CreatedTask(name.to_owned()))
    }

    /// Removes the task named `name`; fails, leaving the store as it was, if
    /// there is none.
    pub fn delete_task(&mut self, name: &str) -> (r: Result<(), SystemError>)
        requires
            old(self).wf(),
        ensures
            final(self).wf(),
            old(self)@.contains_key(name@) ==> final(self)@ == old(self)@.remove(name@) && r is Ok,
            !old(self)@.contains_key(name@) ==> final(self)@ == old(self)@
                && (r matches Err(SystemError::TaskDoesntExist(n)) && n@ == name@),
    {
        let f = self.data.find(name);
        proof { self.lemma_find(name@, f); }
        match f {
            Some(i) => {
                proof { lemma_map_of_remove(self.data.tasks@, i as int); }
                self.data.tasks.remove(i);
                Ok(())
            },
            None => Err(SystemError::TaskDoesntExist(name.to_owned())),
        }
    }

    /// Edits the task named `name`: sets its description if one is given,
    /// then its status if one is given, then moves it to `new_name` if one is
    /// given. A missing task fails with no change. A `new_name` that is
    /// already taken (the task's own name included) fails after the
    /// description and status were set: those changes stay.
    pub fn edit_task(
        &mut self,
        name: &str,
        desc: Option<&str>,
        status: Option<Status>,
        new_name: Option<&str>,
    ) -> (r: Result<Message, SystemError>)
        requires
            old(self).wf(),
        ensures
            final(self).wf(),
            !old(self)@.contains_key(name@) ==> final(self)@ == old(self)@
                && (r matches Err(SystemError::TaskDoesntExist(n)) && n@ == name@),
            old(self)@.contains_key(name@) ==> ({
                let p = edited_view(old(self)@[name@], opt_text(desc), status);
                match new_name {
                    None => final(self)@ == old(self)@.insert(name@, p)
                        && (r matches Ok(Message::AppliedTaskChanges(n)) && n@ == name@),
                    Some(nn) => if old(self)@.contains_key(nn@) {
                        final(self)@ == old(self)@.insert(name@, p)
                            && (r matches Err(SystemError::TaskAlreadyExists(n)) && n@ == nn@)
                    } else {
                        final(self)@ == old(self)@.remove(name@).insert(nn@, p)
                            && (r matches Ok(Message::AppliedTaskChanges(n)) && n@ == name@)
                    },
                }
            }),
    {
        let f = self.data.find(name);
        proof { self.lemma_find(name@, f); }
        let i = match f {
            Some(i) => i,
            None => return Err(SystemError::TaskDoesntExist(name.to_owned())),
        };
        let taken = match new_name {
            Some(nn) => {
                let g = self.data.find(nn);
                proof { self.lemma_find(nn@, g); }
                g.is_some()
            },
            None => false,
        };
        let ghost m0 = self@;
        proof { lemma_map_of_remove(self.data.tasks@, i as int); }
        let mut e = self.data.tasks.remove(i);
        if let Some(d) = desc {
            e.props.desc = d.to_owned();
        }
        if let Some(s) = status {
            e.props.status = s;
        }
        assert(value_of(e) == edited_view(m0[name@], opt_text(desc), status));
        match new_name {
            Some(nn) => {
                if taken {
                    proof {
                        lemma_map_of_push(self.data.tasks@, e);
                        assert(m0.remove(name@).insert(name@, value_of(e)) =~= m0.insert(name@, value_of(e)));
                    }
                    self.data.tasks.push(e);
                    return Err(SystemError::TaskAlreadyExists(nn.to_owned()));
                }
                e.name = nn.to_owned();
                proof { lemma_map_of_push(self.data.tasks@, e); }
                self.data.tasks.push(e);
            },
            None => {
                proof {
                    lemma_map_of_push(self.data.tasks@, e);
                    assert(m0.remove(name@).insert(name@, value_of(e)) =~= m0.insert(name@, value_of(e)));
                }
                self.data.tasks.push(e);
            },
        }
        Ok(Message::AppliedTaskChanges(name.to_owned()))
    }

    /// The task named `name`; fails if there is none.
    pub fn get_content(&self, name: &str) -> (r: Result<TaskContent, SystemError>)
        requires
            self.wf(),
        ensures
            self@.contains_key(name@) ==> (r matches Ok(c) && c.name@ == name@
                && (c.desc@, c.status) == self@[name@]),
            !self@.contains_key(name@) ==> (r matches Err(SystemError::TaskDoesntExist(n)) && n@ == name@),
    {
        let f = self.data.find(name);
        proof { self.lemma_find(name@, f); }
        match f {
            Some(i) => {
                let e = &self.data.tasks[i];
                Ok(TaskContent::new(name, e.props.desc.as_str(), e.props.status))
            },
            None => Err(SystemError::TaskDoesntExist(name.to_owned())),
        }
    }

    /// Every task of the store, once each, in no particular order.
    pub fn all_content(&self) -> (r: Vec<TaskContent>)
        requires
            self.wf(),
        ensures
            lists(self@, r@),
    {
        proof { lemma_map_of(self.data.tasks@); }
        let mut content: Vec<TaskContent> = Vec::new();
        let mut i: usize = 0;
        while i < self.data.tasks.len()
            invariant
                self.wf(),
                i <= self.data.tasks.len(),
                content.len() == i,
                forall|j: int| 0 <= j < i ==> (#[trigger] content@[j]).name@ == self.data.tasks@[j].name@
                    && (content@[j].desc@, content@[j].status) == value_of(self.data.tasks@[j]),
            decreases self.data.tasks.len() - i,
        {
            let e = &self.data.tasks[i];
            content.push(TaskContent::new(e.name.as_str(), e.props.desc.as_str(), e.props.status));
            i = i + 1;
        }
        proof {
            let s = content@;
            let t = self.data.tasks@;
            assert forall|a: int, b: int| 0 <= a < b < s.len() implies s[a].name@ != s[b].name@ by {
                assert(s[a].name@ == t[a].name@ && s[b].name@ == t[b].name@);
            }
            assert forall|a: int| 0 <= a < s.len() implies #[trigger] self@.contains_key(s[a].name@)
                && self@[s[a].name@] == (s[a].desc@, s[a].status) by {
                assert(s[a].name@ == t[a].name@);
                assert(self@.contains_key(t[a].name@));
            }
            assert forall|k: Seq<char>| self@.contains_key(k) implies exists|a: int| 0 <= a < s.len() && #[trigger] s[a].name@ == k by {
                let a = choose|a: int| 0 <= a < t.len() && #[trigger] t[a].name@ == k;
                assert(s[a].name@ == k);
            }
        }
        content
    }

    /// A store holding the tasks of `content`; fails with `TaskAlreadyExists`
    /// if two of them share a name.
    pub fn from_content(content: &Vec<TaskContent>) -> (r: Result<TaskHandler, SystemError>)
        ensures
            r is Ok <==> distinct_names(content@),
            match r {
                Ok(h) => h.wf() && lists(h@, content@),
                Err(e) => e is TaskAlreadyExists,
            },
    {
        let mut h = TaskHandler::new();
        let mut i: usize = 0;
        while i < content.len()
            invariant
                h.wf(),
                i <= content.len(),
                forall|a: int, b: int| 0 <= a < b < i ==> content@[a].name@ != content@[b].name@,
                forall|j: int| 0 <= j < i ==> h@.contains_key(#[trigger] content@[j].name@),
                forall|j: int| 0 <= j < i ==> h@[#[trigger] content@[j].name@] == (content@[j].desc@, content@[j].status),
                forall|k: Seq<char>| h@.contains_key(k) ==> exists|j: int| 0 <= j < i && #[trigger] content@[j].name@ == k,
            decreases content.len() - i,
        {
            let c = &content[i];
            let f = h.data.find(c.name.as_str());
            proof { h.lemma_find(c.name@, f); }
            if f.is_some() {
                proof {
                    let j = choose|j: int| 0 <= j < i && #[trigger] content@[j].name@ == c.name@;
                    assert(content@[j].name@ == content@[i as int].name@);
                }
                return Err(SystemError::TaskAlreadyExists(c.name.clone()));
            }
            let e = TaskEntry {
                name: c.name.clone(),
                props: TaskProperties { desc: c.desc.clone(), status: c.status },
            };
            let ghost m0 = h@;
            proof { lemma_map_of_push(h.data.tasks@, e); }
            h.data.tasks.push(e);
            proof {
                assert(h@ == m0.insert(c.name@, (c.desc@, c.status)));
                assert forall|j: int| 0 <= j < i + 1 implies h@.contains_key(#[trigger] content@[j].name@)
                    && h@[content@[j].name@] == (content@[j].desc@, content@[j].status) by {
                    if j < i {
                        assert(m0.contains_key(content@[j].name@));
                    } else {
                        assert(content@[j] == *c);
                    }
                }
                assert forall|a: int, b: int| 0 <= a < b < i + 1 implies
                    content@[a].name@ != content@[b].name@ by {
                    if b == i {
                        assert(m0.contains_key(content@[a].name@));
                    }
                }
                assert forall|k: Seq<char>| h@.contains_key(k) implies exists|j: int| 0 <= j < i + 1 && #[trigger] content@[j].name@ == k by {
                    if k != c.name@ {
                        assert(m0.contains_key(k));
                    } else {
                        assert(content@[i as int].name@ == k);
                    }
                }
            }
            i = i + 1;
        }
        Ok(h)
    }
}

} // verus!
