use vstd::prelude::*;
use crate::content::{sorted_by, TaskContent};
use crate::handler::{default_view, edited_view, lists, opt_text, TaskHandler, TaskView};
use crate::result::{Message, SystemError};
use crate::status::{SortOrder, Status};

verus! {

/// The texts of a list of names.
pub open spec fn texts(v: Seq<String>) -> Seq<Seq<char>> {
    v.map_values(|s: String| s@)
}

/// The texts of a list of borrowed names.
pub open spec fn str_texts(v: Seq<&str>) -> Seq<Seq<char>> {
    v.map_values(|s: &str| s@)
}

/// Deleting `names` one after the other from `m`, each on its own: the
/// store that is left, the names that were deleted and the names that were
/// not there, each list in the order of `names`.
pub open spec fn bulk_delete(m: Map<Seq<char>, TaskView>, names: Seq<Seq<char>>) -> (
    Map<Seq<char>, TaskView>,
    Seq<Seq<char>>,
    Seq<Seq<char>>,
)
    decreases names.len(),
{
    if names.len() == 0 {
        (m, Seq::empty(), Seq::empty())
    } else {
        let prev = bulk_delete(m, names.drop_last());
        let n = names.last();
        if prev.0.contains_key(n) {
            (prev.0.remove(n), prev.1.push(n), prev.2)
        } else {
            (prev.0, prev.1, prev.2.push(n))
        }
    }
}

/// A bulk delete removes every name it was given from the store and keeps
/// every other task. When no name is given twice, the deleted names are
/// exactly those that were in the store and the failed ones exactly those
/// that were not, each in the order given: one missing name never keeps
/// another from being deleted.
pub proof fn lemma_bulk_delete(m: Map<Seq<char>, TaskView>, names: Seq<Seq<char>>)
    ensures
        bulk_delete(m, names).0 == m.remove_keys(names.to_set()),
        names.no_duplicates() ==> bulk_delete(m, names).1 == names.filter(|n: Seq<char>| m.contains_key(n))
            && bulk_delete(m, names).2 == names.filter(|n: Seq<char>| !m.contains_key(n)),
    decreases names.len(),
{
    reveal(Seq::filter);
    if names.len() == 0 {
        assert(m.remove_keys(names.to_set()) =~= m);
    } else {
        let p = names.drop_last();
        let n = names.last();
        lemma_bulk_delete(m, p);
        let prev = bulk_delete(m, p);
        assert(names.to_set() =~= p.to_set().insert(n)) by {
            assert forall|x: Seq<char>| names.contains(x) <==> p.contains(x) || x == n by {
                if names.contains(x) {
                    let i = choose|i: int| 0 <= i < names.len() && names[i] == x;
                    if i < names.len() - 1 {
                        assert(p[i] == x);
                    }
                }
                if p.contains(x) {
                    let i = choose|i: int| 0 <= i < p.len() && p[i] == x;
                    assert(names[i] == x);
                }
                if x == n {
                    assert(names[names.len() - 1] == x);
                }
            }
        }
        assert(bulk_delete(m, names).0 =~= m.remove_keys(names.to_set()));
        if names.no_duplicates() {
            assert(p.no_duplicates()) by {
                assert forall|i: int, j: int| 0 <= i < p.len() && 0 <= j < p.len() && i != j implies p[i] != p[j] by {
                    assert(p[i] == names[i] && p[j] == names[j]);
                }
            }
            assert(!p.contains(n)) by {
                if p.contains(n) {
                    let i = choose|i: int| 0 <= i < p.len() && p[i] == n;
                    assert(names[i] == names[names.len() - 1]);
                }
            }
            assert(prev.0.contains_key(n) == m.contains_key(n));
        }
    }
}

/// What the sub-command of an invocation asks for: a new task or an edit of
/// an existing one.
pub enum SubCommand {
    /// Create a task, then set the description and status given.
    New { name: String, desc: Option<String>, status: Option<Status> },
    /// Edit a task: description, status, then a new name.
    Edit { task: String, desc: Option<String>, status: Option<Status>, rename: Option<String> },
}

/// Lists the tasks ordered by `sort`; fails with `Empty` on an empty store.
pub fn table_cmd(handler: &TaskHandler, sort: SortOrder) -> (r: Result<Vec<TaskContent>, SystemError>)
    requires
        handler.wf(),
    ensures
        handler@.dom() == Set::<Seq<char>>::empty() ==> (r matches Err(SystemError::Empty)),
        handler@.dom() != Set::<Seq<char>>::empty() ==> (r matches Ok(v) && lists(handler@, v@)
            && sorted_by(sort, v@)),
{
    if !handler.is_empty() {
        let mut content = handler.all_content();
        let ghost before = content@;
        TaskContent::sort_by(&mut content, sort);
        proof { lemma_lists_permuted(handler@, before, content@); }
        return Ok(content);
    }
    Err(SystemError::Empty)
}

/// A listing stays a listing of the same store when it is reordered.
proof fn lemma_lists_permuted(m: Map<Seq<char>, TaskView>, a: Seq<TaskContent>, b: Seq<TaskContent>)
    requires
        lists(m, a),
        a.to_multiset() == b.to_multiset(),
    ensures
        lists(m, b),
{
    broadcast use vstd::seq_lib::group_to_multiset_ensures;
    assert forall|i: int| 0 <= i < b.len() implies a.contains(#[trigger] b[i]) by {
        assert(b.to_multiset().count(b[i]) > 0);
    }
    assert forall|i: int| 0 <= i < a.len() implies b.contains(#[trigger] a[i]) by {
        assert(a.to_multiset().count(a[i]) > 0);
    }
    assert forall|i: int| 0 <= i < b.len() implies m.contains_key((#[trigger] b[i]).name@)
        && m[b[i].name@] == (b[i].desc@, b[i].status) by {
        let j = choose|j: int| 0 <= j < a.len() && a[j] == b[i];
        assert(m.contains_key(a[j].name@));
    }
    assert forall|k: Seq<char>| m.contains_key(k) implies exists|i: int| 0 <= i < b.len() && #[trigger] b[i].name@ == k by {
        let j = choose|j: int| 0 <= j < a.len() && #[trigger] a[j].name@ == k;
        let i = choose|i: int| 0 <= i < b.len() && b[i] == a[j];
        assert(b[i].name@ == k);
    }
    assert forall|x: int, y: int| 0 <= x < y < b.len() implies b[x].name@ != b[y].name@ by {
        if b[x].name@ == b[y].name@ {
            let i = choose|i: int| 0 <= i < a.len() && a[i] == b[x];
            let j = choose|j: int| 0 <= j < a.len() && a[j] == b[y];
            if i == j {
                // the same task twice in b: twice in a as well
                assert(b.to_multiset().count(b[x]) >= 2) by {
                    assert(b.remove(y).contains(b[x])) by {
                        let r = b.remove(y);
                        assert(r[x] == b[x]);
                    }
                    assert(b.remove(y).to_multiset().count(b[x]) > 0);
                }
                assert(a.to_multiset().count(a[i]) >= 2);
                assert(a.remove(i).to_multiset().count(a[i]) > 0);
                let k = choose|k: int| 0 <= k < a.remove(i).len() && a.remove(i)[k] == a[i];
                let k2 = if k < i { k } else { k + 1 };
                assert(a[k2] == a[i] && k2 != i);
                if k2 < i {
                    assert(a[k2].name@ != a[i].name@);
                } else {
                    assert(a[i].name@ != a[k2].name@);
                }
            } else if i < j {
                assert(a[i].name@ != a[j].name@);
            } else {
                assert(a[j].name@ != a[i].name@);
            }
        }
    }
}

/// The task named `name`; fails with `TaskDoesntExist` if there is none.
pub fn task_info_cmd(handler: &TaskHandler, name: &str) -> (r: Result<TaskContent, SystemError>)
    requires
        handler.wf(),
    ensures
        handler@.contains_key(name@) ==> (r matches Ok(c) && c.name@ == name@
            && (c.desc@, c.status) == handler@[name@]),
        !handler@.contains_key(name@) ==> (r matches Err(SystemError::TaskDoesntExist(n)) && n@ == name@),
{
    handler.get_content(name)
}

/// Sets the status of the task named `name`, nothing else.
pub fn status_cmd(handler: &mut TaskHandler, name: &str, status: Status) -> (r: Result<Message, SystemError>)
    requires
        old(handler).wf(),
    ensures
        final(handler).wf(),
        old(handler)@.contains_key(name@) ==> final(handler)@ == old(handler)@.insert(
            name@,
            (old(handler)@[name@].0, status),
        ) && (r matches Ok(Message::AppliedTaskChanges(n)) && n@ == name@),
        !old(handler)@.contains_key(name@) ==> final(handler)@ == old(handler)@
            && (r matches Err(SystemError::TaskDoesntExist(n)) && n@ == name@),
{
    handler.edit_task(name, None, Some(status), None)
}

/// Creates a task named `name`, then sets the description and status
/// given; fails with `TaskAlreadyExists`, changing nothing, if the name is
/// taken.
pub fn new_cmd(handler: &mut TaskHandler, name: &str, desc: Option<&str>, status: Option<Status>) -> (r: Result<
    Message,
    SystemError,
>)
    requires
        old(handler).wf(),
    ensures
        final(handler).wf(),
        old(handler)@.contains_key(name@) ==> final(handler)@ == old(handler)@
            && (r matches Err(SystemError::TaskAlreadyExists(n)) && n@ == name@),
        !old(handler)@.contains_key(name@) ==> final(handler)@ == old(handler)@.insert(
            name@,
            edited_view(default_view(), opt_text(desc), status),
        ) && (r matches Ok(Message::CreatedTask(n)) && n@ == name@),
{
    let msg = handler.create_task(name);
    match msg {
        Ok(m) => {
            let ghost m1 = handler@;
            let _ = handler.edit_task(name, desc, status, None);
            proof {
                assert(m1.insert(name@, edited_view(m1[name@], opt_text(desc), status))
                    =~= old(handler)@.insert(name@, edited_view(default_view(), opt_text(desc), status)));
            }
            Ok(m)
        },
        Err(e) => Err(e),
    }
}

/// Edits the task named `name`: see `TaskHandler::edit_task`.
pub fn edit_cmd(
    handler: &mut TaskHandler,
    name: &str,
    desc: Option<&str>,
    status: Option<Status>,
    rename: Option<&str>,
) -> (r: Result<Message, SystemError>)
    requires
        old(handler).wf(),
    ensures
        final(handler).wf(),
        !old(handler)@.contains_key(name@) ==> final(handler)@ == old(handler)@
            && (r matches Err(SystemError::TaskDoesntExist(n)) && n@ == name@),
        old(handler)@.contains_key(name@) ==> ({
            let p = edited_view(old(handler)@[name@], opt_text(desc), status);
            match rename {
                None => final(handler)@ == old(handler)@.insert(name@, p)
                    && (r matches Ok(Message::AppliedTaskChanges(n)) && n@ == name@),
                Some(nn) => if old(handler)@.contains_key(nn@) {
                    final(handler)@ == old(handler)@.insert(name@, p)
                        && (r matches Err(SystemError::TaskAlreadyExists(n)) && n@ == nn@)
                } else {
                    final(handler)@ == old(handler)@.remove(name@).insert(nn@, p)
                        && (r matches Ok(Message::AppliedTaskChanges(n)) && n@ == name@)
                },
            }
        }),
{
    handler.edit_task(name, desc, status, rename)
}

/// Deletes each of `names` on its own and reports which were deleted and
/// which were not there. Never fails as a whole.
pub fn delete_cmd(handler: &mut TaskHandler, names: Vec<&str>) -> (r: Result<Message, SystemError>)
    requires
        old(handler).wf(),
    ensures
        final(handler).wf(),
        ({
            let b = bulk_delete(old(handler)@, str_texts(names@));
            &&& final(handler)@ == b.0
            &&& r matches Ok(Message::DeletedTasks(d, e)) && texts(d@) == b.1 && texts(e@) == b.2
        }),
{
    let mut deleted: Vec<String> = Vec::new();
    let mut errs: Vec<String> = Vec::new();
    let ghost m0 = handler@;
    let mut i: usize = 0;
    while i < names.len()
        invariant
            handler.wf(),
            i <= names.len(),
            ({
                let b = bulk_delete(m0, str_texts(names@).subrange(0, i as int));
                &&& handler@ == b.0
                &&& texts(deleted@) == b.1
                &&& texts(errs@) == b.2
            }),
        decreases names.len() - i,
    {
        let name = names[i];
        let ghost pre = str_texts(names@).subrange(0, i as int);
        let ghost cur = str_texts(names@).subrange(0, i + 1);
        proof {
            assert(cur.drop_last() =~= pre);
            assert(cur.last() == name@);
        }
        match handler.delete_task(name) {
            Ok(_) => {
                deleted.push(name.to_owned());
                proof { assert(texts(deleted@) =~= bulk_delete(m0, pre).1.push(name@)); }
            },
            Err(_) => {
                errs.push(name.to_owned());
                proof { assert(texts(errs@) =~= bulk_delete(m0, pre).2.push(name@)); }
            },
        };
        i = i + 1;
    }
    proof {
        assert(str_texts(names@).subrange(0, names.len() as int) =~= str_texts(names@));
    }
    Ok(Message::DeletedTasks(deleted, errs))
}

/// The store after an edit of `name` (see `TaskHandler::edit_task`).
pub open spec fn edit_effect(
    m: Map<Seq<char>, TaskView>,
    name: Seq<char>,
    desc: Option<Seq<char>>,
    status: Option<Status>,
    rename: Option<Seq<char>>,
) -> Map<Seq<char>, TaskView> {
    if !m.contains_key(name) {
        m
    } else {
        let p = edited_view(m[name], desc, status);
        match rename {
            None => m.insert(name, p),
            Some(nn) => if m.contains_key(nn) {
                m.insert(name, p)
            } else {
                m.remove(name).insert(nn, p)
            },
        }
    }
}

/// The text of an optional owned string.
pub open spec fn opt_string(o: Option<String>) -> Option<Seq<char>> {
    match o {
        Some(s) => Some(s@),
        None => None,
    }
}

/// The store after a status shortcut, if one was asked for.
pub open spec fn status_effect(m: Map<Seq<char>, TaskView>, name: Option<String>, status: Status) -> Map<
    Seq<char>,
    TaskView,
> {
    match name {
        Some(n) => edit_effect(m, n@, None, Some(status), None),
        None => m,
    }
}

/// The store after the sub-command, if there is one.
pub open spec fn sub_effect(m: Map<Seq<char>, TaskView>, sub: Option<SubCommand>) -> Map<Seq<char>, TaskView> {
    match sub {
        Some(SubCommand::New { name, desc, status }) => if m.contains_key(name@) {
            m
        } else {
            m.insert(name@, edited_view(default_view(), opt_string(desc), status))
        },
        Some(SubCommand::Edit { task, desc, status, rename }) => edit_effect(
            m,
            task@,
            opt_string(desc),
            status,
            opt_string(rename),
        ),
        None => m,
    }
}

/// The store after the bulk delete, if one was asked for.
pub open spec fn delete_effect(m: Map<Seq<char>, TaskView>, names: Option<Vec<String>>) -> Map<Seq<char>, TaskView> {
    match names {
        Some(v) => bulk_delete(m, texts(v@)).0,
        None => m,
    }
}

/// Everything one run of the program asks for.
pub struct Invocation {
    /// List the tasks in this order.
    pub table: Option<SortOrder>,
    /// Show the task of that name.
    pub info: Option<String>,
    /// Delete the tasks of these names.
    pub delete: Option<Vec<String>>,
    /// Mark the named task completed.
    pub complete: Option<String>,
    /// Mark the named task active.
    pub active: Option<String>,
    /// Mark the named task stopped.
    pub stop: Option<String>,
    /// Mark the named task canceled.
    pub cancel: Option<String>,
    /// Create or edit a task.
    pub sub: Option<SubCommand>,
}

/// The store after every intent of `inv`, in the fixed order: bulk delete,
/// complete, activate, stop, cancel, then the sub-command.
pub open spec fn invocation_effect(m: Map<Seq<char>, TaskView>, inv: Invocation) -> Map<Seq<char>, TaskView> {
    let m1 = delete_effect(m, inv.delete);
    let m2 = status_effect(m1, inv.complete, Status::Completed);
    let m3 = status_effect(m2, inv.active, Status::Active);
    let m4 = status_effect(m3, inv.stop, Status::Stopped);
    let m5 = status_effect(m4, inv.cancel, Status::Canceled);
    sub_effect(m5, inv.sub)
}

/// What a run produced: the table and the task asked for, if they could be
/// made, and the messages and errors of every intent, in order.
pub struct Report {
    pub table: Option<Vec<TaskContent>>,
    pub info: Option<TaskContent>,
    pub messages: Vec<Message>,
    pub errors: Vec<SystemError>,
}

/// What a message or an error says, as text.
pub ghost enum Outcome {
    Created(Seq<char>),
    Deleted(Seq<Seq<char>>, Seq<Seq<char>>),
    Applied(Seq<char>),
    AlreadyExists(Seq<char>),
    DoesntExist(Seq<char>),
    Empty,
}

pub open spec fn message_view(m: Message) -> Outcome {
    match m {
        Message::CreatedTask(n) => Outcome::Created(n@),
        Message::DeletedTasks(d, e) => Outcome::Deleted(texts(d@), texts(e@)),
        Message::AppliedTaskChanges(n) => Outcome::Applied(n@),
    }
}

pub open spec fn error_view(e: SystemError) -> Outcome {
    match e {
        SystemError::TaskAlreadyExists(n) => Outcome::AlreadyExists(n@),
        SystemError::TaskDoesntExist(n) => Outcome::DoesntExist(n@),
        SystemError::Empty => Outcome::Empty,
    }
}

pub open spec fn messages_view(v: Seq<Message>) -> Seq<Outcome> {
    v.map_values(|m: Message| message_view(m))
}

pub open spec fn errors_view(v: Seq<SystemError>) -> Seq<Outcome> {
    v.map_values(|e: SystemError| error_view(e))
}

/// Whether a command succeeded, and what it said.
pub open spec fn result_view(r: Result<Message, SystemError>) -> (bool, Outcome) {
    match r {
        Ok(m) => (true, message_view(m)),
        Err(e) => (false, error_view(e)),
    }
}

/// What an edit of `name` reports (see `TaskHandler::edit_task`).
pub open spec fn edit_report(m: Map<Seq<char>, TaskView>, name: Seq<char>, rename: Option<Seq<char>>) -> (bool, Outcome) {
    if !m.contains_key(name) {
        (false, Outcome::DoesntExist(name))
    } else {
        match rename {
            Some(nn) => if m.contains_key(nn) {
                (false, Outcome::AlreadyExists(nn))
            } else {
                (true, Outcome::Applied(name))
            },
            None => (true, Outcome::Applied(name)),
        }
    }
}

/// What the sub-command reports, if there is one.
pub open spec fn sub_report(m: Map<Seq<char>, TaskView>, sub: Option<SubCommand>) -> Option<(bool, Outcome)> {
    match sub {
        Some(SubCommand::New { name, desc, status }) => Some(
            if m.contains_key(name@) {
                (false, Outcome::AlreadyExists(name@))
            } else {
                (true, Outcome::Created(name@))
            },
        ),
        Some(SubCommand::Edit { task, desc, status, rename }) => Some(edit_report(m, task@, opt_string(rename))),
        None => None,
    }
}

/// Adds a report to the messages (on success) or to the errors.
pub open spec fn add_report(acc: (Seq<Outcome>, Seq<Outcome>), o: Option<(bool, Outcome)>) -> (Seq<Outcome>, Seq<Outcome>) {
    match o {
        Some((true, x)) => (acc.0.push(x), acc.1),
        Some((false, x)) => (acc.0, acc.1.push(x)),
        None => acc,
    }
}

/// The messages and the errors of a run of `inv` on the store `m`, each in
/// the order of the intents.
pub open spec fn invocation_reports(m: Map<Seq<char>, TaskView>, inv: Invocation) -> (Seq<Outcome>, Seq<Outcome>) {
    let e0: Seq<Outcome> = if inv.table is Some && m.dom() == Set::<Seq<char>>::empty() {
        seq![Outcome::Empty]
    } else {
        seq![]
    };
    let e1 = match inv.info {
        Some(n) => if m.contains_key(n@) { e0 } else { e0.push(Outcome::DoesntExist(n@)) },
        None => e0,
    };
    let r0 = (Seq::<Outcome>::empty(), e1);
    let r1 = add_report(r0, match inv.delete {
        Some(v) => {
            let b = bulk_delete(m, texts(v@));
            Some((true, Outcome::Deleted(b.1, b.2)))
        },
        None => None,
    });
    let m1 = delete_effect(m, inv.delete);
    let r2 = add_report(r1, match inv.complete { Some(n) => Some(edit_report(m1, n@, None)), None => None });
    let m2 = status_effect(m1, inv.complete, Status::Completed);
    let r3 = add_report(r2, match inv.active { Some(n) => Some(edit_report(m2, n@, None)), None => None });
    let m3 = status_effect(m2, inv.active, Status::Active);
    let r4 = add_report(r3, match inv.stop { Some(n) => Some(edit_report(m3, n@, None)), None => None });
    let m4 = status_effect(m3, inv.stop, Status::Stopped);
    let r5 = add_report(r4, match inv.cancel { Some(n) => Some(edit_report(m4, n@, None)), None => None });
    let m5 = status_effect(m4, inv.cancel, Status::Canceled);
    add_report(r5, sub_report(m5, inv.sub))
}

fn record(r: Result<Message, SystemError>, messages: &mut Vec<Message>, errors: &mut Vec<SystemError>)
    ensures
        (messages_view(final(messages)@), errors_view(final(errors)@)) == add_report(
            (messages_view(old(messages)@), errors_view(old(errors)@)),
            Some(result_view(r)),
        ),
{
    match r {
        Ok(m) => {
            messages.push(m);
            proof {
                assert(messages_view(messages@) =~= messages_view(old(messages)@).push(message_view(m)));
            }
        },
        Err(e) => {
            errors.push(e);
            proof {
                assert(errors_view(errors@) =~= errors_view(old(errors)@).push(error_view(e)));
            }
        },
    }
}

fn status_intent(
    handler: &mut TaskHandler,
    name: &Option<String>,
    status: Status,
    messages: &mut Vec<Message>,
    errors: &mut Vec<SystemError>,
)
    requires
        old(handler).wf(),
    ensures
        final(handler).wf(),
        final(handler)@ == status_effect(old(handler)@, *name, status),
        (messages_view(final(messages)@), errors_view(final(errors)@)) == add_report(
            (messages_view(old(messages)@), errors_view(old(errors)@)),
            match *name { Some(n) => Some(edit_report(old(handler)@, n@, None)), None => None },
        ),
{
    if let Some(n) = name {
        let r = status_cmd(handler, n.as_str(), status);
        record(r, messages, errors);
    }
}

fn delete_intent(
    handler: &mut TaskHandler,
    names: &Option<Vec<String>>,
    messages: &mut Vec<Message>,
    errors: &mut Vec<SystemError>,
)
    requires
        old(handler).wf(),
    ensures
        final(handler).wf(),
        final(handler)@ == delete_effect(old(handler)@, *names),
        (messages_view(final(messages)@), errors_view(final(errors)@)) == add_report(
            (messages_view(old(messages)@), errors_view(old(errors)@)),
            match *names {
                Some(v) => {
                    let b = bulk_delete(old(handler)@, texts(v@));
                    Some((true, Outcome::Deleted(b.1, b.2)))
                },
                None => None,
            },
        ),
{
    if let Some(v) = names {
        let mut refs: Vec<&str> = Vec::new();
        let mut i: usize = 0;
        while i < v.len()
            invariant
                i <= v.len(),
                refs.len() == i,
                str_texts(refs@) == texts(v@).subrange(0, i as int),
            decreases v.len() - i,
        {
            let ghost prev = refs@;
            refs.push(v[i].as_str());
            proof {
                assert forall|k: int| 0 <= k < i + 1 implies #[trigger] str_texts(refs@)[k] == texts(v@).subrange(0, i + 1)[k] by {
                    if k < i {
                        assert(refs@[k] == prev[k]);
                        assert(str_texts(prev)[k] == texts(v@).subrange(0, i as int)[k]);
                    }
                }
                assert(str_texts(refs@) =~= texts(v@).subrange(0, i + 1));
            }
            i = i + 1;
        }
        proof {
            assert(texts(v@).subrange(0, v.len() as int) =~= texts(v@));
        }
        let r = delete_cmd(handler, refs);
        record(r, messages, errors);
    }
}

fn sub_intent(
    handler: &mut TaskHandler,
    sub: &Option<SubCommand>,
    messages: &mut Vec<Message>,
    errors: &mut Vec<SystemError>,
)
    requires
        old(handler).wf(),
    ensures
        final(handler).wf(),
        final(handler)@ == sub_effect(old(handler)@, *sub),
        (messages_view(final(messages)@), errors_view(final(errors)@)) == add_report(
            (messages_view(old(messages)@), errors_view(old(errors)@)),
            sub_report(old(handler)@, *sub),
        ),
{
    match sub {
        Some(SubCommand::New { name, desc, status }) => {
            let d = match desc {
                Some(x) => Some(x.as_str()),
                None => None,
            };
            let r = new_cmd(handler, name.as_str(), d, *status);
            record(r, messages, errors);
        },
        Some(SubCommand::Edit { task, desc, status, rename }) => {
            let d = match desc {
                Some(x) => Some(x.as_str()),
                None => None,
            };
            let nn = match rename {
                Some(x) => Some(x.as_str()),
                None => None,
            };
            let r = edit_cmd(handler, task.as_str(), d, *status, nn);
            record(r, messages, errors);
        },
        None => {},
    }
}

/// Runs every intent of `inv` against the store in the fixed order (table,
/// info, bulk delete, complete, activate, stop, cancel, sub-command). A
/// failing intent never stops the ones after it: each result is collected,
/// the messages of the successful ones and the errors of the others.
pub fn process_intents(handler: &mut TaskHandler, inv: Invocation) -> (r: Report)
    requires
        old(handler).wf(),
    ensures
        final(handler).wf(),
        final(handler)@ == invocation_effect(old(handler)@, inv),
        match inv.table {
            Some(order) => if old(handler)@.dom() == Set::<Seq<char>>::empty() {
                r.table is None
            } else {
                r.table matches Some(v) && lists(old(handler)@, v@) && sorted_by(order, v@)
            },
            None => r.table is None,
        },
        match inv.info {
            Some(n) => if old(handler)@.contains_key(n@) {
                r.info matches Some(c) && c.name@ == n@ && (c.desc@, c.status) == old(handler)@[n@]
            } else {
                r.info is None
            },
            None => r.info is None,
        },
        (messages_view(r.messages@), errors_view(r.errors@)) == invocation_reports(old(handler)@, inv),
{
    let mut messages: Vec<Message> = Vec::new();
    let mut errors: Vec<SystemError> = Vec::new();
    let mut table: Option<Vec<TaskContent>> = None;
    let mut info: Option<TaskContent> = None;
    if let Some(order) = inv.table {
        match table_cmd(handler, order) {
            Ok(v) => table = Some(v),
            Err(e) => errors.push(e),
        }
    }
    if let Some(n) = &inv.info {
        match task_info_cmd(handler, n.as_str()) {
            Ok(c) => info = Some(c),
            Err(e) => errors.push(e),
        }
    }
    proof {
        let m = handler@;
        let e0: Seq<Outcome> = if inv.table is Some && m.dom() == Set::<Seq<char>>::empty() {
            seq![Outcome::Empty]
        } else {
            seq![]
        };
        let e1 = match inv.info {
            Some(n) => if m.contains_key(n@) { e0 } else { e0.push(Outcome::DoesntExist(n@)) },
            None => e0,
        };
        assert(errors_view(errors@) =~= e1);
        assert(messages_view(messages@) =~= Seq::<Outcome>::empty());
    }
    delete_intent(handler, &inv.delete, &mut messages, &mut errors);
    status_intent(handler, &inv.complete, Status::Completed, &mut messages, &mut errors);
    status_intent(handler, &inv.active, Status::Active, &mut messages, &mut errors);
    status_intent(handler, &inv.stop, Status::Stopped, &mut messages, &mut errors);
    status_intent(handler, &inv.cancel, Status::Canceled, &mut messages, &mut errors);
    sub_intent(handler, &inv.sub, &mut messages, &mut errors);
    Report { table, info, messages, errors }
}

} // verus!
