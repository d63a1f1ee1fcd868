//! The operations a command applies to the loaded record list, each a
//! pure in-memory step of the load-mutate-save cycle.
use vstd::prelude::*;

use crate::model::{Todo, TodoState, TodoView};

verus! {

/// Whether a record passes the listing selectors: completed records only,
/// pending records only, or everything.
pub open spec fn selected(t: TodoView, completed: bool, pending: bool) -> bool {
    if completed {
        t.state == TodoState::Completed
    } else if pending {
        t.state == TodoState::Pending
    } else {
        true
    }
}

/// The records passing the listing selectors, in store order.
pub fn list_todos(todos: &Vec<Todo>, completed: bool, pending: bool) -> (r: Vec<Todo>)
    ensures
        r.deep_view() == todos.deep_view().filter(
            |t: TodoView| selected(t, completed, pending),
        ),
{
    let ghost pred = |t: TodoView| selected(t, completed, pending);
    let mut r: Vec<Todo> = Vec::new();
    let n = todos.len();
    let mut i: usize = 0;
    proof {
        reveal(Seq::filter);
        assert(r.deep_view() =~= todos.deep_view().subrange(0, 0).filter(pred));
    }
    while i < n
        invariant
            i <= n,
            n == todos@.len(),
            r.deep_view() == todos.deep_view().subrange(0, i as int).filter(pred),
            pred == (|t: TodoView| selected(t, completed, pending)),
        decreases n - i,
    {
        let t = &todos[i];
        let keep = if completed {
            t.state == TodoState::Completed
        } else if pending {
            t.state == TodoState::Pending
        } else {
            true
        };
        let ghost r0 = r.deep_view();
        if keep {
            r.push(t.clone());
        }
        i = i + 1;
        proof {
            reveal(Seq::filter);
            let dv = todos.deep_view();
            let pre = dv.subrange(0, i as int);
            assert(pre.drop_last() =~= dv.subrange(0, i - 1 as int));
            assert(pre.last() == dv[i - 1]);
            if keep {
                assert(r.deep_view() =~= r0.push(dv[i - 1]));
                assert(pre.filter(pred) =~= pre.drop_last().filter(pred).push(pre.last()));
            } else {
                assert(pre.filter(pred) =~= pre.drop_last().filter(pred));
            }
            assert(r.deep_view() =~= pre.filter(pred));
        }
    }
    proof {
        assert(todos.deep_view().subrange(0, n as int) =~= todos.deep_view());
    }
    r
}

/// The largest id any record carries, or zero for an empty store.
pub open spec fn max_id(ts: Seq<TodoView>) -> nat
    decreases ts.len(),
{
    if ts.len() == 0 {
        0
    } else {
        let m = max_id(ts.drop_last());
        if ts.last().id as nat > m {
            ts.last().id as nat
        } else {
            m
        }
    }
}

/// Appends a new pending record whose id is one above the largest id in
/// the store, the freshest id the store can prove unused. Leaves the
/// store unchanged and yields nothing only when the id space is spent.
pub fn add_todo(todos: &mut Vec<Todo>, content: String) -> (r: Option<u64>)
    ensures
        max_id(old(todos).deep_view()) < u64::MAX ==> (r matches Some(id) && id == max_id(
            old(todos).deep_view(),
        ) + 1 && final(todos).deep_view() == old(todos).deep_view().push(
            TodoView { id, content: content@, state: TodoState::Pending },
        )),
        max_id(old(todos).deep_view()) >= u64::MAX ==> (r is None && *final(todos) == *old(todos)),
{
    let n = todos.len();
    let mut m: u64 = 0;
    let mut i: usize = 0;
    while i < n
        invariant
            i <= n,
            n == todos@.len(),
            m == max_id(todos.deep_view().subrange(0, i as int)),
        decreases n - i,
    {
        let id = todos[i].id;
        if id > m {
            m = id;
        }
        i = i + 1;
        proof {
            let dv = todos.deep_view();
            let pre = dv.subrange(0, i as int);
            assert(pre.drop_last() =~= dv.subrange(0, i - 1 as int));
            assert(pre.last() == dv[i - 1]);
        }
    }
    proof {
        assert(todos.deep_view().subrange(0, n as int) =~= todos.deep_view());
    }
    if m == u64::MAX {
        return None;
    }
    let id = m + 1;
    let ghost dv0 = todos.deep_view();
    todos.push(Todo { id, content, state: TodoState::Pending });
    proof {
        assert(todos.deep_view() =~= dv0.push(
            TodoView { id, content: content@, state: TodoState::Pending },
        ));
    }
    Some(id)
}

/// Position of the first record carrying the given id, if any.
fn find_todo(todos: &Vec<Todo>, id: u64) -> (r: Option<usize>)
    ensures
        r matches Some(k) ==> (k < todos@.len() && todos.deep_view()[k as int].id == id && (
        forall|j: int| 0 <= j < k ==> todos.deep_view()[j].id != id)),
        r is None ==> forall|j: int|
            0 <= j < todos@.len() ==> todos.deep_view()[j].id != id,
{
    let n = todos.len();
    let mut i: usize = 0;
    while i < n
        invariant
            i <= n,
            n == todos@.len(),
            forall|j: int| 0 <= j < i ==> todos.deep_view()[j].id != id,
        decreases n - i,
    {
        if todos[i].id == id {
            return Some(i);
        }
        i = i + 1;
    }
    None
}

/// Replace the record at `k`, keeping every other record in place.
fn replace_at(todos: &mut Vec<Todo>, k: usize, t: Todo)
    requires
        k < old(todos)@.len(),
    ensures
        final(todos).deep_view() == old(todos).deep_view().update(k as int, t@),
{
    let ghost dv0 = todos.deep_view();
    todos.remove(k);
    todos.insert(k, t);
    proof {
        assert(todos.deep_view() =~= dv0.update(k as int, t@));
    }
}

/// Marks the first record with the given id as completed; the position
/// touched comes back, or nothing when no record carries the id.
pub fn complete_todo(todos: &mut Vec<Todo>, id: u64) -> (r: Option<usize>)
    ensures
        r matches Some(k) ==> (k < old(todos)@.len() && old(todos).deep_view()[k as int].id == id
            && (forall|j: int| 0 <= j < k ==> old(todos).deep_view()[j].id != id) && final(todos).deep_view() == old(todos).deep_view().update(
            k as int,
            TodoView {
                id,
                content: old(todos).deep_view()[k as int].content,
                state: TodoState::Completed,
            },
        )),
        r is None ==> (*final(todos) == *old(todos) && (forall|j: int|
            0 <= j < old(todos)@.len() ==> old(todos).deep_view()[j].id != id)),
{
    match find_todo(todos, id) {
        None => None,
        Some(k) => {
            let content = todos[k].content.clone();
            replace_at(todos, k, Todo { id, content, state: TodoState::Completed });
            Some(k)
        },
    }
}

/// Replaces the content of the first record with the given id; the
/// position touched comes back, or nothing when no record carries the id.
pub fn edit_todo(todos: &mut Vec<Todo>, id: u64, content: String) -> (r: Option<usize>)
    ensures
        r matches Some(k) ==> (k < old(todos)@.len() && old(todos).deep_view()[k as int].id == id
            && (forall|j: int| 0 <= j < k ==> old(todos).deep_view()[j].id != id) && final(todos).deep_view() == old(todos).deep_view().update(
            k as int,
            TodoView { id, content: content@, state: old(todos).deep_view()[k as int].state },
        )),
        r is None ==> (*final(todos) == *old(todos) && (forall|j: int|
            0 <= j < old(todos)@.len() ==> old(todos).deep_view()[j].id != id)),
{
    match find_todo(todos, id) {
        None => None,
        Some(k) => {
            let state = todos[k].state;
            replace_at(todos, k, Todo { id, content, state });
            Some(k)
        },
    }
}

/// Removes the first record with the given id; the position it held comes
/// back, or nothing when no record carries the id.
pub fn delete_todo(todos: &mut Vec<Todo>, id: u64) -> (r: Option<usize>)
    ensures
        r matches Some(k) ==> (k < old(todos)@.len() && old(todos).deep_view()[k as int].id == id
            && (forall|j: int| 0 <= j < k ==> old(todos).deep_view()[j].id != id) && final(todos).deep_view() == old(todos).deep_view().remove(k as int)),
        r is None ==> (*final(todos) == *old(todos) && (forall|j: int|
            0 <= j < old(todos)@.len() ==> old(todos).deep_view()[j].id != id)),
{
    match find_todo(todos, id) {
        None => None,
        Some(k) => {
            let ghost dv0 = todos.deep_view();
            todos.remove(k);
            proof {
                assert(todos.deep_view() =~= dv0.remove(k as int));
            }
            Some(k)
        },
    }
}

} // verus!
