//! The order in which a search of the cache lists what it finds.
use vstd::prelude::*;

use crate::cached::{
    file_tasks, CachedReplyModel, FoundModel, SearchFailure, SearchModel, TaskModel,
};
use crate::cached_laws::{search_run, search_step, tasks_of, CacheWorld};
use crate::manifest::InfoModel;

verus! {

/// What was found, and which manifests are among it.
pub struct ListingModel {
    pub found: Seq<FoundModel>,
    pub manifests: Seq<InfoModel>,
}

/// What looking for `tasks` finds, one after the other, behind the main manifest: of a
/// library file its place, where it is in the cache, and of a pack its manifest, where
/// that is in the cache and was not found before.
pub open spec fn listing<E>(w: CacheWorld<E>, base: InfoModel, tasks: Seq<TaskModel>) -> ListingModel
    decreases tasks.len(),
{
    if tasks.len() == 0 {
        ListingModel {
            found: seq![FoundModel { url: base.url, path: base.path }],
            manifests: seq![base],
        }
    } else {
        let before = listing(w, base, tasks.drop_last());
        match tasks.last() {
            TaskModel::Library(url, name) => match (w.library)(url, name)->Ok_0.path {
                Some(path) => ListingModel {
                    found: before.found.push(
                        FoundModel { url: (w.library)(url, name)->Ok_0.url, path },
                    ),
                    ..before
                },
                None => before,
            },
            TaskModel::Pack(url) => {
                let info = (w.locate)(url)->Ok_0;
                if (w.read)(info) is Found && !before.manifests.contains(info) {
                    ListingModel {
                        found: before.found.push(FoundModel { url, path: info.path }),
                        manifests: before.manifests.push(info),
                    }
                } else {
                    before
                }
            },
        }
    }
}

/// What holds while the search works: of all that the manifests found so far name, what
/// is not left was looked for, and what that found is listed.
spec fn in_order<E>(
    w: CacheWorld<E>,
    base: InfoModel,
    todo: Seq<TaskModel>,
    pending: Option<InfoModel>,
    visited: Seq<InfoModel>,
    found: Seq<FoundModel>,
) -> bool {
    let all = tasks_of(w, visited);
    let done = all.len() - todo.len();
    &&& done >= 0
    &&& todo == all.skip(done)
    &&& listing(w, base, all.take(done)).found == found
    &&& listing(w, base, all.take(done)).manifests == visited
    &&& pending matches Some(info) ==> {
        &&& todo.len() > 0
        &&& todo[0] matches TaskModel::Pack(url) && (w.locate)(url) == Ok::<InfoModel, E>(info)
        &&& !visited.contains(info)
    }
}

/// Steps keep the order.
proof fn lemma_in_order<E>(w: CacheWorld<E>, base: InfoModel, m: SearchModel, steps: nat)
    requires
        m is Working,
        in_order(
            w,
            base,
            m->Working_todo,
            m->Working_pending,
            m->Working_visited,
            m->Working_found,
        ),
    ensures
        search_run(w, m, steps) matches Ok(end) ==> end is Working && in_order(
            w,
            base,
            end->Working_todo,
            end->Working_pending,
            end->Working_visited,
            end->Working_found,
        ),
    decreases steps,
{
    if steps > 0 {
        let todo = m->Working_todo;
        let pending = m->Working_pending;
        let visited = m->Working_visited;
        let found = m->Working_found;
        let all = tasks_of(w, visited);
        let done = all.len() - todo.len();
        match search_step(w, m) {
            Err(_) => {},
            Ok(next) => {
                if todo.len() > 0 {
                    let more = all.take(done + 1);
                    assert(more.drop_last() =~= all.take(done));
                    assert(more.last() == todo[0]);
                    assert(todo.drop_first() =~= all.skip(done + 1));
                    match pending {
                        Some(info) => match (w.read)(info) {
                            CachedReplyModel::Found(file) => {
                                let tasks = file_tasks(file);
                                let later = visited.push(info);
                                assert(later.drop_last() =~= visited);
                                assert(tasks_of(w, later) == all + tasks);
                                assert((all + tasks).take(done + 1) =~= more);
                                assert(todo.drop_first() + tasks =~= (all + tasks).skip(done + 1));
                            },
                            _ => {},
                        },
                        None => {},
                    }
                }
                lemma_in_order(w, base, next, (steps - 1) as nat);
            },
        }
    }
}

/// A search that has found something lists it in this order: the main manifest first,
/// then all that the manifests found name, one manifest after the other in the order in
/// which they were found and each from its first platform to its last, the library of a
/// platform before its dependencies. A manifest that was found before is not listed again.
pub proof fn search_lists_in_order<E>(w: CacheWorld<E>, url: Seq<char>, steps: nat)
    requires
        search_run(w, SearchModel::Base(url), steps) is Ok,
        search_run(w, SearchModel::Base(url), steps)->Ok_0.request() is Nothing,
        search_run(w, SearchModel::Base(url), steps)->Ok_0 is Working,
    ensures
        ({
            let end = search_run(w, SearchModel::Base(url), steps)->Ok_0;
            let base = (w.locate)(url)->Ok_0;
            let tasks = tasks_of(w, end->Working_visited);
            &&& listing(w, base, tasks).found == end->Working_found
            &&& listing(w, base, tasks).manifests == end->Working_visited
        }),
{
    let base = (w.locate)(url)->Ok_0;
    reveal_with_fuel(search_run, 3);
    assert(steps >= 2);
    match (w.read)(base) {
        CachedReplyModel::Found(file) => {
            let tasks = file_tasks(file);
            let begun = SearchModel::Working {
                todo: tasks,
                pending: None,
                visited: seq![base],
                found: seq![FoundModel { url: base.url, path: base.path }],
            };
            let none = Seq::<InfoModel>::empty();
            assert(seq![base].drop_last() =~= none);
            assert(tasks_of(w, none) =~= Seq::empty());
            assert(tasks_of(w, seq![base]) =~= tasks);
            assert(tasks.skip(0) =~= tasks);
            assert(tasks.take(0) =~= Seq::empty());
            lemma_in_order(w, base, begun, (steps - 2) as nat);
            let end = search_run(w, SearchModel::Base(url), steps)->Ok_0;
            let all = tasks_of(w, end->Working_visited);
            assert(end->Working_todo.len() == 0);
            assert(all.take(all.len() as int) =~= all);
        },
        CachedReplyModel::Absent => {
            lemma_stays_absent(w, (steps - 2) as nat);
        },
        CachedReplyModel::Unparsable(_) => {},
    }
}

/// A search without the main manifest stays without it.
proof fn lemma_stays_absent<E>(w: CacheWorld<E>, steps: nat)
    ensures
        search_run(w, SearchModel::NotCached, steps) == Ok::<SearchModel, SearchFailure<E>>(
            SearchModel::NotCached,
        ),
    decreases steps,
{
    if steps > 0 {
        lemma_stays_absent(w, (steps - 1) as nat);
    }
}

} // verus!
