//! What a search of the cache finds: all that is there of a pack, and nothing else.
use vstd::prelude::*;

use crate::cached::{
    file_tasks, CachedLibraryModel, CachedReplyModel, FoundModel, SearchFailure, SearchModel,
    SearchRequestModel, TaskModel,
};
use crate::manifest::InfoModel;

verus! {

/// A cache that answers the same request always alike.
#[verifier::reject_recursive_types(E)]
pub struct CacheWorld<E> {
    /// Where the cache keeps the manifest of a URL.
    pub locate: spec_fn(Seq<char>) -> Result<InfoModel, E>,
    /// What a manifest says, if it is in the cache.
    pub read: spec_fn(InfoModel) -> CachedReplyModel<E>,
    /// Whether a library file is in the cache, given its URL and its name.
    pub library: spec_fn(Seq<char>, Option<Seq<char>>) -> Result<CachedLibraryModel, E>,
}

/// One step of a search: what it needs to know is answered.
pub open spec fn search_step<E>(w: CacheWorld<E>, m: SearchModel) -> Result<
    SearchModel,
    SearchFailure<E>,
> {
    match m.request() {
        SearchRequestModel::LocateManifest(url) => m.after_manifest((w.locate)(url)),
        SearchRequestModel::ReadManifest(info) => m.after_read((w.read)(info)),
        SearchRequestModel::LocateLibrary(url, name) => m.after_library((w.library)(url, name)),
        SearchRequestModel::Nothing => Ok(m),
    }
}

/// `steps` steps of a search.
pub open spec fn search_run<E>(w: CacheWorld<E>, m: SearchModel, steps: nat) -> Result<
    SearchModel,
    SearchFailure<E>,
>
    decreases steps,
{
    if steps == 0 {
        Ok(m)
    } else {
        match search_step(w, m) {
            Err(failure) => Err(failure),
            Ok(next) => search_run(w, next, (steps - 1) as nat),
        }
    }
}

/// Whether the manifest `a` is in the cache and names `task`, for any platform.
pub open spec fn names<E>(w: CacheWorld<E>, a: InfoModel, task: TaskModel) -> bool {
    (w.read)(a) is Found && file_tasks((w.read)(a)->Found_0).contains(task)
}

/// Whether the manifest `a` names the manifest `b` by `url`, and both are in the cache.
pub open spec fn leads<E>(w: CacheWorld<E>, a: InfoModel, url: Seq<char>, b: InfoModel) -> bool {
    &&& names(w, a, TaskModel::Pack(url))
    &&& (w.locate)(url) == Ok::<InfoModel, E>(b)
    &&& (w.read)(b) is Found
}

/// Whether each manifest of `trail` leads to the next one by the URL at its place in `urls`.
pub open spec fn is_trail<E>(
    w: CacheWorld<E>,
    trail: Seq<InfoModel>,
    urls: Seq<Seq<char>>,
) -> bool {
    &&& trail.len() == urls.len() + 1
    &&& forall|i: int|
        0 <= i < urls.len() ==> leads(w, trail[i], #[trigger] urls[i], trail[i + 1])
}

/// Whether the manifest `info` is `base`, in the cache, or one that `base` leads to
/// over manifests in the cache.
pub open spec fn cached_from<E>(w: CacheWorld<E>, base: InfoModel, info: InfoModel) -> bool {
    &&& (w.read)(base) is Found
    &&& exists|trail: Seq<InfoModel>, urls: Seq<Seq<char>>| #[trigger]
        is_trail(w, trail, urls) && trail[0] == base && trail.last() == info
}

/// Whether `f` is a library file in the cache that a manifest in the cache names.
pub open spec fn is_library<E>(
    w: CacheWorld<E>,
    a: InfoModel,
    url: Seq<char>,
    name: Option<Seq<char>>,
    f: FoundModel,
) -> bool {
    &&& names(w, a, TaskModel::Library(url, name))
    &&& (w.library)(url, name) matches Ok(library) && library.url == f.url && library.path == Some(
        f.path,
    )
}

/// Whether `f` is something in the cache that `base` leads to: the manifest `base`
/// itself, another manifest under the URL by which it was named, or a library file.
pub open spec fn justified<E>(w: CacheWorld<E>, base: InfoModel, f: FoundModel) -> bool {
    ||| f.url == base.url && f.path == base.path
    ||| exists|a: InfoModel, b: InfoModel|
        cached_from(w, base, a) && #[trigger] leads(w, a, f.url, b) && f.path == b.path
    ||| exists|a: InfoModel, url: Seq<char>, name: Option<Seq<char>>|
        cached_from(w, base, a) && #[trigger] is_library(w, a, url, name, f)
}

/// Whether nothing is left to do for a task.
pub open spec fn settled<E>(
    w: CacheWorld<E>,
    task: TaskModel,
    visited: Seq<InfoModel>,
    found: Seq<FoundModel>,
) -> bool {
    match task {
        TaskModel::Library(url, name) => (w.library)(url, name) matches Ok(library) && (library.path
            matches Some(path) ==> found.contains(FoundModel { url: library.url, path })),
        TaskModel::Pack(url) => (w.locate)(url) matches Ok(info) && (visited.contains(info)
            || (w.read)(info) is Absent),
    }
}

/// Whether a manifest is listed as found, under a URL that it is located by.
pub open spec fn listed<E>(w: CacheWorld<E>, info: InfoModel, found: Seq<FoundModel>) -> bool {
    exists|url: Seq<char>| #[trigger]
        found.contains(FoundModel { url, path: info.path }) && (w.locate)(url) == Ok::<InfoModel, E>(
            info,
        )
}

/// What holds while the search works.
spec fn search_inv<E>(
    w: CacheWorld<E>,
    base: InfoModel,
    todo: Seq<TaskModel>,
    pending: Option<InfoModel>,
    visited: Seq<InfoModel>,
    found: Seq<FoundModel>,
) -> bool {
    &&& visited.contains(base)
    &&& visited.no_duplicates()
    &&& forall|v: InfoModel| #[trigger]
        visited.contains(v) ==> (w.read)(v) is Found && cached_from(w, base, v)
    &&& forall|v: InfoModel, t: TaskModel| #[trigger]
        names(w, v, t) && visited.contains(v) ==> todo.contains(t) || settled(w, t, visited, found)
    &&& forall|t: TaskModel| #[trigger]
        todo.contains(t) ==> exists|v: InfoModel| visited.contains(v) && #[trigger] names(w, v, t)
    &&& forall|f: FoundModel| #[trigger] found.contains(f) ==> justified(w, base, f)
    &&& forall|v: InfoModel| #[trigger]
        visited.contains(v) && v != base ==> listed(w, v, found)
    &&& found.len() > 0 && found[0].url == base.url && found[0].path == base.path
    &&& pending matches Some(info) ==> {
        &&& todo.len() > 0
        &&& todo[0] is Pack
        &&& (w.locate)(todo[0]->Pack_0) == Ok::<InfoModel, E>(info)
        &&& !visited.contains(info)
    }
}

proof fn lemma_push_keeps<A>(s: Seq<A>, a: A)
    ensures
        forall|x: A| #[trigger] s.contains(x) ==> s.push(a).contains(x),
        s.push(a).contains(a),
        forall|x: A| #[trigger] s.push(a).contains(x) ==> s.contains(x) || x == a,
{
    assert forall|x: A| #[trigger] s.contains(x) implies s.push(a).contains(x) by {
        let i = choose|i: int| 0 <= i < s.len() && s[i] == x;
        assert(s.push(a)[i] == x);
    }
    assert(s.push(a)[s.len() as int] == a);
    assert forall|x: A| #[trigger] s.push(a).contains(x) implies s.contains(x) || x == a by {
        let i = choose|i: int| 0 <= i < s.push(a).len() && s.push(a)[i] == x;
        if i < s.len() {
            assert(s[i] == x);
        }
    }
}

proof fn lemma_rest_keeps<A>(s: Seq<A>)
    requires
        s.len() > 0,
    ensures
        forall|x: A| #[trigger] s.contains(x) ==> s.drop_first().contains(x) || x == s[0],
        forall|x: A| #[trigger] s.drop_first().contains(x) ==> s.contains(x),
{
    assert forall|x: A| #[trigger] s.contains(x) implies s.drop_first().contains(x) || x == s[0] by {
        let i = choose|i: int| 0 <= i < s.len() && s[i] == x;
        if i > 0 {
            assert(s.drop_first()[i - 1] == x);
        }
    }
    assert forall|x: A| #[trigger] s.drop_first().contains(x) implies s.contains(x) by {
        let i = choose|i: int| 0 <= i < s.drop_first().len() && s.drop_first()[i] == x;
        assert(s[i + 1] == x);
    }
}

proof fn lemma_joined_keeps<A>(a: Seq<A>, b: Seq<A>)
    ensures
        forall|x: A| #[trigger] (a + b).contains(x) <==> (a.contains(x) || b.contains(x)),
{
    assert forall|x: A| #[trigger] (a + b).contains(x) <==> (a.contains(x) || b.contains(x)) by {
        if a.contains(x) {
            let i = choose|i: int| 0 <= i < a.len() && a[i] == x;
            assert((a + b)[i] == x);
        }
        if b.contains(x) {
            let i = choose|i: int| 0 <= i < b.len() && b[i] == x;
            assert((a + b)[a.len() + i] == x);
        }
        if (a + b).contains(x) {
            let i = choose|i: int| 0 <= i < (a + b).len() && (a + b)[i] == x;
            if i < a.len() {
                assert(a[i] == x);
            } else {
                assert(b[i - a.len()] == x);
            }
        }
    }
}

/// What is settled stays settled.
proof fn lemma_settled_stays<E>(
    w: CacheWorld<E>,
    task: TaskModel,
    visited: Seq<InfoModel>,
    found: Seq<FoundModel>,
    visited_later: Seq<InfoModel>,
    found_later: Seq<FoundModel>,
)
    requires
        settled(w, task, visited, found),
        forall|x: InfoModel| #[trigger] visited.contains(x) ==> visited_later.contains(x),
        forall|x: FoundModel| #[trigger] found.contains(x) ==> found_later.contains(x),
    ensures
        settled(w, task, visited_later, found_later),
{
}

pub proof fn lemma_cached_self<E>(w: CacheWorld<E>, base: InfoModel)
    requires
        (w.read)(base) is Found,
    ensures
        cached_from(w, base, base),
{
    let trail = seq![base];
    let urls = Seq::<Seq<char>>::empty();
    assert(is_trail(w, trail, urls));
    assert(trail.last() == base);
}

pub proof fn lemma_cached_on<E>(
    w: CacheWorld<E>,
    base: InfoModel,
    a: InfoModel,
    url: Seq<char>,
    b: InfoModel,
)
    requires
        cached_from(w, base, a),
        leads(w, a, url, b),
    ensures
        cached_from(w, base, b),
{
    let (trail, urls) = choose|trail: Seq<InfoModel>, urls: Seq<Seq<char>>| #[trigger]
        is_trail(w, trail, urls) && trail[0] == base && trail.last() == a;
    let longer = trail.push(b);
    let more = urls.push(url);
    assert forall|i: int| 0 <= i < more.len() implies leads(
        w,
        longer[i],
        #[trigger] more[i],
        longer[i + 1],
    ) by {
        if i < urls.len() {
            assert(more[i] == urls[i]);
            assert(longer[i] == trail[i]);
            assert(longer[i + 1] == trail[i + 1]);
        } else {
            assert(longer[i] == trail.last());
        }
    }
    assert(is_trail(w, longer, more));
    assert(longer[0] == base);
    assert(longer.last() == b);
}

/// The first task is dropped because nothing is left to do for it.
proof fn lemma_dropped<E>(
    w: CacheWorld<E>,
    base: InfoModel,
    todo: Seq<TaskModel>,
    pending: Option<InfoModel>,
    visited: Seq<InfoModel>,
    found: Seq<FoundModel>,
    found_later: Seq<FoundModel>,
)
    requires
        search_inv(w, base, todo, pending, visited, found),
        todo.len() > 0,
        forall|x: FoundModel| #[trigger] found.contains(x) ==> found_later.contains(x),
        forall|x: FoundModel| #[trigger] found_later.contains(x) ==> justified(w, base, x),
        found_later.len() > 0,
        found_later[0] == found[0],
        settled(w, todo[0], visited, found_later),
    ensures
        search_inv(w, base, todo.drop_first(), None, visited, found_later),
{
    lemma_rest_keeps(todo);
    let rest = todo.drop_first();
    assert forall|v: InfoModel, t: TaskModel| #[trigger]
        names(w, v, t) && visited.contains(v) implies rest.contains(t) || settled(
        w,
        t,
        visited,
        found_later,
    ) by {
        if !todo.contains(t) {
            lemma_settled_stays(w, t, visited, found, visited, found_later);
        }
    }
    assert forall|t: TaskModel| #[trigger] rest.contains(t) implies exists|v: InfoModel|
        visited.contains(v) && #[trigger] names(w, v, t) by {
        assert(todo.contains(t));
    }
    assert forall|v: InfoModel| #[trigger]
        visited.contains(v) && v != base implies listed(w, v, found_later) by {
        assert(listed(w, v, found));
        let url = choose|url: Seq<char>| #[trigger]
            found.contains(FoundModel { url, path: v.path }) && (w.locate)(url) == Ok::<InfoModel, E>(
                v,
            );
        assert(found_later.contains(FoundModel { url, path: v.path }));
    }
}

/// Each step keeps what holds.
proof fn lemma_search_step<E>(
    w: CacheWorld<E>,
    base: InfoModel,
    todo: Seq<TaskModel>,
    pending: Option<InfoModel>,
    visited: Seq<InfoModel>,
    found: Seq<FoundModel>,
)
    requires
        search_inv(w, base, todo, pending, visited, found),
    ensures
        search_step(w, SearchModel::Working { todo, pending, visited, found }) matches Ok(next) ==> {
            &&& next is Working
            &&& search_inv(
                w,
                base,
                next->Working_todo,
                next->Working_pending,
                next->Working_visited,
                next->Working_found,
            )
        },
{
    let m = SearchModel::Working { todo, pending, visited, found };
    match search_step(w, m) {
        Err(_) => {},
        Ok(next) => match pending {
            Some(info) => {
                let url = todo[0]->Pack_0;
                assert(todo[0] == TaskModel::Pack(url));
                assert(todo.contains(todo[0]));
                match (w.read)(info) {
                    CachedReplyModel::Absent => {
                        lemma_dropped(w, base, todo, pending, visited, found, found);
                    },
                    CachedReplyModel::Unparsable(_) => {},
                    CachedReplyModel::Found(file) => {
                        let v = choose|v: InfoModel|
                            visited.contains(v) && #[trigger] names(w, v, TaskModel::Pack(url));
                        assert(leads(w, v, url, info));
                        lemma_cached_on(w, base, v, url, info);
                        lemma_found_pack(w, base, todo, info, visited, found, v);
                    },
                }
            },
            None => {
                if todo.len() > 0 {
                    assert(todo.contains(todo[0]));
                    match todo[0] {
                        TaskModel::Library(url, name) => {
                            let library = (w.library)(url, name)->Ok_0;
                            match library.path {
                                Some(path) => {
                                    let f = FoundModel { url: library.url, path };
                                    lemma_push_keeps(found, f);
                                    let v = choose|v: InfoModel|
                                        visited.contains(v) && #[trigger] names(w, v, todo[0]);
                                    assert(is_library(w, v, url, name, f));
                                    assert(justified(w, base, f));
                                    lemma_dropped(
                                        w,
                                        base,
                                        todo,
                                        pending,
                                        visited,
                                        found,
                                        found.push(f),
                                    );
                                },
                                None => {
                                    lemma_dropped(w, base, todo, pending, visited, found, found);
                                },
                            }
                        },
                        TaskModel::Pack(url) => {
                            let info = (w.locate)(url)->Ok_0;
                            if visited.contains(info) {
                                lemma_dropped(w, base, todo, pending, visited, found, found);
                            }
                        },
                    }
                }
            },
        },
    }
}

/// A manifest of a dependency is found in the cache.
proof fn lemma_found_pack<E>(
    w: CacheWorld<E>,
    base: InfoModel,
    todo: Seq<TaskModel>,
    info: InfoModel,
    visited: Seq<InfoModel>,
    found: Seq<FoundModel>,
    by: InfoModel,
)
    requires
        search_inv(w, base, todo, Some(info), visited, found),
        (w.read)(info) is Found,
        visited.contains(by),
        leads(w, by, todo[0]->Pack_0, info),
        cached_from(w, base, info),
    ensures
        search_inv(
            w,
            base,
            todo.drop_first() + file_tasks((w.read)(info)->Found_0),
            None,
            visited.push(info),
            found.push(FoundModel { url: todo[0]->Pack_0, path: info.path }),
        ),
{
    let url = todo[0]->Pack_0;
    let f = FoundModel { url, path: info.path };
    let new_tasks = file_tasks((w.read)(info)->Found_0);
    let rest = todo.drop_first();
    let later = rest + new_tasks;
    let visited_later = visited.push(info);
    let found_later = found.push(f);
    lemma_rest_keeps(todo);
    lemma_joined_keeps(rest, new_tasks);
    lemma_push_keeps(visited, info);
    lemma_push_keeps(found, f);
    assert(justified(w, base, f)) by {
        assert(cached_from(w, base, by));
        assert(leads(w, by, f.url, info));
    }
    assert forall|v: InfoModel, t: TaskModel| #[trigger]
        names(w, v, t) && visited_later.contains(v) implies later.contains(t) || settled(
        w,
        t,
        visited_later,
        found_later,
    ) by {
        if visited.contains(v) {
            if todo.contains(t) {
                if !rest.contains(t) {
                    assert(t == todo[0]);
                    assert(settled(w, t, visited_later, found_later));
                }
            } else {
                lemma_settled_stays(w, t, visited, found, visited_later, found_later);
            }
        }
    }
    assert forall|t: TaskModel| #[trigger] later.contains(t) implies exists|v: InfoModel|
        visited_later.contains(v) && #[trigger] names(w, v, t) by {
        if rest.contains(t) {
            assert(todo.contains(t));
            let v = choose|v: InfoModel| visited.contains(v) && #[trigger] names(w, v, t);
            assert(visited_later.contains(v) && names(w, v, t));
        } else {
            assert(visited_later.contains(info) && names(w, info, t));
        }
    }
    assert forall|v: InfoModel| #[trigger]
        visited_later.contains(v) && v != base implies listed(w, v, found_later) by {
        if visited.contains(v) {
            assert(listed(w, v, found));
            let u = choose|u: Seq<char>| #[trigger]
                found.contains(FoundModel { url: u, path: v.path }) && (w.locate)(u) == Ok::<
                    InfoModel,
                    E,
                >(v);
            assert(found_later.contains(FoundModel { url: u, path: v.path }));
        } else {
            assert(found_later.contains(FoundModel { url, path: v.path }));
        }
    }
    assert forall|x: FoundModel| #[trigger] found_later.contains(x) implies justified(w, base, x) by {
        if x != f {
            assert(found.contains(x));
        }
    }
}

/// All steps keep what holds.
proof fn lemma_search_run<E>(w: CacheWorld<E>, base: InfoModel, m: SearchModel, steps: nat)
    requires
        m is Working,
        search_inv(
            w,
            base,
            m->Working_todo,
            m->Working_pending,
            m->Working_visited,
            m->Working_found,
        ),
    ensures
        search_run(w, m, steps) matches Ok(end) ==> {
            &&& end is Working
            &&& search_inv(
                w,
                base,
                end->Working_todo,
                end->Working_pending,
                end->Working_visited,
                end->Working_found,
            )
        },
    decreases steps,
{
    if steps > 0 {
        lemma_search_step(
            w,
            base,
            m->Working_todo,
            m->Working_pending,
            m->Working_visited,
            m->Working_found,
        );
        match search_step(w, m) {
            Ok(next) => lemma_search_run(w, base, next, (steps - 1) as nat),
            Err(_) => {},
        }
    }
}

/// What holds when the main manifest was read.
proof fn lemma_search_starts<E>(w: CacheWorld<E>, base: InfoModel)
    requires
        (w.read)(base) is Found,
    ensures
        search_inv(
            w,
            base,
            file_tasks((w.read)(base)->Found_0),
            None,
            seq![base],
            seq![FoundModel { url: base.url, path: base.path }],
        ),
{
    let visited = seq![base];
    let found = seq![FoundModel { url: base.url, path: base.path }];
    let todo = file_tasks((w.read)(base)->Found_0);
    lemma_cached_self(w, base);
    assert(visited[0] == base);
    assert(visited.contains(base));
    assert forall|f: FoundModel| #[trigger] found.contains(f) implies justified(w, base, f) by {
        let i = choose|i: int| 0 <= i < found.len() && found[i] == f;
        assert(f == found[0]);
    }
    assert forall|t: TaskModel| #[trigger] todo.contains(t) implies exists|v: InfoModel|
        visited.contains(v) && #[trigger] names(w, v, t) by {
        assert(visited.contains(base) && names(w, base, t));
    }
}

/// What a trail leads to was visited if nothing is left to do.
proof fn lemma_trail_visited<E>(
    w: CacheWorld<E>,
    base: InfoModel,
    visited: Seq<InfoModel>,
    found: Seq<FoundModel>,
    trail: Seq<InfoModel>,
    urls: Seq<Seq<char>>,
    i: int,
)
    requires
        search_inv(w, base, Seq::empty(), None, visited, found),
        is_trail(w, trail, urls),
        trail[0] == base,
        0 <= i < trail.len(),
    ensures
        visited.contains(trail[i]),
    decreases i,
{
    if i > 0 {
        lemma_trail_visited(w, base, visited, found, trail, urls, i - 1);
        assert(leads(w, trail[i - 1], urls[i - 1], trail[i - 1 + 1]));
        let t = TaskModel::Pack(urls[i - 1]);
        assert(names(w, trail[i - 1], t) && visited.contains(trail[i - 1]));
        assert(settled(w, t, visited, found));
    }
}

/// A search that has found something has found all: with the main manifest first,
/// it lists each manifest in the cache that the main one leads to and each library
/// file in the cache that one of them names for any platform, and nothing else.
pub proof fn search_finds_all_cached<E>(w: CacheWorld<E>, url: Seq<char>, steps: nat)
    requires
        search_run(w, SearchModel::Base(url), steps) is Ok,
        search_run(w, SearchModel::Base(url), steps)->Ok_0.request() is Nothing,
        search_run(w, SearchModel::Base(url), steps)->Ok_0.result() is Some,
    ensures
        ({
            let found = search_run(w, SearchModel::Base(url), steps)->Ok_0.result()->0;
            let base = (w.locate)(url)->Ok_0;
            &&& (w.locate)(url) is Ok
            &&& found.len() > 0 && found[0] == (FoundModel { url: base.url, path: base.path })
            &&& forall|info: InfoModel| #[trigger]
                cached_from(w, base, info) && info != base ==> listed(w, info, found)
            &&& forall|a: InfoModel, u: Seq<char>, name: Option<Seq<char>>, f: FoundModel|
                cached_from(w, base, a) && #[trigger] is_library(w, a, u, name, f) ==> found.contains(f)
            &&& forall|f: FoundModel| #[trigger] found.contains(f) ==> justified(w, base, f)
        }),
{
    let end = search_run(w, SearchModel::Base(url), steps)->Ok_0;
    let base = (w.locate)(url)->Ok_0;
    reveal_with_fuel(search_run, 3);
    let begun = SearchModel::Working {
        todo: file_tasks((w.read)(base)->Found_0),
        pending: None,
        visited: seq![base],
        found: seq![FoundModel { url: base.url, path: base.path }],
    };
    assert(steps >= 2);
    if (w.read)(base) is Absent {
        lemma_nothing_stays(w, SearchModel::NotCached, (steps - 2) as nat);
    }
    assert((w.read)(base) is Found);
    assert(search_run(w, begun, (steps - 2) as nat) == Ok::<SearchModel, SearchFailure<E>>(end));
    lemma_search_starts(w, base);
    lemma_search_run(w, base, begun, (steps - 2) as nat);
    let visited = end->Working_visited;
    let found = end->Working_found;
    assert(end->Working_todo =~= Seq::empty());
    assert(found[0] =~= FoundModel { url: base.url, path: base.path });
    assert forall|info: InfoModel| #[trigger] cached_from(w, base, info) implies visited.contains(info) by {
        let (trail, urls) = choose|trail: Seq<InfoModel>, urls: Seq<Seq<char>>| #[trigger]
            is_trail(w, trail, urls) && trail[0] == base && trail.last() == info;
        lemma_trail_visited(w, base, visited, found, trail, urls, trail.len() - 1);
    }
    assert forall|a: InfoModel, u: Seq<char>, name: Option<Seq<char>>, f: FoundModel|
        cached_from(w, base, a) && #[trigger] is_library(w, a, u, name, f) implies found.contains(f) by {
        let t = TaskModel::Library(u, name);
        assert(names(w, a, t) && visited.contains(a));
        assert(settled(w, t, visited, found));
        let library = (w.library)(u, name)->Ok_0;
        assert(f =~= FoundModel { url: library.url, path: library.path->0 });
    }
}

/// A search that needs nothing more stays as it is.
proof fn lemma_nothing_stays<E>(w: CacheWorld<E>, m: SearchModel, steps: nat)
    requires
        m.request() is Nothing,
    ensures
        search_run(w, m, steps) == Ok::<SearchModel, SearchFailure<E>>(m),
    decreases steps,
{
    if steps > 0 {
        lemma_nothing_stays(w, m, (steps - 1) as nat);
    }
}

/// A search comes to nothing exactly where the main manifest is not in the cache.
pub proof fn search_finds_nothing_without_main<E>(w: CacheWorld<E>, url: Seq<char>, steps: nat)
    requires
        search_run(w, SearchModel::Base(url), steps) is Ok,
        search_run(w, SearchModel::Base(url), steps)->Ok_0.request() is Nothing,
    ensures
        search_run(w, SearchModel::Base(url), steps)->Ok_0.result() is None <==> ((w.locate)(
            url,
        ) matches Ok(base) && (w.read)(base) is Absent),
{
    let base = (w.locate)(url)->Ok_0;
    reveal_with_fuel(search_run, 3);
    assert(steps >= 2);
    match (w.read)(base) {
        CachedReplyModel::Absent => {
            lemma_nothing_stays(w, SearchModel::NotCached, (steps - 2) as nat);
        },
        CachedReplyModel::Unparsable(_) => {},
        CachedReplyModel::Found(file) => {
            let begun = SearchModel::Working {
                todo: file_tasks(file),
                pending: None,
                visited: seq![base],
                found: seq![FoundModel { url: base.url, path: base.path }],
            };
            lemma_search_starts(w, base);
            lemma_search_run(w, base, begun, (steps - 2) as nat);
        },
    }
}

/// Whether a search has come to its end.
pub open spec fn search_over<E>(r: Result<SearchModel, SearchFailure<E>>) -> bool {
    match r {
        Ok(m) => m.request() is Nothing,
        Err(_) => true,
    }
}

/// Distinct manifests of a finite set are no more than it holds.
proof fn lemma_infos_fit(infos: Seq<InfoModel>, all: Set<InfoModel>)
    requires
        all.finite(),
        infos.no_duplicates(),
        forall|x: InfoModel| #[trigger] infos.contains(x) ==> all.contains(x),
    ensures
        infos.len() <= all.len(),
{
    infos.unique_seq_to_set();
    assert(infos.to_set().subset_of(all));
    vstd::set_lib::lemma_len_subset(infos.to_set(), all);
}

proof fn lemma_search_ends<E>(
    w: CacheWorld<E>,
    base: InfoModel,
    todo: Seq<TaskModel>,
    pending: Option<InfoModel>,
    visited: Seq<InfoModel>,
    found: Seq<FoundModel>,
    all: Set<InfoModel>,
) -> (steps: nat)
    requires
        search_inv(w, base, todo, pending, visited, found),
        all.finite(),
        forall|x: InfoModel| #[trigger] cached_from(w, base, x) ==> all.contains(x),
    ensures
        search_over(search_run(w, SearchModel::Working { todo, pending, visited, found }, steps)),
    decreases
            all.len() - visited.len(),
            2 * todo.len() - if pending is Some {
                1int
            } else {
                0int
            },
{
    let m = SearchModel::Working { todo, pending, visited, found };
    lemma_infos_fit(visited, all);
    if m.request() is Nothing {
        0
    } else {
        match search_step(w, m) {
            Err(_) => {
                reveal_with_fuel(search_run, 2);
                1
            },
            Ok(next) => {
                lemma_search_step(w, base, todo, pending, visited, found);
                lemma_infos_fit(next->Working_visited, all);
                let more = lemma_search_ends(
                    w,
                    base,
                    next->Working_todo,
                    next->Working_pending,
                    next->Working_visited,
                    next->Working_found,
                    all,
                );
                assert((more + 1 - 1) as nat == more);
                more + 1
            },
        }
    }
}

/// A search comes to an end wherever the main manifest leads to finitely many
/// manifests, also where they name each other in circles.
pub proof fn search_ends<E>(w: CacheWorld<E>, url: Seq<char>, all: Set<InfoModel>) -> (steps: nat)
    requires
        all.finite(),
        (w.locate)(url) matches Ok(base) ==> forall|x: InfoModel| #[trigger]
            cached_from(w, base, x) ==> all.contains(x),
    ensures
        search_over(search_run(w, SearchModel::Base(url), steps)),
{
    reveal_with_fuel(search_run, 3);
    match (w.locate)(url) {
        Err(_) => 1,
        Ok(base) => match (w.read)(base) {
            CachedReplyModel::Absent => 2,
            CachedReplyModel::Unparsable(_) => 2,
            CachedReplyModel::Found(file) => {
                lemma_search_starts(w, base);
                let visited = seq![base];
                let found = seq![FoundModel { url: base.url, path: base.path }];
                let more = lemma_search_ends(w, base, file_tasks(file), None, visited, found, all);
                assert((more + 2 - 2) as nat == more);
                assert((more + 2 - 1) as nat == more + 1);
                more + 2
            },
        },
    }
}

/// Whether a manifest in the cache names one that is there and makes no sense, which
/// is the failure `f`.
pub open spec fn dependent_fails<E>(
    w: CacheWorld<E>,
    base: InfoModel,
    f: SearchFailure<E>,
) -> bool {
    exists|a: InfoModel, url: Seq<char>|
        cached_from(w, base, a) && #[trigger] names(w, a, TaskModel::Pack(url)) && unparsable_as(
            w,
            url,
            f,
        )
}

/// Whether the manifest of `url` is in the cache and makes no sense, which is the failure `f`.
pub open spec fn unparsable_as<E>(w: CacheWorld<E>, url: Seq<char>, f: SearchFailure<E>) -> bool {
    (w.locate)(url) matches Ok(b) && (w.read)(b) matches CachedReplyModel::Unparsable(e) && f
        == SearchFailure::DependentUnparsable(e)
}

/// Whether the places of all that manifests in the cache name can be had.
pub open spec fn places_known<E>(w: CacheWorld<E>, base: InfoModel) -> bool {
    forall|a: InfoModel, t: TaskModel|
        cached_from(w, base, a) && #[trigger] names(w, a, t) ==> match t {
            TaskModel::Library(url, name) => (w.library)(url, name) is Ok,
            TaskModel::Pack(url) => (w.locate)(url) is Ok,
        }
}

/// While the search works it fails only on a manifest that makes no sense.
proof fn lemma_search_fails<E>(w: CacheWorld<E>, base: InfoModel, m: SearchModel, steps: nat)
    requires
        m is Working,
        search_inv(
            w,
            base,
            m->Working_todo,
            m->Working_pending,
            m->Working_visited,
            m->Working_found,
        ),
        places_known(w, base),
    ensures
        search_run(w, m, steps) matches Err(f) ==> dependent_fails(w, base, f),
    decreases steps,
{
    if steps > 0 {
        let todo = m->Working_todo;
        let visited = m->Working_visited;
        lemma_search_step(w, base, todo, m->Working_pending, visited, m->Working_found);
        match search_step(w, m) {
            Ok(next) => lemma_search_fails(w, base, next, (steps - 1) as nat),
            Err(f) => {
                assert(todo.contains(todo[0]));
                let v = choose|v: InfoModel| visited.contains(v) && #[trigger] names(w, v, todo[0]);
                assert(cached_from(w, base, v));
                match todo[0] {
                    TaskModel::Library(_, _) => {},
                    TaskModel::Pack(url) => {
                        assert(names(w, v, TaskModel::Pack(url)));
                        assert(unparsable_as(w, url, f));
                    },
                }
            },
        }
    }
}

/// Whether looking for a task is the failure `f`.
pub open spec fn task_fails<E>(w: CacheWorld<E>, task: TaskModel, f: SearchFailure<E>) -> bool {
    match task {
        TaskModel::Library(url, name) => (w.library)(url, name) matches Err(e) && f
            == SearchFailure::Outside(e),
        TaskModel::Pack(url) => match (w.locate)(url) {
            Err(e) => f == SearchFailure::Outside(e),
            Ok(_) => unparsable_as(w, url, f),
        },
    }
}

/// While the search works it fails only on something that a manifest in the cache names.
proof fn lemma_search_fails_on_a_task<E>(
    w: CacheWorld<E>,
    base: InfoModel,
    m: SearchModel,
    steps: nat,
)
    requires
        m is Working,
        search_inv(
            w,
            base,
            m->Working_todo,
            m->Working_pending,
            m->Working_visited,
            m->Working_found,
        ),
    ensures
        search_run(w, m, steps) matches Err(f) ==> exists|a: InfoModel, t: TaskModel|
            cached_from(w, base, a) && #[trigger] names(w, a, t) && task_fails(w, t, f),
    decreases steps,
{
    if steps > 0 {
        let todo = m->Working_todo;
        let visited = m->Working_visited;
        lemma_search_step(w, base, todo, m->Working_pending, visited, m->Working_found);
        match search_step(w, m) {
            Ok(next) => lemma_search_fails_on_a_task(w, base, next, (steps - 1) as nat),
            Err(f) => {
                assert(todo.contains(todo[0]));
                let v = choose|v: InfoModel| visited.contains(v) && #[trigger] names(w, v, todo[0]);
                assert(cached_from(w, base, v) && names(w, v, todo[0]));
                assert(task_fails(w, todo[0], f));
            },
        }
    }
}

/// A search fails only for a reason: the main manifest cannot be located or makes no
/// sense, or something that a manifest in the cache names cannot be located or, if it
/// is a manifest, makes no sense.
pub proof fn search_fails_for_a_reason<E>(
    w: CacheWorld<E>,
    url: Seq<char>,
    steps: nat,
    f: SearchFailure<E>,
)
    requires
        search_run(w, SearchModel::Base(url), steps) == Err::<SearchModel, SearchFailure<E>>(f),
    ensures
        match (w.locate)(url) {
            Err(e) => f == SearchFailure::Outside(e),
            Ok(base) => match (w.read)(base) {
                CachedReplyModel::Unparsable(e) => f == SearchFailure::MainUnparsable(e),
                CachedReplyModel::Absent => false,
                CachedReplyModel::Found(_) => exists|a: InfoModel, t: TaskModel|
                    cached_from(w, base, a) && #[trigger] names(w, a, t) && task_fails(w, t, f),
            },
        },
{
    reveal_with_fuel(search_run, 3);
    match (w.locate)(url) {
        Err(_) => {},
        Ok(base) => match (w.read)(base) {
            CachedReplyModel::Unparsable(_) => {},
            CachedReplyModel::Absent => {
                lemma_nothing_stays(w, SearchModel::NotCached, (steps - 2) as nat);
            },
            CachedReplyModel::Found(file) => {
                let begun = SearchModel::Working {
                    todo: file_tasks(file),
                    pending: None,
                    visited: seq![base],
                    found: seq![FoundModel { url: base.url, path: base.path }],
                };
                lemma_search_starts(w, base);
                lemma_search_fails_on_a_task(w, base, begun, (steps - 2) as nat);
            },
        },
    }
}

/// Where all places can be had, a search fails exactly if a manifest in the cache
/// makes no sense: the main one, or one that a manifest in the cache names. It tells
/// the two apart, and why.
pub proof fn search_fails_on_senseless_manifests<E>(
    w: CacheWorld<E>,
    url: Seq<char>,
    base: InfoModel,
    all: Set<InfoModel>,
) -> (steps: nat)
    requires
        (w.locate)(url) == Ok::<InfoModel, E>(base),
        all.finite(),
        forall|x: InfoModel| #[trigger] cached_from(w, base, x) ==> all.contains(x),
        places_known(w, base),
    ensures
        ({
            let end = search_run(w, SearchModel::Base(url), steps);
            match (w.read)(base) {
                CachedReplyModel::Unparsable(e) => end == Err::<SearchModel, SearchFailure<E>>(
                    SearchFailure::MainUnparsable(e),
                ),
                CachedReplyModel::Absent => end == Ok::<SearchModel, SearchFailure<E>>(
                    SearchModel::NotCached,
                ),
                CachedReplyModel::Found(_) => {
                    &&& end is Err <==> exists|f: SearchFailure<E>| dependent_fails(w, base, f)
                    &&& end matches Err(f) ==> dependent_fails(w, base, f)
                    &&& end matches Ok(m) ==> m.request() is Nothing && m.result() is Some
                },
            }
        }),
{
    let steps = search_ends(w, url, all);
    let end = search_run(w, SearchModel::Base(url), steps);
    reveal_with_fuel(search_run, 3);
    assert(steps >= 2);
    match (w.read)(base) {
        CachedReplyModel::Unparsable(_) => {},
        CachedReplyModel::Absent => {
            lemma_nothing_stays(w, SearchModel::NotCached, (steps - 2) as nat);
        },
        CachedReplyModel::Found(file) => {
            let begun = SearchModel::Working {
                todo: file_tasks(file),
                pending: None,
                visited: seq![base],
                found: seq![FoundModel { url: base.url, path: base.path }],
            };
            lemma_search_starts(w, base);
            lemma_search_run(w, base, begun, (steps - 2) as nat);
            lemma_search_fails(w, base, begun, (steps - 2) as nat);
            assert(end == search_run(w, begun, (steps - 2) as nat));
            match end {
                Err(_) => {},
                Ok(m) => {
                    let visited = m->Working_visited;
                    let found = m->Working_found;
                    assert(m->Working_todo =~= Seq::empty());
                    if exists|f: SearchFailure<E>| dependent_fails(w, base, f) {
                        let f = choose|f: SearchFailure<E>| dependent_fails(w, base, f);
                        let (a, u) = choose|a: InfoModel, u: Seq<char>|
                            cached_from(w, base, a) && #[trigger] names(w, a, TaskModel::Pack(u))
                                && unparsable_as(w, u, f);
                        let (trail, urls) = choose|trail: Seq<InfoModel>, urls: Seq<Seq<char>>|
                            #[trigger]
                            is_trail(w, trail, urls) && trail[0] == base && trail.last() == a;
                        lemma_trail_visited(w, base, visited, found, trail, urls, trail.len() - 1);
                        assert(settled(w, TaskModel::Pack(u), visited, found));
                    }
                },
            }
        },
    }
    steps
}

/// What manifests in the cache name, one manifest after the other.
pub open spec fn tasks_of<E>(w: CacheWorld<E>, visited: Seq<InfoModel>) -> Seq<TaskModel>
    decreases visited.len(),
{
    if visited.len() == 0 {
        Seq::empty()
    } else {
        tasks_of(w, visited.drop_last()) + file_tasks((w.read)(visited.last())->Found_0)
    }
}

/// The library files in the cache that tasks name: one entry for each naming.
pub open spec fn libraries_found<E>(w: CacheWorld<E>, tasks: Seq<TaskModel>) -> Seq<FoundModel>
    decreases tasks.len(),
{
    if tasks.len() == 0 {
        Seq::empty()
    } else {
        let before = libraries_found(w, tasks.drop_last());
        match tasks.last() {
            TaskModel::Library(url, name) => match (w.library)(url, name) {
                Ok(library) => match library.path {
                    Some(path) => before.push(FoundModel { url: library.url, path }),
                    None => before,
                },
                Err(_) => before,
            },
            TaskModel::Pack(_) => before,
        }
    }
}

/// Whether `entries` are those of the manifests `visited`, one for each: the first
/// under its own URL, each other one under a URL that it is located by.
pub open spec fn entries_of<E>(
    w: CacheWorld<E>,
    visited: Seq<InfoModel>,
    entries: Seq<FoundModel>,
) -> bool {
    &&& entries.len() == visited.len()
    &&& visited.len() > 0
    &&& entries[0] == (FoundModel { url: visited[0].url, path: visited[0].path })
    &&& forall|i: int|
        0 < i < visited.len() ==> (#[trigger] entries[i]).path == visited[i].path && (w.locate)(
            entries[i].url,
        ) == Ok::<InfoModel, E>(visited[i])
}

/// What was found while the search works: the manifests visited, once each, and the
/// library files of the tasks done, once for each task.
spec fn listing_inv<E>(
    w: CacheWorld<E>,
    todo: Seq<TaskModel>,
    visited: Seq<InfoModel>,
    found: Seq<FoundModel>,
    entries: Seq<FoundModel>,
) -> bool {
    let all = tasks_of(w, visited);
    let done = all.len() - todo.len();
    &&& done >= 0
    &&& todo == all.skip(done)
    &&& entries_of(w, visited, entries)
    &&& found.to_multiset() == entries.to_multiset().add(
        libraries_found(w, all.take(done)).to_multiset(),
    )
}

/// One more task is done, and what it found is listed.
proof fn lemma_task_done<E>(
    w: CacheWorld<E>,
    todo: Seq<TaskModel>,
    visited: Seq<InfoModel>,
    found: Seq<FoundModel>,
    entries: Seq<FoundModel>,
)
    requires
        listing_inv(w, todo, visited, found, entries),
        todo.len() > 0,
        todo[0] matches TaskModel::Library(url, name) ==> (w.library)(url, name) is Ok,
    ensures
        listing_inv(
            w,
            todo.drop_first(),
            visited,
            match todo[0] {
                TaskModel::Library(url, name) => match (w.library)(url, name)->Ok_0.path {
                    Some(path) => found.push(
                        FoundModel { url: (w.library)(url, name)->Ok_0.url, path },
                    ),
                    None => found,
                },
                TaskModel::Pack(_) => found,
            },
            entries,
        ),
{
    let all = tasks_of(w, visited);
    let done = all.len() - todo.len();
    let more = all.take(done + 1);
    assert(todo[0] == all[done]);
    assert(todo.drop_first() =~= all.skip(done + 1));
    assert(more.drop_last() =~= all.take(done));
    assert(more.last() == todo[0]);
    let libraries = libraries_found(w, all.take(done));
    match todo[0] {
        TaskModel::Library(url, name) => {
            let library = (w.library)(url, name)->Ok_0;
            match library.path {
                Some(path) => {
                    let f = FoundModel { url: library.url, path };
                    found.to_multiset_ensures();
                    libraries.to_multiset_ensures();
                    assert(found.push(f).to_multiset() =~= entries.to_multiset().add(
                        libraries.push(f).to_multiset(),
                    ));
                },
                None => {},
            }
        },
        TaskModel::Pack(_) => {},
    }
}

/// A manifest was found, and what it names is to be done.
proof fn lemma_pack_listed<E>(
    w: CacheWorld<E>,
    todo: Seq<TaskModel>,
    info: InfoModel,
    visited: Seq<InfoModel>,
    found: Seq<FoundModel>,
    entries: Seq<FoundModel>,
)
    requires
        listing_inv(w, todo, visited, found, entries),
        todo.len() > 0,
        todo[0] is Pack,
        (w.locate)(todo[0]->Pack_0) == Ok::<InfoModel, E>(info),
    ensures
        listing_inv(
            w,
            todo.drop_first() + file_tasks((w.read)(info)->Found_0),
            visited.push(info),
            found.push(FoundModel { url: todo[0]->Pack_0, path: info.path }),
            entries.push(FoundModel { url: todo[0]->Pack_0, path: info.path }),
        ),
{
    let f = FoundModel { url: todo[0]->Pack_0, path: info.path };
    let tasks = file_tasks((w.read)(info)->Found_0);
    let rest = todo.drop_first();
    let before = tasks_of(w, visited);
    let later = visited.push(info);
    let longer = entries.push(f);
    lemma_task_done(w, todo, visited, found, entries);
    assert(later.drop_last() =~= visited);
    let all = tasks_of(w, later);
    assert(all == before + tasks);
    let done = before.len() - rest.len();
    assert(all.len() - (rest + tasks).len() == done);
    assert(rest + tasks =~= all.skip(done));
    assert(all.take(done) =~= before.take(done));
    assert forall|i: int| 0 < i < later.len() implies (#[trigger] longer[i]).path == later[i].path
        && (w.locate)(longer[i].url) == Ok::<InfoModel, E>(later[i]) by {
        if i < visited.len() {
            assert(longer[i] == entries[i]);
        }
    }
    found.to_multiset_ensures();
    entries.to_multiset_ensures();
    assert(found.push(f).to_multiset() =~= longer.to_multiset().add(
        libraries_found(w, all.take(done)).to_multiset(),
    ));
}

/// All steps keep the listing.
proof fn lemma_search_lists<E>(
    w: CacheWorld<E>,
    base: InfoModel,
    m: SearchModel,
    entries: Seq<FoundModel>,
    steps: nat,
) -> (later: Seq<FoundModel>)
    requires
        m is Working,
        search_inv(
            w,
            base,
            m->Working_todo,
            m->Working_pending,
            m->Working_visited,
            m->Working_found,
        ),
        listing_inv(w, m->Working_todo, m->Working_visited, m->Working_found, entries),
        m->Working_visited[0] == base,
    ensures
        search_run(w, m, steps) matches Ok(end) ==> {
            &&& end is Working
            &&& listing_inv(w, end->Working_todo, end->Working_visited, end->Working_found, later)
            &&& end->Working_visited[0] == base
        },
    decreases steps,
{
    if steps == 0 {
        entries
    } else {
        let todo = m->Working_todo;
        let pending = m->Working_pending;
        let visited = m->Working_visited;
        let found = m->Working_found;
        lemma_search_step(w, base, todo, pending, visited, found);
        match search_step(w, m) {
            Err(_) => entries,
            Ok(next) => {
                let more = match pending {
                    Some(info) => match (w.read)(info) {
                        CachedReplyModel::Found(file) => {
                            lemma_pack_listed(w, todo, info, visited, found, entries);
                            entries.push(FoundModel { url: todo[0]->Pack_0, path: info.path })
                        },
                        _ => {
                            lemma_task_done(w, todo, visited, found, entries);
                            entries
                        },
                    },
                    None => {
                        if todo.len() > 0 {
                            let dropped = match todo[0] {
                                TaskModel::Library(_, _) => true,
                                TaskModel::Pack(url) => visited.contains((w.locate)(url)->Ok_0),
                            };
                            if dropped {
                                lemma_task_done(w, todo, visited, found, entries);
                            }
                        }
                        entries
                    },
                };
                lemma_search_lists(w, base, next, more, (steps - 1) as nat)
            },
        }
    }
}

/// A search lists each manifest in the cache that the main one leads to once, and
/// each library file in the cache once for each time that one of them names it. `listing`
/// holds the manifests in the order in which they were visited, and the entry of each.
pub proof fn search_lists_each_once<E>(w: CacheWorld<E>, url: Seq<char>, steps: nat) -> (listing: (
    Seq<InfoModel>,
    Seq<FoundModel>,
))
    requires
        search_run(w, SearchModel::Base(url), steps) is Ok,
        search_run(w, SearchModel::Base(url), steps)->Ok_0.request() is Nothing,
        search_run(w, SearchModel::Base(url), steps)->Ok_0.result() is Some,
    ensures
        ({
            let found = search_run(w, SearchModel::Base(url), steps)->Ok_0.result()->0;
            let base = (w.locate)(url)->Ok_0;
            let (visited, entries) = listing;
            &&& visited.no_duplicates()
            &&& forall|info: InfoModel| #[trigger]
                visited.contains(info) <==> cached_from(w, base, info)
            &&& visited[0] == base
            &&& entries_of(w, visited, entries)
            &&& found.to_multiset() == entries.to_multiset().add(
                libraries_found(w, tasks_of(w, visited)).to_multiset(),
            )
        }),
{
    let end = search_run(w, SearchModel::Base(url), steps)->Ok_0;
    let base = (w.locate)(url)->Ok_0;
    reveal_with_fuel(search_run, 3);
    let first = FoundModel { url: base.url, path: base.path };
    let begun = SearchModel::Working {
        todo: file_tasks((w.read)(base)->Found_0),
        pending: None,
        visited: seq![base],
        found: seq![first],
    };
    assert(steps >= 2);
    if (w.read)(base) is Absent {
        lemma_nothing_stays(w, SearchModel::NotCached, (steps - 2) as nat);
    }
    assert((w.read)(base) is Found);
    assert(search_run(w, begun, (steps - 2) as nat) == Ok::<SearchModel, SearchFailure<E>>(end));
    lemma_search_starts(w, base);
    lemma_search_run(w, base, begun, (steps - 2) as nat);
    let tasks = file_tasks((w.read)(base)->Found_0);
    let entries = seq![first];
    assert(listing_inv(w, tasks, seq![base], seq![first], entries)) by {
        let none = Seq::<InfoModel>::empty();
        assert(seq![base].drop_last() =~= none);
        assert(tasks_of(w, none) =~= Seq::empty());
        assert(tasks_of(w, seq![base]) =~= tasks);
        assert(tasks.skip(0) =~= tasks);
        assert(tasks.take(0) =~= Seq::empty());
        let libraries = libraries_found(w, tasks.take(0));
        libraries.to_multiset_ensures();
        assert(entries.to_multiset() =~= entries.to_multiset().add(libraries.to_multiset()));
    }
    let later = lemma_search_lists(w, base, begun, entries, (steps - 2) as nat);
    let visited = end->Working_visited;
    let found = end->Working_found;
    assert(end->Working_todo =~= Seq::empty());
    let all = tasks_of(w, visited);
    assert(all.take(all.len() as int) =~= all);
    assert forall|info: InfoModel| #[trigger]
        visited.contains(info) <==> cached_from(w, base, info) by {
        if cached_from(w, base, info) {
            let (trail, urls) = choose|trail: Seq<InfoModel>, urls: Seq<Seq<char>>| #[trigger]
                is_trail(w, trail, urls) && trail[0] == base && trail.last() == info;
            lemma_trail_visited(w, base, visited, found, trail, urls, trail.len() - 1);
        }
    }
    (visited, later)
}

} // verus!
