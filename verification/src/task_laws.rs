//! What a manifest names in the cache: of each of its platforms the library and every
//! dependency, and nothing else.
use vstd::prelude::*;

use crate::cached::{
    file_tasks, platform_tasks, CachedReplyModel, FoundModel, SearchFailure, SearchModel, TaskModel,
};
use crate::cached_laws::{
    cached_from, is_library, is_trail, justified, leads, listed, names, search_fails_for_a_reason,
    search_finds_all_cached, search_run, task_fails, CacheWorld,
};
use crate::manifest::{DependencyModel, InfoModel, PlatformModel};

verus! {

/// Whether `task` looks for a dependency: for a pack by its URL, for a library file by
/// its URL and its name.
pub open spec fn looks_for(task: TaskModel, dependency: DependencyModel) -> bool {
    match dependency {
        DependencyModel::DllPack { url } => task == TaskModel::Pack(url),
        DependencyModel::RawLib { url, name } => task == TaskModel::Library(url, name),
    }
}

/// Whether an entry names the library file of `url` and `name`: as its own library or
/// as one of its dependencies.
pub open spec fn entry_names_library(
    entry: PlatformModel,
    url: Seq<char>,
    name: Option<Seq<char>>,
) -> bool {
    ||| entry.url == url && entry.name == name
    ||| entry.dependencies.contains(DependencyModel::RawLib { url, name })
}

/// A file without platforms names nothing. One more platform, whatever it is called,
/// names one thing more for its library and one for each of its dependencies: the
/// library first, whether it has a name or not, then the dependencies in their order.
pub proof fn platforms_name_all_of_theirs(
    file: Seq<(Seq<char>, PlatformModel)>,
    platform: Seq<char>,
    entry: PlatformModel,
)
    ensures
        file_tasks(Seq::empty()).len() == 0,
        ({
            let before = file_tasks(file);
            let after = file_tasks(file.push((platform, entry)));
            &&& after.len() == before.len() + 1 + entry.dependencies.len()
            &&& forall|i: int| 0 <= i < before.len() ==> #[trigger] after[i] == before[i]
            &&& after[before.len() as int] == TaskModel::Library(entry.url, entry.name)
            &&& forall|d: int|
                0 <= d < entry.dependencies.len() ==> looks_for(
                    after[before.len() + 1 + d],
                    #[trigger] entry.dependencies[d],
                )
        }),
{
    let more = file.push((platform, entry));
    assert(more.drop_last() =~= file);
    assert(more.last().1 == entry);
}

/// What one platform names.
proof fn lemma_platform_names(entry: PlatformModel, task: TaskModel)
    ensures
        platform_tasks(entry).contains(task) <==> match task {
            TaskModel::Library(url, name) => entry_names_library(entry, url, name),
            TaskModel::Pack(url) => entry.dependencies.contains(DependencyModel::DllPack { url }),
        },
{
    let all = platform_tasks(entry);
    if all.contains(task) {
        let i = choose|i: int| 0 <= i < all.len() && all[i] == task;
        if i > 0 {
            assert(looks_for(all[i], entry.dependencies[i - 1]));
            assert(entry.dependencies.contains(entry.dependencies[i - 1]));
        }
    }
    match task {
        TaskModel::Library(url, name) => {
            if entry.url == url && entry.name == name {
                assert(all[0] == task);
            }
            let d = DependencyModel::RawLib { url, name };
            if entry.dependencies.contains(d) {
                let i = choose|i: int| 0 <= i < entry.dependencies.len() && entry.dependencies[i] == d;
                assert(all[i + 1] == task);
            }
        },
        TaskModel::Pack(url) => {
            let d = DependencyModel::DllPack { url };
            if entry.dependencies.contains(d) {
                let i = choose|i: int| 0 <= i < entry.dependencies.len() && entry.dependencies[i] == d;
                assert(all[i + 1] == task);
            }
        },
    }
}

/// What is in two sequences, one behind the other.
proof fn lemma_either(a: Seq<TaskModel>, b: Seq<TaskModel>, task: TaskModel)
    ensures
        (a + b).contains(task) <==> a.contains(task) || b.contains(task),
{
    let both = a + b;
    if a.contains(task) {
        let i = choose|i: int| 0 <= i < a.len() && a[i] == task;
        assert(both[i] == task);
    }
    if b.contains(task) {
        let i = choose|i: int| 0 <= i < b.len() && b[i] == task;
        assert(both[a.len() + i] == task);
    }
    if both.contains(task) {
        let i = choose|i: int| 0 <= i < both.len() && both[i] == task;
        if i < a.len() {
            assert(a[i] == task);
        } else {
            assert(b[i - a.len()] == task);
        }
    }
}

/// A file names a task exactly where one of its platforms does.
proof fn lemma_file_names(file: Seq<(Seq<char>, PlatformModel)>, task: TaskModel)
    ensures
        file_tasks(file).contains(task) <==> exists|i: int|
            0 <= i < file.len() && platform_tasks((#[trigger] file[i]).1).contains(task),
    decreases file.len(),
{
    if file.len() > 0 {
        let rest = file.drop_last();
        let last = file[file.len() - 1];
        lemma_file_names(rest, task);
        lemma_either(file_tasks(rest), platform_tasks(last.1), task);
        if file_tasks(rest).contains(task) {
            let i = choose|i: int|
                0 <= i < rest.len() && platform_tasks((#[trigger] rest[i]).1).contains(task);
            assert(file[i] == rest[i]);
        }
        if exists|i: int| 0 <= i < file.len() && platform_tasks((#[trigger] file[i]).1).contains(task) {
            let i = choose|i: int|
                0 <= i < file.len() && platform_tasks((#[trigger] file[i]).1).contains(task);
            if i < rest.len() {
                assert(rest[i] == file[i]);
            }
        }
    }
}

/// A file names a library file exactly where one of its platforms lists it, as its own
/// library or as a dependency, with this URL and with this name or without any.
pub proof fn file_names_its_libraries(
    file: Seq<(Seq<char>, PlatformModel)>,
    url: Seq<char>,
    name: Option<Seq<char>>,
)
    ensures
        file_tasks(file).contains(TaskModel::Library(url, name)) <==> exists|i: int|
            0 <= i < file.len() && entry_names_library((#[trigger] file[i]).1, url, name),
{
    let task = TaskModel::Library(url, name);
    lemma_file_names(file, task);
    assert forall|i: int| 0 <= i < file.len() implies (platform_tasks((#[trigger] file[i]).1).contains(
        task,
    ) <==> entry_names_library(file[i].1, url, name)) by {
        lemma_platform_names(file[i].1, task);
    }
}

/// A file names a pack exactly where one of its platforms lists it as a dependency.
pub proof fn file_names_its_packs(file: Seq<(Seq<char>, PlatformModel)>, url: Seq<char>)
    ensures
        file_tasks(file).contains(TaskModel::Pack(url)) <==> exists|i: int|
            0 <= i < file.len() && (#[trigger] file[i]).1.dependencies.contains(
                DependencyModel::DllPack { url },
            ),
{
    let task = TaskModel::Pack(url);
    lemma_file_names(file, task);
    assert forall|i: int| 0 <= i < file.len() implies (platform_tasks((#[trigger] file[i]).1).contains(
        task,
    ) <==> file[i].1.dependencies.contains(DependencyModel::DllPack { url })) by {
        lemma_platform_names(file[i].1, task);
    }
}

/// Whether a file lists a pack as a dependency, for any platform.
pub open spec fn file_lists_pack(file: Seq<(Seq<char>, PlatformModel)>, url: Seq<char>) -> bool {
    exists|i: int|
        0 <= i < file.len() && (#[trigger] file[i]).1.dependencies.contains(
            DependencyModel::DllPack { url },
        )
}

/// Whether a file lists a library file, for any platform.
pub open spec fn file_lists_library(
    file: Seq<(Seq<char>, PlatformModel)>,
    url: Seq<char>,
    name: Option<Seq<char>>,
) -> bool {
    exists|i: int| 0 <= i < file.len() && entry_names_library((#[trigger] file[i]).1, url, name)
}

/// Whether the manifest `a` is in the cache and lists, by `url`, the manifest `b` that
/// is there too.
pub open spec fn keeps_pack<E>(
    w: CacheWorld<E>,
    a: InfoModel,
    url: Seq<char>,
    b: InfoModel,
) -> bool {
    &&& (w.read)(a) matches CachedReplyModel::Found(file) && file_lists_pack(file, url)
    &&& (w.locate)(url) == Ok::<InfoModel, E>(b)
    &&& (w.read)(b) is Found
}

/// Whether the manifest `a` is in the cache and lists, by `url` and `name`, the library
/// file `f` that is there too.
pub open spec fn keeps_library<E>(
    w: CacheWorld<E>,
    a: InfoModel,
    url: Seq<char>,
    name: Option<Seq<char>>,
    f: FoundModel,
) -> bool {
    &&& (w.read)(a) matches CachedReplyModel::Found(file) && file_lists_library(file, url, name)
    &&& (w.library)(url, name) matches Ok(library) && library.url == f.url && library.path == Some(
        f.path,
    )
}

/// Whether each manifest of `way` lists the next one, by the URL at its place in `urls`.
pub open spec fn is_way<E>(w: CacheWorld<E>, way: Seq<InfoModel>, urls: Seq<Seq<char>>) -> bool {
    &&& way.len() == urls.len() + 1
    &&& forall|i: int| 0 <= i < urls.len() ==> keeps_pack(w, way[i], #[trigger] urls[i], way[i + 1])
}

/// Whether the manifest `info` is `base`, or listed by it over manifests in the cache.
pub open spec fn kept_from<E>(w: CacheWorld<E>, base: InfoModel, info: InfoModel) -> bool {
    &&& (w.read)(base) is Found
    &&& exists|way: Seq<InfoModel>, urls: Seq<Seq<char>>| #[trigger]
        is_way(w, way, urls) && way[0] == base && way.last() == info
}

/// What a manifest names is what it lists.
proof fn lemma_names<E>(w: CacheWorld<E>, a: InfoModel, task: TaskModel)
    ensures
        names(w, a, task) <==> ((w.read)(a) matches CachedReplyModel::Found(file) && match task {
            TaskModel::Library(url, name) => file_lists_library(file, url, name),
            TaskModel::Pack(url) => file_lists_pack(file, url),
        }),
{
    match (w.read)(a) {
        CachedReplyModel::Found(file) => match task {
            TaskModel::Library(url, name) => file_names_its_libraries(file, url, name),
            TaskModel::Pack(url) => file_names_its_packs(file, url),
        },
        _ => {},
    }
}

/// A trail is a way.
proof fn lemma_way<E>(w: CacheWorld<E>, way: Seq<InfoModel>, urls: Seq<Seq<char>>)
    ensures
        is_way(w, way, urls) <==> is_trail(w, way, urls),
{
    assert forall|i: int| 0 <= i < urls.len() implies (keeps_pack(
        w,
        way[i],
        #[trigger] urls[i],
        way[i + 1],
    ) <==> leads(w, way[i], urls[i], way[i + 1])) by {
        lemma_names(w, way[i], TaskModel::Pack(urls[i]));
    }
}

/// What manifests lead to is what they list.
proof fn lemma_kept<E>(w: CacheWorld<E>, base: InfoModel, info: InfoModel)
    ensures
        kept_from(w, base, info) <==> cached_from(w, base, info),
{
    if kept_from(w, base, info) {
        let (way, urls) = choose|way: Seq<InfoModel>, urls: Seq<Seq<char>>| #[trigger]
            is_way(w, way, urls) && way[0] == base && way.last() == info;
        lemma_way(w, way, urls);
    }
    if cached_from(w, base, info) {
        let (way, urls) = choose|way: Seq<InfoModel>, urls: Seq<Seq<char>>| #[trigger]
            is_trail(w, way, urls) && way[0] == base && way.last() == info;
        lemma_way(w, way, urls);
    }
}

/// A search that has found something has found the main manifest first. It has found
/// each manifest in the cache that the main one lists, over any number of manifests
/// there, and of each of them every library file in the cache that it lists, for any
/// platform, by its own URL and name or as a dependency. It has found nothing else.
pub proof fn search_finds_what_is_listed<E>(w: CacheWorld<E>, url: Seq<char>, steps: nat)
    requires
        search_run(w, SearchModel::Base(url), steps) is Ok,
        search_run(w, SearchModel::Base(url), steps)->Ok_0.request() is Nothing,
        search_run(w, SearchModel::Base(url), steps)->Ok_0.result() is Some,
    ensures
        ({
            let found = search_run(w, SearchModel::Base(url), steps)->Ok_0.result()->0;
            let base = (w.locate)(url)->Ok_0;
            &&& (w.locate)(url) is Ok
            &&& found.len() > 0 && found[0] == (FoundModel { url: base.url, path: base.path })
            &&& forall|info: InfoModel| #[trigger]
                kept_from(w, base, info) && info != base ==> listed(w, info, found)
            &&& forall|a: InfoModel, u: Seq<char>, name: Option<Seq<char>>, f: FoundModel|
                kept_from(w, base, a) && #[trigger] keeps_library(w, a, u, name, f)
                    ==> found.contains(f)
            &&& forall|f: FoundModel| #[trigger]
                found.contains(f) ==> {
                    ||| f.url == base.url && f.path == base.path
                    ||| exists|a: InfoModel, b: InfoModel|
                        kept_from(w, base, a) && #[trigger] keeps_pack(w, a, f.url, b) && f.path
                            == b.path
                    ||| exists|a: InfoModel, u: Seq<char>, name: Option<Seq<char>>|
                        kept_from(w, base, a) && #[trigger] keeps_library(w, a, u, name, f)
                }
        }),
{
    search_finds_all_cached(w, url, steps);
    let found = search_run(w, SearchModel::Base(url), steps)->Ok_0.result()->0;
    let base = (w.locate)(url)->Ok_0;
    assert forall|info: InfoModel| #[trigger] kept_from(w, base, info) && info != base implies listed(
        w,
        info,
        found,
    ) by {
        lemma_kept(w, base, info);
    }
    assert forall|a: InfoModel, u: Seq<char>, name: Option<Seq<char>>, f: FoundModel|
        kept_from(w, base, a) && #[trigger] keeps_library(w, a, u, name, f) implies found.contains(
        f,
    ) by {
        lemma_kept(w, base, a);
        lemma_names(w, a, TaskModel::Library(u, name));
        assert(is_library(w, a, u, name, f));
    }
    assert forall|f: FoundModel| #[trigger] found.contains(f) implies ({
        ||| f.url == base.url && f.path == base.path
        ||| exists|a: InfoModel, b: InfoModel|
            kept_from(w, base, a) && #[trigger] keeps_pack(w, a, f.url, b) && f.path == b.path
        ||| exists|a: InfoModel, u: Seq<char>, name: Option<Seq<char>>|
            kept_from(w, base, a) && #[trigger] keeps_library(w, a, u, name, f)
    }) by {
        assert(justified(w, base, f));
        if exists|a: InfoModel, b: InfoModel|
            cached_from(w, base, a) && #[trigger] leads(w, a, f.url, b) && f.path == b.path {
            let (a, b) = choose|a: InfoModel, b: InfoModel|
                cached_from(w, base, a) && #[trigger] leads(w, a, f.url, b) && f.path == b.path;
            lemma_kept(w, base, a);
            lemma_names(w, a, TaskModel::Pack(f.url));
            assert(keeps_pack(w, a, f.url, b));
        } else if exists|a: InfoModel, u: Seq<char>, name: Option<Seq<char>>|
            cached_from(w, base, a) && #[trigger] is_library(w, a, u, name, f) {
            let (a, u, name) = choose|a: InfoModel, u: Seq<char>, name: Option<Seq<char>>|
                cached_from(w, base, a) && #[trigger] is_library(w, a, u, name, f);
            lemma_kept(w, base, a);
            lemma_names(w, a, TaskModel::Library(u, name));
            assert(keeps_library(w, a, u, name, f));
        }
    }
}

/// A search fails because the main manifest cannot be located or makes no sense, or
/// because a manifest in the cache lists, for any platform, a pack or a library file
/// that cannot be located, or a pack whose manifest makes no sense.
pub proof fn search_fails_on_what_is_listed<E>(
    w: CacheWorld<E>,
    url: Seq<char>,
    steps: nat,
    f: SearchFailure<E>,
) -> (culprit: (InfoModel, TaskModel))
    requires
        search_run(w, SearchModel::Base(url), steps) == Err::<SearchModel, SearchFailure<E>>(f),
    ensures
        match (w.locate)(url) {
            Err(e) => f == SearchFailure::Outside(e),
            Ok(base) => match (w.read)(base) {
                CachedReplyModel::Unparsable(e) => f == SearchFailure::MainUnparsable(e),
                CachedReplyModel::Absent => false,
                CachedReplyModel::Found(_) => {
                    &&& kept_from(w, base, culprit.0)
                    &&& (w.read)(culprit.0) matches CachedReplyModel::Found(file) && match culprit.1 {
                        TaskModel::Library(u, name) => file_lists_library(file, u, name) && ((
                        w.library)(u, name) matches Err(e) && f == SearchFailure::Outside(e)),
                        TaskModel::Pack(u) => file_lists_pack(file, u) && match (w.locate)(u) {
                            Err(e) => f == SearchFailure::Outside(e),
                            Ok(b) => (w.read)(b) matches CachedReplyModel::Unparsable(e) && f
                                == SearchFailure::DependentUnparsable(e),
                        },
                    }
                },
            },
        },
{
    search_fails_for_a_reason(w, url, steps, f);
    let base = (w.locate)(url)->Ok_0;
    let (a, t) = choose|a: InfoModel, t: TaskModel|
        cached_from(w, base, a) && #[trigger] names(w, a, t) && task_fails(w, t, f);
    lemma_kept(w, base, a);
    lemma_names(w, a, t);
    (a, t)
}

} // verus!
