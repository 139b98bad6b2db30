//! What a download promises, said of the manifests as they are listed: what it fetches,
//! in what order, and why it fails.
use vstd::prelude::*;

use crate::download::{
    library_to_fetch, raw_among, raw_libraries, DownloadModel, RawModel,
};
use crate::download_laws::{
    download_ends, download_fetches_all, download_log, download_of, download_run, fetch_libraries,
    fetch_raw, files_fetched, lemma_download_joined, libraries_fetched, manifests_of, names_library,
    DownloadWorld, FetchModel,
};
use crate::failure::FailureModel;
use crate::graph::{GraphModel, NodeModel};
use crate::manifest::{DependencyModel, DllModel, InfoModel, PlatformModel};
use crate::outcome_laws::{
    blames, gives, is_circle_of, lemma_blames, lemma_bound, lemma_libraries_given, lemma_needed,
    lemma_resolution_fails, lemma_says, needed, needs, says,
};
use crate::reach_laws::{
    as_read, graph_of_reachable, walk_ends, walk_fails_as_a_manifest_does,
    walk_reads_the_reachable,
};
use crate::resolve::ResolutionModel;
use crate::resolve_laws::resolution_of;
use crate::walk::ReplyModel;
use crate::walk_laws::{visit, Outcome, World};

verus! {

/// The world in which a manifest says what it says when it is fetched.
pub open spec fn server<E>(w: DownloadWorld<E>) -> World<E> {
    World {
        locate: w.cache.locate,
        read: |info: InfoModel|
            match (w.fetch)(info) {
                Ok(file) => ReplyModel::Found(file),
                Err(e) => ReplyModel::Unreadable(e),
            },
        library: w.cache.library,
    }
}

/// Whether a download has come to its end.
pub open spec fn download_over<E>(r: Result<DownloadModel, FailureModel<E>>) -> bool {
    match r {
        Ok(m) => m.stage is Over,
        Err(_) => true,
    }
}

/// Whether `dll` is a library file that the manifest `info`, as it was fetched, lists
/// for the platform as a dependency on its own.
pub open spec fn gives_raw<E>(
    w: DownloadWorld<E>,
    platform: Seq<char>,
    info: InfoModel,
    url: Seq<char>,
    name: Option<Seq<char>>,
    dll: DllModel,
) -> bool {
    &&& exists|entry: PlatformModel| #[trigger]
        says(server(w), platform, info, entry) && entry.dependencies.contains(
            DependencyModel::RawLib { url, name },
        )
    &&& (w.cache.library)(url, name) == Ok::<DllModel, E>(dll)
}

/// Whether a library file cannot be fetched, which is the failure `e`.
pub open spec fn not_fetched<E>(w: DownloadWorld<E>, dll: DllModel, e: E) -> bool {
    (w.fetch_library)(dll) == Err::<(), E>(e)
}

/// Whether the manifest `info`, as it was fetched, lists for the platform a library file
/// on its own that cannot be located, which is the failure `e`.
pub open spec fn lists_lost_library<E>(
    w: DownloadWorld<E>,
    platform: Seq<char>,
    info: InfoModel,
    url: Seq<char>,
    name: Option<Seq<char>>,
    e: E,
) -> bool {
    &&& exists|entry: PlatformModel| #[trigger]
        says(server(w), platform, info, entry) && entry.dependencies.contains(
            DependencyModel::RawLib { url, name },
        )
    &&& (w.cache.library)(url, name) == Err::<DllModel, E>(e)
}

/// The dependency that is the library file of `url` and `name`, on its own.
pub open spec fn raw_library(url: Seq<char>, name: Option<Seq<char>>) -> DependencyModel {
    DependencyModel::RawLib { url, name }
}

/// A dependency that is a library file on its own is one more of them; a pack is none.
pub proof fn raw_libraries_are_kept(dependencies: Seq<DependencyModel>, dependency: DependencyModel)
    ensures
        raw_among(Seq::empty()) == Seq::<RawModel>::empty(),
        raw_among(dependencies.push(dependency)) == match dependency {
            DependencyModel::RawLib { url, name } => raw_among(dependencies).push(
                RawModel { url, name },
            ),
            DependencyModel::DllPack { url } => raw_among(dependencies),
        },
{
    assert(dependencies.push(dependency).drop_last() =~= dependencies);
}

/// The library files of one more manifest follow on those of the others.
pub proof fn raw_libraries_of_all_manifests(nodes: Seq<NodeModel>, node: NodeModel)
    ensures
        raw_libraries(Seq::empty()) == Seq::<RawModel>::empty(),
        raw_libraries(nodes.push(node)) == raw_libraries(nodes) + raw_among(
            node.manifest.dependencies,
        ),
{
    assert(nodes.push(node).drop_last() =~= nodes);
}

/// Reading from the server is fetching.
proof fn lemma_server<E>(w: DownloadWorld<E>)
    ensures
        w.fetched() == server(w),
{
    assert(w.fetched().read =~= server(w).read);
}

/// A download that is over fetches nothing more.
proof fn lemma_download_stays<E>(w: DownloadWorld<E>, m: DownloadModel, steps: nat)
    requires
        m.stage is Over,
    ensures
        download_run(w, Ok::<DownloadModel, FailureModel<E>>(m), steps) == Ok::<
            DownloadModel,
            FailureModel<E>,
        >(m),
        download_log(w, Ok::<DownloadModel, FailureModel<E>>(m), steps) == Seq::<FetchModel>::empty(),
    decreases steps,
{
    if steps > 0 {
        lemma_download_stays(w, m, (steps - 1) as nat);
        assert(Seq::<FetchModel>::empty() + Seq::<FetchModel>::empty() =~= Seq::<FetchModel>::empty());
    }
}

/// A failure stays and fetches nothing.
proof fn lemma_download_failed<E>(w: DownloadWorld<E>, failure: FailureModel<E>, steps: nat)
    ensures
        download_run(w, Err::<DownloadModel, FailureModel<E>>(failure), steps) == Err::<
            DownloadModel,
            FailureModel<E>,
        >(failure),
        download_log(w, Err::<DownloadModel, FailureModel<E>>(failure), steps) == Seq::<
            FetchModel,
        >::empty(),
{
}

/// Two runs of the same download that are over came to the same and fetched the same.
proof fn lemma_download_unique<E>(
    w: DownloadWorld<E>,
    m: Result<DownloadModel, FailureModel<E>>,
    a: nat,
    b: nat,
)
    requires
        download_over(download_run(w, m, a)),
        download_over(download_run(w, m, b)),
        a <= b,
    ensures
        download_run(w, m, a) == download_run(w, m, b),
        download_log(w, m, a) == download_log(w, m, b),
{
    let more = (b - a) as nat;
    lemma_download_joined(w, m, a, more);
    assert(a + more == b);
    match download_run(w, m, a) {
        Ok(end) => {
            lemma_download_stays(w, end, more);
        },
        Err(failure) => {
            lemma_download_failed(w, failure, more);
        },
    }
    assert(download_log(w, m, a) + Seq::<FetchModel>::empty() =~= download_log(w, m, a));
}

/// A run of a download that is over came to what the download comes to.
proof fn lemma_download_of_run<E>(
    w: DownloadWorld<E>,
    url: Seq<char>,
    platform: Seq<char>,
    base: InfoModel,
    all: Set<InfoModel>,
    steps: nat,
)
    requires
        (w.cache.locate)(url) == Ok::<InfoModel, E>(base),
        all.finite(),
        forall|to: InfoModel| #[trigger] needed(server(w), platform, base, to) ==> all.contains(to),
        forall|to: InfoModel| #[trigger] needed(w.cache, platform, base, to) ==> all.contains(to),
        download_over(
            download_run(
                w,
                Ok::<DownloadModel, FailureModel<E>>(DownloadModel::start(url, platform)),
                steps,
            ),
        ),
    ensures
        ({
            let start = Ok::<DownloadModel, FailureModel<E>>(DownloadModel::start(url, platform));
            let log = download_log(w, start, steps);
            match download_of(w, url, platform, all.len()) {
                Outcome::Done(downloaded) => {
                    &&& download_run(w, start, steps) is Ok
                    &&& log == manifests_of(downloaded.manifests.nodes) + libraries_fetched(
                        downloaded.libraries,
                    ) + files_fetched(downloaded.raw)
                },
                Outcome::Failed(failure) => download_run(w, start, steps) == Err::<
                    DownloadModel,
                    FailureModel<E>,
                >(failure),
                Outcome::Endless => false,
            }
        }),
{
    let start = Ok::<DownloadModel, FailureModel<E>>(DownloadModel::start(url, platform));
    lemma_server(w);
    lemma_bound(server(w), platform, base, all);
    lemma_bound(w.cache, platform, base, all);
    download_ends(w, url, platform, all);
    let other = download_fetches_all(w, url, platform, all.len());
    if steps <= other {
        lemma_download_unique(w, start, steps, other);
    } else {
        lemma_download_unique(w, start, other, steps);
    }
}

/// A download comes to an end wherever finitely many manifests are needed, as they are
/// fetched and as they are in the cache.
pub proof fn download_comes_to_an_end<E>(
    w: DownloadWorld<E>,
    url: Seq<char>,
    platform: Seq<char>,
    base: InfoModel,
    all: Set<InfoModel>,
) -> (steps: nat)
    requires
        (w.cache.locate)(url) == Ok::<InfoModel, E>(base),
        all.finite(),
        forall|to: InfoModel| #[trigger] needed(server(w), platform, base, to) ==> all.contains(to),
        forall|to: InfoModel| #[trigger] needed(w.cache, platform, base, to) ==> all.contains(to),
    ensures
        download_over(
            download_run(
                w,
                Ok::<DownloadModel, FailureModel<E>>(DownloadModel::start(url, platform)),
                steps,
            ),
        ),
{
    lemma_server(w);
    lemma_bound(server(w), platform, base, all);
    lemma_bound(w.cache, platform, base, all);
    download_ends(w, url, platform, all);
    download_fetches_all(w, url, platform, all.len())
}

/// A download whose base manifest cannot be located fails with that and fetches nothing.
pub proof fn download_fails_without_a_place<E>(
    w: DownloadWorld<E>,
    url: Seq<char>,
    platform: Seq<char>,
    e: E,
    steps: nat,
)
    requires
        (w.cache.locate)(url) == Err::<InfoModel, E>(e),
        steps > 0,
    ensures
        ({
            let start = Ok::<DownloadModel, FailureModel<E>>(DownloadModel::start(url, platform));
            &&& download_run(w, start, steps) == Err::<DownloadModel, FailureModel<E>>(
                FailureModel::Outside(e),
            )
            &&& download_log(w, start, steps) == Seq::<FetchModel>::empty()
        }),
{
    lemma_download_failed(w, FailureModel::Outside(e), (steps - 1) as nat);
    assert(Seq::<FetchModel>::empty() + Seq::<FetchModel>::empty() =~= Seq::<FetchModel>::empty());
}

/// A library file that cannot be fetched makes the fetching of them fail.
proof fn lemma_fetch_libraries<E>(
    w: DownloadWorld<E>,
    resolution: ResolutionModel,
    from: nat,
)
    ensures
        match fetch_libraries(w, resolution, from) {
            Ok(_) => forall|i: int|
                from <= i <= resolution.dependencies.len() ==> (w.fetch_library)(
                    #[trigger] library_to_fetch(resolution, i as nat),
                ) is Ok,
            Err(e) => exists|dll: DllModel| not_fetched(w, dll, e),
        },
    decreases resolution.dependencies.len() + 1 - from,
{
    if from <= resolution.dependencies.len() {
        let dll = library_to_fetch(resolution, from);
        match (w.fetch_library)(dll) {
            Err(e) => {
                assert(not_fetched(w, dll, e));
            },
            Ok(_) => {
                lemma_fetch_libraries(w, resolution, from + 1);
                assert forall|i: int|
                    from <= i <= resolution.dependencies.len() && fetch_libraries(
                        w,
                        resolution,
                        from,
                    ) is Ok implies (w.fetch_library)(
                    #[trigger] library_to_fetch(resolution, i as nat),
                ) is Ok by {
                    if i == from {
                        assert(i as nat == from);
                    }
                }
            },
        }
    }
}

/// What the library files of `raw` come to.
proof fn lemma_fetch_raw<E>(w: DownloadWorld<E>, raw: Seq<RawModel>, done: nat)
    requires
        done <= raw.len(),
    ensures
        match fetch_raw(w, raw, done) {
            Ok(dlls) => {
                &&& dlls.len() == raw.len() - done
                &&& forall|i: int|
                    0 <= i < dlls.len() ==> (w.cache.library)(raw[done + i].url, raw[done + i].name)
                        == Ok::<DllModel, E>(#[trigger] dlls[i]) && (w.fetch_library)(dlls[i]) is Ok
            },
            Err(e) => {
                ||| exists|dll: DllModel| not_fetched(w, dll, e)
                ||| exists|i: int|
                    0 <= i < raw.len() && (w.cache.library)(
                        (#[trigger] raw[i]).url,
                        raw[i].name,
                    ) == Err::<DllModel, E>(e)
            },
        },
    decreases raw.len() - done,
{
    if done < raw.len() {
        let first = raw[done as int];
        match (w.cache.library)(first.url, first.name) {
            Err(e) => {
                assert((w.cache.library)(raw[done as int].url, raw[done as int].name) == Err::<
                    DllModel,
                    E,
                >(e));
            },
            Ok(dll) => match (w.fetch_library)(dll) {
                Err(e) => {
                    assert(not_fetched(w, dll, e));
                },
                Ok(_) => {
                    lemma_fetch_raw(w, raw, done + 1);
                    match fetch_raw(w, raw, done + 1) {
                        Err(_) => {},
                        Ok(more) => {
                            let dlls = fetch_raw(w, raw, done)->Ok_0;
                            assert forall|i: int| 0 <= i < dlls.len() implies (w.cache.library)(
                                raw[done + i].url,
                                raw[done + i].name,
                            ) == Ok::<DllModel, E>(#[trigger] dlls[i]) && (w.fetch_library)(
                                dlls[i],
                            ) is Ok by {
                                if i > 0 {
                                    assert(dlls[i] == more[i - 1]);
                                    assert(raw[(done + 1) + (i - 1)] == raw[done + i]);
                                }
                            }
                        },
                    }
                },
            },
        }
    }
}

/// What is among the library files of dependencies is one of the dependencies.
proof fn lemma_raw_among_back(dependencies: Seq<DependencyModel>, raw: RawModel)
    requires
        raw_among(dependencies).contains(raw),
    ensures
        dependencies.contains(DependencyModel::RawLib { url: raw.url, name: raw.name }),
    decreases dependencies.len(),
{
    let all = raw_among(dependencies);
    if dependencies.len() > 0 {
        let front = dependencies.drop_last();
        let last = dependencies[dependencies.len() - 1];
        let k = choose|k: int| 0 <= k < all.len() && all[k] == raw;
        let before = raw_among(front);
        if k < before.len() {
            assert(before[k] == raw);
            lemma_raw_among_back(front, raw);
            let d = DependencyModel::RawLib { url: raw.url, name: raw.name };
            let i = choose|i: int| 0 <= i < front.len() && front[i] == d;
            assert(dependencies[i] == d);
        } else {
            assert(dependencies.contains(last));
        }
    }
}

/// What is among the library files of manifests is named by one of them.
proof fn lemma_raw_libraries_back(nodes: Seq<NodeModel>, raw: RawModel) -> (n: int)
    requires
        raw_libraries(nodes).contains(raw),
    ensures
        0 <= n < nodes.len(),
        nodes[n].manifest.dependencies.contains(
            DependencyModel::RawLib { url: raw.url, name: raw.name },
        ),
    decreases nodes.len(),
{
    let all = raw_libraries(nodes);
    if nodes.len() == 0 {
        0
    } else {
        let front = nodes.drop_last();
        let before = raw_libraries(front);
        let last = raw_among(nodes[nodes.len() - 1].manifest.dependencies);
        let k = choose|k: int| 0 <= k < all.len() && all[k] == raw;
        if k < before.len() {
            assert(before[k] == raw);
            lemma_raw_libraries_back(front, raw)
        } else {
            assert(last[k - before.len()] == raw);
            lemma_raw_among_back(nodes[nodes.len() - 1].manifest.dependencies, raw);
            nodes.len() - 1
        }
    }
}

/// The manifests that were fetched: those that are needed, each once.
proof fn lemma_manifests_fetched<E>(
    w: World<E>,
    platform: Seq<char>,
    base: InfoModel,
    g: GraphModel,
) -> (manifests: Seq<InfoModel>)
    requires
        graph_of_reachable(w, platform, base, g),
    ensures
        manifests.len() == g.nodes.len(),
        forall|i: int|
            0 <= i < manifests.len() ==> #[trigger] manifests_of(g.nodes)[i] == FetchModel::Manifest(
                manifests[i],
            ),
        manifests.no_duplicates(),
        forall|info: InfoModel| #[trigger]
            manifests.contains(info) <==> needed(w, platform, base, info),
{
    let manifests = g.nodes.map_values(|n: NodeModel| n.info);
    assert forall|i: int, j: int|
        0 <= i < manifests.len() && 0 <= j < manifests.len() && i != j implies manifests[i]
        != manifests[j] by {
        if i < j {
            assert(g.nodes[i].info != g.nodes[j].info);
        } else {
            assert(g.nodes[j].info != g.nodes[i].info);
        }
    }
    assert forall|info: InfoModel| #[trigger]
        manifests.contains(info) <==> needed(w, platform, base, info) by {
        lemma_needed(w, platform, base, info);
        if manifests.contains(info) {
            let i = choose|i: int| 0 <= i < manifests.len() && manifests[i] == info;
            assert(g.nodes[i].info == info);
        }
        if needed(w, platform, base, info) {
            let n = choose|n: int| 0 <= n < g.nodes.len() && (#[trigger] g.nodes[n]).info == info;
            assert(manifests[n] == info);
        }
    }
    manifests
}

/// Which library files were fetched for being named on their own.
proof fn lemma_raw_given<E>(
    w: DownloadWorld<E>,
    platform: Seq<char>,
    base: InfoModel,
    g: GraphModel,
    dlls: Seq<DllModel>,
)
    requires
        graph_of_reachable(server(w), platform, base, g),
        fetch_raw(w, raw_libraries(g.nodes), 0) == Ok::<Seq<DllModel>, E>(dlls),
    ensures
        forall|i: int|
            0 <= i < dlls.len() ==> (w.fetch_library)(#[trigger] dlls[i]) is Ok && exists|
                info: InfoModel,
                u: Seq<char>,
                name: Option<Seq<char>>,
            |
                needed(server(w), platform, base, info) && #[trigger] gives_raw(
                    w,
                    platform,
                    info,
                    u,
                    name,
                    dlls[i],
                ),
{
    let raw = raw_libraries(g.nodes);
    lemma_fetch_raw(w, raw, 0);
    assert forall|i: int| 0 <= i < dlls.len() implies (w.fetch_library)(#[trigger] dlls[i]) is Ok
        && exists|info: InfoModel, u: Seq<char>, name: Option<Seq<char>>|
        needed(server(w), platform, base, info) && #[trigger] gives_raw(
            w,
            platform,
            info,
            u,
            name,
            dlls[i],
        ) by {
        assert(raw[0 + i] == raw[i]);
        assert(raw.contains(raw[i]));
        let n = lemma_raw_libraries_back(g.nodes, raw[i]);
        let info = g.nodes[n].info;
        assert(as_read(server(w), platform, g.nodes[n]));
        lemma_says(server(w), platform, info, g.nodes[n].manifest);
        lemma_needed(server(w), platform, base, info);
        assert(gives_raw(w, platform, info, raw[i].url, raw[i].name, dlls[i]));
    }
}

/// What a download that succeeds has fetched, in that order: first each manifest that is
/// needed, as the manifests are fetched, once; then the library file of each manifest
/// that is needed, as the manifests are in the cache, each behind those that it needs
/// and that of the base manifest last; then every library file that a manifest lists on
/// its own. Nothing else was fetched, and each library file could be.
pub proof fn download_brings_what_is_listed<E>(
    w: DownloadWorld<E>,
    url: Seq<char>,
    platform: Seq<char>,
    base: InfoModel,
    all: Set<InfoModel>,
    steps: nat,
) -> (listing: (Seq<InfoModel>, Seq<InfoModel>))
    requires
        (w.cache.locate)(url) == Ok::<InfoModel, E>(base),
        all.finite(),
        all.len() <= usize::MAX,
        forall|to: InfoModel| #[trigger] needed(server(w), platform, base, to) ==> all.contains(to),
        forall|to: InfoModel| #[trigger] needed(w.cache, platform, base, to) ==> all.contains(to),
        download_run(
            w,
            Ok::<DownloadModel, FailureModel<E>>(DownloadModel::start(url, platform)),
            steps,
        ) matches Ok(end) && end.stage is Over,
    ensures
        ({
            let start = Ok::<DownloadModel, FailureModel<E>>(DownloadModel::start(url, platform));
            let log = download_log(w, start, steps);
            let (manifests, infos) = listing;
            let main = (manifests.len() + infos.len()) as int;
            &&& manifests.no_duplicates()
            &&& forall|info: InfoModel| #[trigger]
                manifests.contains(info) <==> needed(server(w), platform, base, info)
            &&& infos.no_duplicates()
            &&& forall|info: InfoModel| #[trigger]
                infos.contains(info) <==> (needed(w.cache, platform, base, info) && info.url != url)
            &&& forall|i: int, to: InfoModel|
                0 <= i < infos.len() && #[trigger] needs(w.cache, platform, infos[i], to) && to.url
                    != url ==> infos.take(i).contains(to)
            &&& log.len() > main
            &&& forall|i: int|
                0 <= i < log.len() ==> match #[trigger] log[i] {
                    FetchModel::Manifest(info) => i < manifests.len() && info == manifests[i],
                    FetchModel::Library(dll) => {
                        &&& i >= manifests.len()
                        &&& (w.fetch_library)(dll) is Ok
                        &&& i < main ==> gives(w.cache, platform, infos[i - manifests.len()], dll)
                        &&& i == main ==> gives(w.cache, platform, base, dll)
                        &&& i > main ==> exists|
                            info: InfoModel,
                            u: Seq<char>,
                            name: Option<Seq<char>>,
                        |
                            needed(server(w), platform, base, info) && #[trigger] gives_raw(
                                w,
                                platform,
                                info,
                                u,
                                name,
                                dll,
                            )
                    },
                }
            &&& forall|
                info: InfoModel,
                entry: PlatformModel,
                u: Seq<char>,
                name: Option<Seq<char>>,
            |
                needed(server(w), platform, base, info) && #[trigger] says(
                    server(w),
                    platform,
                    info,
                    entry,
                ) && entry.dependencies.contains(
                    #[trigger] raw_library(u, name),
                ) ==> ((w.cache.library)(u, name) matches Ok(dll) && log.contains(
                    FetchModel::Library(dll),
                ))
        }),
{
    let start = Ok::<DownloadModel, FailureModel<E>>(DownloadModel::start(url, platform));
    let log = download_log(w, start, steps);
    lemma_server(w);
    lemma_download_of_run(w, url, platform, base, all, steps);
    let downloaded = download_of(w, url, platform, all.len())->Done_0;
    let other = download_fetches_all(w, url, platform, all.len());
    if steps <= other {
        lemma_download_unique(w, start, steps, other);
    } else {
        lemma_download_unique(w, start, other, steps);
    }
    lemma_bound(server(w), platform, base, all);
    walk_ends(server(w), platform, base, all);
    let g = downloaded.manifests;
    let libraries = downloaded.libraries;
    let manifests = lemma_manifests_fetched(server(w), platform, base, g);
    let infos = lemma_libraries_given(w.cache, url, platform, base, all, libraries);
    lemma_fetch_libraries(w, libraries, 0);
    lemma_raw_given(w, platform, base, g, downloaded.raw);
    let main = (manifests.len() + infos.len()) as int;
    assert forall|i: int| 0 <= i < log.len() implies match #[trigger] log[i] {
        FetchModel::Manifest(info) => i < manifests.len() && info == manifests[i],
        FetchModel::Library(dll) => {
            &&& i >= manifests.len()
            &&& (w.fetch_library)(dll) is Ok
            &&& i < main ==> gives(w.cache, platform, infos[i - manifests.len()], dll)
            &&& i == main ==> gives(w.cache, platform, base, dll)
            &&& i > main ==> exists|info: InfoModel, u: Seq<char>, name: Option<Seq<char>>|
                needed(server(w), platform, base, info) && #[trigger] gives_raw(
                    w,
                    platform,
                    info,
                    u,
                    name,
                    dll,
                )
        },
    } by {
        if i < manifests.len() {
            assert(log[i] == manifests_of(g.nodes)[i]);
        } else if i <= main {
            let k = i - manifests.len();
            assert(log[i] == libraries_fetched(libraries)[k]);
            let dll = library_to_fetch(libraries, k as nat);
            assert(log[i] == FetchModel::Library(dll));
            assert((w.fetch_library)(dll) is Ok);
            if i < main {
                assert(gives(w.cache, platform, infos[k], libraries.dependencies[k]));
            }
        } else {
            let k = i - main - 1;
            assert(log[i] == files_fetched(downloaded.raw)[k]);
            assert(log[i] == FetchModel::Library(downloaded.raw[k]));
        }
    }
    assert forall|info: InfoModel, entry: PlatformModel, u: Seq<char>, name: Option<Seq<char>>|
        needed(server(w), platform, base, info) && #[trigger] says(
            server(w),
            platform,
            info,
            entry,
        ) && entry.dependencies.contains(#[trigger] raw_library(u, name)) implies ((w.cache.library)(
        u,
        name,
    ) matches Ok(dll) && log.contains(FetchModel::Library(dll))) by {
        lemma_needed(server(w), platform, base, info);
        lemma_says(server(w), platform, info, entry);
        assert(names_library(w.fetched(), platform, info, u, name));
    }
    (manifests, infos)
}

/// A download fails for a reason: a manifest that is needed, as it is fetched or as it
/// is in the cache, is to blame, manifests in the cache need each other in a circle, or
/// a library file cannot be located or fetched. So one whose needed manifests, fetched
/// and in the cache, all list the platform does not fail for want of it.
pub proof fn download_fails_for_a_reason<E>(
    w: DownloadWorld<E>,
    url: Seq<char>,
    platform: Seq<char>,
    base: InfoModel,
    all: Set<InfoModel>,
    steps: nat,
    failure: FailureModel<E>,
) -> (culprit: InfoModel)
    requires
        (w.cache.locate)(url) == Ok::<InfoModel, E>(base),
        all.finite(),
        all.len() <= usize::MAX,
        forall|to: InfoModel| #[trigger] needed(server(w), platform, base, to) ==> all.contains(to),
        forall|to: InfoModel| #[trigger] needed(w.cache, platform, base, to) ==> all.contains(to),
        download_run(
            w,
            Ok::<DownloadModel, FailureModel<E>>(DownloadModel::start(url, platform)),
            steps,
        ) == Err::<DownloadModel, FailureModel<E>>(failure),
    ensures
        ({
            ||| needed(server(w), platform, base, culprit) && blames(
                server(w),
                platform,
                culprit,
                failure,
            )
            ||| needed(w.cache, platform, base, culprit) && blames(
                w.cache,
                platform,
                culprit,
                failure,
            )
            ||| failure == FailureModel::<E>::Circular(platform) && exists|path: Seq<InfoModel>|
                is_circle_of(w.cache, platform, base, path)
            ||| exists|dll: DllModel, e: E| #[trigger]
                not_fetched(w, dll, e) && failure == FailureModel::Outside(e)
            ||| needed(server(w), platform, base, culprit) && exists|
                u: Seq<char>,
                name: Option<Seq<char>>,
                e: E,
            | #[trigger]
                lists_lost_library(w, platform, culprit, u, name, e) && failure
                    == FailureModel::Outside(e)
        }),
{
    lemma_server(w);
    lemma_download_of_run(w, url, platform, base, all, steps);
    lemma_bound(server(w), platform, base, all);
    walk_ends(server(w), platform, base, all);
    let depth = all.len();
    match visit(server(w), platform, base, GraphModel::empty(), depth) {
        Outcome::Done(g) => {
            walk_reads_the_reachable(server(w), platform, base, depth);
            match resolution_of(w.cache, url, platform, depth) {
                Outcome::Done(libraries) => {
                    lemma_fetch_libraries(w, libraries, 0);
                    let raw = raw_libraries(g.nodes);
                    lemma_fetch_raw(w, raw, 0);
                    if fetch_libraries(w, libraries, 0) is Ok {
                        let e = fetch_raw(w, raw, 0)->Err_0;
                        assert(failure == FailureModel::Outside(e));
                        if exists|dll: DllModel| not_fetched(w, dll, e) {
                            let dll = choose|dll: DllModel| not_fetched(w, dll, e);
                            assert(not_fetched(w, dll, e));
                            base
                        } else {
                            let i = choose|i: int|
                                0 <= i < raw.len() && (w.cache.library)(
                                    (#[trigger] raw[i]).url,
                                    raw[i].name,
                                ) == Err::<DllModel, E>(e);
                            assert(raw.contains(raw[i]));
                            let n = lemma_raw_libraries_back(g.nodes, raw[i]);
                            let info = g.nodes[n].info;
                            let entry = g.nodes[n].manifest;
                            assert(as_read(server(w), platform, g.nodes[n]));
                            lemma_says(server(w), platform, info, entry);
                            lemma_needed(server(w), platform, base, info);
                            assert(says(server(w), platform, info, entry));
                            assert(lists_lost_library(
                                w,
                                platform,
                                info,
                                raw[i].url,
                                raw[i].name,
                                e,
                            ));
                            info
                        }
                    } else {
                        let e = fetch_libraries(w, libraries, 0)->Err_0;
                        assert(failure == FailureModel::Outside(e));
                        let dll = choose|dll: DllModel| not_fetched(w, dll, e);
                        assert(not_fetched(w, dll, e));
                        base
                    }
                },
                _ => lemma_resolution_fails(w.cache, url, platform, base, all, failure),
            }
        },
        _ => {
            let culprit = walk_fails_as_a_manifest_does(server(w), platform, base, depth);
            lemma_blames(server(w), platform, culprit, failure);
            lemma_needed(server(w), platform, base, culprit);
            culprit
        },
    }
}

} // verus!
