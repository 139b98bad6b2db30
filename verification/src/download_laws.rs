//! What a download comes to, and what it fetches on the way.
use vstd::prelude::*;

use crate::download::{
    after_fetching, after_resolving, fetched_reply, library_to_fetch, raw_among, raw_libraries,
    raw_stage, DownloadModel, DownloadRequestModel, DownloadStageModel, RawModel,
};
use crate::failure::FailureModel;
use crate::graph::{place_of, GraphModel, NodeModel};
use crate::manifest::{platform_entry, DependencyModel, DllModel, InfoModel, PlatformModel};
use crate::reach_laws::{
    as_read, graph_of_reachable, lemma_visit_deps_extends, lemma_visit_extends, reachable, walk_ends,
    walk_reads_the_reachable,
};
use crate::resolve::{ResolutionModel, ResolveModel};
use crate::resolve_laws::{
    entry_of, lemma_resolve_failed, lemma_resolve_stays, resolution_of, resolve_comes_to_resolution,
    resolve_run, resolve_step,
};
use crate::walk::{advance, top_done, AskModel, FrameModel, WalkModel};
use crate::walk_laws::{
    lemma_walk_stays, visit, visit_deps, walk_reads_depth_first, walk_run, walk_step, Outcome,
    World,
};

verus! {

/// Surroundings of a download that answer the same request always alike.
#[verifier::reject_recursive_types(E)]
pub struct DownloadWorld<E> {
    /// The cache when the manifests were fetched.
    pub cache: World<E>,
    /// What fetching a manifest comes to.
    pub fetch: spec_fn(InfoModel) -> Result<Seq<(Seq<char>, PlatformModel)>, E>,
    /// What fetching a library file comes to.
    pub fetch_library: spec_fn(DllModel) -> Result<(), E>,
}

impl<E> DownloadWorld<E> {
    /// The world in which a manifest is read by fetching it.
    pub open spec fn fetched(self) -> World<E> {
        World {
            locate: self.cache.locate,
            read: |info: InfoModel| fetched_reply((self.fetch)(info)),
            library: self.cache.library,
        }
    }
}

/// Something that is fetched.
pub enum FetchModel {
    Manifest(InfoModel),
    Library(DllModel),
}

/// What a download fetches in its next step.
pub open spec fn fetches(m: DownloadModel) -> Seq<FetchModel> {
    match m.request() {
        DownloadRequestModel::FetchManifest(info) => seq![FetchModel::Manifest(info)],
        DownloadRequestModel::FetchLibrary(dll) => seq![FetchModel::Library(dll)],
        _ => Seq::empty(),
    }
}

/// One step of a download: what it needs is answered.
pub open spec fn download_step<E>(w: DownloadWorld<E>, m: DownloadModel) -> Result<
    DownloadModel,
    FailureModel<E>,
> {
    match m.request() {
        DownloadRequestModel::LocateManifest(url) => m.after_manifest((w.cache.locate)(url)),
        DownloadRequestModel::FetchManifest(info) => m.after_fetch((w.fetch)(info)),
        DownloadRequestModel::ReadManifest(info) => m.after_read((w.cache.read)(info)),
        DownloadRequestModel::LocateLibrary(url, name) => m.after_library(
            (w.cache.library)(url, name),
        ),
        DownloadRequestModel::FetchLibrary(dll) => m.after_library_fetch((w.fetch_library)(dll)),
        DownloadRequestModel::Nothing => Ok(m),
    }
}

/// `steps` steps of a download, from a state or a failure.
pub open spec fn download_run<E>(
    w: DownloadWorld<E>,
    m: Result<DownloadModel, FailureModel<E>>,
    steps: nat,
) -> Result<DownloadModel, FailureModel<E>>
    decreases steps,
{
    if steps == 0 {
        m
    } else {
        match m {
            Err(failure) => Err(failure),
            Ok(state) => download_run(w, download_step(w, state), (steps - 1) as nat),
        }
    }
}

/// What these steps fetch, in that order.
pub open spec fn download_log<E>(
    w: DownloadWorld<E>,
    m: Result<DownloadModel, FailureModel<E>>,
    steps: nat,
) -> Seq<FetchModel>
    decreases steps,
{
    if steps == 0 {
        Seq::empty()
    } else {
        match m {
            Err(failure) => Seq::empty(),
            Ok(state) => fetches(state) + download_log(w, download_step(w, state), (steps - 1) as nat),
        }
    }
}

/// Steps after steps are steps, and fetch one after the other.
pub proof fn lemma_download_joined<E>(
    w: DownloadWorld<E>,
    m: Result<DownloadModel, FailureModel<E>>,
    a: nat,
    b: nat,
)
    ensures
        download_run(w, m, a + b) == download_run(w, download_run(w, m, a), b),
        download_log(w, m, a + b) == download_log(w, m, a) + download_log(
            w,
            download_run(w, m, a),
            b,
        ),
    decreases a,
{
    if a > 0 {
        match m {
            Err(failure) => {
                assert(Seq::<FetchModel>::empty() + Seq::<FetchModel>::empty() =~= Seq::<FetchModel>::empty());
            },
            Ok(state) => {
                let next = download_step(w, state);
                lemma_download_joined(w, next, (a - 1) as nat, b);
                assert((a + b - 1) as nat == (a - 1) as nat + b);
                assert(fetches(state) + (download_log(w, next, (a - 1) as nat) + download_log(
                    w,
                    download_run(w, m, a),
                    b,
                )) =~= (fetches(state) + download_log(w, next, (a - 1) as nat)) + download_log(
                    w,
                    download_run(w, m, a),
                    b,
                ));
            },
        }
    } else {
        assert(Seq::<FetchModel>::empty() + download_log(w, m, b) =~= download_log(w, m, b));
    }
}

/// The manifests of `nodes`, as fetched.
pub open spec fn manifests_of(nodes: Seq<NodeModel>) -> Seq<FetchModel> {
    nodes.map_values(|n: NodeModel| FetchModel::Manifest(n.info))
}

/// The library files of a resolution, as fetched: the main one last.
pub open spec fn libraries_fetched(resolution: ResolutionModel) -> Seq<FetchModel> {
    resolution.dependencies.map_values(|d: DllModel| FetchModel::Library(d)).push(
        FetchModel::Library(resolution.main),
    )
}

/// Whether nothing but manifests was fetched.
pub open spec fn only_manifests(log: Seq<FetchModel>) -> bool {
    forall|i: int| 0 <= i < log.len() ==> #[trigger] log[i] is Manifest
}

/// Going on reads no manifest.
proof fn lemma_advance_nodes(platform: Seq<char>, graph: GraphModel, stack: Seq<FrameModel>)
    ensures
        advance(platform, graph, stack).graph.nodes == graph.nodes,
    decreases
            stack.len(),
            if stack.len() == 0 {
                0
            } else {
                stack.last().rest.len()
            },
{
    if stack.len() == 0 {
    } else if stack.last().rest.len() > 0 {
        match stack.last().rest[0] {
            DependencyModel::RawLib { url, name } => {
                lemma_advance_nodes(platform, graph, top_done(stack));
            },
            DependencyModel::DllPack { url } => {},
        }
    } else if stack.len() > 1 {
        let below = stack.drop_last();
        lemma_advance_nodes(
            platform,
            graph.link(below.last().node, stack.last().node),
            top_done(below),
        );
    }
}

/// A download goes through the walk step by step, and fetches each manifest as the walk reads it.
proof fn lemma_download_walks<E>(
    w: DownloadWorld<E>,
    url: Seq<char>,
    platform: Seq<char>,
    walk: WalkModel,
    steps: nat,
) -> (taken: nat)
    requires
        match walk_run(w.fetched(), walk, steps) {
            Ok(end) => end.ask is Finished,
            Err(_) => true,
        },
    ensures
        ({
            let m = Ok::<DownloadModel, FailureModel<E>>(after_fetching(url, platform, walk));
            match walk_run(w.fetched(), walk, steps) {
                Ok(end) => {
                    &&& download_run(w, m, taken) == Ok::<DownloadModel, FailureModel<E>>(
                        after_fetching(url, platform, end),
                    )
                    &&& manifests_of(walk.graph.nodes) + download_log(w, m, taken) == manifests_of(
                        end.graph.nodes,
                    )
                },
                Err(failure) => {
                    &&& download_run(w, m, taken) == Err::<DownloadModel, FailureModel<E>>(failure)
                    &&& only_manifests(download_log(w, m, taken))
                },
            }
        }),
    decreases steps,
{
    let world = w.fetched();
    let m = after_fetching(url, platform, walk);
    if steps == 0 || walk.ask is Finished {
        if walk.ask is Finished {
            lemma_walk_stays(world, walk, steps);
        }
        assert(manifests_of(walk.graph.nodes) + Seq::<FetchModel>::empty() =~= manifests_of(
            walk.graph.nodes,
        ));
        0
    } else {
        reveal_with_fuel(download_run, 2);
        reveal_with_fuel(download_log, 2);
        match walk_step(world, walk) {
            Err(failure) => 1,
            Ok(next) => {
                let more = lemma_download_walks(w, url, platform, next, (steps - 1) as nat);
                assert(download_step(w, m) == Ok::<DownloadModel, FailureModel<E>>(
                    after_fetching(url, platform, next),
                ));
                assert((more + 1 - 1) as nat == more);
                lemma_step_fetches(w, url, platform, walk);
                match walk_run(world, walk, steps) {
                    Ok(end) => {
                        let later = download_log(
                            w,
                            Ok::<DownloadModel, FailureModel<E>>(after_fetching(url, platform, next)),
                            more,
                        );
                        assert((manifests_of(walk.graph.nodes) + fetches(m)) + later
                            =~= manifests_of(walk.graph.nodes) + (fetches(m) + later));
                    },
                    Err(_) => {},
                }
                more + 1
            },
        }
    }
}

/// A step of the walk fetches what it adds.
proof fn lemma_step_fetches<E>(
    w: DownloadWorld<E>,
    url: Seq<char>,
    platform: Seq<char>,
    walk: WalkModel,
)
    requires
        !(walk.ask is Finished),
    ensures
        walk_step(w.fetched(), walk) matches Ok(next) ==> manifests_of(next.graph.nodes)
            == manifests_of(walk.graph.nodes) + fetches(after_fetching(url, platform, walk)),
{
    let world = w.fetched();
    match walk_step(world, walk) {
        Err(_) => {},
        Ok(next) => {
            let before = manifests_of(walk.graph.nodes);
            match walk.ask {
                AskModel::Read(info) => {
                    let manifest = platform_entry((world.read)(info)->Found_0, walk.platform)->0;
                    lemma_advance_nodes(
                        walk.platform,
                        walk.graph.add(info, manifest),
                        walk.stack.push(
                            FrameModel {
                                node: walk.graph.nodes.len() as usize,
                                rest: manifest.dependencies,
                            },
                        ),
                    );
                    assert(manifests_of(next.graph.nodes) =~= before + seq![FetchModel::Manifest(info)]);
                },
                AskModel::Locate(dep) => {
                    assert(before + Seq::<FetchModel>::empty() =~= before);
                    match (world.locate)(dep) {
                        Ok(info) => match place_of(walk.graph.nodes, info) {
                            Some(at) => {
                                lemma_advance_nodes(
                                    walk.platform,
                                    walk.graph.link(walk.stack.last().node, at),
                                    top_done(walk.stack),
                                );
                            },
                            None => {},
                        },
                        Err(_) => {},
                    }
                },
                AskModel::Finished => {},
            }
        },
    }
}

/// A download goes through the resolution step by step, and fetches nothing there.
proof fn lemma_download_resolves<E>(
    w: DownloadWorld<E>,
    url: Seq<char>,
    platform: Seq<char>,
    resolve: ResolveModel,
    raw: Seq<RawModel>,
    steps: nat,
) -> (taken: nat)
    requires
        match resolve_run(w.cache, Ok::<ResolveModel, FailureModel<E>>(resolve), steps) {
            Ok(end) => end.stage is Over,
            Err(_) => true,
        },
    ensures
        ({
            let m = Ok::<DownloadModel, FailureModel<E>>(
                after_resolving(url, platform, resolve, raw),
            );
            match resolve_run(w.cache, Ok::<ResolveModel, FailureModel<E>>(resolve), steps) {
                Ok(end) => {
                    &&& download_run(w, m, taken) == Ok::<DownloadModel, FailureModel<E>>(
                        after_resolving(url, platform, end, raw),
                    )
                    &&& download_log(w, m, taken) == Seq::<FetchModel>::empty()
                },
                Err(failure) => {
                    &&& download_run(w, m, taken) == Err::<DownloadModel, FailureModel<E>>(failure)
                    &&& download_log(w, m, taken) == Seq::<FetchModel>::empty()
                },
            }
        }),
    decreases steps,
{
    let m = after_resolving(url, platform, resolve, raw);
    if steps == 0 || resolve.stage is Over {
        if resolve.stage is Over {
            lemma_resolve_stays(w.cache, resolve, steps);
        }
        0
    } else {
        reveal_with_fuel(download_run, 2);
        reveal_with_fuel(download_log, 2);
        assert(fetches(m) + Seq::<FetchModel>::empty() =~= Seq::<FetchModel>::empty());
        match resolve_step(w.cache, resolve) {
            Err(failure) => {
                lemma_resolve_failed(w.cache, failure, (steps - 1) as nat);
                1
            },
            Ok(next) => {
                let more = lemma_download_resolves(w, url, platform, next, raw, (steps - 1) as nat);
                if resolve.request() is Nothing {
                    assert(next == resolve);
                }
                assert(download_step(w, m) == Ok::<DownloadModel, FailureModel<E>>(
                    after_resolving(url, platform, next, raw),
                ));
                assert((more + 1 - 1) as nat == more);
                more + 1
            },
        }
    }
}

/// What fetching the library files of a resolution comes to, from the one behind `from` on.
pub open spec fn fetch_libraries<E>(
    w: DownloadWorld<E>,
    resolution: ResolutionModel,
    from: nat,
) -> Result<(), E>
    decreases resolution.dependencies.len() + 1 - from,
{
    if from > resolution.dependencies.len() {
        Ok(())
    } else {
        match (w.fetch_library)(library_to_fetch(resolution, from)) {
            Err(e) => Err(e),
            Ok(_) => fetch_libraries(w, resolution, from + 1),
        }
    }
}

/// A download fetches the library files one after the other.
proof fn lemma_download_libraries<E>(
    w: DownloadWorld<E>,
    url: Seq<char>,
    platform: Seq<char>,
    resolution: ResolutionModel,
    fetched: nat,
    raw: Seq<RawModel>,
) -> (taken: nat)
    requires
        fetched <= resolution.dependencies.len(),
    ensures
        ({
            let m = Ok::<DownloadModel, FailureModel<E>>(
                DownloadModel {
                    url,
                    platform,
                    stage: DownloadStageModel::Libraries { resolution, fetched, raw },
                },
            );
            match fetch_libraries(w, resolution, fetched) {
                Err(e) => download_run(w, m, taken) == Err::<DownloadModel, FailureModel<E>>(
                    FailureModel::Outside(e),
                ),
                Ok(_) => {
                    &&& download_run(w, m, taken) == Ok::<DownloadModel, FailureModel<E>>(
                        DownloadModel { url, platform, stage: raw_stage(raw, 0) },
                    )
                    &&& download_log(w, m, taken) == libraries_fetched(resolution).skip(
                        fetched as int,
                    )
                },
            }
        }),
    decreases resolution.dependencies.len() - fetched,
{
    let state = DownloadModel {
        url,
        platform,
        stage: DownloadStageModel::Libraries { resolution, fetched, raw },
    };
    let m = Ok::<DownloadModel, FailureModel<E>>(state);
    let all = libraries_fetched(resolution);
    reveal_with_fuel(download_run, 2);
    reveal_with_fuel(download_log, 2);
    reveal_with_fuel(fetch_libraries, 2);
    assert(all[fetched as int] == FetchModel::Library(library_to_fetch(resolution, fetched)));
    match (w.fetch_library)(library_to_fetch(resolution, fetched)) {
        Err(e) => 1,
        Ok(_) => {
            if fetched < resolution.dependencies.len() {
                let more = lemma_download_libraries(w, url, platform, resolution, fetched + 1, raw);
                let next = DownloadModel {
                    url,
                    platform,
                    stage: DownloadStageModel::Libraries { resolution, fetched: fetched + 1, raw },
                };
                assert(download_step(w, state) == Ok::<DownloadModel, FailureModel<E>>(next));
                assert((more + 1 - 1) as nat == more);
                assert(fetches(state) + all.skip((fetched + 1) as int) =~= all.skip(fetched as int));
                more + 1
            } else {
                assert(fetches(state) + Seq::<FetchModel>::empty() =~= all.skip(fetched as int));
                1
            }
        },
    }
}

/// The library files of `raw`, from the one at `done` on: each is located and then
/// fetched, and the first that cannot be makes all fail.
pub open spec fn fetch_raw<E>(w: DownloadWorld<E>, raw: Seq<RawModel>, done: nat) -> Result<
    Seq<DllModel>,
    E,
>
    decreases raw.len() - done,
{
    if done >= raw.len() {
        Ok(Seq::empty())
    } else {
        match (w.cache.library)(raw[done as int].url, raw[done as int].name) {
            Err(e) => Err(e),
            Ok(dll) => match (w.fetch_library)(dll) {
                Err(e) => Err(e),
                Ok(_) => match fetch_raw(w, raw, done + 1) {
                    Err(e) => Err(e),
                    Ok(more) => Ok(seq![dll] + more),
                },
            },
        }
    }
}

/// Library files, as fetched.
pub open spec fn files_fetched(dlls: Seq<DllModel>) -> Seq<FetchModel> {
    dlls.map_values(|d: DllModel| FetchModel::Library(d))
}

/// A download locates and fetches the library files of `raw` one after the other.
proof fn lemma_download_raw<E>(
    w: DownloadWorld<E>,
    url: Seq<char>,
    platform: Seq<char>,
    raw: Seq<RawModel>,
    done: nat,
) -> (taken: nat)
    ensures
        ({
            let m = Ok::<DownloadModel, FailureModel<E>>(
                DownloadModel { url, platform, stage: raw_stage(raw, done) },
            );
            match fetch_raw(w, raw, done) {
                Err(e) => download_run(w, m, taken) == Err::<DownloadModel, FailureModel<E>>(
                    FailureModel::Outside(e),
                ),
                Ok(dlls) => {
                    &&& download_run(w, m, taken) == Ok::<DownloadModel, FailureModel<E>>(
                        DownloadModel { url, platform, stage: DownloadStageModel::Over },
                    )
                    &&& download_log(w, m, taken) == files_fetched(dlls)
                },
            }
        }),
    decreases raw.len() - done,
{
    let none = Seq::<FetchModel>::empty();
    if done >= raw.len() {
        assert(files_fetched(Seq::empty()) =~= none);
        0
    } else {
        let state = DownloadModel { url, platform, stage: raw_stage(raw, done) };
        reveal_with_fuel(download_run, 3);
        reveal_with_fuel(download_log, 3);
        match (w.cache.library)(raw[done as int].url, raw[done as int].name) {
            Err(e) => 1,
            Ok(dll) => {
                let there = DownloadModel {
                    url,
                    platform,
                    stage: DownloadStageModel::Raw { raw, done, located: Some(dll) },
                };
                assert(download_step(w, state) == Ok::<DownloadModel, FailureModel<E>>(there));
                match (w.fetch_library)(dll) {
                    Err(e) => 2,
                    Ok(_) => {
                        let more = lemma_download_raw(w, url, platform, raw, done + 1);
                        let next = DownloadModel { url, platform, stage: raw_stage(raw, done + 1) };
                        assert(download_step(w, there) == Ok::<DownloadModel, FailureModel<E>>(next));
                        assert((more + 2 - 1) as nat == more + 1);
                        assert((more + 1 - 1) as nat == more);
                        match fetch_raw(w, raw, done + 1) {
                            Ok(dlls) => {
                                assert(none + (seq![FetchModel::Library(dll)] + files_fetched(dlls))
                                    =~= files_fetched(seq![dll] + dlls));
                            },
                            Err(_) => {},
                        }
                        more + 2
                    },
                }
            },
        }
    }
}

/// Each library of `raw` is located and is among the files fetched.
proof fn lemma_raw_fetched<E>(w: DownloadWorld<E>, raw: Seq<RawModel>, done: nat, i: int)
    requires
        done <= i < raw.len(),
        fetch_raw(w, raw, done) is Ok,
    ensures
        (w.cache.library)(raw[i].url, raw[i].name) matches Ok(dll) && files_fetched(
            fetch_raw(w, raw, done)->Ok_0,
        ).contains(FetchModel::Library(dll)),
    decreases raw.len() - done,
{
    let dlls = fetch_raw(w, raw, done)->Ok_0;
    if i == done {
        assert(files_fetched(dlls)[0] == FetchModel::Library(dlls[0]));
    } else {
        lemma_raw_fetched(w, raw, done + 1, i);
        let more = fetch_raw(w, raw, done + 1)->Ok_0;
        let dll = (w.cache.library)(raw[i].url, raw[i].name)->Ok_0;
        let k = choose|k: int|
            0 <= k < files_fetched(more).len() && files_fetched(more)[k] == FetchModel::Library(dll);
        assert(files_fetched(dlls)[k + 1] == FetchModel::Library(dll));
    }
}

/// A library among dependencies is among their libraries.
proof fn lemma_raw_among(
    dependencies: Seq<DependencyModel>,
    url: Seq<char>,
    name: Option<Seq<char>>,
)
    requires
        dependencies.contains(DependencyModel::RawLib { url, name }),
    ensures
        raw_among(dependencies).contains(RawModel { url, name }),
    decreases dependencies.len(),
{
    let front = dependencies.drop_last();
    let i = choose|i: int|
        0 <= i < dependencies.len() && dependencies[i] == (DependencyModel::RawLib { url, name });
    let all = raw_among(dependencies);
    if i == dependencies.len() - 1 {
        assert(all[all.len() - 1] == RawModel { url, name });
    } else {
        assert(front[i] == dependencies[i]);
        assert(front.contains(DependencyModel::RawLib { url, name }));
        lemma_raw_among(front, url, name);
        let before = raw_among(front);
        let k = choose|k: int| 0 <= k < before.len() && before[k] == (RawModel { url, name });
        assert(all[k] == RawModel { url, name });
    }
}

/// A library that the manifest at `n` names is among those of all manifests.
proof fn lemma_raw_libraries(
    nodes: Seq<NodeModel>,
    n: int,
    url: Seq<char>,
    name: Option<Seq<char>>,
)
    requires
        0 <= n < nodes.len(),
        nodes[n].manifest.dependencies.contains(DependencyModel::RawLib { url, name }),
    ensures
        raw_libraries(nodes).contains(RawModel { url, name }),
    decreases nodes.len(),
{
    let front = nodes.drop_last();
    let before = raw_libraries(front);
    let last = raw_among(nodes.last().manifest.dependencies);
    if n == nodes.len() - 1 {
        lemma_raw_among(nodes.last().manifest.dependencies, url, name);
        let k = choose|k: int| 0 <= k < last.len() && last[k] == (RawModel { url, name });
        assert(raw_libraries(nodes)[before.len() + k] == RawModel { url, name });
    } else {
        assert(front[n] == nodes[n]);
        lemma_raw_libraries(front, n, url, name);
        let k = choose|k: int| 0 <= k < before.len() && before[k] == (RawModel { url, name });
        assert(raw_libraries(nodes)[k] == RawModel { url, name });
    }
}

/// What a download brought: the manifests, the libraries, and the library files that
/// the manifests name on their own.
pub struct DownloadedModel {
    pub manifests: GraphModel,
    pub libraries: ResolutionModel,
    pub raw: Seq<DllModel>,
}

/// What the download of a pack comes to: all manifests are fetched, then the
/// libraries are found out, then they are fetched, and at last the library files that
/// the manifests name on their own.
pub open spec fn download_of<E>(
    w: DownloadWorld<E>,
    url: Seq<char>,
    platform: Seq<char>,
    depth: nat,
) -> Outcome<DownloadedModel, E> {
    match (w.cache.locate)(url) {
        Err(e) => Outcome::Failed(FailureModel::Outside(e)),
        Ok(base) => match visit(w.fetched(), platform, base, GraphModel::empty(), depth) {
            Outcome::Endless => Outcome::Endless,
            Outcome::Failed(failure) => Outcome::Failed(failure),
            Outcome::Done(manifests) => match resolution_of(w.cache, url, platform, depth) {
                Outcome::Endless => Outcome::Endless,
                Outcome::Failed(failure) => Outcome::Failed(failure),
                Outcome::Done(libraries) => match fetch_libraries(w, libraries, 0) {
                    Err(e) => Outcome::Failed(FailureModel::Outside(e)),
                    Ok(_) => match fetch_raw(w, raw_libraries(manifests.nodes), 0) {
                        Err(e) => Outcome::Failed(FailureModel::Outside(e)),
                        Ok(raw) => Outcome::Done(DownloadedModel { manifests, libraries, raw }),
                    },
                },
            },
        },
    }
}

/// Whether a download fails before any library file is fetched: the base manifest
/// cannot be located, the manifests cannot be fetched, or the libraries cannot be
/// found out.
pub open spec fn fails_early<E>(
    w: DownloadWorld<E>,
    url: Seq<char>,
    platform: Seq<char>,
    depth: nat,
) -> bool {
    match (w.cache.locate)(url) {
        Err(_) => true,
        Ok(base) => visit(w.fetched(), platform, base, GraphModel::empty(), depth) is Failed
            || resolution_of(w.cache, url, platform, depth) is Failed,
    }
}

/// Whether the manifest `info` names, for the platform, a library on its own.
pub open spec fn names_library<E>(
    w: World<E>,
    platform: Seq<char>,
    info: InfoModel,
    url: Seq<char>,
    name: Option<Seq<char>>,
) -> bool {
    entry_of(w, platform, info) matches Some(entry) && entry.dependencies.contains(
        DependencyModel::RawLib { url, name },
    )
}

/// What follows when all manifests are fetched.
proof fn lemma_download_fetches<E>(
    w: DownloadWorld<E>,
    url: Seq<char>,
    platform: Seq<char>,
    raw: Seq<RawModel>,
    depth: nat,
) -> (taken: nat)
    ensures
        ({
            let m = Ok::<DownloadModel, FailureModel<E>>(
                after_resolving(url, platform, ResolveModel::start(url, platform), raw),
            );
            let end = download_run(w, m, taken);
            let log = download_log(w, m, taken);
            match resolution_of(w.cache, url, platform, depth) {
                Outcome::Endless => true,
                Outcome::Failed(failure) => {
                    &&& end == Err::<DownloadModel, FailureModel<E>>(failure)
                    &&& log == Seq::<FetchModel>::empty()
                },
                Outcome::Done(libraries) => match fetch_libraries(w, libraries, 0) {
                    Err(e) => end == Err::<DownloadModel, FailureModel<E>>(FailureModel::Outside(e)),
                    Ok(_) => match fetch_raw(w, raw, 0) {
                        Err(e) => end == Err::<DownloadModel, FailureModel<E>>(
                            FailureModel::Outside(e),
                        ),
                        Ok(dlls) => {
                            &&& end == Ok::<DownloadModel, FailureModel<E>>(
                                DownloadModel { url, platform, stage: DownloadStageModel::Over },
                            )
                            &&& log == libraries_fetched(libraries) + files_fetched(dlls)
                        },
                    },
                },
            }
        }),
{
    let resolve = ResolveModel::start(url, platform);
    let m = Ok::<DownloadModel, FailureModel<E>>(after_resolving(url, platform, resolve, raw));
    if resolution_of(w.cache, url, platform, depth) is Endless {
        0
    } else {
        let resolved = resolve_comes_to_resolution(w.cache, url, platform, depth);
        let b = lemma_download_resolves(w, url, platform, resolve, raw, resolved);
        match resolution_of(w.cache, url, platform, depth) {
            Outcome::Done(libraries) => {
                let c = lemma_download_libraries(w, url, platform, libraries, 0, raw);
                lemma_download_joined(w, m, b, c);
                let all = libraries_fetched(libraries);
                assert(Seq::<FetchModel>::empty() + all.skip(0) =~= all);
                match fetch_libraries(w, libraries, 0) {
                    Err(_) => b + c,
                    Ok(_) => {
                        let d = lemma_download_raw(w, url, platform, raw, 0);
                        lemma_download_joined(w, m, b + c, d);
                        b + c + d
                    },
                }
            },
            _ => b,
        }
    }
}

/// A download comes to what `download_of` says. Where it succeeds it has fetched
/// the manifests in the order in which the walk reads them, then each library file
/// in the load order, the main one last, then the library files that the manifests
/// name on their own, and nothing else. The manifests are those that can be reached,
/// each once, and each library file that one of them names is among those fetched.
/// Where the download fails before the libraries are found out, it has fetched no
/// library file.
pub proof fn download_fetches_all<E>(
    w: DownloadWorld<E>,
    url: Seq<char>,
    platform: Seq<char>,
    depth: nat,
) -> (steps: nat)
    requires
        !(download_of(w, url, platform, depth) is Endless),
    ensures
        ({
            let start = Ok::<DownloadModel, FailureModel<E>>(DownloadModel::start(url, platform));
            let log = download_log(w, start, steps);
            let base = (w.cache.locate)(url)->Ok_0;
            match download_of(w, url, platform, depth) {
                Outcome::Done(downloaded) => {
                    &&& download_run(w, start, steps) == Ok::<DownloadModel, FailureModel<E>>(
                        DownloadModel { url, platform, stage: DownloadStageModel::Over },
                    )
                    &&& log == manifests_of(downloaded.manifests.nodes) + libraries_fetched(
                        downloaded.libraries,
                    ) + files_fetched(downloaded.raw)
                    &&& downloaded.manifests.nodes.len() <= usize::MAX ==> {
                        &&& graph_of_reachable(w.fetched(), platform, base, downloaded.manifests)
                        &&& forall|info: InfoModel, u: Seq<char>, name: Option<Seq<char>>|
                            reachable(w.fetched(), platform, base, info) && #[trigger] names_library(
                                w.fetched(),
                                platform,
                                info,
                                u,
                                name,
                            ) ==> ((w.cache.library)(u, name) matches Ok(dll) && log.contains(
                                FetchModel::Library(dll),
                            ))
                    }
                },
                Outcome::Failed(failure) => {
                    &&& download_run(w, start, steps) == Err::<DownloadModel, FailureModel<E>>(failure)
                    &&& fails_early(w, url, platform, depth) ==> only_manifests(log)
                },
                Outcome::Endless => true,
            }
        }),
{
    let first = DownloadModel::start(url, platform);
    let start = Ok::<DownloadModel, FailureModel<E>>(first);
    let none = Seq::<FetchModel>::empty();
    reveal_with_fuel(download_run, 2);
    reveal_with_fuel(download_log, 2);
    match (w.cache.locate)(url) {
        Err(e) => 1,
        Ok(base) => {
            let walk = WalkModel::start(base, platform);
            assert(download_run(w, start, 1) == Ok::<DownloadModel, FailureModel<E>>(
                after_fetching(url, platform, walk),
            ));
            assert(download_log(w, start, 1) =~= none);
            let walked = walk_reads_depth_first(w.fetched(), platform, base, depth);
            let a = lemma_download_walks(w, url, platform, walk, walked);
            lemma_download_joined(w, start, 1, a);
            match visit(w.fetched(), platform, base, GraphModel::empty(), depth) {
                Outcome::Done(manifests) => {
                    let raw = raw_libraries(manifests.nodes);
                    let begun = after_resolving(
                        url,
                        platform,
                        ResolveModel::start(url, platform),
                        raw,
                    );
                    assert(manifests_of(walk.graph.nodes) =~= none);
                    assert(download_log(w, start, 1 + a) =~= manifests_of(manifests.nodes));
                    assert(download_run(w, start, 1 + a) == Ok::<DownloadModel, FailureModel<E>>(
                        begun,
                    ));
                    let b = lemma_download_fetches(w, url, platform, raw, depth);
                    lemma_download_joined(w, start, 1 + a, b);
                    let log = download_log(w, start, 1 + a + b);
                    match download_of(w, url, platform, depth) {
                        Outcome::Done(downloaded) => {
                            let files = files_fetched(downloaded.raw);
                            assert(log =~= manifests_of(manifests.nodes) + libraries_fetched(
                                downloaded.libraries,
                            ) + files);
                            if manifests.nodes.len() <= usize::MAX {
                                walk_reads_the_reachable(w.fetched(), platform, base, depth);
                                assert(log.skip(log.len() - files.len()) =~= files);
                                lemma_all_raw_fetched(w, platform, base, manifests, log);
                            }
                        },
                        _ => {},
                    }
                    1 + a + b
                },
                _ => 1 + a,
            }
        },
    }
}

/// A log that ends in the library files of all manifests holds each that one of
/// them names.
proof fn lemma_all_raw_fetched<E>(
    w: DownloadWorld<E>,
    platform: Seq<char>,
    base: InfoModel,
    manifests: GraphModel,
    log: Seq<FetchModel>,
)
    requires
        graph_of_reachable(w.fetched(), platform, base, manifests),
        fetch_raw(w, raw_libraries(manifests.nodes), 0) is Ok,
        ({
            let files = files_fetched(fetch_raw(w, raw_libraries(manifests.nodes), 0)->Ok_0);
            log.len() >= files.len() && log.skip(log.len() - files.len()) == files
        }),
    ensures
        forall|info: InfoModel, u: Seq<char>, name: Option<Seq<char>>|
            reachable(w.fetched(), platform, base, info) && #[trigger] names_library(
                w.fetched(),
                platform,
                info,
                u,
                name,
            ) ==> ((w.cache.library)(u, name) matches Ok(dll) && log.contains(
                FetchModel::Library(dll),
            )),
{
    let raw = raw_libraries(manifests.nodes);
    let files = files_fetched(fetch_raw(w, raw, 0)->Ok_0);
    assert forall|info: InfoModel, u: Seq<char>, name: Option<Seq<char>>|
        reachable(w.fetched(), platform, base, info) && #[trigger] names_library(
            w.fetched(),
            platform,
            info,
            u,
            name,
        ) implies ((w.cache.library)(u, name) matches Ok(dll) && log.contains(
        FetchModel::Library(dll),
    )) by {
        let n = choose|n: int|
            0 <= n < manifests.nodes.len() && (#[trigger] manifests.nodes[n]).info == info;
        assert(as_read(w.fetched(), platform, manifests.nodes[n]));
        lemma_raw_libraries(manifests.nodes, n, u, name);
        let i = choose|i: int| 0 <= i < raw.len() && raw[i] == (RawModel { url: u, name });
        lemma_raw_fetched(w, raw, 0, i);
        let dll = (w.cache.library)(u, name)->Ok_0;
        let k = choose|k: int| 0 <= k < files.len() && files[k] == FetchModel::Library(dll);
        assert(log.skip(log.len() - files.len())[k] == log[log.len() - files.len() + k]);
    }
}

/// A download comes to an end wherever finitely many manifests can be reached, on
/// the server and in the cache.
pub proof fn download_ends<E>(
    w: DownloadWorld<E>,
    url: Seq<char>,
    platform: Seq<char>,
    all: Set<InfoModel>,
)
    requires
        all.finite(),
        (w.cache.locate)(url) matches Ok(base) ==> forall|to: InfoModel|
            #![trigger reachable(w.fetched(), platform, base, to)]
            #![trigger reachable(w.cache, platform, base, to)]
            reachable(w.fetched(), platform, base, to) || reachable(w.cache, platform, base, to)
                ==> all.contains(to),
    ensures
        !(download_of(w, url, platform, all.len()) is Endless),
{
    match (w.cache.locate)(url) {
        Err(_) => {},
        Ok(base) => {
            walk_ends(w.fetched(), platform, base, all);
            walk_ends(w.cache, platform, base, all);
        },
    }
}

/// A visit depends only on the manifests that it reads.
proof fn lemma_visit_same<E>(
    v: World<E>,
    w: World<E>,
    platform: Seq<char>,
    info: InfoModel,
    g: GraphModel,
    depth: nat,
)
    requires
        v.locate == w.locate,
        visit(v, platform, info, g, depth) matches Outcome::Done(more) && forall|n: int|
            g.nodes.len() <= n < more.nodes.len() ==> (v.read)((#[trigger] more.nodes[n]).info) == (
            w.read)(more.nodes[n].info),
    ensures
        visit(w, platform, info, g, depth) == visit(v, platform, info, g, depth),
    decreases depth, 0nat,
{
    let more = visit(v, platform, info, g, depth)->Done_0;
    let manifest = platform_entry((v.read)(info)->Found_0, platform)->0;
    let id = g.nodes.len() as usize;
    let added = g.add(info, manifest);
    lemma_visit_deps_extends(v, platform, id, manifest.dependencies, added, (depth - 1) as nat);
    assert(more.nodes[g.nodes.len() as int] == added.nodes[g.nodes.len() as int]);
    assert((v.read)(info) == (w.read)(info));
    lemma_visit_deps_same(v, w, platform, id, manifest.dependencies, added, (depth - 1) as nat);
}

proof fn lemma_visit_deps_same<E>(
    v: World<E>,
    w: World<E>,
    platform: Seq<char>,
    node: usize,
    deps: Seq<DependencyModel>,
    g: GraphModel,
    depth: nat,
)
    requires
        v.locate == w.locate,
        visit_deps(v, platform, node, deps, g, depth) matches Outcome::Done(more) && forall|n: int|
            g.nodes.len() <= n < more.nodes.len() ==> (v.read)((#[trigger] more.nodes[n]).info) == (
            w.read)(more.nodes[n].info),
    ensures
        visit_deps(w, platform, node, deps, g, depth) == visit_deps(
            v,
            platform,
            node,
            deps,
            g,
            depth,
        ),
    decreases depth, 1 + deps.len(),
{
    if deps.len() > 0 {
        let rest = deps.drop_first();
        match deps[0] {
            DependencyModel::RawLib { url, name } => {
                lemma_visit_deps_same(v, w, platform, node, rest, g, depth);
            },
            DependencyModel::DllPack { url } => {
                let info = (v.locate)(url)->Ok_0;
                match place_of(g.nodes, info) {
                    Some(at) => {
                        lemma_visit_deps_same(v, w, platform, node, rest, g.link(node, at), depth);
                    },
                    None => {
                        let mid = visit(v, platform, info, g, depth)->Done_0;
                        let next = mid.link(node, g.nodes.len() as usize);
                        let more = visit_deps(v, platform, node, rest, next, depth)->Done_0;
                        lemma_visit_extends(v, platform, info, g, depth);
                        lemma_visit_deps_extends(v, platform, node, rest, next, depth);
                        assert forall|n: int| g.nodes.len() <= n < mid.nodes.len() implies (v.read)(
                            (#[trigger] mid.nodes[n]).info,
                        ) == (w.read)(mid.nodes[n].info) by {
                            assert(next.nodes[n] == mid.nodes[n]);
                            assert(more.nodes[n] == next.nodes[n]);
                        }
                        lemma_visit_same(v, w, platform, info, g, depth);
                        lemma_visit_deps_same(v, w, platform, node, rest, next, depth);
                    },
                }
            },
        }
    }
}

/// When all manifests were fetched and the cache gives each back as it was
/// fetched, the resolution reads exactly those, and none is missing.
pub proof fn download_leaves_manifests_to_resolve<E>(
    w: DownloadWorld<E>,
    platform: Seq<char>,
    base: InfoModel,
    depth: nat,
)
    requires
        visit(w.fetched(), platform, base, GraphModel::empty(), depth) matches Outcome::Done(manifests)
            && forall|n: int|
            0 <= n < manifests.nodes.len() ==> (w.cache.read)((#[trigger] manifests.nodes[n]).info)
                == fetched_reply((w.fetch)(manifests.nodes[n].info)),
    ensures
        visit(w.cache, platform, base, GraphModel::empty(), depth) == visit(
            w.fetched(),
            platform,
            base,
            GraphModel::empty(),
            depth,
        ),
{
    lemma_visit_same(w.fetched(), w.cache, platform, base, GraphModel::empty(), depth);
}

} // verus!
