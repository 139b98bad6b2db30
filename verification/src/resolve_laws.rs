//! What a resolution comes to, in surroundings that answer the same request always alike.
use vstd::prelude::*;

use crate::failure::FailureModel;
use crate::graph::GraphModel;
use crate::manifest::{platform_entry, DllModel, InfoModel, PlatformModel};
use crate::order::order_of;
use crate::order_laws::{
    around, has_circle, is_circle, load_order_fails_on_circles, load_order_puts_dependencies_first,
};
use crate::reach_laws::{
    all_located, as_read, complete, depends, fails_as, graph_of_reachable, is_chain,
    lemma_reachable_on, linked, reachable, readable, walk_ends, walk_fails_as_a_manifest_does,
    walk_reads_the_reachable, walk_succeeds,
};
use crate::resolve::{after_walking, RequestModel, ResolutionModel, ResolveModel, StageModel};
use crate::walk::{ReplyModel, WalkModel};
use crate::walk_laws::{lemma_walk_stays, visit, walk_reads_depth_first, walk_run, walk_step, Outcome, World};

verus! {

/// The library files of the manifests at `order`, from the one at `from` on; the
/// first that cannot be located makes all fail.
pub open spec fn libraries_of<E>(
    w: World<E>,
    g: GraphModel,
    order: Seq<usize>,
    from: nat,
) -> Result<Seq<DllModel>, E>
    decreases order.len() - from,
{
    if from >= order.len() {
        Ok(Seq::empty())
    } else {
        let manifest = g.nodes[order[from as int] as int].manifest;
        match (w.library)(manifest.url, manifest.name) {
            Err(e) => Err(e),
            Ok(dll) => match libraries_of(w, g, order, from + 1) {
                Err(e) => Err(e),
                Ok(more) => Ok(seq![dll] + more),
            },
        }
    }
}

/// What the resolution of a pack comes to.
pub open spec fn resolution_of<E>(
    w: World<E>,
    base_url: Seq<char>,
    platform: Seq<char>,
    depth: nat,
) -> Outcome<ResolutionModel, E> {
    match (w.locate)(base_url) {
        Err(e) => Outcome::Failed(FailureModel::Outside(e)),
        Ok(base) => match visit(w, platform, base, GraphModel::empty(), depth) {
            Outcome::Endless => Outcome::Endless,
            Outcome::Failed(failure) => Outcome::Failed(failure),
            Outcome::Done(g) => match order_of(g, base_url) {
                None => Outcome::Failed(FailureModel::Circular(platform)),
                Some(order) => match libraries_of(w, g, order, 0) {
                    Err(e) => Outcome::Failed(FailureModel::Outside(e)),
                    Ok(dependencies) => match (w.library)(
                        g.nodes[0].manifest.url,
                        g.nodes[0].manifest.name,
                    ) {
                        Err(e) => Outcome::Failed(FailureModel::Outside(e)),
                        Ok(main) => Outcome::Done(ResolutionModel { main, dependencies }),
                    },
                },
            },
        },
    }
}

/// One step of a resolution: what it needs is answered.
pub open spec fn resolve_step<E>(w: World<E>, m: ResolveModel) -> Result<
    ResolveModel,
    FailureModel<E>,
> {
    match m.request() {
        RequestModel::LocateManifest(url) => m.after_manifest((w.locate)(url)),
        RequestModel::ReadManifest(info) => m.after_read((w.read)(info)),
        RequestModel::LocateLibrary(url, name) => m.after_library((w.library)(url, name)),
        RequestModel::Nothing => Ok(m),
    }
}

/// `steps` steps of a resolution, from a state or a failure.
pub open spec fn resolve_run<E>(
    w: World<E>,
    m: Result<ResolveModel, FailureModel<E>>,
    steps: nat,
) -> Result<ResolveModel, FailureModel<E>>
    decreases steps,
{
    if steps == 0 {
        m
    } else {
        match m {
            Err(failure) => Err(failure),
            Ok(state) => resolve_run(w, resolve_step(w, state), (steps - 1) as nat),
        }
    }
}

/// A failure stays.
pub proof fn lemma_resolve_failed<E>(w: World<E>, failure: FailureModel<E>, steps: nat)
    ensures
        resolve_run(w, Err::<ResolveModel, FailureModel<E>>(failure), steps) == Err::<
            ResolveModel,
            FailureModel<E>,
        >(failure),
{
}

/// A resolution that is over stays as it is.
pub proof fn lemma_resolve_stays<E>(w: World<E>, m: ResolveModel, steps: nat)
    requires
        m.stage is Over,
    ensures
        resolve_run(w, Ok::<ResolveModel, FailureModel<E>>(m), steps) == Ok::<
            ResolveModel,
            FailureModel<E>,
        >(m),
    decreases steps,
{
    if steps > 0 {
        lemma_resolve_stays(w, m, (steps - 1) as nat);
    }
}

/// Steps after steps are steps.
pub proof fn lemma_resolve_joined<E>(
    w: World<E>,
    m: Result<ResolveModel, FailureModel<E>>,
    a: nat,
    b: nat,
)
    ensures
        resolve_run(w, m, a + b) == resolve_run(w, resolve_run(w, m, a), b),
    decreases a,
{
    if a > 0 {
        match m {
            Err(failure) => {
                lemma_resolve_failed(w, failure, a + b);
                lemma_resolve_failed(w, failure, a);
                lemma_resolve_failed(w, failure, b);
            },
            Ok(state) => {
                lemma_resolve_joined(w, resolve_step(w, state), (a - 1) as nat, b);
                assert((a + b - 1) as nat == (a - 1) as nat + b);
            },
        }
    }
}

/// A resolution goes through the walk step by step.
proof fn lemma_resolve_walks<E>(
    w: World<E>,
    base_url: Seq<char>,
    platform: Seq<char>,
    walk: WalkModel,
    steps: nat,
) -> (taken: nat)
    requires
        match walk_run(w, walk, steps) {
            Ok(end) => end.ask is Finished,
            Err(_) => true,
        },
    ensures
        match walk_run(w, walk, steps) {
            Ok(end) => resolve_run(w, after_walking::<E>(base_url, platform, walk), taken)
                == after_walking::<E>(base_url, platform, end),
            Err(failure) => resolve_run(w, after_walking::<E>(base_url, platform, walk), taken) == Err::<
                ResolveModel,
                FailureModel<E>,
            >(failure),
        },
    decreases steps,
{
    if walk.ask is Finished {
        lemma_walk_stays(w, walk, steps);
        0
    } else if steps == 0 {
        0
    } else {
        let m = ResolveModel { base_url, platform, stage: StageModel::Walking(walk) };
        match walk_step(w, walk) {
            Err(failure) => {
                assert(resolve_step(w, m) == Err::<ResolveModel, FailureModel<E>>(failure));
                reveal_with_fuel(resolve_run, 2);
                1
            },
            Ok(next) => {
                let more = lemma_resolve_walks(w, base_url, platform, next, (steps - 1) as nat);
                assert(resolve_step(w, m) == after_walking::<E>(base_url, platform, next));
                assert((more + 1 - 1) as nat == more);
                more + 1
            },
        }
    }
}

/// A resolution locates the libraries one after the other.
proof fn lemma_resolve_libraries<E>(
    w: World<E>,
    base_url: Seq<char>,
    platform: Seq<char>,
    graph: GraphModel,
    order: Seq<usize>,
    found: Seq<DllModel>,
) -> (taken: nat)
    requires
        found.len() <= order.len(),
    ensures
        ({
            let m = ResolveModel {
                base_url,
                platform,
                stage: StageModel::Libraries { graph, order, found },
            };
            let end = resolve_run(w, Ok::<ResolveModel, FailureModel<E>>(m), taken);
            match libraries_of(w, graph, order, found.len()) {
                Err(e) => end == Err::<ResolveModel, FailureModel<E>>(FailureModel::Outside(e)),
                Ok(more) => match (w.library)(graph.nodes[0].manifest.url, graph.nodes[0].manifest.name) {
                    Err(e) => end == Err::<ResolveModel, FailureModel<E>>(FailureModel::Outside(e)),
                    Ok(main) => end == Ok::<ResolveModel, FailureModel<E>>(
                        ResolveModel {
                            base_url,
                            platform,
                            stage: StageModel::Over(
                                ResolutionModel { main, dependencies: found + more },
                            ),
                        },
                    ),
                },
            }
        }),
    decreases order.len() - found.len(),
{
    let m = ResolveModel { base_url, platform, stage: StageModel::Libraries { graph, order, found } };
    reveal_with_fuel(resolve_run, 2);
    if found.len() == order.len() {
        assert(found + Seq::<DllModel>::empty() =~= found);
        1
    } else {
        let manifest = graph.nodes[order[found.len() as int] as int].manifest;
        match (w.library)(manifest.url, manifest.name) {
            Err(e) => 1,
            Ok(dll) => {
                let taken = lemma_resolve_libraries(
                    w,
                    base_url,
                    platform,
                    graph,
                    order,
                    found.push(dll),
                );
                let next = ResolveModel {
                    base_url,
                    platform,
                    stage: StageModel::Libraries { graph, order, found: found.push(dll) },
                };
                assert(resolve_step(w, m) == Ok::<ResolveModel, FailureModel<E>>(next));
                assert((taken + 1 - 1) as nat == taken);
                match libraries_of(w, graph, order, found.len() + 1) {
                    Ok(more) => {
                        assert(found.push(dll) + more =~= found + (seq![dll] + more));
                    },
                    Err(e) => {},
                }
                taken + 1
            },
        }
    }
}

/// A resolution comes to what `resolution_of` says: to the same libraries in the
/// same order, or to the same failure.
pub proof fn resolve_comes_to_resolution<E>(
    w: World<E>,
    base_url: Seq<char>,
    platform: Seq<char>,
    depth: nat,
) -> (steps: nat)
    requires
        !(resolution_of(w, base_url, platform, depth) is Endless),
    ensures
        match resolution_of(w, base_url, platform, depth) {
            Outcome::Done(resolution) => resolve_run(
                w,
                Ok::<ResolveModel, FailureModel<E>>(ResolveModel::start(base_url, platform)),
                steps,
            ) == Ok::<ResolveModel, FailureModel<E>>(
                ResolveModel { base_url, platform, stage: StageModel::Over(resolution) },
            ),
            Outcome::Failed(failure) => resolve_run(
                w,
                Ok::<ResolveModel, FailureModel<E>>(ResolveModel::start(base_url, platform)),
                steps,
            ) == Err::<ResolveModel, FailureModel<E>>(failure),
            Outcome::Endless => true,
        },
{
    let start = Ok::<ResolveModel, FailureModel<E>>(ResolveModel::start(base_url, platform));
    reveal_with_fuel(resolve_run, 2);
    match (w.locate)(base_url) {
        Err(e) => 1,
        Ok(base) => {
            let walk = WalkModel::start(base, platform);
            let first = after_walking::<E>(base_url, platform, walk);
            assert(resolve_run(w, start, 1) == first);
            let walked = walk_reads_depth_first(w, platform, base, depth);
            let taken = lemma_resolve_walks(w, base_url, platform, walk, walked);
            lemma_resolve_joined(w, start, 1, taken);
            match visit(w, platform, base, GraphModel::empty(), depth) {
                Outcome::Done(g) => match order_of(g, base_url) {
                    None => 1 + taken,
                    Some(order) => {
                        let last = lemma_resolve_libraries(
                            w,
                            base_url,
                            platform,
                            g,
                            order,
                            Seq::empty(),
                        );
                        lemma_resolve_joined(w, start, 1 + taken, last);
                        match libraries_of(w, g, order, 0) {
                            Ok(dependencies) => {
                                assert(Seq::<DllModel>::empty() + dependencies =~= dependencies);
                            },
                            Err(e) => {},
                        }
                        1 + taken + last
                    },
                },
                _ => 1 + taken,
            }
        },
    }
}

/// The entry of a manifest for a platform, where it can be read and has one.
pub open spec fn entry_of<E>(w: World<E>, platform: Seq<char>, info: InfoModel) -> Option<
    PlatformModel,
> {
    match (w.read)(info) {
        ReplyModel::Found(file) => platform_entry(file, platform),
        _ => None,
    }
}

/// The library file of a manifest.
pub open spec fn library_of<E>(w: World<E>, platform: Seq<char>, info: InfoModel) -> Result<
    DllModel,
    E,
> {
    let entry = entry_of(w, platform, info)->0;
    (w.library)(entry.url, entry.name)
}

/// Whether the libraries of the manifests `infos` are those that the base
/// manifest depends on, over any number of manifests: each of them once, and each
/// behind all that it depends on.
pub open spec fn loads_in_order<E>(
    w: World<E>,
    base_url: Seq<char>,
    platform: Seq<char>,
    base: InfoModel,
    infos: Seq<InfoModel>,
) -> bool {
    &&& infos.no_duplicates()
    &&& forall|info: InfoModel| #[trigger]
        infos.contains(info) <==> (reachable(w, platform, base, info) && info.url != base_url)
    &&& forall|i: int, to: InfoModel|
        0 <= i < infos.len() && #[trigger] depends(w, platform, infos[i], to) && to.url != base_url
            ==> infos.take(i).contains(to)
}

/// A resolution comes to an end wherever finitely many manifests can be reached.
pub proof fn resolve_ends<E>(
    w: World<E>,
    base_url: Seq<char>,
    platform: Seq<char>,
    base: InfoModel,
    all: Set<InfoModel>,
)
    requires
        (w.locate)(base_url) == Ok::<InfoModel, E>(base),
        all.finite(),
        forall|to: InfoModel| #[trigger] reachable(w, platform, base, to) ==> all.contains(to),
    ensures
        !(resolution_of(w, base_url, platform, all.len()) is Endless),
{
    walk_ends(w, platform, base, all);
}

/// What `libraries_of` lists.
proof fn lemma_libraries<E>(w: World<E>, g: GraphModel, order: Seq<usize>, from: nat)
    requires
        from <= order.len(),
    ensures
        libraries_of(w, g, order, from) matches Ok(dlls) ==> {
            &&& dlls.len() == order.len() - from
            &&& forall|i: int|
                0 <= i < dlls.len() ==> Ok::<DllModel, E>(#[trigger] dlls[i]) == (w.library)(
                    g.nodes[order[from + i] as int].manifest.url,
                    g.nodes[order[from + i] as int].manifest.name,
                )
        },
    decreases order.len() - from,
{
    if from < order.len() {
        lemma_libraries(w, g, order, from + 1);
        match libraries_of(w, g, order, from) {
            Ok(dlls) => {
                let more = libraries_of(w, g, order, from + 1)->Ok_0;
                assert forall|i: int| 0 <= i < dlls.len() implies Ok::<DllModel, E>(
                    #[trigger] dlls[i],
                ) == (w.library)(
                    g.nodes[order[from + i] as int].manifest.url,
                    g.nodes[order[from + i] as int].manifest.name,
                ) by {
                    if i > 0 {
                        assert(dlls[i] == more[i - 1]);
                        assert(order[(from + 1) + (i - 1)] == order[from + i]);
                    }
                }
            },
            Err(e) => {},
        }
    }
}

/// What a manifest of the graph depends on is what it is linked to.
proof fn lemma_depends_linked<E>(
    w: World<E>,
    platform: Seq<char>,
    g: GraphModel,
    n: int,
    to: InfoModel,
)
    requires
        g.wf(),
        0 <= n < g.nodes.len(),
        as_read(w, platform, g.nodes[n]),
        complete(w, g, n),
    ensures
        depends(w, platform, g.nodes[n].info, to) <==> exists|i: int|
            0 <= i < g.deps[n].len() && g.nodes[#[trigger] g.deps[n][i] as int].info == to,
{
    let all = linked::<E>(g, n);
    if depends(w, platform, g.nodes[n].info, to) {
        let i = choose|i: int| 0 <= i < all.len() && all[i] == Ok::<InfoModel, E>(to);
        assert(g.nodes[g.deps[n][i] as int].info == to);
    }
    if exists|i: int| 0 <= i < g.deps[n].len() && g.nodes[#[trigger] g.deps[n][i] as int].info == to {
        let i = choose|i: int|
            0 <= i < g.deps[n].len() && g.nodes[#[trigger] g.deps[n][i] as int].info == to;
        assert(all[i] == Ok::<InfoModel, E>(to));
        assert(all.contains(Ok::<InfoModel, E>(to)));
    }
}

/// The manifests at the places of an order.
pub open spec fn infos_at(g: GraphModel, order: Seq<usize>) -> Seq<InfoModel> {
    order.map_values(|x: usize| g.nodes[x as int].info)
}

/// The load order of a graph, read as an order of manifests.
proof fn lemma_order_of_infos<E>(
    w: World<E>,
    base_url: Seq<char>,
    platform: Seq<char>,
    base: InfoModel,
    g: GraphModel,
)
    requires
        graph_of_reachable(w, platform, base, g),
        order_of(g, base_url) is Some,
    ensures
        loads_in_order(w, base_url, platform, base, infos_at(g, order_of(g, base_url)->0)),
{
    let order = order_of(g, base_url)->0;
    let infos = infos_at(g, order);
    load_order_puts_dependencies_first(g, base_url);
    assert forall|i: int| 0 <= i < order.len() implies #[trigger] order[i] < g.nodes.len()
        && g.nodes[order[i] as int].info.url != base_url by {
        assert(order.contains(order[i]));
    }
    assert forall|i: int, j: int| 0 <= i < infos.len() && 0 <= j < infos.len() && i != j implies infos[i]
        != infos[j] by {
        assert(order[i] != order[j]);
        if order[i] < order[j] {
            assert(g.nodes[order[i] as int].info != g.nodes[order[j] as int].info);
        } else {
            assert(g.nodes[order[j] as int].info != g.nodes[order[i] as int].info);
        }
    }
    assert forall|info: InfoModel| #[trigger]
        infos.contains(info) <==> (reachable(w, platform, base, info) && info.url != base_url) by {
        if infos.contains(info) {
            let i = choose|i: int| 0 <= i < infos.len() && infos[i] == info;
            assert(g.nodes[order[i] as int].info == info);
        }
        if reachable(w, platform, base, info) && info.url != base_url {
            let n = choose|n: int| 0 <= n < g.nodes.len() && (#[trigger] g.nodes[n]).info == info;
            assert(order.contains(n as usize));
            let i = choose|i: int| 0 <= i < order.len() && order[i] == n as usize;
            assert(infos[i] == info);
        }
    }
    assert forall|i: int, to: InfoModel|
        0 <= i < infos.len() && #[trigger] depends(w, platform, infos[i], to) && to.url
            != base_url implies infos.take(i).contains(to) by {
        let n = order[i] as int;
        assert(as_read(w, platform, g.nodes[n]) && complete(w, g, n));
        lemma_depends_linked(w, platform, g, n, to);
        let k = choose|k: int|
            0 <= k < g.deps[n].len() && g.nodes[#[trigger] g.deps[n][k] as int].info == to;
        assert(order.take(i).contains(g.deps[order[i] as int][k]));
        let j = choose|j: int| 0 <= j < order.take(i).len() && order.take(i)[j] == g.deps[n][k];
        assert(infos.take(i)[j] == to);
    }
}

/// The libraries that a resolution gives: the main one is that of the base
/// manifest, and the others are those of all other manifests that can be reached,
/// each once and each behind all that it depends on.
pub proof fn resolve_puts_dependencies_first<E>(
    w: World<E>,
    base_url: Seq<char>,
    platform: Seq<char>,
    depth: nat,
) -> (infos: Seq<InfoModel>)
    requires
        resolution_of(w, base_url, platform, depth) is Done,
        visit(w, platform, (w.locate)(base_url)->Ok_0, GraphModel::empty(), depth)->Done_0.nodes.len()
            <= usize::MAX,
    ensures
        ({
            let resolution = resolution_of(w, base_url, platform, depth)->Done_0;
            let base = (w.locate)(base_url)->Ok_0;
            &&& loads_in_order(w, base_url, platform, base, infos)
            &&& library_of(w, platform, base) == Ok::<DllModel, E>(resolution.main)
            &&& infos.len() == resolution.dependencies.len()
            &&& forall|i: int|
                0 <= i < infos.len() ==> library_of(w, platform, #[trigger] infos[i]) == Ok::<
                    DllModel,
                    E,
                >(resolution.dependencies[i])
        }),
{
    let resolution = resolution_of(w, base_url, platform, depth)->Done_0;
    let base = (w.locate)(base_url)->Ok_0;
    let g = visit(w, platform, base, GraphModel::empty(), depth)->Done_0;
    walk_reads_the_reachable(w, platform, base, depth);
    let order = order_of(g, base_url)->0;
    let infos = infos_at(g, order);
    lemma_order_of_infos(w, base_url, platform, base, g);
    load_order_puts_dependencies_first(g, base_url);
    lemma_libraries(w, g, order, 0);
    assert(as_read(w, platform, g.nodes[0]));
    assert forall|i: int| 0 <= i < infos.len() implies library_of(w, platform, #[trigger] infos[i])
        == Ok::<DllModel, E>(resolution.dependencies[i]) by {
        assert(order.contains(order[i]));
        assert(as_read(w, platform, g.nodes[order[i] as int]));
        assert(Ok::<DllModel, E>(resolution.dependencies[i]) == (w.library)(
            g.nodes[order[0 + i] as int].manifest.url,
            g.nodes[order[0 + i] as int].manifest.name,
        ));
    }
    infos
}

/// Where one of the manifests that can be reached is missing, cannot be read or
/// has no entry for the platform, the resolution fails, and it fails as one of the
/// manifests that can be reached does.
pub proof fn resolve_fails_without_a_manifest<E>(
    w: World<E>,
    base_url: Seq<char>,
    platform: Seq<char>,
    base: InfoModel,
    all: Set<InfoModel>,
    info: InfoModel,
) -> (culprit: InfoModel)
    requires
        (w.locate)(base_url) == Ok::<InfoModel, E>(base),
        all.finite(),
        all.len() <= usize::MAX,
        forall|to: InfoModel| #[trigger] reachable(w, platform, base, to) ==> all.contains(to),
        reachable(w, platform, base, info),
        entry_of(w, platform, info) is None,
    ensures
        reachable(w, platform, base, culprit),
        resolution_of(w, base_url, platform, all.len()) matches Outcome::Failed(failure) && fails_as(
            w,
            platform,
            culprit,
            failure,
        ),
{
    walk_ends(w, platform, base, all);
    match visit(w, platform, base, GraphModel::empty(), all.len()) {
        Outcome::Done(g) => {
            walk_reads_the_reachable(w, platform, base, all.len());
            let n = choose|n: int| 0 <= n < g.nodes.len() && (#[trigger] g.nodes[n]).info == info;
            assert(as_read(w, platform, g.nodes[n]));
        },
        _ => {},
    }
    walk_fails_as_a_manifest_does(w, platform, base, all.len())
}

/// Where manifests that can be reached are missing and all others are readable, the
/// resolution fails with one that is missing.
pub proof fn resolve_fails_on_a_missing_manifest<E>(
    w: World<E>,
    base_url: Seq<char>,
    platform: Seq<char>,
    base: InfoModel,
    all: Set<InfoModel>,
    info: InfoModel,
) -> (missing: InfoModel)
    requires
        (w.locate)(base_url) == Ok::<InfoModel, E>(base),
        all.finite(),
        all.len() <= usize::MAX,
        forall|to: InfoModel| #[trigger] reachable(w, platform, base, to) ==> all.contains(to),
        forall|to: InfoModel| #[trigger]
            reachable(w, platform, base, to) ==> readable(w, platform, to) || (w.read)(to) is Missing,
        reachable(w, platform, base, info),
        (w.read)(info) is Missing,
    ensures
        reachable(w, platform, base, missing),
        (w.read)(missing) is Missing,
        resolution_of(w, base_url, platform, all.len()) == Outcome::<ResolutionModel, E>::Failed(
            FailureModel::ManifestNotFound(missing),
        ),
{
    let culprit = resolve_fails_without_a_manifest(w, base_url, platform, base, all, info);
    assert(readable(w, platform, culprit) || (w.read)(culprit) is Missing);
    culprit
}

/// Where all manifests that can be reached make sense, all that they depend on can
/// be located, and some of them has nothing for the platform, the resolution fails
/// because the platform is not supported.
pub proof fn resolve_fails_on_an_unsupported_platform<E>(
    w: World<E>,
    base_url: Seq<char>,
    platform: Seq<char>,
    base: InfoModel,
    all: Set<InfoModel>,
    info: InfoModel,
)
    requires
        (w.locate)(base_url) == Ok::<InfoModel, E>(base),
        all.finite(),
        all.len() <= usize::MAX,
        forall|to: InfoModel| #[trigger] reachable(w, platform, base, to) ==> all.contains(to),
        forall|to: InfoModel| #[trigger]
            reachable(w, platform, base, to) ==> (w.read)(to) is Found && (entry_of(w, platform, to)
                matches Some(entry) ==> all_located(w, entry.dependencies)),
        reachable(w, platform, base, info),
        entry_of(w, platform, info) is None,
    ensures
        resolution_of(w, base_url, platform, all.len()) == Outcome::<ResolutionModel, E>::Failed(
            FailureModel::Unsupported(platform),
        ),
{
    let culprit = resolve_fails_without_a_manifest(w, base_url, platform, base, all, info);
    assert((w.read)(culprit) is Found);
}

/// Whether `chain` leads from a manifest that can be reached back to itself.
pub open spec fn is_round<E>(
    w: World<E>,
    platform: Seq<char>,
    base: InfoModel,
    chain: Seq<InfoModel>,
) -> bool {
    &&& is_chain(w, platform, chain)
    &&& chain.len() > 1
    &&& chain[0] == chain.last()
    &&& reachable(w, platform, base, chain[0])
}

/// Whether some manifests that can be reached depend on each other in a circle.
pub open spec fn has_round<E>(w: World<E>, platform: Seq<char>, base: InfoModel) -> bool {
    exists|chain: Seq<InfoModel>| is_round(w, platform, base, chain)
}

/// The graph has a circle exactly where manifests that can be reached depend on
/// each other in a circle.
proof fn lemma_circle_is_round<E>(
    w: World<E>,
    platform: Seq<char>,
    base: InfoModel,
    g: GraphModel,
)
    requires
        graph_of_reachable(w, platform, base, g),
    ensures
        has_circle(g) <==> has_round(w, platform, base),
{
    if has_circle(g) {
        let circle = choose|circle: Seq<usize>| is_circle(g, circle);
        let chain = infos_at(g, circle).push(g.nodes[circle[0] as int].info);
        assert forall|i: int| 0 <= i < chain.len() - 1 implies depends(
            w,
            platform,
            #[trigger] chain[i],
            chain[i + 1],
        ) by {
            let n = circle[i] as int;
            let next = circle[around(i, circle.len())];
            assert(as_read(w, platform, g.nodes[n]) && complete(w, g, n));
            assert(chain[i + 1] == g.nodes[next as int].info);
            let k = choose|k: int| 0 <= k < g.deps[n].len() && g.deps[n][k] == next;
            assert(g.nodes[g.deps[n][k] as int].info == chain[i + 1]);
            lemma_depends_linked(w, platform, g, n, chain[i + 1]);
        }
        assert(g.nodes[circle[0] as int].info == chain[0]);
        assert(is_round(w, platform, base, chain));
    }
    if has_round(w, platform, base) {
        let chain = choose|chain: Seq<InfoModel>| is_round(w, platform, base, chain);
        let len = (chain.len() - 1) as nat;
        let place = |info: InfoModel|
            choose|n: int| 0 <= n < g.nodes.len() && (#[trigger] g.nodes[n]).info == info;
        let circle = Seq::new(len, |i: int| place(chain[i]) as usize);
        assert forall|i: int| 0 <= i <= len implies #[trigger] reachable(w, platform, base, chain[i]) by {
            lemma_along_chain(w, platform, base, chain, i);
        }
        assert forall|i: int| 0 <= i < circle.len() implies ({
            &&& (#[trigger] circle[i]) < g.nodes.len()
            &&& g.deps[circle[i] as int].contains(circle[around(i, circle.len())])
        }) by {
            assert(reachable(w, platform, base, chain[i]));
            assert(reachable(w, platform, base, chain[i + 1]));
            let n = place(chain[i]);
            let to = chain[i + 1];
            assert(g.nodes[n].info == chain[i]);
            assert(as_read(w, platform, g.nodes[n]) && complete(w, g, n));
            lemma_depends_linked(w, platform, g, n, to);
            assert(depends(w, platform, chain[i], chain[i + 1]));
            let k = choose|k: int|
                0 <= k < g.deps[n].len() && g.nodes[#[trigger] g.deps[n][k] as int].info == to;
            let next = place(to);
            assert(g.nodes[next].info == to);
            assert(g.deps[n][k] == next) by {
                if g.deps[n][k] < next {
                    assert(g.nodes[g.deps[n][k] as int].info != g.nodes[next].info);
                } else if next < g.deps[n][k] {
                    assert(g.nodes[next].info != g.nodes[g.deps[n][k] as int].info);
                }
            }
            assert(chain[around(i, circle.len())] == to);
            assert(circle[around(i, circle.len())] == next as usize);
        }
        assert(is_circle(g, circle));
    }
}

/// What a chain leads to can be reached if its start can.
proof fn lemma_along_chain<E>(
    w: World<E>,
    platform: Seq<char>,
    base: InfoModel,
    chain: Seq<InfoModel>,
    i: int,
)
    requires
        is_chain(w, platform, chain),
        reachable(w, platform, base, chain[0]),
        0 <= i < chain.len(),
    ensures
        reachable(w, platform, base, chain[i]),
    decreases i,
{
    if i > 0 {
        lemma_along_chain(w, platform, base, chain, i - 1);
        assert(depends(w, platform, chain[i - 1], chain[i - 1 + 1]));
        lemma_reachable_on(w, platform, base, chain[i - 1], chain[i]);
    }
}

/// Where all manifests that can be reached are there, the resolution fails for
/// circular dependencies exactly if some of them depend on each other in a circle.
pub proof fn resolve_fails_on_circles<E>(
    w: World<E>,
    base_url: Seq<char>,
    platform: Seq<char>,
    depth: nat,
)
    requires
        (w.locate)(base_url) is Ok,
        visit(w, platform, (w.locate)(base_url)->Ok_0, GraphModel::empty(), depth) is Done,
        visit(w, platform, (w.locate)(base_url)->Ok_0, GraphModel::empty(), depth)->Done_0.nodes.len()
            <= usize::MAX,
    ensures
        resolution_of(w, base_url, platform, depth) == Outcome::<ResolutionModel, E>::Failed(
            FailureModel::Circular(platform),
        ) <==> has_round(w, platform, (w.locate)(base_url)->Ok_0),
{
    let base = (w.locate)(base_url)->Ok_0;
    let g = visit(w, platform, base, GraphModel::empty(), depth)->Done_0;
    walk_reads_the_reachable(w, platform, base, depth);
    load_order_fails_on_circles(g, base_url);
    lemma_circle_is_round(w, platform, base, g);
}

/// Libraries that can all be located are located.
proof fn lemma_libraries_located<E>(w: World<E>, g: GraphModel, order: Seq<usize>, from: nat)
    requires
        forall|i: int|
            0 <= i < order.len() ==> (w.library)(
                g.nodes[#[trigger] order[i] as int].manifest.url,
                g.nodes[order[i] as int].manifest.name,
            ) is Ok,
    ensures
        libraries_of(w, g, order, from) is Ok,
    decreases order.len() - from,
{
    if from < order.len() {
        assert(order[from as int] == order[from as int]);
        lemma_libraries_located(w, g, order, from + 1);
    }
}

/// A resolution succeeds where the manifests that can be reached are finitely
/// many and readable, where none of them depends on itself, over any number of
/// manifests, and where the library file of each can be located.
pub proof fn resolve_succeeds<E>(
    w: World<E>,
    base_url: Seq<char>,
    platform: Seq<char>,
    base: InfoModel,
    all: Set<InfoModel>,
)
    requires
        (w.locate)(base_url) == Ok::<InfoModel, E>(base),
        all.finite(),
        all.len() <= usize::MAX,
        forall|to: InfoModel| #[trigger] reachable(w, platform, base, to) ==> all.contains(to),
        forall|to: InfoModel| #[trigger]
            reachable(w, platform, base, to) ==> readable(w, platform, to) && library_of(
                w,
                platform,
                to,
            ) is Ok,
        !has_round(w, platform, base),
    ensures
        resolution_of(w, base_url, platform, all.len()) is Done,
{
    walk_ends(w, platform, base, all);
    walk_succeeds(w, platform, base, all);
    let g = visit(w, platform, base, GraphModel::empty(), all.len())->Done_0;
    walk_reads_the_reachable(w, platform, base, all.len());
    resolve_fails_on_circles(w, base_url, platform, all.len());
    let order = order_of(g, base_url)->0;
    assert(order_of(g, base_url) is Some);
    load_order_puts_dependencies_first(g, base_url);
    assert forall|n: int| 0 <= n < g.nodes.len() implies (w.library)(
        (#[trigger] g.nodes[n]).manifest.url,
        g.nodes[n].manifest.name,
    ) is Ok by {
        assert(as_read(w, platform, g.nodes[n]));
        assert(reachable(w, platform, base, g.nodes[n].info));
    }
    assert forall|i: int| 0 <= i < order.len() implies (w.library)(
        g.nodes[#[trigger] order[i] as int].manifest.url,
        g.nodes[order[i] as int].manifest.name,
    ) is Ok by {
        assert(order.contains(order[i]));
    }
    lemma_libraries_located(w, g, order, 0);
}

} // verus!
