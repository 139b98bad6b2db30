//! What a resolution promises, said of the manifests as they are listed: which library
//! files it gives, in what order, and why it fails.
use vstd::prelude::*;

use crate::failure::FailureModel;
use crate::graph::GraphModel;
use crate::manifest::{platform_entry, DependencyModel, DllModel, InfoModel, PlatformModel};
use crate::manifest_laws::entry_is_listed_under_the_platform;
use crate::order::order_of;
use crate::order_laws::load_order_puts_dependencies_first;
use crate::reach_laws::{
    as_read, depends, fails_as, is_chain, reachable, unlocated_as, walk_ends,
    walk_fails_as_a_manifest_does, walk_reads_the_reachable, wanted,
};
use crate::resolve::{ResolutionModel, ResolveModel, StageModel};
use crate::resolve_laws::{
    entry_of, has_round, is_round, lemma_resolve_failed, lemma_resolve_joined, lemma_resolve_stays,
    libraries_of, library_of, resolution_of, resolve_comes_to_resolution,
    resolve_ends, resolve_fails_on_circles, resolve_puts_dependencies_first, resolve_run,
};
use crate::walk::ReplyModel;
use crate::walk_laws::{visit, Outcome, World};

verus! {

/// Whether a file lists `entry` under exactly this platform, and nothing under it before.
pub open spec fn entry_for(
    file: Seq<(Seq<char>, PlatformModel)>,
    platform: Seq<char>,
    entry: PlatformModel,
) -> bool {
    exists|i: int|
        0 <= i < file.len() && (#[trigger] file[i]).0 == platform && file[i].1 == entry && forall|
            j: int,
        |
            0 <= j < i ==> (#[trigger] file[j]).0 != platform
}

/// Whether a file lists nothing under this platform.
pub open spec fn nothing_for(file: Seq<(Seq<char>, PlatformModel)>, platform: Seq<char>) -> bool {
    forall|i: int| 0 <= i < file.len() ==> (#[trigger] file[i]).0 != platform
}

/// Whether the manifest `info` is there and lists `entry` for the platform.
pub open spec fn says<E>(
    w: World<E>,
    platform: Seq<char>,
    info: InfoModel,
    entry: PlatformModel,
) -> bool {
    (w.read)(info) matches ReplyModel::Found(file) && entry_for(file, platform, entry)
}

/// Whether a dependency is the pack whose manifest is at `to`.
pub open spec fn is_pack_at<E>(w: World<E>, dependency: DependencyModel, to: InfoModel) -> bool {
    dependency matches DependencyModel::DllPack { url } && (w.locate)(url) == Ok::<InfoModel, E>(to)
}

/// Whether the manifest `a` lists, among the dependencies for the platform, the pack
/// whose manifest is `b`.
pub open spec fn needs<E>(w: World<E>, platform: Seq<char>, a: InfoModel, b: InfoModel) -> bool {
    exists|entry: PlatformModel, i: int|
        #[trigger] says(w, platform, a, entry) && 0 <= i < entry.dependencies.len() && is_pack_at(
            w,
            #[trigger] entry.dependencies[i],
            b,
        )
}

/// Whether each manifest of `path` needs the next one.
pub open spec fn is_path<E>(w: World<E>, platform: Seq<char>, path: Seq<InfoModel>) -> bool {
    &&& path.len() > 0
    &&& forall|i: int|
        0 <= i < path.len() - 1 ==> needs(w, platform, #[trigger] path[i], path[i + 1])
}

/// Whether `to` is `base`, or needed by it over any number of manifests.
pub open spec fn needed<E>(
    w: World<E>,
    platform: Seq<char>,
    base: InfoModel,
    to: InfoModel,
) -> bool {
    exists|path: Seq<InfoModel>| #[trigger]
        is_path(w, platform, path) && path[0] == base && path.last() == to
}

/// Whether `path` leads from a manifest that is needed back to itself.
pub open spec fn is_circle_of<E>(
    w: World<E>,
    platform: Seq<char>,
    base: InfoModel,
    path: Seq<InfoModel>,
) -> bool {
    &&& is_path(w, platform, path)
    &&& path.len() > 1
    &&& path[0] == path.last()
    &&& needed(w, platform, base, path[0])
}

/// Whether `dll` is the library file that the manifest `info` lists for the platform:
/// the one that is kept under the URL and the name of its entry.
pub open spec fn gives<E>(
    w: World<E>,
    platform: Seq<char>,
    info: InfoModel,
    dll: DllModel,
) -> bool {
    exists|entry: PlatformModel| #[trigger]
        says(w, platform, info, entry) && (w.library)(entry.url, entry.name) == Ok::<DllModel, E>(dll)
}

/// Whether the failure `f` is one of the manifest `info`: it is missing or cannot be
/// read, lists nothing for the platform, or lists a pack or a library file that cannot
/// be located.
pub open spec fn blames<E>(
    w: World<E>,
    platform: Seq<char>,
    info: InfoModel,
    f: FailureModel<E>,
) -> bool {
    match (w.read)(info) {
        ReplyModel::Missing => f == FailureModel::<E>::ManifestNotFound(info),
        ReplyModel::Unreadable(e) => f == FailureModel::Outside(e),
        ReplyModel::Found(file) => {
            ||| nothing_for(file, platform) && f == FailureModel::<E>::Unsupported(platform)
            ||| exists|entry: PlatformModel, i: int|
                #[trigger] says(w, platform, info, entry) && 0 <= i < entry.dependencies.len()
                    && lost_pack(w, #[trigger] entry.dependencies[i], f)
            ||| exists|entry: PlatformModel| #[trigger]
                says(w, platform, info, entry) && ((w.library)(entry.url, entry.name) matches Err(e)
                    && f == FailureModel::Outside(e))
        },
    }
}

/// Whether a dependency is a pack that cannot be located, which is the failure `f`.
pub open spec fn lost_pack<E>(w: World<E>, dependency: DependencyModel, f: FailureModel<E>) -> bool {
    dependency matches DependencyModel::DllPack { url } && ((w.locate)(url) matches Err(e) && f
        == FailureModel::Outside(e))
}

/// Whether a resolution has come to its end.
pub open spec fn resolve_over<E>(r: Result<ResolveModel, FailureModel<E>>) -> bool {
    match r {
        Ok(m) => m.stage is Over,
        Err(_) => true,
    }
}

/// The entry that is read is the one that is listed.
pub proof fn lemma_says<E>(
    w: World<E>,
    platform: Seq<char>,
    info: InfoModel,
    entry: PlatformModel,
)
    ensures
        says(w, platform, info, entry) <==> entry_of(w, platform, info) == Some(entry),
{
    match (w.read)(info) {
        ReplyModel::Found(file) => {
            entry_is_listed_under_the_platform(file, platform);
            if entry_for(file, platform, entry) {
                let i = choose|i: int|
                    0 <= i < file.len() && (#[trigger] file[i]).0 == platform && file[i].1 == entry
                        && forall|j: int| 0 <= j < i ==> (#[trigger] file[j]).0 != platform;
                assert(platform_entry(file, platform) is Some);
                let m = platform_entry(file, platform)->0;
                let k = choose|k: int|
                    0 <= k < file.len() && (#[trigger] file[k]).0 == platform && file[k].1 == m
                        && forall|j: int| 0 <= j < k ==> (#[trigger] file[j]).0 != platform;
                if k < i {
                    assert(file[k].0 != platform);
                } else if i < k {
                    assert(file[i].0 != platform);
                }
            }
        },
        _ => {},
    }
}

/// What is wanted is what the dllpacks among the dependencies are located as.
proof fn lemma_wanted<E>(w: World<E>, deps: Seq<DependencyModel>, to: InfoModel)
    ensures
        wanted(w, deps).contains(Ok::<InfoModel, E>(to)) <==> exists|i: int|
            0 <= i < deps.len() && is_pack_at(w, #[trigger] deps[i], to),
    decreases deps.len(),
{
    let all = wanted(w, deps);
    let x = Ok::<InfoModel, E>(to);
    if deps.len() == 0 {
        assert(!all.contains(x));
    } else {
        let rest = deps.drop_first();
        lemma_wanted(w, rest, to);
        let more = wanted(w, rest);
        if exists|i: int| 0 <= i < deps.len() && is_pack_at(w, #[trigger] deps[i], to) {
            let i = choose|i: int| 0 <= i < deps.len() && is_pack_at(w, #[trigger] deps[i], to);
            if i == 0 {
                assert(all[0] == x);
            } else {
                assert(rest[i - 1] == deps[i]);
                let k = choose|k: int| 0 <= k < more.len() && more[k] == x;
                match deps[0] {
                    DependencyModel::RawLib { url, name } => {},
                    DependencyModel::DllPack { url } => {
                        assert(all[k + 1] == x);
                    },
                }
            }
            assert(all.contains(x));
        }
        if all.contains(x) {
            let k = choose|k: int| 0 <= k < all.len() && all[k] == x;
            match deps[0] {
                DependencyModel::RawLib { url, name } => {
                    assert(more.contains(x));
                },
                DependencyModel::DllPack { url } => {
                    if k == 0 {
                        assert(is_pack_at(w, deps[0], to));
                    } else {
                        assert(more[k - 1] == x);
                        assert(more.contains(x));
                    }
                },
            }
            if more.contains(x) {
                let i = choose|i: int| 0 <= i < rest.len() && is_pack_at(w, #[trigger] rest[i], to);
                assert(deps[i + 1] == rest[i]);
            }
        }
    }
}

/// What a manifest depends on is what it needs.
pub proof fn lemma_needs<E>(w: World<E>, platform: Seq<char>, a: InfoModel, b: InfoModel)
    ensures
        needs(w, platform, a, b) <==> depends(w, platform, a, b),
{
    match entry_of(w, platform, a) {
        Some(entry) => {
            lemma_says(w, platform, a, entry);
            lemma_wanted(w, entry.dependencies, b);
            if needs(w, platform, a, b) {
                let (other, i) = choose|other: PlatformModel, i: int|
                    #[trigger] says(w, platform, a, other) && 0 <= i < other.dependencies.len()
                        && is_pack_at(w, #[trigger] other.dependencies[i], b);
                lemma_says(w, platform, a, other);
                assert(is_pack_at(w, entry.dependencies[i], b));
            }
            if depends(w, platform, a, b) {
                let i = choose|i: int|
                    0 <= i < entry.dependencies.len() && is_pack_at(
                        w,
                        #[trigger] entry.dependencies[i],
                        b,
                    );
                assert(says(w, platform, a, entry));
                assert(is_pack_at(w, entry.dependencies[i], b));
            }
        },
        None => {
            if needs(w, platform, a, b) {
                let (other, i) = choose|other: PlatformModel, i: int|
                    #[trigger] says(w, platform, a, other) && 0 <= i < other.dependencies.len()
                        && is_pack_at(w, #[trigger] other.dependencies[i], b);
                lemma_says(w, platform, a, other);
            }
        },
    }
}

/// A chain is a path.
pub proof fn lemma_path<E>(w: World<E>, platform: Seq<char>, path: Seq<InfoModel>)
    ensures
        is_path(w, platform, path) <==> is_chain(w, platform, path),
{
    assert forall|i: int| 0 <= i < path.len() - 1 implies (needs(
        w,
        platform,
        #[trigger] path[i],
        path[i + 1],
    ) <==> depends(w, platform, path[i], path[i + 1])) by {
        lemma_needs(w, platform, path[i], path[i + 1]);
    }
    if is_path(w, platform, path) {
        assert forall|i: int| 0 <= i < path.len() - 1 implies depends(
            w,
            platform,
            #[trigger] path[i],
            path[i + 1],
        ) by {
            assert(needs(w, platform, path[i], path[i + 1]));
        }
    }
    if is_chain(w, platform, path) {
        assert forall|i: int| 0 <= i < path.len() - 1 implies needs(
            w,
            platform,
            #[trigger] path[i],
            path[i + 1],
        ) by {
            assert(depends(w, platform, path[i], path[i + 1]));
        }
    }
}

/// What can be reached is what is needed.
pub proof fn lemma_needed<E>(w: World<E>, platform: Seq<char>, base: InfoModel, to: InfoModel)
    ensures
        needed(w, platform, base, to) <==> reachable(w, platform, base, to),
{
    if needed(w, platform, base, to) {
        let path = choose|path: Seq<InfoModel>| #[trigger]
            is_path(w, platform, path) && path[0] == base && path.last() == to;
        lemma_path(w, platform, path);
    }
    if reachable(w, platform, base, to) {
        let chain = choose|chain: Seq<InfoModel>| #[trigger]
            is_chain(w, platform, chain) && chain[0] == base && chain.last() == to;
        lemma_path(w, platform, chain);
    }
}

/// A bound on what is needed is one on what can be reached.
pub proof fn lemma_bound<E>(
    w: World<E>,
    platform: Seq<char>,
    base: InfoModel,
    all: Set<InfoModel>,
)
    requires
        forall|to: InfoModel| #[trigger] needed(w, platform, base, to) ==> all.contains(to),
    ensures
        forall|to: InfoModel| #[trigger] reachable(w, platform, base, to) ==> all.contains(to),
{
    assert forall|to: InfoModel| #[trigger] reachable(w, platform, base, to) implies all.contains(to) by {
        lemma_needed(w, platform, base, to);
    }
}

/// Two runs of the same resolution that are over came to the same.
pub proof fn lemma_over_is_unique<E>(
    w: World<E>,
    m: Result<ResolveModel, FailureModel<E>>,
    a: nat,
    b: nat,
)
    requires
        resolve_over(resolve_run(w, m, a)),
        resolve_over(resolve_run(w, m, b)),
        a <= b,
    ensures
        resolve_run(w, m, a) == resolve_run(w, m, b),
{
    let more = (b - a) as nat;
    lemma_resolve_joined(w, m, a, more);
    assert(a + more == b);
    match resolve_run(w, m, a) {
        Ok(end) => {
            lemma_resolve_stays(w, end, more);
        },
        Err(failure) => {
            lemma_resolve_failed(w, failure, more);
        },
    }
}

/// A run of a resolution that is over came to what the resolution comes to.
pub proof fn lemma_resolution_of_run<E>(
    w: World<E>,
    base_url: Seq<char>,
    platform: Seq<char>,
    base: InfoModel,
    all: Set<InfoModel>,
    steps: nat,
)
    requires
        (w.locate)(base_url) == Ok::<InfoModel, E>(base),
        all.finite(),
        forall|to: InfoModel| #[trigger] needed(w, platform, base, to) ==> all.contains(to),
        resolve_over(
            resolve_run(
                w,
                Ok::<ResolveModel, FailureModel<E>>(ResolveModel::start(base_url, platform)),
                steps,
            ),
        ),
    ensures
        match resolve_run(
            w,
            Ok::<ResolveModel, FailureModel<E>>(ResolveModel::start(base_url, platform)),
            steps,
        ) {
            Ok(end) => resolution_of(w, base_url, platform, all.len()) == Outcome::<
                ResolutionModel,
                E,
            >::Done(end.stage->Over_0),
            Err(failure) => resolution_of(w, base_url, platform, all.len()) == Outcome::<
                ResolutionModel,
                E,
            >::Failed(failure),
        },
{
    let m = Ok::<ResolveModel, FailureModel<E>>(ResolveModel::start(base_url, platform));
    lemma_bound(w, platform, base, all);
    resolve_ends(w, base_url, platform, base, all);
    let other = resolve_comes_to_resolution(w, base_url, platform, all.len());
    if steps <= other {
        lemma_over_is_unique(w, m, steps, other);
    } else {
        lemma_over_is_unique(w, m, other, steps);
    }
}

/// A resolution comes to its end wherever finitely many manifests are needed.
pub proof fn resolve_comes_to_an_end<E>(
    w: World<E>,
    base_url: Seq<char>,
    platform: Seq<char>,
    base: InfoModel,
    all: Set<InfoModel>,
) -> (steps: nat)
    requires
        (w.locate)(base_url) == Ok::<InfoModel, E>(base),
        all.finite(),
        forall|to: InfoModel| #[trigger] needed(w, platform, base, to) ==> all.contains(to),
    ensures
        resolve_over(
            resolve_run(
                w,
                Ok::<ResolveModel, FailureModel<E>>(ResolveModel::start(base_url, platform)),
                steps,
            ),
        ),
{
    lemma_bound(w, platform, base, all);
    resolve_ends(w, base_url, platform, base, all);
    resolve_comes_to_resolution(w, base_url, platform, all.len())
}

/// A resolution whose base manifest cannot be located fails with that.
pub proof fn resolve_fails_without_a_place<E>(
    w: World<E>,
    base_url: Seq<char>,
    platform: Seq<char>,
    e: E,
    steps: nat,
)
    requires
        (w.locate)(base_url) == Err::<InfoModel, E>(e),
        steps > 0,
    ensures
        resolve_run(
            w,
            Ok::<ResolveModel, FailureModel<E>>(ResolveModel::start(base_url, platform)),
            steps,
        ) == Err::<ResolveModel, FailureModel<E>>(FailureModel::Outside(e)),
{
    lemma_resolve_failed(w, FailureModel::Outside(e), (steps - 1) as nat);
}

/// The library files that a resolution comes to, in their order.
pub proof fn lemma_libraries_given<E>(
    w: World<E>,
    base_url: Seq<char>,
    platform: Seq<char>,
    base: InfoModel,
    all: Set<InfoModel>,
    resolution: ResolutionModel,
) -> (infos: Seq<InfoModel>)
    requires
        (w.locate)(base_url) == Ok::<InfoModel, E>(base),
        all.finite(),
        all.len() <= usize::MAX,
        forall|to: InfoModel| #[trigger] needed(w, platform, base, to) ==> all.contains(to),
        resolution_of(w, base_url, platform, all.len()) == Outcome::<ResolutionModel, E>::Done(resolution),
    ensures
        gives(w, platform, base, resolution.main),
        infos.len() == resolution.dependencies.len(),
        forall|i: int|
            0 <= i < infos.len() ==> gives(
                w,
                platform,
                #[trigger] infos[i],
                resolution.dependencies[i],
            ),
        infos.no_duplicates(),
        forall|info: InfoModel| #[trigger]
            infos.contains(info) <==> (needed(w, platform, base, info) && info.url != base_url),
        forall|i: int, to: InfoModel|
            0 <= i < infos.len() && #[trigger] needs(w, platform, infos[i], to) && to.url != base_url
                ==> infos.take(i).contains(to),
{
    lemma_bound(w, platform, base, all);
    walk_ends(w, platform, base, all);
    let depth = all.len();
    let g = visit(w, platform, base, GraphModel::empty(), depth)->Done_0;
    let infos = resolve_puts_dependencies_first(w, base_url, platform, depth);
    walk_reads_the_reachable(w, platform, base, depth);
    assert forall|info: InfoModel| #[trigger] needed(w, platform, base, info) implies entry_of(
        w,
        platform,
        info,
    ) is Some by {
        lemma_needed(w, platform, base, info);
        let n = choose|n: int| 0 <= n < g.nodes.len() && (#[trigger] g.nodes[n]).info == info;
        assert(as_read(w, platform, g.nodes[n]));
    }
    assert(is_path(w, platform, seq![base]) && seq![base].last() == base);
    assert(needed(w, platform, base, base));
    lemma_gives(w, platform, base, resolution.main);
    assert forall|info: InfoModel| #[trigger]
        infos.contains(info) <==> (needed(w, platform, base, info) && info.url != base_url) by {
        lemma_needed(w, platform, base, info);
    }
    assert forall|i: int| 0 <= i < infos.len() implies gives(
        w,
        platform,
        #[trigger] infos[i],
        resolution.dependencies[i],
    ) by {
        assert(infos.contains(infos[i]));
        lemma_gives(w, platform, infos[i], resolution.dependencies[i]);
    }
    assert forall|i: int, to: InfoModel|
        0 <= i < infos.len() && #[trigger] needs(w, platform, infos[i], to) && to.url
            != base_url implies infos.take(i).contains(to) by {
        lemma_needs(w, platform, infos[i], to);
    }
    infos
}

/// A resolution that succeeds gives the library files that are listed: the main one is
/// that of the base manifest, and the others are those of all other manifests that are
/// needed, each once and each behind those that it needs. Each manifest that is needed
/// lists a library file for exactly this platform, and none needs itself, over any
/// number of manifests.
pub proof fn resolve_gives_what_is_needed<E>(
    w: World<E>,
    base_url: Seq<char>,
    platform: Seq<char>,
    base: InfoModel,
    all: Set<InfoModel>,
    steps: nat,
    resolution: ResolutionModel,
) -> (infos: Seq<InfoModel>)
    requires
        (w.locate)(base_url) == Ok::<InfoModel, E>(base),
        all.finite(),
        all.len() <= usize::MAX,
        forall|to: InfoModel| #[trigger] needed(w, platform, base, to) ==> all.contains(to),
        resolve_run(
            w,
            Ok::<ResolveModel, FailureModel<E>>(ResolveModel::start(base_url, platform)),
            steps,
        ) matches Ok(end) && end.stage == StageModel::Over(resolution),
    ensures
        gives(w, platform, base, resolution.main),
        infos.len() == resolution.dependencies.len(),
        forall|i: int|
            0 <= i < infos.len() ==> gives(
                w,
                platform,
                #[trigger] infos[i],
                resolution.dependencies[i],
            ),
        infos.no_duplicates(),
        forall|info: InfoModel| #[trigger]
            infos.contains(info) <==> (needed(w, platform, base, info) && info.url != base_url),
        forall|i: int, to: InfoModel|
            0 <= i < infos.len() && #[trigger] needs(w, platform, infos[i], to) && to.url != base_url
                ==> infos.take(i).contains(to),
        forall|info: InfoModel| #[trigger]
            needed(w, platform, base, info) ==> exists|entry: PlatformModel|
                says(w, platform, info, entry),
        forall|path: Seq<InfoModel>| !#[trigger] is_circle_of(w, platform, base, path),
{
    lemma_resolution_of_run(w, base_url, platform, base, all, steps);
    let infos = lemma_libraries_given(w, base_url, platform, base, all, resolution);
    lemma_bound(w, platform, base, all);
    walk_ends(w, platform, base, all);
    let depth = all.len();
    let g = visit(w, platform, base, GraphModel::empty(), depth)->Done_0;
    walk_reads_the_reachable(w, platform, base, depth);
    assert forall|info: InfoModel| #[trigger] needed(w, platform, base, info) implies exists|
        entry: PlatformModel,
    |
        says(w, platform, info, entry) by {
        lemma_needed(w, platform, base, info);
        let n = choose|n: int| 0 <= n < g.nodes.len() && (#[trigger] g.nodes[n]).info == info;
        assert(as_read(w, platform, g.nodes[n]));
        lemma_says(w, platform, info, g.nodes[n].manifest);
    }
    resolve_fails_on_circles(w, base_url, platform, depth);
    assert forall|path: Seq<InfoModel>| !#[trigger] is_circle_of(w, platform, base, path) by {
        if is_circle_of(w, platform, base, path) {
            lemma_path(w, platform, path);
            lemma_needed(w, platform, base, path[0]);
            assert(is_round(w, platform, base, path));
            assert(has_round(w, platform, base));
        }
    }
    infos
}

/// A library file that is located under an entry's URL and name is the one given.
proof fn lemma_gives<E>(w: World<E>, platform: Seq<char>, info: InfoModel, dll: DllModel)
    requires
        entry_of(w, platform, info) is Some,
        library_of(w, platform, info) == Ok::<DllModel, E>(dll),
    ensures
        gives(w, platform, info, dll),
{
    lemma_says(w, platform, info, entry_of(w, platform, info)->0);
}

/// The library file that cannot be located makes the listing of them fail.
proof fn lemma_library_lost<E>(w: World<E>, g: GraphModel, order: Seq<usize>, from: nat) -> (i: int)
    requires
        libraries_of(w, g, order, from) is Err,
    ensures
        0 <= i < order.len(),
        (w.library)(
            g.nodes[order[i] as int].manifest.url,
            g.nodes[order[i] as int].manifest.name,
        ) == Err::<DllModel, E>(libraries_of(w, g, order, from)->Err_0),
    decreases order.len() - from,
{
    let manifest = g.nodes[order[from as int] as int].manifest;
    match (w.library)(manifest.url, manifest.name) {
        Err(e) => from as int,
        Ok(dll) => lemma_library_lost(w, g, order, from + 1),
    }
}

/// Why a manifest that was read fails for want of its library file.
proof fn lemma_blames_library<E>(
    w: World<E>,
    platform: Seq<char>,
    g: GraphModel,
    n: int,
    e: E,
)
    requires
        0 <= n < g.nodes.len(),
        as_read(w, platform, g.nodes[n]),
        (w.library)(g.nodes[n].manifest.url, g.nodes[n].manifest.name) == Err::<DllModel, E>(e),
    ensures
        blames(w, platform, g.nodes[n].info, FailureModel::Outside(e)),
{
    let entry = entry_of(w, platform, g.nodes[n].info)->0;
    lemma_says(w, platform, g.nodes[n].info, entry);
    assert(says(w, platform, g.nodes[n].info, entry));
}

/// Why a manifest fails a walk.
pub proof fn lemma_blames<E>(w: World<E>, platform: Seq<char>, info: InfoModel, f: FailureModel<E>)
    requires
        fails_as(w, platform, info, f),
    ensures
        blames(w, platform, info, f),
{
    match (w.read)(info) {
        ReplyModel::Found(file) => {
            entry_is_listed_under_the_platform(file, platform);
            match platform_entry(file, platform) {
                None => {
                    assert(nothing_for(file, platform));
                },
                Some(entry) => {
                    lemma_says(w, platform, info, entry);
                    let i = choose|i: int|
                        0 <= i < entry.dependencies.len() && unlocated_as(
                            w,
                            #[trigger] entry.dependencies[i],
                            f,
                        );
                    assert(says(w, platform, info, entry));
                    assert(lost_pack(w, entry.dependencies[i], f));
                },
            }
        },
        _ => {},
    }
}

/// Why a resolution fails.
pub proof fn lemma_resolution_fails<E>(
    w: World<E>,
    base_url: Seq<char>,
    platform: Seq<char>,
    base: InfoModel,
    all: Set<InfoModel>,
    failure: FailureModel<E>,
) -> (culprit: InfoModel)
    requires
        (w.locate)(base_url) == Ok::<InfoModel, E>(base),
        all.finite(),
        all.len() <= usize::MAX,
        forall|to: InfoModel| #[trigger] needed(w, platform, base, to) ==> all.contains(to),
        resolution_of(w, base_url, platform, all.len()) == Outcome::<ResolutionModel, E>::Failed(
            failure,
        ),
    ensures
        needed(w, platform, base, culprit),
        ({
            ||| blames(w, platform, culprit, failure)
            ||| failure == FailureModel::<E>::Circular(platform) && exists|path: Seq<InfoModel>|
                is_circle_of(w, platform, base, path)
        }),
{
    lemma_bound(w, platform, base, all);
    walk_ends(w, platform, base, all);
    let depth = all.len();
    assert(is_path(w, platform, seq![base]) && seq![base].last() == base);
    match visit(w, platform, base, GraphModel::empty(), depth) {
        Outcome::Done(g) => {
            walk_reads_the_reachable(w, platform, base, depth);
            match order_of(g, base_url) {
                None => {
                    resolve_fails_on_circles(w, base_url, platform, depth);
                    let path = choose|path: Seq<InfoModel>| is_round(w, platform, base, path);
                    lemma_path(w, platform, path);
                    lemma_needed(w, platform, base, path[0]);
                    assert(is_circle_of(w, platform, base, path));
                    base
                },
                Some(order) => {
                    load_order_puts_dependencies_first(g, base_url);
                    if libraries_of(w, g, order, 0) is Err {
                        let i = lemma_library_lost(w, g, order, 0);
                        assert(order.contains(order[i]));
                        let n = order[i] as int;
                        assert(as_read(w, platform, g.nodes[n]));
                        lemma_blames_library(w, platform, g, n, libraries_of(w, g, order, 0)->Err_0);
                        lemma_needed(w, platform, base, g.nodes[n].info);
                        g.nodes[n].info
                    } else {
                        let manifest = g.nodes[0].manifest;
                        assert(as_read(w, platform, g.nodes[0]));
                        lemma_blames_library(
                            w,
                            platform,
                            g,
                            0,
                            (w.library)(manifest.url, manifest.name)->Err_0,
                        );
                        lemma_needed(w, platform, base, g.nodes[0].info);
                        g.nodes[0].info
                    }
                },
            }
        },
        _ => {
            let culprit = walk_fails_as_a_manifest_does(w, platform, base, depth);
            lemma_blames(w, platform, culprit, failure);
            lemma_needed(w, platform, base, culprit);
            culprit
        },
    }
}

/// A resolution fails for a reason: some manifests that are needed need each other in a
/// circle, or one that is needed is to blame. So one whose needed manifests all list the
/// platform does not fail for want of it, and one whose needed manifests are all there
/// misses none.
pub proof fn resolve_fails_for_a_reason<E>(
    w: World<E>,
    base_url: Seq<char>,
    platform: Seq<char>,
    base: InfoModel,
    all: Set<InfoModel>,
    steps: nat,
    failure: FailureModel<E>,
) -> (culprit: InfoModel)
    requires
        (w.locate)(base_url) == Ok::<InfoModel, E>(base),
        all.finite(),
        all.len() <= usize::MAX,
        forall|to: InfoModel| #[trigger] needed(w, platform, base, to) ==> all.contains(to),
        resolve_run(
            w,
            Ok::<ResolveModel, FailureModel<E>>(ResolveModel::start(base_url, platform)),
            steps,
        ) == Err::<ResolveModel, FailureModel<E>>(failure),
    ensures
        needed(w, platform, base, culprit),
        ({
            ||| blames(w, platform, culprit, failure)
            ||| failure == FailureModel::<E>::Circular(platform) && exists|path: Seq<InfoModel>|
                is_circle_of(w, platform, base, path)
        }),
{
    lemma_resolution_of_run(w, base_url, platform, base, all, steps);
    lemma_resolution_fails(w, base_url, platform, base, all, failure)
}

} // verus!
