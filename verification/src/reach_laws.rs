//! A walk reads what can be reached from its start, all of it and nothing else,
//! and it comes to an end.
use vstd::prelude::*;

use crate::failure::FailureModel;
use crate::graph::{lemma_add_wf, lemma_link_wf, lemma_place_of, place_of, GraphModel, NodeModel};
use crate::manifest::{platform_entry, DependencyModel, InfoModel};
use crate::walk::ReplyModel;
use crate::walk_laws::{visit, visit_deps, Outcome, World};

verus! {

/// Where the manifests of the dllpacks among `deps` are, in their order.
pub open spec fn wanted<E>(w: World<E>, deps: Seq<DependencyModel>) -> Seq<Result<InfoModel, E>>
    decreases deps.len(),
{
    if deps.len() == 0 {
        Seq::empty()
    } else {
        match deps[0] {
            DependencyModel::RawLib { url, name } => wanted(w, deps.drop_first()),
            DependencyModel::DllPack { url } => seq![(w.locate)(url)] + wanted(w, deps.drop_first()),
        }
    }
}

/// The manifests that `n` is linked to, in the order of the links.
pub open spec fn linked<E>(g: GraphModel, n: int) -> Seq<Result<InfoModel, E>> {
    g.deps[n].map_values(|d: usize| Ok::<InfoModel, E>(g.nodes[d as int].info))
}

/// Whether the entry of the manifest at `n` is what the world says.
pub open spec fn as_read<E>(w: World<E>, platform: Seq<char>, node: NodeModel) -> bool {
    &&& (w.read)(node.info) is Found
    &&& platform_entry((w.read)(node.info)->Found_0, platform) == Some(node.manifest)
}

/// Whether the manifest at `n` is linked to all its dllpacks and to nothing else.
pub open spec fn complete<E>(w: World<E>, g: GraphModel, n: int) -> bool {
    linked::<E>(g, n) == wanted(w, g.nodes[n].manifest.dependencies)
}

/// Whether `more` holds the manifests of `g` at their places.
pub open spec fn extends(g: GraphModel, more: GraphModel) -> bool {
    &&& g.nodes.len() <= more.nodes.len()
    &&& forall|n: int| 0 <= n < g.nodes.len() ==> #[trigger] more.nodes[n] == g.nodes[n]
}

/// Links between manifests of `g` mean the same in a graph that extends it.
proof fn lemma_linked_extends<E>(g: GraphModel, more: GraphModel, n: int)
    requires
        g.wf(),
        extends(g, more),
        0 <= n < g.nodes.len(),
        more.deps[n] == g.deps[n],
    ensures
        linked::<E>(more, n) == linked::<E>(g, n),
{
    assert forall|i: int| 0 <= i < g.deps[n].len() implies linked::<E>(more, n)[i] == linked::<E>(
        g,
        n,
    )[i] by {
        assert(g.deps[n][i] < g.nodes.len());
    }
    assert(linked::<E>(more, n) =~= linked::<E>(g, n));
}

/// One more link.
proof fn lemma_linked_push<E>(g: GraphModel, node: usize, dep: usize)
    requires
        g.wf(),
        node < g.nodes.len(),
        dep < g.nodes.len(),
    ensures
        linked::<E>(g.link(node, dep), node as int) == linked::<E>(g, node as int).push(
            Ok::<InfoModel, E>(g.nodes[dep as int].info),
        ),
{
    assert(linked::<E>(g.link(node, dep), node as int) =~= linked::<E>(g, node as int).push(
        Ok::<InfoModel, E>(g.nodes[dep as int].info),
    ));
}

/// A visit keeps the manifests that were read before.
pub proof fn lemma_visit_extends<E>(
    w: World<E>,
    platform: Seq<char>,
    info: InfoModel,
    g: GraphModel,
    depth: nat,
)
    ensures
        visit(w, platform, info, g, depth) matches Outcome::Done(more) ==> extends(g, more)
            && more.nodes.len() > g.nodes.len(),
    decreases depth, 0nat,
{
    if depth > 0 && (w.read)(info) is Found {
        match platform_entry((w.read)(info)->Found_0, platform) {
            None => {},
            Some(manifest) => {
                lemma_visit_deps_extends(
                    w,
                    platform,
                    g.nodes.len() as usize,
                    manifest.dependencies,
                    g.add(info, manifest),
                    (depth - 1) as nat,
                );
            },
        }
    }
}

pub proof fn lemma_visit_deps_extends<E>(
    w: World<E>,
    platform: Seq<char>,
    node: usize,
    deps: Seq<DependencyModel>,
    g: GraphModel,
    depth: nat,
)
    ensures
        visit_deps(w, platform, node, deps, g, depth) matches Outcome::Done(more) ==> extends(g, more),
    decreases depth, 1 + deps.len(),
{
    if deps.len() > 0 {
        let rest = deps.drop_first();
        match deps[0] {
            DependencyModel::RawLib { url, name } => {
                lemma_visit_deps_extends(w, platform, node, rest, g, depth);
            },
            DependencyModel::DllPack { url } => match (w.locate)(url) {
                Err(e) => {},
                Ok(info) => match place_of(g.nodes, info) {
                    Some(at) => {
                        lemma_visit_deps_extends(w, platform, node, rest, g.link(node, at), depth);
                    },
                    None => {
                        lemma_visit_extends(w, platform, info, g, depth);
                        match visit(w, platform, info, g, depth) {
                            Outcome::Done(more) => {
                                lemma_visit_deps_extends(
                                    w,
                                    platform,
                                    node,
                                    rest,
                                    more.link(node, g.nodes.len() as usize),
                                    depth,
                                );
                            },
                            _ => {},
                        }
                    },
                },
            },
        }
    }
}

/// Whether `more` is `g` with further manifests that are as the world says and
/// complete, and with no link added to one of `g`'s other than `except`.
pub open spec fn grown<E>(
    w: World<E>,
    platform: Seq<char>,
    g: GraphModel,
    more: GraphModel,
    except: int,
) -> bool {
    &&& more.wf()
    &&& extends(g, more)
    &&& forall|n: int|
        0 <= n < g.nodes.len() && n != except ==> #[trigger] more.deps[n] == g.deps[n]
    &&& forall|n: int|
        g.nodes.len() <= n < more.nodes.len() ==> as_read(w, platform, #[trigger] more.nodes[n])
            && complete(w, more, n)
}

/// Growing on after growing.
proof fn lemma_grown_on<E>(
    w: World<E>,
    platform: Seq<char>,
    g: GraphModel,
    mid: GraphModel,
    more: GraphModel,
    except: int,
)
    requires
        grown(w, platform, g, mid, except),
        grown(w, platform, mid, more, except),
        0 <= except < g.nodes.len(),
    ensures
        grown(w, platform, g, more, except),
{
    assert forall|n: int| 0 <= n < g.nodes.len() && n != except implies #[trigger] more.deps[n]
        == g.deps[n] by {
        assert(mid.deps[n] == g.deps[n]);
    }
    assert forall|n: int| 0 <= n < g.nodes.len() implies #[trigger] more.nodes[n] == g.nodes[n] by {
        assert(mid.nodes[n] == g.nodes[n]);
    }
    assert forall|n: int| g.nodes.len() <= n < more.nodes.len() implies as_read(
        w,
        platform,
        #[trigger] more.nodes[n],
    ) && complete(w, more, n) by {
        if n < mid.nodes.len() {
            assert(more.nodes[n] == mid.nodes[n]);
            assert(more.deps[n] == mid.deps[n]);
            lemma_linked_extends::<E>(mid, more, n);
        }
    }
}

/// A visit adds the manifest and all that it leads to, each complete.
proof fn lemma_visit_grows<E>(
    w: World<E>,
    platform: Seq<char>,
    info: InfoModel,
    g: GraphModel,
    depth: nat,
)
    requires
        g.wf(),
        place_of(g.nodes, info) is None,
    ensures
        visit(w, platform, info, g, depth) matches Outcome::Done(more) ==> more.nodes.len()
            <= usize::MAX ==> {
            &&& grown(w, platform, g, more, -1)
            &&& more.nodes.len() > g.nodes.len()
            &&& more.nodes[g.nodes.len() as int].info == info
        },
    decreases depth, 0nat,
{
    if depth > 0 && (w.read)(info) is Found {
        match platform_entry((w.read)(info)->Found_0, platform) {
            None => {},
            Some(manifest) => {
                let id = g.nodes.len() as usize;
                let added = g.add(info, manifest);
                let deps = manifest.dependencies;
                lemma_visit_deps_extends(w, platform, id, deps, added, (depth - 1) as nat);
                match visit_deps(w, platform, id, deps, added, (depth - 1) as nat) {
                    Outcome::Done(more) => {
                        if more.nodes.len() <= usize::MAX {
                            lemma_add_wf(g, info, manifest);
                            assert(linked::<E>(added, id as int) + wanted(w, deps) =~= wanted(w, deps));
                            lemma_visit_deps_grows(w, platform, id, deps, added, (depth - 1) as nat);
                            assert(more.nodes[id as int] == added.nodes[id as int]);
                            assert forall|n: int| 0 <= n < g.nodes.len() implies #[trigger] more.nodes[n]
                                == g.nodes[n] by {
                                assert(more.nodes[n] == added.nodes[n]);
                            }
                            assert forall|n: int|
                                0 <= n < g.nodes.len() && n != -1 implies #[trigger] more.deps[n]
                                == g.deps[n] by {
                                assert(more.deps[n] == added.deps[n]);
                            }
                        }
                    },
                    _ => {},
                }
            },
        }
    }
}

/// Following the dependencies that are left of `node` completes it.
proof fn lemma_visit_deps_grows<E>(
    w: World<E>,
    platform: Seq<char>,
    node: usize,
    deps: Seq<DependencyModel>,
    g: GraphModel,
    depth: nat,
)
    requires
        g.wf(),
        node < g.nodes.len(),
        linked::<E>(g, node as int) + wanted(w, deps) == wanted(
            w,
            g.nodes[node as int].manifest.dependencies,
        ),
    ensures
        visit_deps(w, platform, node, deps, g, depth) matches Outcome::Done(more)
            ==> more.nodes.len() <= usize::MAX ==> {
            &&& grown(w, platform, g, more, node as int)
            &&& complete(w, more, node as int)
        },
    decreases depth, 1 + 2 * deps.len(),
{
    let all = wanted(w, g.nodes[node as int].manifest.dependencies);
    if deps.len() == 0 {
        assert(linked::<E>(g, node as int) + wanted(w, deps) =~= linked::<E>(g, node as int));
    } else {
        let rest = deps.drop_first();
        match deps[0] {
            DependencyModel::RawLib { url, name } => {
                lemma_visit_deps_grows(w, platform, node, rest, g, depth);
            },
            DependencyModel::DllPack { url } => match (w.locate)(url) {
                Err(e) => {},
                Ok(info) => {
                    let here = linked::<E>(g, node as int);
                    assert(here.push(Ok(info)) + wanted(w, rest) =~= here + wanted(w, deps));
                    match place_of(g.nodes, info) {
                        Some(at) => {
                            lemma_place_of(g.nodes, info);
                            lemma_link_wf(g, node, at);
                            lemma_linked_push::<E>(g, node, at);
                            let next = g.link(node, at);
                            lemma_visit_deps_grows(w, platform, node, rest, next, depth);
                            match visit_deps(w, platform, node, rest, next, depth) {
                                Outcome::Done(more) => {
                                    if more.nodes.len() <= usize::MAX {
                                        assert(grown(w, platform, g, next, node as int));
                                        lemma_grown_on(w, platform, g, next, more, node as int);
                                    }
                                },
                                _ => {},
                            }
                        },
                        None => {
                            lemma_visit_grows(w, platform, info, g, depth);
                            match visit(w, platform, info, g, depth) {
                                Outcome::Done(mid) => {
                                    lemma_visit_deps_grows_on(w, platform, node, deps, g, depth, info, mid);
                                },
                                _ => {},
                            }
                        },
                    }
                },
            },
        }
    }
}

/// The case of `lemma_visit_deps_grows` in which the first dependency was not read before.
proof fn lemma_visit_deps_grows_on<E>(
    w: World<E>,
    platform: Seq<char>,
    node: usize,
    deps: Seq<DependencyModel>,
    g: GraphModel,
    depth: nat,
    info: InfoModel,
    mid: GraphModel,
)
    requires
        g.wf(),
        node < g.nodes.len(),
        deps.len() > 0,
        linked::<E>(g, node as int).push(Ok(info)) + wanted(w, deps.drop_first()) == wanted(
            w,
            g.nodes[node as int].manifest.dependencies,
        ),
        mid.nodes.len() <= usize::MAX ==> {
            &&& grown(w, platform, g, mid, -1)
            &&& mid.nodes.len() > g.nodes.len()
            &&& mid.nodes[g.nodes.len() as int].info == info
        },
    ensures
        visit_deps(
            w,
            platform,
            node,
            deps.drop_first(),
            mid.link(node, g.nodes.len() as usize),
            depth,
        ) matches Outcome::Done(more) ==> more.nodes.len() <= usize::MAX ==> {
            &&& grown(w, platform, g, more, node as int)
            &&& complete(w, more, node as int)
        },
    decreases depth, 2 * deps.len(),
{
    let id = g.nodes.len() as usize;
    let rest = deps.drop_first();
    let next = mid.link(node, id);
    lemma_visit_deps_extends(w, platform, node, rest, next, depth);
    match visit_deps(w, platform, node, rest, next, depth) {
        Outcome::Done(more) => {
            if more.nodes.len() <= usize::MAX {
                assert(mid.deps[node as int] == g.deps[node as int]);
                assert(mid.nodes[node as int] == g.nodes[node as int]);
                lemma_linked_extends::<E>(g, mid, node as int);
                lemma_link_wf(mid, node, id);
                lemma_linked_push::<E>(mid, node, id);
                lemma_visit_deps_grows(w, platform, node, rest, next, depth);
                assert(grown(w, platform, g, next, node as int)) by {
                    assert forall|n: int|
                        0 <= n < g.nodes.len() && n != node implies #[trigger] next.deps[n]
                        == g.deps[n] by {
                        assert(mid.deps[n] == g.deps[n]);
                    }
                    assert forall|n: int| 0 <= n < g.nodes.len() implies #[trigger] next.nodes[n]
                        == g.nodes[n] by {
                        assert(mid.nodes[n] == g.nodes[n]);
                    }
                    assert forall|n: int| g.nodes.len() <= n < next.nodes.len() implies as_read(
                        w,
                        platform,
                        #[trigger] next.nodes[n],
                    ) && complete(w, next, n) by {
                        assert(mid.nodes[n] == next.nodes[n]);
                        assert(mid.deps[n] == next.deps[n]);
                        lemma_linked_extends::<E>(mid, next, n);
                    }
                }
                lemma_grown_on(w, platform, g, next, more, node as int);
            }
        },
        _ => {},
    }
}

/// Whether the manifest `a` has an entry for the platform that depends on the manifest `b`.
pub open spec fn depends<E>(w: World<E>, platform: Seq<char>, a: InfoModel, b: InfoModel) -> bool {
    &&& (w.read)(a) is Found
    &&& platform_entry((w.read)(a)->Found_0, platform) is Some
    &&& wanted(w, platform_entry((w.read)(a)->Found_0, platform)->0.dependencies).contains(
        Ok::<InfoModel, E>(b),
    )
}

/// Whether each manifest of `chain` depends on the next one.
pub open spec fn is_chain<E>(w: World<E>, platform: Seq<char>, chain: Seq<InfoModel>) -> bool {
    &&& chain.len() > 0
    &&& forall|i: int|
        0 <= i < chain.len() - 1 ==> depends(w, platform, #[trigger] chain[i], chain[i + 1])
}

/// Whether `to` is `from` or something that it depends on, over any number of manifests.
pub open spec fn reachable<E>(
    w: World<E>,
    platform: Seq<char>,
    from: InfoModel,
    to: InfoModel,
) -> bool {
    exists|chain: Seq<InfoModel>| #[trigger]
        is_chain(w, platform, chain) && chain[0] == from && chain.last() == to
}

proof fn lemma_reachable_self<E>(w: World<E>, platform: Seq<char>, from: InfoModel)
    ensures
        reachable(w, platform, from, from),
{
    assert(is_chain(w, platform, seq![from]));
    assert(seq![from].last() == from);
}

pub proof fn lemma_reachable_on<E>(
    w: World<E>,
    platform: Seq<char>,
    from: InfoModel,
    mid: InfoModel,
    to: InfoModel,
)
    requires
        reachable(w, platform, from, mid),
        depends(w, platform, mid, to),
    ensures
        reachable(w, platform, from, to),
{
    let chain = choose|chain: Seq<InfoModel>| #[trigger]
        is_chain(w, platform, chain) && chain[0] == from && chain.last() == mid;
    let longer = chain.push(to);
    assert forall|i: int| 0 <= i < longer.len() - 1 implies depends(
        w,
        platform,
        #[trigger] longer[i],
        longer[i + 1],
    ) by {
        assert(longer[i] == chain[i]);
        if i + 1 < chain.len() {
            assert(longer[i + 1] == chain[i + 1]);
        }
    }
    assert(is_chain(w, platform, longer));
    assert(longer[0] == from);
    assert(longer.last() == to);
}

/// Whether each of the places of `deps` that are still wanted is one that `user` depends on.
spec fn all_wanted_by<E>(
    w: World<E>,
    platform: Seq<char>,
    user: InfoModel,
    deps: Seq<DependencyModel>,
) -> bool {
    forall|to: InfoModel| #[trigger]
        wanted(w, deps).contains(Ok::<InfoModel, E>(to)) ==> depends(w, platform, user, to)
}

proof fn lemma_wanted_rest<E>(
    w: World<E>,
    platform: Seq<char>,
    user: InfoModel,
    deps: Seq<DependencyModel>,
)
    requires
        deps.len() > 0,
        all_wanted_by(w, platform, user, deps),
    ensures
        all_wanted_by(w, platform, user, deps.drop_first()),
        deps[0] matches DependencyModel::DllPack { url } ==> (w.locate)(url) matches Ok(info)
            ==> depends(w, platform, user, info),
{
    let rest = wanted(w, deps.drop_first());
    let all = wanted(w, deps);
    match deps[0] {
        DependencyModel::RawLib { url, name } => {},
        DependencyModel::DllPack { url } => {
            assert(all[0] == (w.locate)(url));
            match (w.locate)(url) {
                Ok(info) => {
                    assert(all.contains(Ok::<InfoModel, E>(info)));
                },
                Err(e) => {},
            }
            assert forall|to: InfoModel| #[trigger] rest.contains(Ok::<InfoModel, E>(to)) implies depends(
                w,
                platform,
                user,
                to,
            ) by {
                let i = choose|i: int| 0 <= i < rest.len() && rest[i] == Ok::<InfoModel, E>(to);
                assert(all[i + 1] == rest[i]);
                assert(all.contains(Ok::<InfoModel, E>(to)));
            }
        },
    }
}

/// Whether the manifests that `more` has beyond `g` can be reached from `base`.
pub open spec fn new_reachable<E>(
    w: World<E>,
    platform: Seq<char>,
    base: InfoModel,
    g: GraphModel,
    more: GraphModel,
) -> bool {
    forall|n: int|
        g.nodes.len() <= n < more.nodes.len() ==> reachable(
            w,
            platform,
            base,
            (#[trigger] more.nodes[n]).info,
        )
}

/// A visit reads nothing but what can be reached.
proof fn lemma_visit_reaches<E>(
    w: World<E>,
    platform: Seq<char>,
    base: InfoModel,
    info: InfoModel,
    g: GraphModel,
    depth: nat,
)
    requires
        reachable(w, platform, base, info),
    ensures
        visit(w, platform, info, g, depth) matches Outcome::Done(more) ==> new_reachable(
            w,
            platform,
            base,
            g,
            more,
        ),
    decreases depth, 0nat,
{
    if depth > 0 && (w.read)(info) is Found {
        match platform_entry((w.read)(info)->Found_0, platform) {
            None => {},
            Some(manifest) => {
                let id = g.nodes.len() as usize;
                let added = g.add(info, manifest);
                let deps = manifest.dependencies;
                lemma_visit_deps_reaches(w, platform, base, info, id, deps, added, (depth - 1) as nat);
                lemma_visit_deps_extends(w, platform, id, deps, added, (depth - 1) as nat);
                match visit_deps(w, platform, id, deps, added, (depth - 1) as nat) {
                    Outcome::Done(more) => {
                        assert(more.nodes[g.nodes.len() as int] == added.nodes[g.nodes.len() as int]);
                    },
                    _ => {},
                }
            },
        }
    }
}

proof fn lemma_visit_deps_reaches<E>(
    w: World<E>,
    platform: Seq<char>,
    base: InfoModel,
    user: InfoModel,
    node: usize,
    deps: Seq<DependencyModel>,
    g: GraphModel,
    depth: nat,
)
    requires
        reachable(w, platform, base, user),
        all_wanted_by(w, platform, user, deps),
    ensures
        visit_deps(w, platform, node, deps, g, depth) matches Outcome::Done(more) ==> new_reachable(
            w,
            platform,
            base,
            g,
            more,
        ),
    decreases depth, 1 + deps.len(),
{
    if deps.len() > 0 {
        let rest = deps.drop_first();
        lemma_wanted_rest(w, platform, user, deps);
        match deps[0] {
            DependencyModel::RawLib { url, name } => {
                lemma_visit_deps_reaches(w, platform, base, user, node, rest, g, depth);
            },
            DependencyModel::DllPack { url } => match (w.locate)(url) {
                Err(e) => {},
                Ok(info) => match place_of(g.nodes, info) {
                    Some(at) => {
                        lemma_visit_deps_reaches(
                            w,
                            platform,
                            base,
                            user,
                            node,
                            rest,
                            g.link(node, at),
                            depth,
                        );
                    },
                    None => {
                        lemma_reachable_on(w, platform, base, user, info);
                        lemma_visit_reaches(w, platform, base, info, g, depth);
                        lemma_visit_extends(w, platform, info, g, depth);
                        match visit(w, platform, info, g, depth) {
                            Outcome::Done(mid) => {
                                let next = mid.link(node, g.nodes.len() as usize);
                                lemma_visit_deps_reaches(
                                    w,
                                    platform,
                                    base,
                                    user,
                                    node,
                                    rest,
                                    next,
                                    depth,
                                );
                                lemma_visit_deps_extends(w, platform, node, rest, next, depth);
                                match visit_deps(w, platform, node, rest, next, depth) {
                                    Outcome::Done(more) => {
                                        assert forall|n: int|
                                            g.nodes.len() <= n < more.nodes.len() implies reachable(
                                            w,
                                            platform,
                                            base,
                                            (#[trigger] more.nodes[n]).info,
                                        ) by {
                                            if n < mid.nodes.len() {
                                                assert(more.nodes[n] == next.nodes[n]);
                                                assert(mid.nodes[n] == more.nodes[n]);
                                            }
                                        }
                                    },
                                    _ => {},
                                }
                            },
                            _ => {},
                        }
                    },
                },
            },
        }
    }
}

/// What the graph of a walk holds: the base manifest first, each manifest as it
/// was read, linked to all its dllpacks in their order, and of all manifests
/// exactly those that can be reached from the base.
pub open spec fn graph_of_reachable<E>(
    w: World<E>,
    platform: Seq<char>,
    base: InfoModel,
    g: GraphModel,
) -> bool {
    &&& g.wf()
    &&& g.nodes.len() > 0
    &&& g.nodes[0].info == base
    &&& forall|n: int|
        0 <= n < g.nodes.len() ==> as_read(w, platform, #[trigger] g.nodes[n]) && complete(w, g, n)
    &&& forall|info: InfoModel| #[trigger]
        reachable(w, platform, base, info) <==> exists|n: int|
            0 <= n < g.nodes.len() && (#[trigger] g.nodes[n]).info == info
}

/// In a graph of complete manifests the end of a chain is there if its start is.
proof fn lemma_chain_in_graph<E>(
    w: World<E>,
    platform: Seq<char>,
    g: GraphModel,
    chain: Seq<InfoModel>,
    i: int,
) -> (n: int)
    requires
        g.wf(),
        g.nodes.len() > 0,
        g.nodes[0].info == chain[0],
        forall|n: int|
            0 <= n < g.nodes.len() ==> as_read(w, platform, #[trigger] g.nodes[n]) && complete(w, g, n),
        is_chain(w, platform, chain),
        0 <= i < chain.len(),
    ensures
        0 <= n < g.nodes.len(),
        g.nodes[n].info == chain[i],
    decreases i,
{
    if i == 0 {
        0
    } else {
        let m = lemma_chain_in_graph(w, platform, g, chain, i - 1);
        assert(as_read(w, platform, g.nodes[m]) && complete(w, g, m));
        assert(depends(w, platform, chain[i - 1], chain[i - 1 + 1]));
        let all = linked::<E>(g, m);
        let k = choose|k: int| 0 <= k < all.len() && all[k] == Ok::<InfoModel, E>(chain[i]);
        assert(g.deps[m][k] < g.nodes.len());
        g.deps[m][k] as int
    }
}

/// A walk that comes to an end without failure has read what can be reached from
/// the base manifest, all of it and nothing else.
pub proof fn walk_reads_the_reachable<E>(
    w: World<E>,
    platform: Seq<char>,
    base: InfoModel,
    depth: nat,
)
    requires
        visit(w, platform, base, GraphModel::empty(), depth) is Done,
        visit(w, platform, base, GraphModel::empty(), depth)->Done_0.nodes.len() <= usize::MAX,
    ensures
        graph_of_reachable(
            w,
            platform,
            base,
            visit(w, platform, base, GraphModel::empty(), depth)->Done_0,
        ),
{
    let g = visit(w, platform, base, GraphModel::empty(), depth)->Done_0;
    lemma_visit_grows(w, platform, base, GraphModel::empty(), depth);
    lemma_reachable_self(w, platform, base);
    lemma_visit_reaches(w, platform, base, base, GraphModel::empty(), depth);
    assert forall|info: InfoModel| #[trigger]
        reachable(w, platform, base, info) <==> exists|n: int|
            0 <= n < g.nodes.len() && (#[trigger] g.nodes[n]).info == info by {
        if reachable(w, platform, base, info) {
            let chain = choose|chain: Seq<InfoModel>| #[trigger]
                is_chain(w, platform, chain) && chain[0] == base && chain.last() == info;
            let n = lemma_chain_in_graph(w, platform, g, chain, chain.len() - 1);
            assert(g.nodes[n].info == info);
        }
    }
}

/// Whether no manifest occurs twice, and all are among `all`.
spec fn distinct_among(g: GraphModel, all: Set<InfoModel>) -> bool {
    &&& forall|i: int, j: int|
        0 <= i < j < g.nodes.len() ==> (#[trigger] g.nodes[i]).info != (#[trigger] g.nodes[j]).info
    &&& forall|i: int| 0 <= i < g.nodes.len() ==> all.contains((#[trigger] g.nodes[i]).info)
}

/// Distinct manifests among `all`, and one more, are no more than there are in `all`.
proof fn lemma_room(g: GraphModel, all: Set<InfoModel>, info: InfoModel)
    requires
        all.finite(),
        distinct_among(g, all),
        all.contains(info),
        place_of(g.nodes, info) is None,
    ensures
        g.nodes.len() < all.len(),
{
    let infos = g.nodes.map_values(|n: NodeModel| n.info).push(info);
    lemma_absent(g.nodes, info);
    assert(infos.no_duplicates()) by {
        assert forall|i: int, j: int| 0 <= i < infos.len() && 0 <= j < infos.len() && i != j implies infos[i]
            != infos[j] by {
            if i < j && j < g.nodes.len() {
                assert(g.nodes[i].info != g.nodes[j].info);
            } else if j < i && i < g.nodes.len() {
                assert(g.nodes[j].info != g.nodes[i].info);
            } else if i < g.nodes.len() {
                assert(g.nodes[i].info != info);
            } else {
                assert(g.nodes[j].info != info);
            }
        }
    }
    infos.unique_seq_to_set();
    assert(infos.to_set().subset_of(all)) by {
        assert forall|x: InfoModel| infos.to_set().contains(x) implies all.contains(x) by {
            let i = choose|i: int| 0 <= i < infos.len() && infos[i] == x;
            if i < g.nodes.len() {
                assert(all.contains(g.nodes[i].info));
            }
        }
    }
    vstd::set_lib::lemma_len_subset(infos.to_set(), all);
}

proof fn lemma_absent(nodes: Seq<NodeModel>, info: InfoModel)
    requires
        place_of(nodes, info) is None,
    ensures
        forall|i: int| 0 <= i < nodes.len() ==> (#[trigger] nodes[i]).info != info,
    decreases nodes.len(),
{
    if nodes.len() > 0 {
        lemma_absent(nodes.drop_last(), info);
        assert forall|i: int| 0 <= i < nodes.len() implies (#[trigger] nodes[i]).info != info by {
            if i < nodes.len() - 1 {
                assert(nodes.drop_last()[i] == nodes[i]);
            }
        }
    }
}

/// A visit ends where no more than `all` can be reached.
proof fn lemma_visit_ends<E>(
    w: World<E>,
    platform: Seq<char>,
    base: InfoModel,
    info: InfoModel,
    g: GraphModel,
    depth: nat,
    all: Set<InfoModel>,
)
    requires
        all.finite(),
        forall|to: InfoModel| #[trigger] reachable(w, platform, base, to) ==> all.contains(to),
        reachable(w, platform, base, info),
        distinct_among(g, all),
        place_of(g.nodes, info) is None,
        g.nodes.len() + depth >= all.len(),
    ensures
        !(visit(w, platform, info, g, depth) is Endless),
        visit(w, platform, info, g, depth) matches Outcome::Done(more) ==> distinct_among(more, all),
    decreases depth, 0nat,
{
    lemma_room(g, all, info);
    if (w.read)(info) is Found {
        match platform_entry((w.read)(info)->Found_0, platform) {
            None => {},
            Some(manifest) => {
                let added = g.add(info, manifest);
                lemma_absent(g.nodes, info);
                lemma_visit_deps_ends(
                    w,
                    platform,
                    base,
                    info,
                    g.nodes.len() as usize,
                    manifest.dependencies,
                    added,
                    (depth - 1) as nat,
                    all,
                );
            },
        }
    }
}

proof fn lemma_visit_deps_ends<E>(
    w: World<E>,
    platform: Seq<char>,
    base: InfoModel,
    user: InfoModel,
    node: usize,
    deps: Seq<DependencyModel>,
    g: GraphModel,
    depth: nat,
    all: Set<InfoModel>,
)
    requires
        all.finite(),
        forall|to: InfoModel| #[trigger] reachable(w, platform, base, to) ==> all.contains(to),
        reachable(w, platform, base, user),
        all_wanted_by(w, platform, user, deps),
        distinct_among(g, all),
        g.nodes.len() + depth >= all.len(),
    ensures
        !(visit_deps(w, platform, node, deps, g, depth) is Endless),
        visit_deps(w, platform, node, deps, g, depth) matches Outcome::Done(more) ==> distinct_among(
            more,
            all,
        ),
    decreases depth, 1 + deps.len(),
{
    if deps.len() > 0 {
        let rest = deps.drop_first();
        lemma_wanted_rest(w, platform, user, deps);
        match deps[0] {
            DependencyModel::RawLib { url, name } => {
                lemma_visit_deps_ends(w, platform, base, user, node, rest, g, depth, all);
            },
            DependencyModel::DllPack { url } => match (w.locate)(url) {
                Err(e) => {},
                Ok(info) => match place_of(g.nodes, info) {
                    Some(at) => {
                        lemma_visit_deps_ends(
                            w,
                            platform,
                            base,
                            user,
                            node,
                            rest,
                            g.link(node, at),
                            depth,
                            all,
                        );
                    },
                    None => {
                        lemma_reachable_on(w, platform, base, user, info);
                        lemma_visit_ends(w, platform, base, info, g, depth, all);
                        lemma_visit_extends(w, platform, info, g, depth);
                        match visit(w, platform, info, g, depth) {
                            Outcome::Done(mid) => {
                                lemma_visit_deps_ends(
                                    w,
                                    platform,
                                    base,
                                    user,
                                    node,
                                    rest,
                                    mid.link(node, g.nodes.len() as usize),
                                    depth,
                                    all,
                                );
                            },
                            _ => {},
                        }
                    },
                },
            },
        }
    }
}

/// A walk comes to an end wherever finitely many manifests can be reached, also
/// where they depend on each other in circles.
pub proof fn walk_ends<E>(
    w: World<E>,
    platform: Seq<char>,
    base: InfoModel,
    all: Set<InfoModel>,
)
    requires
        all.finite(),
        forall|to: InfoModel| #[trigger] reachable(w, platform, base, to) ==> all.contains(to),
    ensures
        !(visit(w, platform, base, GraphModel::empty(), all.len()) is Endless),
        visit(w, platform, base, GraphModel::empty(), all.len()) matches Outcome::Done(g)
            ==> g.nodes.len() <= all.len(),
{
    lemma_reachable_self(w, platform, base);
    lemma_visit_ends(w, platform, base, base, GraphModel::empty(), all.len(), all);
    match visit(w, platform, base, GraphModel::empty(), all.len()) {
        Outcome::Done(g) => {
            let infos = g.nodes.map_values(|n: NodeModel| n.info);
            assert(infos.no_duplicates()) by {
                assert forall|i: int, j: int|
                    0 <= i < infos.len() && 0 <= j < infos.len() && i != j implies infos[i]
                    != infos[j] by {
                    if i < j {
                        assert(g.nodes[i].info != g.nodes[j].info);
                    } else {
                        assert(g.nodes[j].info != g.nodes[i].info);
                    }
                }
            }
            infos.unique_seq_to_set();
            assert(infos.to_set().subset_of(all)) by {
                assert forall|x: InfoModel| infos.to_set().contains(x) implies all.contains(x) by {
                    let i = choose|i: int| 0 <= i < infos.len() && infos[i] == x;
                    assert(all.contains(g.nodes[i].info));
                }
            }
            vstd::set_lib::lemma_len_subset(infos.to_set(), all);
        },
        _ => {},
    }
}

/// Whether a manifest can be read, has an entry for the platform, and all that
/// it depends on can be located.
pub open spec fn readable<E>(w: World<E>, platform: Seq<char>, info: InfoModel) -> bool {
    &&& (w.read)(info) is Found
    &&& platform_entry((w.read)(info)->Found_0, platform) is Some
    &&& all_located(w, platform_entry((w.read)(info)->Found_0, platform)->0.dependencies)
}

/// Whether all dllpacks among `deps` can be located.
pub open spec fn all_located<E>(w: World<E>, deps: Seq<DependencyModel>) -> bool {
    forall|i: int| 0 <= i < deps.len() ==> match #[trigger] deps[i] {
        DependencyModel::DllPack { url } => (w.locate)(url) is Ok,
        DependencyModel::RawLib { url, name } => true,
    }
}

/// A visit does not fail where all that can be reached is readable.
proof fn lemma_visit_succeeds<E>(
    w: World<E>,
    platform: Seq<char>,
    base: InfoModel,
    info: InfoModel,
    g: GraphModel,
    depth: nat,
)
    requires
        reachable(w, platform, base, info),
        forall|to: InfoModel| #[trigger]
            reachable(w, platform, base, to) ==> readable(w, platform, to),
    ensures
        !(visit(w, platform, info, g, depth) is Failed),
    decreases depth, 0nat,
{
    if depth > 0 {
        assert(readable(w, platform, info));
        let manifest = platform_entry((w.read)(info)->Found_0, platform)->0;
        lemma_visit_deps_succeeds(
            w,
            platform,
            base,
            info,
            g.nodes.len() as usize,
            manifest.dependencies,
            g.add(info, manifest),
            (depth - 1) as nat,
        );
    }
}

proof fn lemma_visit_deps_succeeds<E>(
    w: World<E>,
    platform: Seq<char>,
    base: InfoModel,
    user: InfoModel,
    node: usize,
    deps: Seq<DependencyModel>,
    g: GraphModel,
    depth: nat,
)
    requires
        reachable(w, platform, base, user),
        forall|to: InfoModel| #[trigger]
            reachable(w, platform, base, to) ==> readable(w, platform, to),
        all_wanted_by(w, platform, user, deps),
        all_located(w, deps),
    ensures
        !(visit_deps(w, platform, node, deps, g, depth) is Failed),
    decreases depth, 1 + deps.len(),
{
    if deps.len() > 0 {
        let rest = deps.drop_first();
        lemma_wanted_rest(w, platform, user, deps);
        assert(all_located(w, rest)) by {
            assert forall|i: int| 0 <= i < rest.len() implies match #[trigger] rest[i] {
                DependencyModel::DllPack { url } => (w.locate)(url) is Ok,
                DependencyModel::RawLib { url, name } => true,
            } by {
                assert(rest[i] == deps[i + 1]);
            }
        }
        match deps[0] {
            DependencyModel::RawLib { url, name } => {
                lemma_visit_deps_succeeds(w, platform, base, user, node, rest, g, depth);
            },
            DependencyModel::DllPack { url } => {
                let info = (w.locate)(url)->Ok_0;
                match place_of(g.nodes, info) {
                    Some(at) => {
                        let next = g.link(node, at);
                        lemma_visit_deps_succeeds(w, platform, base, user, node, rest, next, depth);
                    },
                    None => {
                        lemma_reachable_on(w, platform, base, user, info);
                        lemma_visit_succeeds(w, platform, base, info, g, depth);
                        match visit(w, platform, info, g, depth) {
                            Outcome::Done(mid) => {
                                let next = mid.link(node, g.nodes.len() as usize);
                                lemma_visit_deps_succeeds(
                                    w,
                                    platform,
                                    base,
                                    user,
                                    node,
                                    rest,
                                    next,
                                    depth,
                                );
                            },
                            _ => {},
                        }
                    },
                }
            },
        }
    }
}

/// A walk succeeds where all manifests that can be reached are readable and
/// finitely many, also where they depend on each other in circles.
pub proof fn walk_succeeds<E>(
    w: World<E>,
    platform: Seq<char>,
    base: InfoModel,
    all: Set<InfoModel>,
)
    requires
        all.finite(),
        forall|to: InfoModel| #[trigger] reachable(w, platform, base, to) ==> all.contains(to),
        forall|to: InfoModel| #[trigger]
            reachable(w, platform, base, to) ==> readable(w, platform, to),
    ensures
        visit(w, platform, base, GraphModel::empty(), all.len()) is Done,
{
    walk_ends(w, platform, base, all);
    lemma_reachable_self(w, platform, base);
    lemma_visit_succeeds(w, platform, base, base, GraphModel::empty(), all.len());
}

/// Whether a dependency cannot be located, which is the failure `f`.
pub open spec fn unlocated_as<E>(w: World<E>, dependency: DependencyModel, f: FailureModel<E>) -> bool {
    dependency matches DependencyModel::DllPack { url } && (w.locate)(url) matches Err(e) && f
        == FailureModel::Outside(e)
}

/// Whether reading the manifest `info`, or locating what it depends on, is the failure `f`.
pub open spec fn fails_as<E>(
    w: World<E>,
    platform: Seq<char>,
    info: InfoModel,
    f: FailureModel<E>,
) -> bool {
    match (w.read)(info) {
        ReplyModel::Missing => f == FailureModel::<E>::ManifestNotFound(info),
        ReplyModel::Unreadable(e) => f == FailureModel::Outside(e),
        ReplyModel::Found(file) => match platform_entry(file, platform) {
            None => f == FailureModel::<E>::Unsupported(platform),
            Some(entry) => exists|i: int|
                0 <= i < entry.dependencies.len() && unlocated_as(
                    w,
                    #[trigger] entry.dependencies[i],
                    f,
                ),
        },
    }
}

/// A visit fails only as some manifest that can be reached does.
proof fn lemma_visit_fails<E>(
    w: World<E>,
    platform: Seq<char>,
    base: InfoModel,
    info: InfoModel,
    g: GraphModel,
    depth: nat,
) -> (culprit: InfoModel)
    requires
        reachable(w, platform, base, info),
    ensures
        visit(w, platform, info, g, depth) matches Outcome::Failed(f) ==> reachable(
            w,
            platform,
            base,
            culprit,
        ) && fails_as(w, platform, culprit, f),
    decreases depth, 0nat,
{
    if depth > 0 && (w.read)(info) is Found {
        match platform_entry((w.read)(info)->Found_0, platform) {
            None => info,
            Some(manifest) => {
                let deps = manifest.dependencies;
                assert(deps.skip(0) =~= deps);
                lemma_visit_deps_fails(
                    w,
                    platform,
                    base,
                    info,
                    g.nodes.len() as usize,
                    deps,
                    g.add(info, manifest),
                    (depth - 1) as nat,
                    0,
                )
            },
        }
    } else {
        info
    }
}

/// Following the dependencies `deps`, which are those of `user` from the one at
/// `from` on, fails only as `user` or some other manifest that can be reached does.
proof fn lemma_visit_deps_fails<E>(
    w: World<E>,
    platform: Seq<char>,
    base: InfoModel,
    user: InfoModel,
    node: usize,
    deps: Seq<DependencyModel>,
    g: GraphModel,
    depth: nat,
    from: nat,
) -> (culprit: InfoModel)
    requires
        reachable(w, platform, base, user),
        all_wanted_by(w, platform, user, deps),
        (w.read)(user) is Found,
        platform_entry((w.read)(user)->Found_0, platform) is Some,
        ({
            let all = platform_entry((w.read)(user)->Found_0, platform)->0.dependencies;
            from + deps.len() == all.len() && deps == all.skip(from as int)
        }),
    ensures
        visit_deps(w, platform, node, deps, g, depth) matches Outcome::Failed(f) ==> reachable(
            w,
            platform,
            base,
            culprit,
        ) && fails_as(w, platform, culprit, f),
    decreases depth, 1 + deps.len(),
{
    let all = platform_entry((w.read)(user)->Found_0, platform)->0.dependencies;
    if deps.len() > 0 {
        let rest = deps.drop_first();
        lemma_wanted_rest(w, platform, user, deps);
        assert(rest =~= all.skip((from + 1) as int));
        assert(deps[0] == all[from as int]);
        match deps[0] {
            DependencyModel::RawLib { url, name } => lemma_visit_deps_fails(
                w,
                platform,
                base,
                user,
                node,
                rest,
                g,
                depth,
                from + 1,
            ),
            DependencyModel::DllPack { url } => match (w.locate)(url) {
                Err(e) => {
                    assert(unlocated_as(w, all[from as int], FailureModel::Outside(e)));
                    user
                },
                Ok(info) => match place_of(g.nodes, info) {
                    Some(at) => lemma_visit_deps_fails(
                        w,
                        platform,
                        base,
                        user,
                        node,
                        rest,
                        g.link(node, at),
                        depth,
                        from + 1,
                    ),
                    None => {
                        lemma_reachable_on(w, platform, base, user, info);
                        let culprit = lemma_visit_fails(w, platform, base, info, g, depth);
                        match visit(w, platform, info, g, depth) {
                            Outcome::Done(mid) => lemma_visit_deps_fails(
                                w,
                                platform,
                                base,
                                user,
                                node,
                                rest,
                                mid.link(node, g.nodes.len() as usize),
                                depth,
                                from + 1,
                            ),
                            _ => culprit,
                        }
                    },
                },
            },
        }
    } else {
        user
    }
}

/// A walk fails only as some manifest that can be reached does: because it is
/// missing, because it cannot be read, because it has nothing for the platform, or
/// because something that it depends on cannot be located.
pub proof fn walk_fails_as_a_manifest_does<E>(
    w: World<E>,
    platform: Seq<char>,
    base: InfoModel,
    depth: nat,
) -> (culprit: InfoModel)
    ensures
        visit(w, platform, base, GraphModel::empty(), depth) matches Outcome::Failed(f) ==> reachable(
            w,
            platform,
            base,
            culprit,
        ) && fails_as(w, platform, culprit, f),
{
    lemma_reachable_self(w, platform, base);
    lemma_visit_fails(w, platform, base, base, GraphModel::empty(), depth)
}

} // verus!
