//! What a walk comes to, in surroundings that answer the same request always alike.
use vstd::prelude::*;

use crate::failure::FailureModel;
use crate::graph::{place_of, GraphModel};
use crate::manifest::{platform_entry, DependencyModel, DllModel, InfoModel};
use crate::walk::{advance, top_done, AskModel, FrameModel, ReplyModel, WalkModel};

verus! {

/// Surroundings that answer the same request always alike.
#[verifier::reject_recursive_types(E)]
pub struct World<E> {
    /// Where the cache keeps the manifest of a URL.
    pub locate: spec_fn(Seq<char>) -> Result<InfoModel, E>,
    /// What a manifest says.
    pub read: spec_fn(InfoModel) -> ReplyModel<E>,
    /// Where the cache keeps a library file, given its URL and its name.
    pub library: spec_fn(Seq<char>, Option<Seq<char>>) -> Result<DllModel, E>,
}

/// What a computation comes to.
#[verifier::reject_recursive_types(E)]
pub enum Outcome<T, E> {
    Done(T),
    Failed(FailureModel<E>),
    /// It did not end within the given bound.
    Endless,
}

/// Reads the manifest `info` and, depth first, all that it depends on, into `g`.
/// At most `depth` manifests are under way at a time.
pub open spec fn visit<E>(
    w: World<E>,
    platform: Seq<char>,
    info: InfoModel,
    g: GraphModel,
    depth: nat,
) -> Outcome<GraphModel, E>
    decreases depth, 0nat,
{
    if depth == 0 {
        Outcome::Endless
    } else {
        match (w.read)(info) {
            ReplyModel::Missing => Outcome::Failed(FailureModel::ManifestNotFound(info)),
            ReplyModel::Unreadable(e) => Outcome::Failed(FailureModel::Outside(e)),
            ReplyModel::Found(file) => match platform_entry(file, platform) {
                None => Outcome::Failed(FailureModel::Unsupported(platform)),
                Some(manifest) => visit_deps(
                    w,
                    platform,
                    g.nodes.len() as usize,
                    manifest.dependencies,
                    g.add(info, manifest),
                    (depth - 1) as nat,
                ),
            },
        }
    }
}

/// Follows the dependencies `deps` of the manifest at `node`, one after the
/// other: what was not read yet is read with all that it depends on, and then linked.
pub open spec fn visit_deps<E>(
    w: World<E>,
    platform: Seq<char>,
    node: usize,
    deps: Seq<DependencyModel>,
    g: GraphModel,
    depth: nat,
) -> Outcome<GraphModel, E>
    decreases depth, 1 + deps.len(),
{
    if deps.len() == 0 {
        Outcome::Done(g)
    } else {
        match deps[0] {
            DependencyModel::RawLib { url, name } => visit_deps(
                w,
                platform,
                node,
                deps.drop_first(),
                g,
                depth,
            ),
            DependencyModel::DllPack { url } => match (w.locate)(url) {
                Err(e) => Outcome::Failed(FailureModel::Outside(e)),
                Ok(info) => match place_of(g.nodes, info) {
                    Some(at) => visit_deps(
                        w,
                        platform,
                        node,
                        deps.drop_first(),
                        g.link(node, at),
                        depth,
                    ),
                    None => match visit(w, platform, info, g, depth) {
                        Outcome::Done(more) => visit_deps(
                            w,
                            platform,
                            node,
                            deps.drop_first(),
                            more.link(node, g.nodes.len() as usize),
                            depth,
                        ),
                        Outcome::Failed(failure) => Outcome::Failed(failure),
                        Outcome::Endless => Outcome::Endless,
                    },
                },
            },
        }
    }
}

/// One step of a walk: what it asks for is answered.
pub open spec fn walk_step<E>(w: World<E>, m: WalkModel) -> Result<WalkModel, FailureModel<E>> {
    match m.ask {
        AskModel::Read(info) => m.after_read((w.read)(info)),
        AskModel::Locate(url) => m.after_locate((w.locate)(url)),
        AskModel::Finished => Ok(m),
    }
}

/// `steps` steps of a walk.
pub open spec fn walk_run<E>(w: World<E>, m: WalkModel, steps: nat) -> Result<
    WalkModel,
    FailureModel<E>,
>
    decreases steps,
{
    if steps == 0 {
        Ok(m)
    } else {
        match walk_step(w, m) {
            Err(failure) => Err(failure),
            Ok(next) => walk_run(w, next, (steps - 1) as nat),
        }
    }
}

/// A finished walk stays as it is.
pub proof fn lemma_walk_stays<E>(w: World<E>, walk: WalkModel, steps: nat)
    requires
        walk.ask is Finished,
    ensures
        walk_run(w, walk, steps) == Ok::<WalkModel, FailureModel<E>>(walk),
    decreases steps,
{
    if steps > 0 {
        lemma_walk_stays(w, walk, (steps - 1) as nat);
    }
}

/// Steps after steps are steps.
pub proof fn lemma_run_joined<E>(w: World<E>, m: WalkModel, a: nat, b: nat)
    ensures
        walk_run(w, m, a + b) == match walk_run(w, m, a) {
            Err(failure) => Err(failure),
            Ok(next) => walk_run(w, next, b),
        },
    decreases a,
{
    if a > 0 {
        match walk_step(w, m) {
            Err(failure) => {},
            Ok(next) => {
                lemma_run_joined(w, next, (a - 1) as nat, b);
                assert((a + b - 1) as nat == (a - 1) as nat + b);
            },
        }
    }
}

/// A step and then steps are steps.
proof fn lemma_run_first<E>(w: World<E>, m: WalkModel, next: WalkModel, steps: nat)
    requires
        walk_step(w, m) == Ok::<WalkModel, FailureModel<E>>(next),
    ensures
        walk_run(w, m, steps + 1) == walk_run(w, next, steps),
{
    assert((steps + 1 - 1) as nat == steps);
}

/// A walk that has come to the dependencies `deps` of `node` runs as `visit_deps` says.
pub proof fn lemma_run_deps<E>(
    w: World<E>,
    platform: Seq<char>,
    node: usize,
    deps: Seq<DependencyModel>,
    g: GraphModel,
    depth: nat,
    below: Seq<FrameModel>,
) -> (steps: nat)
    ensures
        match visit_deps(w, platform, node, deps, g, depth) {
            Outcome::Done(more) => walk_run(
                w,
                advance(platform, g, below.push(FrameModel { node, rest: deps })),
                steps,
            ) == Ok::<WalkModel, FailureModel<E>>(
                advance(platform, more, below.push(FrameModel { node, rest: Seq::empty() })),
            ),
            Outcome::Failed(failure) => walk_run(
                w,
                advance(platform, g, below.push(FrameModel { node, rest: deps })),
                steps,
            ) == Err::<WalkModel, FailureModel<E>>(failure),
            Outcome::Endless => true,
        },
    decreases depth, deps.len(), 1nat,
{
    let stack = below.push(FrameModel { node, rest: deps });
    let m = advance(platform, g, stack);
    assert(stack.drop_last() =~= below);
    if deps.len() == 0 {
        assert(deps =~= Seq::empty());
        0
    } else {
        let rest = deps.drop_first();
        let later = below.push(FrameModel { node, rest });
        assert(top_done(stack) =~= later);
        match deps[0] {
            DependencyModel::RawLib { url, name } => {
                lemma_run_deps(w, platform, node, rest, g, depth, below)
            },
            DependencyModel::DllPack { url } => match (w.locate)(url) {
                Err(e) => {
                    assert(walk_run(w, m, 1) == Err::<WalkModel, FailureModel<E>>(
                        FailureModel::Outside(e),
                    )) by {
                        reveal_with_fuel(walk_run, 2);
                    }
                    1
                },
                Ok(info) => match place_of(g.nodes, info) {
                    Some(at) => {
                        let linked = g.link(node, at);
                        let steps = lemma_run_deps(w, platform, node, rest, linked, depth, below);
                        assert(walk_step(w, m) == Ok::<WalkModel, FailureModel<E>>(
                            advance(platform, linked, later),
                        ));
                        lemma_run_first(w, m, advance(platform, linked, later), steps);
                        steps + 1
                    },
                    None => {
                        let reading = WalkModel { ask: AskModel::Read(info), ..m };
                        assert(walk_step(w, m) == Ok::<WalkModel, FailureModel<E>>(reading));
                        if depth == 0 {
                            assert(visit(w, platform, info, g, depth) is Endless);
                            0
                        } else {
                            lemma_run_unread(w, platform, node, deps, g, depth, below, info)
                        }
                    },
                },
            },
        }
    }
}

/// The case of `lemma_run_deps` in which the first dependency was not read yet.
proof fn lemma_run_unread<E>(
    w: World<E>,
    platform: Seq<char>,
    node: usize,
    deps: Seq<DependencyModel>,
    g: GraphModel,
    depth: nat,
    below: Seq<FrameModel>,
    info: InfoModel,
) -> (steps: nat)
    requires
        depth > 0,
        deps.len() > 0,
        deps[0] is DllPack,
        (w.locate)(deps[0]->DllPack_url) == Ok::<InfoModel, E>(info),
        place_of(g.nodes, info) is None,
    ensures
        match visit_deps(w, platform, node, deps, g, depth) {
            Outcome::Done(more) => walk_run(
                w,
                advance(platform, g, below.push(FrameModel { node, rest: deps })),
                steps,
            ) == Ok::<WalkModel, FailureModel<E>>(
                advance(platform, more, below.push(FrameModel { node, rest: Seq::empty() })),
            ),
            Outcome::Failed(failure) => walk_run(
                w,
                advance(platform, g, below.push(FrameModel { node, rest: deps })),
                steps,
            ) == Err::<WalkModel, FailureModel<E>>(failure),
            Outcome::Endless => true,
        },
    decreases depth, deps.len(), 0nat,
{
    let stack = below.push(FrameModel { node, rest: deps });
    let m = advance(platform, g, stack);
    let rest = deps.drop_first();
    let later = below.push(FrameModel { node, rest });
    assert(top_done(stack) =~= later);
    let reading = WalkModel { ask: AskModel::Read(info), ..m };
    assert(walk_step(w, m) == Ok::<WalkModel, FailureModel<E>>(reading));
    reveal_with_fuel(walk_run, 3);
    match (w.read)(info) {
        ReplyModel::Missing => 2,
        ReplyModel::Unreadable(e) => 2,
        ReplyModel::Found(file) => match platform_entry(file, platform) {
            None => 2,
            Some(manifest) => {
                let id = g.nodes.len() as usize;
                let added = g.add(info, manifest);
                let inner = lemma_run_deps(
                    w,
                    platform,
                    id,
                    manifest.dependencies,
                    added,
                    (depth - 1) as nat,
                    stack,
                );
                let entered = advance(
                    platform,
                    added,
                    stack.push(FrameModel { node: id, rest: manifest.dependencies }),
                );
                assert(walk_step(w, reading) == Ok::<WalkModel, FailureModel<E>>(entered));
                lemma_run_joined(w, m, 2, inner);
                match visit(w, platform, info, g, depth) {
                    Outcome::Done(more) => {
                        let closing = stack.push(FrameModel { node: id, rest: Seq::empty() });
                        assert(closing.drop_last() =~= stack);
                        let linked = more.link(node, id);
                        assert(advance(platform, more, closing) == advance(platform, linked, later));
                        let outer = lemma_run_deps(w, platform, node, rest, linked, depth, below);
                        lemma_run_joined(w, m, 2 + inner, outer);
                        2 + inner + outer
                    },
                    Outcome::Failed(failure) => 2 + inner,
                    Outcome::Endless => 0,
                }
            },
        },
    }
}

/// A walk comes to what reading the base manifest depth first comes to: to the
/// same graph, or to the same failure.
pub proof fn walk_reads_depth_first<E>(
    w: World<E>,
    platform: Seq<char>,
    base: InfoModel,
    depth: nat,
) -> (steps: nat)
    requires
        !(visit(w, platform, base, GraphModel::empty(), depth) is Endless),
    ensures
        match visit(w, platform, base, GraphModel::empty(), depth) {
            Outcome::Done(g) => walk_run(w, WalkModel::start(base, platform), steps) == Ok::<
                WalkModel,
                FailureModel<E>,
            >(WalkModel { platform, graph: g, stack: Seq::empty(), ask: AskModel::Finished }),
            Outcome::Failed(failure) => walk_run(w, WalkModel::start(base, platform), steps) == Err::<
                WalkModel,
                FailureModel<E>,
            >(failure),
            Outcome::Endless => true,
        },
{
    let m = WalkModel::start(base, platform);
    reveal_with_fuel(walk_run, 2);
    match (w.read)(base) {
        ReplyModel::Missing => 1,
        ReplyModel::Unreadable(e) => 1,
        ReplyModel::Found(file) => match platform_entry(file, platform) {
            None => 1,
            Some(manifest) => {
                let added = GraphModel::empty().add(base, manifest);
                let inner = lemma_run_deps(
                    w,
                    platform,
                    0,
                    manifest.dependencies,
                    added,
                    (depth - 1) as nat,
                    Seq::empty(),
                );
                lemma_run_joined(w, m, 1, inner);
                assert(Seq::<FrameModel>::empty().push(
                    FrameModel { node: 0, rest: Seq::empty() },
                ).drop_last() =~= Seq::<FrameModel>::empty());
                1 + inner
            },
        },
    }
}

} // verus!
