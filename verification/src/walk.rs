//! The walk over a pack's manifests: it reads the manifest it was given, then
//! those of the dependencies, depth first, each manifest once.
//!
//! The walk itself touches nothing. It says what it needs next, and goes on
//! with the reply.
use vstd::prelude::*;

use crate::failure::{Failure, FailureModel, ResolveError};
use crate::graph::{
    lemma_link_wf, lemma_place_of, place_of, GraphModel, ManifestGraph, NodeModel,
};
use crate::manifest::{
    platform_entry, Dependency, DependencyModel, DllPackFile, InfoModel, ManifestInfo,
    PlatformModel,
};
use crate::pack_url::Url;

verus! {

/// A manifest whose dependencies are being followed, and the dependency that is next.
#[derive(Debug)]
pub struct Frame {
    node: usize,
    next: usize,
}

/// A manifest whose dependencies are being followed, and those still to follow.
#[verifier::ext_equal]
pub struct FrameModel {
    pub node: usize,
    pub rest: Seq<DependencyModel>,
}

/// What a walk needs next.
#[derive(Debug)]
pub enum Ask {
    /// The contents of a manifest.
    Read(ManifestInfo),
    /// Where the cache keeps the manifest of a URL.
    Locate(Url),
    /// Nothing: all manifests were read.
    Finished,
}

/// What a walk asks for, in terms of sequences.
pub enum AskModel {
    Read(InfoModel),
    Locate(Seq<char>),
    Finished,
}

impl View for Ask {
    type V = AskModel;

    open spec fn view(&self) -> AskModel {
        match *self {
            Ask::Read(info) => AskModel::Read(info@),
            Ask::Locate(url) => AskModel::Locate(url@),
            Ask::Finished => AskModel::Finished,
        }
    }
}

impl Ask {
    /// The same request once more.
    pub fn copy(&self) -> (ask: Ask)
        ensures
            ask@ == self@,
            match self {
                Ask::Read(info) => ask matches Ask::Read(i) && i@ == info@,
                Ask::Locate(url) => ask matches Ask::Locate(u) && u@ == url@,
                Ask::Finished => ask is Finished,
            },
    {
        match self {
            Ask::Read(info) => Ask::Read(info.copy()),
            Ask::Locate(url) => Ask::Locate(url.copy()),
            Ask::Finished => Ask::Finished,
        }
    }
}

/// What became of reading a manifest.
#[derive(Debug)]
pub enum ManifestReply<E> {
    /// There is no such file.
    Missing,
    /// The file could not be had or read.
    Unreadable(E),
    /// The file says this.
    Found(DllPackFile),
}

/// A reply on a manifest, in terms of sequences.
#[verifier::reject_recursive_types(E)]
pub enum ReplyModel<E> {
    Missing,
    Unreadable(E),
    Found(Seq<(Seq<char>, PlatformModel)>),
}

impl<E> View for ManifestReply<E> {
    type V = ReplyModel<E>;

    open spec fn view(&self) -> ReplyModel<E> {
        match *self {
            ManifestReply::Missing => ReplyModel::Missing,
            ManifestReply::Unreadable(e) => ReplyModel::Unreadable(e),
            ManifestReply::Found(file) => ReplyModel::Found(file@),
        }
    }
}

/// What became of locating a manifest.
pub open spec fn located_model<E>(reply: Result<ManifestInfo, E>) -> Result<InfoModel, E> {
    match reply {
        Ok(info) => Ok(info@),
        Err(e) => Err(e),
    }
}

/// The state of a walk.
#[verifier::ext_equal]
pub struct WalkModel {
    pub platform: Seq<char>,
    pub graph: GraphModel,
    pub stack: Seq<FrameModel>,
    pub ask: AskModel,
}

/// The stack with the next dependency of its top done.
pub open spec fn top_done(stack: Seq<FrameModel>) -> Seq<FrameModel> {
    stack.drop_last().push(
        FrameModel { node: stack.last().node, rest: stack.last().rest.drop_first() },
    )
}

/// The state in which a walk waits next. Bare libraries are passed over. A
/// manifest whose dependencies are all done is linked to the one it was reached from.
pub open spec fn advance(platform: Seq<char>, graph: GraphModel, stack: Seq<FrameModel>) -> WalkModel
    decreases
            stack.len(),
            if stack.len() == 0 {
                0
            } else {
                stack.last().rest.len()
            },
{
    if stack.len() == 0 {
        WalkModel { platform, graph, stack, ask: AskModel::Finished }
    } else if stack.last().rest.len() > 0 {
        match stack.last().rest[0] {
            DependencyModel::RawLib { url, name } => advance(platform, graph, top_done(stack)),
            DependencyModel::DllPack { url } => WalkModel {
                platform,
                graph,
                stack,
                ask: AskModel::Locate(url),
            },
        }
    } else if stack.len() == 1 {
        WalkModel { platform, graph, stack: stack.drop_last(), ask: AskModel::Finished }
    } else {
        let below = stack.drop_last();
        advance(platform, graph.link(below.last().node, stack.last().node), top_done(below))
    }
}

impl WalkModel {
    /// A walk that is to start with the manifest `base`.
    pub open spec fn start(base: InfoModel, platform: Seq<char>) -> WalkModel {
        WalkModel {
            platform,
            graph: GraphModel::empty(),
            stack: Seq::empty(),
            ask: AskModel::Read(base),
        }
    }

    /// The walk after a manifest was read.
    pub open spec fn after_read<E>(self, reply: ReplyModel<E>) -> Result<WalkModel, FailureModel<E>> {
        let info = self.ask->Read_0;
        match reply {
            ReplyModel::Missing => Err(FailureModel::ManifestNotFound(info)),
            ReplyModel::Unreadable(e) => Err(FailureModel::Outside(e)),
            ReplyModel::Found(file) => match platform_entry(file, self.platform) {
                None => Err(FailureModel::Unsupported(self.platform)),
                Some(manifest) => Ok(
                    advance(
                        self.platform,
                        self.graph.add(info, manifest),
                        self.stack.push(
                            FrameModel {
                                node: self.graph.nodes.len() as usize,
                                rest: manifest.dependencies,
                            },
                        ),
                    ),
                ),
            },
        }
    }

    /// The walk after the manifest of a dependency was located: one that was
    /// read before is linked, another one is read next.
    pub open spec fn after_locate<E>(self, reply: Result<InfoModel, E>) -> Result<
        WalkModel,
        FailureModel<E>,
    > {
        match reply {
            Err(e) => Err(FailureModel::Outside(e)),
            Ok(info) => match place_of(self.graph.nodes, info) {
                Some(at) => Ok(
                    advance(
                        self.platform,
                        self.graph.link(self.stack.last().node, at),
                        top_done(self.stack),
                    ),
                ),
                None => Ok(WalkModel { ask: AskModel::Read(info), ..self }),
            },
        }
    }

    /// Whether the manifests on the stack are among those read, and all but the
    /// topmost wait for a dependency.
    pub open spec fn stack_wf(graph: GraphModel, stack: Seq<FrameModel>) -> bool {
        &&& forall|i: int| 0 <= i < stack.len() ==> (#[trigger] stack[i]).node < graph.nodes.len()
        &&& forall|i: int| 0 <= i < stack.len() - 1 ==> (#[trigger] stack[i]).rest.len() > 0
    }

    /// A walk is well formed if its graph and its stack are, and if what it asks
    /// for is what its stack waits for.
    pub open spec fn wf(self) -> bool {
        &&& self.graph.wf()
        &&& Self::stack_wf(self.graph, self.stack)
        &&& match self.ask {
            AskModel::Read(info) => {
                &&& place_of(self.graph.nodes, info) is None
                &&& self.stack.len() > 0 ==> self.stack.last().rest.len() > 0
            },
            AskModel::Locate(url) => {
                &&& self.stack.len() > 0
                &&& self.stack.last().rest.len() > 0
                &&& self.stack.last().rest[0] == DependencyModel::DllPack { url }
            },
            AskModel::Finished => self.stack.len() == 0 && self.graph.nodes.len() > 0,
        }
    }
}

/// Going on keeps a walk well formed, and reads nothing.
pub proof fn lemma_advance_wf(platform: Seq<char>, graph: GraphModel, stack: Seq<FrameModel>)
    requires
        graph.wf(),
        graph.nodes.len() > 0,
        WalkModel::stack_wf(graph, stack),
    ensures
        advance(platform, graph, stack).wf(),
        advance(platform, graph, stack).graph.nodes == graph.nodes,
        advance(platform, graph, stack).platform == platform,
    decreases
            stack.len(),
            if stack.len() == 0 {
                0
            } else {
                stack.last().rest.len()
            },
{
    if stack.len() == 0 {
    } else if stack.last().rest.len() > 0 {
        match stack.last().rest[0] {
            DependencyModel::RawLib { url, name } => {
                lemma_advance_wf(platform, graph, top_done(stack));
            },
            DependencyModel::DllPack { url } => {},
        }
    } else if stack.len() > 1 {
        let below = stack.drop_last();
        assert(below.last() == stack[stack.len() - 2]);
        lemma_link_wf(graph, below.last().node, stack.last().node);
        lemma_advance_wf(
            platform,
            graph.link(below.last().node, stack.last().node),
            top_done(below),
        );
    }
}

/// What the frames of a stack stand for.
pub closed spec fn frame_models(frames: Seq<Frame>, nodes: Seq<NodeModel>) -> Seq<FrameModel> {
    Seq::new(
        frames.len(),
        |i: int|
            FrameModel {
                node: frames[i].node,
                rest: nodes[frames[i].node as int].manifest.dependencies.skip(frames[i].next as int),
            },
    )
}

/// Whether every frame points at a manifest and at one of its dependencies, or behind the last.
spec fn frames_wf(frames: Seq<Frame>, nodes: Seq<NodeModel>) -> bool {
    forall|i: int|
        0 <= i < frames.len() ==> {
            &&& (#[trigger] frames[i]).node < nodes.len()
            &&& frames[i].next <= nodes[frames[i].node as int].manifest.dependencies.len()
        }
}

/// A walk over the manifests of a pack for one platform.
#[derive(Debug)]
pub struct Walk {
    platform: String,
    graph: ManifestGraph,
    stack: Vec<Frame>,
    ask: Ask,
}

impl View for Walk {
    type V = WalkModel;

    closed spec fn view(&self) -> WalkModel {
        WalkModel {
            platform: self.platform@,
            graph: self.graph@,
            stack: frame_models(self.stack@, self.graph@.nodes),
            ask: self.ask@,
        }
    }
}

impl Walk {
    /// A walk is well formed if its state is.
    pub closed spec fn wf(&self) -> bool {
        &&& self@.wf()
        &&& frames_wf(self.stack@, self.graph@.nodes)
    }

    /// A walk that is well formed is in a well formed state.
    pub proof fn lemma_wf(&self)
        requires
            self.wf(),
        ensures
            self@.wf(),
    {
    }

    /// Starts a walk with the manifest `base`.
    pub fn start(base: ManifestInfo, platform: &String) -> (walk: Walk)
        ensures
            walk.wf(),
            walk@ == WalkModel::start(base@, platform@),
            walk@.ask == AskModel::Read(base@) && walk@.platform == platform@,
            walk@.graph.nodes.len() == 0 && walk@.stack.len() == 0,
    {
        let ghost model = base@;
        let walk = Walk {
            platform: platform.clone(),
            graph: ManifestGraph::new(),
            stack: Vec::new(),
            ask: Ask::Read(base),
        };
        assert(walk@ =~= WalkModel::start(model, platform@));
        walk
    }

    /// What the walk needs next.
    pub fn ask(&self) -> (ask: Ask)
        ensures
            ask@ == self@.ask,
            match self@.ask {
                AskModel::Read(info) => ask matches Ask::Read(i) && i@ == info,
                AskModel::Locate(url) => ask matches Ask::Locate(u) && u@ == url,
                AskModel::Finished => ask is Finished,
            },
    {
        self.ask.copy()
    }

    /// Goes on to where the walk has to wait.
    #[verifier::loop_isolation(false)]
    fn go_on(platform: String, graph: ManifestGraph, stack: Vec<Frame>) -> (walk: Walk)
        requires
            graph@.wf(),
            graph@.nodes.len() > 0,
            frames_wf(stack@, graph@.nodes),
            WalkModel::stack_wf(graph@, frame_models(stack@, graph@.nodes)),
        ensures
            walk.wf(),
            walk@ == advance(platform@, graph@, frame_models(stack@, graph@.nodes)),
            walk@.graph.nodes == graph@.nodes,
            walk@.platform == platform@,
    {
        let ghost nodes = graph@.nodes;
        let ghost goal = advance(platform@, graph@, frame_models(stack@, nodes));
        proof {
            lemma_advance_wf(platform@, graph@, frame_models(stack@, nodes));
        }
        let mut graph = graph;
        let mut stack = stack;
        loop
            invariant
                graph@.wf(),
                graph@.nodes == nodes,
                frames_wf(stack@, nodes),
                WalkModel::stack_wf(graph@, frame_models(stack@, nodes)),
                goal == advance(platform@, graph@, frame_models(stack@, nodes)),
                goal.wf(),
                goal.graph.nodes == nodes,
            decreases
                    stack@.len(),
                    if stack@.len() == 0 {
                        0
                    } else {
                        nodes[stack@.last().node as int].manifest.dependencies.len()
                            - stack@.last().next
                    },
        {
            let ghost frames = frame_models(stack@, nodes);
            let ghost before = stack@;
            match stack.pop() {
                None => {
                    return Walk { platform, graph, stack, ask: Ask::Finished };
                },
                Some(top) => {
                    assert(top == before.last());
                    assert(before.last() == before[before.len() - 1]);
                    assert(stack@ =~= before.drop_last());
                    assert(frame_models(stack@, nodes) =~= frames.drop_last());
                    assert(frames.last().node == top.node);
                    assert(graph@.nodes[top.node as int] == graph.nodes@[top.node as int]@);
                    let ghost deps = nodes[top.node as int].manifest.dependencies;
                    if top.next < graph.nodes[top.node].manifest.dependencies.len() {
                        assert(frames.last().rest == deps.skip(top.next as int));
                        assert(frames.last().rest[0] == deps[top.next as int]);
                        assert(deps[top.next as int]
                            == graph.nodes@[top.node as int].manifest.dependencies@[top.next as int]@);
                        match &graph.nodes[top.node].manifest.dependencies[top.next] {
                            Dependency::RawLib { .. } => {
                                stack.push(Frame { node: top.node, next: top.next + 1 });
                                assert(frames.last().rest.drop_first() =~= deps.skip(top.next + 1));
                                assert(frame_models(stack@, nodes) =~= top_done(frames));
                                proof {
                                    lemma_top_done_wf(graph@, frames);
                                }
                            },
                            Dependency::DllPack { url } => {
                                let ask = Ask::Locate(url.copy());
                                stack.push(top);
                                assert(stack@ =~= before);
                                return Walk { platform, graph, stack, ask };
                            },
                        }
                    } else {
                        assert(frames.last().rest.len() == 0);
                        match stack.pop() {
                            None => {
                                return Walk { platform, graph, stack, ask: Ask::Finished };
                            },
                            Some(below) => {
                                let ghost lower = frames.drop_last();
                                assert(below == before[before.len() - 2]);
                                assert(lower.last() == frames[frames.len() - 2]);
                                assert(lower.last().node == below.node);
                                let ghost below_deps = nodes[below.node as int].manifest.dependencies;
                                assert(lower.last().rest == below_deps.skip(below.next as int));
                                assert(graph@.nodes[below.node as int]
                                    == graph.nodes@[below.node as int]@);
                                assert(below_deps.len() == graph.nodes@[below.node as int]
                                    .manifest.dependencies.len());
                                graph.link(below.node, top.node);
                                stack.push(Frame { node: below.node, next: below.next + 1 });
                                assert(lower.last().rest.drop_first() =~= below_deps.skip(
                                    below.next + 1,
                                ));
                                assert(frame_models(stack@, nodes) =~= top_done(lower));
                            },
                        }
                    }
                },
            }
        }
    }

    /// Goes on with what a manifest says.
    pub fn read<E>(self, reply: ManifestReply<E>) -> (next: Result<Walk, Failure<E>>)
        requires
            self.wf(),
            self@.ask is Read,
        ensures
            match next {
                Ok(walk) => walk.wf() && self@.after_read(reply@) == Ok::<WalkModel, FailureModel<E>>(walk@),
                Err(failure) => self@.after_read(reply@) == Err::<WalkModel, FailureModel<E>>(failure@),
            },
            match reply {
                ManifestReply::Missing => next matches Err(failure) && failure@
                    == FailureModel::<E>::ManifestNotFound(self@.ask->Read_0),
                ManifestReply::Unreadable(e) => next == Err::<Walk, Failure<E>>(Failure::Outside(e)),
                ManifestReply::Found(file) => {
                    &&& next is Err <==> forall|i: int|
                        0 <= i < file.platforms@.len() ==> (#[trigger] file.platforms@[i]).0@
                            != self@.platform
                    &&& next matches Err(failure) ==> failure@ == FailureModel::<E>::Unsupported(
                        self@.platform,
                    )
                },
            },
    {
        let ghost model = self@;
        let Walk { platform, graph, stack, ask } = self;
        let info = match ask {
            Ask::Read(info) => info,
            _ => vstd::pervasive::unreached(),
        };
        match reply {
            ManifestReply::Missing => Err(Failure::ManifestNotFound(info)),
            ManifestReply::Unreadable(e) => Err(Failure::Outside(e)),
            ManifestReply::Found(file) => match file.platform(&platform) {
                None => Err(Failure::Unsupported(ResolveError::PlatformNotSupported(platform))),
                Some(manifest) => {
                    let ghost entry = manifest@;
                    let ghost info_model = info@;
                    let node: usize = graph.nodes.len();
                    let ghost nodes = graph@.nodes;
                    let ghost before = stack@;
                    let mut graph = graph;
                    let mut stack = stack;
                    graph.add(info, manifest);
                    stack.push(Frame { node, next: 0 });
                    proof {
                        assert(entry.dependencies.skip(0) =~= entry.dependencies);
                        assert(graph@.nodes[node as int].manifest == entry);
                        assert forall|i: int| 0 <= i < before.len() implies frame_models(
                            stack@,
                            graph@.nodes,
                        )[i] == frame_models(before, nodes)[i] by {
                            assert(before[i].node < nodes.len());
                            assert(graph@.nodes[before[i].node as int] == nodes[before[i].node as int]);
                        }
                        assert(frame_models(stack@, graph@.nodes) =~= model.stack.push(
                            FrameModel { node, rest: entry.dependencies },
                        ));
                        assert forall|i: int| 0 <= i < stack@.len() implies ({
                            &&& (#[trigger] stack@[i]).node < graph@.nodes.len()
                            &&& stack@[i].next <= graph@.nodes[stack@[i].node as int].manifest.dependencies.len()
                        }) by {
                            if i < before.len() {
                                assert(before[i].node < nodes.len());
                                assert(graph@.nodes[before[i].node as int] == nodes[before[i].node as int]);
                            }
                        }
                    }
                    Ok(Walk::go_on(platform, graph, stack))
                },
            },
        }
    }

    /// Goes on with the place of a dependency's manifest.
    pub fn located<E>(self, reply: Result<ManifestInfo, E>) -> (next: Result<Walk, Failure<E>>)
        requires
            self.wf(),
            self@.ask is Locate,
        ensures
            match next {
                Ok(walk) => walk.wf() && self@.after_locate(located_model(reply)) == Ok::<
                    WalkModel,
                    FailureModel<E>,
                >(walk@),
                Err(failure) => self@.after_locate(located_model(reply)) == Err::<
                    WalkModel,
                    FailureModel<E>,
                >(failure@),
            },
            match reply {
                Err(e) => next == Err::<Walk, Failure<E>>(Failure::Outside(e)),
                Ok(info) => {
                    &&& next is Ok
                    &&& next->Ok_0@.graph.nodes == self@.graph.nodes
                    &&& (forall|i: int|
                        0 <= i < self@.graph.nodes.len() ==> (
                        #[trigger] self@.graph.nodes[i]).info != info@) ==> next->Ok_0@.ask
                        == AskModel::Read(info@) && next->Ok_0@.graph == self@.graph
                        && next->Ok_0@.stack == self@.stack
                },
            },
    {
        let ghost model = self@;
        let Walk { platform, graph, stack, ask: _ } = self;
        match reply {
            Err(e) => Err(Failure::Outside(e)),
            Ok(info) => match graph.place(&info) {
                None => {
                    let walk = Walk { platform, graph, stack, ask: Ask::Read(info) };
                    assert(walk@ =~= WalkModel { ask: AskModel::Read(info@), ..model });
                    Ok(walk)
                },
                Some(at) => {
                    proof {
                        lemma_place_of(graph@.nodes, info@);
                        lemma_top_done_wf(graph@, model.stack);
                        assert(model.graph.nodes[at as int].info == info@);
                    }
                    let ghost before = stack@;
                    let ghost nodes = graph@.nodes;
                    let mut graph = graph;
                    let mut stack = stack;
                    let top_at: usize = stack.len() - 1;
                    let node: usize = stack[top_at].node;
                    let next: usize = stack[top_at].next;
                    let ghost deps = nodes[node as int].manifest.dependencies;
                    assert(model.stack.last().rest == deps.skip(next as int));
                    assert(graph@.nodes[node as int] == graph.nodes@[node as int]@);
                    assert(deps.len() == graph.nodes@[node as int].manifest.dependencies.len());
                    graph.link(node, at);
                    stack.pop();
                    stack.push(Frame { node, next: next + 1 });
                    proof {
                        assert(deps.skip(next as int).drop_first() =~= deps.skip(next + 1));
                        assert(frame_models(stack@, nodes) =~= top_done(model.stack));
                        assert forall|i: int| 0 <= i < stack@.len() implies ({
                            &&& (#[trigger] stack@[i]).node < nodes.len()
                            &&& stack@[i].next <= nodes[stack@[i].node as int].manifest.dependencies.len()
                        }) by {
                            assert(before[i].node < nodes.len());
                        }
                    }
                    Ok(Walk::go_on(platform, graph, stack))
                },
            },
        }
    }

    /// The manifests that were read, and what depends on what.
    pub fn into_graph(self) -> (graph: ManifestGraph)
        requires
            self.wf(),
        ensures
            graph@ == self@.graph,
            graph@.wf(),
    {
        self.graph
    }
}

/// Passing over a dependency leaves the stack well formed.
proof fn lemma_top_done_wf(graph: GraphModel, stack: Seq<FrameModel>)
    requires
        stack.len() > 0,
        WalkModel::stack_wf(graph, stack),
    ensures
        WalkModel::stack_wf(graph, top_done(stack)),
{
    assert forall|i: int| 0 <= i < top_done(stack).len() implies (
    #[trigger] top_done(stack)[i]).node < graph.nodes.len() by {
        assert(stack[i].node < graph.nodes.len());
    }
    assert forall|i: int| 0 <= i < top_done(stack).len() - 1 implies (
    #[trigger] top_done(stack)[i]).rest.len() > 0 by {
        assert(stack[i].rest.len() > 0);
    }
}

} // verus!
