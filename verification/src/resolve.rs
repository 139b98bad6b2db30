//! The resolution of a pack: which libraries are to be loaded, and in what order.
//!
//! A resolution touches neither the network nor the disk. It says what it needs
//! next, and goes on with the reply.
use vstd::prelude::*;

use crate::failure::{Failure, FailureModel};
use crate::graph::{GraphModel, ManifestGraph, NodeModel};
use crate::manifest::{
    copy_name, dll_models, name_text, DllInfo, DllModel, InfoModel, ManifestInfo,
};
use crate::order::{load_order, order_of};
use crate::pack_url::Url;
use crate::walk::{
    located_model, Ask, AskModel, ManifestReply, ReplyModel, Walk, WalkModel,
};

verus! {

/// What a resolution, a download or a search needs next.
#[derive(Debug)]
pub enum Request {
    /// Where the cache keeps the manifest of a URL.
    LocateManifest(Url),
    /// The contents of a manifest.
    ReadManifest(ManifestInfo),
    /// Where the cache keeps a library file, given its URL and its name.
    LocateLibrary(Url, Option<String>),
    /// Nothing more.
    Nothing,
}

/// A request, in terms of sequences.
pub enum RequestModel {
    LocateManifest(Seq<char>),
    ReadManifest(InfoModel),
    LocateLibrary(Seq<char>, Option<Seq<char>>),
    Nothing,
}

impl View for Request {
    type V = RequestModel;

    open spec fn view(&self) -> RequestModel {
        match *self {
            Request::LocateManifest(url) => RequestModel::LocateManifest(url@),
            Request::ReadManifest(info) => RequestModel::ReadManifest(info@),
            Request::LocateLibrary(url, name) => RequestModel::LocateLibrary(url@, name_text(name)),
            Request::Nothing => RequestModel::Nothing,
        }
    }
}

/// What a pack's libraries are: the main one, and those it depends on in the
/// order in which they are to be loaded.
#[derive(Debug)]
pub struct Resolution {
    pub main: DllInfo,
    pub dependencies: Vec<DllInfo>,
}

/// A pack's libraries, in terms of sequences.
#[verifier::ext_equal]
pub struct ResolutionModel {
    pub main: DllModel,
    pub dependencies: Seq<DllModel>,
}

impl View for Resolution {
    type V = ResolutionModel;

    open spec fn view(&self) -> ResolutionModel {
        ResolutionModel { main: self.main@, dependencies: dll_models(self.dependencies@) }
    }
}

/// How far a resolution has come.
#[derive(Debug)]
enum Stage {
    Base,
    Walking(Walk),
    Libraries { graph: ManifestGraph, order: Vec<usize>, found: Vec<DllInfo> },
    Over(Resolution),
}

/// How far a resolution has come, in terms of sequences.
pub enum StageModel {
    /// The base manifest is to be located.
    Base,
    /// The manifests are being read.
    Walking(WalkModel),
    /// The library files are being located, in the load order, the main one last.
    Libraries { graph: GraphModel, order: Seq<usize>, found: Seq<DllModel> },
    /// All is known.
    Over(ResolutionModel),
}

/// A resolution, in terms of sequences.
pub struct ResolveModel {
    pub base_url: Seq<char>,
    pub platform: Seq<char>,
    pub stage: StageModel,
}

/// The manifest whose library file is located when `found` are: the next in the
/// order and, behind the last, the base manifest.
pub open spec fn library_node(graph: GraphModel, order: Seq<usize>, found: nat) -> NodeModel {
    if found < order.len() {
        graph.nodes[order[found as int] as int]
    } else {
        graph.nodes[0]
    }
}

/// What follows on a state of the walk. When all manifests were read their
/// libraries are brought into order, which fails on circular dependencies.
pub open spec fn after_walking<E>(
    base_url: Seq<char>,
    platform: Seq<char>,
    walk: WalkModel,
) -> Result<ResolveModel, FailureModel<E>> {
    if walk.ask is Finished {
        match order_of(walk.graph, base_url) {
            None => Err(FailureModel::Circular(platform)),
            Some(order) => Ok(
                ResolveModel {
                    base_url,
                    platform,
                    stage: StageModel::Libraries { graph: walk.graph, order, found: Seq::empty() },
                },
            ),
        }
    } else {
        Ok(ResolveModel { base_url, platform, stage: StageModel::Walking(walk) })
    }
}

/// What a walk asks for, as a request.
pub open spec fn ask_request(ask: AskModel) -> RequestModel {
    match ask {
        AskModel::Read(info) => RequestModel::ReadManifest(info),
        AskModel::Locate(url) => RequestModel::LocateManifest(url),
        AskModel::Finished => RequestModel::Nothing,
    }
}

impl ResolveModel {
    /// A resolution that has not begun.
    pub open spec fn start(base_url: Seq<char>, platform: Seq<char>) -> ResolveModel {
        ResolveModel { base_url, platform, stage: StageModel::Base }
    }

    /// What the resolution needs next.
    pub open spec fn request(self) -> RequestModel {
        match self.stage {
            StageModel::Base => RequestModel::LocateManifest(self.base_url),
            StageModel::Walking(walk) => ask_request(walk.ask),
            StageModel::Libraries { graph, order, found } => {
                let manifest = library_node(graph, order, found.len()).manifest;
                RequestModel::LocateLibrary(manifest.url, manifest.name)
            },
            StageModel::Over(_) => RequestModel::Nothing,
        }
    }

    /// The resolution after a manifest was located.
    pub open spec fn after_manifest<E>(self, reply: Result<InfoModel, E>) -> Result<
        ResolveModel,
        FailureModel<E>,
    > {
        match self.stage {
            StageModel::Walking(walk) => match walk.after_locate(reply) {
                Err(failure) => Err(failure),
                Ok(next) => after_walking(self.base_url, self.platform, next),
            },
            _ => match reply {
                Err(e) => Err(FailureModel::Outside(e)),
                Ok(info) => Ok(
                    ResolveModel {
                        stage: StageModel::Walking(WalkModel::start(info, self.platform)),
                        ..self
                    },
                ),
            },
        }
    }

    /// The resolution after a manifest was read.
    pub open spec fn after_read<E>(self, reply: ReplyModel<E>) -> Result<
        ResolveModel,
        FailureModel<E>,
    > {
        match self.stage->Walking_0.after_read(reply) {
            Err(failure) => Err(failure),
            Ok(next) => after_walking(self.base_url, self.platform, next),
        }
    }

    /// The resolution after a library file was located.
    pub open spec fn after_library<E>(self, reply: Result<DllModel, E>) -> Result<
        ResolveModel,
        FailureModel<E>,
    > {
        let graph = self.stage->Libraries_graph;
        let order = self.stage->Libraries_order;
        let found = self.stage->Libraries_found;
        match reply {
            Err(e) => Err(FailureModel::Outside(e)),
            Ok(dll) => if found.len() < order.len() {
                Ok(
                    ResolveModel {
                        stage: StageModel::Libraries { graph, order, found: found.push(dll) },
                        ..self
                    },
                )
            } else {
                Ok(
                    ResolveModel {
                        stage: StageModel::Over(
                            ResolutionModel { main: dll, dependencies: found },
                        ),
                        ..self
                    },
                )
            },
        }
    }
}

/// The resolution of a pack for one platform.
#[derive(Debug)]
pub struct Resolve {
    base_url: Url,
    platform: String,
    stage: Stage,
}

impl View for Resolve {
    type V = ResolveModel;

    closed spec fn view(&self) -> ResolveModel {
        ResolveModel {
            base_url: self.base_url@,
            platform: self.platform@,
            stage: match self.stage {
                Stage::Base => StageModel::Base,
                Stage::Walking(walk) => StageModel::Walking(walk@),
                Stage::Libraries { graph, order, found } => StageModel::Libraries {
                    graph: graph@,
                    order: order@,
                    found: dll_models(found@),
                },
                Stage::Over(resolution) => StageModel::Over(resolution@),
            },
        }
    }
}

/// What became of locating a library file.
pub open spec fn library_model<E>(reply: Result<DllInfo, E>) -> Result<DllModel, E> {
    match reply {
        Ok(dll) => Ok(dll@),
        Err(e) => Err(e),
    }
}

/// Starts the resolution of the pack at `base_url` for `platform`.
pub fn resolve(base_url: &Url, platform: &str) -> (resolve: Resolve)
    ensures
        resolve.wf(),
        resolve@ == ResolveModel::start(base_url@, platform@),
        resolve@.request() == RequestModel::LocateManifest(base_url@),
        resolve@.platform == platform@,
{
    Resolve { base_url: base_url.copy(), platform: platform.to_owned(), stage: Stage::Base }
}

impl Resolve {
    /// A resolution is well formed if the walk or the graph that it holds is.
    pub closed spec fn wf(&self) -> bool {
        match self.stage {
            Stage::Base => true,
            Stage::Walking(walk) => walk.wf() && !(walk@.ask is Finished),
            Stage::Libraries { graph, order, found } => {
                &&& graph@.wf()
                &&& graph@.nodes.len() > 0
                &&& forall|i: int| 0 <= i < order@.len() ==> #[trigger] order@[i] < graph@.nodes.len()
                &&& found@.len() <= order@.len()
            },
            Stage::Over(_) => true,
        }
    }

    /// A resolution needs nothing more exactly if all is known.
    pub proof fn lemma_over(&self)
        requires
            self.wf(),
        ensures
            self@.request() is Nothing <==> self@.stage is Over,
    {
    }

    /// What the resolution needs next.
    pub fn request(&self) -> (request: Request)
        requires
            self.wf(),
        ensures
            request@ == self@.request(),
            match self@.stage {
                StageModel::Base => request matches Request::LocateManifest(u) && u@ == self@.base_url,
                StageModel::Walking(walk) => match walk.ask {
                    AskModel::Read(info) => request matches Request::ReadManifest(i) && i@ == info,
                    AskModel::Locate(url) => request matches Request::LocateManifest(u) && u@ == url,
                    AskModel::Finished => request is Nothing,
                },
                StageModel::Libraries { graph, order, found } => {
                    let at = if found.len() < order.len() {
                        order[found.len() as int] as int
                    } else {
                        0
                    };
                    request matches Request::LocateLibrary(u, n) && u@
                        == graph.nodes[at].manifest.url && name_text(n)
                        == graph.nodes[at].manifest.name
                },
                StageModel::Over(_) => request is Nothing,
            },
    {
        match &self.stage {
            Stage::Base => Request::LocateManifest(self.base_url.copy()),
            Stage::Walking(walk) => match walk.ask() {
                Ask::Read(info) => Request::ReadManifest(info),
                Ask::Locate(url) => Request::LocateManifest(url),
                Ask::Finished => Request::Nothing,
            },
            Stage::Libraries { graph, order, found } => {
                let at: usize = if found.len() < order.len() {
                    order[found.len()]
                } else {
                    0
                };
                let node = &graph.nodes[at];
                assert(graph@.nodes[at as int] == node@);
                Request::LocateLibrary(node.manifest.url.copy(), copy_name(&node.manifest.name))
            },
            Stage::Over(_) => Request::Nothing,
        }
    }

    /// Goes on from a state of the walk.
    fn walked<E>(base_url: Url, platform: String, walk: Walk) -> (next: Result<Resolve, Failure<E>>)
        requires
            walk.wf(),
        ensures
            match next {
                Ok(resolve) => resolve.wf() && after_walking::<E>(base_url@, platform@, walk@) == Ok::<
                    ResolveModel,
                    FailureModel<E>,
                >(resolve@),
                Err(failure) => after_walking::<E>(base_url@, platform@, walk@) == Err::<
                    ResolveModel,
                    FailureModel<E>,
                >(failure@),
            },
    {
        match walk.ask() {
            Ask::Read(_) | Ask::Locate(_) => {
                Ok(Resolve { base_url, platform, stage: Stage::Walking(walk) })
            },
            Ask::Finished => {
                proof {
                    walk.lemma_wf();
                }
                let graph = walk.into_graph();
                match load_order(&graph, &base_url) {
                    None => Err(Failure::Circular(platform)),
                    Some(order) => {
                        assert forall|i: int| 0 <= i < order@.len() implies #[trigger] order@[i]
                            < graph@.nodes.len() by {
                            assert(order@.contains(order@[i]));
                        }
                        let found: Vec<DllInfo> = Vec::new();
                        assert(dll_models(found@) =~= Seq::empty());
                        Ok(
                            Resolve {
                                base_url,
                                platform,
                                stage: Stage::Libraries { graph, order, found },
                            },
                        )
                    },
                }
            },
        }
    }

    /// Goes on with the place of a manifest.
    pub fn manifest_located<E>(self, reply: Result<ManifestInfo, E>) -> (next: Result<
        Resolve,
        Failure<E>,
    >)
        requires
            self.wf(),
            self@.request() is LocateManifest,
        ensures
            match next {
                Ok(resolve) => resolve.wf() && self@.after_manifest(located_model(reply)) == Ok::<
                    ResolveModel,
                    FailureModel<E>,
                >(resolve@),
                Err(failure) => self@.after_manifest(located_model(reply)) == Err::<
                    ResolveModel,
                    FailureModel<E>,
                >(failure@),
            },
            match reply {
                Err(e) => next == Err::<Resolve, Failure<E>>(Failure::Outside(e)),
                Ok(info) => {
                    &&& self@.stage is Base ==> (next matches Ok(resolve) && resolve@.request()
                        == RequestModel::ReadManifest(info@))
                    &&& next matches Err(failure) ==> failure@ == FailureModel::<E>::Circular(
                        self@.platform,
                    )
                },
            },
    {
        let Resolve { base_url, platform, stage } = self;
        match stage {
            Stage::Walking(walk) => match walk.located(reply) {
                Err(failure) => Err(failure),
                Ok(walk) => Resolve::walked(base_url, platform, walk),
            },
            _ => match reply {
                Err(e) => Err(Failure::Outside(e)),
                Ok(info) => {
                    let walk = Walk::start(info, &platform);
                    Ok(Resolve { base_url, platform, stage: Stage::Walking(walk) })
                },
            },
        }
    }

    /// Goes on with what a manifest says.
    pub fn manifest_read<E>(self, reply: ManifestReply<E>) -> (next: Result<Resolve, Failure<E>>)
        requires
            self.wf(),
            self@.request() is ReadManifest,
        ensures
            match next {
                Ok(resolve) => resolve.wf() && self@.after_read(reply@) == Ok::<
                    ResolveModel,
                    FailureModel<E>,
                >(resolve@),
                Err(failure) => self@.after_read(reply@) == Err::<ResolveModel, FailureModel<E>>(
                    failure@,
                ),
            },
            match reply {
                ManifestReply::Missing => next matches Err(failure) && failure@
                    == FailureModel::<E>::ManifestNotFound(self@.request()->ReadManifest_0),
                ManifestReply::Unreadable(e) => next == Err::<Resolve, Failure<E>>(
                    Failure::Outside(e),
                ),
                ManifestReply::Found(file) => {
                    let platform = self@.stage->Walking_0.platform;
                    if forall|i: int|
                        0 <= i < file.platforms@.len() ==> (#[trigger] file.platforms@[i]).0@
                            != platform {
                        next matches Err(failure) && failure@ == FailureModel::<E>::Unsupported(
                            platform,
                        )
                    } else {
                        next matches Err(failure) ==> failure@ == FailureModel::<E>::Circular(
                            self@.platform,
                        )
                    }
                },
            },
    {
        let Resolve { base_url, platform, stage } = self;
        match stage {
            Stage::Walking(walk) => match walk.read(reply) {
                Err(failure) => Err(failure),
                Ok(walk) => Resolve::walked(base_url, platform, walk),
            },
            _ => vstd::pervasive::unreached(),
        }
    }

    /// Goes on with the place of a library file.
    pub fn library_located<E>(self, reply: Result<DllInfo, E>) -> (next: Result<Resolve, Failure<E>>)
        requires
            self.wf(),
            self@.request() is LocateLibrary,
        ensures
            match next {
                Ok(resolve) => resolve.wf() && self@.after_library(library_model(reply)) == Ok::<
                    ResolveModel,
                    FailureModel<E>,
                >(resolve@),
                Err(failure) => self@.after_library(library_model(reply)) == Err::<
                    ResolveModel,
                    FailureModel<E>,
                >(failure@),
            },
            match reply {
                Err(e) => next == Err::<Resolve, Failure<E>>(Failure::Outside(e)),
                Ok(dll) => {
                    let order = self@.stage->Libraries_order;
                    let found = self@.stage->Libraries_found;
                    next matches Ok(resolve) && if found.len() < order.len() {
                        resolve@.stage == (StageModel::Libraries {
                            graph: self@.stage->Libraries_graph,
                            order,
                            found: found.push(dll@),
                        })
                    } else {
                        resolve@.stage == StageModel::Over(
                            ResolutionModel { main: dll@, dependencies: found },
                        )
                    }
                },
            },
    {
        let Resolve { base_url, platform, stage } = self;
        match stage {
            Stage::Libraries { graph, order, found } => match reply {
                Err(e) => Err(Failure::Outside(e)),
                Ok(dll) => {
                    if found.len() < order.len() {
                        let ghost before = found@;
                        let mut found = found;
                        found.push(dll);
                        assert(dll_models(found@) =~= dll_models(before).push(dll@));
                        Ok(Resolve { base_url, platform, stage: Stage::Libraries { graph, order, found } })
                    } else {
                        let resolution = Resolution { main: dll, dependencies: found };
                        Ok(Resolve { base_url, platform, stage: Stage::Over(resolution) })
                    }
                },
            },
            _ => vstd::pervasive::unreached(),
        }
    }

    /// The libraries of the pack, once nothing more is needed.
    pub fn finish(self) -> (resolution: Resolution)
        requires
            self.wf(),
            self@.request() is Nothing,
        ensures
            self@.stage == StageModel::Over(resolution@),
            self@.stage->Over_0.main == resolution.main@,
            self@.stage->Over_0.dependencies.len() == resolution.dependencies@.len(),
            forall|i: int|
                0 <= i < resolution.dependencies@.len() ==> (#[trigger] resolution.dependencies@[i])@
                    == self@.stage->Over_0.dependencies[i],
    {
        match self.stage {
            Stage::Over(resolution) => resolution,
            _ => vstd::pervasive::unreached(),
        }
    }
}

} // verus!
