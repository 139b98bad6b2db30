//! The download of a pack: all its manifests, then all its library files, then the
//! library files that its manifests name on their own.
//!
//! A download fetches nothing itself. It says what is to be fetched, located or
//! read next, and goes on with the reply.
use vstd::prelude::*;

use crate::failure::{Failure, FailureModel};
use crate::graph::{ManifestGraph, NodeModel};
use crate::manifest::{
    copy_name, dependency_models, name_text, Dependency, DependencyModel, DllInfo, DllModel,
    DllPackFile, InfoModel, ManifestInfo, PlatformModel,
};
use crate::pack_url::Url;
use crate::resolve::{
    library_model, resolve, Request, RequestModel, Resolution, ResolutionModel, Resolve,
    ResolveModel, StageModel,
};
use crate::walk::{
    located_model, Ask, AskModel, ManifestReply, ReplyModel, Walk, WalkModel,
};

verus! {

/// What a download needs next.
#[derive(Debug)]
pub enum DownloadRequest {
    /// Where the cache keeps the manifest of a URL.
    LocateManifest(Url),
    /// A manifest is to be brought into the cache and read.
    FetchManifest(ManifestInfo),
    /// The contents of a manifest in the cache.
    ReadManifest(ManifestInfo),
    /// Where the cache keeps a library file, given its URL and its name.
    LocateLibrary(Url, Option<String>),
    /// A library file is to be brought into the cache.
    FetchLibrary(DllInfo),
    /// Nothing more.
    Nothing,
}

/// A request of a download, in terms of sequences.
pub enum DownloadRequestModel {
    LocateManifest(Seq<char>),
    FetchManifest(InfoModel),
    ReadManifest(InfoModel),
    LocateLibrary(Seq<char>, Option<Seq<char>>),
    FetchLibrary(DllModel),
    Nothing,
}

impl View for DownloadRequest {
    type V = DownloadRequestModel;

    open spec fn view(&self) -> DownloadRequestModel {
        match *self {
            DownloadRequest::LocateManifest(url) => DownloadRequestModel::LocateManifest(url@),
            DownloadRequest::FetchManifest(info) => DownloadRequestModel::FetchManifest(info@),
            DownloadRequest::ReadManifest(info) => DownloadRequestModel::ReadManifest(info@),
            DownloadRequest::LocateLibrary(url, name) => DownloadRequestModel::LocateLibrary(
                url@,
                name_text(name),
            ),
            DownloadRequest::FetchLibrary(dll) => DownloadRequestModel::FetchLibrary(dll@),
            DownloadRequest::Nothing => DownloadRequestModel::Nothing,
        }
    }
}

/// How far a download has come.
#[derive(Debug)]
enum DownloadStage {
    Base,
    Manifests(Walk),
    Resolving { resolve: Resolve, raw: Vec<RawLibrary> },
    Libraries { resolution: Resolution, fetched: usize, raw: Vec<RawLibrary> },
    Raw { raw: Vec<RawLibrary>, done: usize, located: Option<DllInfo> },
    Over,
}

/// A library that a manifest names on its own, without a manifest of its own.
#[derive(Debug)]
struct RawLibrary {
    url: Url,
    name: Option<String>,
}

/// A library that a manifest names on its own, in terms of sequences.
#[verifier::ext_equal]
pub struct RawModel {
    pub url: Seq<char>,
    pub name: Option<Seq<char>>,
}

impl View for RawLibrary {
    type V = RawModel;

    closed spec fn view(&self) -> RawModel {
        RawModel { url: self.url@, name: name_text(self.name) }
    }
}

/// What a list of libraries says.
spec fn raw_models(raw: Seq<RawLibrary>) -> Seq<RawModel> {
    raw.map_values(|r: RawLibrary| r@)
}

/// The libraries among dependencies, in their order.
pub open spec fn raw_among(dependencies: Seq<DependencyModel>) -> Seq<RawModel>
    decreases dependencies.len(),
{
    if dependencies.len() == 0 {
        Seq::empty()
    } else {
        let before = raw_among(dependencies.drop_last());
        match dependencies.last() {
            DependencyModel::RawLib { url, name } => before.push(RawModel { url, name }),
            DependencyModel::DllPack { url } => before,
        }
    }
}

/// The libraries that manifests name on their own, one manifest after the other.
pub open spec fn raw_libraries(nodes: Seq<NodeModel>) -> Seq<RawModel>
    decreases nodes.len(),
{
    if nodes.len() == 0 {
        Seq::empty()
    } else {
        raw_libraries(nodes.drop_last()) + raw_among(nodes.last().manifest.dependencies)
    }
}

/// How far a download has come, in terms of sequences.
pub enum DownloadStageModel {
    /// The base manifest is to be located.
    Base,
    /// The manifests are being fetched.
    Manifests(WalkModel),
    /// The libraries are being found out. Those in `raw` are known from the manifests.
    Resolving { resolve: ResolveModel, raw: Seq<RawModel> },
    /// The library files are being fetched, the main one last.
    Libraries { resolution: ResolutionModel, fetched: nat, raw: Seq<RawModel> },
    /// The library files of `raw` are being located and fetched, one after the other.
    Raw { raw: Seq<RawModel>, done: nat, located: Option<DllModel> },
    /// All is in the cache.
    Over,
}

/// A download, in terms of sequences.
pub struct DownloadModel {
    pub url: Seq<char>,
    pub platform: Seq<char>,
    pub stage: DownloadStageModel,
}

/// What follows on a state of the walk over the manifests.
pub open spec fn after_fetching(url: Seq<char>, platform: Seq<char>, walk: WalkModel) -> DownloadModel {
    DownloadModel {
        url,
        platform,
        stage: if walk.ask is Finished {
            DownloadStageModel::Resolving {
                resolve: ResolveModel::start(url, platform),
                raw: raw_libraries(walk.graph.nodes),
            }
        } else {
            DownloadStageModel::Manifests(walk)
        },
    }
}

/// What follows on a state of the resolution.
pub open spec fn after_resolving(
    url: Seq<char>,
    platform: Seq<char>,
    resolve: ResolveModel,
    raw: Seq<RawModel>,
) -> DownloadModel {
    DownloadModel {
        url,
        platform,
        stage: match resolve.stage {
            StageModel::Over(resolution) => DownloadStageModel::Libraries {
                resolution,
                fetched: 0,
                raw,
            },
            _ => DownloadStageModel::Resolving { resolve, raw },
        },
    }
}

/// What follows when `done` of the library files of `raw` are fetched.
pub open spec fn raw_stage(raw: Seq<RawModel>, done: nat) -> DownloadStageModel {
    if done < raw.len() {
        DownloadStageModel::Raw { raw, done, located: None }
    } else {
        DownloadStageModel::Over
    }
}

/// The library file that is fetched when `fetched` are: the next of those that
/// the main library depends on and, behind the last, the main one.
pub open spec fn library_to_fetch(resolution: ResolutionModel, fetched: nat) -> DllModel {
    if fetched < resolution.dependencies.len() {
        resolution.dependencies[fetched as int]
    } else {
        resolution.main
    }
}

/// What fetching a manifest came to, as the reply of a walk.
pub open spec fn fetched_reply<E>(reply: Result<Seq<(Seq<char>, PlatformModel)>, E>) -> ReplyModel<E> {
    match reply {
        Ok(file) => ReplyModel::Found(file),
        Err(e) => ReplyModel::Unreadable(e),
    }
}

/// What became of fetching a manifest.
pub open spec fn file_model<E>(reply: Result<DllPackFile, E>) -> Result<
    Seq<(Seq<char>, PlatformModel)>,
    E,
> {
    match reply {
        Ok(file) => Ok(file@),
        Err(e) => Err(e),
    }
}

impl DownloadModel {
    /// A download that has not begun.
    pub open spec fn start(url: Seq<char>, platform: Seq<char>) -> DownloadModel {
        DownloadModel { url, platform, stage: DownloadStageModel::Base }
    }

    /// What the download needs next.
    pub open spec fn request(self) -> DownloadRequestModel {
        match self.stage {
            DownloadStageModel::Base => DownloadRequestModel::LocateManifest(self.url),
            DownloadStageModel::Manifests(walk) => match walk.ask {
                AskModel::Read(info) => DownloadRequestModel::FetchManifest(info),
                AskModel::Locate(url) => DownloadRequestModel::LocateManifest(url),
                AskModel::Finished => DownloadRequestModel::Nothing,
            },
            DownloadStageModel::Resolving { resolve, raw } => match resolve.request() {
                RequestModel::LocateManifest(url) => DownloadRequestModel::LocateManifest(url),
                RequestModel::ReadManifest(info) => DownloadRequestModel::ReadManifest(info),
                RequestModel::LocateLibrary(url, name) => DownloadRequestModel::LocateLibrary(url, name),
                RequestModel::Nothing => DownloadRequestModel::Nothing,
            },
            DownloadStageModel::Libraries {
                resolution,
                fetched,
                raw,
            } => DownloadRequestModel::FetchLibrary(library_to_fetch(resolution, fetched)),
            DownloadStageModel::Raw { raw, done, located } => match located {
                None => DownloadRequestModel::LocateLibrary(
                    raw[done as int].url,
                    raw[done as int].name,
                ),
                Some(dll) => DownloadRequestModel::FetchLibrary(dll),
            },
            DownloadStageModel::Over => DownloadRequestModel::Nothing,
        }
    }

    /// The download after a manifest was located.
    pub open spec fn after_manifest<E>(self, reply: Result<InfoModel, E>) -> Result<
        DownloadModel,
        FailureModel<E>,
    > {
        match self.stage {
            DownloadStageModel::Manifests(walk) => match walk.after_locate(reply) {
                Err(failure) => Err(failure),
                Ok(next) => Ok(after_fetching(self.url, self.platform, next)),
            },
            DownloadStageModel::Resolving { resolve, raw } => match resolve.after_manifest(reply) {
                Err(failure) => Err(failure),
                Ok(next) => Ok(after_resolving(self.url, self.platform, next, raw)),
            },
            _ => match reply {
                Err(e) => Err(FailureModel::Outside(e)),
                Ok(info) => Ok(
                    DownloadModel {
                        stage: DownloadStageModel::Manifests(WalkModel::start(info, self.platform)),
                        ..self
                    },
                ),
            },
        }
    }

    /// The download after a manifest was fetched.
    pub open spec fn after_fetch<E>(self, reply: Result<Seq<(Seq<char>, PlatformModel)>, E>) -> Result<
        DownloadModel,
        FailureModel<E>,
    > {
        match self.stage->Manifests_0.after_read(fetched_reply(reply)) {
            Err(failure) => Err(failure),
            Ok(next) => Ok(after_fetching(self.url, self.platform, next)),
        }
    }

    /// The download after a manifest was read from the cache.
    pub open spec fn after_read<E>(self, reply: ReplyModel<E>) -> Result<
        DownloadModel,
        FailureModel<E>,
    > {
        match self.stage->resolve.after_read(reply) {
            Err(failure) => Err(failure),
            Ok(next) => Ok(
                after_resolving(self.url, self.platform, next, self.stage->Resolving_raw),
            ),
        }
    }

    /// The download after a library file was located.
    pub open spec fn after_library<E>(self, reply: Result<DllModel, E>) -> Result<
        DownloadModel,
        FailureModel<E>,
    > {
        match self.stage {
            DownloadStageModel::Raw { raw, done, located } => match reply {
                Err(e) => Err(FailureModel::Outside(e)),
                Ok(dll) => Ok(
                    DownloadModel {
                        stage: DownloadStageModel::Raw { raw, done, located: Some(dll) },
                        ..self
                    },
                ),
            },
            _ => match self.stage->resolve.after_library(reply) {
                Err(failure) => Err(failure),
                Ok(next) => Ok(
                    after_resolving(self.url, self.platform, next, self.stage->Resolving_raw),
                ),
            },
        }
    }

    /// The download after a library file was fetched.
    pub open spec fn after_library_fetch<E>(self, reply: Result<(), E>) -> Result<
        DownloadModel,
        FailureModel<E>,
    > {
        match reply {
            Err(e) => Err(FailureModel::Outside(e)),
            Ok(_) => Ok(
                DownloadModel {
                    stage: match self.stage {
                        DownloadStageModel::Raw { raw, done, located } => raw_stage(raw, done + 1),
                        _ => {
                            let resolution = self.stage->resolution;
                            let fetched = self.stage->fetched;
                            let raw = self.stage->Libraries_raw;
                            if fetched < resolution.dependencies.len() {
                                DownloadStageModel::Libraries {
                                    resolution,
                                    fetched: fetched + 1,
                                    raw,
                                }
                            } else {
                                raw_stage(raw, 0)
                            }
                        },
                    },
                    ..self
                },
            ),
        }
    }
}

/// The download of a pack for one platform.
#[derive(Debug)]
pub struct Download {
    url: Url,
    platform: String,
    stage: DownloadStage,
}

impl View for Download {
    type V = DownloadModel;

    closed spec fn view(&self) -> DownloadModel {
        DownloadModel {
            url: self.url@,
            platform: self.platform@,
            stage: match self.stage {
                DownloadStage::Base => DownloadStageModel::Base,
                DownloadStage::Manifests(walk) => DownloadStageModel::Manifests(walk@),
                DownloadStage::Resolving { resolve, raw } => DownloadStageModel::Resolving {
                    resolve: resolve@,
                    raw: raw_models(raw@),
                },
                DownloadStage::Libraries { resolution, fetched, raw } => DownloadStageModel::Libraries {
                    resolution: resolution@,
                    fetched: fetched as nat,
                    raw: raw_models(raw@),
                },
                DownloadStage::Raw { raw, done, located } => DownloadStageModel::Raw {
                    raw: raw_models(raw@),
                    done: done as nat,
                    located: match located {
                        Some(dll) => Some(dll@),
                        None => None,
                    },
                },
                DownloadStage::Over => DownloadStageModel::Over,
            },
        }
    }
}

/// Starts the download of the pack at `url` for `platform`.
pub fn download(url: &Url, platform: &str) -> (download: Download)
    ensures
        download.wf(),
        download@ == DownloadModel::start(url@, platform@),
        download@.request() == DownloadRequestModel::LocateManifest(url@),
        download@.platform == platform@,
{
    Download { url: url.copy(), platform: platform.to_owned(), stage: DownloadStage::Base }
}

/// Puts the libraries among dependencies behind the others.
fn push_raw_among(all: &mut Vec<RawLibrary>, dependencies: &Vec<Dependency>)
    ensures
        raw_models(final(all)@) == raw_models(old(all)@) + raw_among(
            dependency_models(dependencies@),
        ),
{
    let ghost before = raw_models(all@);
    let ghost models = dependency_models(dependencies@);
    let mut i: usize = 0;
    assert(models.take(0) =~= Seq::empty());
    assert(before + raw_among(models.take(0)) =~= before);
    while i < dependencies.len()
        invariant
            i <= dependencies@.len(),
            models == dependency_models(dependencies@),
            raw_models(all@) == before + raw_among(models.take(i as int)),
        decreases dependencies@.len() - i,
    {
        let ghost all_before = raw_models(all@);
        assert(models.take(i + 1).drop_last() =~= models.take(i as int));
        assert(models.take(i + 1).last() == dependencies@[i as int]@);
        match &dependencies[i] {
            Dependency::RawLib { url, name } => {
                let library = RawLibrary { url: url.copy(), name: copy_name(name) };
                let ghost model = library@;
                all.push(library);
                assert(raw_models(all@) =~= all_before.push(model));
                assert(all_before.push(model) =~= before + raw_among(models.take(i as int)).push(model));
            },
            Dependency::DllPack { url: _ } => {},
        }
        i += 1;
    }
    assert(models.take(models.len() as int) =~= models);
}

/// The libraries that the manifests of a graph name on their own.
fn raw_libraries_of(graph: &ManifestGraph) -> (raw: Vec<RawLibrary>)
    ensures
        raw_models(raw@) == raw_libraries(graph@.nodes),
{
    let mut raw: Vec<RawLibrary> = Vec::new();
    let ghost nodes = graph@.nodes;
    let mut i: usize = 0;
    assert(nodes.take(0) =~= Seq::empty());
    assert(raw_models(raw@) =~= raw_libraries(nodes.take(0)));
    while i < graph.nodes.len()
        invariant
            i <= graph.nodes@.len(),
            nodes == graph@.nodes,
            raw_models(raw@) == raw_libraries(nodes.take(i as int)),
        decreases graph.nodes@.len() - i,
    {
        assert(nodes.take(i + 1).drop_last() =~= nodes.take(i as int));
        assert(nodes.take(i + 1).last() == graph.nodes@[i as int]@);
        push_raw_among(&mut raw, &graph.nodes[i].manifest.dependencies);
        i += 1;
    }
    assert(nodes.take(nodes.len() as int) =~= nodes);
    raw
}

impl Download {
    /// A download is well formed if the walk or the resolution that it holds is.
    pub closed spec fn wf(&self) -> bool {
        match self.stage {
            DownloadStage::Base => true,
            DownloadStage::Manifests(walk) => walk.wf() && !(walk@.ask is Finished),
            DownloadStage::Resolving { resolve, raw } => resolve.wf() && !(
            resolve@.request() is Nothing),
            DownloadStage::Libraries { resolution, fetched, raw } => fetched
                <= resolution.dependencies@.len(),
            DownloadStage::Raw { raw, done, located } => done < raw@.len(),
            DownloadStage::Over => true,
        }
    }

    /// What the download needs next.
    pub fn request(&self) -> (request: DownloadRequest)
        requires
            self.wf(),
        ensures
            request@ == self@.request(),
            match self@.stage {
                DownloadStageModel::Base => request matches DownloadRequest::LocateManifest(u) && u@
                    == self@.url,
                DownloadStageModel::Manifests(walk) => match walk.ask {
                    AskModel::Read(info) => request matches DownloadRequest::FetchManifest(i) && i@
                        == info,
                    AskModel::Locate(url) => request matches DownloadRequest::LocateManifest(u) && u@
                        == url,
                    AskModel::Finished => request is Nothing,
                },
                DownloadStageModel::Resolving { resolve, raw } => match resolve.request() {
                    RequestModel::LocateManifest(url) => request
                        matches DownloadRequest::LocateManifest(u) && u@ == url,
                    RequestModel::ReadManifest(info) => request matches DownloadRequest::ReadManifest(i)
                        && i@ == info,
                    RequestModel::LocateLibrary(url, name) => request
                        matches DownloadRequest::LocateLibrary(u, n) && u@ == url && name_text(n)
                        == name,
                    RequestModel::Nothing => request is Nothing,
                },
                DownloadStageModel::Libraries { resolution, fetched, raw } => request
                    matches DownloadRequest::FetchLibrary(dll) && dll@ == if fetched
                    < resolution.dependencies.len() {
                    resolution.dependencies[fetched as int]
                } else {
                    resolution.main
                },
                DownloadStageModel::Raw { raw, done, located } => match located {
                    None => request matches DownloadRequest::LocateLibrary(u, n) && u@
                        == raw[done as int].url && name_text(n) == raw[done as int].name,
                    Some(file) => request matches DownloadRequest::FetchLibrary(dll) && dll@ == file,
                },
                DownloadStageModel::Over => request is Nothing,
            },
    {
        match &self.stage {
            DownloadStage::Base => DownloadRequest::LocateManifest(self.url.copy()),
            DownloadStage::Manifests(walk) => match walk.ask() {
                Ask::Read(info) => DownloadRequest::FetchManifest(info),
                Ask::Locate(url) => DownloadRequest::LocateManifest(url),
                Ask::Finished => DownloadRequest::Nothing,
            },
            DownloadStage::Resolving { resolve, raw: _ } => match resolve.request() {
                Request::LocateManifest(url) => DownloadRequest::LocateManifest(url),
                Request::ReadManifest(info) => DownloadRequest::ReadManifest(info),
                Request::LocateLibrary(url, name) => DownloadRequest::LocateLibrary(url, name),
                Request::Nothing => DownloadRequest::Nothing,
            },
            DownloadStage::Libraries { resolution, fetched, raw: _ } => {
                if *fetched < resolution.dependencies.len() {
                    DownloadRequest::FetchLibrary(resolution.dependencies[*fetched].copy())
                } else {
                    DownloadRequest::FetchLibrary(resolution.main.copy())
                }
            },
            DownloadStage::Raw { raw, done, located } => match located {
                None => {
                    let library = &raw[*done];
                    assert(raw_models(raw@)[*done as int] == library@);
                    DownloadRequest::LocateLibrary(library.url.copy(), copy_name(&library.name))
                },
                Some(dll) => DownloadRequest::FetchLibrary(dll.copy()),
            },
            DownloadStage::Over => DownloadRequest::Nothing,
        }
    }

    /// Goes on from a state of the walk over the manifests.
    fn fetching(url: Url, platform: String, walk: Walk) -> (download: Download)
        requires
            walk.wf(),
        ensures
            download.wf(),
            download@ == after_fetching(url@, platform@, walk@),
    {
        match walk.ask() {
            Ask::Read(_) | Ask::Locate(_) => Download {
                url,
                platform,
                stage: DownloadStage::Manifests(walk),
            },
            Ask::Finished => {
                let resolve = resolve(&url, platform.as_str());
                let graph = walk.into_graph();
                let raw = raw_libraries_of(&graph);
                Download { url, platform, stage: DownloadStage::Resolving { resolve, raw } }
            },
        }
    }

    /// Goes on from a state of the resolution.
    fn resolving(url: Url, platform: String, resolve: Resolve, raw: Vec<RawLibrary>) -> (download:
        Download)
        requires
            resolve.wf(),
        ensures
            download.wf(),
            download@ == after_resolving(url@, platform@, resolve@, raw_models(raw@)),
    {
        match resolve.request() {
            Request::Nothing => {
                proof {
                    resolve.lemma_over();
                }
                let resolution = resolve.finish();
                let stage = DownloadStage::Libraries { resolution, fetched: 0, raw };
                Download { url, platform, stage }
            },
            _ => {
                proof {
                    resolve.lemma_over();
                }
                Download { url, platform, stage: DownloadStage::Resolving { resolve, raw } }
            },
        }
    }

    /// Goes on when `done` of the library files of `raw` are fetched.
    fn fetching_raw(url: Url, platform: String, raw: Vec<RawLibrary>, done: usize) -> (download:
        Download)
        ensures
            download.wf(),
            download@ == (DownloadModel {
                url: url@,
                platform: platform@,
                stage: raw_stage(raw_models(raw@), done as nat),
            }),
    {
        if done < raw.len() {
            Download { url, platform, stage: DownloadStage::Raw { raw, done, located: None } }
        } else {
            Download { url, platform, stage: DownloadStage::Over }
        }
    }

    /// Goes on with the place of a manifest.
    pub fn manifest_located<E>(self, reply: Result<ManifestInfo, E>) -> (next: Result<
        Download,
        Failure<E>,
    >)
        requires
            self.wf(),
            self@.request() is LocateManifest,
        ensures
            match next {
                Ok(download) => download.wf() && self@.after_manifest(located_model(reply)) == Ok::<
                    DownloadModel,
                    FailureModel<E>,
                >(download@),
                Err(failure) => self@.after_manifest(located_model(reply)) == Err::<
                    DownloadModel,
                    FailureModel<E>,
                >(failure@),
            },
            match reply {
                Err(e) => next == Err::<Download, Failure<E>>(Failure::Outside(e)),
                Ok(info) => {
                    &&& self@.stage is Base ==> (next matches Ok(download) && download@.request()
                        == DownloadRequestModel::FetchManifest(info@))
                    &&& next matches Err(failure) ==> failure@ is Circular && self@.stage is Resolving
                },
            },
    {
        let Download { url, platform, stage } = self;
        match stage {
            DownloadStage::Manifests(walk) => match walk.located(reply) {
                Err(failure) => Err(failure),
                Ok(walk) => Ok(Download::fetching(url, platform, walk)),
            },
            DownloadStage::Resolving { resolve, raw } => match resolve.manifest_located(reply) {
                Err(failure) => Err(failure),
                Ok(resolve) => Ok(Download::resolving(url, platform, resolve, raw)),
            },
            _ => match reply {
                Err(e) => Err(Failure::Outside(e)),
                Ok(info) => {
                    let walk = Walk::start(info, &platform);
                    Ok(Download { url, platform, stage: DownloadStage::Manifests(walk) })
                },
            },
        }
    }

    /// Goes on with what a manifest that was fetched says.
    pub fn manifest_fetched<E>(self, reply: Result<DllPackFile, E>) -> (next: Result<
        Download,
        Failure<E>,
    >)
        requires
            self.wf(),
            self@.request() is FetchManifest,
        ensures
            match next {
                Ok(download) => download.wf() && self@.after_fetch(file_model(reply)) == Ok::<
                    DownloadModel,
                    FailureModel<E>,
                >(download@),
                Err(failure) => self@.after_fetch(file_model(reply)) == Err::<
                    DownloadModel,
                    FailureModel<E>,
                >(failure@),
            },
            match reply {
                Err(e) => next == Err::<Download, Failure<E>>(Failure::Outside(e)),
                Ok(file) => {
                    let platform = self@.stage->Manifests_0.platform;
                    &&& next is Err <==> forall|i: int|
                        0 <= i < file.platforms@.len() ==> (#[trigger] file.platforms@[i]).0@ != platform
                    &&& next matches Err(failure) ==> failure@ == FailureModel::<E>::Unsupported(platform)
                },
            },
    {
        let Download { url, platform, stage } = self;
        let read: ManifestReply<E> = match reply {
            Ok(file) => ManifestReply::Found(file),
            Err(e) => ManifestReply::Unreadable(e),
        };
        match stage {
            DownloadStage::Manifests(walk) => match walk.read(read) {
                Err(failure) => Err(failure),
                Ok(walk) => Ok(Download::fetching(url, platform, walk)),
            },
            _ => vstd::pervasive::unreached(),
        }
    }

    /// Goes on with what a manifest in the cache says.
    pub fn manifest_read<E>(self, reply: ManifestReply<E>) -> (next: Result<Download, Failure<E>>)
        requires
            self.wf(),
            self@.request() is ReadManifest,
        ensures
            match next {
                Ok(download) => download.wf() && self@.after_read(reply@) == Ok::<
                    DownloadModel,
                    FailureModel<E>,
                >(download@),
                Err(failure) => self@.after_read(reply@) == Err::<DownloadModel, FailureModel<E>>(
                    failure@,
                ),
            },
            match reply {
                ManifestReply::Missing => next matches Err(failure) && failure@
                    == FailureModel::<E>::ManifestNotFound(self@.request()->ReadManifest_0),
                ManifestReply::Unreadable(e) => next == Err::<Download, Failure<E>>(
                    Failure::Outside(e),
                ),
                ManifestReply::Found(file) => {
                    let platform = self@.stage->resolve.stage->Walking_0.platform;
                    if forall|i: int|
                        0 <= i < file.platforms@.len() ==> (#[trigger] file.platforms@[i]).0@
                            != platform {
                        next matches Err(failure) && failure@ == FailureModel::<E>::Unsupported(
                            platform,
                        )
                    } else {
                        next matches Err(failure) ==> failure@ is Circular
                    }
                },
            },
    {
        let Download { url, platform, stage } = self;
        match stage {
            DownloadStage::Resolving { resolve, raw } => match resolve.manifest_read(reply) {
                Err(failure) => Err(failure),
                Ok(resolve) => Ok(Download::resolving(url, platform, resolve, raw)),
            },
            _ => vstd::pervasive::unreached(),
        }
    }

    /// Goes on with the place of a library file.
    pub fn library_located<E>(self, reply: Result<DllInfo, E>) -> (next: Result<Download, Failure<E>>)
        requires
            self.wf(),
            self@.request() is LocateLibrary,
        ensures
            match next {
                Ok(download) => download.wf() && self@.after_library(library_model(reply)) == Ok::<
                    DownloadModel,
                    FailureModel<E>,
                >(download@),
                Err(failure) => self@.after_library(library_model(reply)) == Err::<
                    DownloadModel,
                    FailureModel<E>,
                >(failure@),
            },
            match reply {
                Err(e) => next == Err::<Download, Failure<E>>(Failure::Outside(e)),
                Ok(dll) => {
                    &&& next is Ok
                    &&& self@.stage is Raw ==> next->Ok_0@.request()
                        == DownloadRequestModel::FetchLibrary(dll@)
                },
            },
    {
        let Download { url, platform, stage } = self;
        match stage {
            DownloadStage::Resolving { resolve, raw } => match resolve.library_located(reply) {
                Err(failure) => Err(failure),
                Ok(resolve) => Ok(Download::resolving(url, platform, resolve, raw)),
            },
            DownloadStage::Raw { raw, done, located: _ } => match reply {
                Err(e) => Err(Failure::Outside(e)),
                Ok(dll) => {
                    let stage = DownloadStage::Raw { raw, done, located: Some(dll) };
                    Ok(Download { url, platform, stage })
                },
            },
            _ => vstd::pervasive::unreached(),
        }
    }

    /// Goes on after a library file was fetched, or was not.
    pub fn library_fetched<E>(self, reply: Result<(), E>) -> (next: Result<Download, Failure<E>>)
        requires
            self.wf(),
            self@.request() is FetchLibrary,
        ensures
            match next {
                Ok(download) => download.wf() && self@.after_library_fetch(reply) == Ok::<
                    DownloadModel,
                    FailureModel<E>,
                >(download@),
                Err(failure) => self@.after_library_fetch(reply) == Err::<
                    DownloadModel,
                    FailureModel<E>,
                >(failure@),
            },
            match reply {
                Err(e) => next == Err::<Download, Failure<E>>(Failure::Outside(e)),
                Ok(_) => next matches Ok(download) && match self@.stage {
                    DownloadStageModel::Libraries { resolution, fetched, raw } => if fetched
                        < resolution.dependencies.len() {
                        download@.stage == (DownloadStageModel::Libraries {
                            resolution,
                            fetched: fetched + 1,
                            raw,
                        })
                    } else if raw.len() > 0 {
                        download@.stage == (DownloadStageModel::Raw { raw, done: 0, located: None })
                    } else {
                        download@.stage is Over
                    },
                    DownloadStageModel::Raw { raw, done, located } => if done + 1 < raw.len() {
                        download@.stage == (DownloadStageModel::Raw {
                            raw,
                            done: done + 1,
                            located: None,
                        })
                    } else {
                        download@.stage is Over
                    },
                    _ => true,
                },
            },
    {
        let Download { url, platform, stage } = self;
        match stage {
            DownloadStage::Libraries { resolution, fetched, raw } => match reply {
                Err(e) => Err(Failure::Outside(e)),
                Ok(_) => {
                    if fetched < resolution.dependencies.len() {
                        let stage = DownloadStage::Libraries { resolution, fetched: fetched + 1, raw };
                        Ok(Download { url, platform, stage })
                    } else {
                        Ok(Download::fetching_raw(url, platform, raw, 0))
                    }
                },
            },
            DownloadStage::Raw { raw, done, located: _ } => match reply {
                Err(e) => Err(Failure::Outside(e)),
                Ok(_) => {
                    assert(done < raw.len());
                    Ok(Download::fetching_raw(url, platform, raw, done + 1))
                },
            },
            _ => vstd::pervasive::unreached(),
        }
    }
}

} // verus!
