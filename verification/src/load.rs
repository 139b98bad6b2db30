//! The loading of a pack, up to the point where its libraries are opened.
//!
//! A pack is loaded natively, or as a Wasm module that has no dependencies. Where
//! it has nothing for this platform it is loaded as a module.
use vstd::prelude::*;

use crate::failure::{Failure, FailureModel};
use crate::manifest::{DllInfo, DllModel, ManifestInfo};
use crate::pack_url::Url;
use crate::resolve::{
    library_model, resolve, Request, RequestModel, Resolution, ResolutionModel, Resolve,
    ResolveModel, StageModel,
};
use crate::text::{contains_part, has_part};
use crate::walk::{located_model, ManifestReply};

verus! {

/// Whether a platform is a Wasm one.
pub open spec fn wasm_platform(platform: Seq<char>) -> bool {
    has_part(platform, "wasm"@)
}

/// Tells whether a platform is a Wasm one.
pub fn is_wasm(platform: &str) -> (wasm: bool)
    ensures
        wasm == wasm_platform(platform@),
{
    contains_part(platform, "wasm")
}

/// What is to be loaded.
#[derive(Debug)]
pub enum Plan {
    /// Native libraries.
    Native(Resolution),
    /// The one module that the pack is.
    Module(DllInfo),
}

/// What is to be loaded, in terms of sequences.
pub enum PlanModel {
    Native(ResolutionModel),
    Module(DllModel),
}

impl View for Plan {
    type V = PlanModel;

    open spec fn view(&self) -> PlanModel {
        match *self {
            Plan::Native(libraries) => PlanModel::Native(libraries@),
            Plan::Module(dll) => PlanModel::Module(dll@),
        }
    }
}

/// Why there is nothing to load. `E` is what the surroundings report when they fail.
#[derive(Debug)]
pub enum LoadError<E> {
    /// The resolution failed.
    Resolve(Failure<E>),
    /// The pack has dependencies and is to be loaded as a module.
    WasmDependencies,
}

/// An error, in terms of sequences.
#[verifier::reject_recursive_types(E)]
pub enum LoadErrorModel<E> {
    Resolve(FailureModel<E>),
    WasmDependencies,
}

impl<E> View for LoadError<E> {
    type V = LoadErrorModel<E>;

    open spec fn view(&self) -> LoadErrorModel<E> {
        match *self {
            LoadError::Resolve(failure) => LoadErrorModel::Resolve(failure@),
            LoadError::WasmDependencies => LoadErrorModel::WasmDependencies,
        }
    }
}

/// How far a loading has come.
#[derive(Debug)]
enum LoadStage {
    Resolving(Resolve),
    Over(Plan),
}

/// How far a loading has come, in terms of sequences.
pub enum LoadStageModel {
    /// The libraries are being found out.
    Resolving(ResolveModel),
    /// It is known what is to be loaded.
    Over(PlanModel),
}

/// A loading, in terms of sequences.
pub struct LoadModel {
    pub url: Seq<char>,
    /// Whether the pack is loaded as a module.
    pub wasm: bool,
    /// Whether a module is tried where the pack has nothing for the platform.
    pub fallback: bool,
    pub stage: LoadStageModel,
}

/// What is to be loaded of a pack with these libraries. A module cannot have dependencies.
pub open spec fn plan_of<E>(libraries: ResolutionModel, wasm: bool) -> Result<
    PlanModel,
    LoadErrorModel<E>,
> {
    if !wasm {
        Ok(PlanModel::Native(libraries))
    } else if libraries.dependencies.len() > 0 {
        Err(LoadErrorModel::WasmDependencies)
    } else {
        Ok(PlanModel::Module(libraries.main))
    }
}

impl LoadModel {
    /// A loading for one platform.
    pub open spec fn start(url: Seq<char>, platform: Seq<char>, wasm: bool, fallback: bool) -> LoadModel {
        LoadModel {
            url,
            wasm,
            fallback,
            stage: LoadStageModel::Resolving(ResolveModel::start(url, platform)),
        }
    }

    /// What the loading needs next.
    pub open spec fn request(self) -> RequestModel {
        match self.stage {
            LoadStageModel::Resolving(resolve) => resolve.request(),
            LoadStageModel::Over(_) => RequestModel::Nothing,
        }
    }

    /// What follows on a step of the resolution.
    pub open spec fn after<E>(self, next: Result<ResolveModel, FailureModel<E>>) -> Result<
        LoadModel,
        LoadErrorModel<E>,
    > {
        after_resolving(self.url, self.wasm, self.fallback, next)
    }
}

/// What follows on a step of the resolution. Where the pack has nothing for the
/// platform, and a second attempt is allowed, it is made.
pub open spec fn after_resolving<E>(
    url: Seq<char>,
    wasm: bool,
    fallback: bool,
    next: Result<ResolveModel, FailureModel<E>>,
) -> Result<LoadModel, LoadErrorModel<E>> {
    match next {
        Err(failure) => if fallback && failure is Unsupported {
            Ok(LoadModel::start(url, "wasm32-wasip1"@, true, false))
        } else {
            Err(LoadErrorModel::Resolve(failure))
        },
        Ok(resolve) => match resolve.stage {
            StageModel::Over(libraries) => match plan_of::<E>(libraries, wasm) {
                Err(error) => Err(error),
                Ok(plan) => Ok(
                    LoadModel { url, wasm, fallback, stage: LoadStageModel::Over(plan) },
                ),
            },
            _ => Ok(LoadModel { url, wasm, fallback, stage: LoadStageModel::Resolving(resolve) }),
        },
    }
}

/// The loading of a pack.
#[derive(Debug)]
pub struct Load {
    url: Url,
    wasm: bool,
    fallback: bool,
    stage: LoadStage,
}

impl View for Load {
    type V = LoadModel;

    closed spec fn view(&self) -> LoadModel {
        LoadModel {
            url: self.url@,
            wasm: self.wasm,
            fallback: self.fallback,
            stage: match self.stage {
                LoadStage::Resolving(resolve) => LoadStageModel::Resolving(resolve@),
                LoadStage::Over(plan) => LoadStageModel::Over(plan@),
            },
        }
    }
}

/// Starts to load the pack at `url` as a module.
pub fn load_with_wasm(url: &Url, platform: &str) -> (load: Load)
    ensures
        load.wf(),
        load@ == LoadModel::start(url@, platform@, true, false),
        load@.url == url@ && load@.wasm && !load@.fallback,
        load@.stage == LoadStageModel::Resolving(ResolveModel::start(url@, platform@)),
{
    Load::start(url, platform, true, false)
}

/// Starts to load the pack at `url` for `platform`, as a module if it is a Wasm one.
pub fn load_with_platform(url: &Url, platform: &str) -> (load: Load)
    ensures
        load.wf(),
        load@ == LoadModel::start(url@, platform@, wasm_platform(platform@), false),
        load@.url == url@ && load@.wasm == wasm_platform(platform@) && !load@.fallback,
        load@.stage == LoadStageModel::Resolving(ResolveModel::start(url@, platform@)),
{
    if is_wasm(platform) {
        return load_with_wasm(url, platform);
    }
    Load::start(url, platform, false, false)
}

/// Starts to load the pack at `url` for `this_platform`, and as a module where it
/// has nothing for that.
pub fn load(url: &Url, this_platform: &str) -> (load: Load)
    ensures
        load.wf(),
        load@ == LoadModel::start(url@, this_platform@, wasm_platform(this_platform@), true),
        load@.url == url@ && load@.wasm == wasm_platform(this_platform@) && load@.fallback,
        load@.stage == LoadStageModel::Resolving(ResolveModel::start(url@, this_platform@)),
{
    let first = load_with_platform(url, this_platform);
    Load { fallback: true, ..first }
}

/// What became of a step, as a state or an error.
pub open spec fn step_model<E>(next: Result<Load, LoadError<E>>) -> Result<
    LoadModel,
    LoadErrorModel<E>,
> {
    match next {
        Ok(load) => Ok(load@),
        Err(error) => Err(error@),
    }
}

impl Load {
    /// A loading is well formed if its resolution is, and is not over.
    pub closed spec fn wf(&self) -> bool {
        match self.stage {
            LoadStage::Resolving(resolve) => resolve.wf() && !(resolve@.stage is Over),
            LoadStage::Over(_) => true,
        }
    }

    /// A loading needs nothing more exactly if it is known what is to be loaded.
    pub proof fn lemma_over(&self)
        requires
            self.wf(),
        ensures
            self@.request() is Nothing <==> self@.stage is Over,
    {
        match self.stage {
            LoadStage::Resolving(resolve) => {
                resolve.lemma_over();
            },
            LoadStage::Over(_) => {},
        }
    }

    /// A loading that has not begun.
    fn start(url: &Url, platform: &str, wasm: bool, fallback: bool) -> (load: Load)
        ensures
            load.wf(),
            load@ == LoadModel::start(url@, platform@, wasm, fallback),
            load@.url == url@ && load@.wasm == wasm && load@.fallback == fallback,
            load@.stage == LoadStageModel::Resolving(ResolveModel::start(url@, platform@)),
    {
        Load {
            url: url.copy(),
            wasm,
            fallback,
            stage: LoadStage::Resolving(resolve(url, platform)),
        }
    }

    /// What the loading needs next.
    pub fn request(&self) -> (request: Request)
        requires
            self.wf(),
        ensures
            request@ == self@.request(),
            match self@.stage {
                LoadStageModel::Resolving(resolve) => request@ == resolve.request(),
                LoadStageModel::Over(_) => request is Nothing,
            },
    {
        match &self.stage {
            LoadStage::Resolving(resolve) => resolve.request(),
            LoadStage::Over(_) => Request::Nothing,
        }
    }

    /// Goes on from a step of the resolution.
    fn resolved<E>(url: Url, wasm: bool, fallback: bool, next: Result<Resolve, Failure<E>>) -> (load:
        Result<Load, LoadError<E>>)
        requires
            next matches Ok(resolve) ==> resolve.wf(),
        ensures
            load matches Ok(load) ==> load.wf(),
            step_model(load) == after_resolving(
                url@,
                wasm,
                fallback,
                match next {
                    Ok(resolve) => Ok(resolve@),
                    Err(failure) => Err(failure@),
                },
            ),
            match next {
                Err(failure) => if fallback && failure is Unsupported {
                    load matches Ok(load) && load@ == (LoadModel {
                        url: url@,
                        wasm: true,
                        fallback: false,
                        stage: LoadStageModel::Resolving(ResolveModel::start(url@, "wasm32-wasip1"@)),
                    })
                } else {
                    load matches Err(LoadError::Resolve(why)) && why == failure
                },
                Ok(resolve) => match resolve@.stage {
                    StageModel::Over(libraries) => if wasm && libraries.dependencies.len() > 0 {
                        load matches Err(LoadError::WasmDependencies)
                    } else {
                        load matches Ok(load) && load@.stage == LoadStageModel::Over(
                            if wasm {
                                PlanModel::Module(libraries.main)
                            } else {
                                PlanModel::Native(libraries)
                            },
                        )
                    },
                    _ => load matches Ok(load) && load@ == (LoadModel {
                        url: url@,
                        wasm,
                        fallback,
                        stage: LoadStageModel::Resolving(resolve@),
                    }),
                },
            },
    {
        match next {
            Err(failure) => {
                let unsupported = match &failure {
                    Failure::Unsupported(_) => true,
                    _ => false,
                };
                if fallback && unsupported {
                    Ok(load_with_wasm(&url, "wasm32-wasip1"))
                } else {
                    Err(LoadError::Resolve(failure))
                }
            },
            Ok(resolve) => {
                proof {
                    resolve.lemma_over();
                }
                match resolve.request() {
                    Request::Nothing => {
                        let libraries = resolve.finish();
                        if !wasm {
                            let stage = LoadStage::Over(Plan::Native(libraries));
                            return Ok(Load { url, wasm, fallback, stage });
                        }
                        if libraries.dependencies.len() > 0 {
                            return Err(LoadError::WasmDependencies);
                        }
                        let stage = LoadStage::Over(Plan::Module(libraries.main));
                        Ok(Load { url, wasm, fallback, stage })
                    },
                    _ => Ok(Load { url, wasm, fallback, stage: LoadStage::Resolving(resolve) }),
                }
            },
        }
    }

    /// Goes on with the place of a manifest.
    pub fn manifest_located<E>(self, reply: Result<ManifestInfo, E>) -> (next: Result<
        Load,
        LoadError<E>,
    >)
        requires
            self.wf(),
            self@.request() is LocateManifest,
        ensures
            next matches Ok(load) ==> load.wf(),
            step_model(next) == self@.after(
                self@.stage->Resolving_0.after_manifest(located_model(reply)),
            ),
    {
        let Load { url, wasm, fallback, stage } = self;
        match stage {
            LoadStage::Resolving(resolve) => {
                let next = resolve.manifest_located(reply);
                Load::resolved(url, wasm, fallback, next)
            },
            _ => vstd::pervasive::unreached(),
        }
    }

    /// Goes on with what a manifest says.
    pub fn manifest_read<E>(self, reply: ManifestReply<E>) -> (next: Result<Load, LoadError<E>>)
        requires
            self.wf(),
            self@.request() is ReadManifest,
        ensures
            next matches Ok(load) ==> load.wf(),
            step_model(next) == self@.after(self@.stage->Resolving_0.after_read(reply@)),
    {
        let Load { url, wasm, fallback, stage } = self;
        match stage {
            LoadStage::Resolving(resolve) => {
                let next = resolve.manifest_read(reply);
                Load::resolved(url, wasm, fallback, next)
            },
            _ => vstd::pervasive::unreached(),
        }
    }

    /// Goes on with the place of a library file.
    pub fn library_located<E>(self, reply: Result<DllInfo, E>) -> (next: Result<Load, LoadError<E>>)
        requires
            self.wf(),
            self@.request() is LocateLibrary,
        ensures
            next matches Ok(load) ==> load.wf(),
            step_model(next) == self@.after(
                self@.stage->Resolving_0.after_library(library_model(reply)),
            ),
    {
        let Load { url, wasm, fallback, stage } = self;
        match stage {
            LoadStage::Resolving(resolve) => {
                let next = resolve.library_located(reply);
                Load::resolved(url, wasm, fallback, next)
            },
            _ => vstd::pervasive::unreached(),
        }
    }

    /// What is to be loaded, once nothing more is needed.
    pub fn finish(self) -> (plan: Plan)
        requires
            self.wf(),
            self@.request() is Nothing,
        ensures
            self@.stage == LoadStageModel::Over(plan@),
            match plan {
                Plan::Native(libraries) => self@.stage == LoadStageModel::Over(
                    PlanModel::Native(libraries@),
                ),
                Plan::Module(dll) => self@.stage == LoadStageModel::Over(PlanModel::Module(dll@)),
            },
    {
        proof {
            self.lemma_over();
        }
        match self.stage {
            LoadStage::Over(plan) => plan,
            _ => vstd::pervasive::unreached(),
        }
    }
}

} // verus!
