//! The operations of a task, one after the other, are the steps of its run.
//!
//! Each task is started, asked what it needs, and handed the answer. In surroundings
//! that answer the same request always alike, what comes of that is the next step.
use vstd::prelude::*;

use crate::cached::{
    get_all_cached_dependencies, CacheSearch, CachedLibrary, CachedLibraryModel, CachedReply,
    CachedReplyModel, SearchFailure, SearchModel, SearchRequest,
};
use crate::cached_laws::{search_step, CacheWorld};
use crate::download::{download, Download, DownloadModel, DownloadRequest};
use crate::download_laws::{download_step, DownloadWorld};
use crate::failure::{Failure, FailureModel};
use crate::load::{
    load, load_with_platform, load_with_wasm, Load, LoadError, LoadErrorModel, LoadModel,
    LoadStageModel, Plan, PlanModel,
};
use crate::load_laws::load_step;
use crate::manifest::{DllInfo, DllModel, DllPackFile, InfoModel, ManifestInfo, PlatformModel};
use crate::module_load::{ModuleLoad, ModuleRequest};
use crate::pack_url::Url;
use crate::resolve::{resolve, Request, Resolution, Resolve, ResolveModel, StageModel};
use crate::resolve_laws::resolve_step;
use crate::text_laws::{wasm_letters_make_a_wasm_platform, wasm_platforms_have_the_letters};
use crate::walk::{Ask, AskModel, ManifestReply, ReplyModel, Walk, WalkModel};
use crate::walk_laws::{walk_step, World};

verus! {

/// Whether a name is held as this text, or both are none.
pub open spec fn is_name(name: Option<String>, text: Option<Seq<char>>) -> bool {
    match name {
        Some(n) => text == Some(n@),
        None => text is None,
    }
}

/// Whether a manifest was located as a world says.
pub open spec fn located_as<E>(reply: Result<ManifestInfo, E>, said: Result<InfoModel, E>) -> bool {
    match reply {
        Ok(info) => said matches Ok(i) && i.url == info.url.serialization@ && i.path == info.path@,
        Err(e) => said == Err::<InfoModel, E>(e),
    }
}

/// Whether a library file was located as a world says.
pub open spec fn library_as<E>(reply: Result<DllInfo, E>, said: Result<DllModel, E>) -> bool {
    match reply {
        Ok(dll) => said matches Ok(d) && d.url == dll.url.serialization@ && d.name == dll.name@
            && d.path == dll.path@,
        Err(e) => said == Err::<DllModel, E>(e),
    }
}

/// Whether a manifest was read as a world says.
pub open spec fn read_as<E>(reply: ManifestReply<E>, said: ReplyModel<E>) -> bool {
    match reply {
        ManifestReply::Missing => said is Missing,
        ManifestReply::Unreadable(e) => said == ReplyModel::Unreadable(e),
        ManifestReply::Found(file) => said == ReplyModel::<E>::Found(file@),
    }
}

/// A walk starts with the base manifest, for the platform, with nothing read.
pub proof fn walk_starts_at_the_base(base: ManifestInfo, platform: &String, start: Walk)
    requires
        call_ensures(Walk::start, (base, platform), start),
    ensures
        start.wf(),
        start@ == WalkModel::start(base@, platform@),
        start@.ask == AskModel::Read(base@),
        start@.platform == platform@,
        start@.graph.nodes.len() == 0,
{
}

/// An operation of a walk, answered as the world says, is a step of its run.
pub proof fn walk_goes_step_by_step<E>(
    w: World<E>,
    before: Walk,
    ask: Ask,
    read: ManifestReply<E>,
    located: Result<ManifestInfo, E>,
    next: Result<Walk, Failure<E>>,
)
    requires
        call_ensures(Walk::ask, (&before,), ask),
        match ask {
            Ask::Read(info) => read_as(read, (w.read)(info@)) && call_ensures(
                Walk::read::<E>,
                (before, read),
                next,
            ),
            Ask::Locate(url) => located_as(located, (w.locate)(url.serialization@)) && call_ensures(
                Walk::located::<E>,
                (before, located),
                next,
            ),
            Ask::Finished => next == Ok::<Walk, Failure<E>>(before),
        },
    ensures
        match next {
            Ok(later) => walk_step(w, before@) == Ok::<WalkModel, FailureModel<E>>(later@),
            Err(failure) => walk_step(w, before@) == Err::<WalkModel, FailureModel<E>>(failure@),
        },
{
}

/// A resolution starts with the place of the base manifest, for the platform.
pub proof fn resolve_starts_at_the_base(base_url: &Url, platform: &str, start: Resolve)
    requires
        call_ensures(resolve, (base_url, platform), start),
    ensures
        start.wf(),
        start@ == ResolveModel::start(base_url.serialization@, platform@),
        start@.base_url == base_url.serialization@,
        start@.platform == platform@,
        start@.stage is Base,
{
}

/// An operation of a resolution, answered as the world says, is a step of its run.
pub proof fn resolve_goes_step_by_step<E>(
    w: World<E>,
    before: Resolve,
    request: Request,
    located: Result<ManifestInfo, E>,
    read: ManifestReply<E>,
    library: Result<DllInfo, E>,
    next: Result<Resolve, Failure<E>>,
)
    requires
        call_ensures(Resolve::request, (&before,), request),
        match request {
            Request::LocateManifest(url) => located_as(located, (w.locate)(url.serialization@))
                && call_ensures(Resolve::manifest_located::<E>, (before, located), next),
            Request::ReadManifest(info) => read_as(read, (w.read)(info@)) && call_ensures(
                Resolve::manifest_read::<E>,
                (before, read),
                next,
            ),
            Request::LocateLibrary(url, name) => exists|text: Option<Seq<char>>|
                is_name(name, text) && library_as(
                    library,
                    #[trigger] (w.library)(url.serialization@, text),
                ) && call_ensures(Resolve::library_located::<E>, (before, library), next),
            Request::Nothing => next == Ok::<Resolve, Failure<E>>(before),
        },
    ensures
        match next {
            Ok(later) => resolve_step(w, before@) == Ok::<ResolveModel, FailureModel<E>>(later@),
            Err(failure) => resolve_step(w, before@) == Err::<ResolveModel, FailureModel<E>>(
                failure@,
            ),
        },
{
}

/// What a resolution comes to is what its run came to.
pub proof fn resolve_finishes_as_it_is(end: Resolve, resolution: Resolution)
    requires
        call_ensures(Resolve::finish, (end,), resolution),
    ensures
        end@.stage matches StageModel::Over(r) && r.main.url == resolution.main.url.serialization@
            && r.main.name == resolution.main.name@ && r.main.path == resolution.main.path@
            && r.dependencies.len() == resolution.dependencies@.len() && forall|i: int|
            0 <= i < resolution.dependencies@.len() ==> (
            #[trigger] resolution.dependencies@[i])@ == r.dependencies[i],
{
}

/// A download starts with the place of the base manifest, for the platform.
pub proof fn download_starts_at_the_base(url: &Url, platform: &str, start: Download)
    requires
        call_ensures(download, (url, platform), start),
    ensures
        start.wf(),
        start@ == DownloadModel::start(url.serialization@, platform@),
        start@.url == url.serialization@,
        start@.platform == platform@,
        start@.stage is Base,
{
}

/// Whether a manifest was fetched as a world says.
pub open spec fn fetched_as<E>(
    reply: Result<DllPackFile, E>,
    said: Result<Seq<(Seq<char>, PlatformModel)>, E>,
) -> bool {
    match reply {
        Ok(file) => said == Ok::<Seq<(Seq<char>, PlatformModel)>, E>(file@),
        Err(e) => said == Err::<Seq<(Seq<char>, PlatformModel)>, E>(e),
    }
}

/// An operation of a download, answered as the world says, is a step of its run.
pub proof fn download_goes_step_by_step<E>(
    w: DownloadWorld<E>,
    before: Download,
    request: DownloadRequest,
    located: Result<ManifestInfo, E>,
    fetched: Result<DllPackFile, E>,
    read: ManifestReply<E>,
    library: Result<DllInfo, E>,
    library_fetched: Result<(), E>,
    next: Result<Download, Failure<E>>,
)
    requires
        call_ensures(Download::request, (&before,), request),
        match request {
            DownloadRequest::LocateManifest(url) => located_as(
                located,
                (w.cache.locate)(url.serialization@),
            ) && call_ensures(Download::manifest_located::<E>, (before, located), next),
            DownloadRequest::FetchManifest(info) => fetched_as(fetched, (w.fetch)(info@))
                && call_ensures(Download::manifest_fetched::<E>, (before, fetched), next),
            DownloadRequest::ReadManifest(info) => read_as(read, (w.cache.read)(info@))
                && call_ensures(Download::manifest_read::<E>, (before, read), next),
            DownloadRequest::LocateLibrary(url, name) => exists|text: Option<Seq<char>>|
                is_name(name, text) && library_as(
                    library,
                    #[trigger] (w.cache.library)(url.serialization@, text),
                ) && call_ensures(Download::library_located::<E>, (before, library), next),
            DownloadRequest::FetchLibrary(dll) => library_fetched == (w.fetch_library)(dll@)
                && call_ensures(Download::library_fetched::<E>, (before, library_fetched), next),
            DownloadRequest::Nothing => next == Ok::<Download, Failure<E>>(before),
        },
    ensures
        match next {
            Ok(later) => download_step(w, before@) == Ok::<DownloadModel, FailureModel<E>>(later@),
            Err(failure) => download_step(w, before@) == Err::<DownloadModel, FailureModel<E>>(
                failure@,
            ),
        },
{
}

/// A search starts with the place of the main manifest.
pub proof fn search_starts_at_the_main_manifest(url: &Url, start: CacheSearch)
    requires
        call_ensures(get_all_cached_dependencies, (url,), start),
    ensures
        start.wf(),
        start@ == SearchModel::Base(url.serialization@),
{
}

/// Whether a manifest was read from the cache as a world says.
pub open spec fn cached_as<E>(reply: CachedReply<E>, said: CachedReplyModel<E>) -> bool {
    match reply {
        CachedReply::Absent => said is Absent,
        CachedReply::Unparsable(e) => said == CachedReplyModel::Unparsable(e),
        CachedReply::Found(file) => said == CachedReplyModel::<E>::Found(file@),
    }
}

/// Whether a library file was looked for in the cache as a world says.
pub open spec fn cached_library_as<E>(
    reply: Result<CachedLibrary, E>,
    said: Result<CachedLibraryModel, E>,
) -> bool {
    match reply {
        Ok(library) => said matches Ok(l) && l.url == library.url.serialization@ && match library.path {
            Some(path) => l.path == Some(path@),
            None => l.path is None,
        },
        Err(e) => said == Err::<CachedLibraryModel, E>(e),
    }
}

/// An operation of a search, answered as the cache says, is a step of its run.
pub proof fn search_goes_step_by_step<E>(
    w: CacheWorld<E>,
    before: CacheSearch,
    request: SearchRequest,
    located: Result<ManifestInfo, E>,
    read: CachedReply<E>,
    library: Result<CachedLibrary, E>,
    next: Result<CacheSearch, SearchFailure<E>>,
)
    requires
        call_ensures(CacheSearch::request, (&before,), request),
        match request {
            SearchRequest::LocateManifest(url) => located_as(located, (w.locate)(url.serialization@))
                && call_ensures(CacheSearch::manifest_located::<E>, (before, located), next),
            SearchRequest::ReadManifest(info) => cached_as(read, (w.read)(info@)) && call_ensures(
                CacheSearch::manifest_read::<E>,
                (before, read),
                next,
            ),
            SearchRequest::LocateLibrary(url, name) => exists|text: Option<Seq<char>>|
                is_name(name, text) && cached_library_as(
                    library,
                    #[trigger] (w.library)(url.serialization@, text),
                ) && call_ensures(CacheSearch::library_located::<E>, (before, library), next),
            SearchRequest::Nothing => next == Ok::<CacheSearch, SearchFailure<E>>(before),
        },
    ensures
        match next {
            Ok(later) => search_step(w, before@) == Ok::<SearchModel, SearchFailure<E>>(later@),
            Err(failure) => search_step(w, before@) == Err::<SearchModel, SearchFailure<E>>(failure),
        },
{
}

/// What a search comes to is what its run has found: all of it, in its order, each with
/// its URL and its path. It comes to nothing exactly where the main manifest was not
/// there.
pub proof fn search_finishes_as_it_is(end: CacheSearch, result: Option<Vec<(String, Vec<u8>)>>)
    requires
        end.wf(),
        call_ensures(CacheSearch::finish, (end,), result),
    ensures
        match result {
            Some(found) => end@ matches SearchModel::Working {
                todo,
                pending,
                visited,
                found: all,
            } && found@.len() == all.len() && forall|i: int|
                0 <= i < found@.len() ==> (#[trigger] found@[i]).0@ == all[i].url && found@[i].1@
                    == all[i].path,
            None => !(end@ is Working),
        },
{
}

/// A loading starts with the resolution for the platform. It is one of a module where
/// that is asked for, or where the platform's name has `wasm` in it, and only the loading
/// for this platform may make a second attempt.
pub proof fn load_starts_with_the_resolution(
    url: &Url,
    platform: &str,
    module: Load,
    one: Load,
    this: Load,
)
    requires
        call_ensures(load_with_wasm, (url, platform), module),
        call_ensures(load_with_platform, (url, platform), one),
        call_ensures(load, (url, platform), this),
    ensures
        module.wf() && one.wf() && this.wf(),
        module@.wasm && !module@.fallback && !one@.fallback && this@.fallback,
        one@.wasm == this@.wasm,
        (exists|before: Seq<char>, behind: Seq<char>|
            platform@ == #[trigger] wasm_between(before, behind)) <==> one@.wasm,
        module@.url == url.serialization@ && one@.url == url.serialization@ && this@.url
            == url.serialization@,
        module@.stage == LoadStageModel::Resolving(
            ResolveModel::start(url.serialization@, platform@),
        ),
        one@.stage == module@.stage,
        this@.stage == module@.stage,
{
    if one@.wasm {
        let (before, behind) = wasm_platforms_have_the_letters(platform@);
        assert(platform@ == wasm_between(before, behind));
    }
    if exists|before: Seq<char>, behind: Seq<char>|
        platform@ == #[trigger] wasm_between(before, behind) {
        let (before, behind) = choose|before: Seq<char>, behind: Seq<char>|
            platform@ == #[trigger] wasm_between(before, behind);
        wasm_letters_make_a_wasm_platform(before, behind);
    }
}

/// The letters `wasm` between two texts.
pub open spec fn wasm_between(before: Seq<char>, behind: Seq<char>) -> Seq<char> {
    before + seq!['w', 'a', 's', 'm'] + behind
}

/// An operation of a loading, answered as the world says, is a step of its run.
pub proof fn load_goes_step_by_step<E>(
    w: World<E>,
    before: Load,
    request: Request,
    located: Result<ManifestInfo, E>,
    read: ManifestReply<E>,
    library: Result<DllInfo, E>,
    next: Result<Load, LoadError<E>>,
)
    requires
        before.wf(),
        call_ensures(Load::request, (&before,), request),
        match request {
            Request::LocateManifest(url) => located_as(located, (w.locate)(url.serialization@))
                && call_ensures(Load::manifest_located::<E>, (before, located), next),
            Request::ReadManifest(info) => read_as(read, (w.read)(info@)) && call_ensures(
                Load::manifest_read::<E>,
                (before, read),
                next,
            ),
            Request::LocateLibrary(url, name) => exists|text: Option<Seq<char>>|
                is_name(name, text) && library_as(
                    library,
                    #[trigger] (w.library)(url.serialization@, text),
                ) && call_ensures(Load::library_located::<E>, (before, library), next),
            Request::Nothing => next == Ok::<Load, LoadError<E>>(before),
        },
    ensures
        match next {
            Ok(later) => load_step(w, before@) == Ok::<LoadModel, LoadErrorModel<E>>(later@),
            Err(error) => load_step(w, before@) == Err::<LoadModel, LoadErrorModel<E>>(error@),
        },
{
    before.lemma_over();
}

/// What a loading comes to is what its run came to.
pub proof fn load_finishes_as_it_is(end: Load, plan: Plan)
    requires
        call_ensures(Load::finish, (end,), plan),
    ensures
        match plan {
            Plan::Native(libraries) => end@.stage == LoadStageModel::Over(
                PlanModel::Native(libraries@),
            ),
            Plan::Module(dll) => end@.stage == LoadStageModel::Over(PlanModel::Module(dll@)),
        },
{
}

/// The loading of a module starts with a look into the cache, and asks for what its
/// stage is missing.
pub proof fn module_load_asks_for_what_is_missing(
    start: ModuleLoad,
    load: &ModuleLoad,
    request: ModuleRequest,
)
    requires
        call_ensures(ModuleLoad::start, (), start),
        call_ensures(ModuleLoad::request, (load,), request),
    ensures
        start@ is Look,
        request is LookInCache <==> load@ is Look,
        request is ReadCache <==> load@ is Cached,
        request is ReadBinary <==> load@ is Binary,
        request is WriteCache <==> load@ is Write,
        request is Nothing <==> load@ is Over,
        request matches ModuleRequest::WriteCache(bytes) ==> bytes@ == load@->cache,
{
}

} // verus!
