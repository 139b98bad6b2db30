//! What the models of manifests, libraries and replies say.
use vstd::prelude::*;

use crate::cached::{
    cached_library_model, found_models, info_models, CachedLibrary, CachedLibraryModel, CachedReply,
    CachedReplyModel, SearchRequest, SearchRequestModel,
};
use crate::download::{fetched_reply, file_model, DownloadRequest, DownloadRequestModel};
use crate::failure::{Failure, FailureModel, ResolveError};
use crate::load::{LoadError, LoadErrorModel, Plan, PlanModel};
use crate::manifest::{
    dll_models, info_before, platform_entry, Dependency, DependencyModel, DllInfo, DllModel,
    DllPackFile, InfoModel, ManifestInfo, PlatformModel,
};
use crate::pack_url::{url_before, Url};
use crate::resolve::{library_model, Request, RequestModel, Resolution};
use crate::text::bytes_before;
use crate::walk::{located_model, ManifestReply, ReplyModel};

verus! {

/// The entry of a file for a platform is the first that is listed under exactly that
/// name. There is one exactly where some entry is listed under that name.
pub proof fn entry_is_listed_under_the_platform(
    file: Seq<(Seq<char>, PlatformModel)>,
    platform: Seq<char>,
)
    ensures
        platform_entry(file, platform) is None <==> forall|i: int|
            0 <= i < file.len() ==> (#[trigger] file[i]).0 != platform,
        platform_entry(file, platform) matches Some(m) ==> exists|i: int|
            0 <= i < file.len() && (#[trigger] file[i]).0 == platform && file[i].1 == m && forall|
                j: int,
            |
                0 <= j < i ==> (#[trigger] file[j]).0 != platform,
    decreases file.len(),
{
    if file.len() > 0 {
        let rest = file.drop_first();
        entry_is_listed_under_the_platform(rest, platform);
        if file[0].0 != platform {
            assert forall|i: int| 0 <= i < rest.len() implies #[trigger] rest[i] == file[i + 1] by {}
            match platform_entry(rest, platform) {
                None => {
                    assert forall|i: int| 0 <= i < file.len() implies (#[trigger] file[i]).0
                        != platform by {
                        if i > 0 {
                            assert(rest[i - 1].0 != platform);
                        }
                    }
                },
                Some(m) => {
                    let i = choose|i: int|
                        0 <= i < rest.len() && (#[trigger] rest[i]).0 == platform && rest[i].1 == m
                            && forall|j: int| 0 <= j < i ==> (#[trigger] rest[j]).0 != platform;
                    assert(file[i + 1].0 == platform && file[i + 1].1 == m);
                    assert forall|j: int| 0 <= j < i + 1 implies (#[trigger] file[j]).0 != platform by {
                        if j > 0 {
                            assert(rest[j - 1].0 != platform);
                        }
                    }
                },
            }
        }
    }
}

/// What a file gives for a platform does not depend on entries under other names, in
/// front of its entry or behind it.
pub proof fn other_platforms_do_not_matter(
    before: Seq<(Seq<char>, PlatformModel)>,
    platform: Seq<char>,
    entry: PlatformModel,
    behind: Seq<(Seq<char>, PlatformModel)>,
)
    requires
        forall|i: int| 0 <= i < before.len() ==> (#[trigger] before[i]).0 != platform,
    ensures
        platform_entry(before.push((platform, entry)) + behind, platform) == Some(entry),
        platform_entry(before, platform) is None,
{
    let file = before.push((platform, entry)) + behind;
    let at = before.len() as int;
    entry_is_listed_under_the_platform(before, platform);
    entry_is_listed_under_the_platform(file, platform);
    assert(file[at] == (platform, entry));
    match platform_entry(file, platform) {
        None => {
            assert(file[at].0 != platform);
        },
        Some(m) => {
            let i = choose|i: int|
                0 <= i < file.len() && (#[trigger] file[i]).0 == platform && file[i].1 == m && forall|
                    j: int,
                |
                    0 <= j < i ==> (#[trigger] file[j]).0 != platform;
            if i < at {
                assert(before[i] == file[i]);
            } else if i > at {
                assert(file[at].0 != platform);
            }
        },
    }
}

/// Manifests are ordered by their URLs, and those with the same URL by the bytes of
/// their paths.
pub proof fn manifests_are_ordered_by_url_first(a: InfoModel, b: InfoModel)
    ensures
        a.url != b.url ==> (info_before(a, b) <==> url_before(a.url, b.url)),
        a.url == b.url ==> (info_before(a, b) <==> bytes_before(a.path, b.path)),
{
}

/// The model of a URL is its text; that of a manifest's place is its URL and its path,
/// and that of a library's place also its name.
pub proof fn places_say_what_they_hold(url: Url, info: ManifestInfo, dll: DllInfo)
    ensures
        url@ == url.serialization@,
        info@.url == info.url.serialization@,
        info@.path == info.path@,
        dll@.url == dll.url.serialization@,
        dll@.name == dll.name@,
        dll@.path == dll.path@,
{
}

/// The model of a dependency is of its kind, with its URL and, for a bare library, its name.
pub proof fn dependencies_say_what_they_hold(dependency: Dependency)
    ensures
        match dependency {
            Dependency::DllPack { url } => dependency@ == (DependencyModel::DllPack {
                url: url.serialization@,
            }),
            Dependency::RawLib { url, name } => dependency@ is RawLib && dependency@->RawLib_url
                == url.serialization@ && (name matches Some(n) ==> dependency@->name == Some(n@)) && (
            name is None ==> dependency@->name is None),
        },
{
}

/// The model of a file has all its platforms in their order, each with its name, its
/// library and all its dependencies in their order.
pub proof fn files_say_what_they_hold(file: DllPackFile)
    ensures
        file@.len() == file.platforms@.len(),
        forall|i: int|
            0 <= i < file@.len() ==> {
                let entry = file.platforms@[i].1;
                &&& (#[trigger] file@[i]).0 == file.platforms@[i].0@
                &&& file@[i].1.url == entry.url.serialization@
                &&& entry.name matches Some(n) ==> file@[i].1.name == Some(n@)
                &&& entry.name is None ==> file@[i].1.name is None
                &&& file@[i].1.dependencies.len() == entry.dependencies@.len()
                &&& forall|j: int|
                    0 <= j < entry.dependencies@.len() ==> #[trigger] file@[i].1.dependencies[j]
                        == entry.dependencies@[j]@
            },
{
}

/// Replies are taken as they came: what was located, read, fetched or found, with all
/// that it says, or the error of the surroundings.
pub proof fn replies_are_taken_as_they_came<E>(
    located: Result<ManifestInfo, E>,
    read: ManifestReply<E>,
    fetched: Result<DllPackFile, E>,
    library: Result<DllInfo, E>,
    cached: CachedReply<E>,
    cached_library: Result<CachedLibrary, E>,
)
    ensures
        match located {
            Ok(info) => located_model(located) == Ok::<InfoModel, E>(info@),
            Err(e) => located_model(located) == Err::<InfoModel, E>(e),
        },
        match read {
            ManifestReply::Missing => read@ == ReplyModel::<E>::Missing,
            ManifestReply::Unreadable(e) => read@ == ReplyModel::Unreadable(e),
            ManifestReply::Found(file) => read@ == ReplyModel::<E>::Found(file@),
        },
        match fetched {
            Ok(file) => fetched_reply(file_model(fetched)) == ReplyModel::<E>::Found(file@),
            Err(e) => fetched_reply(file_model(fetched)) == ReplyModel::Unreadable(e),
        },
        match library {
            Ok(dll) => library_model(library) == Ok::<DllModel, E>(dll@),
            Err(e) => library_model(library) == Err::<DllModel, E>(e),
        },
        match cached {
            CachedReply::Absent => cached@ == CachedReplyModel::<E>::Absent,
            CachedReply::Unparsable(e) => cached@ == CachedReplyModel::Unparsable(e),
            CachedReply::Found(file) => cached@ == CachedReplyModel::<E>::Found(file@),
        },
        match cached_library {
            Ok(l) => cached_library_model(cached_library) matches Ok(m) && m.url == l.url.serialization@
                && (l.path matches Some(p) ==> m.path == Some(p@)) && (l.path is None ==> m.path is None),
            Err(e) => cached_library_model(cached_library) == Err::<CachedLibraryModel, E>(e),
        },
{
}

/// What was fetched is read whole, and an error of the fetch is an error of the reading.
pub proof fn fetched_files_are_read_whole<E>(
    file: Seq<(Seq<char>, PlatformModel)>,
    e: E,
)
    ensures
        fetched_reply(Ok::<Seq<(Seq<char>, PlatformModel)>, E>(file)) == ReplyModel::<E>::Found(file),
        fetched_reply(Err::<Seq<(Seq<char>, PlatformModel)>, E>(e)) == ReplyModel::Unreadable(e),
{
}

/// Failures say what they hold, each of its kind.
pub proof fn failures_say_what_they_hold<E>(failure: Failure<E>, error: ResolveError, load: LoadError<E>)
    ensures
        match error {
            ResolveError::PlatformNotSupported(platform) => error@ == platform@,
        },
        match failure {
            Failure::ManifestNotFound(info) => failure@ == FailureModel::<E>::ManifestNotFound(info@),
            Failure::Unsupported(ResolveError::PlatformNotSupported(platform)) => failure@
                == FailureModel::<E>::Unsupported(platform@),
            Failure::Circular(platform) => failure@ == FailureModel::<E>::Circular(platform@),
            Failure::Outside(e) => failure@ == FailureModel::Outside(e),
        },
        match load {
            LoadError::Resolve(f) => load@ == LoadErrorModel::Resolve(f@),
            LoadError::WasmDependencies => load@ == LoadErrorModel::<E>::WasmDependencies,
        },
{
}

/// What comes out of a resolution, of a loading or of a search says what it holds, all
/// of it and in its order.
pub proof fn results_say_what_they_hold(
    resolution: Resolution,
    plan: Plan,
    dlls: Seq<DllInfo>,
    found: Seq<(String, Vec<u8>)>,
    infos: Seq<ManifestInfo>,
)
    ensures
        resolution@.main == resolution.main@,
        resolution@.dependencies.len() == resolution.dependencies@.len(),
        forall|i: int|
            0 <= i < resolution.dependencies@.len() ==> #[trigger] resolution@.dependencies[i]
                == resolution.dependencies@[i]@,
        match plan {
            Plan::Native(libraries) => plan@ == PlanModel::Native(libraries@),
            Plan::Module(dll) => plan@ == PlanModel::Module(dll@),
        },
        dll_models(dlls).len() == dlls.len(),
        forall|i: int| 0 <= i < dlls.len() ==> #[trigger] dll_models(dlls)[i] == dlls[i]@,
        found_models(found).len() == found.len(),
        forall|i: int|
            0 <= i < found.len() ==> (#[trigger] found_models(found)[i]).url == found[i].0@
                && found_models(found)[i].path == found[i].1@,
        info_models(infos).len() == infos.len(),
        forall|i: int| 0 <= i < infos.len() ==> #[trigger] info_models(infos)[i] == infos[i]@,
{
}

/// Requests say what they hold, each of its kind.
pub proof fn requests_say_what_they_hold(
    request: Request,
    download: DownloadRequest,
    search: SearchRequest,
)
    ensures
        match request {
            Request::LocateManifest(url) => request@ == RequestModel::LocateManifest(
                url.serialization@,
            ),
            Request::ReadManifest(info) => request@ == RequestModel::ReadManifest(info@),
            Request::LocateLibrary(url, name) => request@ is LocateLibrary && request@->LocateLibrary_0
                == url.serialization@ && (name matches Some(n) ==> request@->LocateLibrary_1 == Some(
                n@,
            )) && (name is None ==> request@->LocateLibrary_1 is None),
            Request::Nothing => request@ == RequestModel::Nothing,
        },
        match download {
            DownloadRequest::LocateManifest(url) => download@ == DownloadRequestModel::LocateManifest(
                url.serialization@,
            ),
            DownloadRequest::FetchManifest(info) => download@ == DownloadRequestModel::FetchManifest(
                info@,
            ),
            DownloadRequest::ReadManifest(info) => download@ == DownloadRequestModel::ReadManifest(
                info@,
            ),
            DownloadRequest::LocateLibrary(url, name) => download@ is LocateLibrary
                && download@->LocateLibrary_0 == url.serialization@ && (name matches Some(n)
                ==> download@->LocateLibrary_1 == Some(n@)) && (name is None
                ==> download@->LocateLibrary_1 is None),
            DownloadRequest::FetchLibrary(dll) => download@ == DownloadRequestModel::FetchLibrary(dll@),
            DownloadRequest::Nothing => download@ == DownloadRequestModel::Nothing,
        },
        match search {
            SearchRequest::LocateManifest(url) => search@ == SearchRequestModel::LocateManifest(
                url.serialization@,
            ),
            SearchRequest::ReadManifest(info) => search@ == SearchRequestModel::ReadManifest(info@),
            SearchRequest::LocateLibrary(url, name) => search@ is LocateLibrary
                && search@->LocateLibrary_0 == url.serialization@ && (name matches Some(n)
                ==> search@->LocateLibrary_1 == Some(n@)) && (name is None
                ==> search@->LocateLibrary_1 is None),
            SearchRequest::Nothing => search@ == SearchRequestModel::Nothing,
        },
{
}

} // verus!
