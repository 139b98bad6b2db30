//! The search for all that the local cache holds of a pack, on any platform.
//!
//! The search touches nothing itself and never fetches. It says what it needs to
//! know of the cache next, and goes on with the reply.
use vstd::prelude::*;

use crate::manifest::{
    copy_name, name_text, Dependency, DependencyModel, DllPackFile, InfoModel, ManifestInfo,
    PlatformManifest, PlatformModel,
};
use crate::pack_url::Url;
use crate::text::copy_bytes;
use crate::walk::located_model;

verus! {

/// Something to look for in the cache.
#[derive(Debug)]
enum Task {
    Library(Url, Option<String>),
    Pack(Url),
}

/// A task, in terms of sequences.
pub enum TaskModel {
    /// A library file, by its URL and its name.
    Library(Seq<char>, Option<Seq<char>>),
    /// A manifest, by its URL.
    Pack(Seq<char>),
}

impl View for Task {
    type V = TaskModel;

    closed spec fn view(&self) -> TaskModel {
        match *self {
            Task::Library(url, name) => TaskModel::Library(url@, name_text(name)),
            Task::Pack(url) => TaskModel::Pack(url@),
        }
    }
}

/// What the tasks of a list are.
spec fn task_models(tasks: Seq<Task>) -> Seq<TaskModel> {
    tasks.map_values(|t: Task| t@)
}

/// What a dependency is looked for as.
pub open spec fn dependency_task(dependency: DependencyModel) -> TaskModel {
    match dependency {
        DependencyModel::DllPack { url } => TaskModel::Pack(url),
        DependencyModel::RawLib { url, name } => TaskModel::Library(url, name),
    }
}

/// What is to be looked for of a platform: its library, then its dependencies.
pub open spec fn platform_tasks(manifest: PlatformModel) -> Seq<TaskModel> {
    seq![TaskModel::Library(manifest.url, manifest.name)] + manifest.dependencies.map_values(
        |d: DependencyModel| dependency_task(d),
    )
}

/// What is to be looked for of a file: that of its platforms, one after the other.
pub open spec fn file_tasks(file: Seq<(Seq<char>, PlatformModel)>) -> Seq<TaskModel>
    decreases file.len(),
{
    if file.len() == 0 {
        Seq::empty()
    } else {
        file_tasks(file.drop_last()) + platform_tasks(file.last().1)
    }
}

/// Something that is in the cache: its URL and its path.
pub type Found = (String, Vec<u8>);

/// Something found, in terms of sequences.
#[verifier::ext_equal]
pub struct FoundModel {
    pub url: Seq<char>,
    pub path: Seq<u8>,
}

/// What a list of things found says.
pub open spec fn found_models(found: Seq<(String, Vec<u8>)>) -> Seq<FoundModel> {
    found.map_values(|f: (String, Vec<u8>)| FoundModel { url: f.0@, path: f.1@ })
}

/// What a list of manifests says.
pub open spec fn info_models(infos: Seq<ManifestInfo>) -> Seq<InfoModel> {
    infos.map_values(|i: ManifestInfo| i@)
}

/// What the search needs to know next.
#[derive(Debug)]
pub enum SearchRequest {
    /// Where the cache keeps the manifest of a URL.
    LocateManifest(Url),
    /// What a manifest says, if it is in the cache.
    ReadManifest(ManifestInfo),
    /// Whether a library file is in the cache, given its URL and its name.
    LocateLibrary(Url, Option<String>),
    /// Nothing more.
    Nothing,
}

/// A request of a search, in terms of sequences.
pub enum SearchRequestModel {
    LocateManifest(Seq<char>),
    ReadManifest(InfoModel),
    LocateLibrary(Seq<char>, Option<Seq<char>>),
    Nothing,
}

impl View for SearchRequest {
    type V = SearchRequestModel;

    open spec fn view(&self) -> SearchRequestModel {
        match *self {
            SearchRequest::LocateManifest(url) => SearchRequestModel::LocateManifest(url@),
            SearchRequest::ReadManifest(info) => SearchRequestModel::ReadManifest(info@),
            SearchRequest::LocateLibrary(url, name) => SearchRequestModel::LocateLibrary(
                url@,
                name_text(name),
            ),
            SearchRequest::Nothing => SearchRequestModel::Nothing,
        }
    }
}

/// What became of reading a manifest that may be in the cache.
#[derive(Debug)]
pub enum CachedReply<E> {
    /// It is not in the cache.
    Absent,
    /// It is there and makes no sense.
    Unparsable(E),
    /// It says this.
    Found(DllPackFile),
}

/// A reply on a manifest, in terms of sequences.
#[verifier::reject_recursive_types(E)]
pub enum CachedReplyModel<E> {
    Absent,
    Unparsable(E),
    Found(Seq<(Seq<char>, PlatformModel)>),
}

impl<E> View for CachedReply<E> {
    type V = CachedReplyModel<E>;

    open spec fn view(&self) -> CachedReplyModel<E> {
        match *self {
            CachedReply::Absent => CachedReplyModel::Absent,
            CachedReply::Unparsable(e) => CachedReplyModel::Unparsable(e),
            CachedReply::Found(file) => CachedReplyModel::Found(file@),
        }
    }
}

/// Where a library file is, if it is in the cache.
#[derive(Debug)]
pub struct CachedLibrary {
    pub url: Url,
    pub path: Option<Vec<u8>>,
}

/// A library file, in terms of sequences.
#[verifier::ext_equal]
pub struct CachedLibraryModel {
    pub url: Seq<char>,
    pub path: Option<Seq<u8>>,
}

impl View for CachedLibrary {
    type V = CachedLibraryModel;

    open spec fn view(&self) -> CachedLibraryModel {
        CachedLibraryModel {
            url: self.url@,
            path: match self.path {
                Some(path) => Some(path@),
                None => None,
            },
        }
    }
}

/// What became of locating a library file that may be in the cache.
pub open spec fn cached_library_model<E>(reply: Result<CachedLibrary, E>) -> Result<
    CachedLibraryModel,
    E,
> {
    match reply {
        Ok(library) => Ok(library@),
        Err(e) => Err(e),
    }
}

/// Why a search fails. `E` is what the surroundings report when they fail.
#[derive(Debug)]
pub enum SearchFailure<E> {
    /// The main manifest makes no sense.
    MainUnparsable(E),
    /// The manifest of a dependency makes no sense.
    DependentUnparsable(E),
    /// Something outside of the library failed.
    Outside(E),
}

/// The text for a main manifest that makes no sense, given why.
pub fn main_unparsable_message(why: &str) -> (text: String)
    ensures
        text@ == "Failed to parse the main dllpack file: "@ + why@,
{
    let mut text = "Failed to parse the main dllpack file: ".to_owned();
    text.append(why);
    text
}

/// The text for the manifest of a dependency that makes no sense, given why.
pub fn dependent_unparsable_message(why: &str) -> (text: String)
    ensures
        text@ == "Failed to parse a dependent dllpack file: "@ + why@,
{
    let mut text = "Failed to parse a dependent dllpack file: ".to_owned();
    text.append(why);
    text
}

/// How far a search has come.
#[derive(Debug)]
enum SearchStage {
    Base(Url),
    BaseRead(ManifestInfo),
    NotCached,
    Working {
        todo: Vec<Task>,
        next: usize,
        pending: Option<ManifestInfo>,
        visited: Vec<ManifestInfo>,
        found: Vec<Found>,
    },
}

/// How far a search has come, in terms of sequences.
pub enum SearchModel {
    /// The main manifest is to be located.
    Base(Seq<char>),
    /// The main manifest is to be read.
    BaseRead(InfoModel),
    /// The main manifest is not in the cache.
    NotCached,
    /// The tasks `todo` are left, in that order. Where there is a manifest
    /// `pending` it belongs to the first task and is to be read.
    Working {
        todo: Seq<TaskModel>,
        pending: Option<InfoModel>,
        visited: Seq<InfoModel>,
        found: Seq<FoundModel>,
    },
}

impl SearchModel {
    /// What the search needs to know next.
    pub open spec fn request(self) -> SearchRequestModel {
        match self {
            SearchModel::Base(url) => SearchRequestModel::LocateManifest(url),
            SearchModel::BaseRead(info) => SearchRequestModel::ReadManifest(info),
            SearchModel::NotCached => SearchRequestModel::Nothing,
            SearchModel::Working { todo, pending, visited, found } => match pending {
                Some(info) => SearchRequestModel::ReadManifest(info),
                None => if todo.len() == 0 {
                    SearchRequestModel::Nothing
                } else {
                    match todo[0] {
                        TaskModel::Library(url, name) => SearchRequestModel::LocateLibrary(url, name),
                        TaskModel::Pack(url) => SearchRequestModel::LocateManifest(url),
                    }
                },
            },
        }
    }

    /// The search after a manifest was located: one that was visited before is
    /// passed over, another one is read next.
    pub open spec fn after_manifest<E>(self, reply: Result<InfoModel, E>) -> Result<
        SearchModel,
        SearchFailure<E>,
    > {
        match reply {
            Err(e) => Err(SearchFailure::Outside(e)),
            Ok(info) => Ok(
                match self {
                    SearchModel::Working { todo, pending, visited, found } => if visited.contains(
                        info,
                    ) {
                        SearchModel::Working { todo: todo.drop_first(), pending: None, visited, found }
                    } else {
                        SearchModel::Working { todo, pending: Some(info), visited, found }
                    },
                    _ => SearchModel::BaseRead(info),
                },
            ),
        }
    }

    /// The search after a manifest was read. One that is in the cache is found,
    /// and what it names is looked for behind all else.
    pub open spec fn after_read<E>(self, reply: CachedReplyModel<E>) -> Result<
        SearchModel,
        SearchFailure<E>,
    > {
        match self {
            SearchModel::Working { todo, pending, visited, found } => match reply {
                CachedReplyModel::Absent => Ok(
                    SearchModel::Working { todo: todo.drop_first(), pending: None, visited, found },
                ),
                CachedReplyModel::Unparsable(e) => Err(SearchFailure::DependentUnparsable(e)),
                CachedReplyModel::Found(file) => Ok(
                    SearchModel::Working {
                        todo: todo.drop_first() + file_tasks(file),
                        pending: None,
                        visited: visited.push(pending->0),
                        found: found.push(
                            FoundModel { url: todo[0]->Pack_0, path: (pending->0).path },
                        ),
                    },
                ),
            },
            _ => {
                let info = self->BaseRead_0;
                match reply {
                    CachedReplyModel::Absent => Ok(SearchModel::NotCached),
                    CachedReplyModel::Unparsable(e) => Err(SearchFailure::MainUnparsable(e)),
                    CachedReplyModel::Found(file) => Ok(
                        SearchModel::Working {
                            todo: file_tasks(file),
                            pending: None,
                            visited: seq![info],
                            found: seq![FoundModel { url: info.url, path: info.path }],
                        },
                    ),
                }
            },
        }
    }

    /// The search after a library file was located, in the cache or not.
    pub open spec fn after_library<E>(self, reply: Result<CachedLibraryModel, E>) -> Result<
        SearchModel,
        SearchFailure<E>,
    > {
        let todo = self->Working_todo;
        let visited = self->Working_visited;
        let found = self->Working_found;
        match reply {
            Err(e) => Err(SearchFailure::Outside(e)),
            Ok(library) => Ok(
                SearchModel::Working {
                    todo: todo.drop_first(),
                    pending: None,
                    visited,
                    found: match library.path {
                        Some(path) => found.push(FoundModel { url: library.url, path }),
                        None => found,
                    },
                },
            ),
        }
    }

    /// Whether a pending manifest belongs to a task that is left.
    pub open spec fn wf(self) -> bool {
        match self {
            SearchModel::Working { todo, pending, visited, found } => pending is Some ==> todo.len() > 0
                && todo[0] is Pack,
            _ => true,
        }
    }

    /// What a search that needs nothing more has found.
    pub open spec fn result(self) -> Option<Seq<FoundModel>> {
        match self {
            SearchModel::Working { todo, pending, visited, found } => Some(found),
            _ => None,
        }
    }
}

/// The search for all that the cache holds of a pack.
#[derive(Debug)]
pub struct CacheSearch {
    stage: SearchStage,
}

impl View for CacheSearch {
    type V = SearchModel;

    closed spec fn view(&self) -> SearchModel {
        match self.stage {
            SearchStage::Base(url) => SearchModel::Base(url@),
            SearchStage::BaseRead(info) => SearchModel::BaseRead(info@),
            SearchStage::NotCached => SearchModel::NotCached,
            SearchStage::Working { todo, next, pending, visited, found } => SearchModel::Working {
                todo: task_models(todo@).skip(next as int),
                pending: match pending {
                    Some(info) => Some(info@),
                    None => None,
                },
                visited: info_models(visited@),
                found: found_models(found@),
            },
        }
    }
}

/// Starts the search for all that the cache holds of the pack at `dllpack_url`.
pub fn get_all_cached_dependencies(dllpack_url: &Url) -> (search: CacheSearch)
    ensures
        search.wf(),
        search@ == SearchModel::Base(dllpack_url@),
{
    CacheSearch { stage: SearchStage::Base(dllpack_url.copy()) }
}

/// Puts what is to be looked for of a platform behind the other tasks.
fn push_platform_tasks(todo: &mut Vec<Task>, manifest: &PlatformManifest)
    ensures
        task_models(final(todo)@) == task_models(old(todo)@) + platform_tasks(manifest@),
        final(todo)@.len() == old(todo)@.len() + 1 + manifest.dependencies@.len(),
        final(todo)@[old(todo)@.len() as int]@ == TaskModel::Library(
            manifest.url@,
            name_text(manifest.name),
        ),
        forall|d: int|
            0 <= d < manifest.dependencies@.len() ==> final(todo)@[old(todo)@.len() + 1 + d]@
                == match #[trigger] manifest.dependencies@[d] {
                Dependency::DllPack { url } => TaskModel::Pack(url@),
                Dependency::RawLib { url, name } => TaskModel::Library(url@, name_text(name)),
            },
{
    let ghost before = task_models(todo@);
    todo.push(Task::Library(manifest.url.copy(), copy_name(&manifest.name)));
    let ghost all = platform_tasks(manifest@);
    assert(task_models(todo@) =~= before + all.take(1));
    let mut i: usize = 0;
    while i < manifest.dependencies.len()
        invariant
            i <= manifest.dependencies@.len(),
            all == platform_tasks(manifest@),
            task_models(todo@) == before + all.take(1 + i),
        decreases manifest.dependencies@.len() - i,
    {
        let ghost previous = task_models(todo@);
        let task = match &manifest.dependencies[i] {
            Dependency::DllPack { url } => Task::Pack(url.copy()),
            Dependency::RawLib { url, name } => Task::Library(url.copy(), copy_name(name)),
        };
        assert(task@ == all[1 + i]) by {
            assert(manifest@.dependencies[i as int] == manifest.dependencies@[i as int]@);
        }
        todo.push(task);
        assert(task_models(todo@) =~= previous.push(task@));
        assert(before + all.take(1 + i + 1) =~= (before + all.take(1 + i)).push(all[1 + i]));
        i += 1;
    }
    assert(all.take(1 + i) =~= all);
    proof {
        let after = task_models(todo@);
        assert(after == before + all);
        assert(after[before.len() as int] == all[0]);
        assert forall|d: int| 0 <= d < manifest.dependencies@.len() implies todo@[before.len() + 1
            + d]@ == match #[trigger] manifest.dependencies@[d] {
            Dependency::DllPack { url } => TaskModel::Pack(url@),
            Dependency::RawLib { url, name } => TaskModel::Library(url@, name_text(name)),
        } by {
            assert(manifest@.dependencies[d] == manifest.dependencies@[d]@);
            assert(after[before.len() + 1 + d] == all[1 + d]);
        }
    }
}

/// Puts what is to be looked for of a file behind the other tasks.
fn push_file_tasks(todo: &mut Vec<Task>, file: &DllPackFile)
    ensures
        task_models(final(todo)@) == task_models(old(todo)@) + file_tasks(file@),
{
    let ghost before = task_models(todo@);
    let mut i: usize = 0;
    assert(file@.take(0) =~= Seq::empty());
    assert(before + Seq::<TaskModel>::empty() =~= before);
    while i < file.platforms.len()
        invariant
            i <= file.platforms@.len(),
            task_models(todo@) == before + file_tasks(file@.take(i as int)),
        decreases file.platforms@.len() - i,
    {
        push_platform_tasks(todo, &file.platforms[i].1);
        proof {
            let upto = file@.take(i + 1);
            assert(upto.drop_last() =~= file@.take(i as int));
            assert(upto.last().1 == file.platforms@[i as int].1@);
            assert(before + file_tasks(upto) =~= (before + file_tasks(file@.take(i as int)))
                + platform_tasks(upto.last().1));
        }
        i += 1;
    }
    assert(file@.take(i as int) =~= file@);
}

/// Tells whether a manifest was visited.
fn was_visited(visited: &Vec<ManifestInfo>, info: &ManifestInfo) -> (found: bool)
    ensures
        found == info_models(visited@).contains(info@),
        found <==> exists|i: int| 0 <= i < visited@.len() && (#[trigger] visited@[i])@ == info@,
{
    let mut i: usize = 0;
    while i < visited.len()
        invariant
            i <= visited@.len(),
            forall|j: int| 0 <= j < i ==> (#[trigger] visited@[j])@ != info@,
        decreases visited@.len() - i,
    {
        if visited[i].same(info) {
            assert(info_models(visited@)[i as int] == info@);
            return true;
        }
        i += 1;
    }
    assert forall|j: int| 0 <= j < info_models(visited@).len() implies info_models(visited@)[j]
        != info@ by {
        assert(visited@[j]@ != info@);
    }
    false
}

impl CacheSearch {
    /// A search is well formed if its state is.
    pub closed spec fn wf(&self) -> bool {
        &&& self@.wf()
        &&& match self.stage {
            SearchStage::Working { todo, next, pending, visited, found } => next <= todo@.len(),
            _ => true,
        }
    }

    /// What the search needs to know next.
    pub fn request(&self) -> (request: SearchRequest)
        requires
            self.wf(),
        ensures
            request@ == self@.request(),
            match self@ {
                SearchModel::Base(url) => request matches SearchRequest::LocateManifest(u) && u@
                    == url,
                SearchModel::BaseRead(info) => request matches SearchRequest::ReadManifest(i) && i@
                    == info,
                SearchModel::NotCached => request is Nothing,
                SearchModel::Working { todo, pending, visited, found } => match pending {
                    Some(info) => request matches SearchRequest::ReadManifest(i) && i@ == info,
                    None => if todo.len() == 0 {
                        request is Nothing
                    } else {
                        match todo[0] {
                            TaskModel::Library(url, name) => request
                                matches SearchRequest::LocateLibrary(u, n) && u@ == url && name_text(n)
                                == name,
                            TaskModel::Pack(url) => request matches SearchRequest::LocateManifest(u)
                                && u@ == url,
                        }
                    },
                },
            },
    {
        match &self.stage {
            SearchStage::Base(url) => SearchRequest::LocateManifest(url.copy()),
            SearchStage::BaseRead(info) => SearchRequest::ReadManifest(info.copy()),
            SearchStage::NotCached => SearchRequest::Nothing,
            SearchStage::Working { todo, next, pending, visited, found } => match pending {
                Some(info) => SearchRequest::ReadManifest(info.copy()),
                None => {
                    if *next == todo.len() {
                        SearchRequest::Nothing
                    } else {
                        assert(task_models(todo@).skip(*next as int)[0] == todo@[*next as int]@);
                        match &todo[*next] {
                            Task::Library(url, name) => SearchRequest::LocateLibrary(
                                url.copy(),
                                copy_name(name),
                            ),
                            Task::Pack(url) => SearchRequest::LocateManifest(url.copy()),
                        }
                    }
                },
            },
        }
    }

    /// Goes on with the place of a manifest.
    pub fn manifest_located<E>(self, reply: Result<ManifestInfo, E>) -> (next: Result<
        CacheSearch,
        SearchFailure<E>,
    >)
        requires
            self.wf(),
            self@.request() is LocateManifest,
        ensures
            match next {
                Ok(search) => search.wf() && self@.after_manifest(located_model(reply)) == Ok::<
                    SearchModel,
                    SearchFailure<E>,
                >(search@),
                Err(failure) => self@.after_manifest(located_model(reply)) == Err::<
                    SearchModel,
                    SearchFailure<E>,
                >(failure),
            },
            match reply {
                Err(e) => next matches Err(SearchFailure::Outside(why)) && why == e,
                Ok(info) => next matches Ok(search) && match self@ {
                    SearchModel::Working { todo, pending, visited, found } => search@ == if exists|
                        i: int,
                    |
                        0 <= i < visited.len() && #[trigger] visited[i] == info@ {
                        SearchModel::Working { todo: todo.skip(1), pending: None, visited, found }
                    } else {
                        SearchModel::Working { todo, pending: Some(info@), visited, found }
                    },
                    _ => search@ == SearchModel::BaseRead(info@),
                },
            },
    {
        let info = match reply {
            Err(e) => {
                return Err(SearchFailure::Outside(e));
            },
            Ok(info) => info,
        };
        match self.stage {
            SearchStage::Working { todo, next, pending: _, visited, found } => {
                assert(next < todo.len());
                assert(task_models(todo@).skip(next as int).drop_first() =~= task_models(todo@).skip(
                    next + 1,
                ));
                let stage = if was_visited(&visited, &info) {
                    SearchStage::Working { todo, next: next + 1, pending: None, visited, found }
                } else {
                    SearchStage::Working { todo, next, pending: Some(info), visited, found }
                };
                Ok(CacheSearch { stage })
            },
            _ => Ok(CacheSearch { stage: SearchStage::BaseRead(info) }),
        }
    }

    /// Goes on with what a manifest says, if it is in the cache.
    pub fn manifest_read<E>(self, reply: CachedReply<E>) -> (next: Result<
        CacheSearch,
        SearchFailure<E>,
    >)
        requires
            self.wf(),
            self@.request() is ReadManifest,
        ensures
            match next {
                Ok(search) => search.wf() && self@.after_read(reply@) == Ok::<
                    SearchModel,
                    SearchFailure<E>,
                >(search@),
                Err(failure) => self@.after_read(reply@) == Err::<SearchModel, SearchFailure<E>>(
                    failure,
                ),
            },
            match (self@, reply) {
                (SearchModel::BaseRead(info), CachedReply::Absent) => next matches Ok(search)
                    && search@ == SearchModel::NotCached,
                (SearchModel::BaseRead(info), CachedReply::Unparsable(e)) => next matches Err(
                    SearchFailure::MainUnparsable(why),
                ) && why == e,
                (SearchModel::BaseRead(info), CachedReply::Found(file)) => next matches Ok(search)
                    && search@ == (SearchModel::Working {
                    todo: file_tasks(file@),
                    pending: None,
                    visited: seq![info],
                    found: seq![FoundModel { url: info.url, path: info.path }],
                }),
                (
                    SearchModel::Working { todo, pending, visited, found },
                    CachedReply::Absent,
                ) => next matches Ok(search) && search@ == (SearchModel::Working {
                    todo: todo.skip(1),
                    pending: None,
                    visited,
                    found,
                }),
                (
                    SearchModel::Working { todo, pending, visited, found },
                    CachedReply::Unparsable(e),
                ) => next matches Err(SearchFailure::DependentUnparsable(why)) && why == e,
                (
                    SearchModel::Working { todo, pending, visited, found },
                    CachedReply::Found(file),
                ) => next matches Ok(search) && search@ == (SearchModel::Working {
                    todo: todo.skip(1) + file_tasks(file@),
                    pending: None,
                    visited: visited.push(pending->0),
                    found: found.push(FoundModel { url: todo[0]->Pack_0, path: (pending->0).path }),
                }),
                _ => true,
            },
    {
        let ghost model = self@;
        match self.stage {
            SearchStage::Working { todo, next, pending, visited, found } => {
                let ghost left = task_models(todo@).skip(next as int);
                assert(next < todo.len());
                assert(left.drop_first() =~= task_models(todo@).skip(next + 1));
                assert(left[0] == todo@[next as int]@);
                match reply {
                    CachedReply::Absent => {
                        let stage = SearchStage::Working {
                            todo,
                            next: next + 1,
                            pending: None,
                            visited,
                            found,
                        };
                        Ok(CacheSearch { stage })
                    },
                    CachedReply::Unparsable(e) => Err(SearchFailure::DependentUnparsable(e)),
                    CachedReply::Found(file) => {
                        let info = match pending {
                            Some(info) => info,
                            None => vstd::pervasive::unreached(),
                        };
                        let url: String = match &todo[next] {
                            Task::Pack(url) => url.serialization.clone(),
                            Task::Library(_, _) => vstd::pervasive::unreached(),
                        };
                        let ghost tasks = task_models(todo@);
                        let ghost found_before = found_models(found@);
                        let ghost visited_before = info_models(visited@);
                        let mut todo = todo;
                        let mut visited = visited;
                        let mut found = found;
                        push_file_tasks(&mut todo, &file);
                        found.push((url, copy_bytes(info.path.as_slice())));
                        let ghost info_model = info@;
                        visited.push(info);
                        proof {
                            assert(task_models(todo@).skip(next + 1) =~= tasks.skip(next + 1)
                                + file_tasks(file@));
                            assert(info_models(visited@) =~= visited_before.push(info_model));
                            assert(found_models(found@) =~= found_before.push(
                                FoundModel { url: url@, path: info_model.path },
                            ));
                        }
                        let stage = SearchStage::Working {
                            todo,
                            next: next + 1,
                            pending: None,
                            visited,
                            found,
                        };
                        Ok(CacheSearch { stage })
                    },
                }
            },
            SearchStage::BaseRead(info) => match reply {
                CachedReply::Absent => Ok(CacheSearch { stage: SearchStage::NotCached }),
                CachedReply::Unparsable(e) => Err(SearchFailure::MainUnparsable(e)),
                CachedReply::Found(file) => {
                    let mut todo: Vec<Task> = Vec::new();
                    let mut visited: Vec<ManifestInfo> = Vec::new();
                    let mut found: Vec<Found> = Vec::new();
                    let ghost info_model = info@;
                    assert(task_models(todo@) + file_tasks(file@) =~= file_tasks(file@));
                    push_file_tasks(&mut todo, &file);
                    found.push((info.url.serialization.clone(), copy_bytes(info.path.as_slice())));
                    visited.push(info);
                    proof {
                        assert(task_models(todo@).skip(0) =~= file_tasks(file@));
                        assert(info_models(visited@) =~= seq![info_model]);
                        assert(found_models(found@) =~= seq![
                            FoundModel { url: info_model.url, path: info_model.path },
                        ]);
                    }
                    let stage = SearchStage::Working { todo, next: 0, pending: None, visited, found };
                    Ok(CacheSearch { stage })
                },
            },
            _ => vstd::pervasive::unreached(),
        }
    }

    /// Goes on with the place of a library file, in the cache or not.
    pub fn library_located<E>(self, reply: Result<CachedLibrary, E>) -> (next: Result<
        CacheSearch,
        SearchFailure<E>,
    >)
        requires
            self.wf(),
            self@.request() is LocateLibrary,
        ensures
            match next {
                Ok(search) => search.wf() && self@.after_library(cached_library_model(reply)) == Ok::<
                    SearchModel,
                    SearchFailure<E>,
                >(search@),
                Err(failure) => self@.after_library(cached_library_model(reply)) == Err::<
                    SearchModel,
                    SearchFailure<E>,
                >(failure),
            },
            match reply {
                Err(e) => next matches Err(SearchFailure::Outside(why)) && why == e,
                Ok(library) => next matches Ok(search) && search@ == (SearchModel::Working {
                    todo: self@->Working_todo.skip(1),
                    pending: None,
                    visited: self@->Working_visited,
                    found: match library.path {
                        Some(path) => self@->Working_found.push(
                            FoundModel { url: library.url@, path: path@ },
                        ),
                        None => self@->Working_found,
                    },
                }),
            },
    {
        let library = match reply {
            Err(e) => {
                return Err(SearchFailure::Outside(e));
            },
            Ok(library) => library,
        };
        match self.stage {
            SearchStage::Working { todo, next, pending, visited, found } => {
                assert(next < todo.len());
                assert(task_models(todo@).skip(next as int).drop_first() =~= task_models(todo@).skip(
                    next + 1,
                ));
                let ghost found_before = found_models(found@);
                let mut found = found;
                match library.path {
                    Some(path) => {
                        let ghost path_model = path@;
                        let url = library.url.serialization;
                        found.push((url, path));
                        assert(found_models(found@) =~= found_before.push(
                            FoundModel { url: url@, path: path_model },
                        ));
                    },
                    None => {},
                }
                let stage = SearchStage::Working {
                    todo,
                    next: next + 1,
                    pending: None,
                    visited,
                    found,
                };
                Ok(CacheSearch { stage })
            },
            _ => vstd::pervasive::unreached(),
        }
    }

    /// What is in the cache, once nothing more is needed: the URL and the path of
    /// each, or nothing where the main manifest is not there.
    pub fn finish(self) -> (result: Option<Vec<Found>>)
        requires
            self.wf(),
            self@.request() is Nothing,
        ensures
            match result {
                Some(found) => self@.result() == Some(found_models(found@)),
                None => self@.result() is None,
            },
            match result {
                Some(found) => {
                    &&& self@ is Working
                    &&& found@.len() == self@->Working_found.len()
                    &&& forall|i: int|
                        0 <= i < found@.len() ==> (#[trigger] found@[i]).0@
                            == self@->Working_found[i].url && found@[i].1@
                            == self@->Working_found[i].path
                },
                None => !(self@ is Working),
            },
    {
        match self.stage {
            SearchStage::Working { todo, next, pending, visited, found } => Some(found),
            _ => None,
        }
    }
}

} // verus!
