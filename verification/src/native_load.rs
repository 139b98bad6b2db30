//! The loading of a pack's native libraries into one namespace.
use vstd::prelude::*;

use crate::linux_dlmopen::{
    load_result, path_error, path_fits, DlmopenNamespace, NamespaceModel, OpenError, OpenReply,
    OpenRequest, RTLD_LOCAL, RTLD_NOW,
};
use crate::manifest::DllInfo;
use crate::resolve::{Resolution, ResolutionModel};

verus! {

/// The state of a loading: what is to be loaded, how many of it are, and where.
#[verifier::ext_equal]
pub struct NativeLoadModel {
    pub libraries: ResolutionModel,
    pub loaded: nat,
    pub namespace: NamespaceModel,
}

/// The path of the library that is loaded when `loaded` are: the next of those
/// that the main library depends on and, behind the last, the main one.
pub open spec fn path_to_load(libraries: ResolutionModel, loaded: nat) -> Seq<u8> {
    if loaded < libraries.dependencies.len() {
        libraries.dependencies[loaded as int].path
    } else {
        libraries.main.path
    }
}

impl NativeLoadModel {
    /// A loading that has not begun.
    pub open spec fn start(libraries: ResolutionModel) -> NativeLoadModel {
        NativeLoadModel { libraries, loaded: 0, namespace: NamespaceModel::empty() }
    }

    /// Whether all libraries are loaded, the main one last.
    pub open spec fn complete(self) -> bool {
        self.loaded == self.libraries.dependencies.len() + 1
    }

    /// Whether the main library is the next.
    pub open spec fn at_main(self) -> bool {
        self.loaded == self.libraries.dependencies.len()
    }

    /// The path of the next library.
    pub open spec fn path(self) -> Seq<u8> {
        path_to_load(self.libraries, self.loaded)
    }

    /// The state after the next library was opened.
    pub open spec fn opened(self, handle: usize, namespace: Option<i64>) -> NativeLoadModel {
        NativeLoadModel {
            loaded: self.loaded + 1,
            namespace: self.namespace.opened(handle, namespace, self.at_main()),
            ..self
        }
    }
}

/// A loading of native libraries.
#[derive(Debug)]
pub struct NativeLoad {
    libraries: Resolution,
    loaded: usize,
    main_loaded: bool,
    namespace: DlmopenNamespace,
}

impl View for NativeLoad {
    type V = NativeLoadModel;

    closed spec fn view(&self) -> NativeLoadModel {
        NativeLoadModel {
            libraries: self.libraries@,
            loaded: self.loaded as nat + if self.main_loaded {
                1nat
            } else {
                0nat
            },
            namespace: self.namespace@,
        }
    }
}

impl NativeLoad {
    /// A loading is well formed if its namespace is and it has not loaded more than there is.
    pub closed spec fn wf(&self) -> bool {
        &&& self.namespace.wf()
        &&& self.loaded <= self.libraries.dependencies@.len()
        &&& self.main_loaded ==> self.loaded == self.libraries.dependencies@.len()
    }

    /// Starts to load libraries into a new namespace.
    pub fn start(libraries: Resolution) -> (load: NativeLoad)
        ensures
            load.wf(),
            load@ == NativeLoadModel::start(libraries@),
            load@.libraries == libraries@,
            load@.loaded == 0,
            load@.namespace == NamespaceModel::empty(),
    {
        NativeLoad {
            libraries,
            loaded: 0,
            main_loaded: false,
            namespace: DlmopenNamespace::new(),
        }
    }

    /// Tells whether all libraries are loaded.
    pub fn is_complete(&self) -> (complete: bool)
        requires
            self.wf(),
        ensures
            complete == self@.complete(),
            complete <==> self@.loaded == self@.libraries.dependencies.len() + 1,
    {
        self.main_loaded
    }

    /// The library that is loaded next.
    pub fn library(&self) -> (library: &DllInfo)
        requires
            self.wf(),
            !self@.complete(),
        ensures
            library@ == (if self@.at_main() {
                self@.libraries.main
            } else {
                self@.libraries.dependencies[self@.loaded as int]
            }),
    {
        if self.loaded < self.libraries.dependencies.len() {
            &self.libraries.dependencies[self.loaded]
        } else {
            &self.libraries.main
        }
    }

    /// With what arguments the next library is to be opened.
    pub fn open_request(&self) -> (request: Result<OpenRequest, OpenError>)
        requires
            self.wf(),
            !self@.complete(),
        ensures
            match request {
                Ok(request) => {
                    &&& path_fits(self@.path())
                    &&& request.lmid == self@.namespace.lmid()
                    &&& request.path@ == self@.path().push(0u8)
                    &&& request.flags == RTLD_NOW | RTLD_LOCAL
                },
                Err(error) => path_error(self@.path(), error),
            },
            request matches Ok(r) ==> r.path@ == (if self@.loaded
                < self@.libraries.dependencies.len() {
                self@.libraries.dependencies[self@.loaded as int].path
            } else {
                self@.libraries.main.path
            }).push(0u8),
    {
        let library = self.library();
        self.namespace.open_request(library.path.as_slice())
    }

    /// Tells whether the namespace of the next handle is to be asked for.
    pub fn asks_namespace(&self) -> (asks: bool)
        ensures
            asks == (self@.namespace.namespace_id is None),
    {
        self.namespace.asks_namespace()
    }

    /// Goes on with what came back from opening the next library. Where it was not
    /// opened the loading is over: the namespace holds what was opened before.
    pub fn opened(self, reply: OpenReply) -> (next: Result<NativeLoad, (OpenError, DlmopenNamespace)>)
        requires
            self.wf(),
            !self@.complete(),
        ensures
            match next {
                Ok(load) => {
                    &&& load.wf()
                    &&& path_fits(self@.path())
                    &&& reply.handle != 0
                    &&& load@ == self@.opened(reply.handle, reply.namespace)
                },
                Err((error, namespace)) => {
                    &&& namespace.wf()
                    &&& load_result(
                        self@.namespace,
                        self@.path(),
                        reply,
                        self@.at_main(),
                        namespace@,
                        Err::<(), OpenError>(error),
                    )
                },
            },
            ({
                let path = if self@.loaded < self@.libraries.dependencies.len() {
                    self@.libraries.dependencies[self@.loaded as int].path
                } else {
                    self@.libraries.main.path
                };
                &&& next is Ok <==> vstd::utf8::valid_utf8(path) && !path.contains(0u8)
                    && reply.handle != 0
                &&& next matches Ok(load) ==> {
                    &&& load@.libraries == self@.libraries
                    &&& load@.loaded == self@.loaded + 1
                    &&& load@.namespace.handles == self@.namespace.handles.push(reply.handle)
                    &&& self@.loaded < self@.libraries.dependencies.len()
                        ==> load@.namespace.main_handle == self@.namespace.main_handle
                    &&& self@.loaded == self@.libraries.dependencies.len()
                        ==> load@.namespace.main_handle == Some(reply.handle)
                }
                &&& next matches Err((error, namespace)) ==> namespace@ == self@.namespace
            }),
    {
        let ghost model = self@;
        let NativeLoad { libraries, loaded, main_loaded: _, namespace } = self;
        let mut namespace = namespace;
        if loaded < libraries.dependencies.len() {
            match namespace.load_dependency(libraries.dependencies[loaded].path.as_slice(), reply) {
                Err(error) => Err((error, namespace)),
                Ok(_) => {
                    let load = NativeLoad {
                        libraries,
                        loaded: loaded + 1,
                        main_loaded: false,
                        namespace,
                    };
                    assert(load@ =~= model.opened(reply.handle, reply.namespace));
                    Ok(load)
                },
            }
        } else {
            match namespace.load_main(libraries.main.path.as_slice(), reply) {
                Err(error) => Err((error, namespace)),
                Ok(_) => {
                    let load = NativeLoad { libraries, loaded, main_loaded: true, namespace };
                    assert(load@ =~= model.opened(reply.handle, reply.namespace));
                    Ok(load)
                },
            }
        }
    }

    /// The namespace with what was opened.
    pub fn into_namespace(self) -> (namespace: DlmopenNamespace)
        requires
            self.wf(),
        ensures
            namespace.wf(),
            namespace@ == self@.namespace,
    {
        self.namespace
    }
}

/// What the linker returned when it opened a library: a handle, and the namespace
/// where that could be told.
pub struct OpenedModel {
    pub handle: usize,
    pub namespace: Option<i64>,
}

/// The loading after libraries were opened, one after the other.
pub open spec fn load_all(m: NativeLoadModel, opened: Seq<OpenedModel>) -> NativeLoadModel
    decreases opened.len(),
{
    if opened.len() == 0 {
        m
    } else {
        load_all(m, opened.drop_last()).opened(opened.last().handle, opened.last().namespace)
    }
}

/// The handles of what was opened.
pub open spec fn handles_of(opened: Seq<OpenedModel>) -> Seq<usize> {
    opened.map_values(|o: OpenedModel| o.handle)
}

/// The libraries that the main one depends on are loaded in their order and the
/// main one last, so that symbols are looked up in the library that was opened last.
/// They are closed the other way round: the main one before all it depends on.
pub proof fn native_load_keeps_order(libraries: ResolutionModel, opened: Seq<OpenedModel>)
    requires
        opened.len() == libraries.dependencies.len() + 1,
    ensures
        ({
            let end = load_all(NativeLoadModel::start(libraries), opened);
            &&& end.complete()
            &&& end.namespace.handles == handles_of(opened)
            &&& end.namespace.main_handle == Some(opened.last().handle)
            &&& forall|i: int|
                0 <= i < opened.len() ==> #[trigger] load_all(
                    NativeLoadModel::start(libraries),
                    opened.take(i),
                ).path() == path_to_load(libraries, i as nat)
            &&& end.namespace.handles.reverse()[0] == opened.last().handle
            &&& end.loaded == opened.len()
            &&& forall|i: int|
                0 <= i < opened.len() ==> (#[trigger] load_all(
                    NativeLoadModel::start(libraries),
                    opened.take(i),
                )).path() == (if i < libraries.dependencies.len() {
                    libraries.dependencies[i].path
                } else {
                    libraries.main.path
                })
            &&& forall|i: int|
                0 <= i < opened.len() ==> #[trigger] end.namespace.handles[i] == opened[i].handle
        }),
{
    lemma_load_all(libraries, opened);
    assert forall|i: int| 0 <= i < opened.len() implies #[trigger] load_all(
        NativeLoadModel::start(libraries),
        opened.take(i),
    ).path() == path_to_load(libraries, i as nat) by {
        lemma_load_all(libraries, opened.take(i));
    }
    assert(opened.drop_last() =~= opened.take(opened.len() - 1));
}

/// What was loaded after some libraries were opened.
proof fn lemma_load_all(libraries: ResolutionModel, opened: Seq<OpenedModel>)
    requires
        opened.len() <= libraries.dependencies.len() + 1,
    ensures
        ({
            let end = load_all(NativeLoadModel::start(libraries), opened);
            &&& end.libraries == libraries
            &&& end.loaded == opened.len()
            &&& end.namespace.handles == handles_of(opened)
            &&& opened.len() == libraries.dependencies.len() + 1 ==> end.namespace.main_handle == Some(
                opened.last().handle,
            )
        }),
    decreases opened.len(),
{
    if opened.len() > 0 {
        lemma_load_all(libraries, opened.drop_last());
        assert(handles_of(opened) =~= handles_of(opened.drop_last()).push(opened.last().handle));
    } else {
        assert(handles_of(opened) =~= Seq::empty());
    }
}

/// Once a namespace is known all further libraries are opened in it: the first in
/// a new namespace, and all others in the one that the first is in.
pub proof fn native_load_stays_in_one_namespace(
    libraries: ResolutionModel,
    opened: Seq<OpenedModel>,
    id: i64,
)
    requires
        opened.len() > 0,
        opened[0].namespace == Some(id),
    ensures
        NativeLoadModel::start(libraries).namespace.lmid() == crate::linux_dlmopen::LM_ID_NEWLM,
        forall|i: int|
            0 < i <= opened.len() ==> #[trigger] load_all(
                NativeLoadModel::start(libraries),
                opened.take(i),
            ).namespace.lmid() == id,
{
    assert forall|i: int| 0 < i <= opened.len() implies #[trigger] load_all(
        NativeLoadModel::start(libraries),
        opened.take(i),
    ).namespace.lmid() == id by {
        lemma_namespace_stays(libraries, opened, id, i);
    }
}

/// The namespace that became known first stays.
proof fn lemma_namespace_stays(
    libraries: ResolutionModel,
    opened: Seq<OpenedModel>,
    id: i64,
    i: int,
)
    requires
        opened.len() > 0,
        opened[0].namespace == Some(id),
        0 < i <= opened.len(),
    ensures
        load_all(NativeLoadModel::start(libraries), opened.take(i)).namespace.namespace_id == Some(id),
    decreases i,
{
    assert(opened.take(i).drop_last() =~= opened.take(i - 1));
    if i > 1 {
        lemma_namespace_stays(libraries, opened, id, i - 1);
    } else {
        assert(opened.take(0) =~= Seq::empty());
    }
}

} // verus!
