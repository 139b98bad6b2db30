//! Libraries in a linker namespace of their own, as Linux (glibc) offers it with `dlmopen`.
//!
//! A library that uses initial-exec thread-local storage takes it, when it is
//! opened with `dlopen`, from a block of fixed size that the process got at its
//! start. A new linker namespace has a fresh block. All libraries of a pack are
//! opened in the same new namespace, so that they find each other's symbols.
//!
//! The linker itself is called by the surroundings: this module says with what
//! arguments, and keeps account of what came back. A handle or an address is held
//! as a number, zero standing for the null pointer.
use vstd::prelude::*;
use vstd::utf8::{encode_utf8, valid_utf8};

use crate::text::{copy_bytes, decimal, decimal_text, first_nul, is_first_nul, join_three};

verus! {

/// What asks `dlmopen` for a new namespace.
pub const LM_ID_NEWLM: i64 = -1;

/// The flag for resolving all symbols at once.
pub const RTLD_NOW: i32 = 0x2;

/// The flag for keeping a library's symbols to itself.
pub const RTLD_LOCAL: i32 = 0x0;

/// The request code with which `dlinfo` tells a handle's namespace.
pub const RTLD_DI_LMID: i32 = 1;

/// Calls `std::str::from_utf8`. Claimed of the call: it succeeds exactly on valid UTF-8.
#[verifier::external_body]
fn is_utf8(bytes: &[u8]) -> (valid: bool)
    ensures
        valid == valid_utf8(bytes@),
{
    std::str::from_utf8(bytes).is_ok()
}

/// The libraries of one namespace.
#[derive(Debug)]
pub struct DlmopenNamespace {
    handles: Vec<usize>,
    namespace_id: Option<i64>,
    main_handle: Option<usize>,
}

/// A namespace, in terms of sequences.
#[verifier::ext_equal]
pub struct NamespaceModel {
    /// The handles in the order in which the libraries were opened.
    pub handles: Seq<usize>,
    /// The namespace, once it is known.
    pub namespace_id: Option<i64>,
    /// The handle of the main library, in which symbols are looked up.
    pub main_handle: Option<usize>,
}

impl View for DlmopenNamespace {
    type V = NamespaceModel;

    closed spec fn view(&self) -> NamespaceModel {
        NamespaceModel {
            handles: self.handles@,
            namespace_id: self.namespace_id,
            main_handle: self.main_handle,
        }
    }
}

/// What came back from opening a library.
#[derive(Debug)]
pub struct OpenReply {
    /// The handle that `dlmopen` returned.
    pub handle: usize,
    /// What `dlerror` said, where the handle is null.
    pub error: Option<String>,
    /// What `dlinfo` told of the handle's namespace, where it was asked and could tell.
    pub namespace: Option<i64>,
}

/// With what arguments a library is to be opened.
#[derive(Debug)]
pub struct OpenRequest {
    pub lmid: i64,
    /// The path, with a zero byte behind it.
    pub path: Vec<u8>,
    pub flags: i32,
}

/// Why a library was not opened.
#[derive(Debug)]
pub enum OpenError {
    /// The path is not UTF-8.
    InvalidUtf8,
    /// The path has a zero byte in it, the first one here.
    NulByte(usize),
    /// `dlmopen` failed, and this is why.
    DlmopenFailed(String),
}

/// What became of looking up a symbol.
#[derive(Debug)]
pub struct SymbolReply {
    /// The address that `dlsym` returned.
    pub address: usize,
    /// What `dlerror` said, where the address is null.
    pub error: Option<String>,
}

/// With what arguments a symbol is to be looked up.
#[derive(Debug)]
pub struct SymbolRequest {
    pub handle: usize,
    /// The name, with a zero byte behind it.
    pub name: Vec<u8>,
}

/// Why a symbol was not found.
#[derive(Debug)]
pub enum SymbolError {
    /// No main library was opened.
    NoMainLibrary,
    /// The name has a zero byte in it, the first one here.
    NulByte(usize),
    /// `dlsym` failed, and this is why.
    DlsymFailed(String),
}

/// The text of an optional error message, with another text where there is none.
pub open spec fn text_or(text: Option<String>, other: Seq<char>) -> Seq<char> {
    match text {
        Some(s) => s@,
        None => other,
    }
}

/// The text for a symbol that is not there.
pub open spec fn symbol_missing_text(name: Seq<char>) -> Seq<char> {
    "symbol '"@ + name + "' not found"@
}

/// What is wrong with a path, if anything, before the linker is asked.
pub open spec fn path_error(path: Seq<u8>, error: OpenError) -> bool {
    match error {
        OpenError::InvalidUtf8 => !valid_utf8(path),
        OpenError::NulByte(at) => valid_utf8(path) && is_first_nul(path, at as int),
        OpenError::DlmopenFailed(_) => false,
    }
}

/// Whether a path can be handed to the linker.
pub open spec fn path_fits(path: Seq<u8>) -> bool {
    valid_utf8(path) && !path.contains(0u8)
}

impl NamespaceModel {
    /// The namespace without libraries.
    pub open spec fn empty() -> NamespaceModel {
        NamespaceModel { handles: Seq::empty(), namespace_id: None, main_handle: None }
    }

    /// In which namespace the next library is opened: a new one until one is known.
    pub open spec fn lmid(self) -> i64 {
        match self.namespace_id {
            Some(id) => id,
            None => LM_ID_NEWLM,
        }
    }

    /// The namespace after one more library was opened.
    pub open spec fn opened(self, handle: usize, namespace: Option<i64>, main: bool) -> NamespaceModel {
        NamespaceModel {
            handles: self.handles.push(handle),
            namespace_id: match self.namespace_id {
                Some(id) => Some(id),
                None => namespace,
            },
            main_handle: if main {
                Some(handle)
            } else {
                self.main_handle
            },
        }
    }

    /// The main library is one of those opened, and a namespace is known only if there are some.
    pub open spec fn wf(self) -> bool {
        &&& forall|i: int| 0 <= i < self.handles.len() ==> #[trigger] self.handles[i] != 0
        &&& self.main_handle matches Some(handle) ==> self.handles.contains(handle)
        &&& self.namespace_id is Some ==> self.handles.len() > 0
    }
}

/// What loading a library with this path and this reply does to a namespace.
pub open spec fn load_result(
    before: NamespaceModel,
    path: Seq<u8>,
    reply: OpenReply,
    main: bool,
    after: NamespaceModel,
    result: Result<(), OpenError>,
) -> bool {
    match result {
        Ok(_) => {
            &&& path_fits(path)
            &&& reply.handle != 0
            &&& after == before.opened(reply.handle, reply.namespace, main)
        },
        Err(OpenError::DlmopenFailed(why)) => {
            &&& path_fits(path)
            &&& reply.handle == 0
            &&& why@ == text_or(reply.error, "(unknown error)"@)
            &&& after == before
        },
        Err(error) => path_error(path, error) && after == before,
    }
}

/// The bytes with a zero byte behind them.
fn with_nul(bytes: &[u8]) -> (c: Vec<u8>)
    ensures
        c@ == bytes@.push(0u8),
{
    let mut c = copy_bytes(bytes);
    c.push(0);
    c
}

impl DlmopenNamespace {
    /// A namespace is well formed if its state is.
    pub closed spec fn wf(&self) -> bool {
        self@.wf()
    }

    /// A namespace without libraries.
    pub fn new() -> (namespace: DlmopenNamespace)
        ensures
            namespace.wf(),
            namespace@ == NamespaceModel::empty(),
            namespace@.handles.len() == 0,
            namespace@.namespace_id is None,
            namespace@.main_handle is None,
    {
        DlmopenNamespace { handles: Vec::new(), namespace_id: None, main_handle: None }
    }

    /// With what arguments the library at `path` is to be opened. The path must be
    /// UTF-8 and must not have a zero byte in it.
    pub fn open_request(&self, path: &[u8]) -> (request: Result<OpenRequest, OpenError>)
        ensures
            match request {
                Ok(request) => {
                    &&& path_fits(path@)
                    &&& request.lmid == self@.lmid()
                    &&& request.path@ == path@.push(0u8)
                    &&& request.flags == RTLD_NOW | RTLD_LOCAL
                },
                Err(error) => path_error(path@, error),
            },
            request is Ok <==> valid_utf8(path@) && !path@.contains(0u8),
            request matches Ok(r) ==> {
                &&& self@.namespace_id matches Some(id) ==> r.lmid == id
                &&& self@.namespace_id is None ==> r.lmid == -1
                &&& r.path@ == path@.push(0u8)
            },
            request matches Err(error) ==> match error {
                OpenError::InvalidUtf8 => !valid_utf8(path@),
                OpenError::NulByte(at) => valid_utf8(path@) && at < path@.len() && path@[at as int]
                    == 0 && !path@.take(at as int).contains(0u8),
                OpenError::DlmopenFailed(_) => false,
            },
    {
        if !is_utf8(path) {
            return Err(OpenError::InvalidUtf8);
        }
        match first_nul(path) {
            Some(at) => Err(OpenError::NulByte(at)),
            None => {
                let lmid: i64 = match self.namespace_id {
                    Some(id) => id,
                    None => LM_ID_NEWLM,
                };
                Ok(OpenRequest { lmid, path: with_nul(path), flags: RTLD_NOW | RTLD_LOCAL })
            },
        }
    }

    /// Tells whether the namespace of the next handle is to be asked for.
    pub fn asks_namespace(&self) -> (asks: bool)
        ensures
            asks == (self@.namespace_id is None),
    {
        self.namespace_id.is_none()
    }

    /// Takes account of a library that was opened, or was not. The first namespace
    /// that becomes known stays.
    fn open_into_namespace(&mut self, path: &[u8], reply: OpenReply) -> (handle: Result<
        usize,
        OpenError,
    >)
        ensures
            match handle {
                Ok(handle) => {
                    &&& path_fits(path@)
                    &&& handle == reply.handle
                    &&& handle != 0
                    &&& final(self)@ == (NamespaceModel {
                        namespace_id: old(self)@.opened(handle, reply.namespace, false).namespace_id,
                        ..old(self)@
                    })
                },
                Err(error) => load_result(
                    old(self)@,
                    path@,
                    reply,
                    false,
                    final(self)@,
                    Err::<(), OpenError>(error),
                ),
            },
    {
        match self.open_request(path) {
            Err(error) => {
                return Err(error);
            },
            Ok(_) => {},
        }
        if reply.handle == 0 {
            let why = match reply.error {
                Some(why) => why,
                None => "(unknown error)".to_owned(),
            };
            return Err(OpenError::DlmopenFailed(why));
        }
        if self.namespace_id.is_none() {
            self.namespace_id = reply.namespace;
        }
        Ok(reply.handle)
    }

    /// Takes account of a dependency that was opened, or was not.
    pub fn load_dependency(&mut self, path: &[u8], reply: OpenReply) -> (result: Result<(), OpenError>)
        requires
            old(self).wf(),
        ensures
            final(self).wf(),
            load_result(old(self)@, path@, reply, false, final(self)@, result),
            result is Ok <==> valid_utf8(path@) && !path@.contains(0u8) && reply.handle != 0,
            result is Ok ==> {
                &&& final(self)@.handles == old(self)@.handles.push(reply.handle)
                &&& final(self)@.main_handle == old(self)@.main_handle
                &&& old(self)@.namespace_id is Some ==> final(self)@.namespace_id
                    == old(self)@.namespace_id
                &&& old(self)@.namespace_id is None ==> final(self)@.namespace_id == reply.namespace
            },
            result is Err ==> final(self)@ == old(self)@,
            result matches Err(error) ==> match error {
                OpenError::InvalidUtf8 => !valid_utf8(path@),
                OpenError::NulByte(at) => valid_utf8(path@) && at < path@.len() && path@[at as int]
                    == 0 && !path@.take(at as int).contains(0u8),
                OpenError::DlmopenFailed(why) => valid_utf8(path@) && !path@.contains(0u8)
                    && reply.handle == 0 && (reply.error matches Some(text) ==> why@ == text@) && (
                reply.error is None ==> why@ == "(unknown error)"@),
            },
    {
        let ghost before = self@;
        match self.open_into_namespace(path, reply) {
            Err(error) => Err(error),
            Ok(handle) => {
                self.handles.push(handle);
                proof {
                    assert(self@ =~= before.opened(reply.handle, reply.namespace, false));
                    lemma_opened_wf(before, reply.handle, reply.namespace, false);
                }
                Ok(())
            },
        }
    }

    /// Takes account of the main library that was opened, or was not.
    pub fn load_main(&mut self, path: &[u8], reply: OpenReply) -> (result: Result<(), OpenError>)
        requires
            old(self).wf(),
        ensures
            final(self).wf(),
            load_result(old(self)@, path@, reply, true, final(self)@, result),
            result is Ok <==> valid_utf8(path@) && !path@.contains(0u8) && reply.handle != 0,
            result is Ok ==> {
                &&& final(self)@.handles == old(self)@.handles.push(reply.handle)
                &&& final(self)@.main_handle == Some(reply.handle)
                &&& old(self)@.namespace_id is Some ==> final(self)@.namespace_id
                    == old(self)@.namespace_id
                &&& old(self)@.namespace_id is None ==> final(self)@.namespace_id == reply.namespace
            },
            result is Err ==> final(self)@ == old(self)@,
            result matches Err(error) ==> match error {
                OpenError::InvalidUtf8 => !valid_utf8(path@),
                OpenError::NulByte(at) => valid_utf8(path@) && at < path@.len() && path@[at as int]
                    == 0 && !path@.take(at as int).contains(0u8),
                OpenError::DlmopenFailed(why) => valid_utf8(path@) && !path@.contains(0u8)
                    && reply.handle == 0 && (reply.error matches Some(text) ==> why@ == text@) && (
                reply.error is None ==> why@ == "(unknown error)"@),
            },
    {
        let ghost before = self@;
        match self.open_into_namespace(path, reply) {
            Err(error) => Err(error),
            Ok(handle) => {
                self.handles.push(handle);
                self.main_handle = Some(handle);
                proof {
                    assert(self@ =~= before.opened(reply.handle, reply.namespace, true));
                    lemma_opened_wf(before, reply.handle, reply.namespace, true);
                }
                Ok(())
            },
        }
    }

    /// With what arguments a symbol is to be looked up: in the main library, by a
    /// name that has no zero byte in it.
    pub fn symbol_request(&self, name: &str) -> (request: Result<SymbolRequest, SymbolError>)
        ensures
            match request {
                Ok(request) => {
                    &&& self@.main_handle == Some(request.handle)
                    &&& !encode_utf8(name@).contains(0u8)
                    &&& request.name@ == encode_utf8(name@).push(0u8)
                },
                Err(SymbolError::NoMainLibrary) => self@.main_handle is None,
                Err(SymbolError::NulByte(at)) => self@.main_handle is Some && is_first_nul(
                    encode_utf8(name@),
                    at as int,
                ),
                Err(SymbolError::DlsymFailed(_)) => false,
            },
    {
        let handle = match self.main_handle {
            None => {
                return Err(SymbolError::NoMainLibrary);
            },
            Some(handle) => handle,
        };
        let bytes = name.as_bytes();
        match first_nul(bytes) {
            Some(at) => Err(SymbolError::NulByte(at)),
            None => Ok(SymbolRequest { handle, name: with_nul(bytes) }),
        }
    }

    /// The address of a symbol, given what came back from looking it up.
    pub fn get_symbol(&self, name: &str, reply: SymbolReply) -> (address: Result<usize, SymbolError>)
        ensures
            match address {
                Ok(address) => {
                    &&& self@.main_handle is Some
                    &&& !encode_utf8(name@).contains(0u8)
                    &&& address == reply.address
                    &&& address != 0
                },
                Err(SymbolError::NoMainLibrary) => self@.main_handle is None,
                Err(SymbolError::NulByte(at)) => self@.main_handle is Some && is_first_nul(
                    encode_utf8(name@),
                    at as int,
                ),
                Err(SymbolError::DlsymFailed(why)) => {
                    &&& self@.main_handle is Some
                    &&& !encode_utf8(name@).contains(0u8)
                    &&& reply.address == 0
                    &&& why@ == text_or(reply.error, symbol_missing_text(name@))
                },
            },
            address is Ok <==> self@.main_handle is Some && !encode_utf8(name@).contains(0u8)
                && reply.address != 0,
            address matches Err(SymbolError::NulByte(at)) ==> at < encode_utf8(name@).len()
                && encode_utf8(name@)[at as int] == 0 && !encode_utf8(name@).take(at as int).contains(
                0u8,
            ),
            address matches Err(SymbolError::DlsymFailed(why)) ==> {
                &&& reply.error matches Some(text) ==> why@ == text@
                &&& reply.error is None ==> why@ == "symbol '"@ + name@ + "' not found"@
            },
    {
        match self.symbol_request(name) {
            Err(error) => {
                return Err(error);
            },
            Ok(_) => {},
        }
        if reply.address == 0 {
            let why = match reply.error {
                Some(why) => why,
                None => join_three("symbol '", name, "' not found"),
            };
            return Err(SymbolError::DlsymFailed(why));
        }
        Ok(reply.address)
    }

    /// The handles in the order in which they are to be closed, the last opened
    /// first. The namespace no longer holds them.
    pub fn close_order(&mut self) -> (order: Vec<usize>)
        ensures
            order@ == old(self)@.handles.reverse(),
            final(self)@ == (NamespaceModel { handles: Seq::empty(), ..old(self)@ }),
    {
        let ghost handles = self.handles@;
        let mut order: Vec<usize> = Vec::new();
        while self.handles.len() > 0
            invariant
                self.handles@.len() <= handles.len(),
                self.handles@ == handles.take(self.handles@.len() as int),
                order@ == handles.skip(self.handles@.len() as int).reverse(),
                self.namespace_id == old(self).namespace_id,
                self.main_handle == old(self).main_handle,
            decreases self.handles@.len(),
        {
            let ghost n = self.handles@.len() as int;
            let last = self.handles[self.handles.len() - 1];
            self.handles.pop();
            order.push(last);
            assert(self.handles@ =~= handles.take(n - 1));
            assert(order@ =~= handles.skip(n - 1).reverse());
        }
        assert(handles.skip(0) =~= handles);
        assert(self.handles@ =~= Seq::empty());
        order
    }
}

impl Default for DlmopenNamespace {
    fn default() -> (namespace: DlmopenNamespace)
        ensures
            namespace.wf(),
            namespace@ == NamespaceModel::empty(),
    {
        DlmopenNamespace::new()
    }
}

/// Opening a library keeps a namespace well formed.
pub proof fn lemma_opened_wf(m: NamespaceModel, handle: usize, namespace: Option<i64>, main: bool)
    requires
        m.wf(),
        handle != 0,
    ensures
        m.opened(handle, namespace, main).wf(),
{
    let after = m.opened(handle, namespace, main);
    assert(after.handles[m.handles.len() as int] == handle);
    assert(after.handles.contains(handle));
    if !main && m.main_handle is Some {
        let i = choose|i: int| 0 <= i < m.handles.len() && m.handles[i] == m.main_handle->0;
        assert(after.handles[i] == m.main_handle->0);
    }
}

/// The text that tells where the first zero byte is.
pub open spec fn nul_text(at: nat) -> Seq<char> {
    "nul byte found in provided data at position: "@ + decimal(at)
}

/// The text of an error in opening the library whose path reads `path`.
pub open spec fn open_error_text(error: OpenError, path: Seq<char>) -> Seq<char> {
    match error {
        OpenError::InvalidUtf8 => "Path contains invalid UTF-8: "@ + path,
        OpenError::NulByte(at) => "Path contains null byte: "@ + nul_text(at as nat),
        OpenError::DlmopenFailed(why) => "dlmopen failed for "@ + path + ": "@ + why@,
    }
}

/// The text of an error in looking up the symbol `name`.
pub open spec fn symbol_error_text(error: SymbolError, name: Seq<char>) -> Seq<char> {
    match error {
        SymbolError::NoMainLibrary => "No main library loaded in this namespace"@,
        SymbolError::NulByte(at) => "Symbol name contains null byte: "@ + nul_text(at as nat),
        SymbolError::DlsymFailed(why) => "dlsym failed for '"@ + name + "': "@ + why@,
    }
}

impl OpenError {
    /// The text of the error, given the text of the path.
    pub fn message(&self, path: &str) -> (text: String)
        ensures
            text@ == open_error_text(*self, path@),
            match *self {
                OpenError::InvalidUtf8 => text@ == "Path contains invalid UTF-8: "@ + path@,
                OpenError::NulByte(at) => text@ == "Path contains null byte: "@
                    + "nul byte found in provided data at position: "@ + decimal(at as nat),
                OpenError::DlmopenFailed(why) => text@ == "dlmopen failed for "@ + path@ + ": "@
                    + why@,
            },
    {
        match self {
            OpenError::InvalidUtf8 => {
                let mut text = "Path contains invalid UTF-8: ".to_owned();
                text.append(path);
                text
            },
            OpenError::NulByte(at) => {
                let digits = decimal_text(*at);
                let text = join_three(
                    "Path contains null byte: ",
                    "nul byte found in provided data at position: ",
                    digits.as_str(),
                );
                assert(text@ =~= open_error_text(*self, path@));
                text
            },
            OpenError::DlmopenFailed(why) => {
                let mut text = join_three("dlmopen failed for ", path, ": ");
                text.append(why.as_str());
                text
            },
        }
    }
}

impl SymbolError {
    /// The text of the error, given the name of the symbol.
    pub fn message(&self, name: &str) -> (text: String)
        ensures
            text@ == symbol_error_text(*self, name@),
            match *self {
                SymbolError::NoMainLibrary => text@ == "No main library loaded in this namespace"@,
                SymbolError::NulByte(at) => text@ == "Symbol name contains null byte: "@
                    + "nul byte found in provided data at position: "@ + decimal(at as nat),
                SymbolError::DlsymFailed(why) => text@ == "dlsym failed for '"@ + name@ + "': "@
                    + why@,
            },
    {
        match self {
            SymbolError::NoMainLibrary => "No main library loaded in this namespace".to_owned(),
            SymbolError::NulByte(at) => {
                let digits = decimal_text(*at);
                let text = join_three(
                    "Symbol name contains null byte: ",
                    "nul byte found in provided data at position: ",
                    digits.as_str(),
                );
                assert(text@ =~= symbol_error_text(*self, name@));
                text
            },
            SymbolError::DlsymFailed(why) => {
                let mut text = join_three("dlsym failed for '", name, "': ");
                text.append(why.as_str());
                text
            },
        }
    }
}

} // verus!
