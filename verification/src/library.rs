//! What a loaded pack is, and what its functions are called through.
use vstd::prelude::*;
use vstd::utf8::encode_utf8;

use crate::linux_dlmopen::{
    symbol_missing_text, text_or, DlmopenNamespace, SymbolError, SymbolReply, SymbolRequest,
};
use crate::text::is_first_nul;

verus! {

/// The native libraries of a pack, in a namespace of their own.
#[derive(Debug)]
pub struct NativeLibrary {
    pub namespace: DlmopenNamespace,
}

/// A module `I`, and what it runs in.
#[derive(Debug)]
pub struct WasmLibrary<I, C> {
    pub instance: I,
    pub store: C,
}

/// A loaded pack: native libraries, or a module.
#[derive(Debug)]
pub enum Library<N, I, C> {
    NativeLibrary(N),
    WasmLibrary(WasmLibrary<I, C>),
}

/// Where a function of a loaded pack is to be looked up.
#[derive(Debug)]
pub enum Lookup {
    /// Among the symbols of the main library.
    Symbol(SymbolRequest),
    /// Among what the module exports.
    Export,
}

/// A function of a loaded pack: a symbol that the platform's own loader found, an
/// export of a module, or an address in a namespace.
#[derive(Debug)]
pub enum Function<F, T> {
    LLFunction(F),
    WasmFunction(T),
    DlmopenFn(usize),
}

/// What came back from looking up a function: of a symbol `S`, or of an export.
#[derive(Debug)]
pub enum LookupReply<S, T, E> {
    /// The symbol, where the library is a native one.
    Symbol(S),
    /// The export, or why there is none of that name and type, where it is a module.
    Export(Result<T, E>),
}

/// Why a function was not found. `E` is what the surroundings report when they fail.
#[derive(Debug)]
pub enum FunctionError<E> {
    /// The namespace does not have the symbol.
    Symbol(SymbolError),
    /// The platform's loader does not have the symbol, or the module the export.
    Outside(E),
}

/// Whether a reply is on what is looked up in a library: an export exactly in a module.
pub open spec fn answers<N, I, C, S, T, E>(
    library: Library<N, I, C>,
    reply: LookupReply<S, T, E>,
) -> bool {
    reply is Export <==> library is WasmLibrary
}

/// What becomes of the symbol `name` that was looked up in a namespace: a function at
/// its address, or an error.
pub open spec fn symbol_result<F, T>(
    native: NativeLibrary,
    name: Seq<char>,
    reply: SymbolReply,
    function: Result<Function<F, T>, SymbolError>,
) -> bool {
    match function {
        Ok(function) => {
            &&& native.namespace@.main_handle is Some
            &&& !encode_utf8(name).contains(0u8)
            &&& reply.address != 0
            &&& function == Function::<F, T>::DlmopenFn(reply.address)
        },
        Err(SymbolError::NoMainLibrary) => native.namespace@.main_handle is None,
        Err(SymbolError::NulByte(at)) => native.namespace@.main_handle is Some && is_first_nul(
            encode_utf8(name),
            at as int,
        ),
        Err(SymbolError::DlsymFailed(why)) => {
            &&& native.namespace@.main_handle is Some
            &&& !encode_utf8(name).contains(0u8)
            &&& reply.address == 0
            &&& why@ == text_or(reply.error, symbol_missing_text(name))
        },
    }
}

/// What becomes of an export that was looked up: a function of the module, or the error.
pub open spec fn export_function<F, T, E>(reply: Result<T, E>) -> Result<Function<F, T>, E> {
    match reply {
        Ok(export) => Ok(Function::WasmFunction(export)),
        Err(e) => Err(e),
    }
}

/// What becomes of the function `name` that was looked up in a library whose native
/// libraries are in a namespace.
pub open spec fn namespace_function<I, C, F, T, E>(
    library: Library<NativeLibrary, I, C>,
    name: Seq<char>,
    reply: LookupReply<SymbolReply, T, E>,
    function: Result<Function<F, T>, FunctionError<E>>,
) -> bool {
    match reply {
        LookupReply::Symbol(symbol) => match function {
            Ok(f) => symbol_result(library->NativeLibrary_0, name, symbol, Ok(f)),
            Err(FunctionError::Symbol(error)) => symbol_result::<F, T>(
                library->NativeLibrary_0,
                name,
                symbol,
                Err(error),
            ),
            Err(FunctionError::Outside(_)) => false,
        },
        LookupReply::Export(export) => function == (match export_function::<F, T, E>(export) {
            Ok(f) => Ok(f),
            Err(e) => Err(FunctionError::Outside(e)),
        }),
    }
}

/// What becomes of a function that was looked up in a library whose native libraries
/// the platform's own loader holds.
pub open spec fn loader_function<F, T, E>(reply: LookupReply<Result<F, E>, T, E>) -> Result<
    Function<F, T>,
    FunctionError<E>,
> {
    match reply {
        LookupReply::Symbol(Ok(symbol)) => Ok(Function::LLFunction(symbol)),
        LookupReply::Symbol(Err(e)) => Err(FunctionError::Outside(e)),
        LookupReply::Export(export) => match export_function::<F, T, E>(export) {
            Ok(f) => Ok(f),
            Err(e) => Err(FunctionError::Outside(e)),
        },
    }
}

/// How a function is called, given the library that it is called with.
pub open spec fn call_route<N, I, C, F, T>(
    function: Function<F, T>,
    library: Library<N, I, C>,
) -> CallRoute {
    match function {
        Function::LLFunction(_) => CallRoute::Symbol,
        Function::DlmopenFn(_) => CallRoute::Address,
        Function::WasmFunction(_) => match library {
            Library::WasmLibrary(_) => CallRoute::Module,
            Library::NativeLibrary(_) => CallRoute::NoModule,
        },
    }
}

/// A function that was got from a library, in either way, is a module's exactly if the
/// library is a module. So it can be called with that library: there is no module's
/// function without a module.
pub proof fn got_functions_can_be_called<N, I, C, F, T, E>(
    in_namespace: Library<NativeLibrary, I, C>,
    name: Seq<char>,
    symbol_reply: LookupReply<SymbolReply, T, E>,
    function: Result<Function<F, T>, FunctionError<E>>,
    by_loader: Library<N, I, C>,
    loader_reply: LookupReply<Result<F, E>, T, E>,
)
    requires
        answers(in_namespace, symbol_reply),
        namespace_function(in_namespace, name, symbol_reply, function),
        answers(by_loader, loader_reply),
    ensures
        function matches Ok(f) ==> {
            &&& f is WasmFunction <==> in_namespace is WasmLibrary
            &&& call_route(f, in_namespace) != CallRoute::NoModule
        },
        loader_function(loader_reply) matches Ok(f) ==> {
            &&& f is WasmFunction <==> by_loader is WasmLibrary
            &&& call_route(f, by_loader) != CallRoute::NoModule
        },
{
}

/// The function that an export of a module is, or the error of its lookup.
pub fn exported<F, T, E>(reply: Result<T, E>) -> (function: Result<Function<F, T>, E>)
    ensures
        function == export_function::<F, T, E>(reply),
        function == (match reply {
            Ok(export) => Ok(Function::<F, T>::WasmFunction(export)),
            Err(e) => Err(e),
        }),
{
    match reply {
        Ok(export) => Ok(Function::WasmFunction(export)),
        Err(e) => Err(e),
    }
}

/// How a function is called.
#[derive(Debug, PartialEq, Eq, Structural)]
pub enum CallRoute {
    /// Through the symbol.
    Symbol,
    /// In what the module runs in.
    Module,
    /// At the address.
    Address,
    /// Not at all: the function is a module's, and there is no module.
    NoModule,
}

impl<N, I, C> Library<N, I, C> {
    /// The library that native libraries are.
    pub fn new_native_library(native: N) -> (library: Library<N, I, C>)
        ensures
            library == Library::<N, I, C>::NativeLibrary(native),
    {
        Library::NativeLibrary(native)
    }

    /// The library that a module is.
    pub fn new_wasm_library(instance: I, store: C) -> (library: Library<N, I, C>)
        ensures
            library == Library::<N, I, C>::WasmLibrary(WasmLibrary { instance, store }),
    {
        Library::WasmLibrary(WasmLibrary { instance, store })
    }

    /// The function that was looked up, where the platform's own loader holds the
    /// native libraries.
    pub fn found_by_loader<F, T, E>(&self, reply: LookupReply<Result<F, E>, T, E>) -> (function:
        Result<Function<F, T>, FunctionError<E>>)
        requires
            answers(*self, reply),
        ensures
            function == loader_function(reply),
            function matches Ok(f) ==> call_route(f, *self) != CallRoute::NoModule,
            function == (match reply {
                LookupReply::Symbol(Ok(symbol)) => Ok(Function::<F, T>::LLFunction(symbol)),
                LookupReply::Symbol(Err(e)) => Err(FunctionError::Outside(e)),
                LookupReply::Export(Ok(export)) => Ok(Function::<F, T>::WasmFunction(export)),
                LookupReply::Export(Err(e)) => Err(FunctionError::Outside(e)),
            }),
    {
        match reply {
            LookupReply::Symbol(symbol) => match symbol {
                Ok(symbol) => Ok(Function::LLFunction(symbol)),
                Err(e) => Err(FunctionError::Outside(e)),
            },
            LookupReply::Export(export) => match exported(export) {
                Ok(function) => Ok(function),
                Err(e) => Err(FunctionError::Outside(e)),
            },
        }
    }
}

impl<I, C> Library<NativeLibrary, I, C> {
    /// The library that a namespace is.
    pub fn new_native_library_dlmopen(namespace: DlmopenNamespace) -> (library: Library<
        NativeLibrary,
        I,
        C,
    >)
        ensures
            library == Library::<NativeLibrary, I, C>::NativeLibrary(NativeLibrary { namespace }),
    {
        Library::new_native_library(NativeLibrary { namespace })
    }

    /// Where the function `name` is to be looked up.
    pub fn get_function(&self, name: &str) -> (lookup: Result<Lookup, SymbolError>)
        ensures
            match *self {
                Library::WasmLibrary(_) => lookup == Ok::<Lookup, SymbolError>(Lookup::Export),
                Library::NativeLibrary(native) => match lookup {
                    Ok(Lookup::Symbol(request)) => {
                        &&& native.namespace@.main_handle == Some(request.handle)
                        &&& !encode_utf8(name@).contains(0u8)
                        &&& request.name@ == encode_utf8(name@).push(0u8)
                    },
                    Ok(Lookup::Export) => false,
                    Err(SymbolError::NoMainLibrary) => native.namespace@.main_handle is None,
                    Err(SymbolError::NulByte(at)) => native.namespace@.main_handle is Some
                        && is_first_nul(encode_utf8(name@), at as int),
                    Err(SymbolError::DlsymFailed(_)) => false,
                },
            },
    {
        match self {
            Library::WasmLibrary(_) => Ok(Lookup::Export),
            Library::NativeLibrary(native) => match native.namespace.symbol_request(name) {
                Ok(request) => Ok(Lookup::Symbol(request)),
                Err(error) => Err(error),
            },
        }
    }

    /// The function `name` that was looked up, where the native libraries are in a
    /// namespace.
    pub fn found_in_namespace<F, T, E>(
        &self,
        name: &str,
        reply: LookupReply<SymbolReply, T, E>,
    ) -> (function: Result<Function<F, T>, FunctionError<E>>)
        requires
            answers(*self, reply),
        ensures
            namespace_function(*self, name@, reply, function),
            function matches Ok(f) ==> call_route(f, *self) != CallRoute::NoModule,
            match reply {
                LookupReply::Export(Ok(export)) => function == Ok::<
                    Function<F, T>,
                    FunctionError<E>,
                >(Function::WasmFunction(export)),
                LookupReply::Export(Err(e)) => function == Err::<Function<F, T>, FunctionError<E>>(
                    FunctionError::Outside(e),
                ),
                LookupReply::Symbol(symbol) => {
                    let namespace = (*self)->NativeLibrary_0.namespace@;
                    &&& function is Ok <==> namespace.main_handle is Some && !encode_utf8(
                        name@,
                    ).contains(0u8) && symbol.address != 0
                    &&& function matches Ok(f) ==> f == Function::<F, T>::DlmopenFn(symbol.address)
                },
            },
    {
        match reply {
            LookupReply::Symbol(symbol) => match self {
                Library::NativeLibrary(native) => match native.function(name, symbol) {
                    Ok(function) => Ok(function),
                    Err(error) => Err(FunctionError::Symbol(error)),
                },
                _ => vstd::pervasive::unreached(),
            },
            LookupReply::Export(export) => match exported(export) {
                Ok(function) => Ok(function),
                Err(e) => Err(FunctionError::Outside(e)),
            },
        }
    }
}

impl NativeLibrary {
    /// The function `name`, given what came back from looking up its symbol.
    pub fn function<F, T>(&self, name: &str, reply: SymbolReply) -> (function: Result<
        Function<F, T>,
        SymbolError,
    >)
        ensures
            symbol_result(*self, name@, reply, function),
            function is Ok <==> self.namespace@.main_handle is Some && !encode_utf8(name@).contains(
                0u8,
            ) && reply.address != 0,
            function matches Ok(f) ==> f == Function::<F, T>::DlmopenFn(reply.address),
    {
        match self.namespace.get_symbol(name, reply) {
            Ok(address) => Ok(Function::DlmopenFn(address)),
            Err(error) => Err(error),
        }
    }
}

impl<F, T> Function<F, T> {
    /// How the function is called, given the library that it is called with.
    pub fn call<N, I, C>(&self, library: &Library<N, I, C>) -> (route: CallRoute)
        ensures
            route == call_route(*self, *library),
            route == CallRoute::Symbol <==> *self is LLFunction,
            route == CallRoute::Address <==> *self is DlmopenFn,
            route == CallRoute::Module <==> *self is WasmFunction && *library is WasmLibrary,
            route == CallRoute::NoModule <==> *self is WasmFunction && *library is NativeLibrary,
    {
        match self {
            Function::LLFunction(_) => CallRoute::Symbol,
            Function::DlmopenFn(_) => CallRoute::Address,
            Function::WasmFunction(_) => match library {
                Library::WasmLibrary(_) => CallRoute::Module,
                Library::NativeLibrary(_) => CallRoute::NoModule,
            },
        }
    }
}

} // verus!
