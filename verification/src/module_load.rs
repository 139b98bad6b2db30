//! The loading of a module: from the cache where it is there, and from its binary
//! otherwise.
//!
//! A loading touches no file. It says which file is to be looked for, read or
//! written next, and goes on with the reply.
use vstd::prelude::*;

use crate::runtime::{read_back, WasmEngine, WasmModule};
use crate::wasm::{begins_as_wasm, compile_module, CompiledModule, ModuleError};

verus! {

/// What the loading of a module needs next.
#[derive(Debug)]
pub enum ModuleRequest {
    /// Whether the cache has the module in its compiled form.
    LookInCache,
    /// The module, from its compiled form in the cache.
    ReadCache,
    /// The binary of the module.
    ReadBinary,
    /// These bytes are to be written into the cache as the module's compiled form.
    WriteCache(Vec<u8>),
    /// Nothing more.
    Nothing,
}

/// A request, in terms of sequences.
pub enum ModuleRequestModel {
    LookInCache,
    ReadCache,
    ReadBinary,
    WriteCache(Seq<u8>),
    Nothing,
}

impl View for ModuleRequest {
    type V = ModuleRequestModel;

    open spec fn view(&self) -> ModuleRequestModel {
        match *self {
            ModuleRequest::LookInCache => ModuleRequestModel::LookInCache,
            ModuleRequest::ReadCache => ModuleRequestModel::ReadCache,
            ModuleRequest::ReadBinary => ModuleRequestModel::ReadBinary,
            ModuleRequest::WriteCache(cache) => ModuleRequestModel::WriteCache(cache@),
            ModuleRequest::Nothing => ModuleRequestModel::Nothing,
        }
    }
}

/// Why a module is not loaded. `E` is what the surroundings report when they fail.
pub enum ModuleLoadError<E> {
    /// The binary did not become a module.
    Module(ModuleError),
    /// Something outside of the library failed.
    Outside(E),
}

/// How far the loading of a module has come.
enum ModuleStage {
    Look,
    Cached,
    Binary,
    Write(CompiledModule),
    Over(WasmModule),
}

/// How far the loading of a module has come, in terms of sequences.
pub enum ModuleLoadModel {
    /// It is to be found out whether the cache has the module.
    Look,
    /// The cache has the module, and it is taken from there.
    Cached,
    /// The cache does not have the module, and it is compiled.
    Binary,
    /// The module was compiled, and is written into the cache.
    Write { module: WasmModule, cache: Seq<u8> },
    /// The module is loaded.
    Over(WasmModule),
}

impl ModuleLoadModel {
    /// What the loading needs next.
    pub open spec fn request(self) -> ModuleRequestModel {
        match self {
            ModuleLoadModel::Look => ModuleRequestModel::LookInCache,
            ModuleLoadModel::Cached => ModuleRequestModel::ReadCache,
            ModuleLoadModel::Binary => ModuleRequestModel::ReadBinary,
            ModuleLoadModel::Write { module, cache } => ModuleRequestModel::WriteCache(cache),
            ModuleLoadModel::Over(_) => ModuleRequestModel::Nothing,
        }
    }

    /// The loading after the cache was looked into.
    pub open spec fn after_look(self, in_cache: bool) -> ModuleLoadModel {
        if in_cache {
            ModuleLoadModel::Cached
        } else {
            ModuleLoadModel::Binary
        }
    }

    /// The loading after the module was taken from the cache.
    pub open spec fn after_cache<E>(self, reply: Result<WasmModule, E>) -> Result<
        ModuleLoadModel,
        ModuleLoadError<E>,
    > {
        match reply {
            Ok(module) => Ok(ModuleLoadModel::Over(module)),
            Err(e) => Err(ModuleLoadError::Outside(e)),
        }
    }

    /// The loading after the binary was compiled.
    pub open spec fn after_compiling<E>(self, reply: Result<CompiledModule, ModuleError>) -> Result<
        ModuleLoadModel,
        ModuleLoadError<E>,
    > {
        match reply {
            Ok(compiled) => Ok(
                ModuleLoadModel::Write { module: compiled.module, cache: compiled.cache@ },
            ),
            Err(e) => Err(ModuleLoadError::Module(e)),
        }
    }

    /// The loading after the compiled form was written into the cache.
    pub open spec fn after_writing<E>(self, reply: Result<(), E>) -> Result<
        ModuleLoadModel,
        ModuleLoadError<E>,
    > {
        match reply {
            Ok(_) => Ok(ModuleLoadModel::Over(self->module)),
            Err(e) => Err(ModuleLoadError::Outside(e)),
        }
    }
}

/// The loading of a module.
pub struct ModuleLoad {
    stage: ModuleStage,
}

impl View for ModuleLoad {
    type V = ModuleLoadModel;

    closed spec fn view(&self) -> ModuleLoadModel {
        match self.stage {
            ModuleStage::Look => ModuleLoadModel::Look,
            ModuleStage::Cached => ModuleLoadModel::Cached,
            ModuleStage::Binary => ModuleLoadModel::Binary,
            ModuleStage::Write(compiled) => ModuleLoadModel::Write {
                module: compiled.module,
                cache: compiled.cache@,
            },
            ModuleStage::Over(module) => ModuleLoadModel::Over(module),
        }
    }
}

/// What became of a step, as a state or an error.
pub open spec fn module_step_model<E>(next: Result<ModuleLoad, ModuleLoadError<E>>) -> Result<
    ModuleLoadModel,
    ModuleLoadError<E>,
> {
    match next {
        Ok(load) => Ok(load@),
        Err(error) => Err(error),
    }
}

impl ModuleLoad {
    /// Starts to load a module.
    pub fn start() -> (load: ModuleLoad)
        ensures
            load@ == ModuleLoadModel::Look,
    {
        ModuleLoad { stage: ModuleStage::Look }
    }

    /// What the loading needs next.
    pub fn request(&self) -> (request: ModuleRequest)
        ensures
            request@ == self@.request(),
            match self@ {
                ModuleLoadModel::Look => request is LookInCache,
                ModuleLoadModel::Cached => request is ReadCache,
                ModuleLoadModel::Binary => request is ReadBinary,
                ModuleLoadModel::Write { module, cache } => request matches ModuleRequest::WriteCache(
                    bytes,
                ) && bytes@ == cache,
                ModuleLoadModel::Over(_) => request is Nothing,
            },
    {
        match &self.stage {
            ModuleStage::Look => ModuleRequest::LookInCache,
            ModuleStage::Cached => ModuleRequest::ReadCache,
            ModuleStage::Binary => ModuleRequest::ReadBinary,
            ModuleStage::Write(compiled) => ModuleRequest::WriteCache(
                crate::text::copy_bytes(compiled.cache.as_slice()),
            ),
            ModuleStage::Over(_) => ModuleRequest::Nothing,
        }
    }

    /// Goes on after the cache was looked into.
    pub fn looked(self, in_cache: bool) -> (load: ModuleLoad)
        requires
            self@.request() is LookInCache,
        ensures
            load@ == self@.after_look(in_cache),
            load@ == (if in_cache {
                ModuleLoadModel::Cached
            } else {
                ModuleLoadModel::Binary
            }),
    {
        if in_cache {
            ModuleLoad { stage: ModuleStage::Cached }
        } else {
            ModuleLoad { stage: ModuleStage::Binary }
        }
    }

    /// Goes on with the module as the cache has it.
    pub fn cache_read<E>(self, reply: Result<wasmtime::Module, E>) -> (next: Result<
        ModuleLoad,
        ModuleLoadError<E>,
    >)
        requires
            self@.request() is ReadCache,
        ensures
            match reply {
                Ok(module) => exists|taken: WasmModule| #[trigger]
                    taken.inner() == module && module_step_model(next) == self@.after_cache(
                        Ok::<WasmModule, E>(taken),
                    ),
                Err(e) => module_step_model(next) == self@.after_cache(Err::<WasmModule, E>(e)),
            },
            match reply {
                Ok(module) => next matches Ok(load) && load@ matches ModuleLoadModel::Over(taken)
                    && taken.inner() == module,
                Err(e) => next == Err::<ModuleLoad, ModuleLoadError<E>>(ModuleLoadError::Outside(e)),
            },
    {
        match reply {
            Ok(module) => {
                let taken = read_back(module);
                assert(taken.inner() == module);
                Ok(ModuleLoad { stage: ModuleStage::Over(taken) })
            },
            Err(e) => Err(ModuleLoadError::Outside(e)),
        }
    }

    /// Goes on with what became of compiling the binary.
    pub fn compiled<E>(self, reply: Result<CompiledModule, ModuleError>) -> (next: Result<
        ModuleLoad,
        ModuleLoadError<E>,
    >)
        requires
            self@.request() is ReadBinary,
        ensures
            module_step_model(next) == self@.after_compiling::<E>(reply),
            match reply {
                Ok(compiled) => next matches Ok(load) && load@ == (ModuleLoadModel::Write {
                    module: compiled.module,
                    cache: compiled.cache@,
                }),
                Err(e) => next == Err::<ModuleLoad, ModuleLoadError<E>>(ModuleLoadError::Module(e)),
            },
    {
        match reply {
            Ok(compiled) => Ok(ModuleLoad { stage: ModuleStage::Write(compiled) }),
            Err(e) => Err(ModuleLoadError::Module(e)),
        }
    }

    /// Goes on with the binary: it is compiled, and what is written into the cache is
    /// the image of the module. `compiled` tells what follows on the attempt. It
    /// succeeds exactly for the binaries that the engine compiles.
    pub fn binary_read<E>(self, engine: &WasmEngine, reply: Result<Vec<u8>, E>) -> (next: Result<
        ModuleLoad,
        ModuleLoadError<E>,
    >)
        requires
            self@.request() is ReadBinary,
        ensures
            match reply {
                Err(e) => next == Err::<ModuleLoad, ModuleLoadError<E>>(ModuleLoadError::Outside(e)),
                Ok(binary) => (next is Ok <==> engine@.compiles.contains(binary@)) && match next {
                    Ok(load) => {
                        &&& begins_as_wasm(binary@)
                        &&& load@ is Write
                        &&& load@->module@.binary == binary@
                        &&& load@->module@.engine == engine@
                        &&& load@->cache == load@->module@.image
                    },
                    Err(ModuleLoadError::Module(error)) => error is Compile,
                    Err(ModuleLoadError::Outside(_)) => false,
                },
            },
    {
        match reply {
            Err(e) => Err(ModuleLoadError::Outside(e)),
            Ok(binary) => {
                let attempt = compile_module(engine, binary.as_slice());
                self.compiled(attempt)
            },
        }
    }

    /// Goes on after the compiled form was written into the cache, or was not.
    pub fn cache_written<E>(self, reply: Result<(), E>) -> (next: Result<
        ModuleLoad,
        ModuleLoadError<E>,
    >)
        requires
            self@.request() is WriteCache,
        ensures
            module_step_model(next) == self@.after_writing(reply),
            match reply {
                Ok(_) => next matches Ok(load) && load@ == ModuleLoadModel::Over(self@->module),
                Err(e) => next == Err::<ModuleLoad, ModuleLoadError<E>>(ModuleLoadError::Outside(e)),
            },
    {
        match reply {
            Err(e) => Err(ModuleLoadError::Outside(e)),
            Ok(_) => match self.stage {
                ModuleStage::Write(compiled) => Ok(
                    ModuleLoad { stage: ModuleStage::Over(compiled.module) },
                ),
                _ => vstd::pervasive::unreached(),
            },
        }
    }

    /// The module, once nothing more is needed.
    pub fn finish(self) -> (module: WasmModule)
        requires
            self@.request() is Nothing,
        ensures
            self@ == ModuleLoadModel::Over(module),
    {
        match self.stage {
            ModuleStage::Over(module) => module,
            _ => vstd::pervasive::unreached(),
        }
    }
}

} // verus!
