//! The Wasm runtime: its values, with what is known of each, and the calls into it.
//!
//! An engine, a module and what is made of them are held with a model of what they
//! are. The fields are private, and all of these values are made by the calls below.
use vstd::prelude::*;

use crate::wasm::begins_as_wasm;

verus! {

/// An error of wasmtime.
#[verifier::external_type_specification]
#[verifier::external_body]
pub struct ExError(anyhow::Error);

/// The settings of an engine.
#[verifier::external_type_specification]
#[verifier::external_body]
pub struct ExConfig(wasmtime::Config);

/// What compiles and runs modules.
#[verifier::external_type_specification]
#[verifier::external_body]
pub struct ExEngine(wasmtime::Engine);

/// A compiled module.
#[verifier::external_type_specification]
#[verifier::external_body]
pub struct ExModule(wasmtime::Module);

/// What the imports of a module are looked up in.
#[verifier::external_type_specification]
#[verifier::external_body]
#[verifier::reject_recursive_types(T)]
pub struct ExLinker<T>(wasmtime::Linker<T>);

/// A module with its imports.
#[verifier::external_type_specification]
#[verifier::external_body]
#[verifier::reject_recursive_types(T)]
pub struct ExInstancePre<T>(wasmtime::InstancePre<T>);

/// What a module sees of the system.
#[verifier::external_type_specification]
#[verifier::external_body]
pub struct ExWasiP1Ctx(wasmtime_wasi::preview1::WasiP1Ctx);

/// What an engine is.
#[verifier::ext_equal]
pub struct EngineModel {
    /// Whether the code that it compiles comes with unwind information for the
    /// machine. Where that is not set the machine decides.
    pub unwind_info: Option<bool>,
    /// The binaries that it compiles, on this machine.
    pub compiles: Set<Seq<u8>>,
}

/// The settings of an engine.
pub struct EngineSettings {
    config: wasmtime::Config,
    model: Ghost<EngineModel>,
}

impl View for EngineSettings {
    type V = EngineModel;

    closed spec fn view(&self) -> EngineModel {
        self.model@
    }
}

/// An engine, and the settings that it was made with.
pub struct WasmEngine {
    engine: wasmtime::Engine,
    model: Ghost<EngineModel>,
}

impl View for WasmEngine {
    type V = EngineModel;

    closed spec fn view(&self) -> EngineModel {
        self.model@
    }
}

impl WasmEngine {
    /// The engine as the runtime has it.
    pub closed spec fn inner(self) -> wasmtime::Engine {
        self.engine
    }

    /// The engine as the runtime has it.
    pub fn engine(&self) -> (engine: &wasmtime::Engine)
        ensures
            *engine == self.inner(),
    {
        &self.engine
    }
}

/// What a module is.
#[verifier::ext_equal]
pub struct ModuleModel {
    /// The binary that it was compiled from.
    pub binary: Seq<u8>,
    /// The settings of the engine that compiled it.
    pub engine: EngineModel,
    /// The bytes that it is written down as.
    pub image: Seq<u8>,
    /// Whether it can be written down: a module that is part of a component cannot.
    pub serializable: bool,
}

/// A compiled module.
pub struct WasmModule {
    module: wasmtime::Module,
    model: Ghost<ModuleModel>,
}

impl View for WasmModule {
    type V = ModuleModel;

    closed spec fn view(&self) -> ModuleModel {
        self.model@
    }
}

impl WasmModule {
    /// The module as the runtime has it.
    pub closed spec fn inner(self) -> wasmtime::Module {
        self.module
    }

    /// The module as the runtime has it.
    pub fn module(&self) -> (module: &wasmtime::Module)
        ensures
            *module == self.inner(),
    {
        &self.module
    }
}

/// A module, and a linker of its engine.
pub(crate) struct ModuleLinker<'a> {
    linker: wasmtime::Linker<wasmtime_wasi::preview1::WasiP1Ctx>,
    module: &'a WasmModule,
    wasi: Ghost<bool>,
}

impl<'a> ModuleLinker<'a> {
    /// What the module is.
    pub(crate) closed spec fn of(self) -> ModuleModel {
        self.module@
    }

    /// Whether the linker has the functions of WASI, and nothing else. Without them
    /// it has nothing.
    pub(crate) closed spec fn has_wasi(self) -> bool {
        self.wasi@
    }
}

/// A module with its imports.
pub struct LinkedModule {
    linked: wasmtime::InstancePre<wasmtime_wasi::preview1::WasiP1Ctx>,
    model: Ghost<ModuleModel>,
}

impl View for LinkedModule {
    type V = ModuleModel;

    closed spec fn view(&self) -> ModuleModel {
        self.model@
    }
}

impl LinkedModule {
    /// The module with its imports as the runtime has it.
    pub closed spec fn inner(self) -> wasmtime::InstancePre<wasmtime_wasi::preview1::WasiP1Ctx> {
        self.linked
    }

    /// The module with its imports as the runtime has it.
    pub fn linked(&self) -> (linked: &wasmtime::InstancePre<
        wasmtime_wasi::preview1::WasiP1Ctx,
    >)
        ensures
            *linked == self.inner(),
    {
        &self.linked
    }
}

/// Whether `wasmtime::Linker::instantiate_pre` succeeds for a module compiled from
/// this binary and a linker with the functions of WASI: whether all that the binary
/// imports are functions of WASI, with their types.
pub uninterp spec fn links_with_wasi(binary: Seq<u8>) -> bool;

/// Calls `wasmtime::Config::default`. Claimed of the call: it does not set whether
/// there is unwind information. Nothing is claimed of the other settings, which
/// depend on the machine.
#[verifier::external_body]
pub(crate) fn default_settings() -> (settings: EngineSettings)
    ensures
        settings@.unwind_info is None,
{
    let config = wasmtime::Config::default();
    EngineSettings { config, model: Ghost(vstd::pervasive::arbitrary()) }
}

/// Calls `wasmtime::Config::native_unwind_info`. Claimed of the call: it sets
/// whether compiled code comes with unwind information.
#[verifier::external_body]
pub(crate) fn set_native_unwind_info(settings: &mut EngineSettings, enable: bool)
    ensures
        final(settings)@.unwind_info == Some(enable),
{
    settings.config.native_unwind_info(enable);
}

/// Calls `wasmtime::Engine::new`. Claimed of the call: an engine that it makes has
/// the settings that it was given. Whether there is one depends on the machine.
#[verifier::external_body]
pub(crate) fn engine_with(settings: &EngineSettings) -> (engine: Result<WasmEngine, anyhow::Error>)
    ensures
        engine matches Ok(e) ==> e@ == settings@,
{
    let engine = wasmtime::Engine::new(&settings.config)?;
    Ok(WasmEngine { engine, model: Ghost(settings.model@) })
}

/// Calls `wasmtime::Module::from_binary`. Claimed of the call: it makes a module
/// exactly of the binaries that the engine compiles, which do not change while the
/// engine is there and the machine has memory for the module. The module is compiled
/// from these bytes by this engine, and can be written down. Bytes that do not begin
/// as the binary format does make none. Which other binaries an engine compiles, and
/// to what image, depends on the machine.
#[verifier::external_body]
pub(crate) fn module_from_binary(engine: &WasmEngine, binary: &[u8]) -> (module: Result<
    WasmModule,
    anyhow::Error,
>)
    ensures
        module is Ok <==> engine@.compiles.contains(binary@),
        module matches Ok(m) ==> m@.binary == binary@ && m@.engine == engine@ && m@.serializable
            && begins_as_wasm(binary@),
{
    let module = wasmtime::Module::from_binary(&engine.engine, binary)?;
    Ok(WasmModule { module, model: Ghost(vstd::pervasive::arbitrary()) })
}

/// Calls `wasmtime::Module::serialize`. Claimed of the call: it fails exactly for a
/// module that cannot be written down, and the bytes that it returns are the module's
/// image.
#[verifier::external_body]
pub(crate) fn serialized(module: &WasmModule) -> (bytes: Result<Vec<u8>, anyhow::Error>)
    ensures
        bytes is Ok <==> module@.serializable,
        bytes matches Ok(b) ==> b@ == module@.image,
{
    module.module.serialize()
}

/// Takes a `wasmtime::Module` that the cache was read as. Nothing is claimed of what
/// it was compiled from, which cannot be read from it.
#[verifier::external_body]
pub(crate) fn read_back(module: wasmtime::Module) -> (taken: WasmModule)
    ensures
        taken.inner() == module,
{
    WasmModule { module, model: Ghost(vstd::pervasive::arbitrary()) }
}

/// Calls `wasmtime::Linker::new` with the engine of the module. Claimed of the call:
/// the linker has no functions yet.
#[verifier::external_body]
pub(crate) fn linker_of(module: &WasmModule) -> (linker: ModuleLinker<'_>)
    ensures
        linker.of() == module@,
        !linker.has_wasi(),
{
    let linker = wasmtime::Linker::new(module.module.engine());
    ModuleLinker { linker, module, wasi: Ghost(false) }
}

/// Calls `wasmtime_wasi::preview1::add_to_linker_sync`. Claimed of the call: it puts
/// the functions of WASI into the linker, and fails only where they are there.
#[verifier::external_body]
pub(crate) fn add_wasi(linker: &mut ModuleLinker<'_>) -> (added: Result<(), anyhow::Error>)
    ensures
        final(linker).of() == old(linker).of(),
        added is Ok <==> !old(linker).has_wasi(),
        final(linker).has_wasi(),
{
    wasmtime_wasi::preview1::add_to_linker_sync(&mut linker.linker, |context| context)
}

/// Calls `wasmtime::Linker::instantiate_pre`, which wants a module of the linker's
/// own engine: no other pair can be made. Claimed of the call: with the functions of
/// WASI its success depends on the module's binary alone, and what it makes is this
/// module with its imports. Not claimed: which binaries these are, and what a linker
/// without functions gives.
#[verifier::external_body]
pub(crate) fn with_imports(linker: &ModuleLinker<'_>) -> (linked: Result<
    LinkedModule,
    anyhow::Error,
>)
    ensures
        linker.has_wasi() ==> (linked is Ok <==> links_with_wasi(linker.of().binary)),
        linked matches Ok(l) ==> l@ == linker.of(),
{
    let linked = linker.linker.instantiate_pre(&linker.module.module)?;
    Ok(LinkedModule { linked, model: Ghost(linker.module.model@) })
}

} // verus!
