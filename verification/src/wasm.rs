//! Wasm modules: where they come from, and what they are compiled to.
use vstd::prelude::*;

use crate::runtime::{
    add_wasi, default_settings, engine_with, linker_of, links_with_wasi, module_from_binary,
    serialized, set_native_unwind_info, with_imports, EngineModel, EngineSettings, LinkedModule,
    WasmEngine, WasmModule,
};

verus! {

/// Whether bytes begin with the magic number of the binary format.
pub open spec fn begins_as_wasm(binary: Seq<u8>) -> bool {
    binary.len() >= 4 && binary[0] == 0x00 && binary[1] == 0x61 && binary[2] == 0x73 && binary[3]
        == 0x6d
}

/// Why there is no module.
pub enum ModuleError {
    /// There is no engine with these settings.
    Engine(anyhow::Error),
    /// The binary was not compiled.
    Compile(anyhow::Error),
    /// The compiled module could not be written down.
    Serialize(anyhow::Error),
    /// The module imports what there is not.
    Link(anyhow::Error),
}

/// A module, and the bytes from which it can be had again without compiling.
pub struct CompiledModule {
    pub module: WasmModule,
    pub cache: Vec<u8>,
}

/// Whether a module was compiled from a binary by an engine, and the bytes for the
/// cache are what it is written down as.
pub open spec fn compiled_from(
    compiled: CompiledModule,
    engine: EngineModel,
    binary: Seq<u8>,
) -> bool {
    &&& compiled.module@.binary == binary
    &&& compiled.module@.engine == engine
    &&& compiled.cache@ == compiled.module@.image
}

/// What is set of the unwind information that compiled code has for the machine: on
/// Unix it has none, elsewhere nothing is set.
pub fn unwind_info(unix: bool) -> (enable: Option<bool>)
    ensures
        enable == (if unix {
            Some(false)
        } else {
            None
        }),
{
    if unix {
        Some(false)
    } else {
        None
    }
}

/// The settings of an engine for the modules of packs: the default ones, and on Unix
/// no unwind information.
pub fn engine_settings(unix: bool) -> (settings: EngineSettings)
    ensures
        settings@.unwind_info == (if unix {
            Some(false)
        } else {
            None
        }),
{
    let mut settings = default_settings();
    if let Some(enable) = unwind_info(unix) {
        set_native_unwind_info(&mut settings, enable);
    }
    settings
}

/// What becomes of the attempt to make an engine: the engine as it was made, or why
/// there is none.
pub fn made_engine(attempt: Result<WasmEngine, anyhow::Error>) -> (engine: Result<
    WasmEngine,
    ModuleError,
>)
    ensures
        engine == (match attempt {
            Ok(engine) => Ok(engine),
            Err(e) => Err(ModuleError::Engine(e)),
        }),
{
    match attempt {
        Ok(engine) => Ok(engine),
        Err(e) => Err(ModuleError::Engine(e)),
    }
}

/// An engine for the modules of packs, made with the settings that `engine_settings`
/// gives. `made_engine` tells what becomes of the attempt. Whether there is such an
/// engine depends on the machine.
pub fn new_engine(unix: bool) -> (engine: Result<WasmEngine, ModuleError>)
    ensures
        engine matches Ok(e) ==> e@.unwind_info == (if unix {
            Some(false)
        } else {
            None
        }),
        engine matches Err(error) ==> error is Engine,
{
    let settings = engine_settings(unix);
    made_engine(engine_with(&settings))
}

/// What becomes of the attempt to compile a module and to write it down: the module
/// with the bytes that it was written down as, or why there are none.
pub fn compiled_module(
    attempt: Result<(WasmModule, Result<Vec<u8>, anyhow::Error>), anyhow::Error>,
) -> (compiled: Result<CompiledModule, ModuleError>)
    ensures
        compiled == (match attempt {
            Ok((module, Ok(cache))) => Ok(CompiledModule { module, cache }),
            Ok((_, Err(e))) => Err(ModuleError::Serialize(e)),
            Err(e) => Err(ModuleError::Compile(e)),
        }),
{
    match attempt {
        Ok((module, written)) => match written {
            Ok(cache) => Ok(CompiledModule { module, cache }),
            Err(e) => Err(ModuleError::Serialize(e)),
        },
        Err(e) => Err(ModuleError::Compile(e)),
    }
}

/// Compiles a module, and writes it down for the cache. `compiled_module` tells what
/// becomes of the attempt. It succeeds exactly for the binaries that the engine
/// compiles. Which these are, and to what image, depends on the machine.
pub fn compile_module(engine: &WasmEngine, binary: &[u8]) -> (compiled: Result<
    CompiledModule,
    ModuleError,
>)
    ensures
        compiled is Ok <==> engine@.compiles.contains(binary@),
        compiled matches Ok(c) ==> compiled_from(c, engine@, binary@),
        compiled matches Ok(c) ==> {
            &&& c.module@.binary == binary@
            &&& c.module@.engine == engine@
            &&& c.cache@ == c.module@.image
        },
        compiled matches Err(error) ==> error is Compile,
        !begins_as_wasm(binary@) ==> compiled is Err && compiled->Err_0 is Compile,
        compiled matches Err(error) ==> error is Compile || error is Serialize,
{
    match module_from_binary(engine, binary) {
        Ok(module) => {
            let written = serialized(&module);
            compiled_module(Ok((module, written)))
        },
        Err(e) => compiled_module(Err(e)),
    }
}

/// What becomes of the attempt to give a module its imports: the module with them as
/// it was made, or why there is none.
pub fn linked_module(attempt: Result<LinkedModule, anyhow::Error>) -> (linked: Result<
    LinkedModule,
    ModuleError,
>)
    ensures
        linked == (match attempt {
            Ok(linked) => Ok(linked),
            Err(e) => Err(ModuleError::Link(e)),
        }),
{
    match attempt {
        Ok(linked) => Ok(linked),
        Err(e) => Err(ModuleError::Link(e)),
    }
}

/// Gives a module its imports: the functions of WASI. It succeeds exactly for a module
/// whose binary imports nothing else. `linked_module` tells what becomes of the attempt.
pub fn link_module(module: &WasmModule) -> (linked: Result<LinkedModule, ModuleError>)
    ensures
        linked is Ok <==> links_with_wasi(module@.binary),
        linked matches Ok(l) ==> l@ == module@,
        linked matches Err(error) ==> error is Link,
{
    let mut linker = linker_of(module);
    match add_wasi(&mut linker) {
        Ok(_) => linked_module(with_imports(&linker)),
        Err(e) => linked_module(Err(e)),
    }
}

/// The text for a module that has dependencies.
pub fn wasm_dependencies_message() -> (text: String)
    ensures
        text@ == "Wasm file cannot include dependencies"@,
{
    "Wasm file cannot include dependencies".to_owned()
}

/// What `str::to_uppercase` makes of a text.
pub uninterp spec fn uppercase(text: Seq<char>) -> Seq<char>;

/// What `str::to_lowercase` makes of a text.
pub uninterp spec fn lowercase(text: Seq<char>) -> Seq<char>;

/// Calls `str::to_uppercase`. Claimed of the call: its result depends on the text alone.
#[verifier::external_body]
fn upper(text: &str) -> (upper: String)
    ensures
        upper@ == uppercase(text@),
{
    text.to_uppercase()
}

/// Calls `str::to_lowercase`. Claimed of the call: its result depends on the text alone.
#[verifier::external_body]
fn lower(text: &str) -> (lower: String)
    ensures
        lower@ == lowercase(text@),
{
    text.to_lowercase()
}

/// A directory that a module may use: its place, and the name the module has for it.
#[derive(Debug)]
pub struct Preopened {
    pub host: String,
    pub guest: String,
}

/// What a drive is opened as, given its name in capitals and in small letters.
pub fn drive_dir(capital: &str, small: &str) -> (dir: Preopened)
    ensures
        dir.host@ == capital@ + ":\\"@,
        dir.guest@ == "/"@ + small@,
{
    let mut host = capital.to_owned();
    host.append(":\\");
    let mut guest = "/".to_owned();
    guest.append(small);
    Preopened { host, guest }
}

/// The directories that a module may use on Windows: all drives.
pub fn pre_open_all(drives: &Vec<String>) -> (dirs: Vec<Preopened>)
    ensures
        dirs@.len() == drives@.len(),
        forall|i: int|
            0 <= i < dirs@.len() ==> {
                &&& (#[trigger] dirs@[i]).host@ == uppercase(drives@[i]@) + ":\\"@
                &&& dirs@[i].guest@ == "/"@ + lowercase(drives@[i]@)
            },
{
    let mut dirs: Vec<Preopened> = Vec::new();
    let mut i: usize = 0;
    while i < drives.len()
        invariant
            i <= drives@.len(),
            dirs@.len() == i,
            forall|j: int|
                0 <= j < i ==> {
                    &&& (#[trigger] dirs@[j]).host@ == uppercase(drives@[j]@) + ":\\"@
                    &&& dirs@[j].guest@ == "/"@ + lowercase(drives@[j]@)
                },
        decreases drives@.len() - i,
    {
        let capital = upper(drives[i].as_str());
        let small = lower(drives[i].as_str());
        dirs.push(drive_dir(capital.as_str(), small.as_str()));
        i += 1;
    }
    dirs
}

/// The directory that a module may use on Unix: all of the file system.
pub fn pre_open_root() -> (dir: Preopened)
    ensures
        dir.host@ == "/"@,
        dir.guest@ == "/"@,
{
    Preopened { host: "/".to_owned(), guest: "/".to_owned() }
}

} // verus!
