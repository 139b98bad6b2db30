//! What the loading of a module comes to, in surroundings that answer the same
//! request always alike.
use vstd::prelude::*;

use crate::load::{LoadErrorModel, LoadModel, LoadStageModel, PlanModel};
use crate::load_laws::{
    load_run, load_with_platform_comes_to_plan, platform_load_of, LoadOutcome,
};
use crate::manifest::DllModel;
use crate::module_load::{ModuleLoadError, ModuleLoadModel, ModuleRequestModel};
use crate::runtime::{EngineModel, WasmModule};
use crate::walk_laws::World;
use crate::wasm::{compiled_from, CompiledModule, ModuleError};

verus! {

/// Surroundings of one module that answer the same request always alike.
#[verifier::reject_recursive_types(E)]
pub struct ModuleWorld<E> {
    /// What the cache has as the compiled form of the module, if anything.
    pub cached: Option<Seq<u8>>,
    /// The module that a compiled form is.
    pub read_compiled: spec_fn(Seq<u8>) -> Result<WasmModule, E>,
    /// The binary of the module.
    pub binary: Result<Seq<u8>, E>,
    /// What a binary is compiled to.
    pub compile: spec_fn(Seq<u8>) -> Result<CompiledModule, ModuleError>,
    /// What writing into the cache comes to.
    pub write: Result<(), E>,
}

/// One step of a loading: what it needs is answered.
pub open spec fn module_step<E>(w: ModuleWorld<E>, m: ModuleLoadModel) -> Result<
    ModuleLoadModel,
    ModuleLoadError<E>,
> {
    match m.request() {
        ModuleRequestModel::LookInCache => Ok(m.after_look(w.cached is Some)),
        ModuleRequestModel::ReadCache => m.after_cache((w.read_compiled)(w.cached->0)),
        ModuleRequestModel::ReadBinary => match w.binary {
            Err(e) => Err(ModuleLoadError::Outside(e)),
            Ok(binary) => m.after_compiling((w.compile)(binary)),
        },
        ModuleRequestModel::WriteCache(_) => m.after_writing(w.write),
        ModuleRequestModel::Nothing => Ok(m),
    }
}

/// `steps` steps of a loading, from a state or an error.
pub open spec fn module_run<E>(
    w: ModuleWorld<E>,
    m: Result<ModuleLoadModel, ModuleLoadError<E>>,
    steps: nat,
) -> Result<ModuleLoadModel, ModuleLoadError<E>>
    decreases steps,
{
    if steps == 0 {
        m
    } else {
        match m {
            Err(error) => Err(error),
            Ok(state) => module_run(w, module_step(w, state), (steps - 1) as nat),
        }
    }
}

/// What these steps ask for, in that order.
pub open spec fn module_log<E>(
    w: ModuleWorld<E>,
    m: Result<ModuleLoadModel, ModuleLoadError<E>>,
    steps: nat,
) -> Seq<ModuleRequestModel>
    decreases steps,
{
    if steps == 0 {
        Seq::empty()
    } else {
        match m {
            Err(error) => Seq::empty(),
            Ok(state) => if state.request() is Nothing {
                Seq::empty()
            } else {
                seq![state.request()] + module_log(w, module_step(w, state), (steps - 1) as nat)
            },
        }
    }
}

/// What the cache has after these steps.
pub open spec fn cached_after<E>(
    w: ModuleWorld<E>,
    m: Result<ModuleLoadModel, ModuleLoadError<E>>,
    steps: nat,
) -> Option<Seq<u8>>
    decreases steps,
{
    if steps == 0 {
        w.cached
    } else {
        match m {
            Err(error) => w.cached,
            Ok(state) => match state.request() {
                ModuleRequestModel::WriteCache(bytes) if w.write is Ok => Some(bytes),
                _ => cached_after(w, module_step(w, state), (steps - 1) as nat),
            },
        }
    }
}

/// The loading of a module that has not begun.
pub open spec fn module_start<E>() -> Result<ModuleLoadModel, ModuleLoadError<E>> {
    Ok(ModuleLoadModel::Look)
}

/// The module that a loading comes to, or its error.
pub open spec fn module_of<E>(w: ModuleWorld<E>) -> Result<WasmModule, ModuleLoadError<E>> {
    match w.cached {
        Some(bytes) => match (w.read_compiled)(bytes) {
            Ok(module) => Ok(module),
            Err(e) => Err(ModuleLoadError::Outside(e)),
        },
        None => match w.binary {
            Err(e) => Err(ModuleLoadError::Outside(e)),
            Ok(binary) => match (w.compile)(binary) {
                Err(e) => Err(ModuleLoadError::Module(e)),
                Ok(compiled) => match w.write {
                    Err(e) => Err(ModuleLoadError::Outside(e)),
                    Ok(_) => Ok(compiled.module),
                },
            },
        },
    }
}

/// A loading of a module comes to what `module_of` says, in at most four steps. A
/// module that the cache has is taken from there: its binary is not read, nothing is
/// compiled and nothing is written. Another one is compiled from its binary, and what
/// it was written down as goes into the cache, but only if it was compiled.
pub proof fn module_load_comes_to_module<E>(w: ModuleWorld<E>, steps: nat)
    requires
        steps >= 4,
    ensures
        ({
            let end = module_run(w, module_start(), steps);
            let log = module_log(w, module_start(), steps);
            let look = seq![ModuleRequestModel::LookInCache];
            &&& match module_of(w) {
                Ok(module) => end == Ok::<ModuleLoadModel, ModuleLoadError<E>>(
                    ModuleLoadModel::Over(module),
                ),
                Err(error) => end == Err::<ModuleLoadModel, ModuleLoadError<E>>(error),
            }
            &&& w.cached is Some ==> log == look.push(ModuleRequestModel::ReadCache)
            &&& w.cached is Some ==> cached_after(w, module_start(), steps) == w.cached
            &&& w.cached is None ==> match w.binary {
                Ok(binary) => match (w.compile)(binary) {
                    Ok(compiled) => {
                        &&& log == look.push(ModuleRequestModel::ReadBinary).push(
                            ModuleRequestModel::WriteCache(compiled.cache@),
                        )
                        &&& cached_after(w, module_start(), steps) == (if w.write is Ok {
                            Some(compiled.cache@)
                        } else {
                            None
                        })
                    },
                    Err(_) => {
                        &&& log == look.push(ModuleRequestModel::ReadBinary)
                        &&& cached_after(w, module_start(), steps) is None
                    },
                },
                Err(_) => {
                    &&& log == look.push(ModuleRequestModel::ReadBinary)
                    &&& cached_after(w, module_start(), steps) is None
                },
            }
        }),
{
    reveal_with_fuel(module_run, 5);
    reveal_with_fuel(module_log, 5);
    reveal_with_fuel(cached_after, 5);
    match module_of(w) {
        Ok(module) => {
            lemma_loaded_stays(w, module, (steps - 2) as nat);
            lemma_loaded_stays(w, module, (steps - 3) as nat);
        },
        Err(_) => {},
    }
}

/// A loaded module stays.
proof fn lemma_loaded_stays<E>(w: ModuleWorld<E>, module: WasmModule, steps: nat)
    ensures
        ({
            let over = Ok::<ModuleLoadModel, ModuleLoadError<E>>(ModuleLoadModel::Over(module));
            &&& module_run(w, over, steps) == over
            &&& module_log(w, over, steps) == Seq::<ModuleRequestModel>::empty()
            &&& cached_after(w, over, steps) == w.cached
        }),
    decreases steps,
{
    if steps > 0 {
        lemma_loaded_stays(w, module, (steps - 1) as nat);
    }
}

/// Whether all that is compiled in these surroundings is what compiling by this engine
/// gives: the module of the binary, and the image of that module.
pub open spec fn compiles_by<E>(w: ModuleWorld<E>, engine: EngineModel) -> bool {
    forall|binary: Seq<u8>| #[trigger]
        (w.compile)(binary) matches Ok(compiled) ==> compiled_from(compiled, engine, binary)
}

/// Whether in these surroundings exactly the binaries are compiled that this engine
/// compiles.
pub open spec fn compiles_what_it_can<E>(w: ModuleWorld<E>, engine: EngineModel) -> bool {
    forall|binary: Seq<u8>| (#[trigger] (w.compile)(binary)) is Ok <==> engine.compiles.contains(binary)
}

/// A first loading of a module comes to the module that is compiled from its binary,
/// and leaves the image of that module in the cache.
pub proof fn first_load_leaves_the_image<E>(
    w: ModuleWorld<E>,
    engine: EngineModel,
    module: WasmModule,
    steps: nat,
)
    requires
        steps >= 4,
        compiles_by(w, engine),
        w.cached is None,
        module_of(w) == Ok::<WasmModule, ModuleLoadError<E>>(module),
    ensures
        w.binary == Ok::<Seq<u8>, E>(module@.binary),
        module@.engine == engine,
        cached_after(w, module_start(), steps) == Some(module@.image),
{
    module_load_comes_to_module(w, steps);
    assert(compiled_from((w.compile)(w.binary->Ok_0)->Ok_0, engine, w.binary->Ok_0));
}

/// A first loading of a module succeeds exactly where its binary can be read, the engine
/// compiles it, and what it is written down as can be written into the cache.
pub proof fn first_load_succeeds_where_the_binary_compiles<E>(
    w: ModuleWorld<E>,
    engine: EngineModel,
    steps: nat,
)
    requires
        steps >= 4,
        compiles_by(w, engine),
        compiles_what_it_can(w, engine),
        w.cached is None,
    ensures
        module_run(w, module_start(), steps) is Ok <==> (w.binary matches Ok(binary)
            && engine.compiles.contains(binary) && w.write is Ok),
        module_run(w, module_start(), steps) matches Ok(m) ==> (m matches ModuleLoadModel::Over(
            module,
        ) && w.binary == Ok::<Seq<u8>, E>(module@.binary) && module@.engine == engine),
{
    module_load_comes_to_module(w, steps);
    match w.binary {
        Ok(binary) => {
            assert((w.compile)(binary) is Ok <==> engine.compiles.contains(binary));
            assert((w.compile)(binary) matches Ok(compiled) ==> compiled_from(
                compiled,
                engine,
                binary,
            ));
        },
        Err(_) => {},
    }
}

/// Once a module was loaded, it is loaded again from the cache, where that is left
/// alone: whatever has become of the binary, which is not read, and of what compiles
/// it, which is not asked. The second loading comes to what the image of the first
/// module is read back as, and so, where an image is read back as the module that it
/// is of, to the same module. Where the first loading took the module from the cache
/// too, the second comes to what it came to.
pub proof fn second_load_takes_the_cache<E>(
    first: ModuleWorld<E>,
    second: ModuleWorld<E>,
    engine: EngineModel,
    module: WasmModule,
    steps: nat,
)
    requires
        steps >= 4,
        compiles_by(first, engine),
        module_of(first) == Ok::<WasmModule, ModuleLoadError<E>>(module),
        second.cached == cached_after(first, module_start(), steps),
        second.read_compiled == first.read_compiled,
    ensures
        second.cached is Some,
        first.cached is None ==> second.cached == Some(module@.image),
        first.cached is Some ==> second.cached == first.cached,
        (first.read_compiled)(second.cached->0) matches Ok(again) ==> {
            &&& module_run(second, module_start(), steps) == Ok::<
                ModuleLoadModel,
                ModuleLoadError<E>,
            >(ModuleLoadModel::Over(again))
            &&& first.cached is Some ==> again == module
        },
        first.cached is None ==> ((first.read_compiled)(module@.image) matches Ok(again) ==> again@
            == module@ ==> (module_of(second) matches Ok(same) && same@ == module@)),
        module_log(second, module_start(), steps) == seq![
            ModuleRequestModel::LookInCache,
            ModuleRequestModel::ReadCache,
        ],
        cached_after(second, module_start(), steps) == second.cached,
{
    module_load_comes_to_module(first, steps);
    module_load_comes_to_module(second, steps);
    if first.cached is None {
        first_load_leaves_the_image(first, engine, module, steps);
    }
    assert(seq![ModuleRequestModel::LookInCache].push(ModuleRequestModel::ReadCache) =~= seq![
        ModuleRequestModel::LookInCache,
        ModuleRequestModel::ReadCache,
    ]);
}

/// A pack that was loaded as a module is loaded again as the same module, from the
/// cache: where its manifests are left alone the second loading comes to the same
/// library file, and where the cache is left alone, and an image is read back as the
/// module that it is of, it comes to the same module without reading that file.
pub proof fn second_load_with_wasm_takes_the_cache<E>(
    w: World<E>,
    url: Seq<char>,
    platform: Seq<char>,
    depth: nat,
    dll: DllModel,
    first: ModuleWorld<E>,
    second: ModuleWorld<E>,
    engine: EngineModel,
    module: WasmModule,
) -> (steps: nat)
    requires
        platform_load_of(w, url, platform, true, depth) == LoadOutcome::<E>::Done(
            PlanModel::Module(dll),
        ),
        compiles_by(first, engine),
        module_of(first) == Ok::<WasmModule, ModuleLoadError<E>>(module),
        second.cached == cached_after(first, module_start(), 4),
        second.read_compiled == first.read_compiled,
        first.cached is None ==> ((first.read_compiled)(module@.image) matches Ok(again) && again@
            == module@),
    ensures
        load_run(
            w,
            Ok::<LoadModel, LoadErrorModel<E>>(LoadModel::start(url, platform, true, false)),
            steps,
        ) matches Ok(end) && end.stage == LoadStageModel::Over(PlanModel::Module(dll)),
        module_run(second, module_start(), 4) matches Ok(ModuleLoadModel::Over(same)) && same@
            == module@,
        module_log(second, module_start(), 4) == seq![
            ModuleRequestModel::LookInCache,
            ModuleRequestModel::ReadCache,
        ],
{
    second_load_takes_the_cache(first, second, engine, module, 4);
    load_with_platform_comes_to_plan(w, url, platform, true, depth)
}

} // verus!
