//! What a loading comes to, in surroundings that answer the same request always alike.
use vstd::prelude::*;

use crate::failure::FailureModel;
use crate::load::{
    plan_of, wasm_platform, LoadErrorModel, LoadModel, LoadStageModel, PlanModel,
};
use crate::resolve::ResolveModel;
use crate::resolve_laws::{
    lemma_resolve_failed, lemma_resolve_stays, resolution_of, resolve_comes_to_resolution,
    resolve_run, resolve_step,
};
use crate::walk_laws::{Outcome, World};

verus! {

/// What a loading comes to: what is to be loaded, or an error.
#[verifier::reject_recursive_types(E)]
pub enum LoadOutcome<E> {
    Done(PlanModel),
    Failed(LoadErrorModel<E>),
    /// The chain of dependencies is longer than it was followed.
    Endless,
}

/// What the loading of a pack for one platform comes to.
pub open spec fn platform_load_of<E>(
    w: World<E>,
    url: Seq<char>,
    platform: Seq<char>,
    wasm: bool,
    depth: nat,
) -> LoadOutcome<E> {
    match resolution_of(w, url, platform, depth) {
        Outcome::Endless => LoadOutcome::Endless,
        Outcome::Failed(failure) => LoadOutcome::Failed(LoadErrorModel::Resolve(failure)),
        Outcome::Done(libraries) => match plan_of::<E>(libraries, wasm) {
            Err(error) => LoadOutcome::Failed(error),
            Ok(plan) => LoadOutcome::Done(plan),
        },
    }
}

/// What the loading of a pack comes to: where it has nothing for this platform,
/// what its loading as a module comes to.
pub open spec fn load_of<E>(
    w: World<E>,
    url: Seq<char>,
    this_platform: Seq<char>,
    depth: nat,
) -> LoadOutcome<E> {
    match platform_load_of(w, url, this_platform, wasm_platform(this_platform), depth) {
        LoadOutcome::Failed(LoadErrorModel::Resolve(FailureModel::Unsupported(_))) =>
            platform_load_of(w, url, "wasm32-wasip1"@, true, depth),
        outcome => outcome,
    }
}

/// One step of a loading: what it needs is answered.
pub open spec fn load_step<E>(w: World<E>, m: LoadModel) -> Result<LoadModel, LoadErrorModel<E>> {
    match m.stage {
        LoadStageModel::Resolving(resolve) => m.after(resolve_step(w, resolve)),
        LoadStageModel::Over(_) => Ok(m),
    }
}

/// `steps` steps of a loading, from a state or an error.
pub open spec fn load_run<E>(
    w: World<E>,
    m: Result<LoadModel, LoadErrorModel<E>>,
    steps: nat,
) -> Result<LoadModel, LoadErrorModel<E>>
    decreases steps,
{
    if steps == 0 {
        m
    } else {
        match m {
            Err(error) => Err(error),
            Ok(state) => load_run(w, load_step(w, state), (steps - 1) as nat),
        }
    }
}

/// Steps after steps are steps.
proof fn lemma_load_joined<E>(
    w: World<E>,
    m: Result<LoadModel, LoadErrorModel<E>>,
    a: nat,
    b: nat,
)
    ensures
        load_run(w, m, a + b) == load_run(w, load_run(w, m, a), b),
    decreases a,
{
    if a > 0 {
        match m {
            Err(_) => {},
            Ok(state) => {
                lemma_load_joined(w, load_step(w, state), (a - 1) as nat, b);
                assert((a + b - 1) as nat == (a - 1) as nat + b);
            },
        }
    }
}

/// A loading follows its resolution to the end.
proof fn lemma_load_resolves<E>(w: World<E>, m: LoadModel, resolve: ResolveModel, steps: nat) -> (taken:
    nat)
    requires
        m.stage == LoadStageModel::Resolving(resolve),
        !(resolve.stage is Over),
        resolve_run(w, Ok::<ResolveModel, FailureModel<E>>(resolve), steps) matches Ok(end)
            ==> end.stage is Over,
    ensures
        load_run(w, Ok::<LoadModel, LoadErrorModel<E>>(m), taken) == m.after(
            resolve_run(w, Ok::<ResolveModel, FailureModel<E>>(resolve), steps),
        ),
    decreases steps,
{
    reveal_with_fuel(load_run, 2);
    let left = (steps - 1) as nat;
    match resolve_step(w, resolve) {
        Err(failure) => {
            lemma_resolve_failed(w, failure, left);
            1
        },
        Ok(next) => {
            if next.stage is Over {
                lemma_resolve_stays(w, next, left);
                1
            } else {
                let further = LoadModel { stage: LoadStageModel::Resolving(next), ..m };
                let taken = lemma_load_resolves(w, further, next, left);
                taken + 1
            }
        },
    }
}

/// What a loading makes of its resolution. Native libraries are loaded all, as they were
/// resolved. A module is the main library, and an error if the pack has any dependency.
/// Where the pack has nothing for the platform, and a second attempt is allowed, the
/// loading starts anew for `wasm32-wasip1`, as a module and without another attempt.
/// Every other failure of the resolution stands.
pub proof fn load_follows_the_resolution<E>(
    w: World<E>,
    m: LoadModel,
    resolve: ResolveModel,
    steps: nat,
) -> (taken: nat)
    requires
        m.stage == LoadStageModel::Resolving(resolve),
        !(resolve.stage is Over),
        resolve_run(w, Ok::<ResolveModel, FailureModel<E>>(resolve), steps) matches Ok(end)
            ==> end.stage is Over,
    ensures
        ({
            let end = load_run(w, Ok::<LoadModel, LoadErrorModel<E>>(m), taken);
            match resolve_run(w, Ok::<ResolveModel, FailureModel<E>>(resolve), steps) {
                Ok(resolved) => {
                    let libraries = resolved.stage->Over_0;
                    if m.wasm && libraries.dependencies.len() > 0 {
                        end == Err::<LoadModel, LoadErrorModel<E>>(LoadErrorModel::WasmDependencies)
                    } else {
                        end == Ok::<LoadModel, LoadErrorModel<E>>(
                            LoadModel {
                                stage: LoadStageModel::Over(
                                    if m.wasm {
                                        PlanModel::Module(libraries.main)
                                    } else {
                                        PlanModel::Native(libraries)
                                    },
                                ),
                                ..m
                            },
                        )
                    }
                },
                Err(failure) => if m.fallback && failure is Unsupported {
                    end == Ok::<LoadModel, LoadErrorModel<E>>(
                        LoadModel {
                            url: m.url,
                            wasm: true,
                            fallback: false,
                            stage: LoadStageModel::Resolving(
                                ResolveModel::start(m.url, "wasm32-wasip1"@),
                            ),
                        },
                    )
                } else {
                    end == Err::<LoadModel, LoadErrorModel<E>>(LoadErrorModel::Resolve(failure))
                },
            }
        }),
{
    lemma_load_resolves(w, m, resolve, steps)
}

/// A loading for one platform comes to its error, to what is to be loaded, or to a
/// second attempt where that is allowed.
proof fn lemma_platform_load<E>(
    w: World<E>,
    url: Seq<char>,
    platform: Seq<char>,
    wasm: bool,
    fallback: bool,
    depth: nat,
) -> (steps: nat)
    requires
        !(platform_load_of(w, url, platform, wasm, depth) is Endless),
    ensures
        ({
            let end = load_run(
                w,
                Ok::<LoadModel, LoadErrorModel<E>>(LoadModel::start(url, platform, wasm, fallback)),
                steps,
            );
            match platform_load_of(w, url, platform, wasm, depth) {
                LoadOutcome::Done(plan) => end matches Ok(m) && m.stage == LoadStageModel::Over(plan),
                LoadOutcome::Failed(error) => if fallback && error is Resolve
                    && error->Resolve_0 is Unsupported {
                    end == Ok::<LoadModel, LoadErrorModel<E>>(
                        LoadModel::start(url, "wasm32-wasip1"@, true, false),
                    )
                } else {
                    end == Err::<LoadModel, LoadErrorModel<E>>(error)
                },
                LoadOutcome::Endless => true,
            }
        }),
{
    let resolved = resolve_comes_to_resolution(w, url, platform, depth);
    lemma_load_resolves(
        w,
        LoadModel::start(url, platform, wasm, fallback),
        ResolveModel::start(url, platform),
        resolved,
    )
}

/// A loading for one platform comes to what `platform_load_of` says: to native
/// libraries, to a module without dependencies, or to an error.
pub proof fn load_with_platform_comes_to_plan<E>(
    w: World<E>,
    url: Seq<char>,
    platform: Seq<char>,
    wasm: bool,
    depth: nat,
) -> (steps: nat)
    requires
        !(platform_load_of(w, url, platform, wasm, depth) is Endless),
    ensures
        ({
            let end = load_run(
                w,
                Ok::<LoadModel, LoadErrorModel<E>>(LoadModel::start(url, platform, wasm, false)),
                steps,
            );
            match platform_load_of(w, url, platform, wasm, depth) {
                LoadOutcome::Done(plan) => end matches Ok(m) && m.stage == LoadStageModel::Over(plan),
                LoadOutcome::Failed(error) => end == Err::<LoadModel, LoadErrorModel<E>>(error),
                LoadOutcome::Endless => true,
            }
        }),
{
    lemma_platform_load(w, url, platform, wasm, false, depth)
}

/// A loading comes to what `load_of` says: it falls back to the module exactly
/// where the pack has nothing for this platform, and any other error stands.
pub proof fn load_falls_back_to_wasm<E>(
    w: World<E>,
    url: Seq<char>,
    this_platform: Seq<char>,
    depth: nat,
) -> (steps: nat)
    requires
        !(load_of(w, url, this_platform, depth) is Endless),
    ensures
        ({
            let start = LoadModel::start(url, this_platform, wasm_platform(this_platform), true);
            let end = load_run(w, Ok::<LoadModel, LoadErrorModel<E>>(start), steps);
            match load_of(w, url, this_platform, depth) {
                LoadOutcome::Done(plan) => end matches Ok(m) && m.stage == LoadStageModel::Over(plan),
                LoadOutcome::Failed(error) => end == Err::<LoadModel, LoadErrorModel<E>>(error),
                LoadOutcome::Endless => true,
            }
        }),
{
    let wasm = wasm_platform(this_platform);
    let start = LoadModel::start(url, this_platform, wasm, true);
    let first = lemma_platform_load(w, url, this_platform, wasm, true, depth);
    match platform_load_of(w, url, this_platform, wasm, depth) {
        LoadOutcome::Failed(LoadErrorModel::Resolve(FailureModel::Unsupported(_))) => {
            let second = lemma_platform_load(w, url, "wasm32-wasip1"@, true, false, depth);
            lemma_load_joined(w, Ok::<LoadModel, LoadErrorModel<E>>(start), first, second);
            first + second
        },
        _ => first,
    }
}

/// What is loaded for a Wasm platform is a module: no native library is.
pub proof fn wasm_is_not_loaded_natively<E>(
    w: World<E>,
    url: Seq<char>,
    platform: Seq<char>,
    depth: nat,
)
    requires
        wasm_platform(platform),
    ensures
        load_of(w, url, platform, depth) matches LoadOutcome::Done(plan) ==> plan is Module,
{
}

} // verus!
