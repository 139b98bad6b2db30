//! The loading of packs whose manifests are held in memory.
use dll_pack::failure::Failure;
use dll_pack::load::{is_wasm, load, load_with_platform, load_with_wasm, Load, LoadError, Plan};
use dll_pack::manifest::{Dependency, DllInfo, DllPackFile, ManifestInfo, PlatformManifest};
use dll_pack::pack_url::Url;
use dll_pack::resolve::Request;
use dll_pack::sleep_lib::adding;
use dll_pack::walk::ManifestReply;
use dll_pack::wasm::wasm_dependencies_message;

/// For each pack, its platforms, and for each of these the packs that it depends on.
type Packs = &'static [(&'static str, &'static [(&'static str, &'static [&'static str])])];

fn url(name: &str) -> Url {
    Url::parse(&format!("https://packs.example/{}", name)).unwrap()
}

fn name_of(url: &Url) -> String {
    url.serialization.rsplit('/').next().unwrap().to_string()
}

fn read(packs: Packs, info: &ManifestInfo) -> ManifestReply<String> {
    let Some((name, entries)) = packs.iter().find(|p| p.0 == name_of(&info.url)) else {
        return ManifestReply::Missing;
    };
    let mut platforms = Vec::new();
    for (platform, needs) in entries.iter() {
        let dependencies = needs.iter().map(|n| Dependency::DllPack { url: url(n) }).collect();
        let library = url(&format!("{}-{}", name, platform));
        let manifest = PlatformManifest { url: library, name: None, dependencies };
        platforms.push((platform.to_string(), manifest));
    }
    ManifestReply::Found(DllPackFile { platforms })
}

fn run(packs: Packs, mut state: Load) -> Result<Plan, LoadError<String>> {
    loop {
        state = match state.request() {
            Request::LocateManifest(url) => {
                let path = name_of(&url).into_bytes();
                state.manifest_located(Ok(ManifestInfo { url, path }))?
            }
            Request::ReadManifest(info) => state.manifest_read(read(packs, &info))?,
            Request::LocateLibrary(url, _) => {
                let name = name_of(&url);
                let path = name.clone().into_bytes();
                state.library_located(Ok(DllInfo { url, name, path }))?
            }
            Request::Nothing => return Ok(state.finish()),
        };
    }
}

const NATIVE: Packs = &[("a", &[("x86", &["b"])]), ("b", &[("x86", &[]), ("wasm32-wasip1", &[])])];

const MODULE: Packs = &[("a", &[("wasm32-wasip1", &[])])];

const MODULE_WITH_DEPENDENCY: Packs =
    &[("a", &[("wasm32-wasip1", &["b"])]), ("b", &[("wasm32-wasip1", &[])])];

#[test]
fn wasm_platforms_have_it_in_their_name() {
    assert!(is_wasm("wasm32-wasip1"));
    assert!(is_wasm("some-wasm"));
    assert!(!is_wasm("x86_64-unknown-linux-gnu"));
    assert!(!is_wasm("WASM"));
    assert!(!is_wasm("was"));
    assert!(!is_wasm(""));
}

#[test]
fn native_pack_is_loaded_natively() {
    let Ok(Plan::Native(libraries)) = run(NATIVE, load(&url("a"), "x86")) else { panic!() };
    assert_eq!(libraries.main.name, "a-x86");
    assert_eq!(libraries.dependencies.len(), 1);
    assert_eq!(libraries.dependencies[0].name, "b-x86");
}

#[test]
fn pack_falls_back_to_its_module() {
    let Ok(Plan::Module(dll)) = run(MODULE, load(&url("a"), "x86")) else { panic!() };
    assert_eq!(dll.name, "a-wasm32-wasip1");
}

#[test]
fn only_load_falls_back() {
    let result = run(MODULE, load_with_platform(&url("a"), "x86"));
    let Err(LoadError::Resolve(Failure::Unsupported(error))) = result else { panic!() };
    assert_eq!(error.message(), "Platform x86 is not supported");
    let Ok(Plan::Module(_)) = run(MODULE, load_with_platform(&url("a"), "wasm32-wasip1")) else {
        panic!()
    };
    let Ok(Plan::Module(_)) = run(MODULE, load_with_wasm(&url("a"), "wasm32-wasip1")) else {
        panic!()
    };
}

#[test]
fn fallback_is_made_once() {
    let result = run(NATIVE, load(&url("a"), "arm"));
    let Err(LoadError::Resolve(Failure::Unsupported(error))) = result else { panic!() };
    assert_eq!(error.message(), "Platform wasm32-wasip1 is not supported");
}

#[test]
fn other_failures_do_not_fall_back() {
    let result = run(&[], load(&url("a"), "x86"));
    assert!(matches!(result, Err(LoadError::Resolve(Failure::ManifestNotFound(_)))));
    let Err(LoadError::Resolve(Failure::Outside(why))) =
        load(&url("a"), "x86").manifest_located(Err("no home"))
    else {
        panic!()
    };
    assert_eq!(why, "no home");
}

#[test]
fn module_has_no_dependencies() {
    let result = run(MODULE_WITH_DEPENDENCY, load(&url("a"), "x86"));
    assert!(matches!(result, Err(LoadError::WasmDependencies)));
    assert_eq!(wasm_dependencies_message(), "Wasm file cannot include dependencies");
}

#[test]
fn any_platform_can_be_loaded_as_a_module() {
    let packs: Packs = &[("a", &[("x86", &[])])];
    let Ok(Plan::Module(dll)) = run(packs, load_with_wasm(&url("a"), "x86")) else { panic!() };
    assert_eq!(dll.name, "a-x86");
}

#[test]
fn sample_adds() {
    assert_eq!(adding(2, 3), 5);
    assert_eq!(adding(-7, 3), -4);
    assert_eq!(adding(i32::MAX, -1), i32::MAX - 1);
}
