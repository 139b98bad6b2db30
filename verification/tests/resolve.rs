//! Resolutions against manifests that are held in memory.
use std::path::PathBuf;
use std::str::FromStr;

use dll_pack::failure::{circular_message, manifest_not_found_message, Failure, ResolveError};
use dll_pack::manifest::{Dependency, DllInfo, DllPackFile, ManifestInfo, PlatformManifest};
use dll_pack::pack_url::Url;
use dll_pack::resolve::{resolve, Request, Resolution, Resolve};
use dll_pack::walk::ManifestReply;

const WORK_DIR: &str = "/home/nahco314/RustroverProjects/dll-pack/work";

/// The packs that a pack depends on for a platform.
type Entry = (&'static str, &'static [&'static str]);

/// A pack, named by a letter, and its entries.
type Pack = (&'static str, &'static [Entry]);

fn manifest_url(name: &str) -> String {
    format!("http://0.0.0.0:8000/{}.dllpack", name)
}

fn url(text: &str) -> Url {
    Url::parse(text).unwrap()
}

fn name_of(url: &Url) -> String {
    let file = url.serialization.rsplit('/').next().unwrap();
    file.split('.').next().unwrap().to_string()
}

fn under_work_dir(rest: &str) -> Vec<u8> {
    let work_dir = PathBuf::from_str(WORK_DIR).unwrap();
    work_dir.join(rest).to_str().unwrap().as_bytes().to_vec()
}

fn located(url: &Url) -> ManifestInfo {
    ManifestInfo { url: url.copy(), path: under_work_dir(&format!("{}.dllpack", name_of(url))) }
}

fn library_at(url: &Url, name: &Option<String>) -> DllInfo {
    let file = match name {
        Some(name) => name.clone(),
        None => name_of(url),
    };
    DllInfo { url: url.copy(), name: file.clone(), path: under_work_dir(&file) }
}

fn pack_file(pack: &Pack) -> DllPackFile {
    let mut platforms = Vec::new();
    for (platform, needs) in pack.1 {
        let mut dependencies = Vec::new();
        for need in needs.iter() {
            dependencies.push(Dependency::DllPack { url: url(&manifest_url(need)) });
        }
        let manifest = PlatformManifest {
            url: url(&format!("http://0.0.0.0:8000/{}.so", pack.0)),
            name: Some(format!("lib{}.so", pack.0)),
            dependencies,
        };
        platforms.push((platform.to_string(), manifest));
    }
    DllPackFile { platforms }
}

fn read(packs: &[Pack], info: &ManifestInfo) -> ManifestReply<String> {
    for pack in packs {
        if pack.0 == name_of(&info.url) {
            return ManifestReply::Found(pack_file(pack));
        }
    }
    ManifestReply::Missing
}

/// Resolves the pack `a`, and counts the manifests that were read.
fn run(packs: &[Pack], platform: &str) -> (Result<Resolution, Failure<String>>, usize) {
    let mut reads = 0;
    let mut state: Resolve = resolve(&url(&manifest_url("a")), platform);
    loop {
        let next = match state.request() {
            Request::LocateManifest(url) => state.manifest_located(Ok(located(&url))),
            Request::ReadManifest(info) => {
                reads += 1;
                state.manifest_read(read(packs, &info))
            }
            Request::LocateLibrary(url, name) => state.library_located(Ok(library_at(&url, &name))),
            Request::Nothing => return (Ok(state.finish()), reads),
        };
        state = match next {
            Ok(state) => state,
            Err(failure) => return (Err(failure), reads),
        };
    }
}

fn names(resolution: &Resolution) -> Vec<String> {
    resolution.dependencies.iter().map(|d| d.name.clone()).collect()
}

fn order(packs: &[Pack]) -> Vec<String> {
    names(&run(packs, "x").0.unwrap())
}

#[test]
fn test_resolve() {
    let work_dir = PathBuf::from_str("/home/nahco314/RustroverProjects/dll-pack/work").unwrap();
    let base_url = Url::parse("http://0.0.0.0:8000/a.dllpack").unwrap();
    let platform = "wasm32-wasip1";

    let packs: &[Pack] = &[("a", &[("wasm32-wasip1", &[])])];
    let mut state = resolve(&base_url, platform);
    let result = loop {
        let next = match state.request() {
            Request::LocateManifest(url) => state.manifest_located(Ok(located(&url))),
            Request::ReadManifest(info) => state.manifest_read(read(packs, &info)),
            Request::LocateLibrary(url, name) => {
                state.library_located(Ok(library_at(&url, &name)))
            }
            Request::Nothing => break state.finish(),
        };
        state = next.unwrap();
    };

    println!("{:?}", result);
    assert_eq!(result.main.url.serialization, "http://0.0.0.0:8000/a.so");
    assert_eq!(result.main.path, work_dir.join("liba.so").to_str().unwrap().as_bytes());
    assert!(result.dependencies.is_empty());
}

#[test]
fn requests_come_in_order() {
    let packs: &[Pack] = &[("a", &[("x", &["b"])]), ("b", &[("x", &[])])];
    let state = resolve(&url(&manifest_url("a")), "x");
    let Request::LocateManifest(asked) = state.request() else { panic!() };
    assert_eq!(asked.serialization, manifest_url("a"));
    let state = state.manifest_located(Ok::<_, String>(located(&asked))).unwrap();
    let Request::ReadManifest(info) = state.request() else { panic!() };
    assert_eq!(info.url.serialization, manifest_url("a"));
    let state = state.manifest_read(read(packs, &info)).unwrap();
    let Request::LocateManifest(asked) = state.request() else { panic!() };
    assert_eq!(asked.serialization, manifest_url("b"));
    let state = state.manifest_located(Ok::<_, String>(located(&asked))).unwrap();
    let Request::ReadManifest(info) = state.request() else { panic!() };
    assert_eq!(info.url.serialization, manifest_url("b"));
    let state = state.manifest_read(read(packs, &info)).unwrap();
    let Request::LocateLibrary(asked, name) = state.request() else { panic!() };
    assert_eq!(asked.serialization, "http://0.0.0.0:8000/b.so");
    assert_eq!(name, Some("libb.so".to_string()));
    let state = state.library_located(Ok::<_, String>(library_at(&asked, &name))).unwrap();
    let Request::LocateLibrary(asked, name) = state.request() else { panic!() };
    assert_eq!(asked.serialization, "http://0.0.0.0:8000/a.so");
    let state = state.library_located(Ok::<_, String>(library_at(&asked, &name))).unwrap();
    assert!(matches!(state.request(), Request::Nothing));
    let resolution = state.finish();
    assert_eq!(resolution.main.name, "liba.so");
    assert_eq!(names(&resolution), vec!["libb.so"]);
}

#[test]
fn chain_is_loaded_from_its_end() {
    let packs: &[Pack] =
        &[("a", &[("x", &["b"])]), ("b", &[("x", &["c"])]), ("c", &[("x", &["d"])]), ("d", &[("x", &[])])];
    assert_eq!(order(packs), vec!["libd.so", "libc.so", "libb.so"]);
}

#[test]
fn diamond_is_read_once() {
    let packs: &[Pack] = &[
        ("a", &[("x", &["b", "c"])]),
        ("b", &[("x", &["d"])]),
        ("c", &[("x", &["d"])]),
        ("d", &[("x", &[])]),
    ];
    let (resolution, reads) = run(packs, "x");
    assert_eq!(names(&resolution.unwrap()), vec!["libd.so", "libb.so", "libc.so"]);
    assert_eq!(reads, 4);
}

#[test]
fn leaves_come_in_the_order_of_their_urls() {
    let packs: &[Pack] =
        &[("a", &[("x", &["d", "b", "c"])]), ("d", &[("x", &[])]), ("c", &[("x", &[])]), ("b", &[("x", &[])])];
    assert_eq!(order(packs), vec!["libb.so", "libc.so", "libd.so"]);
}

#[test]
fn last_available_goes_on_first() {
    let packs: &[Pack] = &[
        ("a", &[("x", &["d", "e"])]),
        ("b", &[("x", &[])]),
        ("c", &[("x", &[])]),
        ("d", &[("x", &["b"])]),
        ("e", &[("x", &["c"])]),
    ];
    assert_eq!(order(packs), vec!["libb.so", "libc.so", "libe.so", "libd.so"]);
}

#[test]
fn repeated_dependency_counts_twice_and_loads_once() {
    let packs: &[Pack] = &[("a", &[("x", &["b", "b"])]), ("b", &[("x", &[])])];
    let (resolution, reads) = run(packs, "x");
    assert_eq!(names(&resolution.unwrap()), vec!["libb.so"]);
    assert_eq!(reads, 2);
}

#[test]
fn raw_libraries_are_left_out() {
    let mut file = pack_file(&("a", &[("x", &[])]));
    file.platforms[0].1.dependencies.push(Dependency::RawLib {
        url: url("http://0.0.0.0:8000/z.so"),
        name: None,
    });
    let state = resolve(&url(&manifest_url("a")), "x");
    let state = state.manifest_located(Ok::<_, String>(located(&url(&manifest_url("a"))))).unwrap();
    let state = state.manifest_read(ManifestReply::<String>::Found(file)).unwrap();
    let Request::LocateLibrary(asked, name) = state.request() else { panic!() };
    assert_eq!(asked.serialization, "http://0.0.0.0:8000/a.so");
    let state = state.library_located(Ok::<_, String>(library_at(&asked, &name))).unwrap();
    assert!(state.finish().dependencies.is_empty());
}

#[test]
fn missing_manifest_fails() {
    let packs: &[Pack] = &[("a", &[("x", &["b"])])];
    let Failure::ManifestNotFound(info) = run(packs, "x").0.unwrap_err() else { panic!() };
    assert_eq!(info.url.serialization, manifest_url("b"));
    let path = String::from_utf8(info.path).unwrap();
    assert_eq!(
        manifest_not_found_message(&path),
        "plugin manifest not found at '/home/nahco314/RustroverProjects/dll-pack/work/b.dllpack': \
         run `foro install` first",
    );
}

#[test]
fn platform_must_be_supported_by_all() {
    let packs: &[Pack] = &[("a", &[("x", &["b"]), ("y", &[])]), ("b", &[("y", &[])])];
    let Failure::Unsupported(error) = run(packs, "x").0.unwrap_err() else { panic!() };
    assert_eq!(error.message(), "Platform x is not supported");
    let ResolveError::PlatformNotSupported(platform) = error;
    assert_eq!(platform, "x");
    assert!(run(packs, "y").0.unwrap().dependencies.is_empty());
}

#[test]
fn circles_fail() {
    let two: &[Pack] = &[("a", &[("x", &["b"])]), ("b", &[("x", &["a"])])];
    let Failure::Circular(platform) = run(two, "x").0.unwrap_err() else { panic!() };
    assert_eq!(
        circular_message(&platform),
        "Failed to resolve all dependencies for x. It may be a circular dependency.",
    );
    let one: &[Pack] = &[("a", &[("x", &["a"])])];
    assert!(matches!(run(one, "x").0, Err(Failure::Circular(_))));
    let below: &[Pack] =
        &[("a", &[("x", &["b"])]), ("b", &[("x", &["c", "d"])]), ("c", &[("x", &["b"])]), ("d", &[("x", &[])])];
    assert!(matches!(run(below, "x").0, Err(Failure::Circular(_))));
}

#[test]
fn outside_failures_are_handed_on() {
    let base = url(&manifest_url("a"));
    let start = resolve(&base, "x");
    let Err(Failure::Outside(why)) = start.manifest_located(Err("no place")) else { panic!() };
    assert_eq!(why, "no place");

    let state = resolve(&base, "x").manifest_located(Ok::<_, String>(located(&base))).unwrap();
    let Err(Failure::Outside(why)) = state.manifest_read(ManifestReply::Unreadable("no sense")) else {
        panic!()
    };
    assert_eq!(why, "no sense");

    let packs: &[Pack] = &[("a", &[("x", &["b"])]), ("b", &[("x", &[])])];
    let state = resolve(&base, "x").manifest_located(Ok::<_, String>(located(&base))).unwrap();
    let state = state.manifest_read(read(packs, &located(&base))).unwrap();
    let Err(Failure::Outside(why)) = state.manifest_located(Err("no place for b")) else { panic!() };
    assert_eq!(why, "no place for b");

    let alone: &[Pack] = &[("a", &[("x", &[])])];
    let state = resolve(&base, "x").manifest_located(Ok::<_, String>(located(&base))).unwrap();
    let state = state.manifest_read(read(alone, &located(&base))).unwrap();
    let Err(Failure::Outside(why)) = state.library_located(Err("no library")) else { panic!() };
    assert_eq!(why, "no library");
}

#[test]
fn url_is_held_as_its_serialization() {
    assert_eq!(url("HTTP://Example.COM:80/a/../b").serialization, "http://example.com/b");
    assert!(Url::parse("no scheme").is_none());
    assert!(url("http://h/a").comes_before(&url("http://h/b")));
    assert!(!url("http://h/b").comes_before(&url("http://h/b")));
    assert!(url("http://h/a").same(&url("http://h/a")));
}
