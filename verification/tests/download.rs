//! Downloads against a server and a cache that are held in memory.
use dll_pack::download::{download, Download, DownloadRequest};
use dll_pack::failure::Failure;
use dll_pack::manifest::{Dependency, DllInfo, DllPackFile, ManifestInfo, PlatformManifest};
use dll_pack::pack_url::Url;
use dll_pack::walk::ManifestReply;

/// A pack, named by a letter, its platform, and the packs that it depends on.
type Pack = (&'static str, &'static str, &'static [&'static str]);

fn url(name: &str, ending: &str) -> Url {
    Url::parse(&format!("https://packs.example/{}.{}", name, ending)).unwrap()
}

fn name_of(url: &Url) -> String {
    let file = url.serialization.rsplit('/').next().unwrap();
    file.split('.').next().unwrap().to_string()
}

fn located(url: &Url) -> ManifestInfo {
    ManifestInfo { url: url.copy(), path: format!("/cache/{}", name_of(url)).into_bytes() }
}

fn library_at(url: &Url) -> DllInfo {
    DllInfo {
        url: url.copy(),
        name: name_of(url),
        path: format!("/cache/{}.so", name_of(url)).into_bytes(),
    }
}

fn file(packs: &[Pack], info: &ManifestInfo) -> Option<DllPackFile> {
    let (name, platform, needs) = packs.iter().find(|p| p.0 == name_of(&info.url))?;
    let dependencies =
        needs.iter().map(|n| Dependency::DllPack { url: url(n, "dllpack") }).collect();
    let manifest = PlatformManifest { url: url(name, "so"), name: None, dependencies };
    Some(DllPackFile { platforms: vec![(platform.to_string(), manifest)] })
}

/// Downloads the pack `a`, and tells what was fetched or read.
fn run(packs: &[Pack], platform: &str) -> (Result<(), Failure<String>>, Vec<String>) {
    let mut log = Vec::new();
    let mut state: Download = download(&url("a", "dllpack"), platform);
    loop {
        let next = match state.request() {
            DownloadRequest::LocateManifest(url) => state.manifest_located(Ok(located(&url))),
            DownloadRequest::FetchManifest(info) => {
                log.push(format!("fetch {}", name_of(&info.url)));
                state.manifest_fetched(file(packs, &info).ok_or("not on the server".to_string()))
            }
            DownloadRequest::ReadManifest(info) => {
                log.push(format!("read {}", name_of(&info.url)));
                state.manifest_read(match file(packs, &info) {
                    Some(file) => ManifestReply::Found(file),
                    None => ManifestReply::Missing,
                })
            }
            DownloadRequest::LocateLibrary(url, _) => state.library_located(Ok(library_at(&url))),
            DownloadRequest::FetchLibrary(dll) => {
                log.push(format!("fetch {}", String::from_utf8(dll.path).unwrap()));
                state.library_fetched(Ok(()))
            }
            DownloadRequest::Nothing => return (Ok(()), log),
        };
        state = match next {
            Ok(state) => state,
            Err(failure) => return (Err(failure), log),
        };
    }
}

#[test]
fn manifests_are_fetched_before_libraries() {
    let packs: &[Pack] = &[("a", "x", &["b", "c"]), ("b", "x", &["c"]), ("c", "x", &[])];
    let (result, log) = run(packs, "x");
    assert!(result.is_ok());
    assert_eq!(
        log,
        vec![
            "fetch a",
            "fetch b",
            "fetch c",
            "read a",
            "read b",
            "read c",
            "fetch /cache/c.so",
            "fetch /cache/b.so",
            "fetch /cache/a.so",
        ],
    );
}

#[test]
fn each_manifest_is_fetched_once() {
    let packs: &[Pack] = &[("a", "x", &["b", "b", "a"]), ("b", "x", &["a"])];
    let (result, log) = run(packs, "x");
    assert!(matches!(result, Err(Failure::Circular(_))));
    assert_eq!(log, vec!["fetch a", "fetch b", "read a", "read b"]);
}

#[test]
fn unsupported_platform_stops_the_download() {
    let packs: &[Pack] = &[("a", "x", &["b"]), ("b", "y", &[])];
    let (result, log) = run(packs, "x");
    let Err(Failure::Unsupported(error)) = result else { panic!() };
    assert_eq!(error.message(), "Platform x is not supported");
    assert_eq!(log, vec!["fetch a", "fetch b"]);
}

#[test]
fn failed_fetch_stops_the_download() {
    let packs: &[Pack] = &[("a", "x", &["b"])];
    let (result, log) = run(packs, "x");
    let Err(Failure::Outside(why)) = result else { panic!() };
    assert_eq!(why, "not on the server");
    assert_eq!(log, vec!["fetch a", "fetch b"]);
}

#[test]
fn failed_library_stops_the_download() {
    let packs: &[Pack] = &[("a", "x", &[])];
    let state = download(&url("a", "dllpack"), "x");
    let info = located(&url("a", "dllpack"));
    let state = state.manifest_located(Ok::<_, String>(info.copy())).unwrap();
    let state = state.manifest_fetched(Ok::<_, String>(file(packs, &info).unwrap())).unwrap();
    let state = state.manifest_located(Ok::<_, String>(info.copy())).unwrap();
    let found = ManifestReply::<String>::Found(file(packs, &info).unwrap());
    let state = state.manifest_read(found).unwrap();
    let state = state.library_located(Ok::<_, String>(library_at(&url("a", "so")))).unwrap();
    assert!(matches!(state.request(), DownloadRequest::FetchLibrary(_)));
    let Err(Failure::Outside(why)) = state.library_fetched(Err("disk full")) else { panic!() };
    assert_eq!(why, "disk full");
}

/// The manifest of `a` or `b`, which name libraries on their own.
fn with_raw(name: &str) -> DllPackFile {
    let raw = |library: &str| Dependency::RawLib {
        url: url(library, "so"),
        name: Some(library.to_string()),
    };
    let dependencies = match name {
        "a" => vec![raw("r"), Dependency::DllPack { url: url("b", "dllpack") }, raw("s")],
        _ => vec![raw("t")],
    };
    let elsewhere =
        PlatformManifest { url: url("o", "so"), name: None, dependencies: vec![raw("u")] };
    let manifest = PlatformManifest { url: url(name, "so"), name: None, dependencies };
    DllPackFile { platforms: vec![("y".to_string(), elsewhere), ("x".to_string(), manifest)] }
}

/// Downloads the pack `a` of `with_raw`. The library `lost` cannot be located, and
/// `broken` cannot be fetched.
fn run_raw(lost: &str, broken: &str) -> (Result<(), Failure<String>>, Vec<String>) {
    let mut log = Vec::new();
    let mut state = download(&url("a", "dllpack"), "x");
    loop {
        let next = match state.request() {
            DownloadRequest::LocateManifest(url) => state.manifest_located(Ok(located(&url))),
            DownloadRequest::FetchManifest(info) => {
                log.push(name_of(&info.url));
                state.manifest_fetched(Ok(with_raw(&name_of(&info.url))))
            }
            DownloadRequest::ReadManifest(info) => {
                state.manifest_read(ManifestReply::Found(with_raw(&name_of(&info.url))))
            }
            DownloadRequest::LocateLibrary(url, name) => {
                if let Some(name) = name {
                    assert_eq!(name, name_of(&url));
                }
                if name_of(&url) == lost {
                    state.library_located(Err("lost".to_string()))
                } else {
                    state.library_located(Ok(library_at(&url)))
                }
            }
            DownloadRequest::FetchLibrary(dll) => {
                let name = dll.name;
                let fetched = if name == broken { Err("broken".to_string()) } else { Ok(()) };
                log.push(format!("{}.so", name));
                state.library_fetched(fetched)
            }
            DownloadRequest::Nothing => return (Ok(()), log),
        };
        state = match next {
            Ok(state) => state,
            Err(failure) => return (Err(failure), log),
        };
    }
}

#[test]
fn libraries_without_a_manifest_are_fetched() {
    let (result, log) = run_raw("", "");
    assert!(result.is_ok());
    assert_eq!(log, vec!["a", "b", "b.so", "a.so", "r.so", "s.so", "t.so"]);
}

#[test]
fn failed_library_without_a_manifest_stops_the_download() {
    let (result, log) = run_raw("s", "");
    assert!(matches!(result, Err(Failure::Outside(why)) if why == "lost"));
    assert_eq!(log, vec!["a", "b", "b.so", "a.so", "r.so"]);
    let (result, log) = run_raw("", "s");
    assert!(matches!(result, Err(Failure::Outside(why)) if why == "broken"));
    assert_eq!(log, vec!["a", "b", "b.so", "a.so", "r.so", "s.so"]);
}
