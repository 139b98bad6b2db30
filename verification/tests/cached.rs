//! Searches in a cache that is held in memory.
use dll_pack::cached::{
    dependent_unparsable_message, get_all_cached_dependencies, main_unparsable_message, CacheSearch,
    CachedLibrary, CachedReply, SearchFailure, SearchRequest,
};
use dll_pack::manifest::{Dependency, DllPackFile, ManifestInfo, PlatformManifest};
use dll_pack::pack_url::Url;

fn url(name: &str) -> Url {
    Url::parse(&format!("https://packs.example/{}", name)).unwrap()
}

fn name_of(url: &Url) -> String {
    url.serialization.rsplit('/').next().unwrap().to_string()
}

fn pack(name: &str) -> Dependency {
    Dependency::DllPack { url: url(name) }
}

fn raw(name: &str) -> Dependency {
    Dependency::RawLib { url: url(name), name: Some(name.to_string()) }
}

fn entry(platform: &str, library: &str, dependencies: Vec<Dependency>) -> (String, PlatformManifest) {
    (platform.to_string(), PlatformManifest { url: url(library), name: None, dependencies })
}

fn located(url: &Url) -> ManifestInfo {
    ManifestInfo { url: url.copy(), path: format!("/cache/{}", name_of(url)).into_bytes() }
}

type Contents = fn(&str) -> CachedReply<String>;

/// Searches for what is cached of the pack `a`. All libraries but `gone.so` are.
fn run(read: Contents) -> Result<Option<Vec<(String, String)>>, SearchFailure<String>> {
    let mut state: CacheSearch = get_all_cached_dependencies(&url("a"));
    loop {
        let next = match state.request() {
            SearchRequest::LocateManifest(url) => state.manifest_located(Ok(located(&url))),
            SearchRequest::ReadManifest(info) => state.manifest_read(read(&name_of(&info.url))),
            SearchRequest::LocateLibrary(url, _) => {
                let path = if name_of(&url) == "gone.so" {
                    None
                } else {
                    Some(format!("/cache/{}", name_of(&url)).into_bytes())
                };
                state.library_located(Ok(CachedLibrary { url, path }))
            }
            SearchRequest::Nothing => {
                return Ok(state.finish().map(|found| {
                    found
                        .into_iter()
                        .map(|(url, path)| {
                            let name = url.rsplit('/').next().unwrap().to_string();
                            (name, String::from_utf8(path).unwrap())
                        })
                        .collect()
                }));
            }
        };
        state = next?;
    }
}

fn found(name: &str) -> (String, String) {
    (name.to_string(), format!("/cache/{}", name))
}

fn several(name: &str) -> CachedReply<String> {
    let platforms = match name {
        "a" => vec![
            entry("x", "a-x.so", vec![pack("b"), raw("raw.so"), pack("missing"), pack("c")]),
            entry("y", "gone.so", vec![pack("b"), raw("gone.so"), raw("raw.so")]),
        ],
        "b" => vec![entry("x", "b.so", vec![pack("a"), pack("d")])],
        "c" => vec![entry("z", "c.so", vec![])],
        "d" => vec![],
        _ => return CachedReply::Absent,
    };
    CachedReply::Found(DllPackFile { platforms })
}

#[test]
fn all_platforms_are_searched_breadth_first() {
    assert_eq!(
        run(several).unwrap().unwrap(),
        vec![
            found("a"),
            found("a-x.so"),
            found("b"),
            found("raw.so"),
            found("c"),
            found("raw.so"),
            found("b.so"),
            found("d"),
            found("c.so"),
        ],
    );
}

fn nothing(_: &str) -> CachedReply<String> {
    CachedReply::Absent
}

#[test]
fn main_manifest_must_be_cached() {
    assert!(run(nothing).unwrap().is_none());
}

fn bad_main(_: &str) -> CachedReply<String> {
    CachedReply::Unparsable("no table".to_string())
}

#[test]
fn main_manifest_must_make_sense() {
    let Err(SearchFailure::MainUnparsable(why)) = run(bad_main) else { panic!() };
    assert_eq!(main_unparsable_message(&why), "Failed to parse the main dllpack file: no table");
}

fn bad_dependency(name: &str) -> CachedReply<String> {
    if name == "a" {
        let platforms = vec![entry("x", "a.so", vec![pack("b")])];
        CachedReply::Found(DllPackFile { platforms })
    } else {
        CachedReply::Unparsable("no key".to_string())
    }
}

#[test]
fn cached_dependency_must_make_sense() {
    let Err(SearchFailure::DependentUnparsable(why)) = run(bad_dependency) else { panic!() };
    assert_eq!(
        dependent_unparsable_message(&why),
        "Failed to parse a dependent dllpack file: no key",
    );
}

#[test]
fn outside_failures_stop_the_search() {
    let state = get_all_cached_dependencies(&url("a"));
    let Err(SearchFailure::Outside(why)) = state.manifest_located(Err("no home")) else { panic!() };
    assert_eq!(why, "no home");

    let state = get_all_cached_dependencies(&url("a"));
    let state = state.manifest_located(Ok::<_, String>(located(&url("a")))).unwrap();
    let state = state.manifest_read(several("a")).unwrap();
    let Err(SearchFailure::Outside(why)) = state.library_located(Err("no name")) else { panic!() };
    assert_eq!(why, "no name");
}
