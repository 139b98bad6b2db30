//! What a dllpack file says, and where the cache keeps things.
use vstd::prelude::*;

use crate::text::{bytes_before, bytes_come_before, copy_bytes, same_bytes};
use crate::pack_url::{url_before, Url};

verus! {

/// A manifest's address and its place in the local cache.
#[derive(Debug)]
pub struct ManifestInfo {
    pub url: Url,
    pub path: Vec<u8>,
}

/// Where a manifest is, in terms of sequences.
#[verifier::ext_equal]
pub struct InfoModel {
    pub url: Seq<char>,
    pub path: Seq<u8>,
}

impl View for ManifestInfo {
    type V = InfoModel;

    open spec fn view(&self) -> InfoModel {
        InfoModel { url: self.url@, path: self.path@ }
    }
}

/// The order of manifests: by URL, and by path where the URLs are equal.
pub open spec fn info_before(a: InfoModel, b: InfoModel) -> bool {
    if a.url == b.url {
        bytes_before(a.path, b.path)
    } else {
        url_before(a.url, b.url)
    }
}

impl ManifestInfo {
    /// A value of its own that says the same.
    pub fn copy(&self) -> (info: ManifestInfo)
        ensures
            info@ == self@,
            info.url@ == self.url@ && info.path@ == self.path@,
    {
        ManifestInfo { url: self.url.copy(), path: copy_bytes(self.path.as_slice()) }
    }

    /// Tells whether two manifests are the same.
    pub fn same(&self, other: &ManifestInfo) -> (same: bool)
        ensures
            same == (self@ == other@),
            same <==> self.url@ == other.url@ && self.path@ == other.path@,
    {
        self.url.same(&other.url) && same_bytes(self.path.as_slice(), other.path.as_slice())
    }

    /// Tells whether this manifest comes before `other`.
    pub fn comes_before(&self, other: &ManifestInfo) -> (before: bool)
        ensures
            before == info_before(self@, other@),
            before <==> if self.url@ == other.url@ {
                bytes_before(self.path@, other.path@)
            } else {
                url_before(self.url@, other.url@)
            },
    {
        if self.url.same(&other.url) {
            bytes_come_before(self.path.as_slice(), other.path.as_slice())
        } else {
            self.url.comes_before(&other.url)
        }
    }
}

/// The text of an optional name.
pub open spec fn name_text(name: Option<String>) -> Option<Seq<char>> {
    match name {
        Some(s) => Some(s@),
        None => None,
    }
}

/// An optional name of its own with the same text.
pub fn copy_name(name: &Option<String>) -> (copy: Option<String>)
    ensures
        name_text(copy) == name_text(*name),
        copy is Some <==> name is Some,
        copy matches Some(s) ==> s@ == name->0@,
{
    match name {
        Some(s) => Some(s.clone()),
        None => None,
    }
}

/// What a library needs: another dllpack, or a bare library file.
#[derive(Debug)]
pub enum Dependency {
    DllPack { url: Url },
    RawLib { url: Url, name: Option<String> },
}

/// A dependency, in terms of sequences.
pub enum DependencyModel {
    DllPack { url: Seq<char> },
    RawLib { url: Seq<char>, name: Option<Seq<char>> },
}

impl View for Dependency {
    type V = DependencyModel;

    open spec fn view(&self) -> DependencyModel {
        match *self {
            Dependency::DllPack { url } => DependencyModel::DllPack { url: url@ },
            Dependency::RawLib { url, name } => DependencyModel::RawLib {
                url: url@,
                name: name_text(name),
            },
        }
    }
}

impl Dependency {
    /// A value of its own that says the same.
    pub fn copy(&self) -> (dependency: Dependency)
        ensures
            dependency@ == self@,
            match self {
                Dependency::DllPack { url } => dependency matches Dependency::DllPack { url: u } && u@
                    == url@,
                Dependency::RawLib { url, name } => dependency
                    matches Dependency::RawLib { url: u, name: n } && u@ == url@ && name_text(n)
                    == name_text(*name),
            },
    {
        match self {
            Dependency::DllPack { url } => Dependency::DllPack { url: url.copy() },
            Dependency::RawLib { url, name } => Dependency::RawLib {
                url: url.copy(),
                name: copy_name(name),
            },
        }
    }
}

/// The part of a manifest that is for one platform.
#[derive(Debug)]
pub struct PlatformManifest {
    pub url: Url,
    pub name: Option<String>,
    pub dependencies: Vec<Dependency>,
}

/// A platform manifest, in terms of sequences.
#[verifier::ext_equal]
pub struct PlatformModel {
    pub url: Seq<char>,
    pub name: Option<Seq<char>>,
    pub dependencies: Seq<DependencyModel>,
}

/// What a list of dependencies says.
pub open spec fn dependency_models(dependencies: Seq<Dependency>) -> Seq<DependencyModel> {
    dependencies.map_values(|d: Dependency| d@)
}

impl View for PlatformManifest {
    type V = PlatformModel;

    open spec fn view(&self) -> PlatformModel {
        PlatformModel {
            url: self.url@,
            name: name_text(self.name),
            dependencies: dependency_models(self.dependencies@),
        }
    }
}

impl PlatformManifest {
    /// A value of its own that says the same.
    pub fn copy(&self) -> (manifest: PlatformManifest)
        ensures
            manifest@ == self@,
            manifest.url@ == self.url@ && name_text(manifest.name) == name_text(self.name),
            manifest.dependencies@.len() == self.dependencies@.len(),
            forall|i: int|
                0 <= i < self.dependencies@.len() ==> (#[trigger] manifest.dependencies@[i])@
                    == self.dependencies@[i]@,
    {
        let mut dependencies: Vec<Dependency> = Vec::new();
        let mut i: usize = 0;
        while i < self.dependencies.len()
            invariant
                i <= self.dependencies@.len(),
                dependencies@.len() == i,
                forall|j: int| 0 <= j < i ==> (#[trigger] dependencies@[j])@ == self.dependencies@[j]@,
            decreases self.dependencies@.len() - i,
        {
            dependencies.push(self.dependencies[i].copy());
            i += 1;
        }
        let manifest = PlatformManifest {
            url: self.url.copy(),
            name: copy_name(&self.name),
            dependencies,
        };
        assert(manifest@.dependencies =~= self@.dependencies);
        manifest
    }
}

/// A dllpack file: for each platform that it supports, what the library is there.
#[derive(Debug)]
pub struct DllPackFile {
    pub platforms: Vec<(String, PlatformManifest)>,
}

/// What a list of named platform manifests says.
pub open spec fn platform_models(platforms: Seq<(String, PlatformManifest)>) -> Seq<
    (Seq<char>, PlatformModel),
> {
    platforms.map_values(|p: (String, PlatformManifest)| (p.0@, p.1@))
}

impl View for DllPackFile {
    type V = Seq<(Seq<char>, PlatformModel)>;

    open spec fn view(&self) -> Seq<(Seq<char>, PlatformModel)> {
        platform_models(self.platforms@)
    }
}

/// The entry of a dllpack file for a platform.
pub open spec fn platform_entry(
    platforms: Seq<(Seq<char>, PlatformModel)>,
    platform: Seq<char>,
) -> Option<PlatformModel>
    decreases platforms.len(),
{
    if platforms.len() == 0 {
        None
    } else if platforms[0].0 == platform {
        Some(platforms[0].1)
    } else {
        platform_entry(platforms.drop_first(), platform)
    }
}

impl DllPackFile {
    /// The manifest for a platform, or nothing where the platform is not supported.
    pub fn platform(&self, platform: &String) -> (manifest: Option<PlatformManifest>)
        ensures
            match manifest {
                Some(m) => platform_entry(self@, platform@) == Some(m@),
                None => platform_entry(self@, platform@) is None,
            },
            match manifest {
                Some(m) => exists|i: int|
                    0 <= i < self.platforms@.len() && (#[trigger] self.platforms@[i]).0@ == platform@
                        && self.platforms@[i].1@ == m@ && forall|j: int|
                        0 <= j < i ==> (#[trigger] self.platforms@[j]).0@ != platform@,
                None => forall|i: int|
                    0 <= i < self.platforms@.len() ==> (#[trigger] self.platforms@[i]).0@ != platform@,
            },
    {
        let mut i: usize = 0;
        assert(self@.skip(0) =~= self@);
        while i < self.platforms.len()
            invariant
                i <= self.platforms@.len(),
                forall|j: int| 0 <= j < i ==> (#[trigger] self.platforms@[j]).0@ != platform@,
                platform_entry(self@, platform@) == platform_entry(self@.skip(i as int), platform@),
            decreases self.platforms@.len() - i,
        {
            if self.platforms[i].0 == *platform {
                return Some(self.platforms[i].1.copy());
            }
            assert(self@.skip(i as int).drop_first() =~= self@.skip(i + 1));
            i += 1;
        }
        None
    }
}

/// A library file's address, its name and its place in the local cache.
#[derive(Debug)]
pub struct DllInfo {
    pub url: Url,
    pub name: String,
    pub path: Vec<u8>,
}

/// Where a library file is, in terms of sequences.
#[verifier::ext_equal]
pub struct DllModel {
    pub url: Seq<char>,
    pub name: Seq<char>,
    pub path: Seq<u8>,
}

impl View for DllInfo {
    type V = DllModel;

    open spec fn view(&self) -> DllModel {
        DllModel { url: self.url@, name: self.name@, path: self.path@ }
    }
}

impl DllInfo {
    /// A value of its own that says the same.
    pub fn copy(&self) -> (dll: DllInfo)
        ensures
            dll@ == self@,
            dll.url@ == self.url@ && dll.name@ == self.name@ && dll.path@ == self.path@,
    {
        DllInfo {
            url: self.url.copy(),
            name: self.name.clone(),
            path: copy_bytes(self.path.as_slice()),
        }
    }
}

/// What a list of library files says.
pub open spec fn dll_models(dlls: Seq<DllInfo>) -> Seq<DllModel> {
    dlls.map_values(|d: DllInfo| d@)
}

} // verus!
