use vstd::prelude::*;

verus! {

/// The views of a sequence of string pairs.
pub open spec fn pairs_view(s: Seq<(String, String)>) -> Seq<(Seq<char>, Seq<char>)> {
    s.map_values(|p: (String, String)| (p.0@, p.1@))
}

/// A mapping of dependency name to raw (unparsed) requirement string, in
/// document order. Absence of a section in the source document is the empty
/// mapping.
pub type DepsMap = Vec<(String, String)>;

/// The mathematical value of a [`Dist`].
pub struct SpecDist {
    pub tarball: Seq<char>,
    pub shasum: Seq<char>,
}

/// Where one published version's archive lives and the digest its bytes
/// must have.
#[derive(Debug, Clone, PartialEq, Eq)]
pub struct Dist {
    pub tarball: String,
    pub shasum: String,
}

impl View for Dist {
    type V = SpecDist;

    open spec fn view(&self) -> SpecDist {
        SpecDist { tarball: self.tarball@, shasum: self.shasum@ }
    }
}

/// The mathematical value of a [`Version`].
pub struct SpecVersion {
    pub name: Seq<char>,
    pub version: Seq<char>,
    pub dist: SpecDist,
    pub dependencies: Seq<(Seq<char>, Seq<char>)>,
    pub dev_dependencies: Seq<(Seq<char>, Seq<char>)>,
    pub peer_dependencies: Seq<(Seq<char>, Seq<char>)>,
    pub optional_dependencies: Seq<(Seq<char>, Seq<char>)>,
}

/// The registry's metadata for one published version of a package: its
/// distribution info and its own declared dependency edges, by kind.
#[derive(Debug, Clone, PartialEq, Eq)]
pub struct Version {
    pub name: String,
    pub version: String,
    pub dist: Dist,
    pub dependencies: DepsMap,
    pub dev_dependencies: DepsMap,
    pub peer_dependencies: DepsMap,
    pub optional_dependencies: DepsMap,
}

impl View for Version {
    type V = SpecVersion;

    open spec fn view(&self) -> SpecVersion {
        SpecVersion {
            name: self.name@,
            version: self.version@,
            dist: self.dist@,
            dependencies: pairs_view(self.dependencies@),
            dev_dependencies: pairs_view(self.dev_dependencies@),
            peer_dependencies: pairs_view(self.peer_dependencies@),
            optional_dependencies: pairs_view(self.optional_dependencies@),
        }
    }
}

/// The views of a version catalogue's entries.
pub open spec fn entries_view(s: Seq<(String, Version)>) -> Seq<(Seq<char>, SpecVersion)> {
    s.map_values(|p: (String, Version)| (p.0@, p.1@))
}

/// The mathematical value of a [`PackageRsp`].
pub struct SpecPackageRsp {
    pub dist_tags: Seq<(Seq<char>, Seq<char>)>,
    pub versions: Seq<(Seq<char>, SpecVersion)>,
}

/// A package's full metadata document: its dist-tags and its version
/// catalogue, the latter ordered as the registry serves it (ascending
/// publish order).
#[derive(Debug, Clone, PartialEq, Eq)]
pub struct PackageRsp {
    pub dist_tags: Vec<(String, String)>,
    pub versions: Vec<(String, Version)>,
}

impl View for PackageRsp {
    type V = SpecPackageRsp;

    open spec fn view(&self) -> SpecPackageRsp {
        SpecPackageRsp {
            dist_tags: pairs_view(self.dist_tags@),
            versions: entries_view(self.versions@),
        }
    }
}

/// The mathematical value of a [`PackageJson`].
pub struct SpecPackageJson {
    pub name: Seq<char>,
    pub dependencies: Seq<(Seq<char>, Seq<char>)>,
    pub dev_dependencies: Seq<(Seq<char>, Seq<char>)>,
    pub peer_dependencies: Seq<(Seq<char>, Seq<char>)>,
    pub optional_dependencies: Seq<(Seq<char>, Seq<char>)>,
}

/// A local manifest file's dependency declarations, by kind.
#[derive(Debug, Clone, PartialEq, Eq)]
pub struct PackageJson {
    pub name: String,
    pub dependencies: DepsMap,
    pub dev_dependencies: DepsMap,
    pub peer_dependencies: DepsMap,
    pub optional_dependencies: DepsMap,
}

impl View for PackageJson {
    type V = SpecPackageJson;

    open spec fn view(&self) -> SpecPackageJson {
        SpecPackageJson {
            name: self.name@,
            dependencies: pairs_view(self.dependencies@),
            dev_dependencies: pairs_view(self.dev_dependencies@),
            peer_dependencies: pairs_view(self.peer_dependencies@),
            optional_dependencies: pairs_view(self.optional_dependencies@),
        }
    }
}

} // verus!
