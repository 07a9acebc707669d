use vstd::prelude::*;
use vstd::string::StringExecFns;

use crate::version::{duplicate_texts, version_text, Version, VersionView};

verus! {

/// How a dependency is declared: a registry version range, a local path or a
/// version control repository.
#[derive(Debug, Clone, PartialEq, Eq)]
pub enum Recipe {
    Hex { version: String },
    Path { path: String },
    Git { git: String },
}

pub enum RecipeView {
    Hex { version: Seq<char> },
    Path { path: Seq<char> },
    Git { git: Seq<char> },
}

impl View for Recipe {
    type V = RecipeView;

    open spec fn view(&self) -> RecipeView {
        match self {
            Recipe::Hex { version } => RecipeView::Hex { version: version@ },
            Recipe::Path { path } => RecipeView::Path { path: path@ },
            Recipe::Git { git } => RecipeView::Git { git: git@ },
        }
    }
}

impl Recipe {
    /// A registry recipe with the given version range.
    pub fn hex(range: &str) -> (r: Recipe)
        ensures
            r@ == (RecipeView::Hex { version: range@ }),
    {
        Recipe::Hex { version: String::from_str(range) }
    }

    /// Whether two recipes are the same.
    pub fn same_as(&self, other: &Recipe) -> (r: bool)
        ensures
            r == (self@ == other@),
    {
        match (self, other) {
            (Recipe::Hex { version: a }, Recipe::Hex { version: b }) => a.eq(b),
            (Recipe::Path { path: a }, Recipe::Path { path: b }) => a.eq(b),
            (Recipe::Git { git: a }, Recipe::Git { git: b }) => a.eq(b),
            _ => false,
        }
    }
}

/// The checksum of a registry archive.
#[derive(Debug, Clone, PartialEq, Eq, PartialOrd, Ord)]
pub struct Base16Checksum(pub Vec<u8>);

/// Where a resolved package comes from.
#[derive(Debug, Clone, PartialEq, Eq, PartialOrd, Ord)]
pub enum ManifestPackageSource {
    Hex { outer_checksum: Base16Checksum },
    Local { path: String },
    Git { repo: String, commit: String },
}

/// One resolved package of a manifest.
#[derive(Debug, Clone, PartialEq, Eq, PartialOrd, Ord)]
pub struct ManifestPackage {
    pub name: String,
    pub version: Version,
    pub build_tools: Vec<String>,
    pub otp_app: Option<String>,
    pub requirements: Vec<String>,
    pub source: ManifestPackageSource,
}

/// The resolved dependency graph of a project: the declared recipes it was
/// resolved from, and one package per resolved dependency.
#[derive(Debug, Clone, PartialEq, Eq)]
pub struct Manifest {
    pub requirements: Vec<(String, Recipe)>,
    pub packages: Vec<ManifestPackage>,
}

pub enum SourceView {
    Hex { outer_checksum: Seq<u8> },
    Local { path: Seq<char> },
    Git { repo: Seq<char>, commit: Seq<char> },
}

impl View for ManifestPackageSource {
    type V = SourceView;

    open spec fn view(&self) -> SourceView {
        match self {
            ManifestPackageSource::Hex { outer_checksum } => SourceView::Hex {
                outer_checksum: outer_checksum.0@,
            },
            ManifestPackageSource::Local { path } => SourceView::Local { path: path@ },
            ManifestPackageSource::Git { repo, commit } => SourceView::Git {
                repo: repo@,
                commit: commit@,
            },
        }
    }
}

pub struct ManifestPackageView {
    pub name: Seq<char>,
    pub version: VersionView,
    pub build_tools: Seq<Seq<char>>,
    pub otp_app: Option<Seq<char>>,
    pub requirements: Seq<Seq<char>>,
    pub source: SourceView,
}

pub open spec fn texts(v: Seq<String>) -> Seq<Seq<char>> {
    v.map_values(|s: String| s@)
}

impl View for ManifestPackage {
    type V = ManifestPackageView;

    open spec fn view(&self) -> ManifestPackageView {
        ManifestPackageView {
            name: self.name@,
            version: self.version@,
            build_tools: texts(self.build_tools@),
            otp_app: match self.otp_app {
                Some(a) => Some(a@),
                None => None,
            },
            requirements: texts(self.requirements@),
            source: self.source@,
        }
    }
}

impl ManifestPackageSource {
    /// A copy of the source.
    pub fn duplicate(&self) -> (r: ManifestPackageSource)
        ensures
            r@ == self@,
    {
        match self {
            ManifestPackageSource::Hex { outer_checksum } => ManifestPackageSource::Hex {
                outer_checksum: Base16Checksum(outer_checksum.0.clone()),
            },
            ManifestPackageSource::Local { path } => ManifestPackageSource::Local {
                path: path.clone(),
            },
            ManifestPackageSource::Git { repo, commit } => ManifestPackageSource::Git {
                repo: repo.clone(),
                commit: commit.clone(),
            },
        }
    }
}

impl ManifestPackage {
    /// A copy of the package.
    pub fn duplicate(&self) -> (r: ManifestPackage)
        ensures
            r@ == self@,
    {
        let otp_app = match &self.otp_app {
            Some(a) => Some(a.clone()),
            None => None,
        };
        ManifestPackage {
            name: self.name.clone(),
            version: self.version.duplicate(),
            build_tools: duplicate_texts(&self.build_tools),
            otp_app,
            requirements: duplicate_texts(&self.requirements),
            source: self.source.duplicate(),
        }
    }
}

/// The declared recipes as a map from names to recipes.
pub open spec fn recipe_map(reqs: Seq<(String, Recipe)>) -> Map<Seq<char>, RecipeView>
    decreases reqs.len(),
{
    if reqs.len() == 0 {
        Map::empty()
    } else {
        recipe_map(reqs.drop_last()).insert(reqs.last().0@, reqs.last().1@)
    }
}

/// No name is declared twice.
pub open spec fn unique_recipe_names(reqs: Seq<(String, Recipe)>) -> bool {
    forall|i: int, j: int|
        0 <= i < reqs.len() && 0 <= j < reqs.len() && i != j ==> reqs[i].0@ != reqs[j].0@
}

/// The (name, version) pairs of a sequence of packages.
pub open spec fn package_pairs(ps: Seq<ManifestPackage>) -> Seq<(Seq<char>, VersionView)> {
    ps.map_values(|p: ManifestPackage| (p.name@, p.version@))
}

/// One line of the listing: the name, a space, the version and a newline.
pub open spec fn listing_line(p: ManifestPackage) -> Seq<char> {
    p.name@ + seq![' '] + version_text(p.version@) + seq!['\n']
}

/// The listing of the first packages, in their stored order.
pub open spec fn listing(ps: Seq<ManifestPackage>) -> Seq<char>
    decreases ps.len(),
{
    if ps.len() == 0 {
        Seq::empty()
    } else {
        listing(ps.drop_last()) + listing_line(ps.last())
    }
}

impl Manifest {
    pub open spec fn wf(&self) -> bool {
        &&& unique_recipe_names(self.requirements@)
        &&& forall|i: int, j: int|
            0 <= i < self.packages.len() && 0 <= j < self.packages.len() && i != j
                ==> self.packages@[i].name@ != self.packages@[j].name@
    }
}

/// The text that lists a manifest: one line `<name> <version>` per package,
/// in the manifest's order.
pub fn list_manifest_packages(manifest: &Manifest) -> (r: String)
    ensures
        r@ == listing(manifest.packages@),
{
    let mut out = String::new();
    let mut i: usize = 0;
    while i < manifest.packages.len()
        invariant
            i <= manifest.packages.len(),
            out@ == listing(manifest.packages@.subrange(0, i as int)),
        decreases manifest.packages.len() - i,
    {
        let p = &manifest.packages[i];
        let v = p.version.to_text();
        out.append(p.name.as_str());
        out.append(" ");
        out.append(v.as_str());
        out.append("\n");
        proof {
            let next = manifest.packages@.subrange(0, i + 1);
            assert(next.drop_last() =~= manifest.packages@.subrange(0, i as int));
            reveal_strlit(" ");
            reveal_strlit("\n");
        }
        i = i + 1;
    }
    assert(manifest.packages@.subrange(0, i as int) =~= manifest.packages@);
    out
}

} // verus!
