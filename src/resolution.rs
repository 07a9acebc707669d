use vstd::prelude::*;

use crate::error::Error;
use crate::manifest::{
    package_pairs, recipe_map, texts, unique_recipe_names, Base16Checksum, Manifest, ManifestPackage,
    ManifestPackageSource, ManifestPackageView, Recipe, RecipeView, SourceView,
};
use crate::local::{entry_pairs, package_views};
use crate::provider::{
    consistent, config_index, find_origin, info_grows, is_provided, requirement_from, state_wf, provide_git_package,
    provide_local_package,
    store_wf, LocalConfig, origin_of, ProvidedPackage, ProviderInfo, ProviderInfoView, ProviderState};
use crate::version::{duplicate_texts, Version, VersionView};
use vstd::string::StringExecFns;

verus! {

broadcast use vstd::seq_lib::group_seq_properties;

/// Whether a cached manifest may be used, or the versions resolved anew.
#[derive(Debug, Clone, Copy, PartialEq, Eq)]
pub enum UseManifest {
    Yes,
    No,
}

/// What became of a cached manifest.
#[derive(Debug, Clone)]
pub enum CachedManifest {
    /// Its requirements are the declared ones: it is used as it is.
    UpToDate(Manifest),
    /// The declared requirements changed: it only seeds a new resolution.
    Outdated(Manifest),
}

/// Versions are resolved anew when there is no cached manifest, or when the
/// caller asks to ignore it.
pub fn should_resolve(use_manifest: UseManifest, manifest_exists: bool) -> (r: bool)
    ensures
        r == (!manifest_exists || use_manifest == UseManifest::No),
{
    if !manifest_exists {
        true
    } else {
        match use_manifest {
            UseManifest::No => true,
            UseManifest::Yes => false,
        }
    }
}

proof fn lemma_recipe_map(reqs: Seq<(String, Recipe)>)
    requires
        unique_recipe_names(reqs),
    ensures
        forall|i: int| 0 <= i < reqs.len() ==> recipe_map(reqs).contains_key(#[trigger] reqs[i].0@)
            && recipe_map(reqs)[reqs[i].0@] == reqs[i].1@,
        forall|k: Seq<char>| #[trigger] recipe_map(reqs).contains_key(k) ==> exists|i: int|
            0 <= i < reqs.len() && reqs[i].0@ == k,
    decreases reqs.len(),
{
    if reqs.len() > 0 {
        let d = reqs.drop_last();
        lemma_recipe_map(d);
        let last = reqs.len() - 1;
        assert forall|i: int| 0 <= i < reqs.len() implies recipe_map(reqs).contains_key(#[trigger] reqs[i].0@)
            && recipe_map(reqs)[reqs[i].0@] == reqs[i].1@ by {
            if i != last {
                assert(d[i] == reqs[i]);
                assert(reqs[i].0@ != reqs[last].0@);
            }
        }
        assert forall|k: Seq<char>| #[trigger] recipe_map(reqs).contains_key(k) implies exists|i: int|
            0 <= i < reqs.len() && reqs[i].0@ == k by {
            if k != reqs[last].0@ {
                assert(recipe_map(d).contains_key(k));
                let i = choose|i: int| 0 <= i < d.len() && d[i].0@ == k;
                assert(reqs[i] == d[i]);
            }
        }
    }
}

/// Every recipe of `a` is declared in `b` under the same name.
pub open spec fn declared_in(a: Seq<(String, Recipe)>, b: Seq<(String, Recipe)>) -> bool {
    forall|i: int| 0 <= i < a.len() ==> #[trigger] has_entry(b, a[i].0@, a[i].1@)
}

/// `b` declares this recipe under this name.
pub open spec fn has_entry(b: Seq<(String, Recipe)>, name: Seq<char>, recipe: RecipeView) -> bool {
    exists|j: int| 0 <= j < b.len() && b[j].0@ == name && b[j].1@ == recipe
}

fn declares(b: &Vec<(String, Recipe)>, name: &String, recipe: &Recipe) -> (r: bool)
    ensures
        r == has_entry(b@, name@, recipe@),
{
    let mut j: usize = 0;
    while j < b.len()
        invariant
            j <= b.len(),
            forall|y: int| 0 <= y < j ==> !(b@[y].0@ == name@ && b@[y].1@ == recipe@),
        decreases b.len() - j,
    {
        if b[j].0.eq(name) && b[j].1.same_as(recipe) {
            return true;
        }
        j = j + 1;
    }
    false
}

fn all_declared_in(a: &Vec<(String, Recipe)>, b: &Vec<(String, Recipe)>) -> (r: bool)
    ensures
        r == declared_in(a@, b@),
{
    let mut i: usize = 0;
    while i < a.len()
        invariant
            i <= a.len(),
            forall|x: int| 0 <= x < i ==> #[trigger] has_entry(b@, a@[x].0@, a@[x].1@),
        decreases a.len() - i,
    {
        if !declares(b, &a[i].0, &a[i].1) {
            return false;
        }
        i = i + 1;
    }
    true
}

/// Whether two declarations hold the same recipe under each name.
pub fn same_requirements(a: &Vec<(String, Recipe)>, b: &Vec<(String, Recipe)>) -> (r: bool)
    requires
        unique_recipe_names(a@),
        unique_recipe_names(b@),
    ensures
        r == (recipe_map(a@) == recipe_map(b@)),
{
    let ab = all_declared_in(a, b);
    let ba = all_declared_in(b, a);
    proof {
        lemma_recipe_map(a@);
        lemma_recipe_map(b@);
        if ab && ba {
            assert forall|k: Seq<char>| recipe_map(a@).contains_key(k) <==> recipe_map(b@).contains_key(k) by {
                if recipe_map(a@).contains_key(k) {
                    let i = choose|i: int| 0 <= i < a@.len() && a@[i].0@ == k;
                    assert(has_entry(b@, a@[i].0@, a@[i].1@));
                    let j = choose|j: int| 0 <= j < b@.len() && b@[j].0@ == a@[i].0@ && b@[j].1@ == a@[i].1@;
                    assert(recipe_map(b@).contains_key(b@[j].0@));
                }
                if recipe_map(b@).contains_key(k) {
                    let i = choose|i: int| 0 <= i < b@.len() && b@[i].0@ == k;
                    assert(has_entry(a@, b@[i].0@, b@[i].1@));
                    let j = choose|j: int| 0 <= j < a@.len() && a@[j].0@ == b@[i].0@ && a@[j].1@ == b@[i].1@;
                    assert(recipe_map(a@).contains_key(a@[j].0@));
                }
            }
            assert forall|k: Seq<char>| #[trigger] recipe_map(a@).contains_key(k) implies recipe_map(a@)[k]
                == recipe_map(b@)[k] by {
                let i = choose|i: int| 0 <= i < a@.len() && a@[i].0@ == k;
                assert(a@[i].0@ == k);
                assert(has_entry(b@, a@[i].0@, a@[i].1@));
                let j = choose|j: int| 0 <= j < b@.len() && b@[j].0@ == a@[i].0@ && b@[j].1@ == a@[i].1@;
                assert(b@[j].0@ == k);
            }
            assert(recipe_map(a@) =~= recipe_map(b@));
        } else if !ab {
            let i = choose|i: int| 0 <= i < a@.len() && !has_entry(b@, a@[i].0@, a@[i].1@);
            let k = a@[i].0@;
            if recipe_map(b@).contains_key(k) {
                let j = choose|j: int| 0 <= j < b@.len() && b@[j].0@ == k;
                assert(b@[j].0@ == k);
                assert(recipe_map(a@)[k] != recipe_map(b@)[k]);
            }
        } else {
            let i = choose|i: int| 0 <= i < b@.len() && !has_entry(a@, b@[i].0@, b@[i].1@);
            let k = b@[i].0@;
            if recipe_map(a@).contains_key(k) {
                let j = choose|j: int| 0 <= j < a@.len() && a@[j].0@ == k;
                assert(a@[j].0@ == k);
                assert(recipe_map(a@)[k] != recipe_map(b@)[k]);
            }
        }
    }
    ab && ba
}

/// Decides on a cached manifest: where the requirements it was resolved
/// from are the ones declared now, it is used exactly as it was read.
pub fn check_cached_manifest(cached: Manifest, declared: &Vec<(String, Recipe)>) -> (r: CachedManifest)
    requires
        unique_recipe_names(cached.requirements@),
        unique_recipe_names(declared@),
    ensures
        recipe_map(cached.requirements@) == recipe_map(declared@) ==> r == CachedManifest::UpToDate(cached),
        recipe_map(cached.requirements@) != recipe_map(declared@) ==> r == CachedManifest::Outdated(cached),
{
    if same_requirements(&cached.requirements, declared) {
        CachedManifest::UpToDate(cached)
    } else {
        CachedManifest::Outdated(cached)
    }
}

/// What the registry says of one release: its application name, build
/// tools, the names it depends on, and the checksum of its archive.
#[derive(Debug, Clone)]
pub struct ReleaseMeta {
    pub app: String,
    pub build_tools: Vec<String>,
    pub requirements: Vec<String>,
    pub outer_checksum: Vec<u8>,
}

impl ReleaseMeta {
    /// A copy of the metadata.
    pub fn duplicate(&self) -> (r: ReleaseMeta)
        ensures
            texts(r.build_tools@) == texts(self.build_tools@),
            texts(r.requirements@) == texts(self.requirements@),
            r.app@ == self.app@,
            r.outer_checksum@ == self.outer_checksum@,
    {
        ReleaseMeta {
            app: self.app.clone(),
            build_tools: duplicate_texts(&self.build_tools),
            requirements: duplicate_texts(&self.requirements),
            outer_checksum: self.outer_checksum.clone(),
        }
    }
}

/// The names a provided package requires, from the latest entry of that name.
pub open spec fn provided_requirements(provided: Seq<ProvidedPackage>, name: Seq<char>) -> Option<Seq<Seq<char>>>
    decreases provided.len(),
{
    if provided.len() == 0 {
        None
    } else if provided.last().name@ == name {
        Some(provided.last().requirements@.map_values(|r: (String, String)| r.0@))
    } else {
        provided_requirements(provided.drop_last(), name)
    }
}

/// The build tool recorded for packages that are not from the registry.
pub open spec fn gleam_tool() -> Seq<char> {
    seq!['g', 'l', 'e', 'a', 'm']
}

/// The manifest package for a chosen name and version: a local or version
/// controlled package from what the walk recorded, any other from its
/// registry metadata. None where that information is absent.
pub open spec fn looked_up(
    name: Seq<char>,
    version: VersionView,
    state: ProviderState,
    release: Option<ReleaseMeta>,
) -> Option<ManifestPackageView> {
    match origin_of(state.info@, name) {
        Some(origin) => match provided_requirements(state.provided@, name) {
            Some(reqs) => Some(ManifestPackageView {
                name,
                version,
                build_tools: seq![gleam_tool()],
                otp_app: None,
                requirements: reqs,
                source: match origin {
                    ProviderInfoView::Local { path } => SourceView::Local { path },
                    ProviderInfoView::Git { repo, commit } => SourceView::Git { repo, commit },
                },
            }),
            None => None,
        },
        None => match release {
            Some(m) => Some(ManifestPackageView {
                name,
                version,
                build_tools: texts(m.build_tools@),
                otp_app: Some(m.app@),
                requirements: texts(m.requirements@),
                source: SourceView::Hex { outer_checksum: m.outer_checksum@ },
            }),
            None => None,
        },
    }
}

/// Whether the registry must be asked about a chosen package: it is neither
/// local nor version controlled.
pub fn needs_registry_lookup(state: &ProviderState, name: &String) -> (r: bool)
    ensures
        r == (origin_of(state.info@, name@) is None),
{
    find_origin(&state.info, name).is_none()
}

fn requirement_names(provided: &Vec<ProvidedPackage>, name: &String) -> (r: Option<Vec<String>>)
    ensures
        match r {
            Some(v) => provided_requirements(provided@, name@) == Some(texts(v@)),
            None => provided_requirements(provided@, name@) is None,
        },
{
    let mut i: usize = provided.len();
    assert(provided@.subrange(0, i as int) =~= provided@);
    while i > 0
        invariant
            i <= provided.len(),
            provided_requirements(provided@, name@) == provided_requirements(provided@.subrange(0, i as int), name@),
        decreases i,
    {
        assert(provided@.subrange(0, i as int).drop_last() =~= provided@.subrange(0, i - 1));
        let p = &provided[i - 1];
        if p.name.eq(name) {
            let mut names: Vec<String> = Vec::new();
            let mut j: usize = 0;
            while j < p.requirements.len()
                invariant
                    j <= p.requirements.len(),
                    texts(names@) == p.requirements@.subrange(0, j as int).map_values(|r: (String, String)| r.0@),
                decreases p.requirements.len() - j,
            {
                names.push(p.requirements[j].0.clone());
                assert(p.requirements@.subrange(0, j + 1).map_values(|r: (String, String)| r.0@)
                    =~= p.requirements@.subrange(0, j as int).map_values(|r: (String, String)| r.0@).push(p.requirements@[j as int].0@));
                assert(texts(names@) =~= p.requirements@.subrange(0, j + 1).map_values(|r: (String, String)| r.0@));
                j = j + 1;
            }
            assert(p.requirements@.subrange(0, j as int) =~= p.requirements@);
            return Some(names);
        }
        i = i - 1;
    }
    None
}

/// The full manifest record of one chosen package. Local and version
/// controlled packages are built from what the walk recorded, with the
/// `gleam` build tool and no application name; the others from the registry
/// metadata handed in.
pub fn lookup_package(
    name: String,
    version: Version,
    state: &ProviderState,
    release: Option<ReleaseMeta>,
) -> (r: Result<ManifestPackage, Error>)
    ensures
        match looked_up(name@, version@, *state, release) {
            Some(v) => r is Ok && r->Ok_0@ == v,
            None => r is Err,
        },
        origin_of(state.info@, name@) is Some && provided_requirements(state.provided@, name@) is None
            ==> r == Err::<ManifestPackage, Error>(Error::ProvidedNotFound { name }),
        origin_of(state.info@, name@) is None && release is None
            ==> r == Err::<ManifestPackage, Error>(Error::ReleaseNotSupplied { name }),
{
    let origin = find_origin(&state.info, &name);
    match origin {
        Some(o) => {
            let requirements = match requirement_names(&state.provided, &name) {
                Some(v) => v,
                None => {
                    return Err(Error::ProvidedNotFound { name });
                },
            };
            let source = match o {
                ProviderInfo::Local { path } => ManifestPackageSource::Local { path: path.clone() },
                ProviderInfo::Git { repo, commit } => ManifestPackageSource::Git {
                    repo: repo.clone(),
                    commit: commit.clone(),
                },
            };
            let tool = String::from_str("gleam");
            let mut build_tools: Vec<String> = Vec::new();
            build_tools.push(tool);
            proof {
                reveal_strlit("gleam");
                assert(tool@ =~= gleam_tool());
                assert(build_tools@[0]@ == gleam_tool());
                assert(texts(build_tools@) =~= seq![gleam_tool()]);
            }
            Ok(ManifestPackage { name, version, build_tools, otp_app: None, requirements, source })
        },
        None => match release {
            Some(m) => Ok(ManifestPackage {
                name,
                version,
                build_tools: m.build_tools,
                otp_app: Some(m.app),
                requirements: m.requirements,
                source: ManifestPackageSource::Hex { outer_checksum: Base16Checksum(m.outer_checksum) },
            }),
            None => Err(Error::ReleaseNotSupplied { name }),
        },
    }
}

/// A declared dependency the walk can take: a registry range, or a path at
/// which a package of the declared name is loaded.
pub open spec fn walkable(dep: (String, Recipe), store: Seq<LocalConfig>) -> bool {
    match dep.1@ {
        RecipeView::Hex { .. } => true,
        RecipeView::Path { path } => exists|k: int| config_index(store, path) == Some(k) && store[k].name@ == dep.0@,
        RecipeView::Git { .. } => false,
    }
}

/// Turns the declared dependencies into version requirements for the
/// solver, walking local path dependencies into provided packages.
pub fn provide_requirements(
    dependencies: &Vec<(String, Recipe)>,
    store: &Vec<LocalConfig>,
) -> (r: Result<(Vec<(String, String)>, ProviderState), Error>)
    requires
        store_wf(store@),
    ensures
        r is Ok ==> {
            let reqs = r->Ok_0.0;
            let state = r->Ok_0.1;
            &&& reqs.len() == dependencies.len()
            &&& forall|i: int| #![trigger reqs@[i]] 0 <= i < reqs.len() ==> reqs@[i].0@ == dependencies@[i].0@
                && requirement_from(dependencies@[i].0@, dependencies@[i].1@, reqs@[i].1@, store@, state)
        },
        (exists|i: int| 0 <= i < dependencies.len() && dependencies@[i].1 is Git) ==> r is Err,
        (forall|i: int| 0 <= i < dependencies.len() ==> dependencies@[i].1 is Hex) ==> r is Ok,
        consistent(store@, Seq::empty()) && (forall|i: int| 0 <= i < dependencies.len() ==> walkable(
            dependencies@[i], store@)) ==> r is Ok,
        r is Ok ==> state_wf(r->Ok_0.1) && forall|i: int| 0 <= i < dependencies.len() && dependencies@[i].1 is Path
            ==> is_provided(r->Ok_0.1.provided@, #[trigger] dependencies@[i].0@),
{
    let mut state = ProviderState { info: Vec::new(), provided: Vec::new() };
    let mut reqs: Vec<(String, String)> = Vec::new();
    let mut i: usize = 0;
    while i < dependencies.len()
        invariant
            i <= dependencies.len(),
            store_wf(store@),
            reqs.len() == i,
            state_wf(state),
            forall|n: Seq<char>| #[trigger] origin_of(state.info@, n) is Some ==> is_provided(state.provided@, n),
            consistent(store@, Seq::empty()) ==> consistent(store@, state.info@),
            forall|x: int| #![trigger reqs@[x]] 0 <= x < i ==> reqs@[x].0@ == dependencies@[x].0@
                && requirement_from(dependencies@[x].0@, dependencies@[x].1@, reqs@[x].1@, store@, state),
        decreases dependencies.len() - i,
    {
        let dep = &dependencies[i];
        let ghost before = state;
        let range = match &dep.1 {
            Recipe::Hex { version } => version.clone(),
            Recipe::Path { path } => match provide_local_package(&dep.0, path, store, &mut state) {
                Ok(x) => x,
                Err(e) => {
                    return Err(e);
                },
            },
            Recipe::Git { git } => match provide_git_package(&dep.0, git, &mut state) {
                Ok(x) => x,
                Err(e) => {
                    return Err(e);
                },
            },
        };
        proof {
            assert(info_grows(before.info@, state.info@));
            assert forall|n: Seq<char>| #[trigger] origin_of(state.info@, n) is Some implies is_provided(state.provided@, n) by {
                if origin_of(before.info@, n) is Some {
                    let j = choose|j: int| 0 <= j < before.provided.len() && before.provided@[j].name@ == n;
                    assert(state.provided@[j] == before.provided@[j]);
                }
            }
            assert forall|x: int| #![trigger reqs@[x]] 0 <= x < i implies reqs@[x].0@ == dependencies@[x].0@ && requirement_from(
                dependencies@[x].0@, dependencies@[x].1@, reqs@[x].1@, store@, state) by {
                assert(requirement_from(dependencies@[x].0@, dependencies@[x].1@, reqs@[x].1@, store@, before));
                if dependencies@[x].1 is Path {
                    assert(origin_of(before.info@, dependencies@[x].0@) is Some);
                }
            }
        }
        let ghost old_reqs = reqs@;
        reqs.push((dep.0.clone(), range));
        proof {
            assert(reqs@[i as int].1@ == range@);
            assert(requirement_from(dependencies@[i as int].0@, dependencies@[i as int].1@, reqs@[i as int].1@, store@, state));
            assert forall|x: int| #![trigger reqs@[x]] 0 <= x < i + 1 implies reqs@[x].0@ == dependencies@[x].0@
                && requirement_from(dependencies@[x].0@, dependencies@[x].1@, reqs@[x].1@, store@, state) by {
                if x < i {
                    assert(reqs@[x] == old_reqs[x]);
                    assert(requirement_from(dependencies@[x].0@, dependencies@[x].1@, old_reqs[x].1@, store@, state));
                } else {
                    assert(reqs@[x].0@ == dependencies@[x].0@);
                }
            }
        }
        i = i + 1;
    }
    proof {
        assert forall|x: int| 0 <= x < dependencies.len() && dependencies@[x].1 is Path implies is_provided(
            state.provided@, #[trigger] dependencies@[x].0@) by {
            assert(requirement_from(dependencies@[x].0@, dependencies@[x].1@, reqs@[x].1@, store@, state));
        }
        assert forall|x: int| 0 <= x < dependencies.len() implies !(#[trigger] dependencies@[x].1 is Git) by {
            assert(reqs@[x].0@ == dependencies@[x].0@);
            assert(requirement_from(dependencies@[x].0@, dependencies@[x].1@, reqs@[x].1@, store@, state));
        }
    }
    Ok((reqs, state))
}

/// Assembles the manifest from the solver's choices, in the solver's order,
/// each looked up with the registry metadata supplied at the same position,
/// and records the declared requirements it was resolved from.
pub fn build_manifest(
    resolved: &Vec<(String, Version)>,
    releases: &Vec<Option<ReleaseMeta>>,
    state: &ProviderState,
    requirements: Vec<(String, Recipe)>,
) -> (r: Result<Manifest, Error>)
    ensures
        resolved.len() != releases.len() ==> r == Err::<Manifest, Error>(Error::ReleaseCountMismatch),
        resolved.len() == releases.len() ==> (r is Ok <==> forall|i: int| 0 <= i < resolved.len()
            ==> #[trigger] looked_up(resolved@[i].0@, resolved@[i].1@, *state, releases@[i]) is Some),
        r is Ok ==> r->Ok_0.requirements == requirements && package_views(r->Ok_0.packages@).len() == resolved.len()
            && forall|i: int| 0 <= i < resolved.len() ==> package_views(r->Ok_0.packages@)[i]
                == looked_up(resolved@[i].0@, resolved@[i].1@, *state, releases@[i])->Some_0,
{
    if resolved.len() != releases.len() {
        return Err(Error::ReleaseCountMismatch);
    }
    let mut packages: Vec<ManifestPackage> = Vec::new();
    let mut i: usize = 0;
    while i < resolved.len()
        invariant
            i <= resolved.len() == releases.len(),
            packages.len() == i,
            forall|x: int| 0 <= x < i ==> #[trigger] looked_up(resolved@[x].0@, resolved@[x].1@, *state, releases@[x]) is Some,
            forall|x: int| 0 <= x < i ==> package_views(packages@)[x]
                == looked_up(resolved@[x].0@, resolved@[x].1@, *state, releases@[x])->Some_0,
        decreases resolved.len() - i,
    {
        let release = match &releases[i] {
            Some(m) => Some(m.duplicate()),
            None => None,
        };
        let ghost wanted = looked_up(resolved@[i as int].0@, resolved@[i as int].1@, *state, releases@[i as int]);
        assert(looked_up(resolved@[i as int].0@, resolved@[i as int].1@, *state, release) == wanted);
        match lookup_package(resolved[i].0.clone(), resolved[i].1.duplicate(), state, release) {
            Ok(p) => {
                let ghost old_packages = packages@;
                packages.push(p);
                assert(package_views(packages@) =~= package_views(old_packages).push(p@));
            },
            Err(e) => {
                return Err(e);
            },
        }
        i = i + 1;
    }
    Ok(Manifest { requirements, packages })
}

/// The recipe of a package added by name: any registry version.
pub open spec fn any_version() -> RecipeView {
    RecipeView::Hex { version: seq!['>', '=', ' ', '0', '.', '0', '.', '0'] }
}

/// The declared recipes after adding each named package in turn with any
/// registry version, replacing an earlier recipe of the same name.
pub open spec fn with_added(m: Map<Seq<char>, RecipeView>, names: Seq<Seq<char>>) -> Map<Seq<char>, RecipeView>
    decreases names.len(),
{
    if names.len() == 0 {
        m
    } else {
        with_added(m, names.drop_last()).insert(names.last(), any_version())
    }
}

fn position_of(dependencies: &Vec<(String, Recipe)>, name: &String) -> (r: Option<usize>)
    ensures
        match r {
            Some(j) => j < dependencies.len() && dependencies@[j as int].0@ == name@,
            None => forall|y: int| 0 <= y < dependencies.len() ==> dependencies@[y].0@ != name@,
        },
{
    let mut j: usize = 0;
    while j < dependencies.len()
        invariant
            j <= dependencies.len(),
            forall|y: int| 0 <= y < j ==> dependencies@[y].0@ != name@,
        decreases dependencies.len() - j,
    {
        if dependencies[j].0.eq(name) {
            return Some(j);
        }
        j = j + 1;
    }
    None
}

/// Adds packages by name to a dependency declaration, each with any registry
/// version.
pub fn add_new_packages(dependencies: &mut Vec<(String, Recipe)>, packages: &Vec<String>)
    requires
        unique_recipe_names(old(dependencies)@),
    ensures
        unique_recipe_names(final(dependencies)@),
        recipe_map(final(dependencies)@) == with_added(recipe_map(old(dependencies)@), texts(packages@)),
{
    let ghost m0 = recipe_map(dependencies@);
    let mut i: usize = 0;
    while i < packages.len()
        invariant
            i <= packages.len(),
            unique_recipe_names(dependencies@),
            recipe_map(dependencies@) == with_added(m0, texts(packages@).subrange(0, i as int)),
        decreases packages.len() - i,
    {
        let name = &packages[i];
        let recipe = Recipe::hex(">= 0.0.0");
        proof {
            reveal_strlit(">= 0.0.0");
            assert(">= 0.0.0"@ =~= seq!['>', '=', ' ', '0', '.', '0', '.', '0']);
            assert(recipe@ == any_version());
            assert(texts(packages@).subrange(0, i + 1).drop_last() =~= texts(packages@).subrange(0, i as int));
        }
        let ghost before = dependencies@;
        let position = position_of(dependencies, name);
        if let Some(j) = position {
            dependencies[j] = (name.clone(), recipe);
            proof {
                lemma_recipe_map(before);
                assert(unique_recipe_names(dependencies@)) by {
                    assert forall|a: int, b: int| 0 <= a < dependencies@.len() && 0 <= b < dependencies@.len() && a != b
                        implies dependencies@[a].0@ != dependencies@[b].0@ by {
                        assert(before[a].0@ != before[b].0@);
                    }
                }
                lemma_recipe_map(dependencies@);
                let after = dependencies@;
                assert forall|k: Seq<char>| recipe_map(after).contains_key(k)
                    <==> recipe_map(before).insert(name@, any_version()).contains_key(k) by {
                    if recipe_map(after).contains_key(k) {
                        let x = choose|x: int| 0 <= x < after.len() && after[x].0@ == k;
                        assert(before[x].0@ == k || x == j);
                    }
                    if recipe_map(before).contains_key(k) {
                        let x = choose|x: int| 0 <= x < before.len() && before[x].0@ == k;
                        assert(after[x].0@ == k || x == j);
                    }
                }
                assert forall|k: Seq<char>| #[trigger] recipe_map(after).contains_key(k) implies recipe_map(after)[k]
                    == recipe_map(before).insert(name@, any_version())[k] by {
                    let x = choose|x: int| 0 <= x < after.len() && after[x].0@ == k;
                    if x != j {
                        assert(after[x] == before[x]);
                    }
                }
                assert(recipe_map(after) =~= recipe_map(before).insert(name@, any_version()));
            }
        } else {
            dependencies.push((name.clone(), recipe));
            proof {
                let after = dependencies@;
                assert(after.drop_last() =~= before);
                assert forall|a: int, b: int| 0 <= a < after.len() && 0 <= b < after.len() && a != b
                    implies after[a].0@ != after[b].0@ by {
                    if a < before.len() && b < before.len() {
                        assert(before[a].0@ != before[b].0@);
                    } else if a < before.len() {
                        assert(after[a] == before[a]);
                    } else {
                        assert(after[b] == before[b]);
                    }
                }
            }
        }
        i = i + 1;
    }
    assert(texts(packages@).subrange(0, i as int) =~= texts(packages@));
}

/// A name whose declared recipe is not the one the prior manifest was
/// resolved from: its prior version no longer holds.
pub open spec fn requirement_changed(
    name: Seq<char>,
    declared: Seq<(String, Recipe)>,
    prior: Seq<(String, Recipe)>,
) -> bool {
    exists|j: int| 0 <= j < declared.len() && declared[j].0@ == name && !has_entry(prior, name, declared[j].1@)
}

/// The prior versions that still hold, as (name, version) in the prior
/// manifest's order.
pub open spec fn still_locked(
    packages: Seq<(Seq<char>, VersionView)>,
    declared: Seq<(String, Recipe)>,
    prior: Seq<(String, Recipe)>,
) -> Seq<(Seq<char>, VersionView)> {
    packages.filter(|x: (Seq<char>, VersionView)| !requirement_changed(x.0, declared, prior))
}

fn changed(name: &String, declared: &Vec<(String, Recipe)>, prior: &Vec<(String, Recipe)>) -> (r: bool)
    ensures
        r == requirement_changed(name@, declared@, prior@),
{
    let mut j: usize = 0;
    while j < declared.len()
        invariant
            j <= declared.len(),
            forall|y: int| 0 <= y < j ==> !(declared@[y].0@ == name@ && !has_entry(prior@, name@, declared@[y].1@)),
        decreases declared.len() - j,
    {
        if declared[j].0.eq(name) && !declares(prior, name, &declared[j].1) {
            return true;
        }
        j = j + 1;
    }
    false
}

/// The versions of a prior manifest offered to the solver as locked: every
/// package whose name's declared recipe is unchanged since that manifest was
/// resolved, or which is not declared directly.
pub fn locked_versions(prior: &Manifest, declared: &Vec<(String, Recipe)>) -> (r: Vec<(String, Version)>)
    ensures
        entry_pairs(r@) == still_locked(package_pairs(prior.packages@), declared@, prior.requirements@),
{
    let ghost pp = package_pairs(prior.packages@);
    let ghost pred = |x: (Seq<char>, VersionView)| !requirement_changed(x.0, declared@, prior.requirements@);
    let mut r: Vec<(String, Version)> = Vec::new();
    let mut i: usize = 0;
    while i < prior.packages.len()
        invariant
            i <= prior.packages.len(),
            pp == package_pairs(prior.packages@),
            pred == (|x: (Seq<char>, VersionView)| !requirement_changed(x.0, declared@, prior.requirements@)),
            entry_pairs(r@) == pp.subrange(0, i as int).filter(pred),
        decreases prior.packages.len() - i,
    {
        let p = &prior.packages[i];
        let c = changed(&p.name, declared, &prior.requirements);
        proof {
            assert(pp.subrange(0, i + 1) =~= pp.subrange(0, i as int).push(pp[i as int]));
            pp.subrange(0, i as int).lemma_filter_push(pp[i as int], pred);
        }
        if !c {
            let ghost before = r@;
            r.push((p.name.clone(), p.version.duplicate()));
            assert(entry_pairs(r@) =~= entry_pairs(before).push(pp[i as int]));
        }
        i = i + 1;
    }
    assert(pp.subrange(0, i as int) =~= pp);
    r
}

} // verus!
