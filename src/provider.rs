use vstd::prelude::*;
use vstd::string::StringExecFns;

use crate::error::Error;
use crate::manifest::{Recipe, RecipeView};
use crate::version::{version_text, Version};

verus! {

broadcast use vstd::seq_lib::group_seq_properties, vstd::set_lib::group_set_lib_default;

/// Where a non-registry package was found.
#[derive(Debug, Clone, PartialEq, Eq)]
pub enum ProviderInfo {
    Git { repo: String, commit: String },
    Local { path: String },
}

pub enum ProviderInfoView {
    Git { repo: Seq<char>, commit: Seq<char> },
    Local { path: Seq<char> },
}

impl View for ProviderInfo {
    type V = ProviderInfoView;

    open spec fn view(&self) -> ProviderInfoView {
        match self {
            ProviderInfo::Git { repo, commit } => ProviderInfoView::Git {
                repo: repo@,
                commit: commit@,
            },
            ProviderInfo::Local { path } => ProviderInfoView::Local { path: path@ },
        }
    }
}

/// The configuration of a local package, as read from its directory: the
/// canonical path it was read at, its declared name and version, and its
/// dependencies, each local path among them already canonical.
#[derive(Debug, Clone)]
pub struct LocalConfig {
    pub path: String,
    pub name: String,
    pub version: Version,
    pub dependencies: Vec<(String, Recipe)>,
}

/// A registry-shaped package synthesised for a local package: one release,
/// with its requirements as (name, version range) pairs.
#[derive(Debug, Clone)]
pub struct ProvidedPackage {
    pub name: String,
    pub version: Version,
    pub requirements: Vec<(String, String)>,
}

/// What the walk over local dependencies has found so far: the origin of
/// each non-registry name, and the packages provided to the solver.
#[derive(Debug, Clone)]
pub struct ProviderState {
    pub info: Vec<(String, ProviderInfo)>,
    pub provided: Vec<ProvidedPackage>,
}

/// The origin recorded for a name, the latest one if there are several.
pub open spec fn origin_of(info: Seq<(String, ProviderInfo)>, name: Seq<char>) -> Option<ProviderInfoView>
    decreases info.len(),
{
    if info.len() == 0 {
        None
    } else if info.last().0@ == name {
        Some(info.last().1@)
    } else {
        origin_of(info.drop_last(), name)
    }
}

/// The names that have an origin.
pub open spec fn registered(info: Seq<(String, ProviderInfo)>) -> Set<Seq<char>> {
    Set::new(|n: Seq<char>| origin_of(info, n) is Some)
}

/// The names declared by the loaded configurations.
pub open spec fn store_names(store: Seq<LocalConfig>) -> Set<Seq<char>> {
    store.map_values(|c: LocalConfig| c.name@).to_set()
}

/// How many loaded packages the walk has not registered yet.
pub open spec fn unwalked(store: Seq<LocalConfig>, info: Seq<(String, ProviderInfo)>) -> nat {
    store_names(store).difference(registered(info)).len()
}

/// No two loaded configurations share a path.
pub open spec fn store_wf(store: Seq<LocalConfig>) -> bool {
    forall|i: int, j: int| 0 <= i < store.len() && 0 <= j < store.len() && i != j
        ==> (#[trigger] store[i]).path@ != (#[trigger] store[j]).path@
}

/// The index of the configuration loaded at a path, if there is one.
pub open spec fn config_index(store: Seq<LocalConfig>, path: Seq<char>) -> Option<int> {
    if exists|i: int| 0 <= i < store.len() && store[i].path@ == path {
        Some(choose|i: int| 0 <= i < store.len() && store[i].path@ == path)
    } else {
        None
    }
}

/// The version range that admits exactly one version: `== <version>`.
pub open spec fn exact_range(v: crate::version::VersionView) -> Seq<char> {
    seq!['=', '=', ' '] + version_text(v)
}

/// Whether a package of this name is among the provided packages.
pub open spec fn is_provided(provided: Seq<ProvidedPackage>, name: Seq<char>) -> bool {
    exists|i: int| 0 <= i < provided.len() && provided[i].name@ == name
}

/// Every name recorded before keeps its origin.
pub open spec fn info_grows(before: Seq<(String, ProviderInfo)>, after: Seq<(String, ProviderInfo)>) -> bool {
    forall|n: Seq<char>| #[trigger] origin_of(before, n) is Some ==> origin_of(after, n) == origin_of(before, n)
}

proof fn lemma_info_grows_trans(
    a: Seq<(String, ProviderInfo)>,
    b: Seq<(String, ProviderInfo)>,
    c: Seq<(String, ProviderInfo)>,
)
    requires
        info_grows(a, b),
        info_grows(b, c),
    ensures
        info_grows(a, c),
{
    assert forall|n: Seq<char>| #[trigger] origin_of(a, n) is Some implies origin_of(c, n) == origin_of(a, n) by {
        assert(origin_of(b, n) is Some);
    }
}

proof fn lemma_unwalked_monotone(
    store: Seq<LocalConfig>,
    before: Seq<(String, ProviderInfo)>,
    after: Seq<(String, ProviderInfo)>,
)
    requires
        info_grows(before, after),
    ensures
        unwalked(store, after) <= unwalked(store, before),
{
    let s = store_names(store);
    assert(s.difference(registered(after)).subset_of(s.difference(registered(before))));
    vstd::set_lib::lemma_len_subset(s.difference(registered(after)), s.difference(registered(before)));
}

proof fn lemma_unwalked_register(
    store: Seq<LocalConfig>,
    info: Seq<(String, ProviderInfo)>,
    entry: (String, ProviderInfo),
    k: int,
)
    requires
        0 <= k < store.len(),
        store[k].name@ == entry.0@,
        origin_of(info, entry.0@) is None,
    ensures
        unwalked(store, info.push(entry)) < unwalked(store, info),
        info_grows(info, info.push(entry)),
{
    let s = store_names(store);
    let n = entry.0@;
    let bigger = info.push(entry);
    assert(bigger.drop_last() =~= info);
    assert(store.map_values(|c: LocalConfig| c.name@)[k] == n);
    assert(s.contains(n));
    assert(s.difference(registered(bigger)) =~= s.difference(registered(info)).remove(n));
    assert forall|m: Seq<char>| #[trigger] origin_of(info, m) is Some implies origin_of(bigger, m)
        == origin_of(info, m) by {
        assert(m != n);
    }
}

/// The origin recorded for a name.
pub(crate) fn find_origin<'a>(info: &'a Vec<(String, ProviderInfo)>, name: &String) -> (r: Option<&'a ProviderInfo>)
    ensures
        match r {
            Some(o) => origin_of(info@, name@) == Some(o@),
            None => origin_of(info@, name@) is None,
        },
{
    let mut i: usize = info.len();
    assert(info@.subrange(0, i as int) =~= info@);
    while i > 0
        invariant
            i <= info.len(),
            origin_of(info@, name@) == origin_of(info@.subrange(0, i as int), name@),
        decreases i,
    {
        let ghost prefix = info@.subrange(0, i as int);
        assert(prefix.drop_last() =~= info@.subrange(0, i - 1));
        if info[i - 1].0.eq(name) {
            return Some(&info[i - 1].1);
        }
        i = i - 1;
    }
    None
}

/// The configuration loaded at a path.
fn find_config(store: &Vec<LocalConfig>, path: &String) -> (r: Option<usize>)
    requires
        store_wf(store@),
    ensures
        match r {
            Some(k) => config_index(store@, path@) == Some(k as int),
            None => config_index(store@, path@) is None,
        },
{
    let mut i: usize = 0;
    while i < store.len()
        invariant
            i <= store.len(),
            store_wf(store@),
            forall|j: int| 0 <= j < i ==> store@[j].path@ != path@,
        decreases store.len() - i,
    {
        if store[i].path.eq(path) {
            proof {
                assert(store@[i as int].path@ == path@);
                assert(exists|j: int| 0 <= j < store.len() && store@[j].path@ == path@);
                let j = choose|j: int| 0 <= j < store.len() && store@[j].path@ == path@;
                if j != i {
                    assert(store@[i as int].path@ != store@[j].path@);
                }
            }
            return Some(i);
        }
        i = i + 1;
    }
    None
}

/// The range `== <version>` for a version.
pub fn exact_requirement(v: &Version) -> (r: String)
    ensures
        r@ == exact_range(v@),
{
    let mut r = String::from_str("== ");
    let t = v.to_text();
    r.append(t.as_str());
    proof {
        reveal_strlit("== ");
    }
    r
}

/// The synthesised packages only grow: every earlier entry stays in place.
pub open spec fn provided_extends(before: Seq<ProvidedPackage>, after: Seq<ProvidedPackage>) -> bool {
    before.len() <= after.len() && forall|j: int| 0 <= j < before.len() ==> after[j] == before[j]
}

/// Every package added after `before` has a name that had no origin in `info`.
pub open spec fn additions_fresh(
    info: Seq<(String, ProviderInfo)>,
    before: Seq<ProvidedPackage>,
    after: Seq<ProvidedPackage>,
) -> bool {
    forall|j: int| before.len() <= j < after.len() ==> origin_of(info, #[trigger] after[j].name@) is None
}

/// Every name that gained an origin is provided.
pub open spec fn registrations_provided(
    before: Seq<(String, ProviderInfo)>,
    after: Seq<(String, ProviderInfo)>,
    provided: Seq<ProvidedPackage>,
) -> bool {
    forall|n: Seq<char>| origin_of(before, n) is None && #[trigger] origin_of(after, n) is Some ==> is_provided(provided, n)
}

/// The walk state is well formed: no two provided packages share a name,
/// and every provided package has a recorded origin.
pub open spec fn state_wf(s: ProviderState) -> bool {
    &&& forall|i: int, j: int| 0 <= i < s.provided.len() && 0 <= j < s.provided.len() && i != j
        ==> (#[trigger] s.provided@[i]).name@ != (#[trigger] s.provided@[j]).name@
    &&& forall|j: int| 0 <= j < s.provided.len() ==> origin_of(s.info@, #[trigger] s.provided@[j].name@) is Some
}

/// The requirement that the walk gave a declared recipe: a registry range as
/// declared, a local path pinned to the exact version of the package loaded
/// there and recorded as that name's origin. A version control recipe never
/// gives one.
pub open spec fn requirement_from(
    name: Seq<char>,
    recipe: RecipeView,
    range: Seq<char>,
    store: Seq<LocalConfig>,
    state: ProviderState,
) -> bool {
    match recipe {
        RecipeView::Hex { version } => range == version,
        RecipeView::Path { path } => origin_of(state.info@, name) == Some(ProviderInfoView::Local { path })
            && exists|k: int| config_index(store, path) == Some(k) && range == exact_range(store[k].version@),
        RecipeView::Git { .. } => false,
    }
}

/// The package synthesised for the configuration `c`: its name and version,
/// and one requirement per dependency, in order.
pub open spec fn provided_record(p: ProvidedPackage, c: LocalConfig, store: Seq<LocalConfig>, state: ProviderState) -> bool {
    &&& p.name@ == c.name@
    &&& p.version@ == c.version@
    &&& p.requirements.len() == c.dependencies.len()
    &&& forall|i: int| #![trigger p.requirements@[i]] 0 <= i < p.requirements.len()
        ==> p.requirements@[i].0@ == c.dependencies@[i].0@
            && requirement_from(c.dependencies@[i].0@, c.dependencies@[i].1@, p.requirements@[i].1@, store, state)
}

/// The loaded configurations can be walked without failure: every path
/// dependency leads to a loaded package of the expected name, none is a
/// version control dependency, no name is loaded at two paths, and every
/// recorded origin is the path of the package of that name.
pub open spec fn consistent(store: Seq<LocalConfig>, info: Seq<(String, ProviderInfo)>) -> bool {
    &&& forall|c: int, i: int| #![trigger store[c].dependencies@[i]]
        0 <= c < store.len() && 0 <= i < store[c].dependencies.len() ==> {
            let d = store[c].dependencies@[i];
            &&& !(d.1 is Git)
            &&& (d.1 is Path ==> exists|k: int| config_index(store, d.1->Path_path@) == Some(k) && store[k].name@ == d.0@)
        }
    &&& forall|i: int, j: int| 0 <= i < store.len() && 0 <= j < store.len() && i != j
        ==> (#[trigger] store[i]).name@ != (#[trigger] store[j]).name@
    &&& forall|n: Seq<char>| #[trigger] origin_of(info, n) is Some ==> exists|k: int|
        0 <= k < store.len() && store[k].name@ == n && origin_of(info, n) == Some(ProviderInfoView::Local { path: store[k].path@ })
}

proof fn lemma_extends_chain(
    info0: Seq<(String, ProviderInfo)>,
    info1: Seq<(String, ProviderInfo)>,
    p0: Seq<ProvidedPackage>,
    p1: Seq<ProvidedPackage>,
    p2: Seq<ProvidedPackage>,
)
    requires
        info_grows(info0, info1),
        provided_extends(p0, p1),
        additions_fresh(info0, p0, p1),
        provided_extends(p1, p2),
        additions_fresh(info1, p1, p2),
    ensures
        provided_extends(p0, p2),
        additions_fresh(info0, p0, p2),
{
    assert forall|j: int| p0.len() <= j < p2.len() implies origin_of(info0, #[trigger] p2[j].name@) is None by {
        if j < p1.len() {
            assert(p2[j] == p1[j]);
        } else {
            assert(origin_of(info1, p2[j].name@) is None);
        }
    }
}

proof fn lemma_provided_persists(p1: Seq<ProvidedPackage>, p2: Seq<ProvidedPackage>, n: Seq<char>)
    requires
        provided_extends(p1, p2),
        is_provided(p1, n),
    ensures
        is_provided(p2, n),
{
    let j = choose|j: int| 0 <= j < p1.len() && p1[j].name@ == n;
    assert(p2[j] == p1[j]);
}

/// Registers a version control dependency. Such dependencies are not
/// supported. A name that already has another origin is a conflict, and the
/// state is left as it was. A new name is recorded with its repository,
/// so that a later local definition of it conflicts, and the call fails.
pub fn provide_git_package(name: &String, repo: &String, state: &mut ProviderState) -> (r: Result<String, Error>)
    requires
        state_wf(*old(state)),
    ensures
        state_wf(*final(state)),
        final(state).provided == old(state).provided,
        info_grows(old(state).info@, final(state).info@),
        origin_of(final(state).info@, name@) is Some,
        origin_of(old(state).info@, name@) is Some && !(origin_of(old(state).info@, name@) matches Some(
            ProviderInfoView::Git { repo: rp, .. },
        ) && rp == repo@) ==> r == Err::<String, Error>(Error::ConflictingDefinition { name: *name })
            && *final(state) == *old(state),
        origin_of(old(state).info@, name@) matches Some(ProviderInfoView::Git { repo: rp, .. }) && rp == repo@
            ==> r == Err::<String, Error>(Error::GitUnsupported { name: *name }) && *final(state) == *old(state),
        origin_of(old(state).info@, name@) is None ==> r == Err::<String, Error>(Error::GitUnsupported { name: *name })
            && final(state).info@.len() == old(state).info@.len() + 1
            && final(state).info@.drop_last() == old(state).info@
            && final(state).info@.last().0 == *name
            && final(state).info@.last().1@ == (ProviderInfoView::Git { repo: repo@, commit: Seq::empty() }),
{
    let same = match find_origin(&state.info, name) {
        Some(ProviderInfo::Git { repo: rp, .. }) => Some(rp.eq(repo)),
        Some(ProviderInfo::Local { .. }) => Some(false),
        None => None,
    };
    match same {
        Some(false) => Err(Error::ConflictingDefinition { name: name.clone() }),
        Some(true) => Err(Error::GitUnsupported { name: name.clone() }),
        None => {
            let entry = (name.clone(), ProviderInfo::Git { repo: repo.clone(), commit: String::new() });
            let ghost before = state.info@;
            state.info.push(entry);
            proof {
                assert(state.info@.drop_last() =~= before);
                assert forall|m: Seq<char>| #[trigger] origin_of(before, m) is Some implies origin_of(state.info@, m)
                    == origin_of(before, m) by {
                    assert(m != name@);
                }
                assert forall|j: int| 0 <= j < state.provided.len() implies origin_of(state.info@,
                    #[trigger] state.provided@[j].name@) is Some by {
                    assert(origin_of(before, state.provided@[j].name@) is Some);
                }
            }
            Err(Error::GitUnsupported { name: name.clone() })
        },
    }
}

/// Walks a local path dependency. Where the name already has an origin,
/// a different one is a conflict, and the same path is not walked again:
/// only the version of its loaded configuration is read. Otherwise the
/// configuration loaded at the path must declare the expected name; the
/// name is recorded, the package's own dependencies are walked, and it is
/// provided to the solver. The result pins the package to its version.
/// A failure before the walk starts leaves the state as it was.
pub fn provide_local_package(
    name: &String,
    path: &String,
    store: &Vec<LocalConfig>,
    state: &mut ProviderState,
) -> (r: Result<String, Error>)
    requires
        store_wf(store@),
        state_wf(*old(state)),
    ensures
        state_wf(*final(state)),
        info_grows(old(state).info@, final(state).info@),
        provided_extends(old(state).provided@, final(state).provided@),
        additions_fresh(old(state).info@, old(state).provided@, final(state).provided@),
        r is Ok && consistent(store@, old(state).info@) ==> consistent(store@, final(state).info@),
        origin_of(old(state).info@, name@) is Some && origin_of(old(state).info@, name@) != Some(
            ProviderInfoView::Local { path: path@ },
        ) ==> r == Err::<String, Error>(Error::ConflictingDefinition { name: *name })
            && *final(state) == *old(state),
        origin_of(old(state).info@, name@) == Some(ProviderInfoView::Local { path: path@ })
            ==> *final(state) == *old(state) && match config_index(store@, path@) {
                Some(k) => r is Ok && r->Ok_0@ == exact_range(store@[k].version@),
                None => r == Err::<String, Error>(Error::ConfigNotLoaded { path: *path }),
            },
        origin_of(old(state).info@, name@) is None ==> match config_index(store@, path@) {
            None => r == Err::<String, Error>(Error::ConfigNotLoaded { path: *path }) && *final(state) == *old(state),
            Some(k) => if store@[k].name@ != name@ {
                r == Err::<String, Error>(Error::NameMismatch { expected: *name, found: store@[k].name })
                    && origin_of(final(state).info@, name@) == Some(ProviderInfoView::Local { path: path@ })
                    && final(state).provided == old(state).provided
            } else {
                &&& origin_of(final(state).info@, name@) == Some(ProviderInfoView::Local { path: path@ })
                &&& r is Ok ==> exists|j: int| 0 <= j < final(state).provided.len()
                    && provided_record(final(state).provided@[j], store@[k], store@, *final(state))
                &&& (exists|i: int| 0 <= i < store@[k].dependencies.len() && (#[trigger] store@[k].dependencies@[i]).1 is Git)
                    ==> r is Err
                &&& r is Err ==> forall|j: int| old(state).provided.len() <= j < final(state).provided.len()
                    ==> (#[trigger] final(state).provided@[j]).name@ != name@
            },
        },
        r is Ok ==> origin_of(final(state).info@, name@) == Some(ProviderInfoView::Local { path: path@ })
            && registrations_provided(old(state).info@, final(state).info@, final(state).provided@)
            && exists|k: int| config_index(store@, path@) == Some(k)
                && r->Ok_0@ == exact_range(store@[k].version@),
        consistent(store@, old(state).info@) && (exists|k: int| config_index(store@, path@) == Some(k)
            && store@[k].name@ == name@) ==> r is Ok,
    decreases 2 * unwalked(store@, old(state).info@),
{
    let found = match find_origin(&state.info, name) {
        Some(ProviderInfo::Local { path: p }) => Some(p.eq(path)),
        Some(ProviderInfo::Git { .. }) => Some(false),
        None => None,
    };
    match found {
        Some(false) => {
            proof {
                if consistent(store@, state.info@) && exists|k: int| config_index(store@, path@) == Some(k)
                    && store@[k].name@ == name@ {
                    let k = choose|k: int| config_index(store@, path@) == Some(k) && store@[k].name@ == name@;
                    let k2 = choose|k2: int| 0 <= k2 < store.len() && store@[k2].name@ == name@
                        && origin_of(state.info@, name@) == Some(ProviderInfoView::Local { path: store@[k2].path@ });
                    if k2 != k {
                        assert(store@[k].name@ != store@[k2].name@);
                    }
                }
            }
            Err(Error::ConflictingDefinition { name: name.clone() })
        },
        Some(true) => match find_config(store, path) {
            Some(k) => Ok(exact_requirement(&store[k].version)),
            None => Err(Error::ConfigNotLoaded { path: path.clone() }),
        },
        None => match find_config(store, path) {
            None => Err(Error::ConfigNotLoaded { path: path.clone() }),
            Some(k) => {
                let entry = (name.clone(), ProviderInfo::Local { path: path.clone() });
                let ghost before = state.info@;
                let ghost old_state = *state;
                state.info.push(entry);
                proof {
                    assert(state.info@.drop_last() =~= before);
                    assert forall|m: Seq<char>| #[trigger] origin_of(before, m) is Some implies origin_of(state.info@, m)
                        == origin_of(before, m) by {
                        assert(m != name@);
                    }
                    assert forall|j: int| 0 <= j < state.provided.len() implies origin_of(state.info@,
                        #[trigger] state.provided@[j].name@) is Some by {
                        assert(origin_of(before, state.provided@[j].name@) is Some);
                    }
                }
                if !store[k].name.eq(name) {
                    return Err(Error::NameMismatch { expected: name.clone(), found: store[k].name.clone() });
                }
                proof {
                    lemma_unwalked_register(store@, before, entry, k as int);
                    assert forall|j: int| 0 <= j < state.provided.len() implies origin_of(state.info@,
                        #[trigger] state.provided@[j].name@) is Some by {
                        assert(origin_of(before, state.provided@[j].name@) is Some);
                    }
                    assert forall|j: int| 0 <= j < state.provided.len() implies state.provided@[j].name@ != name@ by {
                        assert(origin_of(before, state.provided@[j].name@) is Some);
                    }
                    if consistent(store@, before) {
                        assert forall|n: Seq<char>| #[trigger] origin_of(state.info@, n) is Some implies exists|kk: int|
                            0 <= kk < store.len() && store@[kk].name@ == n && origin_of(state.info@, n)
                                == Some(ProviderInfoView::Local { path: store@[kk].path@ }) by {
                            if n == name@ {
                                assert(store@[k as int].name@ == n);
                            } else {
                                assert(origin_of(before, n) is Some);
                            }
                        }
                    }
                }
                let r = provide_package(k, store, state);
                proof {
                    assert(origin_of(state.info@, name@) == Some(ProviderInfoView::Local { path: path@ }));
                    assert forall|n: Seq<char>| origin_of(before, n) is None && #[trigger] origin_of(state.info@, n) is Some
                        && r is Ok implies is_provided(state.provided@, n) by {
                        if n == name@ {
                            let j = choose|j: int| 0 <= j < state.provided.len()
                                && provided_record(state.provided@[j], store@[k as int], store@, *state);
                            assert(state.provided@[j].name@ == n);
                        } else {
                            assert(origin_of(before.push(entry), n) is None);
                        }
                    }
                    if r is Ok {
                        assert(registrations_provided(old_state.info@, state.info@, state.provided@));
                    }
                    assert forall|j: int| old_state.provided.len() <= j < state.provided.len() implies origin_of(
                        old_state.info@, #[trigger] state.provided@[j].name@) is None by {
                        if state.provided@[j].name@ != name@ {
                            assert(origin_of(before.push(entry), state.provided@[j].name@) is None);
                        }
                    }
                }
                r
            },
        },
    }
}

/// Walks the dependencies of the package loaded at `k`, whose name has just
/// been recorded, and provides it to the solver with one release that
/// carries those requirements.
fn provide_package(k: usize, store: &Vec<LocalConfig>, state: &mut ProviderState) -> (r: Result<String, Error>)
    requires
        store_wf(store@),
        k < store.len(),
        state_wf(*old(state)),
        origin_of(old(state).info@, store@[k as int].name@) is Some,
        forall|j: int| 0 <= j < old(state).provided.len() ==> (#[trigger] old(state).provided@[j]).name@ != store@[k as int].name@,
    ensures
        state_wf(*final(state)),
        info_grows(old(state).info@, final(state).info@),
        provided_extends(old(state).provided@, final(state).provided@),
        forall|j: int| old(state).provided.len() <= j < final(state).provided.len()
            ==> origin_of(old(state).info@, #[trigger] final(state).provided@[j].name@) is None
                || final(state).provided@[j].name@ == store@[k as int].name@,
        r is Ok && consistent(store@, old(state).info@) ==> consistent(store@, final(state).info@),
        r is Ok ==> r->Ok_0@ == exact_range(store@[k as int].version@)
            && registrations_provided(old(state).info@, final(state).info@, final(state).provided@)
            && final(state).provided.len() > 0
            && provided_record(final(state).provided@.last(), store@[k as int], store@, *final(state)),
        (exists|i: int| 0 <= i < store@[k as int].dependencies.len()
            && (#[trigger] store@[k as int].dependencies@[i]).1 is Git) ==> r is Err,
        r is Err ==> forall|j: int| old(state).provided.len() <= j < final(state).provided.len()
            ==> (#[trigger] final(state).provided@[j]).name@ != store@[k as int].name@,
        consistent(store@, old(state).info@) ==> r is Ok,
    decreases 2 * unwalked(store@, old(state).info@) + 1,
{
    let ghost info0 = state.info@;
    let ghost provided0 = state.provided@;
    let cfg = &store[k];
    let mut requirements: Vec<(String, String)> = Vec::new();
    let mut i: usize = 0;
    while i < cfg.dependencies.len()
        invariant
            store_wf(store@),
            k < store.len(),
            *cfg == store@[k as int],
            info0 == old(state).info@,
            provided0 == old(state).provided@,
            state_wf(*state),
            origin_of(info0, cfg.name@) is Some,
            forall|j: int| 0 <= j < provided0.len() ==> (#[trigger] provided0[j]).name@ != cfg.name@,
            info_grows(info0, state.info@),
            provided_extends(provided0, state.provided@),
            additions_fresh(info0, provided0, state.provided@),
            registrations_provided(info0, state.info@, state.provided@),
            unwalked(store@, state.info@) <= unwalked(store@, info0),
            consistent(store@, info0) ==> consistent(store@, state.info@),
            requirements.len() == i,
            i <= cfg.dependencies.len(),
            forall|x: int| #![trigger requirements@[x]] 0 <= x < i ==> requirements@[x].0@ == cfg.dependencies@[x].0@
                && requirement_from(cfg.dependencies@[x].0@, cfg.dependencies@[x].1@, requirements@[x].1@, store@, *state),
        decreases cfg.dependencies.len() - i,
    {
        let dep = &cfg.dependencies[i];
        let ghost s1 = *state;
        let ghost info1 = state.info@;
        let range = match &dep.1 {
            Recipe::Hex { version } => version.clone(),
            Recipe::Path { path } => {
                let res = provide_local_package(&dep.0, path, store, state);
                match res {
                    Ok(x) => x,
                    Err(e) => {
                        proof {
                            lemma_info_grows_trans(info0, info1, state.info@);
                            lemma_extends_chain(info0, info1, provided0, s1.provided@, state.provided@);
                        }
                        return Err(e);
                    },
                }
            },
            Recipe::Git { git } => {
                match provide_git_package(&dep.0, git, state) {
                    Ok(x) => x,
                    Err(e) => {
                        proof {
                            lemma_info_grows_trans(info0, info1, state.info@);
                            assert(state.provided@ =~= s1.provided@);
                        }
                        return Err(e);
                    },
                }
            },
        };
        proof {
            lemma_info_grows_trans(info0, info1, state.info@);
            lemma_unwalked_monotone(store@, info0, state.info@);
            lemma_extends_chain(info0, info1, provided0, s1.provided@, state.provided@);
            assert forall|n: Seq<char>| origin_of(info0, n) is None && #[trigger] origin_of(state.info@, n) is Some
                implies is_provided(state.provided@, n) by {
                if origin_of(info1, n) is Some {
                    lemma_provided_persists(s1.provided@, state.provided@, n);
                }
            }
            assert forall|x: int| #![trigger requirements@[x]] 0 <= x < i implies requirements@[x].0@ == cfg.dependencies@[x].0@
                && requirement_from(cfg.dependencies@[x].0@, cfg.dependencies@[x].1@, requirements@[x].1@, store@, *state) by {
                assert(requirement_from(cfg.dependencies@[x].0@, cfg.dependencies@[x].1@, requirements@[x].1@, store@, s1));
                if cfg.dependencies@[x].1 is Path {
                    assert(origin_of(info1, cfg.dependencies@[x].0@) is Some);
                }
            }
        }
        let ghost old_reqs = requirements@;
        requirements.push((dep.0.clone(), range));
        proof {
            assert forall|x: int| #![trigger requirements@[x]] 0 <= x < i + 1 implies requirements@[x].0@ == cfg.dependencies@[x].0@
                && requirement_from(cfg.dependencies@[x].0@, cfg.dependencies@[x].1@, requirements@[x].1@, store@, *state) by {
                if x < i {
                    assert(requirements@[x] == old_reqs[x]);
                    assert(requirement_from(cfg.dependencies@[x].0@, cfg.dependencies@[x].1@, old_reqs[x].1@, store@, *state));
                }
            }
        }
        i = i + 1;
    }
    proof {
        assert forall|x: int| 0 <= x < cfg.dependencies.len() implies !((#[trigger] cfg.dependencies@[x]).1 is Git) by {
            assert(requirement_from(cfg.dependencies@[x].0@, cfg.dependencies@[x].1@, requirements@[x].1@, store@, *state));
        }
    }
    let exact = exact_requirement(&cfg.version);
    let package = ProvidedPackage {
        name: cfg.name.clone(),
        version: cfg.version.duplicate(),
        requirements,
    };
    let ghost before = *state;
    state.provided.push(package);
    proof {
        let p1 = before.provided@;
        let p2 = state.provided@;
        assert(p2.drop_last() =~= p1);
        assert forall|j: int| 0 <= j < p1.len() implies p1[j].name@ != cfg.name@ by {
            if j >= provided0.len() {
                assert(origin_of(info0, p1[j].name@) is None);
            }
        }
        assert forall|a: int, b: int| 0 <= a < p2.len() && 0 <= b < p2.len() && a != b
            implies (#[trigger] p2[a]).name@ != (#[trigger] p2[b]).name@ by {
            if a < p1.len() && b < p1.len() {
                assert(p1[a].name@ != p1[b].name@);
            } else if a < p1.len() {
                assert(p2[a] == p1[a]);
            } else {
                assert(p2[b] == p1[b]);
            }
        }
        assert forall|j: int| 0 <= j < p2.len() implies origin_of(state.info@, #[trigger] p2[j].name@) is Some by {
            if j < p1.len() {
                assert(p2[j] == p1[j]);
            } else {
                assert(origin_of(info0, cfg.name@) is Some);
            }
        }
        assert forall|n: Seq<char>| origin_of(info0, n) is None && #[trigger] origin_of(state.info@, n) is Some
            implies is_provided(p2, n) by {
            lemma_provided_persists(p1, p2, n);
        }
        assert(p2.last() == package);
        assert forall|x: int| #![trigger package.requirements@[x]] 0 <= x < package.requirements.len()
            implies package.requirements@[x].0@ == cfg.dependencies@[x].0@
                && requirement_from(cfg.dependencies@[x].0@, cfg.dependencies@[x].1@, package.requirements@[x].1@, store@, *state) by {
            assert(requirement_from(cfg.dependencies@[x].0@, cfg.dependencies@[x].1@, package.requirements@[x].1@, store@, before));
        }
        assert forall|j: int| provided0.len() <= j < p2.len() implies origin_of(info0, #[trigger] p2[j].name@) is None
            || p2[j].name@ == cfg.name@ by {
            if j < p1.len() {
                assert(p2[j] == p1[j]);
            }
        }
    }
    Ok(exact)
}

} // verus!
