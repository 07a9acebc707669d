use vstd::prelude::*;

use crate::manifest::{package_pairs, Manifest, ManifestPackage, ManifestPackageView};
use crate::version::{Version, VersionView};

verus! {

broadcast use vstd::seq_lib::group_seq_properties;

/// The packages materialised on disk: each name with the version present.
#[derive(Debug, Clone)]
pub struct LocalPackages {
    pub packages: Vec<(String, Version)>,
}

/// The (name, version) pairs of a list of entries.
pub open spec fn entry_pairs(e: Seq<(String, Version)>) -> Seq<(Seq<char>, VersionView)> {
    e.map_values(|x: (String, Version)| (x.0@, x.1@))
}

/// The views of a sequence of packages.
pub open spec fn package_views(ps: Seq<ManifestPackage>) -> Seq<ManifestPackageView> {
    ps.map_values(|p: ManifestPackage| p@)
}

/// The local pairs that the manifest does not hold, exactly as they are.
pub open spec fn extra_pairs(
    local: Seq<(Seq<char>, VersionView)>,
    manifest: Seq<(Seq<char>, VersionView)>,
) -> Seq<(Seq<char>, VersionView)> {
    local.filter(|x: (Seq<char>, VersionView)| !manifest.contains(x))
}

/// A manifest package must be fetched: it is not the root package, and its
/// exact name and version are not present locally.
pub open spec fn is_missing(
    local: Seq<(Seq<char>, VersionView)>,
    root: Seq<char>,
    p: ManifestPackageView,
) -> bool {
    p.name != root && !local.contains((p.name, p.version))
}

/// The manifest packages that must be fetched, in the manifest's order.
pub open spec fn missing_packages(
    local: Seq<(Seq<char>, VersionView)>,
    manifest: Seq<ManifestPackageView>,
    root: Seq<char>,
) -> Seq<ManifestPackageView> {
    manifest.filter(|p: ManifestPackageView| is_missing(local, root, p))
}

proof fn lemma_filter_membership<A>(s: Seq<A>, p: spec_fn(A) -> bool, x: A)
    ensures
        s.filter(p).contains(x) <==> s.contains(x) && p(x),
{
    if s.filter(p).contains(x) {
        let k = choose|k: int| 0 <= k < s.filter(p).len() && s.filter(p)[k] == x;
        s.lemma_filter_pred(p, k);
        s.lemma_filter_contains_rev(p, x);
    }
    if s.contains(x) && p(x) {
        let i = choose|i: int| 0 <= i < s.len() && s[i] == x;
        s.lemma_filter_contains(p, i);
    }
}

/// The root package is never missing, whatever version it has in the
/// manifest and whatever the local state holds.
pub proof fn lemma_missing_excludes_root(
    local: Seq<(Seq<char>, VersionView)>,
    manifest: Seq<ManifestPackageView>,
    root: Seq<char>,
)
    ensures
        forall|k: int|
            0 <= k < missing_packages(local, manifest, root).len()
                ==> #[trigger] missing_packages(local, manifest, root)[k].name != root,
        forall|p: ManifestPackageView|
            p.name == root ==> !missing_packages(local, manifest, root).contains(p),
{
    let pred = |p: ManifestPackageView| is_missing(local, root, p);
    assert forall|k: int| 0 <= k < missing_packages(local, manifest, root).len() implies
        #[trigger] missing_packages(local, manifest, root)[k].name != root by {
        manifest.lemma_filter_pred(pred, k);
    }
}

/// Extra and missing entries are set differences: reordering either the
/// local state or the manifest leaves the set of extra pairs and the set of
/// missing packages the same.
pub proof fn lemma_reconcile_order_independent(
    local1: Seq<(Seq<char>, VersionView)>,
    local2: Seq<(Seq<char>, VersionView)>,
    packages1: Seq<ManifestPackage>,
    packages2: Seq<ManifestPackage>,
    root: Seq<char>,
)
    requires
        local1.to_set() == local2.to_set(),
        package_views(packages1).to_set() == package_views(packages2).to_set(),
    ensures
        extra_pairs(local1, package_pairs(packages1)).to_set()
            == extra_pairs(local2, package_pairs(packages2)).to_set(),
        missing_packages(local1, package_views(packages1), root).to_set()
            == missing_packages(local2, package_views(packages2), root).to_set(),
{
    let manifest1 = package_views(packages1);
    let manifest2 = package_views(packages2);
    assert(package_pairs(packages1) =~= pairs_of_views(manifest1));
    assert(package_pairs(packages2) =~= pairs_of_views(manifest2));
    let mp1 = pairs_of_views(manifest1);
    let mp2 = pairs_of_views(manifest2);
    assert forall|x: (Seq<char>, VersionView)| mp1.contains(x) <==> mp2.contains(x) by {
        if mp1.contains(x) {
            let i = choose|i: int| 0 <= i < mp1.len() && mp1[i] == x;
            assert(manifest1.to_set().contains(manifest1[i]));
            let j = choose|j: int| 0 <= j < manifest2.len() && manifest2[j] == manifest1[i];
            assert(mp2[j] == x);
        }
        if mp2.contains(x) {
            let i = choose|i: int| 0 <= i < mp2.len() && mp2[i] == x;
            assert(manifest2.to_set().contains(manifest2[i]));
            let j = choose|j: int| 0 <= j < manifest1.len() && manifest1[j] == manifest2[i];
            assert(mp1[j] == x);
        }
    }
    let e1 = |x: (Seq<char>, VersionView)| !mp1.contains(x);
    let e2 = |x: (Seq<char>, VersionView)| !mp2.contains(x);
    assert forall|x: (Seq<char>, VersionView)|
        extra_pairs(local1, mp1).contains(x) <==> extra_pairs(local2, mp2).contains(x) by {
        lemma_filter_membership(local1, e1, x);
        lemma_filter_membership(local2, e2, x);
        assert(local1.to_set().contains(x) == local1.contains(x));
        assert(local2.to_set().contains(x) == local2.contains(x));
    }
    assert(extra_pairs(local1, mp1).to_set() =~= extra_pairs(local2, mp2).to_set());
    let m1 = |p: ManifestPackageView| is_missing(local1, root, p);
    let m2 = |p: ManifestPackageView| is_missing(local2, root, p);
    assert forall|p: ManifestPackageView| #[trigger] m1(p) == m2(p) by {
        assert(local1.to_set().contains((p.name, p.version)) == local1.contains((p.name, p.version)));
        assert(local2.to_set().contains((p.name, p.version)) == local2.contains((p.name, p.version)));
    }
    assert forall|p: ManifestPackageView|
        missing_packages(local1, manifest1, root).contains(p)
            <==> missing_packages(local2, manifest2, root).contains(p) by {
        lemma_filter_membership(manifest1, m1, p);
        lemma_filter_membership(manifest2, m2, p);
        assert(manifest1.to_set().contains(p) == manifest1.contains(p));
        assert(manifest2.to_set().contains(p) == manifest2.contains(p));
    }
    assert(missing_packages(local1, manifest1, root).to_set()
        =~= missing_packages(local2, manifest2, root).to_set());
}

proof fn lemma_filter_no_duplicates<A>(s: Seq<A>, p: spec_fn(A) -> bool)
    requires
        s.no_duplicates(),
    ensures
        s.filter(p).no_duplicates(),
    decreases s.len(),
{
    reveal(Seq::filter);
    if s.len() > 0 {
        let d = s.drop_last();
        assert(d.no_duplicates()) by {
            assert forall|i: int, j: int| 0 <= i < d.len() && 0 <= j < d.len() && i != j implies d[i] != d[j] by {
                assert(s[i] != s[j]);
            }
        }
        lemma_filter_no_duplicates(d, p);
        if p(s.last()) {
            lemma_filter_membership(d, p, s.last());
            assert(!d.contains(s.last())) by {
                if d.contains(s.last()) {
                    let i = choose|i: int| 0 <= i < d.len() && d[i] == s.last();
                    assert(s[i] == s[s.len() - 1]);
                }
            }
            let f = d.filter(p);
            let g = f.push(s.last());
            assert forall|i: int, j: int| 0 <= i < g.len() && 0 <= j < g.len() && i != j implies g[i] != g[j] by {
                if i < f.len() && j < f.len() {
                } else if i < f.len() {
                    assert(f.contains(f[i]));
                } else {
                    assert(f.contains(f[j]));
                }
            }
        }
    }
}

proof fn lemma_filter_count<A>(s: Seq<A>, p: spec_fn(A) -> bool, x: A)
    ensures
        s.filter(p).to_multiset().count(x) == if p(x) { s.to_multiset().count(x) } else { 0 },
    decreases s.len(),
{
    reveal(Seq::filter);
    broadcast use vstd::multiset::group_multiset_axioms;
    if s.len() == 0 {
        assert(s.filter(p) =~= Seq::<A>::empty());
    } else {
        let d = s.drop_last();
        lemma_filter_count(d, p, x);
        assert(d.push(s.last()) =~= s);
        d.to_multiset_ensures();
        d.filter(p).to_multiset_ensures();
    }
}

proof fn lemma_same_set_same_multiset<A>(a: Seq<A>, b: Seq<A>)
    requires
        a.no_duplicates(),
        b.no_duplicates(),
        a.to_set() == b.to_set(),
    ensures
        a.to_multiset() == b.to_multiset(),
{
    a.lemma_multiset_has_no_duplicates();
    b.lemma_multiset_has_no_duplicates();
    a.to_multiset_ensures();
    b.to_multiset_ensures();
    assert forall|x: A| a.to_multiset().count(x) == b.to_multiset().count(x) by {
        assert(a.to_set().contains(x) == a.contains(x));
        assert(b.to_set().contains(x) == b.contains(x));
    }
    assert(a.to_multiset() =~= b.to_multiset());
}

proof fn lemma_same_multiset_same_set<A>(a: Seq<A>, b: Seq<A>)
    requires
        a.to_multiset() == b.to_multiset(),
    ensures
        a.to_set() == b.to_set(),
{
    a.to_multiset_ensures();
    b.to_multiset_ensures();
    assert forall|x: A| a.to_set().contains(x) <==> b.to_set().contains(x) by {
        assert(a.to_set().contains(x) == a.contains(x));
        assert(b.to_set().contains(x) == b.contains(x));
        assert(a.to_multiset().count(x) == b.to_multiset().count(x));
        assert(a.contains(x) <==> a.to_multiset().count(x) > 0);
        assert(b.contains(x) <==> b.to_multiset().count(x) > 0);
    }
    assert(a.to_set() =~= b.to_set());
}

/// Extra and missing entries do not depend on order, counted with
/// multiplicity: for local states that hold the same pairs (each at most
/// once, as a map holds them) and manifests whose packages are a
/// permutation of each other, the extra pairs and the missing packages are
/// the same multisets. Only their order may differ.
pub proof fn lemma_reconcile_permutation_invariant(
    local1: Seq<(Seq<char>, VersionView)>,
    local2: Seq<(Seq<char>, VersionView)>,
    packages1: Seq<ManifestPackage>,
    packages2: Seq<ManifestPackage>,
    root: Seq<char>,
)
    requires
        local1.no_duplicates(),
        local2.no_duplicates(),
        local1.to_set() == local2.to_set(),
        package_views(packages1).to_multiset() == package_views(packages2).to_multiset(),
    ensures
        extra_pairs(local1, package_pairs(packages1)).to_multiset()
            == extra_pairs(local2, package_pairs(packages2)).to_multiset(),
        missing_packages(local1, package_views(packages1), root).to_multiset()
            == missing_packages(local2, package_views(packages2), root).to_multiset(),
{
    let v1 = package_views(packages1);
    let v2 = package_views(packages2);
    lemma_same_multiset_same_set(v1, v2);
    lemma_reconcile_order_independent(local1, local2, packages1, packages2, root);
    let mp1 = package_pairs(packages1);
    let mp2 = package_pairs(packages2);
    lemma_filter_no_duplicates(local1, |x: (Seq<char>, VersionView)| !mp1.contains(x));
    lemma_filter_no_duplicates(local2, |x: (Seq<char>, VersionView)| !mp2.contains(x));
    lemma_same_set_same_multiset(extra_pairs(local1, mp1), extra_pairs(local2, mp2));
    let m1 = |p: ManifestPackageView| is_missing(local1, root, p);
    let m2 = |p: ManifestPackageView| is_missing(local2, root, p);
    assert forall|p: ManifestPackageView| missing_packages(local1, v1, root).to_multiset().count(p)
        == missing_packages(local2, v2, root).to_multiset().count(p) by {
        lemma_filter_count(v1, m1, p);
        lemma_filter_count(v2, m2, p);
        assert(local1.to_set().contains((p.name, p.version)) == local1.contains((p.name, p.version)));
        assert(local2.to_set().contains((p.name, p.version)) == local2.contains((p.name, p.version)));
        assert(m1(p) == m2(p));
    }
    assert(missing_packages(local1, v1, root).to_multiset() =~= missing_packages(local2, v2, root).to_multiset());
}

/// A package whose version changed stays in the manifest under its name
/// but is extra under the old version it has locally, and the new version
/// is missing unless it is the root package.
pub proof fn lemma_version_bump(
    local: Seq<(Seq<char>, VersionView)>,
    packages: Seq<ManifestPackage>,
    root: Seq<char>,
    i: int,
    old_version: VersionView,
)
    requires
        0 <= i < packages.len(),
        forall|a: int, b: int| 0 <= a < packages.len() && 0 <= b < packages.len() && a != b
            ==> packages[a].name@ != packages[b].name@,
        forall|a: int, b: int| 0 <= a < local.len() && 0 <= b < local.len() && a != b
            ==> local[a].0 != local[b].0,
        local.contains((packages[i].name@, old_version)),
        old_version != packages[i].version@,
    ensures
        extra_pairs(local, package_pairs(packages)).contains((packages[i].name@, old_version)),
        packages[i].name@ != root ==> missing_packages(local, package_views(packages), root).contains(packages[i]@),
{
    let n = packages[i].name@;
    let mp = package_pairs(packages);
    assert(!mp.contains((n, old_version))) by {
        if mp.contains((n, old_version)) {
            let a = choose|a: int| 0 <= a < mp.len() && mp[a] == (n, old_version);
            assert(packages[a].name@ == n);
            if a != i {
                assert(packages[a].name@ != packages[i].name@);
            }
        }
    }
    lemma_filter_membership(local, |x: (Seq<char>, VersionView)| !mp.contains(x), (n, old_version));
    let v = package_views(packages);
    assert(!local.contains((n, packages[i].version@))) by {
        if local.contains((n, packages[i].version@)) {
            let a = choose|a: int| 0 <= a < local.len() && local[a] == (n, old_version);
            let b = choose|b: int| 0 <= b < local.len() && local[b] == (n, packages[i].version@);
            assert(a != b);
        }
    }
    assert(v[i] == packages[i]@);
    if n != root {
        lemma_filter_membership(v, |p: ManifestPackageView| is_missing(local, root, p), packages[i]@);
    }
}

/// Once the local state mirrors a manifest, reconciling against that same
/// manifest again finds nothing extra to delete and nothing missing to fetch.
pub proof fn lemma_sync_idempotent(manifest: Seq<ManifestPackage>, root: Seq<char>)
    ensures
        extra_pairs(package_pairs(manifest), package_pairs(manifest)).len() == 0,
        missing_packages(package_pairs(manifest), package_views(manifest), root).len() == 0,
{
    let mp = package_pairs(manifest);
    let e = |x: (Seq<char>, VersionView)| !mp.contains(x);
    assert forall|i: int| 0 <= i < mp.len() implies !e(mp[i]) by {
        assert(mp.contains(mp[i]));
    }
    mp.lemma_all_neg_filter_empty(e);
    let mv = package_views(manifest);
    let m = |p: ManifestPackageView| is_missing(mp, root, p);
    assert forall|i: int| 0 <= i < mv.len() implies !m(mv[i]) by {
        assert(mp[i] == (mv[i].name, mv[i].version));
        assert(mp.contains((mv[i].name, mv[i].version)));
    }
    mv.lemma_all_neg_filter_empty(m);
}

/// The (name, version) pairs of a sequence of package views.
spec fn pairs_of_views(ps: Seq<ManifestPackageView>) -> Seq<(Seq<char>, VersionView)> {
    ps.map_values(|p: ManifestPackageView| (p.name, p.version))
}

/// Whether the manifest holds a package with exactly this name and version.
fn manifest_holds(manifest: &Manifest, name: &String, version: &Version) -> (r: bool)
    ensures
        r == package_pairs(manifest.packages@).contains((name@, version@)),
{
    let mut i: usize = 0;
    while i < manifest.packages.len()
        invariant
            i <= manifest.packages.len(),
            forall|j: int| 0 <= j < i ==> package_pairs(manifest.packages@)[j] != (name@, version@),
        decreases manifest.packages.len() - i,
    {
        let p = &manifest.packages[i];
        if p.name.eq(name) && p.version.same_as(version) {
            assert(package_pairs(manifest.packages@)[i as int] == (name@, version@));
            return true;
        }
        i = i + 1;
    }
    false
}

impl LocalPackages {
    /// The (name, version) pairs present locally.
    pub open spec fn pairs(&self) -> Seq<(Seq<char>, VersionView)> {
        entry_pairs(self.packages@)
    }

    /// No name is recorded twice.
    pub open spec fn wf(&self) -> bool {
        forall|i: int, j: int|
            0 <= i < self.packages.len() && 0 <= j < self.packages.len() && i != j
                ==> self.packages@[i].0@ != self.packages@[j].0@
    }

    /// Whether this exact name and version is present locally.
    fn holds(&self, name: &String, version: &Version) -> (r: bool)
        ensures
            r == self.pairs().contains((name@, version@)),
    {
        let mut i: usize = 0;
        while i < self.packages.len()
            invariant
                i <= self.packages.len(),
                forall|j: int| 0 <= j < i ==> self.pairs()[j] != (name@, version@),
            decreases self.packages.len() - i,
        {
            let e = &self.packages[i];
            if e.0.eq(name) && e.1.same_as(version) {
                assert(self.pairs()[i as int] == (name@, version@));
                return true;
            }
            i = i + 1;
        }
        false
    }

    /// The local pairs whose exact name and version the manifest does not
    /// hold, in the local order. A package whose version changed is extra
    /// under its old version.
    pub fn extra_local_packages(&self, manifest: &Manifest) -> (r: Vec<(String, Version)>)
        ensures
            entry_pairs(r@) == extra_pairs(self.pairs(), package_pairs(manifest.packages@)),
    {
        let ghost mp = package_pairs(manifest.packages@);
        let ghost pred = |x: (Seq<char>, VersionView)| !mp.contains(x);
        let mut r: Vec<(String, Version)> = Vec::new();
        let mut i: usize = 0;
        while i < self.packages.len()
            invariant
                i <= self.packages.len(),
                mp == package_pairs(manifest.packages@),
                pred == (|x: (Seq<char>, VersionView)| !mp.contains(x)),
                entry_pairs(r@) == self.pairs().subrange(0, i as int).filter(pred),
            decreases self.packages.len() - i,
        {
            let e = &self.packages[i];
            let held = manifest_holds(manifest, &e.0, &e.1);
            proof {
                assert(self.pairs().subrange(0, i + 1) =~= self.pairs().subrange(0, i as int).push(self.pairs()[i as int]));
                self.pairs().subrange(0, i as int).lemma_filter_push(self.pairs()[i as int], pred);
            }
            if !held {
                let entry = (e.0.clone(), e.1.duplicate());
                r.push(entry);
                assert(entry_pairs(r@) =~= entry_pairs(r@.drop_last()).push(self.pairs()[i as int]));
            }
            i = i + 1;
        }
        assert(self.pairs().subrange(0, i as int) =~= self.pairs());
        r
    }

    /// The manifest packages, other than the root package, whose exact name
    /// and version are not present locally, in the manifest's order.
    pub fn missing_local_packages(&self, manifest: &Manifest, root: &str) -> (r: Vec<ManifestPackage>)
        ensures
            package_views(r@) == missing_packages(self.pairs(), package_views(manifest.packages@), root@),
    {
        let ghost mv = package_views(manifest.packages@);
        let ghost lp = self.pairs();
        let ghost pred = |p: ManifestPackageView| is_missing(lp, root@, p);
        let root_name = String::from_str(root);
        let mut r: Vec<ManifestPackage> = Vec::new();
        let mut i: usize = 0;
        while i < manifest.packages.len()
            invariant
                i <= manifest.packages.len(),
                mv == package_views(manifest.packages@),
                lp == self.pairs(),
                root_name@ == root@,
                pred == (|p: ManifestPackageView| is_missing(lp, root@, p)),
                package_views(r@) == mv.subrange(0, i as int).filter(pred),
            decreases manifest.packages.len() - i,
        {
            let p = &manifest.packages[i];
            let wanted = !p.name.eq(&root_name) && !self.holds(&p.name, &p.version);
            proof {
                assert(mv.subrange(0, i + 1) =~= mv.subrange(0, i as int).push(mv[i as int]));
                mv.subrange(0, i as int).lemma_filter_push(mv[i as int], pred);
            }
            if wanted {
                let copy = p.duplicate();
                r.push(copy);
                assert(package_views(r@) =~= package_views(r@.drop_last()).push(mv[i as int]));
            }
            i = i + 1;
        }
        assert(mv.subrange(0, i as int) =~= mv);
        r
    }

    /// The local state that mirrors a manifest: each package's name and version.
    pub fn from_manifest(manifest: &Manifest) -> (r: LocalPackages)
        ensures
            r.pairs() == package_pairs(manifest.packages@),
            manifest.wf() ==> r.wf(),
    {
        let mut packages: Vec<(String, Version)> = Vec::new();
        let mut i: usize = 0;
        while i < manifest.packages.len()
            invariant
                i <= manifest.packages.len(),
                entry_pairs(packages@) == package_pairs(manifest.packages@).subrange(0, i as int),
                packages.len() == i,
                forall|j: int| 0 <= j < i ==> packages@[j].0@ == manifest.packages@[j].name@,
            decreases manifest.packages.len() - i,
        {
            let p = &manifest.packages[i];
            packages.push((p.name.clone(), p.version.duplicate()));
            assert(entry_pairs(packages@) =~= package_pairs(manifest.packages@).subrange(0, i + 1));
            i = i + 1;
        }
        assert(package_pairs(manifest.packages@).subrange(0, i as int) =~= package_pairs(manifest.packages@));
        LocalPackages { packages }
    }
}

} // verus!
