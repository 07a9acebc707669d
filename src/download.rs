use vstd::prelude::*;

use crate::local::package_views;
use crate::manifest::{ManifestPackage, ManifestPackageSource, ManifestPackageView, SourceView};

verus! {

broadcast use vstd::seq_lib::group_seq_properties;

/// Unpacks the gzip-compressed tar archives of registry packages.
#[derive(Debug)]
pub struct Untar;

impl Untar {
    /// A boxed unpacker.
    pub fn boxed() -> (r: Box<Untar>)
        ensures
            *r == Untar,
    {
        Box::new(Untar)
    }
}

/// What to do with the missing packages: link each local one from the
/// package cache to its path, and fetch each registry one.
#[derive(Debug)]
pub struct DownloadPlan {
    pub links: Vec<(String, String)>,
    pub downloads: Vec<ManifestPackage>,
}

/// The (name, path) of each local package, in order.
pub open spec fn local_links(ps: Seq<ManifestPackageView>) -> Seq<(Seq<char>, Seq<char>)>
    decreases ps.len(),
{
    if ps.len() == 0 {
        Seq::empty()
    } else {
        let rest = local_links(ps.drop_last());
        match ps.last().source {
            SourceView::Local { path } => rest.push((ps.last().name, path)),
            _ => rest,
        }
    }
}

/// The registry packages, in order.
pub open spec fn registry_packages(ps: Seq<ManifestPackageView>) -> Seq<ManifestPackageView>
    decreases ps.len(),
{
    if ps.len() == 0 {
        Seq::empty()
    } else {
        let rest = registry_packages(ps.drop_last());
        match ps.last().source {
            SourceView::Hex { .. } => rest.push(ps.last()),
            _ => rest,
        }
    }
}

/// Splits the missing packages by source. Version controlled packages are
/// neither linked nor fetched.
pub fn plan_downloads(missing: &Vec<ManifestPackage>) -> (r: DownloadPlan)
    ensures
        r.links@.map_values(|l: (String, String)| (l.0@, l.1@)) == local_links(package_views(missing@)),
        package_views(r.downloads@) == registry_packages(package_views(missing@)),
{
    let ghost mv = package_views(missing@);
    let mut links: Vec<(String, String)> = Vec::new();
    let mut downloads: Vec<ManifestPackage> = Vec::new();
    let mut i: usize = 0;
    while i < missing.len()
        invariant
            i <= missing.len(),
            mv == package_views(missing@),
            links@.map_values(|l: (String, String)| (l.0@, l.1@)) == local_links(mv.subrange(0, i as int)),
            package_views(downloads@) == registry_packages(mv.subrange(0, i as int)),
        decreases missing.len() - i,
    {
        let p = &missing[i];
        assert(mv.subrange(0, i + 1).drop_last() =~= mv.subrange(0, i as int));
        match &p.source {
            ManifestPackageSource::Local { path } => {
                let ghost before = links@;
                links.push((p.name.clone(), path.clone()));
                assert(links@.map_values(|l: (String, String)| (l.0@, l.1@)) =~= before.map_values(
                    |l: (String, String)| (l.0@, l.1@)).push((p.name@, path@)));
            },
            ManifestPackageSource::Hex { .. } => {
                let ghost before = downloads@;
                downloads.push(p.duplicate());
                assert(package_views(downloads@) =~= package_views(before).push(mv[i as int]));
            },
            ManifestPackageSource::Git { .. } => {},
        }
        i = i + 1;
    }
    assert(mv.subrange(0, i as int) =~= mv);
    DownloadPlan { links, downloads }
}

} // verus!
