//! The merged package catalog: one entry per package identifier, taken from the
//! repository with the highest priority, with its releases newest first.

use vstd::prelude::*;
use vstd::multiset::Multiset;

use crate::registry::{PublishedAsset, RegistryIndex, RegistryPackage, RegistryVersion};
use crate::text::{seq_order, text_order};
use crate::version::{semver_order, Version};

verus! {

/// A package as the catalog lists it, with the repository it came from.
#[derive(Debug)]
pub struct CatalogPackage {
    /// Index URL of the repository that supplied the package.
    pub repository_url: String,
    /// Package identifier.
    pub id: String,
    /// Display name.
    pub name: String,
    /// Description.
    pub description: String,
    /// License expression.
    pub license: String,
    /// Authors.
    pub authors: Vec<String>,
    /// Homepage URL.
    pub homepage: Option<String>,
    /// Source URL.
    pub source_url: Option<String>,
    /// Logo asset.
    pub logo: Option<PublishedAsset>,
    /// README asset.
    pub readme: Option<PublishedAsset>,
    /// Newest release.
    pub latest: Version,
    /// Releases, newest first.
    pub versions: Vec<RegistryVersion>,
}

/// All packages of the enabled repositories, keyed by identifier.
#[derive(Debug)]
pub struct Catalog {
    /// Packages in identifier order.
    pub packages: Vec<CatalogPackage>,
    /// Packages left out because a repository of higher priority has them.
    pub warnings: Vec<String>,
}

/// Releases ordered newest first: each has precedence at least that of the next.
pub open spec fn newest_first(s: Seq<RegistryVersion>) -> bool {
    forall|i: int, j: int|
        0 <= i && j == i + 1 && j < s.len() ==> semver_order(#[trigger] s[i].version@, #[trigger] s[j].version@) >= 0
}

/// Package identifiers in strictly increasing text order.
pub open spec fn ids_ascending(ps: Seq<CatalogPackage>) -> bool {
    forall|i: int, j: int| 0 <= i < j < ps.len() ==> seq_order(#[trigger] ps[i].id@, #[trigger] ps[j].id@) < 0
}

/// No identifier occurs twice.
pub open spec fn ids_distinct(ps: Seq<CatalogPackage>) -> bool {
    forall|i: int, j: int| 0 <= i < j < ps.len() ==> #[trigger] ps[i].id@ != #[trigger] ps[j].id@
}

/// Orders releases newest first; releases of equal precedence keep their order.
pub fn sort_newest_first(versions: Vec<RegistryVersion>) -> (r: Vec<RegistryVersion>)
    ensures
        newest_first(r@),
        r@.to_multiset() == versions@.to_multiset(),
{
    broadcast use vstd::seq_lib::group_to_multiset_ensures, vstd::multiset::group_multiset_axioms;

    let mut rest = versions;
    let mut sorted: Vec<RegistryVersion> = Vec::new();
    while rest.len() > 0
        invariant
            newest_first(sorted@),
            sorted@.to_multiset().add(rest@.to_multiset()) == versions@.to_multiset(),
        decreases rest.len(),
    {
        let ghost before = rest@;
        let ghost sorted_before = sorted@;
        let x = rest.remove(0);
        proof {
            assert(before =~= rest@.insert(0, x));
            vstd::seq_lib::to_multiset_insert(rest@, 0, x);
        }
        let mut j: usize = 0;
        while j < sorted.len() && sorted[j].version.order(&x.version) >= 0
            invariant
                j <= sorted.len(),
                j == 0 || semver_order(sorted@[j - 1].version@, x.version@) >= 0,
            decreases sorted.len() - j,
        {
            j = j + 1;
        }
        let ghost old_sorted = sorted@;
        if j < sorted.len() {
            let _ = sorted[j].version.order(&x.version);
        }
        sorted.insert(j, x);
        proof {
            assert forall|a: int, b: int|
                0 <= a && b == a + 1 && b < sorted@.len() implies semver_order(
                #[trigger] sorted@[a].version@,
                #[trigger] sorted@[b].version@,
            ) >= 0 by {
                if b < j {
                    assert(sorted@[a] == old_sorted[a] && sorted@[b] == old_sorted[b]);
                } else if b == j {
                    assert(sorted@[a] == old_sorted[j - 1]);
                } else if a == j {
                    assert(sorted@[b] == old_sorted[j as int]);
                } else {
                    assert(sorted@[a] == old_sorted[a - 1] && sorted@[b] == old_sorted[b - 1]);
                }
            }
            assert(sorted@ == old_sorted.insert(j as int, x));
            vstd::seq_lib::to_multiset_insert(old_sorted, j as int, x);
            assert(old_sorted == sorted_before);
            let m = sorted_before.to_multiset();
            let r = rest@.to_multiset();
            assert(m.add(before.to_multiset()) == versions@.to_multiset());
            assert(m.insert(x).add(r) =~= m.add(r.insert(x)));
            assert(before.to_multiset() == r.insert(x));
            assert(sorted@.to_multiset() == m.insert(x));
            assert(sorted@.to_multiset().add(rest@.to_multiset()) == versions@.to_multiset());
        }
    }
    proof {
        assert(rest@.to_multiset() =~= Multiset::empty());
        assert(sorted@.to_multiset().add(rest@.to_multiset()) =~= sorted@.to_multiset());
    }
    sorted
}

/// The packages of the repositories, in priority order, each with the URL of the
/// repository that publishes it.
pub open spec fn catalog_entries(repositories: Seq<(String, RegistryIndex)>) -> Seq<(Seq<char>, RegistryPackage)>
    decreases repositories.len(),
{
    if repositories.len() == 0 {
        Seq::empty()
    } else {
        with_url(repositories[0].0@, repositories[0].1.packages@) + catalog_entries(repositories.drop_first())
    }
}

/// Packages paired with the URL of their repository.
pub open spec fn with_url(url: Seq<char>, packages: Seq<RegistryPackage>) -> Seq<(Seq<char>, RegistryPackage)> {
    packages.map_values(|p: RegistryPackage| (url, p))
}

/// Index of the first entry with identifier `id`, or -1.
pub open spec fn first_entry(es: Seq<(Seq<char>, RegistryPackage)>, id: Seq<char>) -> int
    decreases es.len(),
{
    if es.len() == 0 {
        -1
    } else {
        let k = first_entry(es.drop_last(), id);
        if k >= 0 {
            k
        } else if es.last().1.id@ == id {
            es.len() - 1
        } else {
            -1
        }
    }
}

/// The warning for a package left out in favour of an earlier repository.
pub open spec fn shadowed_warning(id: Seq<char>, url: Seq<char>, existing: Seq<char>) -> Seq<char> {
    "package '"@ + id + "' from "@ + url + " ignored; "@ + existing + " has higher repository priority"@
}

/// Warnings for the entries whose identifier an earlier entry already had, in order.
pub open spec fn merge_warnings(es: Seq<(Seq<char>, RegistryPackage)>) -> Seq<Seq<char>>
    decreases es.len(),
{
    if es.len() == 0 {
        Seq::empty()
    } else {
        let rest = es.drop_last();
        let e = es.last();
        let k = first_entry(rest, e.1.id@);
        if k >= 0 {
            merge_warnings(rest).push(shadowed_warning(e.1.id@, e.0, rest[k].0))
        } else {
            merge_warnings(rest)
        }
    }
}

/// `c` lists package `p` of the repository at `url`, with its releases newest first.
pub open spec fn lists_package(c: CatalogPackage, url: Seq<char>, p: RegistryPackage) -> bool {
    &&& c.repository_url@ == url
    &&& c.id == p.id
    &&& c.name == p.name
    &&& c.description == p.description
    &&& c.license == p.license
    &&& c.authors == p.authors
    &&& c.homepage == p.homepage
    &&& c.source_url == p.source_url
    &&& c.logo == p.logo
    &&& c.readme == p.readme
    &&& c.latest == p.latest
    &&& newest_first(c.versions@)
    &&& c.versions@.to_multiset() == p.versions@.to_multiset()
}

/// What merging gives: identifiers ascending; each identifier of the entries
/// listed once, from its first entry; a warning for every later entry.
pub open spec fn merged_from(c: Catalog, es: Seq<(Seq<char>, RegistryPackage)>) -> bool {
    &&& ids_ascending(c.packages@)
    &&& forall|i: int| 0 <= i < c.packages@.len() ==> {
        let k = first_entry(es, #[trigger] c.packages@[i].id@);
        k >= 0 && lists_package(c.packages@[i], es[k].0, es[k].1)
    }
    &&& forall|m: int| 0 <= m < es.len() ==> exists|i: int| 0 <= i < c.packages@.len() && #[trigger] c.packages@[i].id@ == (#[trigger] es[m]).1.id@
    &&& c.warnings@.map_values(|w: String| w@) == merge_warnings(es)
}

proof fn lemma_first_entry_push(es: Seq<(Seq<char>, RegistryPackage)>, e: (Seq<char>, RegistryPackage), id: Seq<char>)
    ensures
        first_entry(es.push(e), id) == (if first_entry(es, id) >= 0 {
            first_entry(es, id)
        } else if e.1.id@ == id {
            es.len() as int
        } else {
            -1
        }),
{
    assert(es.push(e).drop_last() =~= es);
}

proof fn lemma_first_entry_found(es: Seq<(Seq<char>, RegistryPackage)>, id: Seq<char>)
    ensures
        first_entry(es, id) >= 0 ==> first_entry(es, id) < es.len() && es[first_entry(es, id)].1.id@ == id,
        first_entry(es, id) < 0 ==> forall|m: int| 0 <= m < es.len() ==> (#[trigger] es[m]).1.id@ != id,
    decreases es.len(),
{
    if es.len() > 0 {
        lemma_first_entry_found(es.drop_last(), id);
        if first_entry(es, id) < 0 {
            assert forall|m: int| 0 <= m < es.len() implies (#[trigger] es[m]).1.id@ != id by {
                if m < es.len() - 1 {
                    assert(es[m] == es.drop_last()[m]);
                }
            }
        }
    }
}

/// The text of a shadowed-package warning.
fn shadowed_warning_text(id: &str, url: &str, existing: &str) -> (r: String)
    ensures
        r@ == shadowed_warning(id@, url@, existing@),
{
    let mut out = String::new();
    out.append("package '");
    out.append(id);
    out.append("' from ");
    out.append(url);
    out.append(" ignored; ");
    out.append(existing);
    out.append(" has higher repository priority");
    proof {
        assert(out@ =~= shadowed_warning(id@, url@, existing@));
    }
    out
}

/// Merges the enabled repositories' indexes, highest priority first. A package
/// whose identifier an earlier repository already supplied is left out with a
/// warning; the packages are listed by identifier, each with its releases newest
/// first.
pub fn merge_catalog(repositories: Vec<(String, RegistryIndex)>) -> (c: Catalog)
    ensures
        merged_from(c, catalog_entries(repositories@)),
{
    let ghost all = catalog_entries(repositories@);
    let ghost mut done: Seq<(Seq<char>, RegistryPackage)> = Seq::empty();
    let mut packages: Vec<CatalogPackage> = Vec::new();
    let mut warnings: Vec<String> = Vec::new();
    let mut repos = repositories;
    proof {
        assert(done + catalog_entries(repos@) =~= all);
        assert(warnings@.map_values(|w: String| w@) =~= merge_warnings(done));
    }
    while repos.len() > 0
        invariant
            done + catalog_entries(repos@) == all,
            merged_from(Catalog { packages, warnings }, done),
        decreases repos.len(),
    {
        let ghost repos_before = repos@;
        let (url, index) = repos.remove(0);
        let mut pending = index.packages;
        proof {
            assert(repos_before.drop_first() =~= repos@);
            assert(done + with_url(url@, pending@) + catalog_entries(repos@) =~= all);
        }
        while pending.len() > 0
            invariant
                done + with_url(url@, pending@) + catalog_entries(repos@) == all,
                merged_from(Catalog { packages, warnings }, done),
            decreases pending.len(),
        {
            let ghost pending_before = pending@;
            let package = pending.remove(0);
            proof {
                assert(with_url(url@, pending_before) =~= seq![(url@, package)] + with_url(url@, pending@));
            }
            let ghost e = (url@, package);
            let ghost next = done.push(e);
            proof {
                assert(next + with_url(url@, pending@) + catalog_entries(repos@) =~= all);
                lemma_first_entry_found(done, package.id@);
                assert forall|id: Seq<char>| true implies first_entry(next, id) == (if first_entry(done, id) >= 0 {
                    first_entry(done, id)
                } else if e.1.id@ == id {
                    done.len() as int
                } else {
                    -1
                }) by {
                    lemma_first_entry_push(done, e, id);
                }
            }
            let mut pos: usize = 0;
            while pos < packages.len() && text_order(packages[pos].id.as_str(), package.id.as_str()) < 0
                invariant
                    pos <= packages.len(),
                    forall|k: int| 0 <= k < pos ==> seq_order(#[trigger] packages@[k].id@, package.id@) < 0,
                decreases packages.len() - pos,
            {
                pos = pos + 1;
            }
            let found = pos < packages.len() && text_order(packages[pos].id.as_str(), package.id.as_str()) == 0;
            if found {
                proof {
                    crate::text::lemma_seq_order_basics(packages@[pos as int].id@, package.id@);
                }
                let w = shadowed_warning_text(package.id.as_str(), url.as_str(), packages[pos].repository_url.as_str());
                let ghost old_warnings = warnings@;
                warnings.push(w);
                proof {
                    let k = first_entry(done, package.id@);
                    assert(k >= 0);
                    assert(next.drop_last() =~= done);
                    assert(warnings@.map_values(|w: String| w@) =~= old_warnings.map_values(|w: String| w@).push(w@));
                    assert(merge_warnings(next) == merge_warnings(done).push(shadowed_warning(package.id@, url@, done[k].0)));
                    assert forall|i: int| 0 <= i < packages@.len() implies {
                        let k = first_entry(next, #[trigger] packages@[i].id@);
                        k >= 0 && lists_package(packages@[i], next[k].0, next[k].1)
                    } by {
                        let k0 = first_entry(done, packages@[i].id@);
                        lemma_first_entry_found(done, packages@[i].id@);
                        assert(k0 >= 0);
                        assert(next[k0] == done[k0]);
                    }
                    assert forall|m: int| 0 <= m < next.len() implies exists|i: int| 0 <= i < packages@.len() && #[trigger] packages@[i].id@ == (#[trigger] next[m]).1.id@ by {
                        if m < done.len() {
                            assert(next[m] == done[m]);
                        } else {
                            assert(packages@[pos as int].id@ == next[m].1.id@);
                        }
                    }
                }
            } else {
                proof {
                    if pos < packages.len() {
                        crate::text::lemma_seq_order_basics(packages@[pos as int].id@, package.id@);
                    }
                    assert forall|m: int| 0 <= m < done.len() implies (#[trigger] done[m]).1.id@ != package.id@ by {
                        if done[m].1.id@ == package.id@ {
                            let i = choose|i: int| 0 <= i < packages@.len() && #[trigger] packages@[i].id@ == done[m].1.id@;
                            if i < pos {
                                assert(seq_order(packages@[i].id@, package.id@) < 0);
                                crate::text::lemma_seq_order_basics(packages@[i].id@, package.id@);
                            } else if i == pos {
                            } else {
                                crate::text::lemma_seq_order_basics(packages@[pos as int].id@, packages@[i].id@);
                            }
                        }
                    }
                }
                let ghost old_packages = packages@;
                let entry = CatalogPackage {
                    repository_url: url.clone(),
                    id: package.id,
                    name: package.name,
                    description: package.description,
                    license: package.license,
                    authors: package.authors,
                    homepage: package.homepage,
                    source_url: package.source_url,
                    logo: package.logo,
                    readme: package.readme,
                    latest: package.latest,
                    versions: sort_newest_first(package.versions),
                };
                packages.insert(pos, entry);
                proof {
                    assert(first_entry(done, package.id@) < 0);
                    assert(next.drop_last() =~= done);
                    assert(merge_warnings(next) == merge_warnings(done));
                    assert forall|a: int, b: int| 0 <= a < b < packages@.len() implies seq_order(#[trigger] packages@[a].id@, #[trigger] packages@[b].id@) < 0 by {
                        if b < pos {
                            assert(packages@[a] == old_packages[a] && packages@[b] == old_packages[b]);
                        } else if b == pos {
                            assert(packages@[a] == old_packages[a]);
                        } else if a == pos {
                            assert(packages@[b] == old_packages[b - 1]);
                            crate::text::lemma_seq_order_basics(old_packages[pos as int].id@, package.id@);
                            if b - 1 > pos {
                                crate::text::lemma_seq_order_transitive(package.id@, old_packages[pos as int].id@, old_packages[b - 1].id@);
                            }
                        } else if a < pos {
                            assert(packages@[a] == old_packages[a] && packages@[b] == old_packages[b - 1]);
                        } else {
                            assert(packages@[a] == old_packages[a - 1] && packages@[b] == old_packages[b - 1]);
                        }
                    }
                    assert forall|i: int| 0 <= i < packages@.len() implies {
                        let k = first_entry(next, #[trigger] packages@[i].id@);
                        k >= 0 && lists_package(packages@[i], next[k].0, next[k].1)
                    } by {
                        if i == pos {
                            assert(first_entry(next, package.id@) == done.len());
                        } else {
                            let j = if i < pos { i } else { i - 1 };
                            assert(packages@[i] == old_packages[j]);
                            let k0 = first_entry(done, old_packages[j].id@);
                            lemma_first_entry_found(done, old_packages[j].id@);
                            assert(k0 >= 0);
                            assert(next[k0] == done[k0]);
                        }
                    }
                    assert forall|m: int| 0 <= m < next.len() implies exists|i: int| 0 <= i < packages@.len() && #[trigger] packages@[i].id@ == (#[trigger] next[m]).1.id@ by {
                        if m < done.len() {
                            assert(next[m] == done[m]);
                            let i = choose|i: int| 0 <= i < old_packages.len() && #[trigger] old_packages[i].id@ == done[m].1.id@;
                            if i < pos {
                                assert(packages@[i] == old_packages[i]);
                            } else {
                                assert(packages@[i + 1] == old_packages[i]);
                            }
                        } else {
                            assert(packages@[pos as int].id@ == next[m].1.id@);
                        }
                    }
                }
            }
            proof {
                done = next;
            }
        }
    }
    proof {
        assert(done =~= all);
    }
    Catalog { packages, warnings }
}

} // verus!
