//! What the catalog browser and the installed list show, and in which order.
//!
//! Both lists are given as indices into the state's catalog packages or installed
//! extensions.

use vstd::prelude::*;

use crate::catalog::CatalogPackage;
use crate::manager::{
    find_installed, installed_lookup, installed_package_matches_search, installed_provider,
    installed_status, matches_search, provider_of, search_provider_label, status_of, status_rank, CatalogFilter,
    CatalogSort, InstalledPackage, InstalledSortColumn, ManagerState, SortDirection,
};
use crate::text::{
    chars_of, contains_chars, contains_sub, lemma_seq_order_basics, lower, lower_string,
    seq_order, text_order, trim, trim_string, unicode_lowercase,
};
use crate::version::{semver_order, Version};

verus! {

/// `x`, or `y` where `x` is 0: the second order breaks ties of the first.
pub open spec fn then_order(x: int, y: int) -> int {
    if x != 0 {
        x
    } else {
        y
    }
}

/// Order of two integers (-1, 0 or 1).
pub open spec fn int_order(a: int, b: int) -> int {
    if a < b {
        -1
    } else if a > b {
        1
    } else {
        0
    }
}

/// `false` orders before `true`.
pub open spec fn bool_order(a: bool, b: bool) -> int {
    int_order(if a { 1 } else { 0 }, if b { 1 } else { 0 })
}

/// No version orders before any version; versions order by precedence.
pub open spec fn version_option_order(a: Option<Version>, b: Option<Version>) -> int {
    match (a, b) {
        (None, None) => 0,
        (None, Some(_)) => -1,
        (Some(_), None) => 1,
        (Some(x), Some(y)) => semver_order(x@, y@),
    }
}

/// Catalog browser order: by lowercased name then identifier, by newest
/// version then name, or by repository URL then name.
pub open spec fn catalog_order(sort: CatalogSort, a: CatalogPackage, b: CatalogPackage) -> int {
    match sort {
        CatalogSort::Name => then_order(seq_order(lower(a.name@), lower(b.name@)), seq_order(a.id@, b.id@)),
        CatalogSort::Version => then_order(semver_order(b.latest@, a.latest@), seq_order(a.name@, b.name@)),
        CatalogSort::Repository => then_order(seq_order(a.repository_url@, b.repository_url@), seq_order(a.name@, b.name@)),
    }
}

/// Order of two installed extensions by the sort column alone.
pub open spec fn installed_column_order(st: ManagerState, column: InstalledSortColumn, a: InstalledPackage, b: InstalledPackage) -> int {
    match column {
        InstalledSortColumn::Enabled => bool_order(a.enabled, b.enabled),
        InstalledSortColumn::Name => seq_order(lower(a.name@), lower(b.name@)),
        InstalledSortColumn::Version => version_option_order(a.version, b.version),
        InstalledSortColumn::Provider => seq_order(lower(provider_of(st, a)), lower(provider_of(st, b))),
        InstalledSortColumn::Status => int_order(status_rank(status_of(st, a)), status_rank(status_of(st, b))),
    }
}

/// Installed list order: the sort column, ties broken by identifier, the whole
/// reversed when sorting descending.
pub open spec fn installed_order(st: ManagerState, a: InstalledPackage, b: InstalledPackage) -> int {
    let o = then_order(installed_column_order(st, st.installed_sort, a, b), seq_order(a.subject@, b.subject@));
    match st.installed_sort_direction {
        SortDirection::Ascending => o,
        SortDirection::Descending => -o,
    }
}

/// Which list is ordered.
#[derive(Debug, Clone, Copy, PartialEq, Eq, Structural)]
pub enum Listing {
    Catalog,
    Installed,
}

/// Number of entries of a list.
pub open spec fn listing_size(st: ManagerState, l: Listing) -> int {
    match l {
        Listing::Catalog => st.catalog.packages@.len() as int,
        Listing::Installed => st.installed@.len() as int,
    }
}

/// Order of the entries at `a` and `b` of a list.
pub open spec fn listing_order(st: ManagerState, l: Listing, a: int, b: int) -> int {
    match l {
        Listing::Catalog => catalog_order(st.catalog_sort, st.catalog.packages@[a], st.catalog.packages@[b]),
        Listing::Installed => installed_order(st, st.installed@[a], st.installed@[b]),
    }
}

/// The entry at `a` is shown before the one at `b`: it orders first, or they
/// order equal and `a` comes first in the state (a stable sort).
pub open spec fn listed_before(st: ManagerState, l: Listing, a: int, b: int) -> bool {
    listing_order(st, l, a, b) < 0 || (listing_order(st, l, a, b) == 0 && a < b)
}

/// Each index is shown before the next one.
pub open spec fn in_listing_order(st: ManagerState, l: Listing, r: Seq<usize>) -> bool {
    forall|a: int, b: int| 0 <= a && b == a + 1 && b < r.len() ==> listed_before(st, l, #[trigger] r[a] as int, #[trigger] r[b] as int)
}

fn int_compare(a: u8, b: u8) -> (r: i8)
    ensures
        r == int_order(a as int, b as int),
{
    if a < b {
        -1
    } else if a > b {
        1
    } else {
        0
    }
}

fn version_option_compare(a: &Option<Version>, b: &Option<Version>) -> (r: i8)
    ensures
        r == version_option_order(*a, *b),
        version_option_order(*b, *a) == -r,
        -1 <= r <= 1,
{
    match (a, b) {
        (None, None) => 0,
        (None, Some(_)) => -1,
        (Some(_), None) => 1,
        (Some(x), Some(y)) => x.order(y),
    }
}

fn lower_text_order(a: &str, b: &str) -> (r: i8)
    ensures
        r == seq_order(lower(a@), lower(b@)),
        seq_order(lower(b@), lower(a@)) == -r,
        -1 <= r <= 1,
{
    let x = lower_string(a);
    let y = lower_string(b);
    proof {
        lemma_seq_order_basics(x@, y@);
    }
    text_order(x.as_str(), y.as_str())
}

fn plain_text_order(a: &str, b: &str) -> (r: i8)
    ensures
        r == seq_order(a@, b@),
        seq_order(b@, a@) == -r,
        -1 <= r <= 1,
{
    proof {
        lemma_seq_order_basics(a@, b@);
    }
    text_order(a, b)
}

fn catalog_compare(state: &ManagerState, a: usize, b: usize) -> (r: i8)
    requires
        a < state.catalog.packages@.len(),
        b < state.catalog.packages@.len(),
    ensures
        r == listing_order(*state, Listing::Catalog, a as int, b as int),
        listing_order(*state, Listing::Catalog, b as int, a as int) == -r,
{
    let pa = &state.catalog.packages[a];
    let pb = &state.catalog.packages[b];
    match state.catalog_sort {
        CatalogSort::Name => {
            let first = lower_text_order(pa.name.as_str(), pb.name.as_str());
            let second = plain_text_order(pa.id.as_str(), pb.id.as_str());
            if first != 0 {
                first
            } else {
                second
            }
        },
        CatalogSort::Version => {
            let first = pb.latest.order(&pa.latest);
            let second = plain_text_order(pa.name.as_str(), pb.name.as_str());
            if first != 0 {
                first
            } else {
                second
            }
        },
        CatalogSort::Repository => {
            let first = plain_text_order(pa.repository_url.as_str(), pb.repository_url.as_str());
            let second = plain_text_order(pa.name.as_str(), pb.name.as_str());
            if first != 0 {
                first
            } else {
                second
            }
        },
    }
}

fn installed_column_compare(state: &ManagerState, pa: &InstalledPackage, pb: &InstalledPackage) -> (r: i8)
    ensures
        r == installed_column_order(*state, state.installed_sort, *pa, *pb),
        installed_column_order(*state, state.installed_sort, *pb, *pa) == -r,
        -1 <= r <= 1,
{
    match state.installed_sort {
        InstalledSortColumn::Enabled => int_compare(
            if pa.enabled { 1 } else { 0 },
            if pb.enabled { 1 } else { 0 },
        ),
        InstalledSortColumn::Name => lower_text_order(pa.name.as_str(), pb.name.as_str()),
        InstalledSortColumn::Version => version_option_compare(&pa.version, &pb.version),
        InstalledSortColumn::Provider => {
            let x = installed_provider(state, pa);
            let y = installed_provider(state, pb);
            lower_text_order(x.as_str(), y.as_str())
        },
        InstalledSortColumn::Status => {
            let x = installed_status(state, pa).rank();
            let y = installed_status(state, pb).rank();
            int_compare(x, y)
        },
    }
}

fn installed_compare(state: &ManagerState, a: usize, b: usize) -> (r: i8)
    requires
        a < state.installed@.len(),
        b < state.installed@.len(),
    ensures
        r == listing_order(*state, Listing::Installed, a as int, b as int),
        listing_order(*state, Listing::Installed, b as int, a as int) == -r,
{
    let pa = &state.installed[a];
    let pb = &state.installed[b];
    let column = installed_column_compare(state, pa, pb);
    let tie = plain_text_order(pa.subject.as_str(), pb.subject.as_str());
    let o = if column != 0 {
        column
    } else {
        tie
    };
    match state.installed_sort_direction {
        SortDirection::Ascending => o,
        SortDirection::Descending => -o,
    }
}

/// Whether the entry at `a` is shown before the one at `b`.
fn shown_before(state: &ManagerState, l: Listing, a: usize, b: usize) -> (r: bool)
    requires
        (a as int) < listing_size(*state, l),
        (b as int) < listing_size(*state, l),
    ensures
        r == listed_before(*state, l, a as int, b as int),
        a != b ==> listed_before(*state, l, b as int, a as int) == !r,
{
    let o = match l {
        Listing::Catalog => catalog_compare(state, a, b),
        Listing::Installed => installed_compare(state, a, b),
    };
    o < 0 || (o == 0 && a < b)
}

/// Sorts distinct indices of a list into the order it is shown in.
fn sort_listing(state: &ManagerState, l: Listing, items: Vec<usize>) -> (r: Vec<usize>)
    requires
        forall|k: int| 0 <= k < items@.len() ==> (#[trigger] items@[k] as int) < listing_size(*state, l),
        forall|a: int, b: int| 0 <= a < b < items@.len() ==> #[trigger] items@[a] != #[trigger] items@[b],
    ensures
        r@.to_multiset() == items@.to_multiset(),
        in_listing_order(*state, l, r@),
        forall|k: int| 0 <= k < r@.len() ==> (#[trigger] r@[k] as int) < listing_size(*state, l),
{
    broadcast use vstd::seq_lib::group_to_multiset_ensures;

    let mut out: Vec<usize> = Vec::new();
    let mut i: usize = 0;
    proof {
        assert(items@.take(0) =~= out@);
    }
    while i < items.len()
        invariant
            i <= items@.len(),
            forall|k: int| 0 <= k < items@.len() ==> (#[trigger] items@[k] as int) < listing_size(*state, l),
            forall|a: int, b: int| 0 <= a < b < items@.len() ==> #[trigger] items@[a] != #[trigger] items@[b],
            forall|k: int| 0 <= k < out@.len() ==> (#[trigger] out@[k] as int) < listing_size(*state, l),
            out@.to_multiset() == items@.take(i as int).to_multiset(),
            in_listing_order(*state, l, out@),
        decreases items@.len() - i,
    {
        let x = items[i];
        proof {
            assert(!items@.take(i as int).contains(x)) by {
                if items@.take(i as int).contains(x) {
                    let m = choose|m: int| 0 <= m < i && items@.take(i as int)[m] == x;
                    assert(items@[m] == items@[i as int]);
                }
            }
            vstd::seq_lib::to_multiset_contains(items@.take(i as int), x);
            vstd::seq_lib::to_multiset_contains(out@, x);
        }
        let mut j: usize = out.len();
        while j > 0 && shown_before(state, l, x, out[j - 1])
            invariant
                j <= out@.len(),
                (x as int) < listing_size(*state, l),
                forall|k: int| 0 <= k < out@.len() ==> (#[trigger] out@[k] as int) < listing_size(*state, l),
                !out@.contains(x),
                j < out@.len() ==> listed_before(*state, l, x as int, out@[j as int] as int),
                j < out@.len() ==> !listed_before(*state, l, out@[j as int] as int, x as int),
            decreases j,
        {
            proof {
                assert(out@.contains(out@[j - 1]));
            }
            j = j - 1;
        }
        if j > 0 {
            proof {
                assert(out@.contains(out@[j - 1]));
            }
            let _ = shown_before(state, l, x, out[j - 1]);
        }
        let ghost old_out = out@;
        out.insert(j, x);
        proof {
            assert(out@ == old_out.insert(j as int, x));
            assert forall|a: int, b: int| 0 <= a && b == a + 1 && b < out@.len() implies listed_before(
                *state,
                l,
                #[trigger] out@[a] as int,
                #[trigger] out@[b] as int,
            ) by {
                if b < j {
                    assert(out@[a] == old_out[a] && out@[b] == old_out[b]);
                } else if b == j {
                    assert(out@[a] == old_out[j - 1]);
                    assert(old_out.contains(old_out[j - 1]));
                } else if a == j {
                    assert(out@[b] == old_out[j as int]);
                } else {
                    assert(out@[a] == old_out[a - 1] && out@[b] == old_out[b - 1]);
                }
            }
            assert forall|k: int| 0 <= k < out@.len() implies (#[trigger] out@[k] as int) < listing_size(*state, l) by {
                if k < j {
                    assert(out@[k] == old_out[k]);
                } else if k > j {
                    assert(out@[k] == old_out[k - 1]);
                }
            }
            vstd::seq_lib::to_multiset_insert(old_out, j as int, x);
            assert(items@.take(i + 1) =~= items@.take(i as int).push(x));
            vstd::seq_lib::to_multiset_build(items@.take(i as int), x);
        }
        i = i + 1;
    }
    proof {
        assert(items@.take(items@.len() as int) =~= items@);
    }
    out
}

/// The query a catalog search text stands for: trimmed, ASCII-lowercased.
pub open spec fn catalog_query(search: Seq<char>) -> Seq<char> {
    lower(trim(search))
}

/// Some author's lowercased name contains the query.
pub open spec fn author_matches(authors: Seq<String>, query: Seq<char>) -> bool {
    exists|k: int| 0 <= k < authors.len() && contains_sub(lower(#[trigger] authors[k]@), query)
}

/// The query is empty or occurs in the lowercased identifier, name, description
/// or an author.
pub open spec fn catalog_text_matches(p: CatalogPackage, query: Seq<char>) -> bool {
    ||| query.len() == 0
    ||| contains_sub(lower(p.id@), query)
    ||| contains_sub(lower(p.name@), query)
    ||| contains_sub(lower(p.description@), query)
    ||| author_matches(p.authors@, query)
}

/// A catalog package the browser shows: it matches the search, comes from the
/// repository shown (if one is chosen), and passes the installed-state filter.
pub open spec fn catalog_shown(st: ManagerState, p: CatalogPackage) -> bool {
    &&& catalog_text_matches(p, catalog_query(st.search@))
    &&& match st.repository_filter {
        None => true,
        Some(u) => p.repository_url@ == u@,
    }
    &&& match st.catalog_filter {
        CatalogFilter::All => true,
        CatalogFilter::Available => installed_lookup(st.installed@, p.id@) is None,
        CatalogFilter::Installed => installed_lookup(st.installed@, p.id@) is Some,
        CatalogFilter::Updates => installed_lookup(st.installed@, p.id@) matches Some(i) && i.version matches Some(
            v,
        ) && semver_order(v@, p.latest@) < 0,
    }
}

/// Indices below `n` of the catalog packages the browser shows, ascending.
pub open spec fn shown_catalog_indices(st: ManagerState, n: int) -> Seq<usize>
    decreases n,
{
    if n <= 0 {
        Seq::empty()
    } else {
        let before = shown_catalog_indices(st, n - 1);
        if catalog_shown(st, st.catalog.packages@[n - 1]) {
            before.push((n - 1) as usize)
        } else {
            before
        }
    }
}

proof fn lemma_shown_catalog_indices(st: ManagerState, n: int)
    requires
        n <= st.catalog.packages@.len() <= usize::MAX,
    ensures
        forall|x: usize| #![trigger shown_catalog_indices(st, n).contains(x)]
            x < st.catalog.packages@.len() ==> (shown_catalog_indices(st, n).contains(x)
                <==> x < n && catalog_shown(st, st.catalog.packages@[x as int])),
    decreases n,
{
    if n > 0 {
        lemma_shown_catalog_indices(st, n - 1);
        let before = shown_catalog_indices(st, n - 1);
        let last = (n - 1) as usize;
        assert(last as int == n - 1);
        assert forall|x: usize| x < st.catalog.packages@.len() implies (shown_catalog_indices(st, n).contains(x)
            <==> x < n && catalog_shown(st, st.catalog.packages@[x as int])) by {
            assert(before.contains(x) <==> x < n - 1 && catalog_shown(st, st.catalog.packages@[x as int]));
            if catalog_shown(st, st.catalog.packages@[n - 1]) {
                let after = before.push(last);
                assert(after[before.len() as int] == last);
                if after.contains(x) && x != last {
                    let w = choose|w: int| 0 <= w < after.len() && after[w] == x;
                    assert(w < before.len());
                    assert(before[w] == x);
                }
                if before.contains(x) {
                    let w = choose|w: int| 0 <= w < before.len() && before[w] == x;
                    assert(after[w] == x);
                }
            }
        }
    } else {
        assert forall|x: usize| x < st.catalog.packages@.len() implies !#[trigger] shown_catalog_indices(st, n).contains(x) by {}
    }
}

/// The catalog browser lists a package exactly when the trimmed,
/// ASCII-lowercased search text is empty or occurs in its lowercased
/// identifier, name, description or one of its authors, it comes from the
/// repository chosen (if any), and it passes the installed-state filter.
pub proof fn law_catalog_listing(st: ManagerState, i: usize)
    requires
        i < st.catalog.packages@.len() <= usize::MAX,
    ensures
        shown_catalog_indices(st, st.catalog.packages@.len() as int).contains(i) <==> {
            let p = st.catalog.packages@[i as int];
            let q = lower(trim(st.search@));
            &&& (q.len() == 0 || contains_sub(lower(p.id@), q) || contains_sub(lower(p.name@), q) || contains_sub(
                lower(p.description@),
                q,
            ) || exists|k: int| 0 <= k < p.authors@.len() && contains_sub(lower(#[trigger] p.authors@[k]@), q))
            &&& (st.repository_filter matches Some(u) ==> p.repository_url@ == u@)
            &&& (st.catalog_filter == CatalogFilter::Available ==> installed_lookup(st.installed@, p.id@) is None)
            &&& (st.catalog_filter == CatalogFilter::Installed ==> installed_lookup(st.installed@, p.id@) is Some)
            &&& (st.catalog_filter == CatalogFilter::Updates ==> (installed_lookup(st.installed@, p.id@) matches Some(e)
                && e.version matches Some(v) && semver_order(v@, p.latest@) < 0))
        },
{
    lemma_shown_catalog_indices(st, st.catalog.packages@.len() as int);
}

/// Indices below `n` of the installed extensions matching `query`, ascending.
pub open spec fn shown_installed_indices(st: ManagerState, query: Seq<char>, n: int) -> Seq<usize>
    decreases n,
{
    if n <= 0 {
        Seq::empty()
    } else {
        let before = shown_installed_indices(st, query, n - 1);
        if matches_search(st, st.installed@[n - 1], query) {
            before.push((n - 1) as usize)
        } else {
            before
        }
    }
}

proof fn lemma_shown_installed_indices(st: ManagerState, query: Seq<char>, n: int)
    requires
        n <= st.installed@.len() <= usize::MAX,
    ensures
        forall|x: usize| #![trigger shown_installed_indices(st, query, n).contains(x)]
            x < st.installed@.len() ==> (shown_installed_indices(st, query, n).contains(x)
                <==> x < n && matches_search(st, st.installed@[x as int], query)),
    decreases n,
{
    if n > 0 {
        lemma_shown_installed_indices(st, query, n - 1);
        let before = shown_installed_indices(st, query, n - 1);
        let last = (n - 1) as usize;
        assert(last as int == n - 1);
        assert forall|x: usize| x < st.installed@.len() implies (shown_installed_indices(st, query, n).contains(x)
            <==> x < n && matches_search(st, st.installed@[x as int], query)) by {
            assert(before.contains(x) <==> x < n - 1 && matches_search(st, st.installed@[x as int], query));
            if matches_search(st, st.installed@[n - 1], query) {
                let after = before.push(last);
                assert(after[before.len() as int] == last);
                if after.contains(x) && x != last {
                    let w = choose|w: int| 0 <= w < after.len() && after[w] == x;
                    assert(w < before.len());
                    assert(before[w] == x);
                }
                if before.contains(x) {
                    let w = choose|w: int| 0 <= w < before.len() && before[w] == x;
                    assert(after[w] == x);
                }
            }
        }
    } else {
        assert forall|x: usize| x < st.installed@.len() implies !#[trigger] shown_installed_indices(st, query, n).contains(x) by {}
    }
}

/// The installed list shows an extension exactly when the query is empty or
/// occurs in its lowercased name, identifier, version text or provider label.
pub proof fn law_installed_listing(st: ManagerState, query: Seq<char>, i: usize)
    requires
        i < st.installed@.len() <= usize::MAX,
    ensures
        shown_installed_indices(st, query, st.installed@.len() as int).contains(i) <==> {
            let e = st.installed@[i as int];
            ||| query.len() == 0
            ||| contains_sub(unicode_lowercase(e.name@), query)
            ||| contains_sub(unicode_lowercase(e.subject@), query)
            ||| (e.version_text matches Some(t) && contains_sub(unicode_lowercase(t@), query))
            ||| contains_sub(unicode_lowercase(search_provider_label(st, e.subject@)), query)
        },
{
    lemma_shown_installed_indices(st, query, st.installed@.len() as int);
}

/// Catalog sort orders: by name (ASCII case ignored, identifier breaking ties),
/// newest latest version first, or by repository URL.
pub proof fn law_catalog_sort(st: ManagerState, a: int, b: int)
    requires
        0 <= a < st.catalog.packages@.len(),
        0 <= b < st.catalog.packages@.len(),
    ensures
        ({
            let pa = st.catalog.packages@[a];
            let pb = st.catalog.packages@[b];
            &&& st.catalog_sort == CatalogSort::Name && seq_order(lower(pa.name@), lower(pb.name@)) < 0 ==> listed_before(
                st,
                Listing::Catalog,
                a,
                b,
            ) && !listed_before(st, Listing::Catalog, b, a)
            &&& st.catalog_sort == CatalogSort::Name && lower(pa.name@) == lower(pb.name@) && seq_order(pa.id@, pb.id@) < 0
                ==> listed_before(st, Listing::Catalog, a, b) && !listed_before(st, Listing::Catalog, b, a)
            &&& st.catalog_sort == CatalogSort::Version && semver_order(pb.latest@, pa.latest@) < 0 ==> listed_before(
                st,
                Listing::Catalog,
                a,
                b,
            )
            &&& st.catalog_sort == CatalogSort::Repository && seq_order(pa.repository_url@, pb.repository_url@) < 0
                ==> listed_before(st, Listing::Catalog, a, b) && !listed_before(st, Listing::Catalog, b, a)
        }),
{
    let pa = st.catalog.packages@[a];
    let pb = st.catalog.packages@[b];
    lemma_seq_order_basics(lower(pa.name@), lower(pb.name@));
    lemma_seq_order_basics(pa.id@, pb.id@);
    lemma_seq_order_basics(pa.repository_url@, pb.repository_url@);
    lemma_seq_order_basics(pa.name@, pb.name@);
}

/// Installed list sort by name: ascending puts the lowercased-name-first
/// extension first, descending puts it last.
pub proof fn law_installed_sort_by_name(st: ManagerState, a: int, b: int)
    requires
        0 <= a < st.installed@.len(),
        0 <= b < st.installed@.len(),
        st.installed_sort == InstalledSortColumn::Name,
        seq_order(lower(st.installed@[a].name@), lower(st.installed@[b].name@)) < 0,
    ensures
        st.installed_sort_direction == SortDirection::Ascending ==> listed_before(st, Listing::Installed, a, b)
            && !listed_before(st, Listing::Installed, b, a),
        st.installed_sort_direction == SortDirection::Descending ==> listed_before(st, Listing::Installed, b, a)
            && !listed_before(st, Listing::Installed, a, b),
{
    lemma_seq_order_basics(lower(st.installed@[a].name@), lower(st.installed@[b].name@));
}

fn lower_contains(s: &str, query: &[char]) -> (r: bool)
    ensures
        r == contains_sub(lower(s@), query@),
{
    let l = lower_string(s);
    let c = chars_of(l.as_str());
    contains_chars(c.as_slice(), query)
}

fn catalog_package_shown(state: &ManagerState, p: &CatalogPackage, query: &[char]) -> (r: bool)
    requires
        query@ == catalog_query(state.search@),
    ensures
        r == catalog_shown(*state, *p),
{
    let mut text = query.len() == 0 || lower_contains(p.id.as_str(), query) || lower_contains(p.name.as_str(), query)
        || lower_contains(p.description.as_str(), query);
    let mut k: usize = 0;
    while !text && k < p.authors.len()
        invariant
            k <= p.authors@.len(),
            text ==> catalog_text_matches(*p, query@),
            !text ==> forall|m: int| 0 <= m < k ==> !contains_sub(lower(#[trigger] p.authors@[m]@), query@),
            !text ==> !(query@.len() == 0 || contains_sub(lower(p.id@), query@) || contains_sub(lower(p.name@), query@)
                || contains_sub(lower(p.description@), query@)),
        decreases p.authors@.len() - k,
    {
        if lower_contains(p.authors[k].as_str(), query) {
            text = true;
        }
        k = k + 1;
    }
    if !text {
        return false;
    }
    let repository = match &state.repository_filter {
        None => true,
        Some(u) => crate::text::str_equal(p.repository_url.as_str(), u.as_str()),
    };
    if !repository {
        return false;
    }
    let installed = find_installed(&state.installed, p.id.as_str());
    match state.catalog_filter {
        CatalogFilter::All => true,
        CatalogFilter::Available => installed.is_none(),
        CatalogFilter::Installed => installed.is_some(),
        CatalogFilter::Updates => match installed {
            None => false,
            Some(i) => match &state.installed[i].version {
                None => false,
                Some(v) => v.older_than(&p.latest),
            },
        },
    }
}

/// The catalog packages the browser shows, as indices into the catalog, in the
/// order the browser lists them.
pub fn filtered_catalog_packages(state: &ManagerState) -> (r: Vec<usize>)
    ensures
        r@.to_multiset() == shown_catalog_indices(*state, state.catalog.packages@.len() as int).to_multiset(),
        in_listing_order(*state, Listing::Catalog, r@),
        forall|k: int| 0 <= k < r@.len() ==> (#[trigger] r@[k] as int) < state.catalog.packages@.len(),
{
    let trimmed = trim_string(state.search.as_str());
    let lowered = lower_string(trimmed.as_str());
    let query = chars_of(lowered.as_str());
    let n = state.catalog.packages.len();
    let mut shown: Vec<usize> = Vec::new();
    let mut i: usize = 0;
    while i < n
        invariant
            n == state.catalog.packages@.len(),
            i <= n,
            query@ == catalog_query(state.search@),
            shown@ == shown_catalog_indices(*state, i as int),
            forall|k: int| 0 <= k < shown@.len() ==> (#[trigger] shown@[k] as int) < i,
            forall|a: int, b: int| 0 <= a < b < shown@.len() ==> (#[trigger] shown@[a]) < (#[trigger] shown@[b]),
        decreases n - i,
    {
        if catalog_package_shown(state, &state.catalog.packages[i], query.as_slice()) {
            shown.push(i);
        }
        i = i + 1;
    }
    sort_listing(state, Listing::Catalog, shown)
}

/// The installed extensions matching a lowercased search query, as indices into
/// the installed list, in the order the list shows them.
pub fn visible_installed_packages(state: &ManagerState, query: &str) -> (r: Vec<usize>)
    ensures
        r@.to_multiset() == shown_installed_indices(*state, query@, state.installed@.len() as int).to_multiset(),
        in_listing_order(*state, Listing::Installed, r@),
        forall|k: int| 0 <= k < r@.len() ==> (#[trigger] r@[k] as int) < state.installed@.len(),
{
    let n = state.installed.len();
    let mut shown: Vec<usize> = Vec::new();
    let mut i: usize = 0;
    while i < n
        invariant
            n == state.installed@.len(),
            i <= n,
            shown@ == shown_installed_indices(*state, query@, i as int),
            forall|k: int| 0 <= k < shown@.len() ==> (#[trigger] shown@[k] as int) < i,
            forall|a: int, b: int| 0 <= a < b < shown@.len() ==> (#[trigger] shown@[a]) < (#[trigger] shown@[b]),
        decreases n - i,
    {
        if installed_package_matches_search(state, &state.installed[i], query) {
            shown.push(i);
        }
        i = i + 1;
    }
    sort_listing(state, Listing::Installed, shown)
}

} // verus!
