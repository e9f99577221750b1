//! Properties of the cache that relate several operations or hold of every
//! input, proved over the tables' views.
use vstd::prelude::*;
use crate::cache::{
    after_refresh, all_tables_present, head_differs, is_available, is_stale, revision_rows,
    set_rows, SetFileRow, rows_or_empty,
    set_line_row, set_lines_rows, CacheView, RefreshInput,
};
use crate::parse::set_target;
use crate::order::lemma_by_category;
use crate::query::{
    first_version, group_first, group_keys, installed_of, like_contains, listed_rows,
    listing, not_available, package_candidate, package_candidates, package_selected,
    recommended_of, search_listing, selected_rows, ViewKind,
};
use crate::records::{ListingRow, PackageRow, RevisionRow, SetRow, VersionRow};

verus! {

/// Refreshing twice from the same sources leaves the same tables as refreshing
/// once, and a refresh keeps nothing of what the cache held before.
pub proof fn lemma_refresh_idempotent(before: CacheView, other: CacheView, input: RefreshInput)
    ensures
        after_refresh(after_refresh(before, input), input) == after_refresh(before, input),
        after_refresh(before, input) == after_refresh(other, input),
        all_tables_present(after_refresh(before, input)),
{
}

/// Storing the repository revisions twice from the same locations and revision
/// listings leaves the same tables as storing them once; so does resolving the
/// same set files twice, the available packages being unchanged in between.
pub proof fn lemma_store_steps_idempotent(
    t: CacheView,
    locations: Seq<Seq<char>>,
    listings: Seq<Option<Seq<char>>>,
    sets: Seq<SetFileRow>,
)
    requires
        locations.len() == listings.len(),
    ensures
        ({
            let once = CacheView { repo_hashes: Some(revision_rows(locations, listings)), ..t };
            (CacheView { repo_hashes: Some(revision_rows(locations, listings)), ..once }) == once
        }),
        ({
            let once = CacheView {
                portage_sets: Some(set_rows(sets, rows_or_empty(t.all_packages))),
                ..t
            };
            (CacheView {
                portage_sets: Some(set_rows(sets, rows_or_empty(once.all_packages))),
                ..once
            }) == once
        }),
{
}

/// The cache counts as present only when all six tables are: with any one of
/// them absent, the cache counts as absent, whatever the other five hold.
pub proof fn lemma_missing_table_means_no_cache(t: CacheView)
    requires
        t.all_packages is None || t.installed_packages is None || t.recommended_packages is None
            || t.portage_sets is None || t.ebuilds is None || t.repo_hashes is None,
    ensures
        !all_tables_present(t),
{
}

/// Once one stored repository has moved on, the cache is stale whatever the
/// revision queries of the other repositories return: the check may stop at
/// the first mismatch.
pub proof fn lemma_first_mismatch_decides(
    stored: Seq<RevisionRow>,
    listings: Seq<Option<Seq<char>>>,
    others: Seq<Option<Seq<char>>>,
    i: int,
)
    requires
        0 <= i < stored.len(),
        i < listings.len(),
        i < others.len(),
        head_differs(stored[i], listings[i]),
        others[i] == listings[i],
    ensures
        is_stale(stored, listings),
        is_stale(stored, others),
{
    assert(head_differs(stored[i], others[i]));
}

/// The first recommended (or installed) version of a package is absent exactly
/// when no row has its category and name, and is the version of such a row
/// otherwise.
pub proof fn lemma_first_version(rows: Seq<VersionRow>, c: Seq<char>, n: Seq<char>)
    ensures
        first_version(rows, c, n) is None <==> (forall|j: int|
            0 <= j < rows.len() ==> !(#[trigger] rows[j].category == c && rows[j].name == n)),
        first_version(rows, c, n) is Some ==> exists|j: int|
            0 <= j < rows.len() && #[trigger] rows[j].category == c && rows[j].name == n
                && first_version(rows, c, n) == Some(rows[j].version),
    decreases rows.len(),
{
    if rows.len() > 0 {
        let p = rows.drop_last();
        lemma_first_version(p, c, n);
        assert forall|j: int| 0 <= j < p.len() implies #[trigger] p[j] == rows[j] by {}
        if first_version(p, c, n) is Some {
            let j = choose|j: int|
                0 <= j < p.len() && #[trigger] p[j].category == c && p[j].name == n
                    && first_version(p, c, n) == Some(p[j].version);
            assert(rows[j] == p[j]);
        }
        if first_version(rows, c, n) is None {
            assert forall|j: int| 0 <= j < rows.len() implies !(#[trigger] rows[j].category == c
                && rows[j].name == n) by {
                if j < p.len() {
                    assert(rows[j] == p[j]);
                }
            }
        }
    }
}

/// The placeholders of a listing: a package with no installed row shows the
/// empty text as installed version, and one with no recommended row shows
/// "Not available"; otherwise the recommended version is that of one of its
/// recommended rows.
pub proof fn lemma_placeholders(t: CacheView, c: Seq<char>, n: Seq<char>)
    ensures
        (forall|j: int|
            0 <= j < rows_or_empty(t.installed_packages).len() ==> !(#[trigger] rows_or_empty(
                t.installed_packages,
            )[j].category == c && rows_or_empty(t.installed_packages)[j].name == n))
            ==> installed_of(t, c, n) == Seq::<char>::empty(),
        (forall|j: int|
            0 <= j < rows_or_empty(t.recommended_packages).len() ==> !(
            #[trigger] rows_or_empty(t.recommended_packages)[j].category == c && rows_or_empty(
                t.recommended_packages,
            )[j].name == n)) ==> recommended_of(t, c, n) == not_available(),
        (exists|j: int|
            0 <= j < rows_or_empty(t.recommended_packages).len() && #[trigger] rows_or_empty(
                t.recommended_packages,
            )[j].category == c && rows_or_empty(t.recommended_packages)[j].name == n)
            ==> exists|j: int|
            0 <= j < rows_or_empty(t.recommended_packages).len() && #[trigger] rows_or_empty(
                t.recommended_packages,
            )[j].category == c && rows_or_empty(t.recommended_packages)[j].name == n
                && recommended_of(t, c, n) == rows_or_empty(t.recommended_packages)[j].version,
{
    lemma_first_version(rows_or_empty(t.installed_packages), c, n);
    lemma_first_version(rows_or_empty(t.recommended_packages), c, n);
}

/// Grouping keeps one row per key: each kept row is the first row of its key,
/// and every key of the input is kept.
pub proof fn lemma_group_shape(items: Seq<(Seq<char>, ListingRow)>)
    ensures
        group_first(items).len() == group_keys(items).len(),
        forall|k: int|
            0 <= k < group_first(items).len() ==> exists|j: int|
                0 <= j < items.len() && #[trigger] items[j] == (
                    group_keys(items)[k],
                    #[trigger] group_first(items)[k],
                ),
        forall|j: int| 0 <= j < items.len() ==> group_keys(items).contains(#[trigger] items[j].0),
    decreases items.len(),
{
    if items.len() > 0 {
        let p = items.drop_last();
        lemma_group_shape(p);
        let last = items.last();
        assert forall|j: int| 0 <= j < p.len() implies #[trigger] p[j] == items[j] by {}
        if group_keys(p).contains(last.0) {
            assert forall|k: int| 0 <= k < group_first(items).len() implies exists|j: int|
                0 <= j < items.len() && #[trigger] items[j] == (
                    group_keys(items)[k],
                    #[trigger] group_first(items)[k],
                ) by {
                let j = choose|j: int|
                    0 <= j < p.len() && #[trigger] p[j] == (
                        group_keys(p)[k],
                        #[trigger] group_first(p)[k],
                    );
                assert(items[j] == p[j]);
            }
            assert forall|j: int| 0 <= j < items.len() implies group_keys(items).contains(
                #[trigger] items[j].0,
            ) by {
                if j < p.len() {
                    assert(items[j] == p[j]);
                }
            }
        } else {
            assert forall|k: int| 0 <= k < group_first(items).len() implies exists|j: int|
                0 <= j < items.len() && #[trigger] items[j] == (
                    group_keys(items)[k],
                    #[trigger] group_first(items)[k],
                ) by {
                if k < group_first(p).len() {
                    let j = choose|j: int|
                        0 <= j < p.len() && #[trigger] p[j] == (
                            group_keys(p)[k],
                            #[trigger] group_first(p)[k],
                        );
                    assert(items[j] == p[j]);
                } else {
                    assert(items[items.len() - 1] == (
                        group_keys(items)[k],
                        group_first(items)[k],
                    ));
                }
            }
            assert forall|j: int| 0 <= j < items.len() implies group_keys(items).contains(
                #[trigger] items[j].0,
            ) by {
                if j < p.len() {
                    assert(items[j] == p[j]);
                    let m = choose|m: int| 0 <= m < group_keys(p).len() && group_keys(p)[m] == p[j].0;
                    assert(group_keys(items)[m] == items[j].0);
                } else {
                    assert(group_keys(items)[group_keys(p).len() as int] == items[j].0);
                }
            }
        }
    }
}

/// Each candidate row of a listing of available packages is that of a selected row.
proof fn lemma_candidate_source(
    t: CacheView,
    rows: Seq<PackageRow>,
    sel: Seq<char>,
    search: bool,
    j: int,
)
    requires
        0 <= j < package_candidates(t, rows, sel, search).len(),
    ensures
        exists|r: int|
            #![trigger rows[r]]
            0 <= r < rows.len() && package_selected(rows[r], sel, search)
                && package_candidates(t, rows, sel, search)[j] == package_candidate(t, rows[r]),
    decreases rows.len(),
{
    let p = rows.drop_last();
    let cp = package_candidates(t, p, sel, search);
    if j < cp.len() {
        lemma_candidate_source(t, p, sel, search, j);
        let r = choose|r: int|
            #![trigger p[r]]
            0 <= r < p.len() && package_selected(p[r], sel, search) && cp[j] == package_candidate(t, p[r]);
        assert(rows[r] == p[r]);
    } else {
        let r = rows.len() - 1;
        assert(package_selected(rows[r], sel, search));
        assert(package_candidates(t, rows, sel, search)[j] == package_candidate(t, rows[r]));
    }
}

/// Each selected row of the available packages has its candidate row.
proof fn lemma_candidate_listed(
    t: CacheView,
    rows: Seq<PackageRow>,
    sel: Seq<char>,
    search: bool,
    r: int,
)
    requires
        0 <= r < rows.len(),
        package_selected(rows[r], sel, search),
    ensures
        exists|j: int|
            #![trigger package_candidates(t, rows, sel, search)[j]]
            0 <= j < package_candidates(t, rows, sel, search).len()
                && package_candidates(t, rows, sel, search)[j] == package_candidate(t, rows[r]),
    decreases rows.len(),
{
    let p = rows.drop_last();
    let cp = package_candidates(t, p, sel, search);
    if r < p.len() {
        assert(rows[r] == p[r]);
        lemma_candidate_listed(t, p, sel, search, r);
        let j = choose|j: int|
            #![trigger cp[j]]
            0 <= j < cp.len() && cp[j] == package_candidate(t, p[r]);
        assert(package_candidates(t, rows, sel, search)[j] == cp[j]);
    } else {
        assert(package_candidates(t, rows, sel, search)[cp.len() as int] == package_candidate(
            t,
            rows[r],
        ));
    }
}

proof fn lemma_selected_rows(rows: Seq<PackageRow>, sel: Seq<char>, search: bool, x: PackageRow)
    ensures
        selected_rows(rows, sel, search).contains(x) <==> (rows.contains(x) && package_selected(
            x,
            sel,
            search,
        )),
    decreases rows.len(),
{
    if rows.len() > 0 {
        let p = rows.drop_last();
        lemma_selected_rows(p, sel, search, x);
        let sp = selected_rows(p, sel, search);
        let sr = selected_rows(rows, sel, search);
        if sr.contains(x) {
            let k = choose|k: int| 0 <= k < sr.len() && sr[k] == x;
            if k < sp.len() {
                assert(sp[k] == x);
                let m = choose|m: int| 0 <= m < p.len() && p[m] == x;
                assert(rows[m] == x);
            } else {
                assert(rows[rows.len() - 1] == x);
            }
        }
        if rows.contains(x) && package_selected(x, sel, search) {
            let m = choose|m: int| 0 <= m < rows.len() && rows[m] == x;
            if m < p.len() {
                assert(p[m] == x);
                let k = choose|k: int| 0 <= k < sp.len() && sp[k] == x;
                assert(sr[k] == x);
            } else {
                assert(sr[sp.len() as int] == x);
            }
        }
    }
}

/// A row is listed exactly when it is an available row that the listing selects.
pub proof fn lemma_listed_rows(t: CacheView, sel: Seq<char>, search: bool, x: PackageRow)
    ensures
        listed_rows(t, sel, search).contains(x) <==> (rows_or_empty(t.all_packages).contains(x)
            && package_selected(x, sel, search)),
{
    broadcast use vstd::seq_lib::group_to_multiset_ensures;

    let sel_rows = selected_rows(rows_or_empty(t.all_packages), sel, search);
    lemma_by_category(sel_rows);
    lemma_selected_rows(rows_or_empty(t.all_packages), sel, search, x);
    assert(listed_rows(t, sel, search).to_multiset().count(x) == sel_rows.to_multiset().count(x));
}

/// Each row of the all-packages listing of a category is the row of an
/// available package of that category, joined with its installed version (or
/// the empty text) and its recommended version (or "Not available"); see
/// `lemma_placeholders` for what those lookups give.
pub proof fn lemma_listing_join(t: CacheView, sel: Seq<char>, k: int)
    requires
        0 <= k < listing(t, ViewKind::AllPackages, sel).len(),
    ensures
        exists|j: int|
            0 <= j < rows_or_empty(t.all_packages).len() && rows_or_empty(t.all_packages)[j].category
                == sel && listing(t, ViewKind::AllPackages, sel)[k] == (#[trigger] package_candidate(
                t,
                rows_or_empty(t.all_packages)[j],
            )).1,
{
    let all = rows_or_empty(t.all_packages);
    let rows = listed_rows(t, sel, false);
    let items = package_candidates(t, rows, sel, false);
    lemma_group_shape(items);
    let j = choose|j: int|
        0 <= j < items.len() && #[trigger] items[j] == (
            group_keys(items)[k],
            #[trigger] group_first(items)[k],
        );
    lemma_candidate_source(t, rows, sel, false, j);
    let r = choose|r: int|
        #![trigger rows[r]]
        0 <= r < rows.len() && package_selected(rows[r], sel, false) && items[j]
            == package_candidate(t, rows[r]);
    assert(listing(t, ViewKind::AllPackages, sel)[k] == package_candidate(t, rows[r]).1);
    assert(rows.contains(rows[r]));
    lemma_listed_rows(t, sel, false, rows[r]);
    let m = choose|m: int| 0 <= m < all.len() && all[m] == rows[r];
    assert(package_candidate(t, all[m]) == package_candidate(t, rows[r]));
}

proof fn lemma_search_row_source(t: CacheView, term: Seq<char>, k: int)
    requires
        0 <= k < search_listing(t, term).len(),
    ensures
        exists|r: int|
            #![trigger rows_or_empty(t.all_packages)[r]]
            0 <= r < rows_or_empty(t.all_packages).len() && like_contains(
                rows_or_empty(t.all_packages)[r].name,
                term,
            ) && search_listing(t, term)[k].name == rows_or_empty(t.all_packages)[r].name,
{
    let all = rows_or_empty(t.all_packages);
    let rows = listed_rows(t, term, true);
    let items = package_candidates(t, rows, term, true);
    lemma_group_shape(items);
    let j = choose|j: int|
        0 <= j < items.len() && #[trigger] items[j] == (
            group_keys(items)[k],
            #[trigger] group_first(items)[k],
        );
    lemma_candidate_source(t, rows, term, true, j);
    let r = choose|r: int|
        #![trigger rows[r]]
        0 <= r < rows.len() && package_selected(rows[r], term, true) && items[j]
            == package_candidate(t, rows[r]);
    assert(search_listing(t, term)[k] == package_candidate(t, rows[r]).1);
    assert(rows.contains(rows[r]));
    lemma_listed_rows(t, term, true, rows[r]);
    let m = choose|m: int| 0 <= m < all.len() && all[m] == rows[r];
    assert(all[m].name == rows[r].name);
}

/// Every available row that a listing selects has a row of its name in the
/// listing.
proof fn lemma_row_listed(t: CacheView, sel: Seq<char>, search: bool, j: int)
    requires
        0 <= j < rows_or_empty(t.all_packages).len(),
        package_selected(rows_or_empty(t.all_packages)[j], sel, search),
    ensures
        exists|k: int|
            0 <= k < group_first(package_candidates(t, listed_rows(t, sel, search), sel, search)).len() && #[trigger] group_first(package_candidates(t, listed_rows(t, sel, search), sel, search))[k].name
                == rows_or_empty(t.all_packages)[j].name,
{
    let all = rows_or_empty(t.all_packages);
    let rows = listed_rows(t, sel, search);
    let items = package_candidates(t, rows, sel, search);
    let out = group_first(package_candidates(t, listed_rows(t, sel, search), sel, search));
    lemma_group_shape(items);
    assert(package_selected(all[j], sel, search));
    assert(all.contains(all[j]));
    lemma_listed_rows(t, sel, search, all[j]);
    let q = choose|q: int| 0 <= q < rows.len() && rows[q] == all[j];
    lemma_candidate_listed(t, rows, sel, search, q);
    let c = choose|c: int|
        #![trigger items[c]]
        0 <= c < items.len() && items[c] == package_candidate(t, rows[q]);
    assert(group_keys(items).contains(items[c].0));
    let m = choose|m: int| 0 <= m < group_keys(items).len() && group_keys(items)[m] == items[c].0;
    let w = choose|w: int|
        0 <= w < items.len() && #[trigger] items[w] == (
            group_keys(items)[m],
            #[trigger] group_first(items)[m],
        );
    lemma_candidate_source(t, rows, sel, search, w);
    let r = choose|r: int|
        #![trigger rows[r]]
        0 <= r < rows.len() && package_selected(rows[r], sel, search) && items[w]
            == package_candidate(t, rows[r]);
    assert(out[m].name == all[j].name);
}

/// In the all-packages view of category `c`, every package of `c` has a row,
/// and the row of package `n` shows the installed version of `c`/`n` (the
/// empty text where no installed row has that category and name, see
/// `lemma_placeholders`) and its recommended version ("Not available" where no
/// recommended row has them). Rows of another category, whatever its case,
/// take no part.
pub proof fn lemma_all_packages_view_versions(t: CacheView, c: Seq<char>)
    ensures
        forall|k: int|
            0 <= k < listing(t, ViewKind::AllPackages, c).len() ==> (#[trigger] listing(
                t,
                ViewKind::AllPackages,
                c,
            )[k]).installed_version == installed_of(
                t,
                c,
                listing(t, ViewKind::AllPackages, c)[k].name,
            ) && listing(t, ViewKind::AllPackages, c)[k].recommended_version == recommended_of(
                t,
                c,
                listing(t, ViewKind::AllPackages, c)[k].name,
            ),
        forall|j: int|
            0 <= j < rows_or_empty(t.all_packages).len() && #[trigger] rows_or_empty(
                t.all_packages,
            )[j].category == c ==> exists|k: int|
                0 <= k < listing(t, ViewKind::AllPackages, c).len() && listing(
                    t,
                    ViewKind::AllPackages,
                    c,
                )[k].name == rows_or_empty(t.all_packages)[j].name,
{
    let all = rows_or_empty(t.all_packages);
    let l = listing(t, ViewKind::AllPackages, c);
    assert forall|k: int| 0 <= k < l.len() implies (#[trigger] l[k]).installed_version
        == installed_of(t, c, l[k].name) && l[k].recommended_version == recommended_of(
        t,
        c,
        l[k].name,
    ) by {
        lemma_listing_join(t, c, k);
        let j = choose|j: int|
            0 <= j < all.len() && all[j].category == c && l[k] == (#[trigger] package_candidate(
                t,
                all[j],
            )).1;
        assert(l[k].name == all[j].name);
    }
    assert forall|j: int| 0 <= j < all.len() && #[trigger] all[j].category == c implies exists|k: int|
        0 <= k < l.len() && l[k].name == all[j].name by {
        assert(package_selected(all[j], c, false));
        lemma_row_listed(t, c, false, j);
    }
}

/// A search lists exactly the available package names that hold the term,
/// without ASCII case: every listed name holds it and is an available name,
/// and every available name that holds it is listed. A term that no name holds
/// gives the empty listing.
pub proof fn lemma_search_matches(t: CacheView, term: Seq<char>)
    ensures
        forall|k: int|
            0 <= k < search_listing(t, term).len() ==> like_contains(
                #[trigger] search_listing(t, term)[k].name,
                term,
            ),
        forall|j: int|
            0 <= j < rows_or_empty(t.all_packages).len() && like_contains(
                #[trigger] rows_or_empty(t.all_packages)[j].name,
                term,
            ) ==> exists|k: int|
                0 <= k < search_listing(t, term).len() && #[trigger] search_listing(t, term)[k].name
                    == rows_or_empty(t.all_packages)[j].name,
        (forall|j: int|
            0 <= j < rows_or_empty(t.all_packages).len() ==> !like_contains(
                #[trigger] rows_or_empty(t.all_packages)[j].name,
                term,
            )) ==> search_listing(t, term).len() == 0,
{
    let rows = rows_or_empty(t.all_packages);
    assert forall|k: int| 0 <= k < search_listing(t, term).len() implies like_contains(
        #[trigger] search_listing(t, term)[k].name,
        term,
    ) by {
        lemma_search_row_source(t, term, k);
    }
    assert forall|j: int|
        0 <= j < rows.len() && like_contains(#[trigger] rows[j].name, term) implies exists|k: int|
        0 <= k < search_listing(t, term).len() && #[trigger] search_listing(t, term)[k].name
            == rows[j].name by {
        assert(package_selected(rows[j], term, true));
        lemma_row_listed(t, term, true, j);
        assert(search_listing(t, term) == group_first(
            package_candidates(t, listed_rows(t, term, true), term, true),
        ));
        let k = choose|k: int|
            0 <= k < search_listing(t, term).len() && #[trigger] search_listing(t, term)[k].name
                == rows[j].name;
    }
    if search_listing(t, term).len() > 0 {
        lemma_search_row_source(t, term, 0);
    }
}

/// A set line yields a membership row exactly when the package that it names,
/// its version qualifier set aside, is available; the row ties the raw line to
/// that category and name.
pub proof fn lemma_set_line(set_name: Seq<char>, line: Seq<char>, all: Seq<PackageRow>)
    ensures
        set_line_row(set_name, line, all) is Some <==> (set_target(line) is Some && is_available(
            all,
            set_target(line)->Some_0.0,
            set_target(line)->Some_0.1,
        )),
        set_line_row(set_name, line, all) is Some ==> set_line_row(set_name, line, all)->Some_0
            == (SetRow {
            set_name,
            category_and_name: line,
            category: set_target(line)->Some_0.0,
            name: set_target(line)->Some_0.1,
        }),
{
}

/// The membership rows of a set file are those of its lines that name an
/// available package, one row for each such line.
pub proof fn lemma_set_rows_of_lines(set_name: Seq<char>, ls: Seq<Seq<char>>, all: Seq<PackageRow>)
    ensures
        forall|k: int|
            0 <= k < set_lines_rows(set_name, ls, all).len() ==> exists|j: int|
                0 <= j < ls.len() && set_line_row(set_name, #[trigger] ls[j], all) == Some(
                    #[trigger] set_lines_rows(set_name, ls, all)[k],
                ),
        forall|j: int|
            0 <= j < ls.len() && (#[trigger] set_line_row(set_name, ls[j], all)) is Some ==> exists|
                k: int,
            |
                0 <= k < set_lines_rows(set_name, ls, all).len() && Some(
                    #[trigger] set_lines_rows(set_name, ls, all)[k],
                ) == set_line_row(set_name, ls[j], all),
    decreases ls.len(),
{
    if ls.len() > 0 {
        let p = ls.drop_last();
        lemma_set_rows_of_lines(set_name, p, all);
        let rp = set_lines_rows(set_name, p, all);
        let r = set_lines_rows(set_name, ls, all);
        assert forall|j: int| 0 <= j < p.len() implies #[trigger] p[j] == ls[j] by {}
        assert forall|k: int| 0 <= k < r.len() implies exists|j: int|
            0 <= j < ls.len() && set_line_row(set_name, #[trigger] ls[j], all) == Some(
                #[trigger] r[k],
            ) by {
            if k < rp.len() {
                assert(r[k] == rp[k]);
                let j = choose|j: int|
                    0 <= j < p.len() && set_line_row(set_name, #[trigger] p[j], all) == Some(
                        #[trigger] rp[k],
                    );
                assert(ls[j] == p[j]);
            } else {
                assert(set_line_row(set_name, ls[ls.len() - 1], all) == Some(r[k]));
            }
        }
        assert forall|j: int|
            0 <= j < ls.len() && (#[trigger] set_line_row(set_name, ls[j], all)) is Some implies exists|
                k: int,
            | 0 <= k < r.len() && Some(#[trigger] r[k]) == set_line_row(set_name, ls[j], all) by {
            if j < p.len() {
                assert(ls[j] == p[j]);
                let k = choose|k: int|
                    0 <= k < rp.len() && Some(#[trigger] rp[k]) == set_line_row(set_name, p[j], all);
                assert(r[k] == rp[k]);
            } else {
                assert(Some(r[rp.len() as int]) == set_line_row(set_name, ls[j], all));
            }
        }
    }
}

} // verus!
