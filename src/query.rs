//! The query service: category counts, package listings and search, each a
//! join of a primary table with the installed and recommended tables.
use vstd::prelude::*;
use crate::cache::{available_has, is_available, rows_or_empty, texts, CacheStore, CacheView};
use crate::records::{
    lemma_rows_of_push, rows_of, CategoryCount, CountRow, ListingRow, PackageListing, PackageRecord, PackageRow,
    SetMembership, SetRow, VersionRecord, VersionRow,
};
use crate::order::{by_category, sort_by_category};
use crate::text::{chars_of, text_opt};

verus! {

/// Which table a query reads.
#[derive(Clone, Copy, Debug, PartialEq, Eq, Structural)]
pub enum ViewKind {
    AllPackages,
    InstalledPackages,
    Sets,
    SearchResults,
}

/// Two characters that are equal once ASCII letters are taken without case.
pub open spec fn same_letter(a: char, b: char) -> bool {
    a == b || ('A' <= a && a <= 'Z' && b as u32 == a as u32 + 32) || ('A' <= b && b <= 'Z'
        && a as u32 == b as u32 + 32)
}

/// Equality without ASCII case, which a search uses to match a name.
pub open spec fn like_eq(a: Seq<char>, b: Seq<char>) -> bool {
    a.len() == b.len() && forall|i: int| 0 <= i < a.len() ==> same_letter(#[trigger] a[i], b[i])
}

/// Whether `needle` occurs in `hay`, ASCII letters taken without case.
pub open spec fn like_contains(hay: Seq<char>, needle: Seq<char>) -> bool {
    exists|i: int|
        0 <= i && i + needle.len() <= hay.len() && #[trigger] like_eq(
            hay.subrange(i, i + needle.len()),
            needle,
        )
}

fn same_letter_exec(a: char, b: char) -> (r: bool)
    ensures
        r == same_letter(a, b),
{
    a == b || ('A' <= a && a <= 'Z' && b as u32 == a as u32 + 32) || ('A' <= b && b <= 'Z'
        && a as u32 == b as u32 + 32)
}

/// Whether `b` occurs in `a` at `off`, ASCII letters taken without case.
fn like_eq_at(a: &Vec<char>, off: usize, b: &Vec<char>) -> (r: bool)
    requires
        off + b.len() <= a.len(),
    ensures
        r == like_eq(a@.subrange(off as int, off + b.len()), b@),
{
    let mut i: usize = 0;
    while i < b.len()
        invariant
            off + b.len() <= a.len(),
            0 <= i <= b.len(),
            forall|j: int| 0 <= j < i ==> same_letter(a@[off + j], b@[j]),
        decreases b.len() - i,
    {
        if !same_letter_exec(a[off + i], b[i]) {
            assert(a@.subrange(off as int, off + b.len())[i as int] == a@[off + i]);
            return false;
        }
        i = i + 1;
    }
    assert forall|j: int| 0 <= j < b.len() implies same_letter(
        #[trigger] a@.subrange(off as int, off + b.len())[j],
        b@[j],
    ) by {
        assert(a@.subrange(off as int, off + b.len())[j] == a@[off + j]);
    }
    true
}

/// Whether `needle` occurs in `hay` without ASCII case.
pub fn text_like_contains(hay: &str, needle: &str) -> (r: bool)
    ensures
        r == like_contains(hay@, needle@),
{
    let h = chars_of(hay);
    let n = chars_of(needle);
    if n.len() > h.len() {
        return false;
    }
    let last: usize = h.len() - n.len();
    let mut i: usize = 0;
    while i <= last
        invariant
            last == h.len() - n.len(),
            n.len() <= h.len(),
            h@ == hay@,
            n@ == needle@,
            0 <= i <= last + 1,
            forall|j: int| 0 <= j < i ==> !#[trigger] like_eq(h@.subrange(j, j + n@.len()), n@),
        decreases last + 1 - i,
    {
        if like_eq_at(&h, i, &n) {
            return true;
        }
        i = i + 1;
    }
    false
}

/// The version of the first row with this category and name.
pub open spec fn first_version(rows: Seq<VersionRow>, c: Seq<char>, n: Seq<char>) -> Option<Seq<char>>
    decreases rows.len(),
{
    if rows.len() == 0 {
        None
    } else {
        match first_version(rows.drop_last(), c, n) {
            Some(v) => Some(v),
            None => if rows.last().category == c && rows.last().name == n {
                Some(rows.last().version)
            } else {
                None
            },
        }
    }
}

/// The description of the first available row with this category and name.
pub open spec fn first_description(rows: Seq<PackageRow>, c: Seq<char>, n: Seq<char>) -> Option<
    Seq<char>,
>
    decreases rows.len(),
{
    if rows.len() == 0 {
        None
    } else {
        match first_description(rows.drop_last(), c, n) {
            Some(v) => Some(v),
            None => if rows.last().category == c && rows.last().name == n {
                Some(rows.last().description)
            } else {
                None
            },
        }
    }
}

/// What stands for a package that has no recommended version.
pub open spec fn not_available() -> Seq<char> {
    "Not available"@
}

/// The installed version of a package, or the empty text.
pub open spec fn installed_of(t: CacheView, c: Seq<char>, n: Seq<char>) -> Seq<char> {
    match first_version(rows_or_empty(t.installed_packages), c, n) {
        Some(v) => v,
        None => Seq::empty(),
    }
}

/// The recommended version of a package, or "Not available".
pub open spec fn recommended_of(t: CacheView, c: Seq<char>, n: Seq<char>) -> Seq<char> {
    match first_version(rows_or_empty(t.recommended_packages), c, n) {
        Some(v) => v,
        None => not_available(),
    }
}

/// The description of a package, or the empty text.
pub open spec fn description_of(t: CacheView, c: Seq<char>, n: Seq<char>) -> Seq<char> {
    match first_description(rows_or_empty(t.all_packages), c, n) {
        Some(v) => v,
        None => Seq::empty(),
    }
}

/// The listing row of an available package, keyed by its name.
pub open spec fn package_candidate(t: CacheView, a: PackageRow) -> (Seq<char>, ListingRow) {
    (
        a.name,
        ListingRow {
            name: a.name,
            installed_version: installed_of(t, a.category, a.name),
            recommended_version: recommended_of(t, a.category, a.name),
            description: a.description,
        },
    )
}

/// The listing row of an installed package, keyed by its name; its recommended
/// version is looked up through the available packages.
pub open spec fn installed_candidate(t: CacheView, i: VersionRow) -> (Seq<char>, ListingRow) {
    (
        i.name,
        ListingRow {
            name: i.name,
            installed_version: i.version,
            recommended_version: if is_available(
                rows_or_empty(t.all_packages),
                i.category,
                i.name,
            ) {
                recommended_of(t, i.category, i.name)
            } else {
                not_available()
            },
            description: description_of(t, i.category, i.name),
        },
    )
}

/// The listing row of a set member, keyed by the raw line of the set file.
pub open spec fn set_candidate(t: CacheView, s: SetRow) -> (Seq<char>, ListingRow) {
    (
        s.category_and_name,
        ListingRow {
            name: s.category_and_name,
            installed_version: installed_of(t, s.category, s.name),
            recommended_version: recommended_of(t, s.category, s.name),
            description: description_of(t, s.category, s.name),
        },
    )
}

/// Whether an available row is selected: by its category, or, for a search, by
/// a name that holds the term.
pub open spec fn package_selected(a: PackageRow, sel: Seq<char>, search: bool) -> bool {
    if search {
        like_contains(a.name, sel)
    } else {
        a.category == sel
    }
}

pub open spec fn package_candidates(
    t: CacheView,
    rows: Seq<PackageRow>,
    sel: Seq<char>,
    search: bool,
) -> Seq<(Seq<char>, ListingRow)>
    decreases rows.len(),
{
    if rows.len() == 0 {
        Seq::empty()
    } else {
        let p = package_candidates(t, rows.drop_last(), sel, search);
        if package_selected(rows.last(), sel, search) {
            p.push(package_candidate(t, rows.last()))
        } else {
            p
        }
    }
}

pub open spec fn installed_candidates(t: CacheView, rows: Seq<VersionRow>, sel: Seq<char>) -> Seq<
    (Seq<char>, ListingRow),
>
    decreases rows.len(),
{
    if rows.len() == 0 {
        Seq::empty()
    } else {
        let p = installed_candidates(t, rows.drop_last(), sel);
        if rows.last().category == sel {
            p.push(installed_candidate(t, rows.last()))
        } else {
            p
        }
    }
}

pub open spec fn set_candidates(t: CacheView, rows: Seq<SetRow>, sel: Seq<char>) -> Seq<
    (Seq<char>, ListingRow),
>
    decreases rows.len(),
{
    if rows.len() == 0 {
        Seq::empty()
    } else {
        let p = set_candidates(t, rows.drop_last(), sel);
        if rows.last().set_name == sel {
            p.push(set_candidate(t, rows.last()))
        } else {
            p
        }
    }
}

/// The distinct keys of keyed rows, in order of first appearance.
pub open spec fn group_keys(items: Seq<(Seq<char>, ListingRow)>) -> Seq<Seq<char>>
    decreases items.len(),
{
    if items.len() == 0 {
        Seq::empty()
    } else {
        let p = group_keys(items.drop_last());
        if p.contains(items.last().0) {
            p
        } else {
            p.push(items.last().0)
        }
    }
}

/// One row per key: the first row of each key, in order of first appearance.
pub open spec fn group_first(items: Seq<(Seq<char>, ListingRow)>) -> Seq<ListingRow>
    decreases items.len(),
{
    if items.len() == 0 {
        Seq::empty()
    } else {
        let p = group_first(items.drop_last());
        if group_keys(items.drop_last()).contains(items.last().0) {
            p
        } else {
            p.push(items.last().1)
        }
    }
}

/// The available rows that a listing selects, in table order.
pub open spec fn selected_rows(rows: Seq<PackageRow>, sel: Seq<char>, search: bool) -> Seq<PackageRow>
    decreases rows.len(),
{
    if rows.len() == 0 {
        Seq::empty()
    } else {
        let p = selected_rows(rows.drop_last(), sel, search);
        if package_selected(rows.last(), sel, search) {
            p.push(rows.last())
        } else {
            p
        }
    }
}

/// The available rows that a listing selects, ordered by category.
pub open spec fn listed_rows(t: CacheView, sel: Seq<char>, search: bool) -> Seq<PackageRow> {
    by_category(selected_rows(rows_or_empty(t.all_packages), sel, search))
}

/// The package listing of a view for a selected category (or set): one row per
/// package. A search view lists as the all-packages view does.
pub open spec fn listing(t: CacheView, view: ViewKind, sel: Seq<char>) -> Seq<ListingRow> {
    match view {
        ViewKind::InstalledPackages => group_first(
            installed_candidates(t, rows_or_empty(t.installed_packages), sel),
        ),
        ViewKind::Sets => group_first(set_candidates(t, rows_or_empty(t.portage_sets), sel)),
        _ => group_first(package_candidates(t, listed_rows(t, sel, false), sel, false)),
    }
}

/// The search listing: one row per available package whose name holds the term.
pub open spec fn search_listing(t: CacheView, term: Seq<char>) -> Seq<ListingRow> {
    group_first(package_candidates(t, listed_rows(t, term, true), term, true))
}

proof fn lemma_first_version_prefix(rows: Seq<VersionRow>, c: Seq<char>, n: Seq<char>, k: int)
    requires
        0 <= k <= rows.len(),
    ensures
        first_version(rows.take(k), c, n) is Some ==> first_version(rows, c, n) == first_version(
            rows.take(k),
            c,
            n,
        ),
    decreases rows.len() - k,
{
    if k < rows.len() {
        lemma_first_version_prefix(rows, c, n, k + 1);
        assert(rows.take(k + 1).drop_last() =~= rows.take(k));
    } else {
        assert(rows.take(k) =~= rows);
    }
}

proof fn lemma_first_description_prefix(
    rows: Seq<PackageRow>,
    c: Seq<char>,
    n: Seq<char>,
    k: int,
)
    requires
        0 <= k <= rows.len(),
    ensures
        first_description(rows.take(k), c, n) is Some ==> first_description(rows, c, n)
            == first_description(rows.take(k), c, n),
    decreases rows.len() - k,
{
    if k < rows.len() {
        lemma_first_description_prefix(rows, c, n, k + 1);
        assert(rows.take(k + 1).drop_last() =~= rows.take(k));
    } else {
        assert(rows.take(k) =~= rows);
    }
}

fn find_version(rows: &Vec<VersionRecord>, c: &String, n: &String) -> (r: Option<String>)
    ensures
        text_opt(r) == first_version(rows_of(rows@), c@, n@),
{
    let mut i: usize = 0;
    while i < rows.len()
        invariant
            0 <= i <= rows.len(),
            first_version(rows_of(rows@).take(i as int), c@, n@) is None,
        decreases rows.len() - i,
    {
        proof {
            assert(rows_of(rows@).take(i + 1).drop_last() =~= rows_of(rows@).take(i as int));
        }
        if rows[i].category == *c && rows[i].name == *n {
            proof {
                assert(rows_of(rows@).take(i + 1).last() == rows@[i as int]@);
                lemma_first_version_prefix(rows_of(rows@), c@, n@, i + 1);
            }
            return Some(rows[i].version.clone());
        }
        i = i + 1;
    }
    assert(rows_of(rows@).take(rows@.len() as int) =~= rows_of(rows@));
    None
}

fn find_description(rows: &Vec<PackageRecord>, c: &String, n: &String) -> (r: Option<String>)
    ensures
        text_opt(r) == first_description(rows_of(rows@), c@, n@),
{
    let mut i: usize = 0;
    while i < rows.len()
        invariant
            0 <= i <= rows.len(),
            first_description(rows_of(rows@).take(i as int), c@, n@) is None,
        decreases rows.len() - i,
    {
        proof {
            assert(rows_of(rows@).take(i + 1).drop_last() =~= rows_of(rows@).take(i as int));
        }
        if rows[i].category == *c && rows[i].name == *n {
            proof {
                assert(rows_of(rows@).take(i + 1).last() == rows@[i as int]@);
                lemma_first_description_prefix(rows_of(rows@), c@, n@, i + 1);
            }
            return Some(rows[i].description.clone());
        }
        i = i + 1;
    }
    assert(rows_of(rows@).take(rows@.len() as int) =~= rows_of(rows@));
    None
}

fn installed_version_of(store: &CacheStore, c: &String, n: &String) -> (r: String)
    ensures
        r@ == installed_of(store@, c@, n@),
{
    match store.installed_packages() {
        Some(rows) => match find_version(rows, c, n) {
            Some(v) => v,
            None => String::new(),
        },
        None => String::new(),
    }
}

fn recommended_version_of(store: &CacheStore, c: &String, n: &String) -> (r: String)
    ensures
        r@ == recommended_of(store@, c@, n@),
{
    match store.recommended_packages() {
        Some(rows) => match find_version(rows, c, n) {
            Some(v) => v,
            None => String::from_str("Not available"),
        },
        None => String::from_str("Not available"),
    }
}

fn description_text_of(store: &CacheStore, c: &String, n: &String) -> (r: String)
    ensures
        r@ == description_of(store@, c@, n@),
{
    match store.all_packages() {
        Some(rows) => match find_description(rows, c, n) {
            Some(v) => v,
            None => String::new(),
        },
        None => String::new(),
    }
}

fn is_available_in(store: &CacheStore, c: &String, n: &String) -> (r: bool)
    ensures
        r == is_available(rows_or_empty(store@.all_packages), c@, n@),
{
    match store.all_packages() {
        Some(rows) => available_has(rows, c, n),
        None => false,
    }
}

/// Whether a key is among the keys kept so far.
fn key_seen(keys: &Vec<String>, key: &String) -> (r: bool)
    ensures
        r == texts(keys@).contains(key@),
{
    let mut i: usize = 0;
    while i < keys.len()
        invariant
            0 <= i <= keys.len(),
            forall|j: int| 0 <= j < i ==> texts(keys@)[j] != key@,
        decreases keys.len() - i,
    {
        if keys[i] == *key {
            assert(texts(keys@)[i as int] == key@);
            return true;
        }
        i = i + 1;
    }
    false
}

/// The available rows that a listing selects, in table order.
fn selected_refs<'a>(store: &'a CacheStore, sel: &str, search: bool) -> (r: Vec<&'a PackageRecord>)
    ensures
        rows_of(r@) == selected_rows(rows_or_empty(store@.all_packages), sel@, search),
{
    let sel_text = String::from_str(sel);
    let mut out: Vec<&'a PackageRecord> = Vec::new();
    match store.all_packages() {
        Some(rows) => {
            let mut i: usize = 0;
            while i < rows.len()
                invariant
                    0 <= i <= rows.len(),
                    sel_text@ == sel@,
                    rows_of(out@) == selected_rows(rows_of(rows@).take(i as int), sel@, search),
                decreases rows.len() - i,
            {
                proof {
                    assert(rows_of(rows@).take(i + 1).drop_last() =~= rows_of(rows@).take(i as int));
                    assert(rows_of(rows@).take(i + 1).last() == rows@[i as int]@);
                }
                let a = &rows[i];
                let selected = if search {
                    text_like_contains(a.name.as_str(), sel)
                } else {
                    a.category == sel_text
                };
                if selected {
                    proof {
                        assert(rows_of(out@.push(a)) =~= rows_of(out@).push(a@));
                    }
                    out.push(a);
                }
                i = i + 1;
            }
            assert(rows_of(rows@).take(rows@.len() as int) =~= rows_of(rows@));
        },
        None => {},
    }
    out
}

fn list_available(store: &CacheStore, sel: &str, search: bool) -> (r: Vec<PackageListing>)
    ensures
        rows_of(r@) == group_first(package_candidates(store@, listed_rows(store@, sel@, search), sel@, search)),
{
    let sel_text = String::from_str(sel);
    let rows = sort_by_category(selected_refs(store, sel, search));
    let ghost src = rows_of(rows@);
    let mut out: Vec<PackageListing> = Vec::new();
    let mut keys: Vec<String> = Vec::new();
    let mut i: usize = 0;
    while i < rows.len()
        invariant
            src == rows_of(rows@),
            0 <= i <= rows.len(),
            sel_text@ == sel@,
            rows_of(out@) == group_first(package_candidates(store@, src.take(i as int), sel@, search)),
            texts(keys@) == group_keys(package_candidates(store@, src.take(i as int), sel@, search)),
        decreases rows.len() - i,
    {
        proof {
            assert(src.take(i + 1).drop_last() =~= src.take(i as int));
            assert(src.take(i + 1).last() == rows@[i as int]@);
        }
        let a = rows[i];
        let selected = if search {
            text_like_contains(a.name.as_str(), sel)
        } else {
            a.category == sel_text
        };
        if selected {
            let ghost cands = package_candidates(store@, src.take(i + 1), sel@, search);
            assert(cands.drop_last() == package_candidates(store@, src.take(i as int), sel@, search));
            if !key_seen(&keys, &a.name) {
                let row = PackageListing {
                    name: a.name.clone(),
                    installed_version: installed_version_of(store, &a.category, &a.name),
                    recommended_version: recommended_version_of(store, &a.category, &a.name),
                    description: a.description.clone(),
                };
                proof {
                    lemma_rows_of_push(out@, row);
                    assert(texts(keys@.push(a.name)) =~= texts(keys@).push(a.name@));
                }
                out.push(row);
                keys.push(a.name.clone());
            }
        }
        i = i + 1;
    }
    assert(src.take(rows@.len() as int) =~= src);
    out
}

fn list_installed(store: &CacheStore, sel: &str) -> (r: Vec<PackageListing>)
    ensures
        rows_of(r@) == group_first(
            installed_candidates(store@, rows_or_empty(store@.installed_packages), sel@),
        ),
{
    let sel_text = String::from_str(sel);
    let empty: Vec<VersionRecord> = Vec::new();
    let rows: &Vec<VersionRecord> = match store.installed_packages() {
        Some(v) => v,
        None => &empty,
    };
    let ghost src = rows_of(rows@);
    assert(src == rows_or_empty(store@.installed_packages));
    let mut out: Vec<PackageListing> = Vec::new();
    let mut keys: Vec<String> = Vec::new();
    let mut i: usize = 0;
    while i < rows.len()
        invariant
            src == rows_of(rows@),
            0 <= i <= rows.len(),
            sel_text@ == sel@,
            rows_of(out@) == group_first(installed_candidates(store@, src.take(i as int), sel@)),
            texts(keys@) == group_keys(installed_candidates(store@, src.take(i as int), sel@)),
        decreases rows.len() - i,
    {
        proof {
            assert(src.take(i + 1).drop_last() =~= src.take(i as int));
            assert(src.take(i + 1).last() == rows@[i as int]@);
        }
        let a = &rows[i];
        if a.category == sel_text {
            let ghost cands = installed_candidates(store@, src.take(i + 1), sel@);
            assert(cands.drop_last() == installed_candidates(store@, src.take(i as int), sel@));
            if !key_seen(&keys, &a.name) {
                let recommended = if is_available_in(store, &a.category, &a.name) {
                    recommended_version_of(store, &a.category, &a.name)
                } else {
                    String::from_str("Not available")
                };
                let row = PackageListing {
                    name: a.name.clone(),
                    installed_version: a.version.clone(),
                    recommended_version: recommended,
                    description: description_text_of(store, &a.category, &a.name),
                };
                proof {
                    lemma_rows_of_push(out@, row);
                    assert(texts(keys@.push(a.name)) =~= texts(keys@).push(a.name@));
                }
                out.push(row);
                keys.push(a.name.clone());
            }
        }
        i = i + 1;
    }
    assert(src.take(rows@.len() as int) =~= src);
    out
}

fn list_set(store: &CacheStore, sel: &str) -> (r: Vec<PackageListing>)
    ensures
        rows_of(r@) == group_first(set_candidates(store@, rows_or_empty(store@.portage_sets), sel@)),
{
    let sel_text = String::from_str(sel);
    let empty: Vec<SetMembership> = Vec::new();
    let rows: &Vec<SetMembership> = match store.portage_sets() {
        Some(v) => v,
        None => &empty,
    };
    let ghost src = rows_of(rows@);
    assert(src == rows_or_empty(store@.portage_sets));
    let mut out: Vec<PackageListing> = Vec::new();
    let mut keys: Vec<String> = Vec::new();
    let mut i: usize = 0;
    while i < rows.len()
        invariant
            src == rows_of(rows@),
            0 <= i <= rows.len(),
            sel_text@ == sel@,
            rows_of(out@) == group_first(set_candidates(store@, src.take(i as int), sel@)),
            texts(keys@) == group_keys(set_candidates(store@, src.take(i as int), sel@)),
        decreases rows.len() - i,
    {
        proof {
            assert(src.take(i + 1).drop_last() =~= src.take(i as int));
            assert(src.take(i + 1).last() == rows@[i as int]@);
        }
        let a = &rows[i];
        if a.set_name == sel_text {
            let ghost cands = set_candidates(store@, src.take(i + 1), sel@);
            assert(cands.drop_last() == set_candidates(store@, src.take(i as int), sel@));
            if !key_seen(&keys, &a.category_and_name) {
                let row = PackageListing {
                    name: a.category_and_name.clone(),
                    installed_version: installed_version_of(store, &a.category, &a.name),
                    recommended_version: recommended_version_of(store, &a.category, &a.name),
                    description: description_text_of(store, &a.category, &a.name),
                };
                proof {
                    lemma_rows_of_push(out@, row);
                    assert(texts(keys@.push(a.category_and_name)) =~= texts(keys@).push(
                        a.category_and_name@,
                    ));
                }
                out.push(row);
                keys.push(a.category_and_name.clone());
            }
        }
        i = i + 1;
    }
    assert(src.take(rows@.len() as int) =~= src);
    out
}

/// The label and package of each row of a view's primary table: category and
/// name, or, in the sets view, set name and raw line. A search view has none.
pub open spec fn label_pairs(t: CacheView, view: ViewKind) -> Seq<(Seq<char>, Seq<char>)> {
    match view {
        ViewKind::AllPackages => rows_or_empty(t.all_packages).map_values(
            |a: PackageRow| (a.category, a.name),
        ),
        ViewKind::InstalledPackages => rows_or_empty(t.installed_packages).map_values(
            |a: VersionRow| (a.category, a.name),
        ),
        ViewKind::Sets => rows_or_empty(t.portage_sets).map_values(
            |s: SetRow| (s.set_name, s.category_and_name),
        ),
        ViewKind::SearchResults => Seq::empty(),
    }
}

/// The first index at or after `k` whose label is `l`, or `p.len()`.
pub open spec fn label_index_from(p: Seq<CountRow>, l: Seq<char>, k: int) -> int
    decreases p.len() - k,
{
    if k >= p.len() {
        p.len() as int
    } else if p[k].label == l {
        k
    } else {
        label_index_from(p, l, k + 1)
    }
}

/// Grouped counts: one row per label in order of first appearance, counting the
/// distinct packages that appear with it.
pub open spec fn group_counts(pairs: Seq<(Seq<char>, Seq<char>)>) -> Seq<CountRow>
    decreases pairs.len(),
{
    if pairs.len() == 0 {
        Seq::empty()
    } else {
        let prev = pairs.drop_last();
        let p = group_counts(prev);
        let l = pairs.last().0;
        if prev.contains(pairs.last()) {
            p
        } else {
            let g = label_index_from(p, l, 0);
            if g < p.len() {
                p.update(g, CountRow { label: l, count: p[g].count + 1 })
            } else {
                p.push(CountRow { label: l, count: 1 })
            }
        }
    }
}

/// The view of pairs of strings.
pub open spec fn pair_texts(v: Seq<(String, String)>) -> Seq<(Seq<char>, Seq<char>)> {
    v.map_values(|p: (String, String)| (p.0@, p.1@))
}

proof fn lemma_contains_push<A>(s: Seq<A>, x: A, y: A)
    ensures
        s.push(x).contains(y) <==> (s.contains(y) || y == x),
{
    if s.push(x).contains(y) {
        let k = choose|k: int| 0 <= k < s.push(x).len() && #[trigger] s.push(x)[k] == y;
        if k < s.len() {
            assert(s[k] == y);
        }
    }
    if s.contains(y) {
        let k = choose|k: int| 0 <= k < s.len() && #[trigger] s[k] == y;
        assert(s.push(x)[k] == y);
    }
    if y == x {
        assert(s.push(x)[s.len() as int] == y);
    }
}

proof fn lemma_pair_texts_push(v: Seq<(String, String)>, x: (String, String))
    ensures
        pair_texts(v.push(x)) == pair_texts(v).push((x.0@, x.1@)),
{
    assert(pair_texts(v.push(x)) =~= pair_texts(v).push((x.0@, x.1@)));
}

pub proof fn lemma_label_index_bounds(p: Seq<CountRow>, l: Seq<char>, k: int)
    requires
        0 <= k,
    ensures
        k <= label_index_from(p, l, k) <= p.len() || (k > p.len() && label_index_from(p, l, k)
            == p.len()),
        label_index_from(p, l, k) < p.len() ==> p[label_index_from(p, l, k)].label == l,
        forall|j: int| k <= j < label_index_from(p, l, k) ==> p[j].label != l,
    decreases p.len() - k,
{
    if k < p.len() && p[k].label != l {
        lemma_label_index_bounds(p, l, k + 1);
    }
}

fn label_pairs_of(store: &CacheStore, view: ViewKind) -> (r: Vec<(String, String)>)
    ensures
        pair_texts(r@) == label_pairs(store@, view),
{
    let mut out: Vec<(String, String)> = Vec::new();
    match view {
        ViewKind::AllPackages => {
            if let Some(rows) = store.all_packages() {
                let mut i: usize = 0;
                while i < rows.len()
                    invariant
                        0 <= i <= rows.len(),
                        out@.len() == i,
                        forall|k: int| 0 <= k < i ==> #[trigger] pair_texts(out@)[k] == (rows_of(rows@)[k].category, rows_of(rows@)[k].name),
                    decreases rows.len() - i,
                {
                    let ghost before = out@;
                    out.push((rows[i].category.clone(), rows[i].name.clone()));
                    proof {
                        lemma_pair_texts_push(before, out@[i as int]);
                    }
                    i = i + 1;
                }
                assert(pair_texts(out@) =~= label_pairs(store@, view));
            }
        },
        ViewKind::InstalledPackages => {
            if let Some(rows) = store.installed_packages() {
                let mut i: usize = 0;
                while i < rows.len()
                    invariant
                        0 <= i <= rows.len(),
                        out@.len() == i,
                        forall|k: int| 0 <= k < i ==> #[trigger] pair_texts(out@)[k] == (rows_of(rows@)[k].category, rows_of(rows@)[k].name),
                    decreases rows.len() - i,
                {
                    let ghost before = out@;
                    out.push((rows[i].category.clone(), rows[i].name.clone()));
                    proof {
                        lemma_pair_texts_push(before, out@[i as int]);
                    }
                    i = i + 1;
                }
                assert(pair_texts(out@) =~= label_pairs(store@, view));
            }
        },
        ViewKind::Sets => {
            if let Some(rows) = store.portage_sets() {
                let mut i: usize = 0;
                while i < rows.len()
                    invariant
                        0 <= i <= rows.len(),
                        out@.len() == i,
                        forall|k: int| 0 <= k < i ==> #[trigger] pair_texts(out@)[k] == (rows_of(rows@)[k].set_name, rows_of(rows@)[k].category_and_name),
                    decreases rows.len() - i,
                {
                    let ghost before = out@;
                    out.push((rows[i].set_name.clone(), rows[i].category_and_name.clone()));
                    proof {
                        lemma_pair_texts_push(before, out@[i as int]);
                    }
                    i = i + 1;
                }
                assert(pair_texts(out@) =~= label_pairs(store@, view));
            }
        },
        ViewKind::SearchResults => {},
    }
    assert(pair_texts(out@) =~= label_pairs(store@, view));
    out
}

fn find_label(out: &Vec<CategoryCount>, l: &String) -> (g: usize)
    ensures
        g == label_index_from(rows_of(out@), l@, 0),
{
    let mut g: usize = 0;
    while g < out.len()
        invariant
            0 <= g <= out.len(),
            label_index_from(rows_of(out@), l@, g as int) == label_index_from(rows_of(out@), l@, 0),
        decreases out.len() - g,
    {
        if out[g].label == *l {
            return g;
        }
        g = g + 1;
    }
    g
}

/// Counts the distinct packages of each label, in order of first appearance.
fn count_groups(pairs: &Vec<(String, String)>) -> (r: Vec<CategoryCount>)
    ensures
        rows_of(r@) == group_counts(pair_texts(pairs@)),
{
    let ghost ps = pair_texts(pairs@);
    let mut out: Vec<CategoryCount> = Vec::new();
    let mut names: Vec<Vec<String>> = Vec::new();
    let mut i: usize = 0;
    while i < pairs.len()
        invariant
            ps == pair_texts(pairs@),
            0 <= i <= pairs.len(),
            rows_of(out@) == group_counts(ps.take(i as int)),
            names@.len() == out@.len(),
            forall|g: int, nm: Seq<char>|
                #![trigger texts(names@[g]@).contains(nm)]
                #![trigger ps.take(i as int).contains((out@[g].label@, nm))]
                0 <= g < out@.len() ==> (texts(names@[g]@).contains(nm)
                    <==> ps.take(i as int).contains((out@[g].label@, nm))),
            forall|g: int| 0 <= g < out@.len() ==> #[trigger] out@[g].count <= i,
            forall|g1: int, g2: int|
                0 <= g1 < out@.len() && 0 <= g2 < out@.len() && #[trigger] out@[g1].label@
                    == #[trigger] out@[g2].label@ ==> g1 == g2,
            forall|j: int|
                #![trigger ps[j]]
                0 <= j < i ==> exists|h: int| 0 <= h < out@.len() && #[trigger] out@[h].label@ == ps[j].0,
        decreases pairs.len() - i,
    {
        let ghost prev = ps.take(i as int);
        proof {
            assert(ps.take(i + 1).drop_last() =~= prev);
            assert(ps.take(i + 1).last() == ps[i as int]);
        }
        let l = &pairs[i].0;
        let n = &pairs[i].1;
        assert(ps[i as int] == (l@, n@));
        let g = find_label(&out, l);
        proof {
            lemma_label_index_bounds(rows_of(out@), l@, 0);
        }
        if g < out.len() {
            assert(out@[g as int].label@ == l@);
            if key_seen(&names[g], n) {
                assert(prev.contains(ps[i as int]));
                assert forall|h: int, nm: Seq<char>| 0 <= h < out@.len() implies (#[trigger] texts(names@[h]@).contains(nm) <==> ps.take(i + 1).contains((out@[h].label@, nm))) by {
                    assert(ps.take(i + 1) =~= prev.push(ps[i as int]));
                    assert(ps.take(i + 1)[i as int] == ps[i as int]);
                    if ps.take(i + 1).contains((out@[h].label@, nm)) {
                        let k = choose|k: int| 0 <= k < ps.take(i + 1).len() && #[trigger] ps.take(i + 1)[k] == (out@[h].label@, nm);
                        if k == i {
                            assert(h == g);
                        } else {
                            assert(prev[k] == ps.take(i + 1)[k]);
                        }
                    }
                    if prev.contains((out@[h].label@, nm)) {
                        let k = choose|k: int| 0 <= k < prev.len() && #[trigger] prev[k] == (out@[h].label@, nm);
                        assert(ps.take(i + 1)[k] == prev[k]);
                    }
                }
            } else {
                let c = out[g].count;
                let lab = out[g].label.clone();
                let ghost old_out = out@;
                let ghost old_names = names@;
                out[g] = CategoryCount { label: lab, count: c + 1 };
                names[g].push(n.clone());
                proof {
                    assert forall|h: int| 0 <= h < out@.len() implies #[trigger] out@[h].label@
                        == old_out[h].label@ by {
                        if h == g as int {
                            assert(out@[h].label@ == lab@);
                        }
                    }
                    assert(rows_of(out@) =~= rows_of(old_out).update(g as int, CountRow { label: l@, count: (c + 1) as nat }));
                    assert(texts(names@[g as int]@) =~= texts(old_names[g as int]@).push(n@));
                    assert forall|h: int, nm: Seq<char>| 0 <= h < out@.len() implies (#[trigger] texts(names@[h]@).contains(nm) <==> ps.take(i + 1).contains((out@[h].label@, nm))) by {
                        assert(ps.take(i + 1) =~= prev.push(ps[i as int]));
                        lemma_contains_push(prev, ps[i as int], (out@[h].label@, nm));
                        assert(out@[h].label@ == old_out[h].label@);
                        assert(texts(old_names[h]@).contains(nm) <==> prev.contains((old_out[h].label@, nm)));
                        if h != g {
                            assert(names@[h] == old_names[h]);
                            if (out@[h].label@, nm) == ps[i as int] {
                                assert(old_out[h].label@ == old_out[g as int].label@);
                            }
                        } else {
                            lemma_contains_push(texts(old_names[h]@), n@, nm);
                        }
                    }
                    assert forall|j: int| #![trigger ps[j]] 0 <= j < i + 1 implies exists|h: int| 0 <= h < out@.len() && #[trigger] out@[h].label@ == ps[j].0 by {
                        if j < i {
                            let h = choose|h: int| 0 <= h < old_out.len() && #[trigger] old_out[h].label@ == ps[j].0;
                            assert(out@[h].label@ == ps[j].0);
                        } else {
                            assert(out@[g as int].label@ == ps[j].0);
                        }
                    }
                }
            }
        } else {
            let ghost old_out = out@;
            let ghost old_names = names@;
            assert(!prev.contains(ps[i as int])) by {
                if prev.contains(ps[i as int]) {
                    let k = choose|k: int| 0 <= k < prev.len() && #[trigger] prev[k] == ps[i as int];
                    assert(ps[k] == prev[k]);
                    let h = choose|h: int| 0 <= h < old_out.len() && #[trigger] old_out[h].label@ == ps[k].0;
                    assert(rows_of(old_out)[h].label == l@);
                }
            }
            assert forall|h: int| 0 <= h < old_out.len() implies #[trigger] old_out[h].label@ != l@ by {
                assert(rows_of(old_out)[h].label == old_out[h].label@);
            }
            out.push(CategoryCount { label: l.clone(), count: 1 });
            names.push(vec![n.clone()]);
            proof {
                assert(rows_of(out@) =~= rows_of(old_out).push(CountRow { label: l@, count: 1 }));
                assert forall|h: int, nm: Seq<char>| 0 <= h < out@.len() implies (#[trigger] texts(names@[h]@).contains(nm) <==> ps.take(i + 1).contains((out@[h].label@, nm))) by {
                    assert(ps.take(i + 1) =~= prev.push(ps[i as int]));
                    if h < old_out.len() {
                        assert(names@[h] == old_names[h]);
                        assert(out@[h] == old_out[h]);
                        assert(rows_of(old_out)[h].label != l@);
                    } else {
                        assert(texts(names@[h]@) =~= seq![n@]);
                        if prev.contains((l@, nm)) {
                            let k = choose|k: int| 0 <= k < prev.len() && #[trigger] prev[k] == (l@, nm);
                            assert(ps[k] == prev[k]);
                            let hh = choose|hh: int| 0 <= hh < old_out.len() && #[trigger] old_out[hh].label@ == ps[k].0;
                            assert(rows_of(old_out)[hh].label == l@);
                        }
                        if nm == n@ {
                            assert(texts(names@[h]@)[0] == nm);
                        }
                    }
                    if ps.take(i + 1).contains((out@[h].label@, nm)) {
                        let k = choose|k: int| 0 <= k < ps.take(i + 1).len() && #[trigger] ps.take(i + 1)[k] == (out@[h].label@, nm);
                        if k < i {
                            assert(prev[k] == ps.take(i + 1)[k]);
                        }
                    }
                    if prev.contains((out@[h].label@, nm)) {
                        let k = choose|k: int| 0 <= k < prev.len() && #[trigger] prev[k] == (out@[h].label@, nm);
                        assert(ps.take(i + 1)[k] == prev[k]);
                    }
                }
                assert forall|j: int| #![trigger ps[j]] 0 <= j < i + 1 implies exists|h: int| 0 <= h < out@.len() && #[trigger] out@[h].label@ == ps[j].0 by {
                    if j < i {
                        let h = choose|h: int| 0 <= h < old_out.len() && #[trigger] old_out[h].label@ == ps[j].0;
                        assert(out@[h].label@ == ps[j].0);
                    } else {
                        assert(out@[old_out.len() as int].label@ == ps[j].0);
                    }
                }
            }
        }
        i = i + 1;
    }
    assert(ps.take(pairs@.len() as int) =~= ps);
    out
}

impl CacheStore {
    /// The packages of a selected category (or, in the sets view, of a selected
    /// set), one row per package: its installed version or the empty text, its
    /// recommended version or "Not available", and its description. The
    /// category (or set name) is matched exactly; the all-packages view orders
    /// its rows by category.
    pub fn list_packages(&self, view: ViewKind, selector: &str) -> (r: Vec<PackageListing>)
        ensures
            rows_of(r@) == listing(self@, view, selector@),
    {
        match view {
            ViewKind::InstalledPackages => list_installed(self, selector),
            ViewKind::Sets => list_set(self, selector),
            _ => list_available(self, selector, false),
        }
    }

    /// The labels of a view with the number of distinct packages under each:
    /// categories for the all- and installed-packages views, set names for the
    /// sets view; a search view has none. Labels come in order of first
    /// appearance.
    pub fn list_categories(&self, view: ViewKind) -> (r: Vec<CategoryCount>)
        ensures
            rows_of(r@) == group_counts(label_pairs(self@, view)),
    {
        let pairs = label_pairs_of(self, view);
        count_groups(&pairs)
    }

    /// The available packages whose name holds the term, without ASCII case, one
    /// row per package name, ordered by category and joined as in the
    /// all-packages view.
    pub fn search(&self, term: &str) -> (r: Vec<PackageListing>)
        ensures
            rows_of(r@) == search_listing(self@, term@),
    {
        list_available(self, term, true)
    }
}

} // verus!
