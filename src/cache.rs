//! The cache of six tables: how a refresh replaces them, when they are stale,
//! and whether they are there at all.
use vstd::prelude::*;
use crate::ebuild::{ebuild_locations, ebuild_rows, EbuildFile};
use crate::parse::{
    available_rows, head_in_lines, installed_rows, lines_of, parse_available, parse_head_hash,
    parse_installed, parse_recommended, parse_set_line, recommended_rows, set_target,
};
use crate::records::{
    lemma_rows_of_push, rows_of, EbuildLocation, EbuildRow, PackageRecord, PackageRow,
    RepoRevision, RevisionRow, SetMembership, SetRow, VersionRecord, VersionRow,
};
use crate::query::search_listing;
use crate::text::{chars_of, lemma_take_step, split_chars, string_of, text_opt};

verus! {

/// The six tables of the cache; a table that is `None` is absent.
pub struct CacheView {
    pub all_packages: Option<Seq<PackageRow>>,
    pub installed_packages: Option<Seq<VersionRow>>,
    pub recommended_packages: Option<Seq<VersionRow>>,
    pub portage_sets: Option<Seq<SetRow>>,
    pub ebuilds: Option<Seq<EbuildRow>>,
    pub repo_hashes: Option<Seq<RevisionRow>>,
}

/// The package-metadata cache, an owned store of six tables held as rows in
/// memory; the joins, filters and grouping of its queries are computed here,
/// and keeping the tables in a database file between runs is left to the
/// caller. Each table is replaced whole, never patched.
pub struct CacheStore {
    all_packages: Option<Vec<PackageRecord>>,
    installed_packages: Option<Vec<VersionRecord>>,
    recommended_packages: Option<Vec<VersionRecord>>,
    portage_sets: Option<Vec<SetMembership>>,
    ebuilds: Option<Vec<EbuildLocation>>,
    repo_hashes: Option<Vec<RepoRevision>>,
}

pub open spec fn table_of<T: View>(t: Option<Vec<T>>) -> Option<Seq<T::V>> {
    match t {
        Some(v) => Some(rows_of(v@)),
        None => None,
    }
}

pub open spec fn table_ref<T: View>(t: Option<&Vec<T>>) -> Option<Seq<T::V>> {
    match t {
        Some(v) => Some(rows_of(v@)),
        None => None,
    }
}

/// The rows of a table, none where it is absent.
pub open spec fn rows_or_empty<R>(t: Option<Seq<R>>) -> Seq<R> {
    match t {
        Some(s) => s,
        None => Seq::empty(),
    }
}

impl View for CacheStore {
    type V = CacheView;

    closed spec fn view(&self) -> CacheView {
        CacheView {
            all_packages: table_of(self.all_packages),
            installed_packages: table_of(self.installed_packages),
            recommended_packages: table_of(self.recommended_packages),
            portage_sets: table_of(self.portage_sets),
            ebuilds: table_of(self.ebuilds),
            repo_hashes: table_of(self.repo_hashes),
        }
    }
}

/// A set definition file: the set's name and the text of the file.
#[derive(Clone, Debug, PartialEq, Eq)]
pub struct SetFile {
    pub name: String,
    pub contents: String,
}

pub struct SetFileRow {
    pub name: Seq<char>,
    pub contents: Seq<char>,
}

impl View for SetFile {
    type V = SetFileRow;

    open spec fn view(&self) -> SetFileRow {
        SetFileRow { name: self.name@, contents: self.contents@ }
    }
}

/// What one refresh reads from the package tools, the set files, the
/// repository trees and the repositories' revision queries.
pub struct RefreshInput {
    pub available: String,
    pub installed: String,
    pub recommended: String,
    pub sets: Vec<SetFile>,
    pub ebuild_files: Vec<EbuildFile>,
    pub repo_locations: Vec<String>,
    pub repo_listings: Vec<Option<String>>,
}

/// The tables after a refresh from `input`, step by step as the refresh takes
/// them: repository revisions first, then the three package tables, then the
/// sets (resolved against the available packages as they then stand), then the
/// ebuilds.
pub open spec fn after_refresh(before: CacheView, input: RefreshInput) -> CacheView {
    let hashed = CacheView {
        repo_hashes: Some(
            revision_rows(texts(input.repo_locations@), opt_texts(input.repo_listings@)),
        ),
        ..before
    };
    let loaded = CacheView {
        all_packages: Some(available_rows(lines_of(input.available@))),
        installed_packages: Some(installed_rows(lines_of(input.installed@))),
        recommended_packages: Some(recommended_rows(lines_of(input.recommended@))),
        ..hashed
    };
    let grouped = CacheView {
        portage_sets: Some(set_rows(rows_of(input.sets@), rows_or_empty(loaded.all_packages))),
        ..loaded
    };
    CacheView { ebuilds: Some(ebuild_rows(rows_of(input.ebuild_files@))), ..grouped }
}

/// Whether some available package has this category and name.
pub open spec fn is_available(all: Seq<PackageRow>, category: Seq<char>, name: Seq<char>) -> bool {
    exists|j: int| 0 <= j < all.len() && #[trigger] all[j].category == category && all[j].name == name
}

/// The membership row of one set line: the line must name an available package.
pub open spec fn set_line_row(set_name: Seq<char>, line: Seq<char>, all: Seq<PackageRow>) -> Option<
    SetRow,
> {
    match set_target(line) {
        Some((c, n)) => if is_available(all, c, n) {
            Some(SetRow { set_name, category_and_name: line, category: c, name: n })
        } else {
            None
        },
        None => None,
    }
}

pub open spec fn set_lines_rows(set_name: Seq<char>, ls: Seq<Seq<char>>, all: Seq<PackageRow>) -> Seq<
    SetRow,
>
    decreases ls.len(),
{
    if ls.len() == 0 {
        Seq::empty()
    } else {
        let p = set_lines_rows(set_name, ls.drop_last(), all);
        match set_line_row(set_name, ls.last(), all) {
            Some(r) => p.push(r),
            None => p,
        }
    }
}

/// The membership rows of a list of set files, file after file, line after line.
pub open spec fn set_rows(files: Seq<SetFileRow>, all: Seq<PackageRow>) -> Seq<SetRow>
    decreases files.len(),
{
    if files.len() == 0 {
        Seq::empty()
    } else {
        set_rows(files.drop_last(), all) + set_lines_rows(
            files.last().name,
            lines_of(files.last().contents),
            all,
        )
    }
}

/// The revision row of one repository: none where its revision query failed or
/// named no head.
pub open spec fn revision_row(location: Seq<char>, listing: Option<Seq<char>>) -> Option<
    RevisionRow,
> {
    match listing {
        Some(l) => match head_in_lines(lines_of(l)) {
            Some(h) => Some(RevisionRow { repo: location, head_hash: h }),
            None => None,
        },
        None => None,
    }
}

pub open spec fn revision_rows(locations: Seq<Seq<char>>, listings: Seq<Option<Seq<char>>>) -> Seq<
    RevisionRow,
>
    decreases locations.len(),
{
    if locations.len() == 0 || locations.len() != listings.len() {
        Seq::empty()
    } else {
        let p = revision_rows(locations.drop_last(), listings.drop_last());
        match revision_row(locations.last(), listings.last()) {
            Some(r) => p.push(r),
            None => p,
        }
    }
}

pub open spec fn texts(v: Seq<String>) -> Seq<Seq<char>> {
    v.map_values(|s: String| s@)
}

pub open spec fn opt_texts(v: Seq<Option<String>>) -> Seq<Option<Seq<char>>> {
    v.map_values(|o: Option<String>| text_opt(o))
}

/// Whether a stored repository revision differs from the head that a fresh
/// revision listing names; a failed query, or one that names no head, is no
/// difference.
pub open spec fn head_differs(stored: RevisionRow, listing: Option<Seq<char>>) -> bool {
    match listing {
        Some(l) => match head_in_lines(lines_of(l)) {
            Some(h) => h != stored.head_hash,
            None => false,
        },
        None => false,
    }
}

/// Whether the cache is stale: some stored repository, listed in the same order
/// as the fresh revision listings, has moved on.
pub open spec fn is_stale(stored: Seq<RevisionRow>, listings: Seq<Option<Seq<char>>>) -> bool {
    exists|i: int| 0 <= i < stored.len() && i < listings.len() && #[trigger] head_differs(stored[i], listings[i])
}

/// Whether all six tables are present.
pub open spec fn all_tables_present(t: CacheView) -> bool {
    &&& t.all_packages is Some
    &&& t.installed_packages is Some
    &&& t.recommended_packages is Some
    &&& t.portage_sets is Some
    &&& t.ebuilds is Some
    &&& t.repo_hashes is Some
}

/// The path of the first definition file of a package of this name.
pub open spec fn first_ebuild_path(rows: Seq<EbuildRow>, name: Seq<char>) -> Option<Seq<char>>
    decreases rows.len(),
{
    if rows.len() == 0 {
        None
    } else {
        match first_ebuild_path(rows.drop_last(), name) {
            Some(p) => Some(p),
            None => if rows.last().name == name {
                Some(rows.last().path)
            } else {
                None
            },
        }
    }
}

/// The operations that keep the package cache.
pub trait PortixConnection: Sized {
    spec fn tables(&self) -> CacheView;

    /// Replaces the three package tables with the records of the available,
    /// installed and recommended listings; malformed lines are skipped.
    fn parse_for_pkgs(&mut self, available: &str, installed: &str, recommended: &str)
        ensures
            final(self).tables() == (CacheView {
                all_packages: Some(available_rows(lines_of(available@))),
                installed_packages: Some(installed_rows(lines_of(installed@))),
                recommended_packages: Some(recommended_rows(lines_of(recommended@))),
                ..old(self).tables()
            }),
    ;

    /// Replaces the set table with the membership rows of the set files, against
    /// the available packages as they stand.
    fn parse_for_sets(&mut self, sets: &Vec<SetFile>)
        ensures
            final(self).tables() == (CacheView {
                portage_sets: Some(
                    set_rows(rows_of(sets@), rows_or_empty(old(self).tables().all_packages)),
                ),
                ..old(self).tables()
            }),
    ;

    /// Replaces the ebuild table with the rows that the walked files contribute.
    fn parse_for_ebuilds(&mut self, files: &Vec<EbuildFile>)
        ensures
            final(self).tables() == (CacheView {
                ebuilds: Some(ebuild_rows(rows_of(files@))),
                ..old(self).tables()
            }),
    ;

    /// The definition file path of the first ebuild row of this package name.
    fn get_ebuild_with_query(&self, query: &str) -> (r: Option<String>)
        ensures
            text_opt(r) == first_ebuild_path(rows_or_empty(self.tables().ebuilds), query@),
    ;

    /// The number of rows of the search listing for the term, at most `i32::MAX`.
    fn get_search_count(&self, search: &str) -> (r: i32)
        ensures
            r as int == if search_listing(self.tables(), search@).len() <= i32::MAX {
                search_listing(self.tables(), search@).len() as int
            } else {
                i32::MAX as int
            },
    ;

    /// Replaces the revision table: one row for each repository whose revision
    /// listing names a head, in order.
    fn store_repo_hashes(&mut self, locations: &Vec<String>, listings: &Vec<Option<String>>)
        requires
            locations.len() == listings.len(),
        ensures
            final(self).tables() == (CacheView {
                repo_hashes: Some(revision_rows(texts(locations@), opt_texts(listings@))),
                ..old(self).tables()
            }),
    ;

    /// Whether a stored repository has moved on; `listings[i]` is the fresh
    /// revision listing of the `i`-th stored repository, `None` where the query
    /// failed.
    fn tables_need_reloading(&self, listings: &Vec<Option<String>>) -> (r: bool)
        ensures
            r == is_stale(rows_or_empty(self.tables().repo_hashes), opt_texts(listings@)),
    ;

    /// Whether all six tables are present.
    fn tables_exist(&self) -> (r: bool)
        ensures
            r == all_tables_present(self.tables()),
    ;
}

/// Whether some available package has this category and name.
pub(crate) fn available_has(all: &Vec<PackageRecord>, category: &String, name: &String) -> (r: bool)
    ensures
        r == is_available(rows_of(all@), category@, name@),
{
    let mut j: usize = 0;
    while j < all.len()
        invariant
            0 <= j <= all.len(),
            forall|k: int| 0 <= k < j ==> !(#[trigger] rows_of(all@)[k].category == category@ && rows_of(all@)[k].name == name@),
        decreases all.len() - j,
    {
        if all[j].category == *category && all[j].name == *name {
            assert(rows_of(all@)[j as int].category == category@);
            return true;
        }
        j = j + 1;
    }
    false
}

/// The membership rows of one set file.
fn resolve_set_file(set: &SetFile, all: &Vec<PackageRecord>) -> (r: Vec<SetMembership>)
    ensures
        rows_of(r@) == set_lines_rows(set.name@, lines_of(set.contents@), rows_of(all@)),
{
    let chars = chars_of(set.contents.as_str());
    let lines = split_chars(&chars, '\n');
    let ghost ls = lines_of(set.contents@);
    let mut out: Vec<SetMembership> = Vec::new();
    let mut i: usize = 0;
    while i < lines.len()
        invariant
            ls == lines_of(set.contents@),
            lines@.len() == ls.len(),
            forall|k: int| 0 <= k < lines@.len() ==> #[trigger] lines@[k]@ == ls[k],
            0 <= i <= lines.len(),
            rows_of(out@) == set_lines_rows(set.name@, ls.take(i as int), rows_of(all@)),
        decreases lines.len() - i,
    {
        proof {
            lemma_take_step(ls, i as int);
        }
        match parse_set_line(&lines[i]) {
            Some((c, n)) => {
                if available_has(all, &c, &n) {
                    let row = SetMembership {
                        set_name: set.name.clone(),
                        category_and_name: string_of(&lines[i], 0, lines[i].len()),
                        category: c,
                        name: n,
                    };
                    assert(lines@[i as int]@.subrange(0, lines@[i as int]@.len() as int)
                        == lines@[i as int]@);
                    proof {
                        lemma_rows_of_push(out@, row);
                    }
                    out.push(row);
                }
            },
            None => {},
        }
        i = i + 1;
    }
    assert(ls.take(ls.len() as int) == ls);
    out
}

/// The revision row of one repository, from its location and its revision listing.
pub fn revision_for(location: &String, listing: &Option<String>) -> (r: Option<RepoRevision>)
    ensures
        match r {
            Some(x) => revision_row(location@, text_opt(*listing)) == Some(x@),
            None => revision_row(location@, text_opt(*listing)) is None,
        },
{
    match listing {
        Some(l) => match parse_head_hash(l.as_str()) {
            Some(h) => Some(RepoRevision { repo: location.clone(), head_hash: h }),
            None => None,
        },
        None => None,
    }
}

impl CacheStore {
    /// An empty cache: no table is present.
    pub fn new() -> (r: CacheStore)
        ensures
            r@ == (CacheView {
                all_packages: None,
                installed_packages: None,
                recommended_packages: None,
                portage_sets: None,
                ebuilds: None,
                repo_hashes: None,
            }),
    {
        CacheStore {
            all_packages: None,
            installed_packages: None,
            recommended_packages: None,
            portage_sets: None,
            ebuilds: None,
            repo_hashes: None,
        }
    }

    /// Replaces the available-packages table.
    pub fn set_all_packages(&mut self, rows: Vec<PackageRecord>)
        ensures
            final(self)@ == (CacheView { all_packages: Some(rows_of(rows@)), ..old(self)@ }),
    {
        self.all_packages = Some(rows);
    }

    /// Replaces the installed-packages table.
    pub fn set_installed_packages(&mut self, rows: Vec<VersionRecord>)
        ensures
            final(self)@ == (CacheView { installed_packages: Some(rows_of(rows@)), ..old(self)@ }),
    {
        self.installed_packages = Some(rows);
    }

    /// Replaces the recommended-versions table.
    pub fn set_recommended_packages(&mut self, rows: Vec<VersionRecord>)
        ensures
            final(self)@ == (CacheView { recommended_packages: Some(rows_of(rows@)), ..old(self)@ }),
    {
        self.recommended_packages = Some(rows);
    }

    /// Replaces the set-membership table.
    pub fn set_portage_sets(&mut self, rows: Vec<SetMembership>)
        ensures
            final(self)@ == (CacheView { portage_sets: Some(rows_of(rows@)), ..old(self)@ }),
    {
        self.portage_sets = Some(rows);
    }

    /// Replaces the ebuild table.
    pub fn set_ebuilds(&mut self, rows: Vec<EbuildLocation>)
        ensures
            final(self)@ == (CacheView { ebuilds: Some(rows_of(rows@)), ..old(self)@ }),
    {
        self.ebuilds = Some(rows);
    }

    /// Replaces the repository revision table.
    pub fn set_repo_hashes(&mut self, rows: Vec<RepoRevision>)
        ensures
            final(self)@ == (CacheView { repo_hashes: Some(rows_of(rows@)), ..old(self)@ }),
    {
        self.repo_hashes = Some(rows);
    }

    /// The available-packages table, if present.
    pub fn all_packages(&self) -> (r: Option<&Vec<PackageRecord>>)
        ensures
            self@.all_packages == table_ref(r),
    {
        self.all_packages.as_ref()
    }

    /// The installed-packages table, if present.
    pub fn installed_packages(&self) -> (r: Option<&Vec<VersionRecord>>)
        ensures
            self@.installed_packages == table_ref(r),
    {
        self.installed_packages.as_ref()
    }

    /// The recommended-versions table, if present.
    pub fn recommended_packages(&self) -> (r: Option<&Vec<VersionRecord>>)
        ensures
            self@.recommended_packages == table_ref(r),
    {
        self.recommended_packages.as_ref()
    }

    /// The set-membership table, if present.
    pub fn portage_sets(&self) -> (r: Option<&Vec<SetMembership>>)
        ensures
            self@.portage_sets == table_ref(r),
    {
        self.portage_sets.as_ref()
    }

    /// The ebuild table, if present.
    pub fn ebuilds(&self) -> (r: Option<&Vec<EbuildLocation>>)
        ensures
            self@.ebuilds == table_ref(r),
    {
        self.ebuilds.as_ref()
    }

    /// The repository revision table, if present.
    pub fn repo_hashes(&self) -> (r: Option<&Vec<RepoRevision>>)
        ensures
            self@.repo_hashes == table_ref(r),
    {
        self.repo_hashes.as_ref()
    }

    /// Rebuilds all six tables from what one refresh read; nothing of the former
    /// content survives.
    pub fn refresh(&mut self, input: &RefreshInput)
        requires
            input.repo_locations.len() == input.repo_listings.len(),
        ensures
            final(self)@ == after_refresh(old(self)@, *input),
    {
        self.store_repo_hashes(&input.repo_locations, &input.repo_listings);
        self.parse_for_pkgs(input.available.as_str(), input.installed.as_str(), input.recommended.as_str());
        self.parse_for_sets(&input.sets);
        self.parse_for_ebuilds(&input.ebuild_files);
    }

    /// The locations of the stored repositories, in order.
    pub fn stored_repos(&self) -> (r: Vec<String>)
        ensures
            r@.len() == rows_or_empty(self@.repo_hashes).len(),
            forall|i: int| 0 <= i < r@.len() ==> #[trigger] r@[i]@ == rows_or_empty(self@.repo_hashes)[i].repo,
    {
        let mut out: Vec<String> = Vec::new();
        match &self.repo_hashes {
            Some(rows) => {
                let mut i: usize = 0;
                while i < rows.len()
                    invariant
                        0 <= i <= rows.len(),
                        self.repo_hashes == Some(*rows),
                        out@.len() == i,
                        forall|k: int| 0 <= k < i ==> #[trigger] out@[k]@ == rows_of(rows@)[k].repo,
                    decreases rows.len() - i,
                {
                    out.push(rows[i].repo.clone());
                    i = i + 1;
                }
            },
            None => {},
        }
        out
    }

    /// Whether the `i`-th stored repository has moved on, given its fresh revision
    /// listing (`None` where the query failed); a position past the stored rows
    /// has not.
    pub fn repo_is_stale(&self, i: usize, listing: &Option<String>) -> (r: bool)
        ensures
            r == (i < rows_or_empty(self@.repo_hashes).len() && head_differs(
                rows_or_empty(self@.repo_hashes)[i as int],
                text_opt(*listing),
            )),
    {
        match &self.repo_hashes {
            Some(rows) => {
                if i >= rows.len() {
                    return false;
                }
                match listing {
                    Some(l) => match parse_head_hash(l.as_str()) {
                        Some(h) => h != rows[i].head_hash,
                        None => false,
                    },
                    None => false,
                }
            },
            None => false,
        }
    }
}

impl PortixConnection for CacheStore {
    open spec fn tables(&self) -> CacheView {
        self@
    }

    fn parse_for_pkgs(&mut self, available: &str, installed: &str, recommended: &str) {
        let a = parse_available(available);
        let i = parse_installed(installed);
        let r = parse_recommended(recommended);
        self.set_all_packages(a);
        self.set_installed_packages(i);
        self.set_recommended_packages(r);
    }

    fn parse_for_sets(&mut self, sets: &Vec<SetFile>) {
        let empty: Vec<PackageRecord> = Vec::new();
        let all: &Vec<PackageRecord> = match &self.all_packages {
            Some(v) => v,
            None => &empty,
        };
        assert(rows_of(all@) == rows_or_empty(self@.all_packages));
        let mut out: Vec<SetMembership> = Vec::new();
        let mut i: usize = 0;
        while i < sets.len()
            invariant
                0 <= i <= sets.len(),
                rows_of(out@) == set_rows(rows_of(sets@).take(i as int), rows_of(all@)),
            decreases sets.len() - i,
        {
            proof {
                assert(rows_of(sets@).take(i + 1).drop_last() =~= rows_of(sets@).take(i as int));
            }
            let mut rows = resolve_set_file(&sets[i], all);
            proof {
                assert(rows_of(out@ + rows@) =~= rows_of(out@) + rows_of(rows@));
            }
            out.append(&mut rows);
            i = i + 1;
        }
        assert(rows_of(sets@).take(sets@.len() as int) =~= rows_of(sets@));
        self.set_portage_sets(out);
    }

    fn parse_for_ebuilds(&mut self, files: &Vec<EbuildFile>) {
        let rows = ebuild_locations(files);
        self.set_ebuilds(rows);
    }

    fn get_ebuild_with_query(&self, query: &str) -> (r: Option<String>) {
        let q = String::from_str(query);
        match &self.ebuilds {
            Some(rows) => {
                let mut i: usize = 0;
                while i < rows.len()
                    invariant
                        0 <= i <= rows.len(),
                        q@ == query@,
                        self.ebuilds == Some(*rows),
                        first_ebuild_path(rows_of(rows@).take(i as int), query@) is None,
                    decreases rows.len() - i,
                {
                    proof {
                        assert(rows_of(rows@).take(i + 1).drop_last() =~= rows_of(rows@).take(i as int));
                    }
                    if rows[i].name == q {
                        proof {
                            assert(rows_of(rows@).take(i + 1).last() == rows_of(rows@)[i as int]);
                            assert(first_ebuild_path(rows_of(rows@).take(i + 1), query@) == Some(
                                rows[i as int].path@,
                            ));
                            lemma_first_path_prefix(rows_of(rows@), query@, i + 1);
                        }
                        return Some(rows[i].path.clone());
                    }
                    i = i + 1;
                }
                assert(rows_of(rows@).take(rows@.len() as int) =~= rows_of(rows@));
                None
            },
            None => None,
        }
    }

    fn get_search_count(&self, search: &str) -> (r: i32) {
        let rows = self.search(search);
        if rows.len() <= 2147483647 {
            rows.len() as i32
        } else {
            2147483647
        }
    }

    fn store_repo_hashes(&mut self, locations: &Vec<String>, listings: &Vec<Option<String>>) {
        let mut out: Vec<RepoRevision> = Vec::new();
        let mut i: usize = 0;
        while i < locations.len()
            invariant
                locations.len() == listings.len(),
                0 <= i <= locations.len(),
                rows_of(out@) == revision_rows(
                    texts(locations@).take(i as int),
                    opt_texts(listings@).take(i as int),
                ),
            decreases locations.len() - i,
        {
            proof {
                assert(texts(locations@).take(i + 1).drop_last() =~= texts(locations@).take(i as int));
                assert(opt_texts(listings@).take(i + 1).drop_last() =~= opt_texts(listings@).take(i as int));
            }
            match revision_for(&locations[i], &listings[i]) {
                Some(row) => {
                    proof {
                        lemma_rows_of_push(out@, row);
                    }
                    out.push(row);
                },
                None => {},
            }
            i = i + 1;
        }
        assert(texts(locations@).take(locations@.len() as int) =~= texts(locations@));
        assert(opt_texts(listings@).take(listings@.len() as int) =~= opt_texts(listings@));
        self.set_repo_hashes(out);
    }

    fn tables_need_reloading(&self, listings: &Vec<Option<String>>) -> (r: bool) {
        let mut i: usize = 0;
        while i < listings.len()
            invariant
                0 <= i <= listings.len(),
                forall|k: int| 0 <= k < i && k < rows_or_empty(self@.repo_hashes).len() ==> !#[trigger] head_differs(rows_or_empty(self@.repo_hashes)[k], opt_texts(listings@)[k]),
            decreases listings.len() - i,
        {
            if self.repo_is_stale(i, &listings[i]) {
                assert(opt_texts(listings@)[i as int] == text_opt(listings@[i as int]));
                assert(head_differs(rows_or_empty(self@.repo_hashes)[i as int], opt_texts(listings@)[i as int]));
                return true;
            }
            i = i + 1;
        }
        false
    }

    fn tables_exist(&self) -> (r: bool) {
        self.all_packages.is_some() && self.installed_packages.is_some()
            && self.recommended_packages.is_some() && self.portage_sets.is_some()
            && self.ebuilds.is_some() && self.repo_hashes.is_some()
    }
}

/// Once a prefix of the rows holds a path for the name, every longer prefix
/// gives the same one.
proof fn lemma_first_path_prefix(rows: Seq<EbuildRow>, name: Seq<char>, n: int)
    requires
        0 <= n <= rows.len(),
    ensures
        first_ebuild_path(rows.take(n), name) is Some ==> first_ebuild_path(rows, name)
            == first_ebuild_path(rows.take(n), name),
    decreases rows.len() - n,
{
    if n < rows.len() {
        lemma_first_path_prefix(rows, name, n + 1);
        assert(rows.take(n + 1).drop_last() =~= rows.take(n));
    } else {
        assert(rows.take(n) =~= rows);
    }
}

} // verus!
