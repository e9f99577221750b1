//! The rows of the six cache tables, and the rows that the queries return.
use vstd::prelude::*;

verus! {

/// One available version of one package.
#[derive(Clone, Debug, PartialEq, Eq)]
pub struct PackageRecord {
    pub category: String,
    pub name: String,
    pub version: String,
    pub description: String,
}

/// A package version without a description: an installed or a recommended one.
#[derive(Clone, Debug, PartialEq, Eq)]
pub struct VersionRecord {
    pub category: String,
    pub name: String,
    pub version: String,
}

/// A package that a named set holds: the raw line of the set file, and the
/// category and name that it resolved to.
#[derive(Clone, Debug, PartialEq, Eq)]
pub struct SetMembership {
    pub set_name: String,
    pub category_and_name: String,
    pub category: String,
    pub name: String,
}

/// Where the definition file of one package version lies.
#[derive(Clone, Debug, PartialEq, Eq)]
pub struct EbuildLocation {
    pub category: String,
    pub name: String,
    pub version: String,
    pub path: String,
}

/// The head revision of a repository as of the last refresh.
#[derive(Clone, Debug, PartialEq, Eq)]
pub struct RepoRevision {
    pub repo: String,
    pub head_hash: String,
}

/// One row of a package listing: the placeholders stand where a version is missing.
#[derive(Clone, Debug, PartialEq, Eq)]
pub struct PackageListing {
    pub name: String,
    pub installed_version: String,
    pub recommended_version: String,
    pub description: String,
}

/// A category (or set) and the number of distinct packages in it.
#[derive(Clone, Debug, PartialEq, Eq)]
pub struct CategoryCount {
    pub label: String,
    pub count: usize,
}

pub struct PackageRow {
    pub category: Seq<char>,
    pub name: Seq<char>,
    pub version: Seq<char>,
    pub description: Seq<char>,
}

pub struct VersionRow {
    pub category: Seq<char>,
    pub name: Seq<char>,
    pub version: Seq<char>,
}

pub struct SetRow {
    pub set_name: Seq<char>,
    pub category_and_name: Seq<char>,
    pub category: Seq<char>,
    pub name: Seq<char>,
}

pub struct EbuildRow {
    pub category: Seq<char>,
    pub name: Seq<char>,
    pub version: Seq<char>,
    pub path: Seq<char>,
}

pub struct RevisionRow {
    pub repo: Seq<char>,
    pub head_hash: Seq<char>,
}

pub struct ListingRow {
    pub name: Seq<char>,
    pub installed_version: Seq<char>,
    pub recommended_version: Seq<char>,
    pub description: Seq<char>,
}

pub struct CountRow {
    pub label: Seq<char>,
    pub count: nat,
}

impl View for PackageRecord {
    type V = PackageRow;

    open spec fn view(&self) -> PackageRow {
        PackageRow {
            category: self.category@,
            name: self.name@,
            version: self.version@,
            description: self.description@,
        }
    }
}

impl View for VersionRecord {
    type V = VersionRow;

    open spec fn view(&self) -> VersionRow {
        VersionRow { category: self.category@, name: self.name@, version: self.version@ }
    }
}

impl View for SetMembership {
    type V = SetRow;

    open spec fn view(&self) -> SetRow {
        SetRow {
            set_name: self.set_name@,
            category_and_name: self.category_and_name@,
            category: self.category@,
            name: self.name@,
        }
    }
}

impl View for EbuildLocation {
    type V = EbuildRow;

    open spec fn view(&self) -> EbuildRow {
        EbuildRow {
            category: self.category@,
            name: self.name@,
            version: self.version@,
            path: self.path@,
        }
    }
}

impl View for RepoRevision {
    type V = RevisionRow;

    open spec fn view(&self) -> RevisionRow {
        RevisionRow { repo: self.repo@, head_hash: self.head_hash@ }
    }
}

impl View for PackageListing {
    type V = ListingRow;

    open spec fn view(&self) -> ListingRow {
        ListingRow {
            name: self.name@,
            installed_version: self.installed_version@,
            recommended_version: self.recommended_version@,
            description: self.description@,
        }
    }
}

impl View for CategoryCount {
    type V = CountRow;

    open spec fn view(&self) -> CountRow {
        CountRow { label: self.label@, count: self.count as nat }
    }
}

/// The views of a table's rows.
pub open spec fn rows_of<T: View>(v: Seq<T>) -> Seq<T::V> {
    v.map_values(|r: T| r@)
}

pub proof fn lemma_rows_of_push<T: View>(v: Seq<T>, x: T)
    ensures
        rows_of(v.push(x)) == rows_of(v).push(x@),
{
    assert(rows_of(v.push(x)) =~= rows_of(v).push(x@));
}

} // verus!
