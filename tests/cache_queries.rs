use portix::cache::{CacheStore, PortixConnection, RefreshInput, SetFile};
use portix::ebuild::EbuildFile;
use portix::query::ViewKind;
use portix::records::{CategoryCount, PackageListing, PackageRecord, RepoRevision, SetMembership, VersionRecord};

fn pkg(c: &str, n: &str, v: &str, d: &str) -> PackageRecord {
    PackageRecord { category: c.to_string(), name: n.to_string(), version: v.to_string(), description: d.to_string() }
}

fn ver(c: &str, n: &str, v: &str) -> VersionRecord {
    VersionRecord { category: c.to_string(), name: n.to_string(), version: v.to_string() }
}

fn listing(n: &str, i: &str, r: &str, d: &str) -> PackageListing {
    PackageListing {
        name: n.to_string(),
        installed_version: i.to_string(),
        recommended_version: r.to_string(),
        description: d.to_string(),
    }
}

fn revision(repo: &str, hash: &str) -> RepoRevision {
    RepoRevision { repo: repo.to_string(), head_hash: hash.to_string() }
}

fn full_store() -> CacheStore {
    let mut c = CacheStore::new();
    c.set_all_packages(vec![
        pkg("dev-lang", "python", "3.11", "interpreter"),
        pkg("dev-lang", "python", "3.10", "interpreter"),
        pkg("dev-lang", "perl", "5.38", "scripting"),
        pkg("dev-python", "pythonnet", "3.0", "bridge"),
    ]);
    c.set_installed_packages(vec![ver("dev-lang", "python", "3.11")]);
    c.set_recommended_packages(vec![ver("dev-lang", "python", "3.11")]);
    c.set_portage_sets(vec![]);
    c.set_ebuilds(vec![]);
    c.set_repo_hashes(vec![]);
    c
}

fn sample_input() -> RefreshInput {
    RefreshInput {
        available: "dev-lang=python=3.11=interpreter\ndev-lang=python=3.10=interpreter\ndev-lang=perl=5.38=scripting\n".to_string(),
        installed: "dev-lang/python-3.11\n".to_string(),
        recommended: "dev-lang=python=3.11\n".to_string(),
        sets: vec![SetFile { name: "mine".to_string(), contents: "dev-lang/python-3.11\ndev-lang/ruby\n".to_string() }],
        ebuild_files: vec![EbuildFile {
            category: "dev-lang".to_string(),
            package: "python".to_string(),
            file_name: "python-3.11.ebuild".to_string(),
            path: "/repo/dev-lang/python/python-3.11.ebuild".to_string(),
        }],
        repo_locations: vec!["/var/db/repos/gentoo".to_string(), "/var/db/repos/local".to_string()],
        repo_listings: vec![Some("abc\tHEAD\n".to_string()), None],
    }
}

#[test]
fn end_to_end_grouped_row() {
    let c = full_store();
    assert_eq!(
        c.list_packages(ViewKind::AllPackages, "dev-lang"),
        vec![listing("python", "3.11", "3.11", "interpreter"), listing("perl", "", "Not available", "scripting")]
    );
}

#[test]
fn join_placeholders_for_missing_versions() {
    let mut c = full_store();
    c.set_recommended_packages(vec![ver("dev-lang", "perl", "5.40")]);
    c.set_installed_packages(vec![]);
    let rows = c.list_packages(ViewKind::AllPackages, "dev-lang");
    assert_eq!(rows[0], listing("python", "", "Not available", "interpreter"));
    assert_eq!(rows[1], listing("perl", "", "5.40", "scripting"));
}

#[test]
fn category_matched_exactly() {
    let c = full_store();
    assert_eq!(c.list_packages(ViewKind::AllPackages, "DEV-LANG").len(), 0);
    assert_eq!(c.list_packages(ViewKind::AllPackages, "dev").len(), 0);
    assert_eq!(c.list_packages(ViewKind::AllPackages, "dev-lang").len(), 2);
}

#[test]
fn other_case_category_does_not_lend_versions() {
    let mut c = full_store();
    c.set_all_packages(vec![
        pkg("dev-lang", "python", "3.10", "interpreter"),
        pkg("Dev-Lang", "python", "3.11", "other"),
    ]);
    c.set_installed_packages(vec![ver("Dev-Lang", "python", "3.11")]);
    c.set_recommended_packages(vec![ver("Dev-Lang", "python", "9")]);
    assert_eq!(
        c.list_packages(ViewKind::AllPackages, "dev-lang"),
        vec![listing("python", "", "Not available", "interpreter")]
    );
    assert_eq!(
        c.list_packages(ViewKind::AllPackages, "Dev-Lang"),
        vec![listing("python", "3.11", "9", "other")]
    );
}

#[test]
fn installed_view_listing() {
    let mut c = full_store();
    c.set_installed_packages(vec![ver("dev-lang", "python", "3.11"), ver("dev-lang", "ghost", "1.0")]);
    assert_eq!(
        c.list_packages(ViewKind::InstalledPackages, "dev-lang"),
        vec![listing("python", "3.11", "3.11", "interpreter"), listing("ghost", "1.0", "Not available", "")]
    );
}

#[test]
fn sets_view_listing() {
    let mut c = full_store();
    c.set_portage_sets(vec![SetMembership {
        set_name: "mine".to_string(),
        category_and_name: "dev-lang/python-3.11".to_string(),
        category: "dev-lang".to_string(),
        name: "python".to_string(),
    }]);
    assert_eq!(
        c.list_packages(ViewKind::Sets, "mine"),
        vec![listing("dev-lang/python-3.11", "3.11", "3.11", "interpreter")]
    );
    assert_eq!(
        c.list_categories(ViewKind::Sets),
        vec![CategoryCount { label: "mine".to_string(), count: 1 }]
    );
}

#[test]
fn search_by_substring() {
    let c = full_store();
    let rows = c.search("thon");
    assert_eq!(rows.len(), 2);
    assert_eq!(rows[0].name, "python");
    assert_eq!(rows[1].name, "pythonnet");
    assert_eq!(c.search("zzz_not_present"), Vec::<PackageListing>::new());
    assert_eq!(c.get_search_count("thon"), 2);
    assert_eq!(c.get_search_count("zzz_not_present"), 0);
}

#[test]
fn category_counts_distinct_names() {
    let c = full_store();
    assert_eq!(
        c.list_categories(ViewKind::AllPackages),
        vec![
            CategoryCount { label: "dev-lang".to_string(), count: 2 },
            CategoryCount { label: "dev-python".to_string(), count: 1 },
        ]
    );
    assert_eq!(c.list_categories(ViewKind::SearchResults), Vec::<CategoryCount>::new());
}

#[test]
fn tables_exist_needs_all_six() {
    let mut c = CacheStore::new();
    assert!(!c.tables_exist());
    c.set_all_packages(vec![]);
    c.set_installed_packages(vec![]);
    c.set_recommended_packages(vec![]);
    c.set_portage_sets(vec![]);
    c.set_ebuilds(vec![]);
    assert!(!c.tables_exist());
    c.set_repo_hashes(vec![]);
    assert!(c.tables_exist());
}

#[test]
fn staleness_stops_at_first_mismatch() {
    let mut c = full_store();
    c.set_repo_hashes(vec![revision("/r1", "H1"), revision("/r2", "H2")]);
    assert!(c.tables_need_reloading(&vec![Some("H9\tHEAD\n".to_string()), None]));
    assert!(c.repo_is_stale(0, &Some("H9\tHEAD\n".to_string())));
    assert!(!c.tables_need_reloading(&vec![Some("H1\tHEAD\n".to_string()), Some("H2\tHEAD\n".to_string())]));
    assert!(c.tables_need_reloading(&vec![Some("H1\tHEAD\n".to_string()), Some("H3\tHEAD\n".to_string())]));
    assert!(!c.tables_need_reloading(&vec![None, Some("garbage".to_string())]));
    assert_eq!(c.stored_repos(), vec!["/r1".to_string(), "/r2".to_string()]);
}

#[test]
fn empty_revision_table_is_not_stale() {
    let c = full_store();
    assert!(!c.tables_need_reloading(&vec![Some("H9\tHEAD\n".to_string())]));
    assert!(!CacheStore::new().tables_need_reloading(&vec![]));
}

#[test]
fn set_membership_resolution() {
    let mut c = full_store();
    c.parse_for_sets(&vec![SetFile {
        name: "mine".to_string(),
        contents: "dev-lang/python-3.11\ndev-lang/ruby\n".to_string(),
    }]);
    assert_eq!(
        c.portage_sets().unwrap().clone(),
        vec![SetMembership {
            set_name: "mine".to_string(),
            category_and_name: "dev-lang/python-3.11".to_string(),
            category: "dev-lang".to_string(),
            name: "python".to_string(),
        }]
    );
}

#[test]
fn repo_hashes_skip_failed_queries() {
    let mut c = CacheStore::new();
    c.store_repo_hashes(
        &vec!["/a".to_string(), "/b".to_string(), "/c".to_string()],
        &vec![Some("h1\tHEAD\n".to_string()), None, Some("h3\trefs/heads/main\n".to_string())],
    );
    assert_eq!(c.repo_hashes().unwrap().clone(), vec![revision("/a", "h1")]);
}

#[test]
fn ebuild_lookup_by_name() {
    let mut c = full_store();
    c.parse_for_ebuilds(&vec![EbuildFile {
        category: "dev-lang".to_string(),
        package: "python".to_string(),
        file_name: "python-3.11.ebuild".to_string(),
        path: "/repo/dev-lang/python/python-3.11.ebuild".to_string(),
    }]);
    assert_eq!(c.get_ebuild_with_query("python"), Some("/repo/dev-lang/python/python-3.11.ebuild".to_string()));
    assert_eq!(c.get_ebuild_with_query("perl"), None);
}

#[test]
fn parse_for_pkgs_replaces_package_tables() {
    let mut c = full_store();
    c.parse_for_pkgs("app-misc=foo=1=bar\n", "", "");
    assert_eq!(c.all_packages().unwrap().clone(), vec![pkg("app-misc", "foo", "1", "bar")]);
    assert_eq!(c.installed_packages().unwrap().len(), 0);
    assert_eq!(c.recommended_packages().unwrap().len(), 0);
    assert!(c.tables_exist());
}

#[test]
fn refresh_twice_gives_same_tables() {
    let mut once = CacheStore::new();
    once.refresh(&sample_input());
    let mut twice = full_store();
    twice.refresh(&sample_input());
    twice.refresh(&sample_input());
    assert!(once.tables_exist());
    assert_eq!(once.all_packages(), twice.all_packages());
    assert_eq!(once.installed_packages(), twice.installed_packages());
    assert_eq!(once.recommended_packages(), twice.recommended_packages());
    assert_eq!(once.portage_sets(), twice.portage_sets());
    assert_eq!(once.ebuilds(), twice.ebuilds());
    assert_eq!(once.repo_hashes(), twice.repo_hashes());
    assert_eq!(once.portage_sets().unwrap().len(), 1);
    assert_eq!(once.repo_hashes().unwrap().clone(), vec![revision("/var/db/repos/gentoo", "abc")]);
    assert_eq!(
        once.list_packages(ViewKind::AllPackages, "dev-lang"),
        vec![listing("python", "3.11", "3.11", "interpreter"), listing("perl", "", "Not available", "scripting")]
    );
}

#[test]
fn search_orders_by_category() {
    let mut c = full_store();
    c.set_all_packages(vec![
        pkg("dev-python", "pythonnet", "3.0", "bridge"),
        pkg("app-editors", "emacs-python", "1", "mode"),
        pkg("dev-lang", "python", "3.11", "interpreter"),
        pkg("app-editors", "vim-python", "2", "plugin"),
    ]);
    let names: Vec<String> = c.search("python").into_iter().map(|r| r.name).collect();
    assert_eq!(names, vec!["emacs-python", "vim-python", "python", "pythonnet"]);
}
