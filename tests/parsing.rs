use portix::ebuild::{descends_into, ebuild_location, ebuild_locations, ebuild_row_from_capture, is_ebuild_name, EbuildFile};
use portix::parse::{
    parse_available, parse_available_line, parse_head_hash, parse_installed, parse_installed_line,
    parse_recommended, parse_repo_list, parse_set_line, repo_location,
};
use portix::query::text_like_contains;
use portix::records::{EbuildLocation, PackageRecord, VersionRecord};
use portix::text::{chars_of, split_chars, string_of, strip_delimiters};

fn pkg(c: &str, n: &str, v: &str, d: &str) -> PackageRecord {
    PackageRecord { category: c.to_string(), name: n.to_string(), version: v.to_string(), description: d.to_string() }
}

fn ver(c: &str, n: &str, v: &str) -> VersionRecord {
    VersionRecord { category: c.to_string(), name: n.to_string(), version: v.to_string() }
}

fn file(c: &str, p: &str, f: &str) -> EbuildFile {
    EbuildFile {
        category: c.to_string(),
        package: p.to_string(),
        file_name: f.to_string(),
        path: format!("/repo/{}/{}/{}", c, p, f),
    }
}

#[test]
fn available_line_fields_and_stripping() {
    let line = chars_of("dev-lang=python=3.11=An \"interpreted\", dynamic/OO language");
    assert_eq!(
        parse_available_line(&line),
        Some(pkg("dev-lang", "python", "3.11", "An interpreted dynamicOO language"))
    );
}

#[test]
fn available_description_may_hold_equals() {
    let line = chars_of("app-misc=foo=1.0=a=b");
    assert_eq!(parse_available_line(&line), Some(pkg("app-misc", "foo", "1.0", "a=b")));
}

#[test]
fn available_malformed_line_is_skipped() {
    assert_eq!(parse_available_line(&chars_of("dev-lang=python=3.11")), None);
    let text = "dev-lang=python=3.11=interpreter\nnot a record\n\ndev-lang=perl=5.38=scripting\n";
    assert_eq!(
        parse_available(text),
        vec![pkg("dev-lang", "python", "3.11", "interpreter"), pkg("dev-lang", "perl", "5.38", "scripting")]
    );
}

#[test]
fn installed_line_splits_at_version_hyphen() {
    assert_eq!(parse_installed_line(&chars_of("dev-lang/python-3.11.4")), Some(ver("dev-lang", "python", "3.11.4")));
    assert_eq!(parse_installed_line(&chars_of("x11-libs/gtk-extra-3-2.1")), Some(ver("x11-libs", "gtk-extra", "3-2.1")));
    assert_eq!(parse_installed_line(&chars_of("dev-lang/python")), None);
    assert_eq!(parse_installed_line(&chars_of("python-3.11")), None);
}

#[test]
fn installed_listing_in_order() {
    let text = "dev-lang/python-3.11.4\nsys-apps/portage-3.0.57\n";
    assert_eq!(parse_installed(text), vec![ver("dev-lang", "python", "3.11.4"), ver("sys-apps", "portage", "3.0.57")]);
}

#[test]
fn recommended_listing() {
    let text = "dev-lang=python=3.12.1\nbroken\n";
    assert_eq!(parse_recommended(text), vec![ver("dev-lang", "python", "3.12.1")]);
}

#[test]
fn set_line_sets_version_aside() {
    assert_eq!(parse_set_line(&chars_of("dev-lang/python-3.11")), Some(("dev-lang".to_string(), "python".to_string())));
    assert_eq!(parse_set_line(&chars_of("dev-lang/python")), Some(("dev-lang".to_string(), "python".to_string())));
    assert_eq!(parse_set_line(&chars_of("no-slash-here")), None);
}

#[test]
fn repo_list_drops_blanks() {
    assert_eq!(parse_repo_list("  gentoo  guru\n"), vec!["gentoo".to_string(), "guru".to_string()]);
    assert_eq!(parse_repo_list("\n"), Vec::<String>::new());
}

#[test]
fn repo_location_is_trimmed() {
    assert_eq!(repo_location("/var/db/repos/gentoo\n"), "/var/db/repos/gentoo");
    assert_eq!(repo_location("  \n"), "");
    assert_eq!(repo_location("\u{3000}/var/db/repos/guru\u{a0}\t"), "/var/db/repos/guru");
}

#[test]
fn head_hash_from_listing() {
    let listing = "0123abcd\trefs/heads/master\n89efcafe\tHEAD\nfeed\tHEAD\n";
    assert_eq!(parse_head_hash(listing), Some("89efcafe".to_string()));
    assert_eq!(parse_head_hash("0123abcd\trefs/heads/master\n"), None);
    assert_eq!(parse_head_hash(""), None);
}

#[test]
fn ebuild_version_from_file_name() {
    let f = file("dev-lang", "python", "python-3.11.4.ebuild");
    assert_eq!(
        ebuild_location(&f),
        Some(EbuildLocation {
            category: "dev-lang".to_string(),
            name: "python".to_string(),
            version: "3.11.4".to_string(),
            path: "/repo/dev-lang/python/python-3.11.4.ebuild".to_string(),
        })
    );
    let g = file("x11-libs", "gtk-extra-3", "gtk-extra-3-2.1-r1.ebuild");
    assert_eq!(ebuild_location(&g).map(|l| l.version), Some("2.1-r1".to_string()));
}

#[test]
fn ebuild_other_files_give_no_row() {
    assert_eq!(ebuild_location(&file("dev-lang", "python", "metadata.xml")), None);
    assert_eq!(ebuild_location(&file("dev-lang", "python", "python.ebuild")), None);
    assert!(is_ebuild_name("a-1.ebuild"));
    assert!(!is_ebuild_name("ebuild"));
}

#[test]
fn ebuild_row_from_given_capture() {
    let f = file("dev-lang", "python", "python-3.11.ebuild");
    assert_eq!(ebuild_row_from_capture(&f, None), None);
    assert_eq!(ebuild_row_from_capture(&f, Some("9".to_string())).map(|l| l.version), Some("9".to_string()));
    let x = file("dev-lang", "python", "Manifest");
    assert_eq!(ebuild_row_from_capture(&x, Some("9".to_string())), None);
}

#[test]
fn ebuild_rows_in_order() {
    let files = vec![
        file("a", "b", "b-1.ebuild"),
        file("a", "b", "Manifest"),
        file("a", "b", "b-2.ebuild"),
    ];
    let rows = ebuild_locations(&files);
    assert_eq!(rows.len(), 2);
    assert_eq!(rows[0].version, "1");
    assert_eq!(rows[1].version, "2");
}

#[test]
fn walk_skips_hidden_and_plain_files() {
    assert!(descends_into("dev-lang", false));
    assert!(!descends_into(".git", false));
    assert!(!descends_into("metadata.xml", true));
    assert!(descends_into("", false));
}

#[test]
fn text_helpers() {
    let v = chars_of("a,b\"c/d");
    assert_eq!(string_of(&strip_delimiters(&v, true), 0, 3), "abc");
    assert_eq!(string_of(&strip_delimiters(&v, false), 0, 5), "abc/d");
    assert_eq!(split_chars(&chars_of("x\n\ny"), '\n').len(), 3);
    assert!(text_like_contains("python", "THON"));
    assert!(text_like_contains("python", ""));
    assert!(!text_like_contains("py", "python"));
}
