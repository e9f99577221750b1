//! Parsers for the line-oriented text that the package tools print.
use vstd::prelude::*;
use crate::records::{PackageRecord, PackageRow, VersionRecord, VersionRow};
use crate::text::{
    find_from, find_version_hyphen, hyphen_from, index_from, lemma_hyphen_from_bounds,
    lemma_index_from_bounds, split_spec, string_of, strip_delimiters, stripped, chars_of,
    split_chars, lemma_take_step, chars_equal, trim_text, trim_of,
};
use crate::records::{rows_of, lemma_rows_of_push};

verus! {

/// The lines of a text: the pieces between newlines.
pub open spec fn lines_of(text: Seq<char>) -> Seq<Seq<char>> {
    split_spec(text, '\n')
}

/// An available-packages line `category=name=version=description`, once the
/// characters that collide with the field delimiter (comma, slash, double quote)
/// are dropped; the description runs to the end of the line and may hold `=`.
pub open spec fn available_row(line: Seq<char>) -> Option<PackageRow> {
    let s = stripped(line, true);
    let e1 = index_from(s, '=', 0);
    let e2 = index_from(s, '=', e1 + 1);
    let e3 = index_from(s, '=', e2 + 1);
    if e3 < s.len() {
        Some(
            PackageRow {
                category: s.subrange(0, e1),
                name: s.subrange(e1 + 1, e2),
                version: s.subrange(e2 + 1, e3),
                description: s.subrange(e3 + 1, s.len() as int),
            },
        )
    } else {
        None
    }
}

/// A recommended-version line `category=name=version`, stripped as an
/// available-packages line is; the version runs to the end of the line.
pub open spec fn recommended_row(line: Seq<char>) -> Option<VersionRow> {
    let s = stripped(line, true);
    let e1 = index_from(s, '=', 0);
    let e2 = index_from(s, '=', e1 + 1);
    if e2 < s.len() {
        Some(
            VersionRow {
                category: s.subrange(0, e1),
                name: s.subrange(e1 + 1, e2),
                version: s.subrange(e2 + 1, s.len() as int),
            },
        )
    } else {
        None
    }
}

/// An installed-package line `category/name-version`, without commas and double
/// quotes: the category runs to the first slash, the name to the first hyphen
/// after it that a digit follows, and the version is the rest.
pub open spec fn installed_row(line: Seq<char>) -> Option<VersionRow> {
    let s = stripped(line, false);
    let slash = index_from(s, '/', 0);
    let h = hyphen_from(s, slash + 1);
    if h < s.len() {
        Some(
            VersionRow {
                category: s.subrange(0, slash),
                name: s.subrange(slash + 1, h),
                version: s.subrange(h + 1, s.len() as int),
            },
        )
    } else {
        None
    }
}

pub open spec fn available_rows(ls: Seq<Seq<char>>) -> Seq<PackageRow>
    decreases ls.len(),
{
    if ls.len() == 0 {
        Seq::empty()
    } else {
        let p = available_rows(ls.drop_last());
        match available_row(ls.last()) {
            Some(r) => p.push(r),
            None => p,
        }
    }
}

pub open spec fn recommended_rows(ls: Seq<Seq<char>>) -> Seq<VersionRow>
    decreases ls.len(),
{
    if ls.len() == 0 {
        Seq::empty()
    } else {
        let p = recommended_rows(ls.drop_last());
        match recommended_row(ls.last()) {
            Some(r) => p.push(r),
            None => p,
        }
    }
}

pub open spec fn installed_rows(ls: Seq<Seq<char>>) -> Seq<VersionRow>
    decreases ls.len(),
{
    if ls.len() == 0 {
        Seq::empty()
    } else {
        let p = installed_rows(ls.drop_last());
        match installed_row(ls.last()) {
            Some(r) => p.push(r),
            None => p,
        }
    }
}

/// Parses one available-packages line; a malformed line gives `None`.
pub fn parse_available_line(line: &Vec<char>) -> (r: Option<PackageRecord>)
    ensures
        match r {
            Some(x) => available_row(line@) == Some(x@),
            None => available_row(line@) is None,
        },
{
    let s = strip_delimiters(line, true);
    let e1 = find_from(&s, '=', 0);
    if e1 >= s.len() {
        return None;
    }
    let e2 = find_from(&s, '=', e1 + 1);
    if e2 >= s.len() {
        return None;
    }
    let e3 = find_from(&s, '=', e2 + 1);
    proof {
        lemma_index_from_bounds(s@, '=', 0);
        lemma_index_from_bounds(s@, '=', e1 + 1);
        lemma_index_from_bounds(s@, '=', e2 + 1);
    }
    if e3 >= s.len() {
        return None;
    }
    Some(
        PackageRecord {
            category: string_of(&s, 0, e1),
            name: string_of(&s, e1 + 1, e2),
            version: string_of(&s, e2 + 1, e3),
            description: string_of(&s, e3 + 1, s.len()),
        },
    )
}

/// Parses one recommended-version line; a malformed line gives `None`.
pub fn parse_recommended_line(line: &Vec<char>) -> (r: Option<VersionRecord>)
    ensures
        match r {
            Some(x) => recommended_row(line@) == Some(x@),
            None => recommended_row(line@) is None,
        },
{
    let s = strip_delimiters(line, true);
    let e1 = find_from(&s, '=', 0);
    if e1 >= s.len() {
        return None;
    }
    let e2 = find_from(&s, '=', e1 + 1);
    proof {
        lemma_index_from_bounds(s@, '=', 0);
        lemma_index_from_bounds(s@, '=', e1 + 1);
    }
    if e2 >= s.len() {
        return None;
    }
    Some(
        VersionRecord {
            category: string_of(&s, 0, e1),
            name: string_of(&s, e1 + 1, e2),
            version: string_of(&s, e2 + 1, s.len()),
        },
    )
}

/// Parses one installed-package line; a malformed line gives `None`.
pub fn parse_installed_line(line: &Vec<char>) -> (r: Option<VersionRecord>)
    ensures
        match r {
            Some(x) => installed_row(line@) == Some(x@),
            None => installed_row(line@) is None,
        },
{
    let s = strip_delimiters(line, false);
    let slash = find_from(&s, '/', 0);
    if slash >= s.len() {
        proof {
            lemma_index_from_bounds(s@, '/', 0);
        }
        return None;
    }
    let h = find_version_hyphen(&s, slash + 1);
    proof {
        lemma_index_from_bounds(s@, '/', 0);
        lemma_hyphen_from_bounds(s@, slash + 1);
    }
    if h >= s.len() {
        return None;
    }
    Some(
        VersionRecord {
            category: string_of(&s, 0, slash),
            name: string_of(&s, slash + 1, h),
            version: string_of(&s, h + 1, s.len()),
        },
    )
}

/// Parses the available-packages listing, one record per well-formed line.
pub fn parse_available(text: &str) -> (r: Vec<PackageRecord>)
    ensures
        rows_of(r@) == available_rows(lines_of(text@)),
{
    let chars = chars_of(text);
    let lines = split_chars(&chars, '\n');
    let ghost ls = lines_of(text@);
    let mut out: Vec<PackageRecord> = Vec::new();
    let mut i: usize = 0;
    while i < lines.len()
        invariant
            lines@.len() == ls.len(),
            forall|k: int| 0 <= k < lines@.len() ==> #[trigger] lines@[k]@ == ls[k],
            0 <= i <= lines.len(),
            rows_of(out@) == available_rows(ls.take(i as int)),
        decreases lines.len() - i,
    {
        proof {
            lemma_take_step(ls, i as int);
        }
        match parse_available_line(&lines[i]) {
            Some(rec) => {
                proof {
                    lemma_rows_of_push(out@, rec);
                }
                out.push(rec);
            },
            None => {},
        }
        i = i + 1;
    }
    assert(ls.take(ls.len() as int) == ls);
    out
}

/// Parses the recommended-versions listing, one record per well-formed line.
pub fn parse_recommended(text: &str) -> (r: Vec<VersionRecord>)
    ensures
        rows_of(r@) == recommended_rows(lines_of(text@)),
{
    let chars = chars_of(text);
    let lines = split_chars(&chars, '\n');
    let ghost ls = lines_of(text@);
    let mut out: Vec<VersionRecord> = Vec::new();
    let mut i: usize = 0;
    while i < lines.len()
        invariant
            lines@.len() == ls.len(),
            forall|k: int| 0 <= k < lines@.len() ==> #[trigger] lines@[k]@ == ls[k],
            0 <= i <= lines.len(),
            rows_of(out@) == recommended_rows(ls.take(i as int)),
        decreases lines.len() - i,
    {
        proof {
            lemma_take_step(ls, i as int);
        }
        match parse_recommended_line(&lines[i]) {
            Some(rec) => {
                proof {
                    lemma_rows_of_push(out@, rec);
                }
                out.push(rec);
            },
            None => {},
        }
        i = i + 1;
    }
    assert(ls.take(ls.len() as int) == ls);
    out
}

/// Parses the installed-packages listing, one record per well-formed line.
pub fn parse_installed(text: &str) -> (r: Vec<VersionRecord>)
    ensures
        rows_of(r@) == installed_rows(lines_of(text@)),
{
    let chars = chars_of(text);
    let lines = split_chars(&chars, '\n');
    let ghost ls = lines_of(text@);
    let mut out: Vec<VersionRecord> = Vec::new();
    let mut i: usize = 0;
    while i < lines.len()
        invariant
            lines@.len() == ls.len(),
            forall|k: int| 0 <= k < lines@.len() ==> #[trigger] lines@[k]@ == ls[k],
            0 <= i <= lines.len(),
            rows_of(out@) == installed_rows(ls.take(i as int)),
        decreases lines.len() - i,
    {
        proof {
            lemma_take_step(ls, i as int);
        }
        match parse_installed_line(&lines[i]) {
            Some(rec) => {
                proof {
                    lemma_rows_of_push(out@, rec);
                }
                out.push(rec);
            },
            None => {},
        }
        i = i + 1;
    }
    assert(ls.take(ls.len() as int) == ls);
    out
}

/// The package that a set line names: the category before the first slash, and
/// the name after it up to a version hyphen, if there is one.
pub open spec fn set_target(line: Seq<char>) -> Option<(Seq<char>, Seq<char>)> {
    let slash = index_from(line, '/', 0);
    if slash < line.len() {
        Some((line.subrange(0, slash), line.subrange(slash + 1, hyphen_from(line, slash + 1))))
    } else {
        None
    }
}

/// Splits a set line into the category and name it names; a line without a
/// slash gives `None`.
pub fn parse_set_line(line: &Vec<char>) -> (r: Option<(String, String)>)
    ensures
        match r {
            Some((c, n)) => set_target(line@) == Some((c@, n@)),
            None => set_target(line@) is None,
        },
{
    let slash = find_from(line, '/', 0);
    proof {
        lemma_index_from_bounds(line@, '/', 0);
    }
    if slash >= line.len() {
        return None;
    }
    let h = find_version_hyphen(line, slash + 1);
    proof {
        lemma_hyphen_from_bounds(line@, slash + 1);
    }
    Some((string_of(line, 0, slash), string_of(line, slash + 1, h)))
}

/// The non-empty pieces of a sequence of pieces, in order.
pub open spec fn nonempty_pieces(ps: Seq<Seq<char>>) -> Seq<Seq<char>>
    decreases ps.len(),
{
    if ps.len() == 0 {
        Seq::empty()
    } else {
        let p = nonempty_pieces(ps.drop_last());
        if ps.last().len() > 0 {
            p.push(ps.last())
        } else {
            p
        }
    }
}

/// The repository names in a space-separated list.
pub open spec fn repo_names(text: Seq<char>) -> Seq<Seq<char>> {
    nonempty_pieces(split_spec(trim_of(text), ' '))
}

/// Splits a space-separated list of repository names; surrounding white space
/// and empty pieces are dropped.
pub fn parse_repo_list(text: &str) -> (r: Vec<String>)
    ensures
        r@.len() == repo_names(text@).len(),
        forall|k: int| 0 <= k < r@.len() ==> #[trigger] r@[k]@ == repo_names(text@)[k],
{
    let t = trim_text(text);
    let chars = chars_of(t);
    let pieces = split_chars(&chars, ' ');
    let ghost ps = split_spec(trim_of(text@), ' ');
    let mut out: Vec<String> = Vec::new();
    let mut i: usize = 0;
    while i < pieces.len()
        invariant
            pieces@.len() == ps.len(),
            forall|k: int| 0 <= k < pieces@.len() ==> #[trigger] pieces@[k]@ == ps[k],
            0 <= i <= pieces.len(),
            out@.len() == nonempty_pieces(ps.take(i as int)).len(),
            forall|k: int| 0 <= k < out@.len() ==> #[trigger] out@[k]@ == nonempty_pieces(ps.take(i as int))[k],
        decreases pieces.len() - i,
    {
        proof {
            lemma_take_step(ps, i as int);
        }
        if pieces[i].len() > 0 {
            out.push(string_of(&pieces[i], 0, pieces[i].len()));
            assert(pieces@[i as int]@.subrange(0, pieces@[i as int]@.len() as int) == pieces@[i as int]@);
        }
        i = i + 1;
    }
    assert(ps.take(ps.len() as int) == ps);
    out
}

/// The location of a repository from the path-query output: the output
/// without surrounding white space.
pub fn repo_location(output: &str) -> (r: String)
    ensures
        r@ == trim_of(output@),
{
    String::from_str(trim_text(output))
}

/// The revision named `HEAD` in one tab-separated `hash, ref-name` line.
pub open spec fn head_in_line(line: Seq<char>) -> Option<Seq<char>> {
    let p = split_spec(line, '\t');
    if p.len() == 2 && p[1] == seq!['H', 'E', 'A', 'D'] {
        Some(p[0])
    } else {
        None
    }
}

/// The head revision in a listing of `hash, ref-name` lines: the hash of the
/// first line whose ref-name is `HEAD`.
pub open spec fn head_in_lines(ls: Seq<Seq<char>>) -> Option<Seq<char>>
    decreases ls.len(),
{
    if ls.len() == 0 {
        None
    } else {
        match head_in_lines(ls.drop_last()) {
            Some(h) => Some(h),
            None => head_in_line(ls.last()),
        }
    }
}

/// Finds the head revision in a revision listing; `None` where no line names `HEAD`.
pub fn parse_head_hash(listing: &str) -> (r: Option<String>)
    ensures
        match r {
            Some(h) => head_in_lines(lines_of(listing@)) == Some(h@),
            None => head_in_lines(lines_of(listing@)) is None,
        },
{
    let chars = chars_of(listing);
    let lines = split_chars(&chars, '\n');
    let ghost ls = lines_of(listing@);
    let head: Vec<char> = vec!['H', 'E', 'A', 'D'];
    assert(head@ == seq!['H', 'E', 'A', 'D']);
    let mut i: usize = 0;
    while i < lines.len()
        invariant
            lines@.len() == ls.len(),
            forall|k: int| 0 <= k < lines@.len() ==> #[trigger] lines@[k]@ == ls[k],
            0 <= i <= lines.len(),
            head_in_lines(ls.take(i as int)) is None,
            head@ == seq!['H', 'E', 'A', 'D'],
            ls == lines_of(listing@),
        decreases lines.len() - i,
    {
        proof {
            lemma_take_step(ls, i as int);
        }
        let fields = split_chars(&lines[i], '\t');
        if fields.len() == 2 && chars_equal(&fields[1], &head) {
            let h = string_of(&fields[0], 0, fields[0].len());
            assert(fields@[0]@.subrange(0, fields@[0]@.len() as int) == fields@[0]@);
            proof {
                let p = split_spec(ls[i as int], '\t');
                assert(fields@[1]@ == p[1]);
                assert(fields@[0]@ == p[0]);
                assert(head_in_line(ls[i as int]) == Some(h@));
                assert(head_in_lines(ls.take(i + 1)) == Some(h@));
                lemma_head_prefix(ls, i as int + 1);
            }
            return Some(h);
        }
        i = i + 1;
    }
    assert(ls.take(ls.len() as int) == ls);
    None
}

/// Once a prefix of the lines holds the head revision, every longer prefix gives
/// the same one.
proof fn lemma_head_prefix(ls: Seq<Seq<char>>, n: int)
    requires
        0 <= n <= ls.len(),
    ensures
        head_in_lines(ls.take(n)) is Some ==> head_in_lines(ls) == head_in_lines(ls.take(n)),
    decreases ls.len() - n,
{
    if n < ls.len() {
        lemma_head_prefix(ls, n + 1);
        assert(ls.take(n + 1).drop_last() == ls.take(n));
    } else {
        assert(ls.take(n) == ls);
    }
}

} // verus!
