//! Character-level helpers: strings as sequences of `char`.
use vstd::prelude::*;

verus! {

/// The pieces of `s` between the occurrences of `sep`, in order; `s` with no
/// separator is one piece, and two adjacent separators give an empty piece.
pub open spec fn split_spec(s: Seq<char>, sep: char) -> Seq<Seq<char>>
    decreases s.len(),
{
    if s.len() == 0 {
        seq![Seq::<char>::empty()]
    } else {
        let p = split_spec(s.drop_last(), sep);
        if s.last() == sep {
            p.push(Seq::<char>::empty())
        } else {
            p.update(p.len() - 1, p.last().push(s.last()))
        }
    }
}

pub proof fn lemma_split_nonempty(s: Seq<char>, sep: char)
    ensures
        split_spec(s, sep).len() >= 1,
    decreases s.len(),
{
    if s.len() > 0 {
        lemma_split_nonempty(s.drop_last(), sep);
    }
}

/// Stepping one element further along a sequence: the prefix of `i + 1`
/// elements is the prefix of `i` with element `i` pushed.
pub proof fn lemma_take_step<T>(ls: Seq<T>, i: int)
    requires
        0 <= i < ls.len(),
    ensures
        ls.take(i + 1).drop_last() == ls.take(i),
        ls.take(i + 1).last() == ls[i],
        ls.take(i + 1).len() == i + 1,
{
    assert(ls.take(i + 1).drop_last() =~= ls.take(i));
}

/// A character with Unicode's White_Space property, the white space of
/// `char::is_whitespace` and `str::trim`.
pub open spec fn is_white_space(c: char) -> bool {
    ('\u{9}' <= c && c <= '\u{d}') || c == ' ' || c == '\u{85}' || c == '\u{a0}' || c
        == '\u{1680}' || ('\u{2000}' <= c && c <= '\u{200a}') || c == '\u{2028}' || c == '\u{2029}'
        || c == '\u{202f}' || c == '\u{205f}' || c == '\u{3000}'
}

/// The number of white-space characters at the start of `s`.
pub open spec fn leading_white(s: Seq<char>) -> nat
    decreases s.len(),
{
    if s.len() > 0 && is_white_space(s[0]) {
        1 + leading_white(s.drop_first())
    } else {
        0
    }
}

/// The number of white-space characters at the end of `s`.
pub open spec fn trailing_white(s: Seq<char>) -> nat
    decreases s.len(),
{
    if s.len() > 0 && is_white_space(s.last()) {
        1 + trailing_white(s.drop_last())
    } else {
        0
    }
}

/// `s` without its leading and trailing white space.
pub open spec fn trim_of(s: Seq<char>) -> Seq<char> {
    if leading_white(s) == s.len() {
        Seq::empty()
    } else {
        s.subrange(leading_white(s) as int, s.len() - trailing_white(s))
    }
}

/// Relies on `str::trim`: the text without leading and trailing white space,
/// white space being the characters with Unicode's White_Space property.
#[verifier::external_body]
pub(crate) fn trim_text(s: &str) -> (r: &str)
    ensures
        r@ == trim_of(s@),
{
    s.trim()
}

/// Relies on `String::push`: appends one character.
#[verifier::external_body]
pub(crate) fn push_char(s: &mut String, c: char)
    ensures
        final(s)@ == old(s)@.push(c),
{
    s.push(c)
}

/// The characters of `s`, in order.
pub fn chars_of(s: &str) -> (r: Vec<char>)
    ensures
        r@ == s@,
{
    let mut r: Vec<char> = Vec::new();
    for c in it: s.chars()
        invariant
            it.seq() == s@,
            r@ == it.seq().take(it.index() as int),
    {
        r.push(c);
    }
    r
}

/// The string made of the characters `v[lo..hi]`.
pub fn string_of(v: &Vec<char>, lo: usize, hi: usize) -> (r: String)
    requires
        lo <= hi <= v.len(),
    ensures
        r@ == v@.subrange(lo as int, hi as int),
{
    let mut r = String::new();
    let mut i: usize = lo;
    while i < hi
        invariant
            lo <= i <= hi <= v.len(),
            r@ == v@.subrange(lo as int, i as int),
        decreases hi - i,
    {
        push_char(&mut r, v[i]);
        assert(v@.subrange(lo as int, i + 1) == v@.subrange(lo as int, i as int).push(v@[i as int]));
        i = i + 1;
    }
    r
}

/// The pieces of `v` between the occurrences of `sep`.
pub fn split_chars(v: &Vec<char>, sep: char) -> (r: Vec<Vec<char>>)
    ensures
        r@.len() == split_spec(v@, sep).len(),
        forall|k: int| 0 <= k < r@.len() ==> #[trigger] r@[k]@ == split_spec(v@, sep)[k],
{
    let mut done: Vec<Vec<char>> = Vec::new();
    let mut cur: Vec<char> = Vec::new();
    let mut i: usize = 0;
    while i < v.len()
        invariant
            0 <= i <= v.len(),
            done@.len() + 1 == split_spec(v@.take(i as int), sep).len(),
            forall|k: int| 0 <= k < done@.len() ==> #[trigger] done@[k]@ == split_spec(v@.take(i as int), sep)[k],
            cur@ == split_spec(v@.take(i as int), sep).last(),
        decreases v.len() - i,
    {
        proof {
            assert(v@.take(i + 1).drop_last() == v@.take(i as int));
            lemma_split_nonempty(v@.take(i as int), sep);
        }
        if v[i] == sep {
            let piece = cur;
            done.push(piece);
            cur = Vec::new();
        } else {
            cur.push(v[i]);
        }
        i = i + 1;
    }
    assert(v@.take(v@.len() as int) == v@);
    done.push(cur);
    done
}

/// The view of an optional string.
pub open spec fn text_opt(o: Option<String>) -> Option<Seq<char>> {
    match o {
        Some(s) => Some(s@),
        None => None,
    }
}

/// An ASCII decimal digit.
pub open spec fn is_digit(c: char) -> bool {
    '0' <= c && c <= '9'
}

/// The first index `i >= from` with `s[i] == c`, or `s.len()` where there is none.
pub open spec fn index_from(s: Seq<char>, c: char, from: int) -> int
    decreases s.len() - from,
{
    if from < 0 {
        index_from(s, c, 0)
    } else if from >= s.len() {
        s.len() as int
    } else if s[from] == c {
        from
    } else {
        index_from(s, c, from + 1)
    }
}

pub proof fn lemma_index_from_bounds(s: Seq<char>, c: char, from: int)
    requires
        0 <= from,
    ensures
        from <= index_from(s, c, from) <= s.len() || (from > s.len() && index_from(s, c, from)
            == s.len()),
        index_from(s, c, from) < s.len() ==> s[index_from(s, c, from)] == c,
        forall|j: int| from <= j < index_from(s, c, from) ==> s[j] != c,
    decreases s.len() - from,
{
    if from < s.len() && s[from] != c {
        lemma_index_from_bounds(s, c, from + 1);
    }
}

/// A version hyphen: a `-` at `k` followed by a digit.
pub open spec fn version_hyphen_at(s: Seq<char>, k: int) -> bool {
    0 <= k && k + 1 < s.len() && s[k] == '-' && is_digit(s[k + 1])
}

/// The first version hyphen at or after `from`, or `s.len()` where there is none.
pub open spec fn hyphen_from(s: Seq<char>, from: int) -> int
    decreases s.len() - from,
{
    if from < 0 {
        hyphen_from(s, 0)
    } else if from >= s.len() {
        s.len() as int
    } else if version_hyphen_at(s, from) {
        from
    } else {
        hyphen_from(s, from + 1)
    }
}

pub proof fn lemma_hyphen_from_bounds(s: Seq<char>, from: int)
    requires
        0 <= from,
    ensures
        from <= hyphen_from(s, from) <= s.len() || (from > s.len() && hyphen_from(s, from)
            == s.len()),
        hyphen_from(s, from) < s.len() ==> version_hyphen_at(s, hyphen_from(s, from)),
    decreases s.len() - from,
{
    if from < s.len() && !version_hyphen_at(s, from) {
        lemma_hyphen_from_bounds(s, from + 1);
    }
}

/// The first index at or after `from` that holds `c`, or `v.len()`.
pub fn find_from(v: &Vec<char>, c: char, from: usize) -> (r: usize)
    ensures
        r == index_from(v@, c, from as int),
{
    let mut i: usize = from;
    if i >= v.len() {
        return v.len();
    }
    while i < v.len()
        invariant
            from <= i <= v.len(),
            index_from(v@, c, i as int) == index_from(v@, c, from as int),
        decreases v.len() - i,
    {
        if v[i] == c {
            return i;
        }
        i = i + 1;
    }
    i
}

/// The first version hyphen at or after `from`, or `v.len()`.
pub fn find_version_hyphen(v: &Vec<char>, from: usize) -> (r: usize)
    ensures
        r == hyphen_from(v@, from as int),
{
    let mut i: usize = from;
    if i >= v.len() {
        return v.len();
    }
    while i < v.len()
        invariant
            from <= i <= v.len(),
            hyphen_from(v@, i as int) == hyphen_from(v@, from as int),
        decreases v.len() - i,
    {
        if v[i] == '-' && i + 1 < v.len() && '0' <= v[i + 1] && v[i + 1] <= '9' {
            return i;
        }
        i = i + 1;
    }
    i
}

/// A character that would split a field of a comma-separated record: a comma or
/// a double quote, and also a slash where `with_slash` holds.
pub open spec fn collides(c: char, with_slash: bool) -> bool {
    c == ',' || c == '"' || (with_slash && c == '/')
}

/// `s` without the characters that collide with the field delimiter.
pub open spec fn stripped(s: Seq<char>, with_slash: bool) -> Seq<char> {
    s.filter(|c: char| !collides(c, with_slash))
}

/// Drops the characters that collide with the field delimiter.
pub fn strip_delimiters(v: &Vec<char>, with_slash: bool) -> (r: Vec<char>)
    ensures
        r@ == stripped(v@, with_slash),
{
    let mut r: Vec<char> = Vec::new();
    let mut i: usize = 0;
    while i < v.len()
        invariant
            0 <= i <= v.len(),
            r@ == stripped(v@.take(i as int), with_slash),
        decreases v.len() - i,
    {
        proof {
            assert(v@.take(i + 1).drop_last() == v@.take(i as int));
            reveal_with_fuel(Seq::filter, 1);
        }
        let c = v[i];
        if !(c == ',' || c == '"' || (with_slash && c == '/')) {
            r.push(c);
        }
        i = i + 1;
    }
    assert(v@.take(v@.len() as int) == v@);
    r
}

/// Whether `v` ends with `suffix`.
pub open spec fn ends_with(v: Seq<char>, suffix: Seq<char>) -> bool {
    suffix.len() <= v.len() && v.subrange(v.len() - suffix.len(), v.len() as int) == suffix
}

pub fn has_suffix(v: &Vec<char>, suffix: &Vec<char>) -> (r: bool)
    ensures
        r == ends_with(v@, suffix@),
{
    if suffix.len() > v.len() {
        return false;
    }
    let off: usize = v.len() - suffix.len();
    let mut i: usize = 0;
    while i < suffix.len()
        invariant
            off + suffix.len() == v.len(),
            0 <= i <= suffix.len(),
            forall|j: int| 0 <= j < i ==> v@[off + j] == suffix@[j],
        decreases suffix.len() - i,
    {
        if v[off + i] != suffix[i] {
            assert(v@.subrange(off as int, v@.len() as int)[i as int] != suffix@[i as int]);
            return false;
        }
        i = i + 1;
    }
    assert(v@.subrange(off as int, v@.len() as int) =~= suffix@);
    true
}

/// Whether two character sequences are equal.
pub fn chars_equal(a: &Vec<char>, b: &Vec<char>) -> (r: bool)
    ensures
        r == (a@ == b@),
{
    if a.len() != b.len() {
        return false;
    }
    let mut i: usize = 0;
    while i < a.len()
        invariant
            a.len() == b.len(),
            0 <= i <= a.len(),
            forall|j: int| 0 <= j < i ==> a@[j] == b@[j],
        decreases a.len() - i,
    {
        if a[i] != b[i] {
            return false;
        }
        i = i + 1;
    }
    assert(a@ =~= b@);
    true
}

} // verus!
