//! Text order, and the order of package rows by category.
use vstd::prelude::*;
use crate::records::{rows_of, PackageRecord, PackageRow};

verus! {

/// Lexicographic order of texts by code point: a proper prefix comes first.
pub open spec fn text_lt(a: Seq<char>, b: Seq<char>) -> bool
    decreases a.len(),
{
    if a.len() == 0 {
        b.len() > 0
    } else if b.len() == 0 {
        false
    } else if a[0] != b[0] {
        a[0] < b[0]
    } else {
        text_lt(a.drop_first(), b.drop_first())
    }
}

pub proof fn lemma_text_lt_irreflexive(a: Seq<char>)
    ensures
        !text_lt(a, a),
    decreases a.len(),
{
    if a.len() > 0 {
        lemma_text_lt_irreflexive(a.drop_first());
    }
}

pub proof fn lemma_text_lt_transitive(a: Seq<char>, b: Seq<char>, c: Seq<char>)
    requires
        text_lt(a, b),
        text_lt(b, c),
    ensures
        text_lt(a, c),
    decreases a.len(),
{
    if a.len() > 0 && b.len() > 0 && c.len() > 0 {
        if a[0] == b[0] && b[0] == c[0] {
            lemma_text_lt_transitive(a.drop_first(), b.drop_first(), c.drop_first());
        }
    }
}

pub proof fn lemma_text_lt_total(a: Seq<char>, b: Seq<char>)
    ensures
        a == b || text_lt(a, b) || text_lt(b, a),
    decreases a.len(),
{
    if a.len() > 0 && b.len() > 0 {
        if a[0] == b[0] {
            lemma_text_lt_total(a.drop_first(), b.drop_first());
            if a.drop_first() == b.drop_first() {
                assert(a =~= seq![a[0]] + a.drop_first());
                assert(b =~= seq![b[0]] + b.drop_first());
            }
        }
    } else if a.len() == 0 && b.len() == 0 {
        assert(a =~= b);
    }
}

/// Whether `a` comes before `b` in text order.
pub fn text_less(a: &String, b: &String) -> (r: bool)
    ensures
        r == text_lt(a@, b@),
{
    let va = crate::text::chars_of(a.as_str());
    let vb = crate::text::chars_of(b.as_str());
    let mut i: usize = 0;
    assert(va@.skip(0) =~= va@);
    assert(vb@.skip(0) =~= vb@);
    while i < va.len() && i < vb.len()
        invariant
            va@ == a@,
            vb@ == b@,
            0 <= i <= va.len(),
            i <= vb.len(),
            text_lt(va@.skip(i as int), vb@.skip(i as int)) == text_lt(a@, b@),
        decreases va.len() - i,
    {
        proof {
            assert(va@.skip(i as int).drop_first() =~= va@.skip(i + 1));
            assert(vb@.skip(i as int).drop_first() =~= vb@.skip(i + 1));
            assert(va@.skip(i as int)[0] == va@[i as int]);
            assert(vb@.skip(i as int)[0] == vb@[i as int]);
        }
        if va[i] != vb[i] {
            return va[i] < vb[i];
        }
        i = i + 1;
    }
    proof {
        assert(va@.skip(i as int).len() == va@.len() - i);
        assert(vb@.skip(i as int).len() == vb@.len() - i);
    }
    i == va.len() && i < vb.len()
}

/// The first index at or after `k` whose row has a category after `c`, or
/// `s.len()`: where a row of category `c` goes so that rows of equal category
/// keep their order.
pub open spec fn insert_pos(s: Seq<PackageRow>, c: Seq<char>, k: int) -> int
    decreases s.len() - k,
{
    if k >= s.len() {
        s.len() as int
    } else if text_lt(c, s[k].category) {
        k
    } else {
        insert_pos(s, c, k + 1)
    }
}

/// The rows ordered by category, rows of equal category in their former order.
pub open spec fn by_category(rows: Seq<PackageRow>) -> Seq<PackageRow>
    decreases rows.len(),
{
    if rows.len() == 0 {
        Seq::empty()
    } else {
        let s = by_category(rows.drop_last());
        s.insert(insert_pos(s, rows.last().category, 0), rows.last())
    }
}

pub proof fn lemma_insert_pos_bounds(s: Seq<PackageRow>, c: Seq<char>, k: int)
    requires
        0 <= k <= s.len(),
    ensures
        k <= insert_pos(s, c, k) <= s.len(),
        forall|j: int| k <= j < insert_pos(s, c, k) ==> !text_lt(c, #[trigger] s[j].category),
        insert_pos(s, c, k) < s.len() ==> text_lt(c, s[insert_pos(s, c, k)].category),
    decreases s.len() - k,
{
    if k < s.len() && !text_lt(c, s[k].category) {
        lemma_insert_pos_bounds(s, c, k + 1);
    }
}

/// Where no row before `k` comes after `c` and the row at `k` (if any) does,
/// `k` is the insertion position of `c`.
proof fn lemma_insert_pos_at(s: Seq<PackageRow>, c: Seq<char>, k: int)
    requires
        0 <= k <= s.len(),
        forall|j: int| 0 <= j < k ==> !text_lt(c, #[trigger] s[j].category),
        k < s.len() ==> text_lt(c, s[k].category),
    ensures
        insert_pos(s, c, 0) == k,
{
    lemma_insert_pos_from(s, c, 0, k);
}

proof fn lemma_insert_pos_from(s: Seq<PackageRow>, c: Seq<char>, m: int, k: int)
    requires
        0 <= m <= k <= s.len(),
        forall|j: int| 0 <= j < k ==> !text_lt(c, #[trigger] s[j].category),
        k < s.len() ==> text_lt(c, s[k].category),
    ensures
        insert_pos(s, c, m) == k,
    decreases k - m,
{
    if m < k {
        lemma_insert_pos_from(s, c, m + 1, k);
    }
}

/// Whether rows are in category order.
pub open spec fn category_sorted(s: Seq<PackageRow>) -> bool {
    forall|i: int, j: int| 0 <= i < j < s.len() ==> !text_lt(#[trigger] s[j].category, #[trigger] s[i].category)
}

/// Ordering by category yields rows in category order, and the same rows, each
/// as often as before.
pub proof fn lemma_by_category(rows: Seq<PackageRow>)
    ensures
        category_sorted(by_category(rows)),
        by_category(rows).to_multiset() == rows.to_multiset(),
        by_category(rows).len() == rows.len(),
    decreases rows.len(),
{
    broadcast use vstd::seq_lib::to_multiset_insert, vstd::seq_lib::to_multiset_build;

    if rows.len() > 0 {
        let p = rows.drop_last();
        lemma_by_category(p);
        let s = by_category(p);
        let x = rows.last();
        let pos = insert_pos(s, x.category, 0);
        lemma_insert_pos_bounds(s, x.category, 0);
        let r = s.insert(pos, x);
        assert(rows =~= p.push(x));
        assert forall|i: int, j: int| 0 <= i < j < r.len() implies !text_lt(
            #[trigger] r[j].category,
            #[trigger] r[i].category,
        ) by {
            if j < pos {
                assert(r[i] == s[i] && r[j] == s[j]);
            } else if j == pos {
                assert(r[i] == s[i] && r[j] == x);
                assert(!text_lt(x.category, s[i].category));
            } else if i == pos {
                assert(r[i] == x && r[j] == s[j - 1]);
                assert(text_lt(x.category, s[pos].category));
                if text_lt(s[j - 1].category, x.category) {
                    lemma_text_lt_transitive(s[j - 1].category, x.category, s[pos].category);
                    if j - 1 == pos {
                        lemma_text_lt_irreflexive(s[pos].category);
                    } else {
                        assert(!text_lt(s[j - 1].category, s[pos].category));
                    }
                }
            } else if i < pos {
                assert(r[i] == s[i] && r[j] == s[j - 1]);
            } else {
                assert(r[i] == s[i - 1] && r[j] == s[j - 1]);
            }
        }
        assert(r.to_multiset() == s.to_multiset().insert(x));
        assert(p.push(x).to_multiset() == p.to_multiset().insert(x));
    } else {
        assert(rows =~= Seq::<PackageRow>::empty());
    }
}

/// Orders rows by category, rows of equal category in their former order.
pub fn sort_by_category<'a>(rows: Vec<&'a PackageRecord>) -> (r: Vec<&'a PackageRecord>)
    ensures
        rows_of(r@) == by_category(rows_of(rows@)),
{
    let mut out: Vec<&'a PackageRecord> = Vec::new();
    let mut i: usize = 0;
    while i < rows.len()
        invariant
            0 <= i <= rows.len(),
            rows_of(out@) == by_category(rows_of(rows@).take(i as int)),
        decreases rows.len() - i,
    {
        let x = rows[i];
        proof {
            assert(rows_of(rows@).take(i + 1).drop_last() =~= rows_of(rows@).take(i as int));
            assert(rows_of(rows@).take(i + 1).last() == x@);
        }
        proof {
            lemma_by_category(rows_of(rows@).take(i as int));
        }
        let mut k: usize = out.len();
        while k > 0 && text_less(&x.category, &out[k - 1].category)
            invariant
                0 <= k <= out.len(),
                category_sorted(rows_of(out@)),
                forall|j: int| k <= j < out.len() ==> text_lt(x.category@, #[trigger] rows_of(out@)[j].category),
            decreases k,
        {
            k = k - 1;
        }
        proof {
            let s = rows_of(out@);
            assert forall|j: int| 0 <= j < k implies !text_lt(x.category@, #[trigger] s[j].category) by {
                // s[j] is not after s[k - 1], which is not after x
                let last = s[k - 1].category;
                assert(!text_lt(x.category@, last));
                if text_lt(x.category@, s[j].category) {
                    if j < k - 1 {
                        assert(!text_lt(last, s[j].category));
                        lemma_text_lt_total(last, s[j].category);
                        if text_lt(s[j].category, last) {
                            lemma_text_lt_transitive(x.category@, s[j].category, last);
                        }
                    }
                }
            }
            lemma_insert_pos_at(s, x.category@, k as int);
        }
        proof {
            assert(rows_of(out@.insert(k as int, x)) =~= rows_of(out@).insert(k as int, x@));
        }
        out.insert(k, x);
        i = i + 1;
    }
    assert(rows_of(rows@).take(rows@.len() as int) =~= rows_of(rows@));
    out
}

} // verus!
