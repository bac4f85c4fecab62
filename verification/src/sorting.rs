//! Sorting of name lists and of (employee, department) rows by
//! lexicographic order on the name, ascending or descending.

use vstd::prelude::*;
use vstd::multiset::Multiset;
use vstd::relations::{sorted_by, total_ordering};
use vstd::seq_lib::lemma_multiset_commutative;
use vstd::seq_lib::lemma_sorted_unique;
use crate::text::{lex_le, lemma_lex_le_antisym, lemma_lex_le_refl, lemma_lex_le_total,
    lemma_lex_le_trans, str_le};

verus! {

/// A listing row: employee name first, department name second.
pub type RowV = (Seq<char>, Seq<char>);

/// Ascending order on names.
pub open spec fn name_le() -> spec_fn(Seq<char>, Seq<char>) -> bool {
    |a: Seq<char>, b: Seq<char>| lex_le(a, b)
}

/// Descending order on names.
pub open spec fn name_ge() -> spec_fn(Seq<char>, Seq<char>) -> bool {
    |a: Seq<char>, b: Seq<char>| lex_le(b, a)
}

/// Ascending order on rows, by the employee name alone.
pub open spec fn row_le() -> spec_fn(RowV, RowV) -> bool {
    |a: RowV, b: RowV| lex_le(a.0, b.0)
}

/// Descending order on rows, by the employee name alone.
pub open spec fn row_ge() -> spec_fn(RowV, RowV) -> bool {
    |a: RowV, b: RowV| lex_le(b.0, a.0)
}

/// The empty sequence holds the empty multiset.
pub proof fn lemma_to_multiset_empty<A>()
    ensures
        Seq::<A>::empty().to_multiset() =~= Multiset::<A>::empty(),
{
    broadcast use vstd::multiset::group_multiset_axioms;

    Seq::<A>::empty().to_multiset_ensures();
    assert forall|x: A| Seq::<A>::empty().to_multiset().count(x) == 0 by {
        assert(!Seq::<A>::empty().contains(x));
    }
}

/// Inserting anywhere in a sequence inserts into its multiset.
pub proof fn lemma_to_multiset_insert<A>(s: Seq<A>, j: int, x: A)
    requires
        0 <= j <= s.len(),
    ensures
        s.insert(j, x).to_multiset() =~= s.to_multiset().insert(x),
{
    broadcast use vstd::multiset::group_multiset_axioms;
    broadcast use vstd::seq_lib::group_to_multiset_ensures;

    let a = s.subrange(0, j);
    let c = s.subrange(j, s.len() as int);
    assert(s =~= a + c);
    assert(s.insert(j, x) =~= a.push(x) + c);
    lemma_multiset_commutative(a.push(x), c);
    lemma_multiset_commutative(a, c);
    assert(a.push(x).to_multiset() =~= a.to_multiset().insert(x));
}

pub proof fn lemma_name_ge_total_ordering()
    ensures
        total_ordering(name_ge()),
{
    let r = name_ge();
    assert forall|a: Seq<char>| #[trigger] r(a, a) by {
        lemma_lex_le_refl(a);
    }
    assert forall|a: Seq<char>, b: Seq<char>, c: Seq<char>| #[trigger] r(a, b) && #[trigger] r(
        b,
        c,
    ) implies r(a, c) by {
        lemma_lex_le_trans(c, b, a);
    }
    assert forall|a: Seq<char>, b: Seq<char>| #[trigger] r(a, b) && #[trigger] r(b, a) implies a
        == b by {
        lemma_lex_le_antisym(a, b);
    }
    assert forall|a: Seq<char>, b: Seq<char>| #[trigger] r(a, b) || #[trigger] r(b, a) by {
        lemma_lex_le_total(a, b);
    }
}

/// Inserts `x` into a name list sorted ascending, keeping it sorted.
fn insert_name_sorted(out: &mut Vec<String>, x: String)
    requires
        sorted_by(old(out).deep_view(), name_le()),
    ensures
        sorted_by(final(out).deep_view(), name_le()),
        final(out).deep_view().to_multiset() == old(out).deep_view().to_multiset().insert(x@),
{
    let ghost d = out.deep_view();
    let mut j: usize = 0;
    while j < out.len() && str_le(out[j].as_str(), x.as_str())
        invariant
            j <= out.len(),
            *out == *old(out),
            forall|k: int| 0 <= k < j ==> lex_le(out.deep_view()[k], x@),
        decreases out.len() - j,
    {
        j = j + 1;
    }
    proof {
        if (j as int) < d.len() {
            lemma_lex_le_total(d[j as int], x@);
            assert(lex_le(x@, d[j as int]));
            assert forall|k: int| j <= k < d.len() implies lex_le(x@, d[k]) by {
                if k != j {
                    assert(name_le()(d[j as int], d[k]));
                    lemma_lex_le_trans(x@, d[j as int], d[k]);
                }
            }
        }
    }
    out.insert(j, x);
    proof {
        let e = out.deep_view();
        assert(e =~= d.insert(j as int, x@));
        assert forall|p: int, q: int| 0 <= p < q < e.len() implies name_le()(e[p], e[q]) by {
            if p < j && q < j {
                assert(e[p] == d[p] && e[q] == d[q]);
            } else if p < j && q == j {
                assert(e[p] == d[p]);
            } else if p < j && q > j {
                assert(e[p] == d[p] && e[q] == d[q - 1]);
            } else if p == j && q > j {
                assert(e[q] == d[q - 1]);
            } else if p > j && q > j {
                assert(e[p] == d[p - 1] && e[q] == d[q - 1]);
            }
        }
        lemma_to_multiset_insert(d, j as int, x@);
    }
}

/// Sorts a list of names ascending by lexicographic order.
pub fn sort_names(v: Vec<String>) -> (r: Vec<String>)
    ensures
        sorted_by(r.deep_view(), name_le()),
        r.deep_view().to_multiset() == v.deep_view().to_multiset(),
{
    broadcast use vstd::multiset::group_multiset_axioms;
    broadcast use vstd::seq_lib::group_to_multiset_ensures;

    let ghost orig = v.deep_view();
    let mut rest = v;
    let mut out: Vec<String> = Vec::new();
    proof {
        assert(out.deep_view() =~= Seq::<Seq<char>>::empty());
        lemma_to_multiset_empty::<Seq<char>>();
        assert(out.deep_view().to_multiset().add(rest.deep_view().to_multiset())
            =~= orig.to_multiset());
    }
    while rest.len() > 0
        invariant
            sorted_by(out.deep_view(), name_le()),
            out.deep_view().to_multiset().add(rest.deep_view().to_multiset())
                == orig.to_multiset(),
        decreases rest.len(),
    {
        let ghost dr = rest.deep_view();
        let ghost db = out.deep_view();
        let x = rest.pop().unwrap();
        proof {
            assert(rest.deep_view() =~= dr.drop_last());
            assert(dr =~= dr.drop_last().push(x@));
            dr.drop_last().to_multiset_ensures();
            assert(dr.drop_last().push(x@).to_multiset() =~= dr.drop_last().to_multiset().insert(
                x@,
            ));
            assert(dr.to_multiset() =~= dr.drop_last().to_multiset().insert(x@));
        }
        insert_name_sorted(&mut out, x);
        proof {
            assert(out.deep_view().to_multiset().add(rest.deep_view().to_multiset())
                =~= db.to_multiset().add(dr.to_multiset()));
        }
    }
    proof {
        assert(rest.deep_view() =~= Seq::<Seq<char>>::empty());
        lemma_to_multiset_empty::<Seq<char>>();
        assert(out.deep_view().to_multiset() =~= orig.to_multiset());
    }
    out
}

/// Inserts a row into a row list sorted ascending by name.
fn insert_row_sorted(out: &mut Vec<(String, String)>, x: (String, String))
    requires
        sorted_by(old(out).deep_view(), row_le()),
    ensures
        sorted_by(final(out).deep_view(), row_le()),
        final(out).deep_view().to_multiset() == old(out).deep_view().to_multiset().insert(
            (x.0@, x.1@),
        ),
{
    let ghost d = out.deep_view();
    let ghost xv: RowV = (x.0@, x.1@);
    let mut j: usize = 0;
    while j < out.len() && str_le(out[j].0.as_str(), x.0.as_str())
        invariant
            j <= out.len(),
            *out == *old(out),
            forall|k: int| 0 <= k < j ==> lex_le(out.deep_view()[k].0, x.0@),
        decreases out.len() - j,
    {
        j = j + 1;
    }
    proof {
        if (j as int) < d.len() {
            lemma_lex_le_total(d[j as int].0, xv.0);
            assert(lex_le(xv.0, d[j as int].0));
            assert forall|k: int| j <= k < d.len() implies lex_le(xv.0, d[k].0) by {
                if k != j {
                    assert(row_le()(d[j as int], d[k]));
                    lemma_lex_le_trans(xv.0, d[j as int].0, d[k].0);
                }
            }
        }
    }
    out.insert(j, x);
    proof {
        let e = out.deep_view();
        assert(e =~= d.insert(j as int, xv));
        assert forall|p: int, q: int| 0 <= p < q < e.len() implies row_le()(e[p], e[q]) by {
            if p < j && q < j {
                assert(e[p] == d[p] && e[q] == d[q]);
            } else if p < j && q == j {
                assert(e[p] == d[p]);
            } else if p < j && q > j {
                assert(e[p] == d[p] && e[q] == d[q - 1]);
            } else if p == j && q > j {
                assert(e[q] == d[q - 1]);
            } else if p > j && q > j {
                assert(e[p] == d[p - 1] && e[q] == d[q - 1]);
            }
        }
        lemma_to_multiset_insert(d, j as int, xv);
    }
}

/// Sorts rows ascending by the employee name.
pub fn sort_rows(v: Vec<(String, String)>) -> (r: Vec<(String, String)>)
    ensures
        sorted_by(r.deep_view(), row_le()),
        r.deep_view().to_multiset() == v.deep_view().to_multiset(),
{
    broadcast use vstd::multiset::group_multiset_axioms;
    broadcast use vstd::seq_lib::group_to_multiset_ensures;

    let ghost orig = v.deep_view();
    let mut rest = v;
    let mut out: Vec<(String, String)> = Vec::new();
    proof {
        assert(out.deep_view() =~= Seq::<RowV>::empty());
        lemma_to_multiset_empty::<RowV>();
        assert(out.deep_view().to_multiset().add(rest.deep_view().to_multiset())
            =~= orig.to_multiset());
    }
    while rest.len() > 0
        invariant
            sorted_by(out.deep_view(), row_le()),
            out.deep_view().to_multiset().add(rest.deep_view().to_multiset())
                == orig.to_multiset(),
        decreases rest.len(),
    {
        let ghost dr = rest.deep_view();
        let ghost db = out.deep_view();
        let x = rest.pop().unwrap();
        proof {
            assert(rest.deep_view() =~= dr.drop_last());
            assert((x.0@, x.1@) == dr.last());
            assert(dr =~= dr.drop_last().push((x.0@, x.1@)));
            dr.drop_last().to_multiset_ensures();
            assert(dr.drop_last().push((x.0@, x.1@)).to_multiset()
                =~= dr.drop_last().to_multiset().insert((x.0@, x.1@)));
            assert(dr.to_multiset() =~= dr.drop_last().to_multiset().insert((x.0@, x.1@)));
        }
        insert_row_sorted(&mut out, x);
        proof {
            assert(out.deep_view().to_multiset().add(rest.deep_view().to_multiset())
                =~= db.to_multiset().add(dr.to_multiset()));
        }
    }
    proof {
        assert(rest.deep_view() =~= Seq::<RowV>::empty());
        lemma_to_multiset_empty::<RowV>();
        assert(out.deep_view().to_multiset() =~= orig.to_multiset());
    }
    out
}

/// Reverses a vector.
pub fn reverse_vec<T: DeepView>(v: Vec<T>) -> (r: Vec<T>)
    ensures
        r.deep_view() == v.deep_view().reverse(),
{
    let ghost orig = v.deep_view();
    let mut rest = v;
    let mut out: Vec<T> = Vec::new();
    proof {
        assert(rest.deep_view() =~= orig.take(rest.len() as int));
        assert(out.deep_view() =~= orig.skip(rest.len() as int).reverse());
    }
    while rest.len() > 0
        invariant
            rest.len() <= orig.len(),
            rest.deep_view() == orig.take(rest.len() as int),
            out.deep_view() == orig.skip(rest.len() as int).reverse(),
        decreases rest.len(),
    {
        let ghost dr = rest.deep_view();
        let ghost db = out.deep_view();
        let ghost m = rest.len() as int;
        let x = rest.pop().unwrap();
        out.push(x);
        proof {
            assert(rest.deep_view() =~= dr.drop_last());
            assert(x.deep_view() == dr.last());
            assert(dr.last() == orig[m - 1]);
            assert(rest.deep_view() =~= orig.take(m - 1));
            let s = orig.skip(m - 1).reverse();
            assert forall|i: int| 0 <= i < s.len() implies s[i] == db.push(x.deep_view())[i] by {
                assert(s[i] == orig.skip(m - 1)[orig.len() - m + 1 - 1 - i]);
                if i < orig.len() - m {
                    assert(db[i] == orig.skip(m)[orig.len() - m - 1 - i]);
                }
            }
            assert(out.deep_view() =~= db.push(x.deep_view()));
            assert(out.deep_view() =~= orig.skip(m - 1).reverse());
        }
    }
    proof {
        assert(orig.skip(0) =~= orig);
        assert(out.deep_view() =~= orig.reverse());
    }
    out
}

/// A list sorted ascending reads descending from the end.
pub proof fn lemma_reverse_sorted_names(s: Seq<Seq<char>>)
    requires
        sorted_by(s, name_le()),
    ensures
        sorted_by(s.reverse(), name_ge()),
{
    let r = s.reverse();
    assert forall|p: int, q: int| 0 <= p < q < r.len() implies name_ge()(r[p], r[q]) by {
        assert(r[p] == s[s.len() - 1 - p]);
        assert(r[q] == s[s.len() - 1 - q]);
        assert(name_le()(s[s.len() - 1 - q], s[s.len() - 1 - p]));
    }
}

/// A row list sorted ascending reads descending from the end.
pub proof fn lemma_reverse_sorted_rows(s: Seq<RowV>)
    requires
        sorted_by(s, row_le()),
    ensures
        sorted_by(s.reverse(), row_ge()),
{
    let r = s.reverse();
    assert forall|p: int, q: int| 0 <= p < q < r.len() implies row_ge()(r[p], r[q]) by {
        assert(r[p] == s[s.len() - 1 - p]);
        assert(r[q] == s[s.len() - 1 - q]);
        assert(row_le()(s[s.len() - 1 - q], s[s.len() - 1 - p]));
    }
}

/// Listing descending is the exact reverse of listing ascending: a name
/// list sorted descending with the same contents as one sorted
/// ascending is its reversal.
pub proof fn lemma_desc_is_reverse_of_asc_names(asc: Seq<Seq<char>>, desc: Seq<Seq<char>>)
    requires
        sorted_by(asc, name_le()),
        sorted_by(desc, name_ge()),
        asc.to_multiset() == desc.to_multiset(),
    ensures
        desc == asc.reverse(),
{
    lemma_reverse_sorted_names(asc);
    lemma_name_ge_total_ordering();
    asc.lemma_reverse_to_multiset();
    lemma_sorted_unique(desc, asc.reverse(), name_ge());
}

/// Two row lists sorted descending by name, with the same contents, no
/// two rows of the first sharing an employee name, are equal.
pub proof fn lemma_sorted_unique_rows(x: Seq<RowV>, y: Seq<RowV>)
    requires
        sorted_by(x, row_ge()),
        sorted_by(y, row_ge()),
        x.to_multiset() == y.to_multiset(),
        forall|i: int, j: int| 0 <= i < j < x.len() ==> x[i].0 != x[j].0,
    ensures
        x =~= y,
    decreases x.len(),
{
    broadcast use vstd::multiset::group_multiset_axioms;
    broadcast use vstd::seq_lib::group_to_multiset_ensures;

    x.to_multiset_ensures();
    y.to_multiset_ensures();
    if x.len() == 0 || y.len() == 0 {
        assert(x.to_multiset().len() == y.to_multiset().len());
        assert(x =~= y);
    } else {
        assert(x.to_multiset().contains(x[0]));
        assert(x.to_multiset().contains(y[0]));
        let i = choose|i: int| #![trigger x.spec_index(i)] 0 <= i < x.len() && x[i] == y[0];
        let j = choose|j: int| #![trigger y.spec_index(j)] 0 <= j < y.len() && y[j] == x[0];
        if i != 0 {
            assert(row_ge()(x[0], x[i]));
            assert(row_ge()(y[0], y[j]));
            assert(lex_le(x[i].0, x[0].0));
            assert(lex_le(x[0].0, x[i].0));
            lemma_lex_le_antisym(x[0].0, x[i].0);
            assert(false);
        }
        assert(y[0] == x[0]);
        assert(x.drop_first() =~= x.remove(0));
        assert(y.drop_first() =~= y.remove(0));
        assert(x.remove(0).to_multiset() =~= x.to_multiset().remove(x[0]));
        assert(y.remove(0).to_multiset() =~= y.to_multiset().remove(y[0]));
        assert forall|p: int, q: int| 0 <= p < q < x.drop_first().len() implies x.drop_first()[p].0
            != x.drop_first()[q].0 by {
            assert(x.drop_first()[p] == x[p + 1]);
            assert(x.drop_first()[q] == x[q + 1]);
        }
        lemma_sorted_unique_rows(x.drop_first(), y.drop_first());
        assert(x.len() == y.len());
        assert forall|k: int| 0 <= k < x.len() implies x[k] == y[k] by {
            if k > 0 {
                assert(x[k] == x.drop_first()[k - 1]);
                assert(y[k] == y.drop_first()[k - 1]);
            }
        }
        assert(x =~= y);
    }
}

/// Listing rows descending is the exact reverse of listing them
/// ascending, when no two rows share an employee name.
pub proof fn lemma_desc_is_reverse_of_asc_rows(asc: Seq<RowV>, desc: Seq<RowV>)
    requires
        sorted_by(asc, row_le()),
        sorted_by(desc, row_ge()),
        asc.to_multiset() == desc.to_multiset(),
        forall|i: int, j: int| 0 <= i < j < asc.len() ==> asc[i].0 != asc[j].0,
    ensures
        desc == asc.reverse(),
{
    lemma_reverse_sorted_rows(asc);
    asc.lemma_reverse_to_multiset();
    assert forall|i: int, j: int| 0 <= i < j < asc.reverse().len() implies asc.reverse()[i].0
        != asc.reverse()[j].0 by {
        assert(asc.reverse()[i] == asc[asc.len() - 1 - i]);
        assert(asc.reverse()[j] == asc[asc.len() - 1 - j]);
    }
    lemma_sorted_unique_rows(asc.reverse(), desc);
}

} // verus!
