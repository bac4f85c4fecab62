//! The directory's laws: what runs of `create` accumulate, what
//! `delete` removes and leaves alone, and what a missing department
//! yields.

use vstd::prelude::*;
use crate::directory::{DeptV, DirV, create_update, delete_dept, delete_update, dept_names,
    employees_of, find_dept, has_dept, keep_other, lemma_find_dept};

verus! {

/// Two directories whose departments carry the same names in the same
/// order are searched alike.
proof fn lemma_find_dept_same_names(v1: DirV, v2: DirV, d: Seq<char>)
    requires
        v1.len() == v2.len(),
        forall|k: int| 0 <= k < v1.len() ==> v1[k].name == v2[k].name,
    ensures
        find_dept(v1, d) == find_dept(v2, d),
    decreases v1.len(),
{
    if v1.len() > 0 {
        assert(v1[0].name == v2[0].name);
        assert forall|k: int| 0 <= k < v1.drop_first().len() implies v1.drop_first()[k].name
            == v2.drop_first()[k].name by {
            assert(v1.drop_first()[k] == v1[k + 1]);
            assert(v2.drop_first()[k] == v2[k + 1]);
        }
        lemma_find_dept_same_names(v1.drop_first(), v2.drop_first(), d);
    }
}

/// Appending a department entry leaves earlier lookups alone and makes
/// the new name found last.
proof fn lemma_find_dept_push(v: DirV, x: DeptV, d: Seq<char>)
    ensures
        find_dept(v.push(x), d) == (if find_dept(v, d) >= 0 {
            find_dept(v, d)
        } else if x.name == d {
            v.len() as int
        } else {
            -1
        }),
    decreases v.len(),
{
    if v.len() == 0 {
        assert(v.push(x)[0] == x);
        assert(v.push(x).drop_first() =~= Seq::<DeptV>::empty());
        assert(find_dept(v.push(x).drop_first(), d) == -1);
    } else {
        assert(v.push(x)[0] == v[0]);
        assert(v.push(x).drop_first() =~= v.drop_first().push(x));
        lemma_find_dept_push(v.drop_first(), x, d);
        if v[0].name != d {
            assert(find_dept(v.push(x), d) == ({
                let r = find_dept(v.drop_first().push(x), d);
                if r < 0 {
                    -1
                } else {
                    r + 1
                }
            }));
            assert(find_dept(v, d) == ({
                let r = find_dept(v.drop_first(), d);
                if r < 0 {
                    -1
                } else {
                    r + 1
                }
            }));
        }
    }
}

/// What `create` does to each department's list: the named department
/// gains `n` at the end, every other keeps its list.
pub proof fn lemma_create_update_employees(v: DirV, n: Seq<char>, d: Seq<char>)
    ensures
        employees_of(create_update(v, n, d), d) == employees_of(v, d).push(n),
        forall|d2: Seq<char>| d2 != d ==> #[trigger] employees_of(create_update(v, n, d), d2)
            == employees_of(v, d2),
{
    lemma_find_dept(v, d);
    let i = find_dept(v, d);
    let u = create_update(v, n, d);
    if i >= 0 {
        assert forall|k: int| 0 <= k < u.len() implies u[k].name == v[k].name by {}
        lemma_find_dept_same_names(u, v, d);
        assert(employees_of(u, d) == employees_of(v, d).push(n));
        assert forall|d2: Seq<char>| d2 != d implies #[trigger] employees_of(u, d2)
            == employees_of(v, d2) by {
            lemma_find_dept_same_names(u, v, d2);
            lemma_find_dept(v, d2);
            let j = find_dept(v, d2);
            if j >= 0 {
                assert(j != i);
                assert(u[j] == v[j]);
            }
        }
    } else {
        let x = DeptV { name: d, employees: seq![n] };
        lemma_find_dept_push(v, x, d);
        assert(find_dept(u, d) == v.len() as int);
        assert(u[v.len() as int] == x);
        assert(employees_of(v, d) =~= Seq::<Seq<char>>::empty());
        assert(employees_of(u, d) =~= employees_of(v, d).push(n));
        assert forall|d2: Seq<char>| d2 != d implies #[trigger] employees_of(u, d2)
            == employees_of(v, d2) by {
            lemma_find_dept_push(v, x, d2);
            lemma_find_dept(v, d2);
            let j = find_dept(v, d2);
            if j >= 0 {
                assert(u[j] == v[j]);
            }
        }
    }
}

/// A run of `create` calls, folded over the directory.
pub open spec fn apply_creates(v: DirV, calls: Seq<(Seq<char>, Seq<char>)>) -> DirV
    decreases calls.len(),
{
    if calls.len() == 0 {
        v
    } else {
        create_update(apply_creates(v, calls.drop_last()), calls.last().0, calls.last().1)
    }
}

/// The names a run of `create` calls records for department `d`, in
/// call order, duplicates kept.
pub open spec fn names_created_for(calls: Seq<(Seq<char>, Seq<char>)>, d: Seq<char>) -> Seq<
    Seq<char>,
>
    decreases calls.len(),
{
    if calls.len() == 0 {
        Seq::empty()
    } else {
        let rest = names_created_for(calls.drop_last(), d);
        if calls.last().1 == d {
            rest.push(calls.last().0)
        } else {
            rest
        }
    }
}

/// After any run of `create` calls, a department's list is exactly
/// what it held before followed by the names created for it, in call
/// order with duplicates kept; listing it ascending therefore shows
/// exactly that multiset, sorted.
pub proof fn lemma_creates_accumulate(v: DirV, calls: Seq<(Seq<char>, Seq<char>)>, d: Seq<char>)
    ensures
        employees_of(apply_creates(v, calls), d) == employees_of(v, d) + names_created_for(
            calls,
            d,
        ),
    decreases calls.len(),
{
    if calls.len() == 0 {
        assert(employees_of(v, d) + Seq::<Seq<char>>::empty() =~= employees_of(v, d));
    } else {
        lemma_creates_accumulate(v, calls.drop_last(), d);
        let w = apply_creates(v, calls.drop_last());
        let n = calls.last().0;
        let dd = calls.last().1;
        lemma_create_update_employees(w, n, dd);
        if dd == d {
            assert((employees_of(v, d) + names_created_for(calls.drop_last(), d)).push(n)
                =~= employees_of(v, d) + names_created_for(calls.drop_last(), d).push(n));
        }
    }
}

/// What `delete(n, d)` does to each department's list: the swept ones
/// are filtered, the others untouched, and no department entry is
/// added or removed.
pub proof fn lemma_delete_update_employees(v: DirV, n: Seq<char>, d: Seq<char>, d2: Seq<char>)
    ensures
        dept_names(delete_update(v, n, d)) == dept_names(v),
        (d.len() == 0 || d2 == d) ==> employees_of(delete_update(v, n, d), d2) == employees_of(
            v,
            d2,
        ).filter(keep_other(n)),
        !(d.len() == 0 || d2 == d) ==> employees_of(delete_update(v, n, d), d2) == employees_of(
            v,
            d2,
        ),
{
    let u = delete_update(v, n, d);
    assert forall|k: int| 0 <= k < u.len() implies u[k].name == v[k].name by {}
    assert(dept_names(u) =~= dept_names(v));
    lemma_find_dept_same_names(u, v, d2);
    lemma_find_dept(v, d2);
    let j = find_dept(v, d2);
    if j >= 0 {
        assert(u[j] == delete_dept(n, d)(v[j]));
    } else {
        reveal(Seq::filter);
        assert(Seq::<Seq<char>>::empty().filter(keep_other(n)) =~= Seq::<Seq<char>>::empty());
    }
}

/// `delete(n, "")` leaves no employee named `n` in any department;
/// `delete(n, d)` leaves none in `d` and every other department's
/// list exactly as it was.
pub proof fn lemma_delete_removes(v: DirV, n: Seq<char>, d: Seq<char>, d2: Seq<char>)
    ensures
        (d.len() == 0 || d2 == d) ==> !employees_of(delete_update(v, n, d), d2).contains(n),
        !(d.len() == 0 || d2 == d) ==> employees_of(delete_update(v, n, d), d2) == employees_of(
            v,
            d2,
        ),
{
    broadcast use vstd::seq_lib::group_seq_properties;

    lemma_delete_update_employees(v, n, d, d2);
    if d.len() == 0 || d2 == d {
        let f = employees_of(v, d2).filter(keep_other(n));
        employees_of(v, d2).filter_lemma(keep_other(n));
        if f.contains(n) {
            let idx = choose|idx: int| 0 <= idx < f.len() && f[idx] == n;
            assert(keep_other(n)(f[idx]));
            assert(false);
        }
    }
}

/// A department that was never created yields the empty list.
pub proof fn lemma_missing_department_empty(v: DirV, d: Seq<char>)
    requires
        !has_dept(v, d),
    ensures
        employees_of(v, d) == Seq::<Seq<char>>::empty(),
{
}

} // verus!
