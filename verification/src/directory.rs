//! The directory: departments mapped to ordered lists of employee
//! names, with creation, deletion and sorted listings.

use vstd::prelude::*;
use vstd::relations::sorted_by;
use crate::sorting::{RowV, name_ge, name_le, reverse_vec, row_ge, row_le, sort_names, sort_rows,
    lemma_reverse_sorted_names, lemma_reverse_sorted_rows};
use crate::text::str_eq;

verus! {

/// One department and its employees, in insertion order.
pub struct Department {
    pub name: String,
    pub employees: Vec<String>,
}

/// The ghost image of a department.
#[verifier::ext_equal]
pub struct DeptV {
    pub name: Seq<char>,
    pub employees: Seq<Seq<char>>,
}

/// The ghost image of the whole directory: departments in the order
/// they were first created.
pub type DirV = Seq<DeptV>;

impl View for Department {
    type V = DeptV;

    open spec fn view(&self) -> DeptV {
        DeptV { name: self.name@, employees: self.employees.deep_view() }
    }
}

/// Index of the department named `d`, or -1 when there is none.
pub open spec fn find_dept(v: DirV, d: Seq<char>) -> int
    decreases v.len(),
{
    if v.len() == 0 {
        -1
    } else if v[0].name == d {
        0
    } else {
        let r = find_dept(v.drop_first(), d);
        if r < 0 {
            -1
        } else {
            r + 1
        }
    }
}

pub open spec fn has_dept(v: DirV, d: Seq<char>) -> bool {
    find_dept(v, d) >= 0
}

/// The employees recorded for department `d`; empty when the
/// department does not exist.
pub open spec fn employees_of(v: DirV, d: Seq<char>) -> Seq<Seq<char>> {
    if has_dept(v, d) {
        v[find_dept(v, d)].employees
    } else {
        Seq::empty()
    }
}

pub open spec fn dept_name_of() -> spec_fn(DeptV) -> Seq<char> {
    |x: DeptV| x.name
}

/// The department names, one per department, creation order.
pub open spec fn dept_names(v: DirV) -> Seq<Seq<char>> {
    v.map_values(dept_name_of())
}

/// No department name occurs twice.
pub open spec fn dir_wf(v: DirV) -> bool {
    forall|i: int, j: int| 0 <= i < j < v.len() ==> v[i].name != v[j].name
}

pub proof fn lemma_find_dept(v: DirV, d: Seq<char>)
    ensures
        -1 <= find_dept(v, d) < v.len(),
        find_dept(v, d) >= 0 ==> v[find_dept(v, d)].name == d,
        forall|k: int| 0 <= k < v.len() && #[trigger] v[k].name == d ==> find_dept(v, d) >= 0,
        forall|k: int| 0 <= k < find_dept(v, d) ==> v[k].name != d,
        find_dept(v, d) == -1 ==> (forall|k: int| 0 <= k < v.len() ==> v[k].name != d),
    decreases v.len(),
{
    if v.len() > 0 && v[0].name != d {
        lemma_find_dept(v.drop_first(), d);
        assert forall|k: int| 0 <= k < v.len() && #[trigger] v[k].name == d implies find_dept(
            v,
            d,
        ) >= 0 by {
            if k > 0 {
                assert(v.drop_first()[k - 1].name == d);
            }
        }
        assert forall|k: int| 0 <= k < find_dept(v, d) implies v[k].name != d by {
            if k > 0 {
                assert(v.drop_first()[k - 1].name == v[k].name);
            }
        }
        if find_dept(v, d) == -1 {
            assert forall|k: int| 0 <= k < v.len() implies v[k].name != d by {
                if k > 0 {
                    assert(v.drop_first()[k - 1].name == v[k].name);
                }
            }
        }
    }
}

/// The directory after `create(n, d)`: `n` appended to the list of
/// `d`, the department first created if absent.
pub open spec fn create_update(v: DirV, n: Seq<char>, d: Seq<char>) -> DirV {
    let i = find_dept(v, d);
    if i >= 0 {
        v.update(i, DeptV { name: v[i].name, employees: v[i].employees.push(n) })
    } else {
        v.push(DeptV { name: d, employees: seq![n] })
    }
}

/// Keeps the employees that are not named `n`.
pub open spec fn keep_other(n: Seq<char>) -> spec_fn(Seq<char>) -> bool {
    |e: Seq<char>| e != n
}

/// What `delete(n, d)` does to one department: its list is filtered
/// when `d` names it or `d` is empty, otherwise left alone.
pub open spec fn delete_dept(n: Seq<char>, d: Seq<char>) -> spec_fn(DeptV) -> DeptV {
    |x: DeptV|
        if d.len() == 0 || x.name == d {
            DeptV { name: x.name, employees: x.employees.filter(keep_other(n)) }
        } else {
            x
        }
}

/// The directory after `delete(n, d)`: every occurrence of `n` removed
/// from `d`, or from every department when `d` is empty; department
/// entries themselves are never removed.
pub open spec fn delete_update(v: DirV, n: Seq<char>, d: Seq<char>) -> DirV {
    v.map_values(delete_dept(n, d))
}

pub open spec fn row_of(d: Seq<char>) -> spec_fn(Seq<char>) -> RowV {
    |e: Seq<char>| (e, d)
}

/// Every (employee, department) pair, department by department.
pub open spec fn all_rows(v: DirV) -> Seq<RowV>
    decreases v.len(),
{
    if v.len() == 0 {
        Seq::empty()
    } else {
        all_rows(v.drop_last()) + v.last().employees.map_values(row_of(v.last().name))
    }
}

/// The usage text, line by line.
pub open spec fn help_text() -> Seq<char> {
    "Usage:\n  create EMPLOYEE DEPARTMENT\t\t\tCreate a new EMPLOYEE on DEPARTMENT\n  delete EMPLOYEE\t\t\t\tDelete an EMPLOYEE\n  delete EMPLOYEE DEPARTMENT\t\t\tDelete an EMPLOYEE from DEPARTMENT\n  list all employees [asc|desc]\t\t\tShow all employees with ascending (asc) or descending (desc) order\n  list all department [asc|desc]\t\tShow all department with ascending (asc) or descending (desc) order\n  list employees DEPARTMENT [asc|desc]\t\tShow all employees on a given DEPARTMENT with ascending (asc) or descending (desc) order\n  help\t\t\t\t\t\tShow help\n  exit\t\t\t\t\t\tExit program"@
}

/// Maps department names to ordered employee name lists.
pub struct EmployeesDatabase {
    depts: Vec<Department>,
}

impl View for EmployeesDatabase {
    type V = DirV;

    closed spec fn view(&self) -> DirV {
        Seq::new(self.depts@.len(), |i: int| self.depts@[i]@)
    }
}

impl EmployeesDatabase {
    /// Department names are unique.
    pub open spec fn wf(self) -> bool {
        dir_wf(self@)
    }

    /// An empty directory.
    pub fn new() -> (r: Self)
        ensures
            r@ == Seq::<DeptV>::empty(),
            r.wf(),
    {
        let r = EmployeesDatabase { depts: Vec::new() };
        proof {
            assert(r@ =~= Seq::<DeptV>::empty());
        }
        r
    }

    /// Appends `name` to `department`'s list, creating the department
    /// entry if absent; duplicates are kept. Names and departments are
    /// non-empty text; the command loop rejects blank ones before
    /// dispatch.
    pub fn create(&mut self, name: &str, department: &str)
        requires
            name@.len() > 0,
            department@.len() > 0,
        ensures
            final(self)@ == create_update(old(self)@, name@, department@),
            old(self).wf() ==> final(self).wf(),
    {
        let ghost v0 = self@;
        proof {
            lemma_find_dept(v0, department@);
        }
        let n = self.depts.len();
        let mut i: usize = 0;
        while i < n
            invariant
                i <= n,
                self == old(self),
                v0 == self@,
                n == self.depts@.len(),
                forall|k: int| 0 <= k < i ==> v0[k].name != department@,
            decreases n - i,
        {
            proof {
                assert(v0[i as int] == self.depts@[i as int]@);
            }
            if str_eq(self.depts[i].name.as_str(), department) {
                proof {
                    lemma_find_dept(v0, department@);
                    assert(v0[i as int].name == department@);
                    assert(find_dept(v0, department@) == i as int);
                }
                let mut dep = self.depts.remove(i);
                dep.employees.push(name.to_owned());
                self.depts.insert(i, dep);
                proof {
                    let ghost s1 = old(self).depts@;
                    s1.remove_ensures(i as int);
                    s1.remove(i as int).insert_ensures(i as int, dep);
                    assert(dep.name@ == v0[i as int].name);
                    assert(dep.employees.deep_view() =~= v0[i as int].employees.push(name@));
                    assert(dep@ == DeptV {
                        name: v0[i as int].name,
                        employees: v0[i as int].employees.push(name@),
                    });
                    assert(self@ =~= v0.update(
                        i as int,
                        DeptV { name: v0[i as int].name, employees: v0[i as int].employees.push(name@) },
                    ));
                    assert forall|k: int| 0 <= k < v0.len() implies self@[k].name == v0[k].name by {}
                }
                return ;
            }
            i = i + 1;
        }
        let mut emp: Vec<String> = Vec::new();
        emp.push(name.to_owned());
        self.depts.push(Department { name: department.to_owned(), employees: emp });
        proof {
            assert(find_dept(v0, department@) == -1);
            assert(emp.deep_view() =~= seq![name@]);
            assert(self@ =~= v0.push(DeptV { name: department@, employees: seq![name@] }));
        }
    }

    /// Removes every employee named `name` from `department`, or from
    /// every department when `department` is empty; exact, case
    /// sensitive match; silently a no-op when nothing matches.
    #[verifier::rlimit(60)]
    pub fn delete(&mut self, name: &str, department: &str)
        ensures
            final(self)@ == delete_update(old(self)@, name@, department@),
            old(self).wf() ==> final(self).wf(),
    {
        let ghost v0 = self@;
        let all = department.unicode_len() == 0;
        let n = self.depts.len();
        let mut i: usize = 0;
        while i < n
            invariant
                i <= n,
                n == self.depts@.len(),
                self@.len() == v0.len(),
                n == v0.len(),
                forall|k: int| i <= k < n ==> self@[k] == v0[k],
                forall|k: int| 0 <= k < i ==> self@[k] == delete_dept(name@, department@)(v0[k]),
                all == (department@.len() == 0),
            decreases n - i,
        {
            proof {
                assert(self@[i as int] == self.depts@[i as int]@);
            }
            let applies = if all {
                true
            } else {
                str_eq(self.depts[i].name.as_str(), department)
            };
            if applies {
                let ghost vstart = self@;
                let ghost sb = self.depts@;
                let mut dep = self.depts.remove(i);
                dep.employees = filter_out(dep.employees, name);
                self.depts.insert(i, dep);
                proof {
                    sb.remove_ensures(i as int);
                    sb.remove(i as int).insert_ensures(i as int, dep);
                    assert forall|k: int| 0 <= k < n && k != i implies self.depts@[k] == sb[k] by {}
                    assert(sb[i as int]@ == v0[i as int]);
                    assert(dep.name@ == v0[i as int].name);
                    assert(dep.employees.deep_view() =~= v0[i as int].employees.filter(keep_other(
                        name@,
                    )));
                    assert(dep@ == delete_dept(name@, department@)(v0[i as int]));
                    assert(self@[i as int] == delete_dept(name@, department@)(v0[i as int]));
                    assert forall|k: int| 0 <= k < i implies self@[k] == delete_dept(
                        name@,
                        department@,
                    )(v0[k]) by {
                        assert(self.depts@[k] == sb[k]);
                        assert(vstart[k] == sb[k]@);
                    }
                    assert forall|k: int| i < k < n implies self@[k] == v0[k] by {
                        assert(self.depts@[k] == sb[k]);
                        assert(vstart[k] == sb[k]@);
                    }
                }
            } else {
                proof {
                    assert(self@[i as int] == delete_dept(name@, department@)(v0[i as int]));
                }
            }
            i = i + 1;
        }
        proof {
            assert(self@ =~= delete_update(v0, name@, department@));
            if dir_wf(v0) {
                assert forall|p: int, q: int| 0 <= p < q < self@.len() implies self@[p].name
                    != self@[q].name by {
                    assert(self@[p].name == v0[p].name);
                    assert(self@[q].name == v0[q].name);
                }
            }
        }
    }

    /// The employee names of one department, sorted ascending or
    /// descending by `order`, left in creation order for any other
    /// `order` value; a department that does not exist yields an empty
    /// list, not an error.
    pub fn list_employees_on_department(&self, department: &str, order: &str) -> (r: Vec<String>)
        requires
            self.wf(),
        ensures
            order@ == "asc"@ ==> sorted_by(r.deep_view(), name_le()) && r.deep_view().to_multiset()
                == employees_of(self@, department@).to_multiset(),
            order@ == "desc"@ ==> sorted_by(r.deep_view(), name_ge())
                && r.deep_view().to_multiset() == employees_of(self@, department@).to_multiset(),
            order@ != "asc"@ && order@ != "desc"@ ==> r.deep_view() == employees_of(
                self@,
                department@,
            ),
    {
        proof {
            lemma_find_dept(self@, department@);
        }
        let n = self.depts.len();
        let mut rows: Vec<String> = Vec::new();
        let mut i: usize = 0;
        let mut found = false;
        while i < n
            invariant
                i <= n,
                n == self.depts@.len(),
                self.wf(),
                !found ==> rows.deep_view() =~= Seq::<Seq<char>>::empty() && (forall|k: int|
                    0 <= k < i ==> self@[k].name != department@),
                found ==> has_dept(self@, department@) && find_dept(self@, department@) < i
                    && rows.deep_view() == employees_of(self@, department@),
            decreases n - i,
        {
            proof {
                assert(self@[i as int] == self.depts@[i as int]@);
            }
            if str_eq(self.depts[i].name.as_str(), department) {
                proof {
                    lemma_find_dept(self@, department@);
                    assert(self@[i as int].name == department@);
                    assert(find_dept(self@, department@) == i as int);
                }
                let dep = &self.depts[i];
                let m = dep.employees.len();
                let mut k: usize = 0;
                while k < m
                    invariant
                        k <= m,
                        i < n,
                        n == self.depts@.len(),
                        m == self@[i as int].employees.len(),
                        rows.deep_view() =~= self@[i as int].employees.take(k as int),
                    decreases m - k,
                {
                    let e = self.depts[i].employees[k].clone();
                    let ghost ev = e@;
                    proof {
                        assert(ev == self@[i as int].employees[k as int]);
                    }
                    rows.push(e);
                    proof {
                        assert(rows.deep_view() =~= self@[i as int].employees.take(k as int).push(
                            ev,
                        ));
                        assert(self@[i as int].employees.take(k as int + 1) =~= self@[
                            i as int
                        ].employees.take(k as int).push(ev));
                    }
                    k = k + 1;
                }
                proof {
                    assert(self@[i as int].employees.take(m as int) =~= self@[
                        i as int
                    ].employees);
                }
                found = true;
            }
            i = i + 1;
        }
        proof {
            if !found {
                assert(find_dept(self@, department@) == -1);
                assert(rows.deep_view() =~= employees_of(self@, department@));
            }
        }
        order_names(rows, order)
    }

    /// The department names, one per department entry (empty ones
    /// included), sorted ascending or descending by `order`, left in
    /// creation order for any other `order` value.
    pub fn list_all_department(&self, order: &str) -> (r: Vec<String>)
        ensures
            order@ == "asc"@ ==> sorted_by(r.deep_view(), name_le()) && r.deep_view().to_multiset()
                == dept_names(self@).to_multiset(),
            order@ == "desc"@ ==> sorted_by(r.deep_view(), name_ge())
                && r.deep_view().to_multiset() == dept_names(self@).to_multiset(),
            order@ != "asc"@ && order@ != "desc"@ ==> r.deep_view() == dept_names(self@),
    {
        let n = self.depts.len();
        let mut rows: Vec<String> = Vec::new();
        let mut i: usize = 0;
        while i < n
            invariant
                i <= n,
                n == self.depts@.len(),
                rows.deep_view() =~= dept_names(self@).take(i as int),
            decreases n - i,
        {
            let e = self.depts[i].name.clone();
            let ghost ev = e@;
            proof {
                assert(ev == self@[i as int].name);
                assert(dept_names(self@)[i as int] == self@[i as int].name);
            }
            rows.push(e);
            proof {
                assert(rows.deep_view() =~= dept_names(self@).take(i as int).push(ev));
                assert(dept_names(self@).take(i as int + 1) =~= dept_names(self@).take(
                    i as int,
                ).push(ev));
            }
            i = i + 1;
        }
        proof {
            assert(dept_names(self@).take(n as int) =~= dept_names(self@));
        }
        order_names(rows, order)
    }

    /// Every (employee, department) pair, sorted ascending or
    /// descending by employee name per `order`, left in traversal
    /// order for any other `order` value; rows with equal names keep
    /// their traversal order only as far as the sort allows.
    pub fn list_all_employees(&self, order: &str) -> (r: Vec<(String, String)>)
        ensures
            order@ == "asc"@ ==> sorted_by(r.deep_view(), row_le()) && r.deep_view().to_multiset()
                == all_rows(self@).to_multiset(),
            order@ == "desc"@ ==> sorted_by(r.deep_view(), row_ge()) && r.deep_view().to_multiset()
                == all_rows(self@).to_multiset(),
            order@ != "asc"@ && order@ != "desc"@ ==> r.deep_view() == all_rows(self@),
    {
        let n = self.depts.len();
        let mut rows: Vec<(String, String)> = Vec::new();
        let mut i: usize = 0;
        proof {
            assert(rows.deep_view() =~= all_rows(self@.take(0)));
        }
        while i < n
            invariant
                i <= n,
                n == self.depts@.len(),
                rows.deep_view() == all_rows(self@.take(i as int)),
            decreases n - i,
        {
            let ghost base = all_rows(self@.take(i as int));
            let ghost drows = self@[i as int].employees.map_values(row_of(self@[i as int].name));
            let m = self.depts[i].employees.len();
            let mut k: usize = 0;
            proof {
                assert(rows.deep_view() =~= base + drows.take(0));
            }
            while k < m
                invariant
                    k <= m,
                    i < n,
                    n == self.depts@.len(),
                    m == self@[i as int].employees.len(),
                    base == all_rows(self@.take(i as int)),
                    drows == self@[i as int].employees.map_values(row_of(self@[i as int].name)),
                    rows.deep_view() == base + drows.take(k as int),
                decreases m - k,
            {
                let e = self.depts[i].employees[k].clone();
                let d = self.depts[i].name.clone();
                let ghost ev = e@;
                let ghost dv = d@;
                proof {
                    assert(self@[i as int] == self.depts@[i as int]@);
                    assert(ev == self@[i as int].employees[k as int]);
                    assert(dv == self@[i as int].name);
                    assert(drows[k as int] == (ev, dv));
                }
                rows.push((e, d));
                proof {
                    assert(rows.deep_view() =~= (base + drows.take(k as int)).push((ev, dv)));
                    assert(base + drows.take(k as int + 1) =~= (base + drows.take(
                        k as int,
                    )).push((ev, dv)));
                }
                k = k + 1;
            }
            proof {
                assert(drows.take(m as int) =~= drows);
                let t = self@.take(i as int + 1);
                assert(t.drop_last() =~= self@.take(i as int));
                assert(t.last() == self@[i as int]);
                assert(all_rows(t) == all_rows(self@.take(i as int)) + drows);
            }
            i = i + 1;
        }
        proof {
            assert(self@.take(n as int) =~= self@);
        }
        proof {
            broadcast use vstd::string::group_string_axioms;

            reveal_strlit("asc");
            reveal_strlit("desc");
            assert("asc"@.len() == 3);
            assert("desc"@.len() == 4);
        }
        let asc = str_eq(order, "asc");
        let desc = str_eq(order, "desc");
        if asc {
            sort_rows(rows)
        } else if desc {
            let s = sort_rows(rows);
            let r = reverse_vec(s);
            proof {
                lemma_reverse_sorted_rows(s.deep_view());
                s.deep_view().lemma_reverse_to_multiset();
            }
            r
        } else {
            rows
        }
    }

    /// The usage text.
    pub fn help(&self) -> (r: String)
        ensures
            r@ == help_text(),
    {
        String::from_str(
            "Usage:\n  create EMPLOYEE DEPARTMENT\t\t\tCreate a new EMPLOYEE on DEPARTMENT\n  delete EMPLOYEE\t\t\t\tDelete an EMPLOYEE\n  delete EMPLOYEE DEPARTMENT\t\t\tDelete an EMPLOYEE from DEPARTMENT\n  list all employees [asc|desc]\t\t\tShow all employees with ascending (asc) or descending (desc) order\n  list all department [asc|desc]\t\tShow all department with ascending (asc) or descending (desc) order\n  list employees DEPARTMENT [asc|desc]\t\tShow all employees on a given DEPARTMENT with ascending (asc) or descending (desc) order\n  help\t\t\t\t\t\tShow help\n  exit\t\t\t\t\t\tExit program",
        )
    }
}

/// Applies the `order` directive to a name list: "asc" and "desc"
/// sort, anything else leaves the list as it came.
fn order_names(rows: Vec<String>, order: &str) -> (r: Vec<String>)
    ensures
        order@ == "asc"@ ==> sorted_by(r.deep_view(), name_le()) && r.deep_view().to_multiset()
            == rows.deep_view().to_multiset(),
        order@ == "desc"@ ==> sorted_by(r.deep_view(), name_ge()) && r.deep_view().to_multiset()
            == rows.deep_view().to_multiset(),
        order@ != "asc"@ && order@ != "desc"@ ==> r.deep_view() == rows.deep_view(),
{
    proof {
        broadcast use vstd::string::group_string_axioms;

        reveal_strlit("asc");
        reveal_strlit("desc");
        assert("asc"@.len() == 3);
        assert("desc"@.len() == 4);
    }
    let asc = str_eq(order, "asc");
    let desc = str_eq(order, "desc");
    if asc {
        sort_names(rows)
    } else if desc {
        let s = sort_names(rows);
        let r = reverse_vec(s);
        proof {
            lemma_reverse_sorted_names(s.deep_view());
            s.deep_view().lemma_reverse_to_multiset();
        }
        r
    } else {
        rows
    }
}

/// A copy of `v` without the entries equal to `name`.
fn filter_out(v: Vec<String>, name: &str) -> (r: Vec<String>)
    ensures
        r.deep_view() == v.deep_view().filter(keep_other(name@)),
{
    broadcast use vstd::seq_lib::group_seq_properties;

    let n = v.len();
    let mut out: Vec<String> = Vec::new();
    let mut i: usize = 0;
    proof {
        reveal(Seq::filter);
        assert(v.deep_view().take(0) =~= Seq::<Seq<char>>::empty());
        assert(out.deep_view() =~= v.deep_view().take(0).filter(keep_other(name@)));
    }
    while i < n
        invariant
            i <= n,
            n == v@.len(),
            out.deep_view() == v.deep_view().take(i as int).filter(keep_other(name@)),
        decreases n - i,
    {
        let ghost t = v.deep_view().take(i as int);
        proof {
            assert(v.deep_view().take(i as int + 1) =~= t.push(v.deep_view()[i as int]));
            t.lemma_filter_push(v.deep_view()[i as int], keep_other(name@));
        }
        if !str_eq(v[i].as_str(), name) {
            let e = v[i].clone();
            out.push(e);
        }
        i = i + 1;
    }
    proof {
        assert(v.deep_view().take(n as int) =~= v.deep_view());
    }
    out
}

} // verus!
