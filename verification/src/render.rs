//! Turning replies into the text the command loop prints: exact plain
//! messages, and tables drawn by an outside renderer.

use vstd::prelude::*;
use crate::command::{CommandError, Reply};

verus! {

/// The message printed for each rejected line.
pub open spec fn error_text(e: CommandError) -> Seq<char> {
    match e {
        CommandError::Invalid => "Invalid command. Try \"help\"."@,
        CommandError::MissingName => "Employee name is missing!"@,
        CommandError::MissingDepartment => "Department is missing!"@,
        CommandError::BadOrder => "Order must be asc or desc"@,
    }
}

/// `needle` occurs in `hay` as one contiguous run.
pub open spec fn text_contains(hay: Seq<char>, needle: Seq<char>) -> bool {
    exists|i: int|
        0 <= i && i + needle.len() <= hay.len() && #[trigger] hay.subrange(i, i + needle.len())
            == needle
}

/// A cell whose text survives table layout whole: a single line, short
/// enough that no column-width cap can wrap it (the cap is 65535
/// display columns and a character is at most three columns wide).
pub open spec fn plain_cell(s: Seq<char>) -> bool {
    s.len() <= 21845 && (forall|k: int| 0 <= k < s.len() ==> s[k] != '\n' && s[k] != '\r')
}

/// Relies on comfy_table::Table: draws one text table with a bold
/// header row. Styling is applied only on a terminal, so the exact
/// text is not named; stated instead is what holds of every outcome:
/// the output is non-empty, and each single-line, width-bounded cell
/// appears in it whole, because comfy_table splits cell text only on
/// newlines, wraps a line only past the column-width cap, and pads
/// and styles around the intact line.
#[verifier::external_body]
fn table_text(headers: &Vec<String>, rows: &Vec<Vec<String>>) -> (r: String)
    requires
        headers@.len() > 0,
    ensures
        r@.len() > 0,
        forall|i: int|
            0 <= i < headers.deep_view().len() && plain_cell(#[trigger] headers.deep_view()[i])
                ==> text_contains(r@, headers.deep_view()[i]),
        forall|i: int, j: int|
            0 <= i < rows.deep_view().len() && 0 <= j < rows.deep_view()[i].len() && plain_cell(
                #[trigger] rows.deep_view()[i][j],
            ) ==> text_contains(r@, rows.deep_view()[i][j]),
{
    let mut table = comfy_table::Table::new();
    let mut header = comfy_table::Row::new();
    for h in headers.iter() {
        header.add_cell(comfy_table::Cell::new(h).add_attribute(comfy_table::Attribute::Bold));
    }
    table.set_header(header);
    for row in rows.iter() {
        table.add_row(row.clone());
    }
    format!("{table}")
}

/// The column titles over the (employee, department) table.
pub open spec fn employee_header() -> Seq<char> {
    "Employee"@
}

pub open spec fn department_header() -> Seq<char> {
    "Department"@
}

/// The two column titles are single-line cells.
proof fn lemma_headers_plain()
    ensures
        plain_cell(employee_header()),
        plain_cell(department_header()),
{
    broadcast use vstd::string::group_string_axioms;

    reveal_strlit("Employee");
    reveal_strlit("Department");
    assert("Employee"@.len() == 8);
    assert("Department"@.len() == 10);
    assert forall|k: int| 0 <= k < "Employee"@.len() implies "Employee"@[k] != '\n'
        && "Employee"@[k] != '\r' by {}
    assert forall|k: int| 0 <= k < "Department"@.len() implies "Department"@[k] != '\n'
        && "Department"@[k] != '\r' by {}
}

/// The text the loop prints for a reply. Messages are stated exactly;
/// for the three table replies the table text is the renderer's, and
/// what is stated is that it is non-empty and shows every single-line,
/// width-bounded name and the column titles.
pub fn render_reply(r: &Reply) -> (out: String)
    ensures
        (match r {
            Reply::Created { name, department } => out@ == name@ + " added to "@ + department@
                + "!"@,
            Reply::Deleted { name, department } => (department@.len() == 0 ==> out@
                == "All employees named "@ + name@ + " has been removed!"@) && (department@.len()
                > 0 ==> out@ == "All employees named "@ + name@ + " has been removed from "@
                + department@ + "!"@),
            Reply::EmployeeRows { rows } => out@.len() > 0 && text_contains(
                out@,
                employee_header(),
            ) && text_contains(out@, department_header()) && (forall|i: int|
                0 <= i < rows.deep_view().len() ==> (plain_cell(
                    (#[trigger] rows.deep_view()[i]).0,
                ) ==> text_contains(out@, rows.deep_view()[i].0)) && (plain_cell(
                    rows.deep_view()[i].1,
                ) ==> text_contains(out@, rows.deep_view()[i].1))),
            Reply::DepartmentRows { rows } => out@.len() > 0 && text_contains(
                out@,
                department_header(),
            ) && (forall|i: int|
                0 <= i < rows.deep_view().len() && plain_cell(#[trigger] rows.deep_view()[i])
                    ==> text_contains(out@, rows.deep_view()[i])),
            Reply::DepartmentEmployees { department: _, rows } => out@.len() > 0 && text_contains(
                out@,
                employee_header(),
            ) && (forall|i: int|
                0 <= i < rows.deep_view().len() && plain_cell(#[trigger] rows.deep_view()[i])
                    ==> text_contains(out@, rows.deep_view()[i])),
            Reply::HelpText { text } => out@ == text@,
            Reply::Farewell => out@ == "Good bye!"@,
            Reply::Rejected { error } => out@ == error_text(*error),
        }),
{
    match r {
        Reply::Created { name, department } => {
            let mut s = name.clone();
            s.append(" added to ");
            s.append(department.as_str());
            s.append("!");
            s
        },
        Reply::Deleted { name, department } => {
            let mut s = String::from_str("All employees named ");
            s.append(name.as_str());
            if department.as_str().unicode_len() == 0 {
                s.append(" has been removed!");
            } else {
                s.append(" has been removed from ");
                s.append(department.as_str());
                s.append("!");
            }
            s
        },
        Reply::EmployeeRows { rows } => {
            let mut headers: Vec<String> = Vec::new();
            headers.push(String::from_str("Employee"));
            headers.push(String::from_str("Department"));
            proof {
                assert(headers.deep_view() =~= seq![employee_header(), department_header()]);
            }
            let mut data: Vec<Vec<String>> = Vec::new();
            let n = rows.len();
            let mut i: usize = 0;
            while i < n
                invariant
                    i <= n,
                    n == rows@.len(),
                    data.deep_view().len() == i,
                    forall|k: int| 0 <= k < i ==> #[trigger] data.deep_view()[k] == seq![
                        rows.deep_view()[k].0,
                        rows.deep_view()[k].1,
                    ],
                decreases n - i,
            {
                let mut line: Vec<String> = Vec::new();
                line.push(rows[i].0.clone());
                line.push(rows[i].1.clone());
                let ghost dprev = data.deep_view();
                let ghost lv = line.deep_view();
                proof {
                    assert(lv =~= seq![
                        rows.deep_view()[i as int].0,
                        rows.deep_view()[i as int].1,
                    ]);
                }
                data.push(line);
                proof {
                    assert(data.deep_view() =~= dprev.push(lv));
                }
                i = i + 1;
            }
            let t = table_text(&headers, &data);
            proof {
                lemma_headers_plain();
                assert(text_contains(t@, headers.deep_view()[0]));
                assert(text_contains(t@, headers.deep_view()[1]));
                assert forall|k: int| 0 <= k < rows.deep_view().len() implies (plain_cell(
                    (#[trigger] rows.deep_view()[k]).0,
                ) ==> text_contains(t@, rows.deep_view()[k].0)) && (plain_cell(
                    rows.deep_view()[k].1,
                ) ==> text_contains(t@, rows.deep_view()[k].1)) by {
                    assert(data.deep_view()[k][0] == rows.deep_view()[k].0);
                    assert(data.deep_view()[k][1] == rows.deep_view()[k].1);
                }
            }
            t
        },
        Reply::DepartmentRows { rows } => {
            let mut headers: Vec<String> = Vec::new();
            headers.push(String::from_str("Department"));
            proof {
                assert(headers.deep_view() =~= seq![department_header()]);
                lemma_headers_plain();
            }
            let t = single_column(&headers, rows);
            proof {
                assert(plain_cell(headers.deep_view()[0]));
                assert(text_contains(t@, headers.deep_view()[0]));
            }
            t
        },
        Reply::DepartmentEmployees { department: _, rows } => {
            let mut headers: Vec<String> = Vec::new();
            headers.push(String::from_str("Employee"));
            proof {
                assert(headers.deep_view() =~= seq![employee_header()]);
                lemma_headers_plain();
            }
            let t = single_column(&headers, rows);
            proof {
                assert(plain_cell(headers.deep_view()[0]));
                assert(text_contains(t@, headers.deep_view()[0]));
            }
            t
        },
        Reply::HelpText { text } => text.clone(),
        Reply::Farewell => String::from_str("Good bye!"),
        Reply::Rejected { error } => match error {
            CommandError::Invalid => String::from_str("Invalid command. Try \"help\"."),
            CommandError::MissingName => String::from_str("Employee name is missing!"),
            CommandError::MissingDepartment => String::from_str("Department is missing!"),
            CommandError::BadOrder => String::from_str("Order must be asc or desc"),
        },
    }
}

/// One-column table text: non-empty, and it shows the header titles
/// and every single-line, width-bounded name.
fn single_column(headers: &Vec<String>, rows: &Vec<String>) -> (r: String)
    requires
        headers@.len() > 0,
    ensures
        r@.len() > 0,
        forall|i: int|
            0 <= i < headers.deep_view().len() && plain_cell(#[trigger] headers.deep_view()[i])
                ==> text_contains(r@, headers.deep_view()[i]),
        forall|i: int|
            0 <= i < rows.deep_view().len() && plain_cell(#[trigger] rows.deep_view()[i])
                ==> text_contains(r@, rows.deep_view()[i]),
{
    let mut data: Vec<Vec<String>> = Vec::new();
    let n = rows.len();
    let mut i: usize = 0;
    while i < n
        invariant
            i <= n,
            n == rows@.len(),
            data.deep_view().len() == i,
            forall|k: int| 0 <= k < i ==> #[trigger] data.deep_view()[k] == seq![
                rows.deep_view()[k],
            ],
        decreases n - i,
    {
        let mut line: Vec<String> = Vec::new();
        line.push(rows[i].clone());
        let ghost dprev = data.deep_view();
        let ghost lv = line.deep_view();
        proof {
            assert(lv =~= seq![rows.deep_view()[i as int]]);
        }
        data.push(line);
        proof {
            assert(data.deep_view() =~= dprev.push(lv));
        }
        i = i + 1;
    }
    let t = table_text(headers, &data);
    proof {
        assert forall|k: int|
            0 <= k < rows.deep_view().len() && plain_cell(
                #[trigger] rows.deep_view()[k],
            ) implies text_contains(t@, rows.deep_view()[k]) by {
            assert(data.deep_view()[k][0] == rows.deep_view()[k]);
        }
    }
    t
}

} // verus!
