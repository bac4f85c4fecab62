//! The command grammar: tokenized lines parsed into commands, and one
//! command-loop step applied to the directory.

use vstd::prelude::*;
use vstd::relations::sorted_by;
use crate::directory::{EmployeesDatabase, all_rows, create_update, delete_update, dept_names,
    employees_of, help_text};
use crate::sorting::{name_ge, name_le, row_ge, row_le};
use crate::text::{eq_ignore_ascii_case, lemma_tokens_nonempty, str_eq, str_eq_fold, tokenize,
    tokens_of};

verus! {

/// A parsed command line.
pub enum Command {
    /// Record an employee under a department.
    Create { name: String, department: String },
    /// Remove an employee, from one department or (empty department)
    /// from all of them.
    Delete { name: String, department: String },
    /// List every employee with its department.
    ListAllEmployees { order: String },
    /// List the department names.
    ListAllDepartment { order: String },
    /// List the employees of one department.
    ListEmployeesOn { department: String, order: String },
    /// Show the usage text.
    Help,
    /// Leave the loop.
    Exit,
}

/// The ghost image of a command.
pub enum CommandV {
    Create { name: Seq<char>, department: Seq<char> },
    Delete { name: Seq<char>, department: Seq<char> },
    ListAllEmployees { order: Seq<char> },
    ListAllDepartment { order: Seq<char> },
    ListEmployeesOn { department: Seq<char>, order: Seq<char> },
    Help,
    Exit,
}

impl View for Command {
    type V = CommandV;

    open spec fn view(&self) -> CommandV {
        match self {
            Command::Create { name, department } => CommandV::Create {
                name: name@,
                department: department@,
            },
            Command::Delete { name, department } => CommandV::Delete {
                name: name@,
                department: department@,
            },
            Command::ListAllEmployees { order } => CommandV::ListAllEmployees { order: order@ },
            Command::ListAllDepartment { order } => CommandV::ListAllDepartment { order: order@ },
            Command::ListEmployeesOn { department, order } => CommandV::ListEmployeesOn {
                department: department@,
                order: order@,
            },
            Command::Help => CommandV::Help,
            Command::Exit => CommandV::Exit,
        }
    }
}

/// Why a command line is rejected.
#[derive(PartialEq, Eq, Structural, Clone, Copy, Debug)]
pub enum CommandError {
    /// Unknown verb, unknown listing kind, or too many arguments.
    Invalid,
    /// `create` or `delete` without an employee name.
    MissingName,
    /// `create` without a department, or `list employees` without one.
    MissingDepartment,
    /// A listing order other than "asc" or "desc".
    BadOrder,
}

/// What a token list parses to: the primary verb is matched ASCII
/// case-insensitively, everything after it literally.
pub open spec fn parse_spec(toks: Seq<Seq<char>>) -> Result<CommandV, CommandError> {
    if toks.len() == 0 {
        Err(CommandError::Invalid)
    } else if eq_ignore_ascii_case(toks[0], "create"@) {
        if toks.len() > 3 {
            Err(CommandError::Invalid)
        } else if toks.len() < 2 {
            Err(CommandError::MissingName)
        } else if toks.len() < 3 {
            Err(CommandError::MissingDepartment)
        } else {
            Ok(CommandV::Create { name: toks[1], department: toks[2] })
        }
    } else if eq_ignore_ascii_case(toks[0], "delete"@) {
        if toks.len() > 3 {
            Err(CommandError::Invalid)
        } else if toks.len() < 2 {
            Err(CommandError::MissingName)
        } else {
            Ok(
                CommandV::Delete {
                    name: toks[1],
                    department: if toks.len() == 3 {
                        toks[2]
                    } else {
                        Seq::empty()
                    },
                },
            )
        }
    } else if eq_ignore_ascii_case(toks[0], "list"@) {
        if toks.len() > 4 {
            Err(CommandError::Invalid)
        } else {
            let order = if toks.len() >= 4 {
                toks[3]
            } else {
                "asc"@
            };
            if order != "asc"@ && order != "desc"@ {
                Err(CommandError::BadOrder)
            } else {
                let kind = if toks.len() >= 2 {
                    toks[1]
                } else {
                    Seq::<char>::empty()
                };
                let sub = if toks.len() >= 3 {
                    toks[2]
                } else {
                    Seq::<char>::empty()
                };
                if kind == "all"@ {
                    if sub == "employees"@ {
                        Ok(CommandV::ListAllEmployees { order })
                    } else if sub == "department"@ {
                        Ok(CommandV::ListAllDepartment { order })
                    } else {
                        Err(CommandError::Invalid)
                    }
                } else if kind == "employees"@ {
                    if sub.len() == 0 {
                        Err(CommandError::MissingDepartment)
                    } else {
                        Ok(CommandV::ListEmployeesOn { department: sub, order })
                    }
                } else {
                    Err(CommandError::Invalid)
                }
            }
        }
    } else if eq_ignore_ascii_case(toks[0], "help"@) {
        Ok(CommandV::Help)
    } else if eq_ignore_ascii_case(toks[0], "exit"@) {
        Ok(CommandV::Exit)
    } else {
        Err(CommandError::Invalid)
    }
}

/// Parses a token list, exactly as `parse_spec` describes.
pub fn parse(tokens: &Vec<String>) -> (r: Result<Command, CommandError>)
    ensures
        (match r {
            Ok(c) => parse_spec(tokens.deep_view()) == Ok::<CommandV, CommandError>(c@),
            Err(e) => parse_spec(tokens.deep_view()) == Err::<CommandV, CommandError>(e),
        }),
{
    proof {
        broadcast use vstd::string::group_string_axioms;

        reveal_strlit("asc");
        reveal_strlit("desc");
        reveal_strlit("all");
        reveal_strlit("employees");
        reveal_strlit("department");
        assert("asc"@.len() == 3);
        assert("desc"@.len() == 4);
        assert("all"@.len() == 3);
        assert("employees"@.len() == 9);
        assert("department"@.len() == 10);
    }
    proof {
        assert(tokens.deep_view().len() == tokens@.len());
        assert forall|k: int| 0 <= k < tokens@.len() implies tokens.deep_view()[k] == tokens@[k]@
            by {}
    }
    let n = tokens.len();
    if n == 0 {
        return Err(CommandError::Invalid);
    }
    let cmd = &tokens[0];
    if str_eq_fold(cmd.as_str(), "create") {
        if n > 3 {
            Err(CommandError::Invalid)
        } else if n < 2 {
            Err(CommandError::MissingName)
        } else if n < 3 {
            Err(CommandError::MissingDepartment)
        } else {
            Ok(Command::Create { name: tokens[1].clone(), department: tokens[2].clone() })
        }
    } else if str_eq_fold(cmd.as_str(), "delete") {
        if n > 3 {
            Err(CommandError::Invalid)
        } else if n < 2 {
            Err(CommandError::MissingName)
        } else {
            let department = if n == 3 {
                tokens[2].clone()
            } else {
                String::new()
            };
            Ok(Command::Delete { name: tokens[1].clone(), department })
        }
    } else if str_eq_fold(cmd.as_str(), "list") {
        if n > 4 {
            Err(CommandError::Invalid)
        } else {
            let order = if n >= 4 {
                tokens[3].clone()
            } else {
                String::from_str("asc")
            };
            let ord_ok = str_eq(order.as_str(), "asc") || str_eq(order.as_str(), "desc");
            if !ord_ok {
                Err(CommandError::BadOrder)
            } else if n >= 2 && str_eq(tokens[1].as_str(), "all") {
                if n >= 3 && str_eq(tokens[2].as_str(), "employees") {
                    Ok(Command::ListAllEmployees { order })
                } else if n >= 3 && str_eq(tokens[2].as_str(), "department") {
                    Ok(Command::ListAllDepartment { order })
                } else {
                    Err(CommandError::Invalid)
                }
            } else if n >= 2 && str_eq(tokens[1].as_str(), "employees") {
                if n < 3 || tokens[2].as_str().unicode_len() == 0 {
                    Err(CommandError::MissingDepartment)
                } else {
                    Ok(Command::ListEmployeesOn { department: tokens[2].clone(), order })
                }
            } else {
                Err(CommandError::Invalid)
            }
        }
    } else if str_eq_fold(cmd.as_str(), "help") {
        Ok(Command::Help)
    } else if str_eq_fold(cmd.as_str(), "exit") {
        Ok(Command::Exit)
    } else {
        Err(CommandError::Invalid)
    }
}

/// What one command-loop step replies with; the loop prints the
/// rendering and stops on `Farewell`.
pub enum Reply {
    /// The employee was recorded.
    Created { name: String, department: String },
    /// Matching employees were removed; an empty department means all
    /// departments were swept.
    Deleted { name: String, department: String },
    /// Rows for `list all employees`.
    EmployeeRows { rows: Vec<(String, String)> },
    /// Rows for `list all department`.
    DepartmentRows { rows: Vec<String> },
    /// Rows for `list employees DEPARTMENT`.
    DepartmentEmployees { department: String, rows: Vec<String> },
    /// The usage text.
    HelpText { text: String },
    /// The goodbye of `exit`.
    Farewell,
    /// The line was rejected; the directory is untouched.
    Rejected { error: CommandError },
}

/// One iteration of the command loop, I/O left to the caller: splits
/// the line, parses it, applies it to the directory, and says what to
/// report.
pub fn respond(db: &mut EmployeesDatabase, line: &str) -> (r: Reply)
    requires
        old(db).wf(),
    ensures
        final(db).wf(),
        ({
            let p = parse_spec(tokens_of(line@));
            match p {
                Ok(CommandV::Create { name, department }) => final(db)@ == create_update(
                    old(db)@,
                    name,
                    department,
                ) && (r matches Reply::Created { name: rn, department: rd } && rn@ == name && rd@
                    == department),
                Ok(CommandV::Delete { name, department }) => final(db)@ == delete_update(
                    old(db)@,
                    name,
                    department,
                ) && (r matches Reply::Deleted { name: rn, department: rd } && rn@ == name && rd@
                    == department),
                Ok(CommandV::ListAllEmployees { order }) => final(db)@ == old(db)@ && (
                r matches Reply::EmployeeRows { rows } && (order == "asc"@ ==> sorted_by(
                    rows.deep_view(),
                    row_le(),
                ) && rows.deep_view().to_multiset() == all_rows(old(db)@).to_multiset()) && (order
                    == "desc"@ ==> sorted_by(rows.deep_view(), row_ge())
                    && rows.deep_view().to_multiset() == all_rows(old(db)@).to_multiset())),
                Ok(CommandV::ListAllDepartment { order }) => final(db)@ == old(db)@ && (
                r matches Reply::DepartmentRows { rows } && (order == "asc"@ ==> sorted_by(
                    rows.deep_view(),
                    name_le(),
                ) && rows.deep_view().to_multiset() == dept_names(old(db)@).to_multiset()) && (
                order == "desc"@ ==> sorted_by(rows.deep_view(), name_ge())
                    && rows.deep_view().to_multiset() == dept_names(old(db)@).to_multiset())),
                Ok(CommandV::ListEmployeesOn { department, order }) => final(db)@ == old(db)@ && (
                r matches Reply::DepartmentEmployees { department: rd, rows } && rd@ == department
                    && (order == "asc"@ ==> sorted_by(rows.deep_view(), name_le())
                    && rows.deep_view().to_multiset() == employees_of(
                    old(db)@,
                    department,
                ).to_multiset()) && (order == "desc"@ ==> sorted_by(rows.deep_view(), name_ge())
                    && rows.deep_view().to_multiset() == employees_of(
                    old(db)@,
                    department,
                ).to_multiset())),
                Ok(CommandV::Help) => final(db)@ == old(db)@ && (r matches Reply::HelpText { text } && text@
                    == help_text()),
                Ok(CommandV::Exit) => final(db)@ == old(db)@ && (r matches Reply::Farewell),
                Err(e) => final(db)@ == old(db)@ && (r matches Reply::Rejected { error } && error == e),
            }
        }),
{
    let toks = tokenize(line);
    let parsed = parse(&toks);
    match parsed {
        Err(e) => Reply::Rejected { error: e },
        Ok(c) => match c {
            Command::Create { name, department } => {
                proof {
                    let ts = tokens_of(line@);
                    lemma_tokens_nonempty(line@);
                    assert(name@ == ts[1] && department@ == ts[2]);
                    assert(name@.len() > 0 && department@.len() > 0);
                }
                db.create(name.as_str(), department.as_str());
                Reply::Created { name, department }
            },
            Command::Delete { name, department } => {
                db.delete(name.as_str(), department.as_str());
                Reply::Deleted { name, department }
            },
            Command::ListAllEmployees { order } => Reply::EmployeeRows {
                rows: db.list_all_employees(order.as_str()),
            },
            Command::ListAllDepartment { order } => Reply::DepartmentRows {
                rows: db.list_all_department(order.as_str()),
            },
            Command::ListEmployeesOn { department, order } => Reply::DepartmentEmployees {
                rows: db.list_employees_on_department(department.as_str(), order.as_str()),
                department,
            },
            Command::Help => Reply::HelpText { text: db.help() },
            Command::Exit => Reply::Farewell,
        },
    }
}

} // verus!
