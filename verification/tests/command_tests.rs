use employees_database::command::{parse, respond, Command, CommandError, Reply};
use employees_database::directory::EmployeesDatabase;
use employees_database::render::render_reply;
use employees_database::text::tokenize;

fn toks(line: &str) -> Vec<String> {
    tokenize(line)
}

#[test]
fn tokenize_splits_and_trims() {
    assert_eq!(toks("  create   Amir  Sales "), vec!["create", "Amir", "Sales"]);
    assert_eq!(toks(""), Vec::<String>::new());
    assert_eq!(toks("   \t  "), Vec::<String>::new());
    assert_eq!(toks("exit"), vec!["exit"]);
}

#[test]
fn parse_create_and_case_insensitive_verb() {
    match parse(&toks("CREATE Amir Sales")) {
        Ok(Command::Create { name, department }) => {
            assert_eq!(name, "Amir");
            assert_eq!(department, "Sales");
        }
        other => panic!("unexpected parse: {:?}", other.is_ok()),
    }
}

#[test]
fn parse_create_errors() {
    assert!(matches!(parse(&toks("create")), Err(CommandError::MissingName)));
    assert!(matches!(parse(&toks("create Amir")), Err(CommandError::MissingDepartment)));
    assert!(matches!(parse(&toks("create Amir Sales extra")), Err(CommandError::Invalid)));
}

#[test]
fn parse_delete_forms() {
    match parse(&toks("delete Amir")) {
        Ok(Command::Delete { name, department }) => {
            assert_eq!(name, "Amir");
            assert_eq!(department, "");
        }
        _ => panic!("expected delete"),
    }
    match parse(&toks("delete Amir Sales")) {
        Ok(Command::Delete { name, department }) => {
            assert_eq!(name, "Amir");
            assert_eq!(department, "Sales");
        }
        _ => panic!("expected delete"),
    }
    assert!(matches!(parse(&toks("delete")), Err(CommandError::MissingName)));
    assert!(matches!(parse(&toks("delete a b c")), Err(CommandError::Invalid)));
}

#[test]
fn parse_list_forms() {
    assert!(matches!(
        parse(&toks("list all employees")),
        Ok(Command::ListAllEmployees { order }) if order == "asc"
    ));
    assert!(matches!(
        parse(&toks("list all employees desc")),
        Ok(Command::ListAllEmployees { order }) if order == "desc"
    ));
    assert!(matches!(
        parse(&toks("list all department")),
        Ok(Command::ListAllDepartment { order }) if order == "asc"
    ));
    assert!(matches!(
        parse(&toks("list employees Sales desc")),
        Ok(Command::ListEmployeesOn { department, order }) if department == "Sales" && order == "desc"
    ));
    assert!(matches!(parse(&toks("list all employees xyz")), Err(CommandError::BadOrder)));
    // Only the verb is case-insensitive; order tokens are literal.
    assert!(matches!(parse(&toks("list all employees ASC")), Err(CommandError::BadOrder)));
    assert!(matches!(parse(&toks("list employees")), Err(CommandError::MissingDepartment)));
    assert!(matches!(parse(&toks("list all nothing")), Err(CommandError::Invalid)));
    assert!(matches!(parse(&toks("list")), Err(CommandError::Invalid)));
    assert!(matches!(parse(&toks("list all employees asc extra")), Err(CommandError::Invalid)));
}

#[test]
fn parse_other_verbs() {
    assert!(matches!(parse(&toks("help")), Ok(Command::Help)));
    assert!(matches!(parse(&toks("HELP anything")), Ok(Command::Help)));
    assert!(matches!(parse(&toks("exit")), Ok(Command::Exit)));
    assert!(matches!(parse(&toks("Exit")), Ok(Command::Exit)));
    assert!(matches!(parse(&toks("")), Err(CommandError::Invalid)));
    assert!(matches!(parse(&toks("frobnicate")), Err(CommandError::Invalid)));
    // `list` subtokens are matched case-sensitively.
    assert!(matches!(parse(&toks("list ALL employees")), Err(CommandError::Invalid)));
}

#[test]
fn respond_runs_the_scenario() {
    let mut db = EmployeesDatabase::new();
    assert!(matches!(respond(&mut db, "create Sally Engineering"), Reply::Created { .. }));
    assert!(matches!(respond(&mut db, "create Amir Sales"), Reply::Created { .. }));
    assert!(matches!(respond(&mut db, "create Bob Engineering"), Reply::Created { .. }));
    match respond(&mut db, "list employees Engineering asc") {
        Reply::DepartmentEmployees { department, rows } => {
            assert_eq!(department, "Engineering");
            assert_eq!(rows, vec!["Bob", "Sally"]);
        }
        _ => panic!("expected department employees"),
    }
    match respond(&mut db, "list all department asc") {
        Reply::DepartmentRows { rows } => assert_eq!(rows, vec!["Engineering", "Sales"]),
        _ => panic!("expected department rows"),
    }
    assert!(matches!(respond(&mut db, "delete Sally"), Reply::Deleted { .. }));
    match respond(&mut db, "list employees Engineering asc") {
        Reply::DepartmentEmployees { rows, .. } => assert_eq!(rows, vec!["Bob"]),
        _ => panic!("expected department employees"),
    }
}

#[test]
fn respond_bad_order_prints_error_and_changes_nothing() {
    let mut db = EmployeesDatabase::new();
    respond(&mut db, "create Amir Sales");
    let reply = respond(&mut db, "list all employees xyz");
    assert!(matches!(reply, Reply::Rejected { error: CommandError::BadOrder }));
    assert_eq!(render_reply(&reply), "Order must be asc or desc");
    match respond(&mut db, "list all employees asc") {
        Reply::EmployeeRows { rows } => {
            assert_eq!(rows, vec![("Amir".to_string(), "Sales".to_string())]);
        }
        _ => panic!("expected employee rows"),
    }
}

#[test]
fn respond_missing_department_changes_nothing() {
    let mut db = EmployeesDatabase::new();
    let reply = respond(&mut db, "create Amir");
    assert!(matches!(reply, Reply::Rejected { error: CommandError::MissingDepartment }));
    assert_eq!(render_reply(&reply), "Department is missing!");
    match respond(&mut db, "list all department asc") {
        Reply::DepartmentRows { rows } => assert_eq!(rows, Vec::<String>::new()),
        _ => panic!("expected department rows"),
    }
}

#[test]
fn respond_exit_and_help() {
    let mut db = EmployeesDatabase::new();
    assert!(matches!(respond(&mut db, "exit"), Reply::Farewell));
    match respond(&mut db, "help") {
        Reply::HelpText { text } => assert!(text.contains("Usage:")),
        _ => panic!("expected help text"),
    }
}

#[test]
fn render_messages_are_exact() {
    let created = Reply::Created { name: "Amir".to_string(), department: "Sales".to_string() };
    assert_eq!(render_reply(&created), "Amir added to Sales!");
    let deleted_all = Reply::Deleted { name: "Amir".to_string(), department: "".to_string() };
    assert_eq!(render_reply(&deleted_all), "All employees named Amir has been removed!");
    let deleted_one = Reply::Deleted { name: "Amir".to_string(), department: "Sales".to_string() };
    assert_eq!(
        render_reply(&deleted_one),
        "All employees named Amir has been removed from Sales!"
    );
    assert_eq!(render_reply(&Reply::Farewell), "Good bye!");
    let invalid = Reply::Rejected { error: CommandError::Invalid };
    assert_eq!(render_reply(&invalid), "Invalid command. Try \"help\".");
    let missing = Reply::Rejected { error: CommandError::MissingName };
    assert_eq!(render_reply(&missing), "Employee name is missing!");
}

#[test]
fn render_tables_hold_the_rows() {
    let mut db = EmployeesDatabase::new();
    respond(&mut db, "create Sally Engineering");
    respond(&mut db, "create Amir Sales");
    let table = render_reply(&respond(&mut db, "list all employees asc"));
    assert!(table.contains("Employee"));
    assert!(table.contains("Department"));
    assert!(table.contains("Amir"));
    assert!(table.contains("Sally"));
    assert!(table.contains("Engineering"));
    let one_col = render_reply(&respond(&mut db, "list employees Sales asc"));
    assert!(one_col.contains("Amir"));
    assert!(!one_col.contains("Sally"));
}
