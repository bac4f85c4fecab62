use employees_database::directory::EmployeesDatabase;

fn names(db: &EmployeesDatabase, dept: &str, order: &str) -> Vec<String> {
    db.list_employees_on_department(dept, order)
}

#[test]
fn creates_accumulate_sorted_with_duplicates() {
    let mut db = EmployeesDatabase::new();
    db.create("Sally", "Engineering");
    db.create("Amir", "Engineering");
    db.create("Sally", "Engineering");
    db.create("Zoe", "Engineering");
    let listed = names(&db, "Engineering", "asc");
    assert_eq!(listed, vec!["Amir", "Sally", "Sally", "Zoe"]);
}

#[test]
fn delete_with_empty_department_sweeps_all() {
    let mut db = EmployeesDatabase::new();
    db.create("Amir", "Sales");
    db.create("Amir", "Engineering");
    db.create("Bob", "Engineering");
    db.delete("Amir", "");
    assert_eq!(names(&db, "Sales", "asc"), Vec::<String>::new());
    assert_eq!(names(&db, "Engineering", "asc"), vec!["Bob"]);
}

#[test]
fn delete_with_department_only_touches_it() {
    let mut db = EmployeesDatabase::new();
    db.create("Amir", "Sales");
    db.create("Amir", "Engineering");
    db.delete("Amir", "Sales");
    assert_eq!(names(&db, "Sales", "asc"), Vec::<String>::new());
    assert_eq!(names(&db, "Engineering", "asc"), vec!["Amir"]);
}

#[test]
fn deleted_department_entry_remains_listed() {
    let mut db = EmployeesDatabase::new();
    db.create("Amir", "Sales");
    db.delete("Amir", "Sales");
    assert_eq!(db.list_all_department("asc"), vec!["Sales"]);
}

#[test]
fn desc_is_reverse_of_asc_without_ties() {
    let mut db = EmployeesDatabase::new();
    db.create("Carol", "Ops");
    db.create("Amir", "Sales");
    db.create("Bob", "Engineering");
    let asc = db.list_all_employees("asc");
    let desc = db.list_all_employees("desc");
    let mut reversed = asc.clone();
    reversed.reverse();
    assert_eq!(desc, reversed);
    let nasc = db.list_all_department("asc");
    let mut ndesc = db.list_all_department("desc");
    ndesc.reverse();
    assert_eq!(nasc, ndesc);
}

#[test]
fn unknown_department_lists_empty() {
    let db = EmployeesDatabase::new();
    assert_eq!(names(&db, "Nowhere", "asc"), Vec::<String>::new());
    let mut db2 = EmployeesDatabase::new();
    db2.create("Amir", "Sales");
    assert_eq!(names(&db2, "Marketing", "asc"), Vec::<String>::new());
}

#[test]
fn all_employees_rows_carry_departments() {
    let mut db = EmployeesDatabase::new();
    db.create("Sally", "Engineering");
    db.create("Amir", "Sales");
    db.create("Bob", "Engineering");
    let rows = db.list_all_employees("asc");
    assert_eq!(
        rows,
        vec![
            ("Amir".to_string(), "Sales".to_string()),
            ("Bob".to_string(), "Engineering".to_string()),
            ("Sally".to_string(), "Engineering".to_string()),
        ]
    );
}

#[test]
fn invalid_order_keeps_creation_order() {
    let mut db = EmployeesDatabase::new();
    db.create("Zoe", "Ops");
    db.create("Amir", "Ops");
    assert_eq!(names(&db, "Ops", "whatever"), vec!["Zoe", "Amir"]);
}

#[test]
fn scenario_engineering_and_sales() {
    let mut db = EmployeesDatabase::new();
    db.create("Sally", "Engineering");
    db.create("Amir", "Sales");
    db.create("Bob", "Engineering");
    assert_eq!(names(&db, "Engineering", "asc"), vec!["Bob", "Sally"]);
    assert_eq!(db.list_all_department("asc"), vec!["Engineering", "Sales"]);
    db.delete("Sally", "");
    assert_eq!(names(&db, "Engineering", "asc"), vec!["Bob"]);
}

#[test]
fn scenario_delete_in_wrong_department_is_noop() {
    let mut db = EmployeesDatabase::new();
    db.create("Amir", "Sales");
    db.delete("Amir", "Marketing");
    assert_eq!(names(&db, "Sales", "asc"), vec!["Amir"]);
}

#[test]
fn help_text_lists_every_command() {
    let db = EmployeesDatabase::new();
    let help = db.help();
    assert!(help.contains("create EMPLOYEE DEPARTMENT"));
    assert!(help.contains("delete EMPLOYEE"));
    assert!(help.contains("list all employees [asc|desc]"));
    assert!(help.contains("list all department [asc|desc]"));
    assert!(help.contains("list employees DEPARTMENT [asc|desc]"));
    assert!(help.contains("help"));
    assert!(help.contains("exit"));
}
