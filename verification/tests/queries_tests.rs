use sharding::queries::{
    query_is, query_is_insert, query_is_select, query_affects_memory_state,
    get_table_name_behind_keyword, get_table_name_from_query, get_id_index, get_trimmed_id,
    get_id_if_exists, format_query_with_new_id,
};

#[test]
fn test_query_is_insert() {
    assert!(query_is_insert("INSERT INTO employees (id, name) VALUES (1, 'Alice')"));
    assert!(!query_is_insert("SELECT * FROM employees"));
}

#[test]
fn test_query_affects_memory_state() {
    assert!(query_affects_memory_state("INSERT INTO employees (id, name) VALUES (1, 'Alice')"));
    assert!(query_affects_memory_state("DELETE FROM employees WHERE id = 1"));
    assert!(query_affects_memory_state("DROP TABLE employees"));
    assert!(query_affects_memory_state("UPDATE employees SET name = 'Alice' WHERE id = 1"));
    assert!(query_affects_memory_state("CREATE TABLE employees (id INT, name TEXT)"));
    assert!(!query_affects_memory_state("SELECT * FROM employees"));
}

#[test]
fn test_query_is() {
    assert!(query_is("INSERT INTO employees (id, name) VALUES (1, 'Alice')", "INSERT"));
    assert!(!query_is("SELECT * FROM employees", "INSERT"));
}

#[test]
fn test_query_is_select() {
    assert!(query_is_select("select id from employees"));
    assert!(!query_is_select("DELETE FROM employees"));
}

#[test]
fn test_get_table_name_behind_keyword() {
    assert_eq!(
        get_table_name_behind_keyword("SELECT * FROM employees", "FROM".to_string()),
        Some("employees".to_string())
    );
    assert_eq!(
        get_table_name_behind_keyword("UPDATE employees SET name = 'Alice'", "UPDATE".to_string()),
        Some("employees".to_string())
    );
    assert_eq!(
        get_table_name_behind_keyword(
            "INSERT INTO employees (name) VALUES ('Alice')",
            "INTO".to_string()
        ),
        Some("employees".to_string())
    );
    assert_eq!(
        get_table_name_behind_keyword(
            "CREATE TABLE employees (id INT, name TEXT)",
            "TABLE".to_string()
        ),
        Some("employees".to_string())
    );
}

#[test]
fn test_get_table_name_from_query() {
    assert_eq!(get_table_name_from_query("SELECT * FROM employees"), Some("employees".to_string()));
    assert_eq!(
        get_table_name_from_query(
            "INSERT INTO employees (name, position, salary) VALUES ('Alice Johnson', 'Software Engineer', 85000);"
        ),
        Some("employees".to_string())
    );
}

#[test]
fn test_get_id_index() {
    // Both spaces left and right
    assert_eq!(get_id_index("SELECT * FROM employees WHERE id = 1;"), Some(35));
    assert_eq!(get_id_index("SELECT * FROM table_name WHERE id = 3;"), Some(36));
    // No space right
    assert_eq!(get_id_index("SELECT * FROM employees WHERE id =1;"), Some(34));
    assert_eq!(get_id_index("SELECT * FROM table_name WHERE id =3;"), Some(35));
    // No space left
    assert_eq!(get_id_index("SELECT * FROM employees WHERE id= 1;"), Some(34));
    assert_eq!(get_id_index("SELECT * FROM table_name WHERE id= 3;"), Some(35));
    // No spaces
    assert_eq!(get_id_index("SELECT * FROM employees WHERE id=1;"), Some(33));
    assert_eq!(get_id_index("SELECT * FROM table_name WHERE id=3;"), Some(34));
}

#[test]
fn test_get_trimmed_id() {
    // Both spaces left and right
    assert_eq!(get_trimmed_id("SELECT * FROM employees WHERE id = 1;", 35), "1");
    assert_eq!(get_trimmed_id("SELECT * FROM table_name WHERE id = 3;", 36), "3");
    // No space right
    assert_eq!(get_trimmed_id("SELECT * FROM employees WHERE id =1;", 34), "1");
    assert_eq!(get_trimmed_id("SELECT * FROM table_name WHERE id =3;", 35), "3");
    // No space left
    assert_eq!(get_trimmed_id("SELECT * FROM employees WHERE id= 1;", 34), "1");
    assert_eq!(get_trimmed_id("SELECT * FROM table_name WHERE id= 3;", 35), "3");
    // No spaces
    assert_eq!(get_trimmed_id("SELECT * FROM employees WHERE id=1;", 33), "1");
    assert_eq!(get_trimmed_id("SELECT * FROM table_name WHERE id=3;", 34), "3");
}

#[test]
fn test_get_id_if_exists() {
    // Both spaces left and right
    assert_eq!(get_id_if_exists("SELECT * FROM employees WHERE id = 1;"), Some(1));
    assert_eq!(get_id_if_exists("SELECT * FROM employees WHERE id = 3;"), Some(3));
    // No space right
    assert_eq!(get_id_if_exists("SELECT * FROM employees WHERE id =1;"), Some(1));
    assert_eq!(get_id_if_exists("SELECT * FROM employees WHERE id =3;"), Some(3));
    // No space left
    assert_eq!(get_id_if_exists("SELECT * FROM employees WHERE id= 1;"), Some(1));
    assert_eq!(get_id_if_exists("SELECT * FROM employees WHERE id= 3;"), Some(3));
    // No spaces
    assert_eq!(get_id_if_exists("SELECT * FROM employees WHERE id=1;"), Some(1));
    assert_eq!(get_id_if_exists("SELECT * FROM employees WHERE id=3;"), Some(3));
}

#[test]
fn test_get_id_if_exists_rejects_non_numeric() {
    assert_eq!(get_id_if_exists("SELECT * FROM employees WHERE id = abc;"), None);
    assert_eq!(get_id_if_exists("SELECT * FROM employees"), None);
}

#[test]
fn test_format_query_with_new_id() {
    // Both spaces left and right
    assert_eq!(
        format_query_with_new_id("SELECT * FROM employees WHERE id = 1;", 3),
        "SELECT * FROM employees WHERE id = 3;"
    );
    assert_eq!(
        format_query_with_new_id("SELECT * FROM employees WHERE id = 3;", 1),
        "SELECT * FROM employees WHERE id = 1;"
    );
    // No space right
    assert_eq!(
        format_query_with_new_id("SELECT * FROM employees WHERE id =1;", 3),
        "SELECT * FROM employees WHERE id =3;"
    );
    assert_eq!(
        format_query_with_new_id("SELECT * FROM employees WHERE id =3;", 1),
        "SELECT * FROM employees WHERE id =1;"
    );
    // No space left
    assert_eq!(
        format_query_with_new_id("SELECT * FROM employees WHERE id= 1;", 3),
        "SELECT * FROM employees WHERE id= 3;"
    );
    assert_eq!(
        format_query_with_new_id("SELECT * FROM employees WHERE id= 3;", 1),
        "SELECT * FROM employees WHERE id= 1;"
    );
    // No spaces
    assert_eq!(
        format_query_with_new_id("SELECT * FROM employees WHERE id=1;", 3),
        "SELECT * FROM employees WHERE id=3;"
    );
    assert_eq!(
        format_query_with_new_id("SELECT * FROM employees WHERE id=3;", 1),
        "SELECT * FROM employees WHERE id=1;"
    );
}
