use recall::store::{
    init_db, search_request, search_sessions, sessions_by_id, InitStep, ADD_TAGS, COMMAND_OF_SESSION, CREATE_EMBEDDINGS,
    CREATE_SESSIONS, INSERT_SESSION, SESSION_COLUMNS, STORE_EMBEDDING,
};
use rusqlite::Connection;

fn strings(list: &[&str]) -> Vec<String> {
    list.iter().map(|s| s.to_string()).collect()
}

fn columns(conn: &Connection) -> Vec<String> {
    let mut stmt = conn.prepare(SESSION_COLUMNS).unwrap();
    let rows = stmt.query_map([], |row| row.get(1)).unwrap();
    rows.map(|r| r.unwrap()).collect()
}

fn prepare(conn: &Connection) {
    conn.execute_batch(CREATE_SESSIONS).unwrap();
    for step in init_db(&columns(conn)) {
        match step {
            InitStep::Run(sql) => conn.execute_batch(sql).unwrap(),
            InitStep::Try(sql) => {
                let _ = conn.execute(sql, []);
            }
        }
    }
}

fn insert(conn: &Connection, timestamp: i64, command: &str, exit_code: i64, stdout: &str) {
    conn.execute(
        INSERT_SESSION,
        (timestamp, command, "/", "", "", exit_code, 1, stdout, "", "box", "bash"),
    )
    .unwrap();
}

fn found(conn: &Connection, query: &str, failed_only: bool, since: Option<i64>, limit: usize) -> Vec<String> {
    let request = search_sessions(query, failed_only, since, limit);
    let mut stmt = conn.prepare(&request.sql).unwrap();
    let get = |row: &rusqlite::Row| row.get::<_, String>(2);
    match request.since {
        Some(t) => stmt.query_map((request.pattern, t), get).unwrap().map(|r| r.unwrap()).collect(),
        None => stmt.query_map([request.pattern], get).unwrap().map(|r| r.unwrap()).collect(),
    }
}

#[test]
fn the_column_is_added_where_it_is_missing() {
    let steps = init_db(&strings(&["id", "command"]));
    assert_eq!(steps.len(), 2);
    assert!(matches!(steps[0], InitStep::Try(ADD_TAGS)));
    assert!(matches!(steps[1], InitStep::Run(CREATE_EMBEDDINGS)));
    let steps = init_db(&strings(&["id", "tags"]));
    assert_eq!(steps.len(), 1);
    assert!(matches!(steps[0], InitStep::Run(CREATE_EMBEDDINGS)));
}

#[test]
fn an_old_database_is_brought_up_to_date_once() {
    let conn = Connection::open_in_memory().unwrap();
    conn.execute_batch("CREATE TABLE sessions (id INTEGER PRIMARY KEY, command TEXT)").unwrap();
    assert!(!columns(&conn).contains(&"tags".to_string()));
    prepare(&conn);
    assert!(columns(&conn).contains(&"tags".to_string()));
    assert_eq!(init_db(&columns(&conn)).len(), 1);
    prepare(&conn);
}

#[test]
fn the_statement_of_a_search() {
    let request = search_sessions("git", true, Some(5), 7);
    assert_eq!(request.pattern, "%git%");
    assert_eq!(request.since, Some(5));
    assert_eq!(
        request.sql,
        format!(
            "SELECT id, timestamp, command, cwd, exit_code,
                COALESCE(git_branch,''), COALESCE(stdout,''), COALESCE(duration_ms,0)
         FROM sessions
         WHERE (command LIKE ?1 OR COALESCE(stdout,'') LIKE ?1)
         {}
         {}
         ORDER BY timestamp DESC
         LIMIT {}",
            "AND exit_code != 0", "AND timestamp >= ?2", 7
        )
    );
    let request = search_sessions("%", false, None, 50);
    assert_eq!(request.pattern, "%%%");
    assert!(!request.sql.contains("?2"));
    assert!(!request.sql.contains("exit_code !="));
    assert!(request.sql.ends_with("LIMIT 50"));
}

#[test]
fn only_a_search_for_today_looks_at_the_time() {
    let mut search = recall::cli::SearchArgs {
        failed_only: true,
        today_only: true,
        semantic: false,
        query: "git".to_string(),
    };
    let request = search_request(&search, 9, 77);
    assert_eq!(request.since, Some(77));
    assert_eq!(request.pattern, "%git%");
    assert_eq!(request.sql, search_sessions("git", true, Some(77), 9).sql);
    search.today_only = false;
    search.failed_only = false;
    let request = search_request(&search, 9, 77);
    assert_eq!(request.since, None);
    assert_eq!(request.sql, search_sessions("git", false, None, 9).sql);
}

#[test]
fn searches_find_what_they_ask_for() {
    let conn = Connection::open_in_memory().unwrap();
    prepare(&conn);
    insert(&conn, 10, "git push", 0, "");
    insert(&conn, 30, "make", 2, "git missing");
    insert(&conn, 20, "git pull", 1, "");
    insert(&conn, 40, "ls", 0, "");
    assert_eq!(found(&conn, "git", false, None, 50), strings(&["make", "git pull", "git push"]));
    assert_eq!(found(&conn, "git", true, None, 50), strings(&["make", "git pull"]));
    assert_eq!(found(&conn, "git", false, Some(20), 50), strings(&["make", "git pull"]));
    assert_eq!(found(&conn, "git", true, Some(25), 50), strings(&["make"]));
    assert_eq!(found(&conn, "%", false, None, 2), strings(&["ls", "make"]));
    assert_eq!(found(&conn, "nothing", false, None, 50), strings(&[]));
}

#[test]
fn sessions_are_found_by_identifier() {
    assert!(sessions_by_id(&vec![]).is_none());
    let sql = sessions_by_id(&vec![3, 1, 9]).unwrap();
    assert_eq!(
        sql,
        "SELECT id, timestamp, command, cwd, exit_code,
                        COALESCE(git_branch,''), COALESCE(stdout,''), COALESCE(duration_ms,0)
                 FROM sessions WHERE id IN (?1,?2,?3)
                 ORDER BY timestamp DESC"
    );
    let conn = Connection::open_in_memory().unwrap();
    prepare(&conn);
    insert(&conn, 10, "a", 0, "");
    insert(&conn, 20, "b", 0, "");
    insert(&conn, 30, "c", 0, "");
    let mut stmt = conn.prepare(&sessions_by_id(&vec![1, 3]).unwrap()).unwrap();
    let commands: Vec<String> =
        stmt.query_map([1, 3], |row| row.get(2)).unwrap().map(|r| r.unwrap()).collect();
    assert_eq!(commands, strings(&["c", "a"]));
    let command: String = conn.query_row(COMMAND_OF_SESSION, [2], |row| row.get(0)).unwrap();
    assert_eq!(command, "b");
}

#[test]
fn an_embedding_takes_the_place_of_an_earlier_one() {
    let conn = Connection::open_in_memory().unwrap();
    prepare(&conn);
    conn.execute(STORE_EMBEDDING, (1, vec![1_u8, 2, 3, 4])).unwrap();
    conn.execute(STORE_EMBEDDING, (1, vec![5_u8, 6, 7, 8])).unwrap();
    let mut stmt = conn.prepare(recall::store::ALL_EMBEDDINGS).unwrap();
    let all: Vec<(i64, Vec<u8>)> =
        stmt.query_map([], |row| Ok((row.get(0)?, row.get(1)?))).unwrap().map(|r| r.unwrap()).collect();
    assert_eq!(all, vec![(1, vec![5, 6, 7, 8])]);
}
