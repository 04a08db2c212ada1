//! What is asked of the history database.
use vstd::prelude::*;

use crate::cli::SearchArgs;
use crate::number::{decimal, lemma_decimal_is_injective, usize_text};
use crate::text::{contains_text, join, joined, lemma_joined_push, views};

verus! {

/// Creates the table of sessions.
pub const CREATE_SESSIONS: &'static str = "
        CREATE TABLE IF NOT EXISTS sessions (
            id           INTEGER PRIMARY KEY AUTOINCREMENT,
            timestamp    INTEGER NOT NULL,
            command      TEXT NOT NULL,
            cwd          TEXT,
            git_repo     TEXT,
            git_branch   TEXT,
            exit_code    INTEGER,
            duration_ms  INTEGER,
            stdout       TEXT,
            stderr       TEXT,
            hostname     TEXT,
            shell        TEXT,
            tags         TEXT
        );
    ";

/// Lists the columns of the table of sessions.
pub const SESSION_COLUMNS: &'static str = "PRAGMA table_info(sessions)";

/// Adds the column that an older table of sessions lacks.
pub const ADD_TAGS: &'static str = "ALTER TABLE sessions ADD COLUMN tags TEXT";

/// Creates the table of embeddings.
pub const CREATE_EMBEDDINGS: &'static str = "
        CREATE TABLE IF NOT EXISTS embeddings (
            session_id  INTEGER PRIMARY KEY,
            vector      BLOB NOT NULL
        );
    ";

/// Stores one session.
pub const INSERT_SESSION: &'static str = "INSERT INTO sessions
            (timestamp, command, cwd, git_repo, git_branch, exit_code,
             duration_ms, stdout, stderr, hostname, shell)
         VALUES (?1, ?2, ?3, ?4, ?5, ?6, ?7, ?8, ?9, ?10, ?11)";

/// Stores one embedding, in place of an earlier one of the same session.
pub const STORE_EMBEDDING: &'static str =
    "INSERT OR REPLACE INTO embeddings (session_id, vector) VALUES (?1, ?2)";

/// Finds the sessions that have no embedding yet.
pub const SESSIONS_WITHOUT_EMBEDDING: &'static str = "SELECT id, command, cwd FROM sessions
         WHERE id NOT IN (SELECT session_id FROM embeddings)";

/// Finds all embeddings.
pub const ALL_EMBEDDINGS: &'static str = "SELECT session_id, vector FROM embeddings";

/// Finds the command of one session and where it ran.
pub const COMMAND_OF_SESSION: &'static str = "SELECT command, cwd FROM sessions WHERE id = ?1";

/// How a search by text begins.
pub const SEARCH_HEAD: &'static str = "SELECT id, timestamp, command, cwd, exit_code,
                COALESCE(git_branch,''), COALESCE(stdout,''), COALESCE(duration_ms,0)
         FROM sessions
         WHERE (command LIKE ?1 OR COALESCE(stdout,'') LIKE ?1)
         ";

/// The condition that a session failed.
pub const FAILED_CONDITION: &'static str = "AND exit_code != 0";

/// The condition that a session is recent.
pub const RECENT_CONDITION: &'static str = "AND timestamp >= ?2";

/// What separates the parts of a search by text.
pub const NEW_LINE: &'static str = "
         ";

/// How a search by text goes on after its conditions, up to the number of results.
pub const SEARCH_TAIL: &'static str = "
         ORDER BY timestamp DESC
         LIMIT ";

/// How a search by identifiers begins, up to the identifiers.
pub const BY_ID_HEAD: &'static str = "SELECT id, timestamp, command, cwd, exit_code,
                        COALESCE(git_branch,''), COALESCE(stdout,''), COALESCE(duration_ms,0)
                 FROM sessions WHERE id IN (";

/// How a search by identifiers ends.
pub const BY_ID_TAIL: &'static str = ")
                 ORDER BY timestamp DESC";

/// One step of bringing the database up to date.
#[derive(Debug)]
pub enum InitStep {
    /// A statement that must succeed.
    Run(&'static str),
    /// A statement whose failure does not matter.
    Try(&'static str),
}

/// A search by text: the statement and what is bound to it.
#[derive(Debug)]
pub struct SearchRequest {
    pub sql: String,
    pub pattern: String,
    pub since: Option<i64>,
}

/// The steps that follow the creation of the table of sessions, given its columns.
pub open spec fn init_steps(columns: Seq<Seq<char>>) -> Seq<InitStep> {
    if columns.contains("tags"@) {
        seq![InitStep::Run(CREATE_EMBEDDINGS)]
    } else {
        seq![InitStep::Try(ADD_TAGS), InitStep::Run(CREATE_EMBEDDINGS)]
    }
}

/// The statement of a search by text.
pub open spec fn search_sql(failed_only: bool, recent_only: bool, max_results: usize) -> Seq<char> {
    let failed = if failed_only {
        FAILED_CONDITION@
    } else {
        Seq::empty()
    };
    let recent = if recent_only {
        RECENT_CONDITION@
    } else {
        Seq::empty()
    };
    SEARCH_HEAD@ + failed + NEW_LINE@ + recent + SEARCH_TAIL@ + decimal(max_results as int)
}

/// The pattern that finds `query` anywhere in a text.
pub open spec fn like_pattern(query: Seq<char>) -> Seq<char> {
    "%"@ + query + "%"@
}

/// The place in a statement to which the value at position `i` is bound.
pub open spec fn placeholder(i: int) -> Seq<char> {
    "?"@ + decimal(i + 1)
}

/// The first `n` places, separated by commas.
pub open spec fn placeholders(n: nat) -> Seq<char> {
    joined(Seq::new(n, |i: int| placeholder(i)), ","@)
}

/// The statement that finds `n` sessions by their identifiers.
pub open spec fn by_id_sql(n: nat) -> Seq<char> {
    BY_ID_HEAD@ + placeholders(n) + BY_ID_TAIL@
}

/// Once the column is there, the table of sessions is not altered any more.
pub proof fn lemma_column_is_added_once(columns: Seq<Seq<char>>)
    ensures
        init_steps(columns.push("tags"@)) == seq![InitStep::Run(CREATE_EMBEDDINGS)],
{
    let more = columns.push("tags"@);
    assert(more[columns.len() as int] == "tags"@);
}

/// Each identifier is bound to a place of its own.
pub proof fn lemma_placeholders_are_distinct(i: int, j: int)
    requires
        i != j,
    ensures
        placeholder(i) != placeholder(j),
{
    if placeholder(i) == placeholder(j) {
        let mark = "?"@;
        assert(placeholder(i).skip(mark.len() as int) =~= decimal(i + 1));
        assert(placeholder(j).skip(mark.len() as int) =~= decimal(j + 1));
        lemma_decimal_is_injective(i + 1, j + 1);
    }
}

/// The column is added exactly if no column has its name, and the table of embeddings is
/// created in any case, last.
pub proof fn lemma_column_is_added_exactly_if_missing(columns: Seq<Seq<char>>)
    ensures
        init_steps(columns).contains(
            InitStep::Try("ALTER TABLE sessions ADD COLUMN tags TEXT"),
        ) <==> forall|i: int| 0 <= i < columns.len() ==> #[trigger] columns[i] != "tags"@,
        init_steps(columns).len() > 0,
        init_steps(columns).last() == InitStep::Run(CREATE_EMBEDDINGS),
        init_steps(columns).len() == (if columns.contains("tags"@) { 1int } else { 2int }),
{
    let steps = init_steps(columns);
    let adding = InitStep::Try("ALTER TABLE sessions ADD COLUMN tags TEXT");
    if columns.contains("tags"@) {
        assert(steps[0] is Run);
        assert(!steps.contains(adding));
    } else {
        assert(steps[0] == adding);
        assert forall|i: int| 0 <= i < columns.len() implies #[trigger] columns[i] != "tags"@ by {
            assert(columns.contains(columns[i]));
        }
    }
}

/// A condition stands in a search exactly if it is asked for, whatever else is asked for,
/// and the number of results ends it.
pub proof fn lemma_search_holds_the_conditions_asked_for(
    failed_only: bool,
    recent_only: bool,
    max_results: usize,
)
    ensures
        search_sql(false, false, max_results) == SEARCH_HEAD@ + NEW_LINE@ + SEARCH_TAIL@ + decimal(
            max_results as int,
        ),
        search_sql(true, recent_only, max_results) == SEARCH_HEAD@ + "AND exit_code != 0"@
            + search_sql(false, recent_only, max_results).skip(SEARCH_HEAD@.len() as int),
        search_sql(failed_only, true, max_results) == search_sql(
            failed_only,
            false,
            max_results,
        ).take(
            search_sql(failed_only, false, max_results).len() - (SEARCH_TAIL@ + decimal(
                max_results as int,
            )).len(),
        ) + "AND timestamp >= ?2"@ + SEARCH_TAIL@ + decimal(max_results as int),
{
    let end = SEARCH_TAIL@ + decimal(max_results as int);
    let plain = search_sql(false, recent_only, max_results);
    let recent = if recent_only {
        RECENT_CONDITION@
    } else {
        Seq::<char>::empty()
    };
    let failed = if failed_only {
        FAILED_CONDITION@
    } else {
        Seq::<char>::empty()
    };
    assert(search_sql(false, false, max_results) =~= SEARCH_HEAD@ + NEW_LINE@ + SEARCH_TAIL@
        + decimal(max_results as int));
    assert(plain.skip(SEARCH_HEAD@.len() as int) =~= NEW_LINE@ + recent + end);
    assert(search_sql(true, recent_only, max_results) =~= SEARCH_HEAD@ + "AND exit_code != 0"@ + (
    NEW_LINE@ + recent + end));
    let without = search_sql(failed_only, false, max_results);
    assert(without =~= SEARCH_HEAD@ + failed + NEW_LINE@ + end);
    assert(without.take(without.len() - end.len()) =~= SEARCH_HEAD@ + failed + NEW_LINE@);
    assert(search_sql(failed_only, true, max_results) =~= SEARCH_HEAD@ + failed + NEW_LINE@
        + "AND timestamp >= ?2"@ + end);
    assert(search_sql(failed_only, true, max_results) =~= without.take(without.len() - end.len())
        + "AND timestamp >= ?2"@ + SEARCH_TAIL@ + decimal(max_results as int));
}

/// The pattern is the whole query between two wildcards.
pub proof fn lemma_pattern_is_the_query_between_wildcards(query: Seq<char>)
    ensures
        like_pattern(query).len() == query.len() + 2,
        like_pattern(query).first() == '%',
        like_pattern(query).last() == '%',
        like_pattern(query).subrange(1, query.len() as int + 1) == query,
{
    reveal_strlit("%");
    assert(like_pattern(query).subrange(1, query.len() as int + 1) =~= query);
}

/// The first identifier is bound to the first place, and every further one to a place of
/// its own behind a comma.
pub proof fn lemma_every_identifier_has_a_place(n: nat)
    ensures
        placeholders(1) == seq!['?', '1'],
        n > 0 ==> placeholders(n + 1) == placeholders(n) + seq![',', '?'] + decimal(n as int + 1),
        by_id_sql(n) == BY_ID_HEAD@ + placeholders(n) + BY_ID_TAIL@,
{
    reveal_strlit("?");
    reveal_strlit(",");
    let one = Seq::new(1, |i: int| placeholder(i));
    assert(one =~= seq![placeholder(0)]);
    assert(placeholder(0) =~= seq!['?', '1']);
    if n > 0 {
        let fewer = Seq::new(n, |i: int| placeholder(i));
        let more = Seq::new(n + 1, |i: int| placeholder(i));
        assert(more =~= fewer.push(placeholder(n as int)));
        lemma_joined_push(fewer, ","@, placeholder(n as int));
        assert(","@ + placeholder(n as int) =~= seq![',', '?'] + decimal(n as int + 1));
        assert(placeholders(n + 1) =~= placeholders(n) + (","@ + placeholder(n as int)));
        assert(placeholders(n + 1) =~= placeholders(n) + seq![',', '?'] + decimal(n as int + 1));
    }
}

/// The tables and their columns, and what is stored in them, word for word.
pub proof fn lemma_statements_that_store()
    ensures
        CREATE_SESSIONS@ == "
        CREATE TABLE IF NOT EXISTS sessions (
            id           INTEGER PRIMARY KEY AUTOINCREMENT,
            timestamp    INTEGER NOT NULL,
            command      TEXT NOT NULL,
            cwd          TEXT,
            git_repo     TEXT,
            git_branch   TEXT,
            exit_code    INTEGER,
            duration_ms  INTEGER,
            stdout       TEXT,
            stderr       TEXT,
            hostname     TEXT,
            shell        TEXT,
            tags         TEXT
        );
    "@,
        SESSION_COLUMNS@ == "PRAGMA table_info(sessions)"@,
        ADD_TAGS@ == "ALTER TABLE sessions ADD COLUMN tags TEXT"@,
        CREATE_EMBEDDINGS@ == "
        CREATE TABLE IF NOT EXISTS embeddings (
            session_id  INTEGER PRIMARY KEY,
            vector      BLOB NOT NULL
        );
    "@,
        INSERT_SESSION@ == "INSERT INTO sessions
            (timestamp, command, cwd, git_repo, git_branch, exit_code,
             duration_ms, stdout, stderr, hostname, shell)
         VALUES (?1, ?2, ?3, ?4, ?5, ?6, ?7, ?8, ?9, ?10, ?11)"@,
        STORE_EMBEDDING@ == "INSERT OR REPLACE INTO embeddings (session_id, vector) VALUES (?1, ?2)"@,
{
}

/// What is looked for in the tables, word for word.
pub proof fn lemma_statements_that_find()
    ensures
        SESSIONS_WITHOUT_EMBEDDING@ == "SELECT id, command, cwd FROM sessions
         WHERE id NOT IN (SELECT session_id FROM embeddings)"@,
        ALL_EMBEDDINGS@ == "SELECT session_id, vector FROM embeddings"@,
        COMMAND_OF_SESSION@ == "SELECT command, cwd FROM sessions WHERE id = ?1"@,
        SEARCH_HEAD@ == "SELECT id, timestamp, command, cwd, exit_code,
                COALESCE(git_branch,''), COALESCE(stdout,''), COALESCE(duration_ms,0)
         FROM sessions
         WHERE (command LIKE ?1 OR COALESCE(stdout,'') LIKE ?1)
         "@,
        FAILED_CONDITION@ == "AND exit_code != 0"@,
        RECENT_CONDITION@ == "AND timestamp >= ?2"@,
        NEW_LINE@ == "
         "@,
        SEARCH_TAIL@ == "
         ORDER BY timestamp DESC
         LIMIT "@,
        BY_ID_HEAD@ == "SELECT id, timestamp, command, cwd, exit_code,
                        COALESCE(git_branch,''), COALESCE(stdout,''), COALESCE(duration_ms,0)
                 FROM sessions WHERE id IN ("@,
        BY_ID_TAIL@ == ")
                 ORDER BY timestamp DESC"@,
{
}

/// The steps that follow the creation of the table of sessions, given its columns.
pub fn init_db(columns: &Vec<String>) -> (steps: Vec<InitStep>)
    ensures
        steps@ == init_steps(views(columns@)),
{
    let mut steps: Vec<InitStep> = Vec::new();
    if !contains_text(columns, "tags") {
        steps.push(InitStep::Try(ADD_TAGS));
    }
    steps.push(InitStep::Run(CREATE_EMBEDDINGS));
    assert(steps@ =~= init_steps(views(columns@)));
    steps
}

/// A search by text. With `since`, only sessions from that time on are found.
pub fn search_sessions(
    query: &str,
    failed_only: bool,
    since: Option<i64>,
    max_results: usize,
) -> (request: SearchRequest)
    ensures
        request.sql@ == search_sql(failed_only, since is Some, max_results),
        request.pattern@ == like_pattern(query@),
        request.since == since,
{
    let mut pattern = "%".to_string();
    pattern.append(query);
    pattern.append("%");
    let mut sql = SEARCH_HEAD.to_string();
    if failed_only {
        sql.append(FAILED_CONDITION);
    }
    sql.append(NEW_LINE);
    if since.is_some() {
        sql.append(RECENT_CONDITION);
    }
    sql.append(SEARCH_TAIL);
    sql.append(usize_text(max_results).as_str());
    assert(sql@ =~= search_sql(failed_only, since is Some, max_results));
    SearchRequest { sql, pattern, since }
}

/// The search by text that the command line asks for. A search for today's sessions
/// finds those from `today_start` on, any other search looks at all times.
pub fn search_request(search: &SearchArgs, max_results: usize, today_start: i64) -> (request:
    SearchRequest)
    ensures
        request.sql@ == search_sql(search.failed_only, search.today_only, max_results),
        request.pattern@ == like_pattern(search.query@),
        request.since == (if search.today_only { Some(today_start) } else { None }),
{
    let since: Option<i64> = if search.today_only {
        Some(today_start)
    } else {
        None
    };
    search_sessions(search.query.as_str(), search.failed_only, since, max_results)
}

/// The statement that finds the sessions with the given identifiers, `None` where
/// there are none to look for.
pub fn sessions_by_id(ids: &Vec<i64>) -> (sql: Option<String>)
    ensures
        sql is None <==> ids.len() == 0,
        sql matches Some(s) ==> s@ == by_id_sql(ids@.len()),
{
    if ids.len() == 0 {
        return None;
    }
    let mut places: Vec<String> = Vec::new();
    for i in 0..ids.len()
        invariant
            places.len() == i,
            forall|k: int| 0 <= k < i ==> (#[trigger] places[k])@ == placeholder(k),
    {
        let mut place = "?".to_string();
        place.append(usize_text(i + 1).as_str());
        places.push(place);
    }
    assert(views(places@) =~= Seq::new(ids@.len(), |i: int| placeholder(i)));
    let mut sql = BY_ID_HEAD.to_string();
    sql.append(join(&places, ",").as_str());
    sql.append(BY_ID_TAIL);
    Some(sql)
}

} // verus!
