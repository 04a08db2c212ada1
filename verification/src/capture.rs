//! Capture of a command that has run: what is recorded of it, and whether it is.
use vstd::prelude::*;

use crate::config::{CaptureConfig, Config};
use crate::number::{parse_i64, spelled_i64};
use crate::redact::{redact, redacted};
use crate::text::{same_text, starts_with, trim, trimmed, views};

verus! {

/// The shell that sessions are captured from.
pub const SHELL: &'static str = "bash";

/// What is recorded of one command.
#[derive(Debug)]
pub struct SessionRecord {
    pub command: String,
    pub cwd: String,
    pub git_repo: String,
    pub git_branch: String,
    pub exit_code: i64,
    pub duration_ms: i64,
    pub stdout: String,
    pub stderr: String,
}

/// A record with the time and the place of its capture: one row of the history.
#[derive(Debug)]
pub struct SessionRow {
    pub timestamp: i64,
    pub record: SessionRecord,
    pub hostname: String,
    pub shell: String,
}

/// The argument at position `i`, or the empty text where there are fewer.
pub open spec fn arg(args: Seq<Seq<char>>, i: int) -> Seq<char> {
    if 0 <= i < args.len() {
        args[i]
    } else {
        Seq::empty()
    }
}

/// The number that the argument at position `i` spells, or zero where it spells none.
pub open spec fn arg_number(args: Seq<Seq<char>>, i: int) -> i64 {
    match spelled_i64(arg(args, i)) {
        Some(n) => n,
        None => 0,
    }
}

/// `command` is `excluded`, or `excluded` followed by a space and more.
pub open spec fn is_command_or_call(command: Seq<char>, excluded: Seq<char>) -> bool {
    command == excluded || excluded.push(' ').is_prefix_of(command)
}

/// Whether the configuration keeps the command out of the history.
pub open spec fn is_excluded(
    command: Seq<char>,
    cwd: Seq<char>,
    exclude_commands: Seq<Seq<char>>,
    exclude_dirs: Seq<Seq<char>>,
) -> bool {
    ||| exists|i: int|
        0 <= i < exclude_commands.len() && is_command_or_call(command, #[trigger] exclude_commands[i])
    ||| exists|i: int| 0 <= i < exclude_dirs.len() && (#[trigger] exclude_dirs[i]).is_prefix_of(cwd)
}

/// Whether nothing is recorded: there is no command, or it is excluded.
pub open spec fn is_skipped(command: Seq<char>, cwd: Seq<char>, config: CaptureConfig) -> bool {
    command.len() == 0 || is_excluded(
        command,
        cwd,
        views(config.exclude_commands@),
        views(config.exclude_dirs@),
    )
}

impl SessionRecord {
    /// The record holds the given command and outputs, and the rest as the arguments
    /// say it.
    pub open spec fn holds(
        self,
        args: Seq<Seq<char>>,
        command: Seq<char>,
        stdout: Seq<char>,
        stderr: Seq<char>,
    ) -> bool {
        &&& self.command@ == command
        &&& self.cwd@ == arg(args, 3)
        &&& self.exit_code == arg_number(args, 4)
        &&& self.git_branch@ == arg(args, 5)
        &&& self.git_repo@ == arg(args, 6)
        &&& self.duration_ms == arg_number(args, 7)
        &&& self.stdout@ == stdout
        &&& self.stderr@ == stderr
    }
}

/// Excluding more never brings a session back: what was kept out stays out.
pub proof fn lemma_more_exclusions_skip_more(
    command: Seq<char>,
    cwd: Seq<char>,
    commands: Seq<Seq<char>>,
    more_commands: Seq<Seq<char>>,
    dirs: Seq<Seq<char>>,
    more_dirs: Seq<Seq<char>>,
)
    requires
        is_excluded(command, cwd, commands, dirs),
    ensures
        is_excluded(command, cwd, commands + more_commands, dirs + more_dirs),
{
    let all_commands = commands + more_commands;
    let all_dirs = dirs + more_dirs;
    if exists|i: int|
        0 <= i < commands.len() && is_command_or_call(command, #[trigger] commands[i]) {
        let i = choose|i: int|
            0 <= i < commands.len() && is_command_or_call(command, #[trigger] commands[i]);
        assert(all_commands[i] == commands[i]);
    } else {
        let i = choose|i: int| 0 <= i < dirs.len() && (#[trigger] dirs[i]).is_prefix_of(cwd);
        assert(all_dirs[i] == dirs[i]);
    }
}

/// Excluding a command excludes it whatever its arguments are, but not a longer
/// command that merely begins with the same letters.
pub proof fn lemma_exclusion_is_by_word(command: Seq<char>, rest: Seq<char>, excluded: Seq<char>)
    requires
        command == excluded + rest,
    ensures
        is_command_or_call(command, excluded) <==> rest.len() == 0 || rest[0] == ' ',
{
    let called = excluded.push(' ');
    if rest.len() == 0 {
        assert(command =~= excluded);
    } else {
        assert(command.len() > excluded.len());
        assert(command[excluded.len() as int] == rest[0]);
        assert(called[excluded.len() as int] == ' ');
        if rest[0] == ' ' {
            assert(command.subrange(0, called.len() as int) =~= called);
        } else if called.is_prefix_of(command) {
            assert(command.subrange(0, called.len() as int)[excluded.len() as int] == ' ');
        }
    }
}

/// A session captured under an excluded directory, or below it, is never recorded.
pub proof fn lemma_excluded_dir_covers_its_subtree(
    command: Seq<char>,
    below: Seq<char>,
    config: CaptureConfig,
    i: int,
)
    requires
        0 <= i < config.exclude_dirs@.len(),
    ensures
        is_skipped(command, config.exclude_dirs@[i]@ + below, config),
{
    let dirs = views(config.exclude_dirs@);
    let cwd = config.exclude_dirs@[i]@ + below;
    assert(dirs[i] == config.exclude_dirs@[i]@);
    assert(cwd.subrange(0, dirs[i].len() as int) =~= dirs[i]);
}

/// Each excluded command, wherever it stands in the list, is skipped in every directory:
/// by itself, and with a space and anything behind it.
pub proof fn lemma_every_excluded_command_is_skipped(
    config: CaptureConfig,
    i: int,
    rest: Seq<char>,
    cwd: Seq<char>,
)
    requires
        0 <= i < config.exclude_commands@.len(),
    ensures
        is_skipped(config.exclude_commands@[i]@, cwd, config),
        is_skipped(config.exclude_commands@[i]@ + seq![' '] + rest, cwd, config),
{
    let commands = views(config.exclude_commands@);
    let excluded = config.exclude_commands@[i]@;
    assert(commands[i] == excluded);
    let called = excluded + seq![' '] + rest;
    assert(called.subrange(0, excluded.len() as int + 1) =~= excluded.push(' '));
}

/// A command is recorded if it is not empty, and no excluded command is the command or
/// its beginning up to a space, and no excluded directory is the beginning of the
/// directory.
pub proof fn lemma_every_other_command_is_recorded(
    command: Seq<char>,
    cwd: Seq<char>,
    config: CaptureConfig,
)
    requires
        command.len() > 0,
        forall|i: int|
            0 <= i < config.exclude_commands@.len() ==> {
                let excluded = (#[trigger] config.exclude_commands@[i])@;
                &&& command != excluded
                &&& !(excluded + seq![' ']).is_prefix_of(command)
            },
        forall|i: int|
            0 <= i < config.exclude_dirs@.len()
                ==> !(#[trigger] config.exclude_dirs@[i])@.is_prefix_of(cwd),
    ensures
        !is_skipped(command, cwd, config),
{
    let commands = views(config.exclude_commands@);
    let dirs = views(config.exclude_dirs@);
    assert forall|i: int| 0 <= i < commands.len() implies !is_command_or_call(
        command,
        #[trigger] commands[i],
    ) by {
        let excluded = config.exclude_commands@[i]@;
        assert(excluded + seq![' '] =~= excluded.push(' '));
    }
    assert forall|i: int| 0 <= i < dirs.len() implies !(#[trigger] dirs[i]).is_prefix_of(cwd) by {
        assert(dirs[i] == config.exclude_dirs@[i]@);
    }
}

/// Without a command nothing is recorded.
pub proof fn lemma_empty_command_is_skipped(cwd: Seq<char>, config: CaptureConfig)
    ensures
        is_skipped(Seq::empty(), cwd, config),
{
}

/// A record of a full list of arguments holds each of them in its place, and the numbers
/// that two of them spell.
pub proof fn lemma_record_holds_every_argument(
    record: SessionRecord,
    args: Seq<Seq<char>>,
    command: Seq<char>,
    stdout: Seq<char>,
    stderr: Seq<char>,
)
    requires
        record.holds(args, command, stdout, stderr),
    ensures
        record.command@ == command,
        record.stdout@ == stdout,
        record.stderr@ == stderr,
        record.cwd@ == (if args.len() > 3 { args[3] } else { Seq::empty() }),
        record.git_branch@ == (if args.len() > 5 { args[5] } else { Seq::empty() }),
        record.git_repo@ == (if args.len() > 6 { args[6] } else { Seq::empty() }),
        args.len() > 4 ==> (spelled_i64(args[4]) matches Some(n) ==> record.exit_code == n),
        args.len() > 4 ==> (spelled_i64(args[4]) is None ==> record.exit_code == 0),
        args.len() <= 4 ==> record.exit_code == 0,
        args.len() > 7 ==> (spelled_i64(args[7]) matches Some(n) ==> record.duration_ms == n),
        args.len() > 7 ==> (spelled_i64(args[7]) is None ==> record.duration_ms == 0),
        args.len() <= 7 ==> record.duration_ms == 0,
{
}

/// An argument that is there is taken as it is, one that is missing is empty, and either
/// counts as zero where it spells no number.
pub proof fn lemma_arguments_are_taken_by_position(args: Seq<Seq<char>>, i: int)
    requires
        0 <= i,
    ensures
        i < args.len() ==> arg(args, i) == args[i],
        i >= args.len() ==> arg(args, i) == Seq::<char>::empty(),
        spelled_i64(arg(args, i)) matches Some(n) ==> arg_number(args, i) == n,
        spelled_i64(arg(args, i)) is None ==> arg_number(args, i) == 0,
{
}

/// The argument at position `i`, or the empty text where there are fewer.
pub fn arg_or_empty(args: &Vec<String>, i: usize) -> (s: String)
    ensures
        s@ == arg(views(args@), i as int),
{
    if i < args.len() {
        args[i].clone()
    } else {
        String::new()
    }
}

/// The number that the argument at position `i` spells, or zero where it spells none.
pub fn arg_number_or_zero(args: &Vec<String>, i: usize) -> (n: i64)
    ensures
        n == arg_number(views(args@), i as int),
{
    let s = arg_or_empty(args, i);
    match parse_i64(s.as_str()) {
        Some(n) => n,
        None => 0,
    }
}

/// Whether nothing is to be recorded of the command.
pub fn skips(command: &str, cwd: &str, config: &CaptureConfig) -> (skip: bool)
    ensures
        skip == is_skipped(command@, cwd@, *config),
{
    if command.is_empty() {
        return true;
    }
    let ghost commands = views(config.exclude_commands@);
    let ghost dirs = views(config.exclude_dirs@);
    for i in 0..config.exclude_commands.len()
        invariant
            commands == views(config.exclude_commands@),
            forall|k: int| 0 <= k < i ==> !is_command_or_call(command@, #[trigger] commands[k]),
            dirs == views(config.exclude_dirs@),
    {
        let excluded = config.exclude_commands[i].as_str();
        let mut called = excluded.to_string();
        called.push(' ');
        assert(commands[i as int] == excluded@);
        if same_text(command, excluded) || starts_with(command, called.as_str()) {
            return true;
        }
    }
    for i in 0..config.exclude_dirs.len()
        invariant
            commands == views(config.exclude_commands@),
            dirs == views(config.exclude_dirs@),
            forall|k: int| 0 <= k < i ==> !(#[trigger] dirs[k]).is_prefix_of(cwd@),
    {
        assert(dirs[i as int] == config.exclude_dirs[i as int]@);
        if starts_with(cwd, config.exclude_dirs[i].as_str()) {
            return true;
        }
    }
    false
}

/// The record for a command whose text and outputs have been redacted, or `None`
/// where nothing is to be recorded.
pub fn record_session(
    args: &Vec<String>,
    command: String,
    stdout: String,
    stderr: String,
    config: &CaptureConfig,
) -> (record: Option<SessionRecord>)
    ensures
        record is None <==> is_skipped(command@, arg(views(args@), 3), *config),
        record matches Some(r) ==> r.holds(views(args@), command@, stdout@, stderr@),
{
    let cwd = arg_or_empty(args, 3);
    if skips(command.as_str(), cwd.as_str(), config) {
        return None;
    }
    Some(
        SessionRecord {
            command,
            cwd,
            git_repo: arg_or_empty(args, 6),
            git_branch: arg_or_empty(args, 5),
            exit_code: arg_number_or_zero(args, 4),
            duration_ms: arg_number_or_zero(args, 7),
            stdout,
            stderr,
        },
    )
}

/// What is recorded of the command that the arguments describe: its text and its
/// outputs, redacted, and the rest as given. `None` where nothing is to be recorded.
pub fn capture_session(args: &Vec<String>, config: &Config) -> (record: Option<SessionRecord>)
    ensures
        ({
            let given = views(args@);
            let extra = views(config.redaction.extra_patterns@);
            let command = redacted(arg(given, 2), extra);
            &&& record is None <==> is_skipped(command, arg(given, 3), config.capture)
            &&& record matches Some(r) ==> r.holds(
                given,
                command,
                redacted(arg(given, 8), extra),
                redacted(arg(given, 9), extra),
            )
        }),
{
    let command = redact(arg_or_empty(args, 2).as_str(), &config.redaction.extra_patterns);
    let stdout = redact(arg_or_empty(args, 8).as_str(), &config.redaction.extra_patterns);
    let stderr = redact(arg_or_empty(args, 9).as_str(), &config.redaction.extra_patterns);
    record_session(args, command, stdout, stderr, &config.capture)
}

/// The row to store for a record: with its time, the name of the machine without the
/// white space around it, and the shell.
pub fn session_row(record: SessionRecord, timestamp: i64, hostname: &str) -> (row: SessionRow)
    ensures
        row.timestamp == timestamp,
        row.record == record,
        row.hostname@ == trimmed(hostname@),
        row.shell@ == SHELL@,
        row.shell@ == "bash"@,
{
    SessionRow { timestamp, record, hostname: trim(hostname), shell: SHELL.to_string() }
}

} // verus!
