//! The result browser: what it shows, and how keys move through it.
use vstd::prelude::*;

use crate::config::DisplayConfig;
use crate::number::{decimal, i64_text, usize_text};
use crate::text::{first_lines, join, joined, lemma_lines_hold_no_line_feed, lines, views};
use crate::time::{format_time, is_offset, time_text};

verus! {

/// A recorded session as a search finds it.
#[derive(Debug)]
pub struct Session {
    pub id: i64,
    pub timestamp: i64,
    pub command: String,
    pub cwd: String,
    pub exit_code: i64,
    pub git_branch: String,
    pub stdout: String,
    pub duration_ms: i64,
}

/// A colour of the result list.
#[derive(Debug, Clone, Copy, PartialEq, Eq, Structural)]
pub enum Color {
    Green,
    Red,
    White,
    DarkGray,
    Blue,
    Yellow,
}

/// A piece of text with its style.
#[derive(Debug)]
pub struct Span {
    pub text: String,
    pub color: Option<Color>,
    pub bold: bool,
}

/// What a piece of styled text amounts to.
pub struct SpanView {
    pub text: Seq<char>,
    pub color: Option<Color>,
    pub bold: bool,
}

impl View for Span {
    type V = SpanView;

    open spec fn view(&self) -> SpanView {
        SpanView { text: self.text@, color: self.color, bold: self.bold }
    }
}

/// The two lines that stand for a session in the result list.
#[derive(Debug)]
pub struct SessionItem {
    pub first: Vec<Span>,
    pub second: Vec<Span>,
}

/// A key, as far as the browser tells keys apart.
#[derive(Debug, Clone, Copy, PartialEq, Eq, Structural)]
pub enum Key {
    Char(char),
    Esc,
    Up,
    Down,
    Other,
}

/// Which of the results is selected.
#[derive(Debug)]
pub struct Browser {
    pub count: usize,
    pub selected: Option<usize>,
}

/// Everything that the browser shows at one time.
#[derive(Debug)]
pub struct Screen {
    pub header: String,
    pub items: Vec<SessionItem>,
    pub selected: Option<usize>,
    pub detail: String,
}

/// What a list of styled pieces amounts to.
pub open spec fn span_views(spans: Seq<Span>) -> Seq<SpanView> {
    spans.map_values(|s: Span| s@)
}

/// Text without a style of its own.
pub open spec fn raw_view(text: Seq<char>) -> SpanView {
    SpanView { text, color: None, bold: false }
}

/// Coloured text.
pub open spec fn colored_view(text: Seq<char>, color: Color) -> SpanView {
    SpanView { text, color: Some(color), bold: false }
}

/// The line above the results.
pub open spec fn header_view(query: Seq<char>, count: int) -> Seq<char> {
    " recall  query: \""@ + query + "\"  ("@ + decimal(count)
        + " results)  [\u{2191}\u{2193}] navigate  [q] quit"@
}

/// The mark of a session: a green tick where it succeeded, a red cross where it failed.
pub open spec fn status_view(exit_code: i64) -> SpanView {
    if exit_code == 0 {
        colored_view("\u{2713}"@, Color::Green)
    } else {
        colored_view("\u{2717}"@, Color::Red)
    }
}

/// The branch in brackets, where there is one and it is to be shown.
pub open spec fn branch_view(git_branch: Seq<char>, display: DisplayConfig) -> Seq<char> {
    if display.show_git_branch && git_branch.len() > 0 {
        " ["@ + git_branch + "]"@
    } else {
        Seq::empty()
    }
}

/// The first line of a session: its mark and its command.
pub open spec fn first_line_view(session: Session) -> Seq<SpanView> {
    seq![
        status_view(session.exit_code),
        raw_view("  "@),
        SpanView { text: session.command@, color: Some(Color::White), bold: true },
    ]
}

/// The second line of a session: when and where it ran.
pub open spec fn second_line_view(
    session: Session,
    display: DisplayConfig,
    time: Seq<char>,
) -> Seq<SpanView> {
    seq![
        raw_view("   "@),
        colored_view(time, Color::DarkGray),
        raw_view("  "@),
        colored_view(session.cwd@, Color::Blue),
        colored_view(branch_view(session.git_branch@, display), Color::Yellow),
    ]
}

impl SessionItem {
    /// The item shows the session with `time` as its time.
    pub open spec fn shows(
        self,
        session: Session,
        display: DisplayConfig,
        time: Seq<char>,
    ) -> bool {
        &&& span_views(self.first@) == first_line_view(session)
        &&& span_views(self.second@) == second_line_view(session, display, time)
    }
}

/// The first two lines of the output in one line, or a note where there is no output.
pub open spec fn preview_view(stdout: Seq<char>) -> Seq<char> {
    let all = lines(stdout);
    if stdout.len() == 0 {
        "(no output captured)"@
    } else {
        joined(all.take(if all.len() < 2 { all.len() as int } else { 2 }), " | "@)
    }
}

/// How long the session took, where that is to be shown.
pub open spec fn duration_view(duration_ms: i64, display: DisplayConfig) -> Seq<char> {
    if !display.show_duration {
        Seq::empty()
    } else if duration_ms > 0 {
        "  |  "@ + decimal(duration_ms as int) + "s"@
    } else {
        "  |  <1s"@
    }
}

/// The details of a session.
pub open spec fn detail_view(
    session: Session,
    display: DisplayConfig,
    time: Seq<char>,
) -> Seq<char> {
    " ID: "@ + decimal(session.id as int) + "  |  Exit: "@ + decimal(session.exit_code as int)
        + "  |  "@ + time + duration_view(session.duration_ms, display) + "\n Command: "@
        + session.command@ + "\n Dir:     "@ + session.cwd@ + "\n Output:  "@ + preview_view(
        session.stdout@,
    )
}

/// The details of the selected session, nothing where none is selected. Local time is
/// ahead of UTC by the offset at the same position as the session.
pub open spec fn selected_detail_view(
    sessions: Seq<Session>,
    selected: Option<usize>,
    display: DisplayConfig,
    offsets: Seq<i32>,
) -> Seq<char> {
    match selected {
        Some(i) if i < sessions.len() => detail_view(
            sessions[i as int],
            display,
            time_text(sessions[i as int].timestamp, offsets[i as int]),
        ),
        _ => Seq::empty(),
    }
}

/// Whether the key closes the browser.
pub open spec fn quits(key: Key) -> bool {
    key == Key::Char('q') || key == Key::Esc
}

/// The position of the last of `count` results, zero where there is none.
pub open spec fn last_position(count: usize) -> usize {
    if count == 0 {
        0
    } else {
        (count - 1) as usize
    }
}

/// What is selected after a key.
pub open spec fn selected_after(selected: Option<usize>, count: usize, key: Key) -> Option<usize> {
    if key == Key::Down || key == Key::Char('j') {
        match selected {
            Some(i) => Some(if i < last_position(count) { (i + 1) as usize } else { last_position(count) }),
            None => Some(0),
        }
    } else if key == Key::Up || key == Key::Char('k') {
        match selected {
            Some(i) => Some(if i > 0 { (i - 1) as usize } else { 0 }),
            None => Some(0),
        }
    } else {
        selected
    }
}

/// What is selected after a sequence of keys.
pub open spec fn selected_after_all(
    selected: Option<usize>,
    count: usize,
    keys: Seq<Key>,
) -> Option<usize>
    decreases keys.len(),
{
    if keys.len() == 0 {
        selected
    } else {
        selected_after(selected_after_all(selected, count, keys.drop_last()), count, keys.last())
    }
}

impl Browser {
    /// The selection is one of the results. Without results it is nothing or the
    /// first place.
    pub open spec fn well_formed(self) -> bool {
        &&& self.selected matches Some(i) ==> i <= last_position(self.count)
        &&& self.count > 0 ==> self.selected is Some
    }
}

/// Whatever keys are pressed, one of the results stays selected.
pub proof fn lemma_selection_stays_on_a_result(count: usize, keys: Seq<Key>)
    requires
        count > 0,
    ensures
        selected_after_all(Some(0), count, keys) matches Some(i) && i < count,
    decreases keys.len(),
{
    if keys.len() > 0 {
        lemma_selection_stays_on_a_result(count, keys.drop_last());
    }
}

/// Moving up undoes moving down, except at the last result.
pub proof fn lemma_up_undoes_down(i: usize, count: usize)
    requires
        i + 1 < count,
    ensures
        selected_after(selected_after(Some(i), count, Key::Down), count, Key::Up) == Some(i),
{
}

/// Every result can be reached: as many steps down as its position lead to it.
pub proof fn lemma_every_result_is_reached(count: usize, n: nat)
    requires
        n < count,
    ensures
        selected_after_all(Some(0), count, Seq::new(n, |k: int| Key::Down)) == Some(n as usize),
    decreases n,
{
    let keys = Seq::new(n, |k: int| Key::Down);
    if n > 0 {
        let fewer = Seq::new((n - 1) as nat, |k: int| Key::Down);
        assert(keys.drop_last() =~= fewer);
        lemma_every_result_is_reached(count, (n - 1) as nat);
    }
}

proof fn lemma_joined_holds_no_line_feed(words: Seq<Seq<char>>, sep: Seq<char>, i: int)
    requires
        forall|n: int, k: int|
            0 <= n < words.len() && 0 <= k < words[n].len() ==> #[trigger] words[n][k] != '\n',
        forall|k: int| 0 <= k < sep.len() ==> sep[k] != '\n',
        0 <= i < joined(words, sep).len(),
    ensures
        joined(words, sep)[i] != '\n',
    decreases words.len(),
{
    if words.len() == 1 {
        assert(words[0][i] != '\n');
    } else if words.len() > 1 {
        let rest = words.drop_first();
        if i < words[0].len() {
            assert(words[0][i] != '\n');
        } else if i >= words[0].len() + sep.len() {
            assert forall|n: int, k: int|
                0 <= n < rest.len() && 0 <= k < rest[n].len() implies #[trigger] rest[n][k]
                != '\n' by {
                assert(words[n + 1][k] != '\n');
            }
            lemma_joined_holds_no_line_feed(rest, sep, i - words[0].len() - sep.len());
        }
    }
}

/// The preview of an output is a single line.
pub proof fn lemma_preview_is_one_line(stdout: Seq<char>, i: int)
    requires
        0 <= i < preview_view(stdout).len(),
    ensures
        preview_view(stdout)[i] != '\n',
{
    reveal_strlit("(no output captured)");
    reveal_strlit(" | ");
    if stdout.len() > 0 {
        let all = lines(stdout);
        let shown = all.take(if all.len() < 2 { all.len() as int } else { 2 });
        assert forall|n: int, k: int|
            0 <= n < shown.len() && 0 <= k < shown[n].len() implies #[trigger] shown[n][k]
            != '\n' by {
            lemma_lines_hold_no_line_feed(stdout, n, k);
        }
        lemma_joined_holds_no_line_feed(shown, " | "@, i);
    }
}

/// A session is marked with a green tick exactly if its exit code is zero, and with a red
/// cross exactly if it is not: the marked failures are those with an exit code other than
/// zero.
pub proof fn lemma_mark_tells_success_from_failure(
    item: SessionItem,
    session: Session,
    display: DisplayConfig,
    time: Seq<char>,
)
    requires
        item.shows(session, display, time),
    ensures
        item.first@.len() > 0,
        item.first@[0].text@ == "\u{2713}"@ && item.first@[0].color == Some(Color::Green)
            <==> session.exit_code == 0,
        item.first@[0].text@ == "\u{2717}"@ && item.first@[0].color == Some(Color::Red)
            <==> session.exit_code != 0,
{
    let seen = span_views(item.first@);
    assert(seen.len() == item.first@.len());
    assert(seen[0] == item.first@[0]@);
}

/// An item holds the whole command, the time, the whole directory and the branch, each in
/// its place and its style. The branch is in brackets, where there is one and it is to be
/// shown.
pub proof fn lemma_item_shows_the_whole_session(
    item: SessionItem,
    session: Session,
    display: DisplayConfig,
    time: Seq<char>,
)
    requires
        item.shows(session, display, time),
    ensures
        item.first@.len() == 3,
        item.second@.len() == 5,
        !item.first@[0].bold,
        item.first@[1].text@ == "  "@ && item.first@[1].color is None && !item.first@[1].bold,
        item.first@[2].text@ == session.command@,
        item.first@[2].color == Some(Color::White) && item.first@[2].bold,
        item.second@[0].text@ == "   "@ && item.second@[0].color is None,
        item.second@[1].text@ == time && item.second@[1].color == Some(Color::DarkGray),
        item.second@[2].text@ == "  "@ && item.second@[2].color is None,
        item.second@[3].text@ == session.cwd@ && item.second@[3].color == Some(Color::Blue),
        item.second@[4].color == Some(Color::Yellow),
        display.show_git_branch && session.git_branch@.len() > 0 ==> item.second@[4].text@ == seq![
            ' ',
            '[',
        ] + session.git_branch@ + seq![']'],
        !display.show_git_branch || session.git_branch@.len() == 0 ==> item.second@[4].text@.len()
            == 0,
        forall|k: int| 0 <= k < 5 ==> !(#[trigger] item.second@[k]).bold,
{
    reveal_strlit(" [");
    reveal_strlit("]");
    assert(" ["@ =~= seq![' ', '[']);
    assert("]"@ =~= seq![']']);
    let first = span_views(item.first@);
    let second = span_views(item.second@);
    assert(first.len() == item.first@.len());
    assert(second.len() == item.second@.len());
    assert(forall|k: int| 0 <= k < 3 ==> first[k] == (#[trigger] item.first@[k])@);
    assert(forall|k: int| 0 <= k < 5 ==> second[k] == (#[trigger] item.second@[k])@);
    assert(item.first@[0]@ == first[0] && item.first@[1]@ == first[1] && item.first@[2]@
        == first[2]);
    assert(item.second@[0]@ == second[0] && item.second@[1]@ == second[1] && item.second@[2]@
        == second[2]);
    assert(item.second@[3]@ == second[3] && item.second@[4]@ == second[4]);
}

/// The line above the results quotes the query and counts the results.
pub proof fn lemma_header_names_query_and_count(query: Seq<char>, count: int)
    ensures
        header_view(query, count) == " recall  query: \""@ + query + "\"  ("@ + decimal(count)
            + " results)  [\u{2191}\u{2193}] navigate  [q] quit"@,
{
}

/// Of an output the first line is shown, or the first two with a bar between them.
pub proof fn lemma_preview_is_the_first_two_lines(stdout: Seq<char>)
    ensures
        stdout.len() == 0 ==> preview_view(stdout) == "(no output captured)"@,
        stdout.len() > 0 && lines(stdout).len() == 1 ==> preview_view(stdout) == lines(stdout)[0],
        stdout.len() > 0 && lines(stdout).len() >= 2 ==> preview_view(stdout) == lines(stdout)[0]
            + seq![' ', '|', ' '] + lines(stdout)[1],
        stdout.len() > 0 ==> lines(stdout).len() > 0,
{
    reveal_strlit(" | ");
    assert(" | "@ =~= seq![' ', '|', ' ']);
    reveal_with_fuel(joined, 3);
    let all = lines(stdout);
    if stdout.len() > 0 {
        if all.len() == 1 {
            assert(all.take(1) =~= seq![all[0]]);
        } else if all.len() >= 2 {
            assert(all.take(2) =~= seq![all[0], all[1]]);
            assert(seq![all[0], all[1]].drop_first() =~= seq![all[1]]);
        }
    }
}

/// A duration is shown by its number where it is more than zero, else as less than one,
/// and not at all where it is not to be shown.
pub proof fn lemma_duration_is_shown_if_asked_for(duration_ms: i64, display: DisplayConfig)
    ensures
        display.show_duration && duration_ms > 0 ==> duration_view(duration_ms, display)
            == "  |  "@ + decimal(duration_ms as int) + seq!['s'],
        display.show_duration && duration_ms <= 0 ==> duration_view(duration_ms, display)
            == "  |  <1s"@,
        !display.show_duration ==> duration_view(duration_ms, display).len() == 0,
{
    reveal_strlit("s");
    assert("s"@ =~= seq!['s']);
}

/// The details name the identifier, the exit code, the time, the duration, the whole
/// command, the whole directory and the preview of the output, in this order.
pub proof fn lemma_details_name_everything(
    session: Session,
    display: DisplayConfig,
    time: Seq<char>,
)
    ensures
        detail_view(session, display, time) == " ID: "@ + decimal(session.id as int)
            + "  |  Exit: "@ + decimal(session.exit_code as int) + "  |  "@ + time + duration_view(
            session.duration_ms,
            display,
        ) + "\n Command: "@ + session.command@ + "\n Dir:     "@ + session.cwd@
            + "\n Output:  "@ + preview_view(session.stdout@),
{
}

/// The details are those of the session at the selected position, with its own offset.
/// Where no session is selected there are none.
pub proof fn lemma_details_are_of_the_selected_session(
    sessions: Seq<Session>,
    i: usize,
    display: DisplayConfig,
    offsets: Seq<i32>,
)
    ensures
        i < sessions.len() ==> selected_detail_view(sessions, Some(i), display, offsets)
            == detail_view(
            sessions[i as int],
            display,
            time_text(sessions[i as int].timestamp, offsets[i as int]),
        ),
        i >= sessions.len() ==> selected_detail_view(sessions, Some(i), display, offsets).len()
            == 0,
        selected_detail_view(sessions, None, display, offsets).len() == 0,
{
}

/// Down and `j` move to the next result, up and `k` to the one before, the first and the
/// last result stay where they are, and any other key moves nothing.
pub proof fn lemma_keys_move_by_one(i: usize, count: usize, key: Key)
    requires
        i < count,
    ensures
        key == Key::Down || key == Key::Char('j') ==> selected_after(Some(i), count, key) == Some(
            if i + 1 < count { (i + 1) as usize } else { i },
        ),
        key == Key::Up || key == Key::Char('k') ==> selected_after(Some(i), count, key) == Some(
            if i > 0 { (i - 1) as usize } else { 0 },
        ),
        key != Key::Down && key != Key::Char('j') && key != Key::Up && key != Key::Char('k')
            ==> selected_after(Some(i), count, key) == Some(i),
{
}

/// Without results, moving selects the first place, and any other key nothing.
pub proof fn lemma_keys_without_results(key: Key)
    ensures
        key == Key::Down || key == Key::Char('j') || key == Key::Up || key == Key::Char('k') ==> {
            &&& selected_after(None, 0, key) == Some(0usize)
            &&& selected_after(Some(0), 0, key) == Some(0usize)
        },
        key != Key::Down && key != Key::Char('j') && key != Key::Up && key != Key::Char('k') ==> {
            &&& selected_after(None, 0, key) is None
            &&& selected_after(Some(0), 0, key) == Some(0usize)
        },
{
}

/// Any of the results may be selected, however many there are. Without results nothing is
/// selected, or the first place.
pub proof fn lemma_any_result_may_be_selected(browser: Browser)
    ensures
        browser.count > 0 ==> (browser.well_formed() <==> (browser.selected matches Some(i) && i
            < browser.count)),
        browser.count == 0 ==> (browser.well_formed() <==> browser.selected is None
            || browser.selected == Some(0usize)),
{
}

/// Only `q` and the escape key close the browser.
pub proof fn lemma_only_two_keys_quit(key: Key)
    ensures
        quits(key) <==> key == Key::Char('q') || key == Key::Esc,
{
}

/// The line above the results.
pub fn header_text(query: &str, count: usize) -> (s: String)
    ensures
        s@ == header_view(query@, count as int),
{
    let mut s = " recall  query: \"".to_string();
    s.append(query);
    s.append("\"  (");
    s.append(usize_text(count).as_str());
    s.append(" results)  [\u{2191}\u{2193}] navigate  [q] quit");
    s
}

fn raw(text: &str) -> (span: Span)
    ensures
        span@ == raw_view(text@),
{
    Span { text: text.to_string(), color: None, bold: false }
}

fn colored(text: &str, color: Color) -> (span: Span)
    ensures
        span@ == colored_view(text@, color),
{
    Span { text: text.to_string(), color: Some(color), bold: false }
}

fn branch_text(git_branch: &str, display: &DisplayConfig) -> (s: String)
    ensures
        s@ == branch_view(git_branch@, *display),
{
    if display.show_git_branch && !git_branch.is_empty() {
        let mut s = " [".to_string();
        s.append(git_branch);
        s.append("]");
        s
    } else {
        String::new()
    }
}

/// The two lines of a session in the result list, with `time` as its time.
pub fn item_with_time(session: &Session, display: &DisplayConfig, time: &str) -> (item: SessionItem)
    ensures
        item.shows(*session, *display, time@),
{
    let mut first: Vec<Span> = Vec::new();
    if session.exit_code == 0 {
        first.push(colored("\u{2713}", Color::Green));
    } else {
        first.push(colored("\u{2717}", Color::Red));
    }
    first.push(raw("  "));
    first.push(Span { text: session.command.clone(), color: Some(Color::White), bold: true });
    let mut second: Vec<Span> = Vec::new();
    second.push(raw("   "));
    second.push(colored(time, Color::DarkGray));
    second.push(raw("  "));
    second.push(colored(session.cwd.as_str(), Color::Blue));
    second.push(
        colored(branch_text(session.git_branch.as_str(), display).as_str(), Color::Yellow),
    );
    assert(span_views(first@) =~= first_line_view(*session));
    assert(span_views(second@) =~= second_line_view(*session, *display, time@));
    SessionItem { first, second }
}

/// The two lines of a session in the result list, where local time is `offset_secs`
/// ahead of UTC at the time that is shown.
pub fn session_item(session: &Session, display: &DisplayConfig, offset_secs: i32) -> (item:
    SessionItem)
    requires
        is_offset(offset_secs),
    ensures
        item.shows(*session, *display, time_text(session.timestamp, offset_secs)),
{
    let time = format_time(session.timestamp, offset_secs);
    item_with_time(session, display, time.as_str())
}

/// The first two lines of an output in one line, or a note where there is no output.
pub fn output_preview(stdout: &str) -> (s: String)
    ensures
        s@ == preview_view(stdout@),
{
    if stdout.is_empty() {
        return "(no output captured)".to_string();
    }
    let shown = first_lines(stdout, 2);
    join(&shown, " | ")
}

fn duration_text(duration_ms: i64, display: &DisplayConfig) -> (s: String)
    ensures
        s@ == duration_view(duration_ms, *display),
{
    if !display.show_duration {
        String::new()
    } else if duration_ms > 0 {
        let mut s = "  |  ".to_string();
        s.append(i64_text(duration_ms).as_str());
        s.append("s");
        s
    } else {
        "  |  <1s".to_string()
    }
}

/// The details of a session, with `time` as its time.
pub fn detail_with_time(session: &Session, display: &DisplayConfig, time: &str) -> (s: String)
    ensures
        s@ == detail_view(*session, *display, time@),
{
    let mut s = " ID: ".to_string();
    s.append(i64_text(session.id).as_str());
    s.append("  |  Exit: ");
    s.append(i64_text(session.exit_code).as_str());
    s.append("  |  ");
    s.append(time);
    s.append(duration_text(session.duration_ms, display).as_str());
    s.append("\n Command: ");
    s.append(session.command.as_str());
    s.append("\n Dir:     ");
    s.append(session.cwd.as_str());
    s.append("\n Output:  ");
    s.append(output_preview(session.stdout.as_str()).as_str());
    s
}

/// The details of the selected session, nothing where none is selected. Local time is
/// ahead of UTC by the offset at the same position as the session.
pub fn detail_text(
    sessions: &Vec<Session>,
    selected: Option<usize>,
    display: &DisplayConfig,
    offsets: &Vec<i32>,
) -> (s: String)
    requires
        offsets.len() == sessions.len(),
        forall|i: int| 0 <= i < offsets.len() ==> is_offset(#[trigger] offsets[i]),
    ensures
        s@ == selected_detail_view(sessions@, selected, *display, offsets@),
{
    match selected {
        Some(i) => {
            if i < sessions.len() {
                let time = format_time(sessions[i].timestamp, offsets[i]);
                detail_with_time(&sessions[i], display, time.as_str())
            } else {
                String::new()
            }
        },
        None => String::new(),
    }
}

/// Everything that the browser shows. Local time is ahead of UTC by the offset at the
/// same position as the session.
pub fn screen(
    sessions: &Vec<Session>,
    query: &str,
    display: &DisplayConfig,
    selected: Option<usize>,
    offsets: &Vec<i32>,
) -> (screen: Screen)
    requires
        offsets.len() == sessions.len(),
        forall|i: int| 0 <= i < offsets.len() ==> is_offset(#[trigger] offsets[i]),
    ensures
        screen.header@ == header_view(query@, sessions.len() as int),
        screen.items.len() == sessions.len(),
        forall|i: int|
            0 <= i < sessions.len() ==> (#[trigger] screen.items[i]).shows(
                sessions[i],
                *display,
                time_text(sessions[i].timestamp, offsets[i]),
            ),
        screen.selected == selected,
        screen.detail@ == selected_detail_view(sessions@, selected, *display, offsets@),
{
    let mut items: Vec<SessionItem> = Vec::new();
    for n in 0..sessions.len()
        invariant
            offsets.len() == sessions.len(),
            forall|i: int| 0 <= i < offsets.len() ==> is_offset(#[trigger] offsets[i]),
            items.len() == n,
            forall|i: int|
                0 <= i < n ==> (#[trigger] items[i]).shows(
                    sessions[i],
                    *display,
                    time_text(sessions[i].timestamp, offsets[i]),
                ),
    {
        items.push(session_item(&sessions[n], display, offsets[n]));
    }
    Screen {
        header: header_text(query, sessions.len()),
        items,
        selected,
        detail: detail_text(sessions, selected, display, offsets),
    }
}

impl Browser {
    /// A browser for `count` results, the first of them selected.
    pub fn new(count: usize) -> (browser: Self)
        ensures
            browser.well_formed(),
            browser.count == count,
            browser.selected == (if count > 0 { Some(0usize) } else { None }),
    {
        let selected: Option<usize> = if count > 0 {
            Some(0)
        } else {
            None
        };
        Browser { count, selected }
    }

    /// Takes a key. The result says whether the browser is to be closed.
    pub fn on_key(&mut self, key: Key) -> (quit: bool)
        requires
            old(self).well_formed(),
        ensures
            final(self).well_formed(),
            final(self).count == old(self).count,
            final(self).selected == selected_after(old(self).selected, old(self).count, key),
            quit == quits(key),
    {
        let last: usize = if self.count == 0 {
            0
        } else {
            self.count - 1
        };
        match key {
            Key::Char(c) => {
                if c == 'q' {
                    return true;
                }
                if c == 'j' {
                    self.down(last);
                } else if c == 'k' {
                    self.up();
                }
                false
            },
            Key::Esc => true,
            Key::Down => {
                self.down(last);
                false
            },
            Key::Up => {
                self.up();
                false
            },
            Key::Other => false,
        }
    }

    fn down(&mut self, last: usize)
        requires
            old(self).well_formed(),
            last == last_position(old(self).count),
        ensures
            final(self).count == old(self).count,
            final(self).selected == selected_after(old(self).selected, old(self).count, Key::Down),
    {
        self.selected = match self.selected {
            Some(i) => Some(
                if i < last {
                    i + 1
                } else {
                    last
                },
            ),
            None => Some(0),
        };
    }

    fn up(&mut self)
        ensures
            final(self).count == old(self).count,
            final(self).selected == selected_after(old(self).selected, old(self).count, Key::Up),
    {
        self.selected = match self.selected {
            Some(i) => Some(
                if i > 0 {
                    i - 1
                } else {
                    0
                },
            ),
            None => Some(0),
        };
    }
}

} // verus!
