//! The command line.
use vstd::prelude::*;

use crate::capture::{arg, arg_number, arg_number_or_zero, arg_or_empty};
use crate::number::{decimal, lemma_decimal_is_read_back, spelled_i64};
use crate::text::{
    contains_text, join, joined, lemma_joined_push, same_text, starts_with, views,
};

verus! {

/// What a search on the command line asks for.
#[derive(Debug)]
pub struct SearchArgs {
    pub failed_only: bool,
    pub today_only: bool,
    pub semantic: bool,
    pub query: String,
}

/// What the command line asks for.
#[derive(Debug)]
pub enum Command {
    Capture,
    Replay(i64),
    ReplayUsage,
    Index,
    Search(SearchArgs),
}

/// What a command line amounts to.
pub enum CommandView {
    Capture,
    Replay(i64),
    ReplayUsage,
    Index,
    Search { failed_only: bool, today_only: bool, semantic: bool, query: Seq<char> },
}

impl View for Command {
    type V = CommandView;

    open spec fn view(&self) -> CommandView {
        match self {
            Command::Capture => CommandView::Capture,
            Command::Replay(id) => CommandView::Replay(*id),
            Command::ReplayUsage => CommandView::ReplayUsage,
            Command::Index => CommandView::Index,
            Command::Search(s) => CommandView::Search {
                failed_only: s.failed_only,
                today_only: s.today_only,
                semantic: s.semantic,
                query: s.query@,
            },
        }
    }
}

/// What to do with the results of a search.
#[derive(Debug)]
pub enum AfterSearch {
    /// There is nothing to show but this message.
    Say(String),
    /// The results are shown.
    Browse,
}

/// The arguments that are not options, in order.
pub open spec fn plain_words(args: Seq<Seq<char>>) -> Seq<Seq<char>>
    decreases args.len(),
{
    if args.len() == 0 {
        Seq::empty()
    } else if "--"@.is_prefix_of(args.last()) {
        plain_words(args.drop_last())
    } else {
        plain_words(args.drop_last()).push(args.last())
    }
}

/// The words of a query with a space between them. Without words everything is looked for.
pub open spec fn query_text(words: Seq<Seq<char>>) -> Seq<char> {
    if words.len() == 0 {
        "%"@
    } else {
        joined(words, " "@)
    }
}

/// What the command line asks for. The first argument is the program's own name.
pub open spec fn command_view(args: Seq<Seq<char>>) -> CommandView {
    if arg(args, 1) == "capture"@ {
        CommandView::Capture
    } else if arg(args, 1) == "replay"@ {
        if arg_number(args, 2) == 0 {
            CommandView::ReplayUsage
        } else {
            CommandView::Replay(arg_number(args, 2))
        }
    } else if arg(args, 1) == "index"@ {
        CommandView::Index
    } else {
        CommandView::Search {
            failed_only: args.contains("--failed"@),
            today_only: args.contains("--today"@),
            semantic: args.contains("--semantic"@),
            query: query_text(plain_words(args.skip(1))),
        }
    }
}

/// The message for a search without results.
pub open spec fn no_results_view(query: Seq<char>) -> Seq<char> {
    "No results for '"@ + query + "'"@
}

/// The identifier that the details of a session show replays that session.
pub proof fn lemma_shown_id_can_be_replayed(program: Seq<char>, id: i64)
    requires
        id != 0,
    ensures
        command_view(seq![program, "replay"@, decimal(id as int)]) == CommandView::Replay(id),
{
    reveal_strlit("replay");
    reveal_strlit("capture");
    lemma_decimal_is_read_back(id);
    let args = seq![program, "replay"@, decimal(id as int)];
    assert("replay"@.len() != "capture"@.len());
    assert(arg(args, 2) == decimal(id as int));
}

/// No option becomes part of a query, and every other argument does.
pub proof fn lemma_query_is_made_of_the_other_words(args: Seq<Seq<char>>, word: Seq<char>)
    ensures
        plain_words(args).contains(word) <==> args.contains(word) && !"--"@.is_prefix_of(word),
    decreases args.len(),
{
    if args.len() > 0 {
        let shorter = args.drop_last();
        let rest = plain_words(shorter);
        let all = plain_words(args);
        lemma_query_is_made_of_the_other_words(shorter, word);
        if all.contains(word) {
            let k = choose|k: int| 0 <= k < all.len() && all[k] == word;
            if k < rest.len() {
                assert(rest[k] == word);
                assert(shorter.contains(word));
                let p = choose|p: int| 0 <= p < shorter.len() && shorter[p] == word;
                assert(args[p] == word);
            } else {
                assert(args[args.len() - 1] == word);
            }
        }
        if args.contains(word) && !"--"@.is_prefix_of(word) {
            let p = choose|p: int| 0 <= p < args.len() && args[p] == word;
            if p < shorter.len() {
                assert(shorter[p] == word);
                assert(rest.contains(word));
                let k = choose|k: int| 0 <= k < rest.len() && rest[k] == word;
                assert(all[k] == word);
            } else {
                assert(all[all.len() - 1] == word);
            }
        }
    }
}

/// Adding an option to a search does not change what is looked for.
pub proof fn lemma_options_leave_the_query_alone(
    before: Seq<Seq<char>>,
    option: Seq<char>,
    after: Seq<Seq<char>>,
)
    requires
        "--"@.is_prefix_of(option),
    ensures
        plain_words(before.push(option) + after) == plain_words(before + after),
    decreases after.len(),
{
    if after.len() == 0 {
        assert(before.push(option) + after =~= before.push(option));
        assert(before.push(option).drop_last() =~= before);
        assert(before + after =~= before);
    } else {
        assert((before.push(option) + after).drop_last() =~= before.push(option)
            + after.drop_last());
        assert((before + after).drop_last() =~= before + after.drop_last());
        lemma_options_leave_the_query_alone(before, option, after.drop_last());
    }
}

/// The words of a command line are those of its parts, one part after the other.
pub proof fn lemma_words_of_two_parts(first: Seq<Seq<char>>, second: Seq<Seq<char>>)
    ensures
        plain_words(first + second) == plain_words(first) + plain_words(second),
    decreases second.len(),
{
    if second.len() == 0 {
        assert(first + second =~= first);
        assert(plain_words(first) + plain_words(second) =~= plain_words(first));
    } else {
        let shorter = second.drop_last();
        assert((first + second).drop_last() =~= first + shorter);
        lemma_words_of_two_parts(first, shorter);
        assert(plain_words(first + second) =~= plain_words(first) + plain_words(second));
    }
}

/// Of a single argument, an option gives no word and anything else is the word itself.
pub proof fn lemma_words_of_one_argument(word: Seq<char>)
    ensures
        plain_words(Seq::empty()) == Seq::<Seq<char>>::empty(),
        word.len() >= 2 && word[0] == '-' && word[1] == '-' ==> plain_words(seq![word]).len() == 0,
        !(word.len() >= 2 && word[0] == '-' && word[1] == '-') ==> plain_words(seq![word])
            == seq![word],
{
    reveal_strlit("--");
    reveal_with_fuel(plain_words, 2);
    assert(seq![word].drop_last() =~= Seq::<Seq<char>>::empty());
    if word.len() >= 2 && word[0] == '-' && word[1] == '-' {
        assert(word.subrange(0, 2) =~= "--"@);
    } else if "--"@.is_prefix_of(word) {
        assert(word.subrange(0, 2)[0] == '-' && word.subrange(0, 2)[1] == '-');
    } else {
        assert(plain_words(seq![word]) =~= seq![word]);
    }
}

/// Every word at the end of a command line that has a word already is added to the query
/// behind a space.
pub proof fn lemma_every_further_word_extends_the_query(args: Seq<Seq<char>>, word: Seq<char>)
    requires
        plain_words(args).len() > 0,
        !(word.len() >= 2 && word[0] == '-' && word[1] == '-'),
    ensures
        query_text(plain_words(args.push(word))) == query_text(plain_words(args)) + seq![' '] + word,
{
    reveal_strlit(" ");
    lemma_words_of_one_argument(word);
    lemma_words_of_two_parts(args, seq![word]);
    assert(args + seq![word] =~= args.push(word));
    let words = plain_words(args);
    assert(words + seq![word] =~= words.push(word));
    lemma_joined_push(words, " "@, word);
    assert(" "@ =~= seq![' ']);
}

/// A single word is the query itself, and without words everything is looked for.
pub proof fn lemma_query_of_few_words(word: Seq<char>)
    ensures
        query_text(seq![word]) == word,
        query_text(Seq::empty()) == seq!['%'],
{
    reveal_strlit("%");
    assert("%"@ =~= seq!['%']);
}

/// The first argument decides what is done: only the words `capture`, `replay` and
/// `index` are not a search.
pub proof fn lemma_first_argument_decides(args: Seq<Seq<char>>)
    ensures
        command_view(args) is Capture <==> args.len() > 1 && args[1] == "capture"@,
        command_view(args) is Index <==> args.len() > 1 && args[1] == "index"@,
        command_view(args) is Replay || command_view(args) is ReplayUsage <==> args.len() > 1
            && args[1] == "replay"@,
{
    reveal_strlit("capture");
    reveal_strlit("replay");
    reveal_strlit("index");
    assert("capture"@.len() == 7 && "replay"@.len() == 6 && "index"@.len() == 5);
}

/// A replay is of the session whose identifier the second argument spells. Only where it
/// spells none, or zero, is the usage shown.
pub proof fn lemma_second_argument_is_the_identifier(args: Seq<Seq<char>>, id: i64)
    requires
        args.len() > 1,
        args[1] == "replay"@,
    ensures
        command_view(args) == CommandView::Replay(id) <==> args.len() > 2 && spelled_i64(args[2])
            == Some(id) && id != 0,
        command_view(args) is ReplayUsage <==> args.len() <= 2 || spelled_i64(args[2]) is None
            || spelled_i64(args[2]) == Some(0i64),
{
    lemma_first_argument_decides(args);
    if args.len() <= 2 {
        assert(arg(args, 2) == Seq::<char>::empty());
    }
}

/// In a search, each option counts exactly if it is one of the arguments, wherever it
/// stands, and the query is made of the arguments after the program's name.
pub proof fn lemma_options_count_wherever_they_stand(args: Seq<Seq<char>>)
    requires
        command_view(args) is Search,
    ensures
        command_view(args)->failed_only <==> exists|i: int|
            0 <= i < args.len() && #[trigger] args[i] == "--failed"@,
        command_view(args)->today_only <==> exists|i: int|
            0 <= i < args.len() && #[trigger] args[i] == "--today"@,
        command_view(args)->semantic <==> exists|i: int|
            0 <= i < args.len() && #[trigger] args[i] == "--semantic"@,
        command_view(args)->query == query_text(plain_words(args.skip(1))),
{
}

/// Commands are seen as they are.
pub proof fn lemma_views_of_commands(id: i64, search: SearchArgs)
    ensures
        (Command::Capture)@ == CommandView::Capture,
        (Command::Replay(id))@ == CommandView::Replay(id),
        (Command::ReplayUsage)@ == CommandView::ReplayUsage,
        (Command::Index)@ == CommandView::Index,
        (Command::Search(search))@ == (CommandView::Search {
            failed_only: search.failed_only,
            today_only: search.today_only,
            semantic: search.semantic,
            query: search.query@,
        }),
{
}

/// The message for a search without results quotes the query.
pub proof fn lemma_no_results_message_quotes_the_query(query: Seq<char>)
    ensures
        no_results_view(query) == "No results for '"@ + query + "'"@,
{
}

/// The query that the arguments after the program's name spell.
pub fn query_of(args: &Vec<String>) -> (query: String)
    requires
        args.len() > 0,
    ensures
        query@ == query_text(plain_words(views(args@).skip(1))),
{
    let mut words: Vec<String> = Vec::new();
    let ghost rest = views(args@).skip(1);
    for i in 1..args.len()
        invariant
            rest == views(args@).skip(1),
            views(words@) == plain_words(rest.take(i - 1)),
    {
        let ghost before = views(words@);
        assert(rest.take(i as int).drop_last() =~= rest.take(i - 1));
        assert(rest.take(i as int).last() == args[i as int]@);
        if !starts_with(args[i].as_str(), "--") {
            words.push(args[i].clone());
            assert(views(words@) =~= before.push(args[i as int]@));
        }
    }
    assert(rest.take(args.len() - 1) =~= rest);
    if words.len() == 0 {
        "%".to_string()
    } else {
        join(&words, " ")
    }
}

/// Reads the command line. The first argument is the program's own name.
pub fn parse_args(args: &Vec<String>) -> (command: Command)
    requires
        args.len() > 0,
    ensures
        command@ == command_view(views(args@)),
{
    let first = arg_or_empty(args, 1);
    if same_text(first.as_str(), "capture") {
        return Command::Capture;
    }
    if same_text(first.as_str(), "replay") {
        let id: i64 = arg_number_or_zero(args, 2);
        return if id == 0 {
            Command::ReplayUsage
        } else {
            Command::Replay(id)
        };
    }
    if same_text(first.as_str(), "index") {
        return Command::Index;
    }
    Command::Search(
        SearchArgs {
            failed_only: contains_text(args, "--failed"),
            today_only: contains_text(args, "--today"),
            semantic: contains_text(args, "--semantic"),
            query: query_of(args),
        },
    )
}

/// What to do when a search for `query` has given `count` results.
pub fn after_search(count: usize, query: &str) -> (next: AfterSearch)
    ensures
        next is Browse <==> count > 0,
        next matches AfterSearch::Say(s) ==> s@ == no_results_view(query@),
{
    if count > 0 {
        return AfterSearch::Browse;
    }
    let mut s = "No results for '".to_string();
    s.append(query);
    s.append("'");
    AfterSearch::Say(s)
}

} // verus!
