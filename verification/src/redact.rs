//! Redaction: every match of a secret-looking pattern is replaced by a fixed marker.
use vstd::prelude::*;

use crate::text::{joined, lemma_joined_push, views};

verus! {

/// What stands in a redacted text where a match stood.
pub const MARKER: &'static str = "[REDACTED]";

/// The identifier of an AWS access key.
pub const AWS_ACCESS_KEY: &'static str = r"AKIA[0-9A-Z]{16}";

/// A GitHub token.
pub const GITHUB_TOKEN: &'static str = r"gh[pousr]_[A-Za-z0-9]{36,}";

/// A service key that begins with `sk-`.
pub const SK_KEY: &'static str = r"sk-[A-Za-z0-9]{32,}";

/// A Slack token.
pub const SLACK_TOKEN: &'static str = r"xox[bpra]-[A-Za-z0-9\-]{10,}";

/// A JSON web token.
pub const JSON_WEB_TOKEN: &'static str = r"eyJ[A-Za-z0-9_\-]+\.[A-Za-z0-9_\-]+\.[A-Za-z0-9_\-]+";

/// A value given to a name such as `password` or `token`.
pub const NAMED_SECRET: &'static str = r"(?i)(password|passwd|secret|token|api_key|apikey|auth)[\s]*[=:]+[\s]*\S+";

/// A long hexadecimal number.
pub const LONG_HEX: &'static str = r"\b[0-9a-fA-F]{32,}\b";

/// A bearer token.
pub const BEARER_TOKEN: &'static str = r"(?i)bearer\s+[A-Za-z0-9\-_\.]+";

/// Whether the regex crate compiles `pattern`, on a machine whose pointers are
/// `pointer_bits` wide.
pub uninterp spec fn regex_compiles(pattern: Seq<char>, pointer_bits: u32) -> bool;

/// Where the successive matches of `pattern` in `text` begin and end, counted in
/// characters.
pub uninterp spec fn regex_matches(pattern: Seq<char>, text: Seq<char>) -> Seq<(int, int)>;

/// The spans lie within a text of `len` characters, in order and without overlap.
pub open spec fn in_order(spans: Seq<(int, int)>, len: int) -> bool {
    &&& forall|i: int| 0 <= i < spans.len() ==> 0 <= (#[trigger] spans[i]).0 <= spans[i].1 <= len
    &&& forall|i: int, j: int|
        0 <= i < j < spans.len() ==> (#[trigger] spans[i]).1 <= (#[trigger] spans[j]).0
}

/// `text` with each of the spans replaced by `with`.
pub open spec fn spliced(text: Seq<char>, spans: Seq<(int, int)>, with: Seq<char>) -> Seq<char>
    decreases spans.len(),
{
    if spans.len() == 0 {
        text
    } else {
        let (from, to) = spans.last();
        spliced(text.take(from), spans.drop_last(), with) + with + text.skip(to)
    }
}

/// The patterns that are always applied, in order.
pub open spec fn builtin_pattern_texts() -> Seq<Seq<char>> {
    seq![
        AWS_ACCESS_KEY@,
        GITHUB_TOKEN@,
        SK_KEY@,
        SLACK_TOKEN@,
        JSON_WEB_TOKEN@,
        NAMED_SECRET@,
        LONG_HEX@,
        BEARER_TOKEN@,
    ]
}

/// One pass: the matches of `pattern` are replaced by the marker. A pattern that
/// does not compile leaves the text as it is.
pub open spec fn redacted_by_one(text: Seq<char>, pattern: Seq<char>) -> Seq<char> {
    if regex_compiles(pattern, usize::BITS) {
        spliced(text, regex_matches(pattern, text), MARKER@)
    } else {
        text
    }
}

/// One pass for each pattern, in order, each on what the one before it left.
pub open spec fn redacted_by(text: Seq<char>, patterns: Seq<Seq<char>>) -> Seq<char>
    decreases patterns.len(),
{
    if patterns.len() == 0 {
        text
    } else {
        redacted_by_one(redacted_by(text, patterns.drop_last()), patterns.last())
    }
}

/// `text` after the built-in patterns and then `extra_patterns`.
pub open spec fn redacted(text: Seq<char>, extra_patterns: Seq<Seq<char>>) -> Seq<char> {
    redacted_by(text, builtin_pattern_texts() + extra_patterns)
}

/// Applying two lists of patterns together is applying the first, then the second.
pub proof fn lemma_redaction_composes(
    text: Seq<char>,
    first: Seq<Seq<char>>,
    second: Seq<Seq<char>>,
)
    ensures
        redacted_by(text, first + second) == redacted_by(redacted_by(text, first), second),
    decreases second.len(),
{
    if second.len() == 0 {
        assert(first + second =~= first);
    } else {
        assert((first + second).drop_last() =~= first + second.drop_last());
        lemma_redaction_composes(text, first, second.drop_last());
    }
}

/// Extra patterns never weaken the built-in ones: they work on the text that the
/// built-in ones have already redacted.
pub proof fn lemma_builtin_patterns_come_first(text: Seq<char>, extra_patterns: Seq<Seq<char>>)
    ensures
        redacted(text, extra_patterns) == redacted_by(
            redacted(text, Seq::empty()),
            extra_patterns,
        ),
{
    lemma_redaction_composes(text, builtin_pattern_texts(), extra_patterns);
    assert(builtin_pattern_texts() + Seq::<Seq<char>>::empty() =~= builtin_pattern_texts());
}

/// A pattern that does not compile might as well not be in the list.
pub proof fn lemma_broken_pattern_is_skipped(
    text: Seq<char>,
    before: Seq<Seq<char>>,
    pattern: Seq<char>,
    after: Seq<Seq<char>>,
)
    requires
        !regex_compiles(pattern, usize::BITS),
    ensures
        redacted_by(text, before.push(pattern) + after) == redacted_by(text, before + after),
{
    lemma_redaction_composes(text, before.push(pattern), after);
    lemma_redaction_composes(text, before, after);
    assert(before.push(pattern).drop_last() =~= before);
}

/// A text in which none of the patterns that compile matches is left as it is.
pub proof fn lemma_clean_text_is_kept(text: Seq<char>, patterns: Seq<Seq<char>>)
    requires
        forall|i: int|
            0 <= i < patterns.len() && regex_compiles(#[trigger] patterns[i], usize::BITS)
                ==> regex_matches(patterns[i], text).len() == 0,
    ensures
        redacted_by(text, patterns) == text,
    decreases patterns.len(),
{
    if patterns.len() > 0 {
        let shorter = patterns.drop_last();
        assert forall|i: int|
            0 <= i < shorter.len() && regex_compiles(
                #[trigger] shorter[i],
                usize::BITS,
            ) implies regex_matches(shorter[i], text).len() == 0 by {
            assert(shorter[i] == patterns[i]);
        }
        lemma_clean_text_is_kept(text, shorter);
        assert(patterns[patterns.len() - 1] == patterns.last());
    }
}

/// Replacing spans keeps what lies before the first one and after the last one, and
/// puts the replacement between the two.
pub proof fn lemma_spliced_keeps_the_ends(
    text: Seq<char>,
    spans: Seq<(int, int)>,
    with: Seq<char>,
)
    requires
        in_order(spans, text.len() as int),
        spans.len() > 0,
    ensures
        (text.take(spans.first().0) + with).is_prefix_of(spliced(text, spans, with)),
        (with + text.skip(spans.last().1)).is_suffix_of(spliced(text, spans, with)),
    decreases spans.len(),
{
    let (from, to) = spans.last();
    let head = text.take(from);
    let earlier = spans.drop_last();
    let whole = spliced(text, spans, with);
    let tail = text.skip(to);
    if earlier.len() > 0 {
        assert(in_order(earlier, head.len() as int)) by {
            assert forall|i: int| 0 <= i < earlier.len() implies 0 <= (#[trigger] earlier[i]).0
                <= earlier[i].1 <= head.len() by {
                assert(earlier[i] == spans[i]);
                assert(spans[i].1 <= spans[spans.len() - 1].0);
            }
            assert forall|i: int, j: int| 0 <= i < j < earlier.len() implies (
            #[trigger] earlier[i]).1 <= (#[trigger] earlier[j]).0 by {
                assert(earlier[i] == spans[i] && earlier[j] == spans[j]);
            }
        }
        lemma_spliced_keeps_the_ends(head, earlier, with);
        let first = spans.first();
        assert(earlier.first() == first);
        assert(spans[0].1 <= spans[spans.len() - 1].0);
        assert(head.take(first.0) =~= text.take(first.0));
        let start = text.take(first.0) + with;
        let inner = spliced(head, earlier, with);
        assert(inner.subrange(0, start.len() as int) =~= start);
        assert(whole.subrange(0, start.len() as int) =~= start);
    } else {
        assert(spliced(head, earlier, with) == head);
        assert(spans.first() == spans.last());
        assert(whole.subrange(0, (head + with).len() as int) =~= head + with);
    }
    assert(whole.subrange(whole.len() - (with + tail).len(), whole.len() as int) =~= with + tail);
}

spec fn gaps(text: Seq<char>, spans: Seq<(int, int)>) -> Seq<Seq<char>> {
    Seq::new(
        spans.len() + 1,
        |i: int|
            text.subrange(
                if i == 0 { 0 } else { spans[i - 1].1 },
                if i == spans.len() { text.len() as int } else { spans[i].0 },
            ),
    )
}

proof fn lemma_spliced_is_joined_gaps(text: Seq<char>, spans: Seq<(int, int)>, with: Seq<char>)
    requires
        in_order(spans, text.len() as int),
    ensures
        spliced(text, spans, with) == joined(gaps(text, spans), with),
    decreases spans.len(),
{
    if spans.len() == 0 {
        assert(text.subrange(0, text.len() as int) =~= text);
        assert(gaps(text, spans) =~= seq![text]);
    } else {
        let (from, to) = spans.last();
        let head = text.take(from);
        let earlier = spans.drop_last();
        assert forall|i: int| 0 <= i < earlier.len() implies 0 <= (#[trigger] earlier[i]).0
            <= earlier[i].1 <= head.len() by {
            assert(earlier[i] == spans[i]);
            assert(spans[i].1 <= spans[spans.len() - 1].0);
        }
        assert forall|i: int, j: int| 0 <= i < j < earlier.len() implies (#[trigger] earlier[i]).1
            <= (#[trigger] earlier[j]).0 by {
            assert(earlier[i] == spans[i] && earlier[j] == spans[j]);
        }
        lemma_spliced_is_joined_gaps(head, earlier, with);
        let shorter = gaps(head, earlier);
        let all = gaps(text, spans);
        assert forall|i: int| 0 <= i < shorter.len() implies all[i] == shorter[i] by {
            let start = if i == 0 {
                0
            } else {
                spans[i - 1].1
            };
            if i > 0 {
                assert(earlier[i - 1] == spans[i - 1]);
                assert(0 <= spans[i - 1].0 <= spans[i - 1].1);
                assert(spans[i - 1].1 <= spans[spans.len() - 1].0);
            }
            if i < earlier.len() {
                assert(earlier[i] == spans[i]);
                assert(spans[i].0 <= spans[i].1 <= spans[spans.len() - 1].0);
                assert(head.subrange(start, spans[i].0) =~= text.subrange(start, spans[i].0));
            } else {
                assert(spans[i] == spans.last());
                assert(head.subrange(start, from) =~= text.subrange(start, from));
            }
        }
        assert(spans[spans.len() - 1] == spans.last());
        assert(all.last() =~= text.skip(to));
        assert(all =~= shorter.push(text.skip(to)));
        lemma_joined_push(shorter, with, text.skip(to));
    }
}

/// One pass keeps everything between the matches of the pattern, before the first and
/// after the last, whatever the text holds, and puts the marker where each match was.
/// Without a match, or with a pattern that does not compile, the text stays as it is.
pub proof fn lemma_pass_replaces_exactly_the_matches(text: Seq<char>, pattern: Seq<char>)
    requires
        ({
            let at = regex_matches(pattern, text);
            &&& forall|i: int|
                0 <= i < at.len() ==> 0 <= (#[trigger] at[i]).0 <= at[i].1 <= text.len()
            &&& forall|i: int, j: int|
                0 <= i < j < at.len() ==> (#[trigger] at[i]).1 <= (#[trigger] at[j]).0
        }),
    ensures
        ({
            let at = regex_matches(pattern, text);
            redacted_by(text, seq![pattern]) == (if regex_compiles(pattern, usize::BITS) {
                joined(
                    Seq::new(
                        at.len() + 1,
                        |i: int|
                            text.subrange(
                                if i == 0 { 0 } else { at[i - 1].1 },
                                if i == at.len() { text.len() as int } else { at[i].0 },
                            ),
                    ),
                    "[REDACTED]"@,
                )
            } else {
                text
            })
        }),
{
    let at = regex_matches(pattern, text);
    assert(seq![pattern].drop_last() =~= Seq::<Seq<char>>::empty());
    reveal_with_fuel(redacted_by, 2);
    lemma_spliced_is_joined_gaps(text, at, MARKER@);
    assert(gaps(text, at) =~= Seq::new(
        at.len() + 1,
        |i: int|
            text.subrange(
                if i == 0 { 0 } else { at[i - 1].1 },
                if i == at.len() { text.len() as int } else { at[i].0 },
            ),
    ));
}

/// Whatever the text is, redacting it without extra patterns is one pass for each of
/// these eight patterns, in this order.
pub proof fn lemma_every_text_is_redacted_by_the_builtin_patterns(text: Seq<char>)
    ensures
        redacted(text, Seq::empty()) == redacted_by(text, builtin_pattern_texts()),
        builtin_pattern_texts() == seq![
            r"AKIA[0-9A-Z]{16}"@,
            r"gh[pousr]_[A-Za-z0-9]{36,}"@,
            r"sk-[A-Za-z0-9]{32,}"@,
            r"xox[bpra]-[A-Za-z0-9\-]{10,}"@,
            r"eyJ[A-Za-z0-9_\-]+\.[A-Za-z0-9_\-]+\.[A-Za-z0-9_\-]+"@,
            r"(?i)(password|passwd|secret|token|api_key|apikey|auth)[\s]*[=:]+[\s]*\S+"@,
            r"\b[0-9a-fA-F]{32,}\b"@,
            r"(?i)bearer\s+[A-Za-z0-9\-_\.]+"@,
        ],
{
    assert(builtin_pattern_texts() + Seq::<Seq<char>>::empty() =~= builtin_pattern_texts());
}

/// Whatever the text is, one more extra pattern is one more pass over what the others
/// left.
pub proof fn lemma_every_extra_pattern_is_one_more_pass(
    text: Seq<char>,
    extra_patterns: Seq<Seq<char>>,
    pattern: Seq<char>,
)
    ensures
        redacted(text, extra_patterns.push(pattern)) == redacted_by(
            redacted(text, extra_patterns),
            seq![pattern],
        ),
        redacted_by(text, Seq::empty()) == text,
{
    let before = builtin_pattern_texts() + extra_patterns;
    assert(builtin_pattern_texts() + extra_patterns.push(pattern) =~= before + seq![pattern]);
    lemma_redaction_composes(text, before, seq![pattern]);
}

/// `Regex::new` compiles the pattern and `Regex::replace_all` replaces its matches.
///
/// Claimed: whether the pattern compiles depends on the pattern and on the width of
/// a pointer alone (the size limit of a compiled pattern counts bytes of memory).
/// Where it does, each of the successive, non-overlapping matches in the text is
/// replaced by `with` and the rest of the text is kept. A replacement that holds no
/// dollar sign is put in as it is. Where the matches lie is not said.
#[verifier::external_body]
fn regex_replace_all(pattern: &str, text: &str, with: &str) -> (replaced: Option<String>)
    requires
        !with@.contains('$'),
    ensures
        replaced is Some <==> regex_compiles(pattern@, usize::BITS),
        replaced matches Some(t) ==> in_order(
            regex_matches(pattern@, text@),
            text@.len() as int,
        ) && t@ == spliced(text@, regex_matches(pattern@, text@), with@),
{
    match regex::Regex::new(pattern) {
        Ok(compiled) => Some(compiled.replace_all(text, with).into_owned()),
        Err(_) => None,
    }
}

/// The patterns that are always applied, in order.
pub fn builtin_patterns() -> (patterns: Vec<String>)
    ensures
        views(patterns@) == builtin_pattern_texts(),
{
    let mut patterns: Vec<String> = Vec::new();
    patterns.push(AWS_ACCESS_KEY.to_string());
    patterns.push(GITHUB_TOKEN.to_string());
    patterns.push(SK_KEY.to_string());
    patterns.push(SLACK_TOKEN.to_string());
    patterns.push(JSON_WEB_TOKEN.to_string());
    patterns.push(NAMED_SECRET.to_string());
    patterns.push(LONG_HEX.to_string());
    patterns.push(BEARER_TOKEN.to_string());
    assert(views(patterns@) =~= builtin_pattern_texts());
    patterns
}

/// The text after one pass: what the replacement gave, or the text as it was where
/// the pattern did not compile.
pub fn after_pass(text: String, replaced: Option<String>) -> (next: String)
    ensures
        next@ == (match replaced {
            Some(t) => t@,
            None => text@,
        }),
{
    match replaced {
        Some(t) => t,
        None => text,
    }
}

/// Replaces every match of the built-in patterns, then of `extra_patterns`, by the
/// marker. Patterns that do not compile are skipped.
pub fn redact(text: &str, extra_patterns: &Vec<String>) -> (result: String)
    ensures
        result@ == redacted(text@, views(extra_patterns@)),
{
    let mut patterns = builtin_patterns();
    let ghost builtin = views(patterns@);
    for i in 0..extra_patterns.len()
        invariant
            views(patterns@) == builtin + views(extra_patterns@).take(i as int),
    {
        let ghost before = views(patterns@);
        let ghost extra = views(extra_patterns@);
        patterns.push(extra_patterns[i].clone());
        assert(views(patterns@) =~= before.push(extra[i as int]));
        assert(extra.take(i + 1) =~= extra.take(i as int).push(extra[i as int]));
    }
    let ghost all = views(patterns@);
    assert(all =~= builtin_pattern_texts() + views(extra_patterns@));
    let mut result = text.to_string();
    for i in 0..patterns.len()
        invariant
            all == views(patterns@),
            result@ == redacted_by(text@, all.take(i as int)),
    {
        proof {
            reveal_strlit("[REDACTED]");
            assert(all.take(i + 1).drop_last() =~= all.take(i as int));
        }
        let replaced = regex_replace_all(patterns[i].as_str(), result.as_str(), MARKER);
        result = after_pass(result, replaced);
    }
    assert(all.take(patterns.len() as int) =~= all);
    result
}

} // verus!
