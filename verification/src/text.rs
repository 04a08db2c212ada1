//! Text helpers with exact contracts: prefixes, joining, trimming and line splitting.
//!
//! A string is modelled by the sequence of its characters.
use vstd::prelude::*;

verus! {

/// What a list of strings holds, each as a sequence of characters.
pub open spec fn views(list: Seq<String>) -> Seq<Seq<char>> {
    list.map_values(|s: String| s@)
}

/// Whether text `a` comes before text `b` in the order of strings: at the first place
/// where they differ it holds the smaller character, or it ends there.
pub open spec fn text_before(a: Seq<char>, b: Seq<char>) -> bool {
    ||| exists|k: int|
        0 <= k < a.len() && k < b.len() && a.take(k) == b.take(k) && #[trigger] a[k] < b[k]
    ||| a.len() < b.len() && a == b.take(a.len() as int)
}

/// The words in order, with `sep` between each two neighbours.
pub open spec fn joined(words: Seq<Seq<char>>, sep: Seq<char>) -> Seq<char>
    decreases words.len(),
{
    if words.len() == 0 {
        Seq::empty()
    } else if words.len() == 1 {
        words[0]
    } else {
        words[0] + sep + joined(words.drop_first(), sep)
    }
}

/// The characters that Unicode gives the `White_Space` property.
pub open spec fn is_white_space(c: char) -> bool {
    ||| '\u{9}' <= c <= '\u{d}'
    ||| c == ' '
    ||| c == '\u{85}'
    ||| c == '\u{a0}'
    ||| c == '\u{1680}'
    ||| '\u{2000}' <= c <= '\u{200a}'
    ||| c == '\u{2028}'
    ||| c == '\u{2029}'
    ||| c == '\u{202f}'
    ||| c == '\u{205f}'
    ||| c == '\u{3000}'
}

/// `s` without its leading white space.
pub open spec fn trimmed_start(s: Seq<char>) -> Seq<char>
    decreases s.len(),
{
    if s.len() > 0 && is_white_space(s.first()) {
        trimmed_start(s.drop_first())
    } else {
        s
    }
}

/// `s` without its trailing white space.
pub open spec fn trimmed_end(s: Seq<char>) -> Seq<char>
    decreases s.len(),
{
    if s.len() > 0 && is_white_space(s.last()) {
        trimmed_end(s.drop_last())
    } else {
        s
    }
}

/// `s` without white space at either end.
pub open spec fn trimmed(s: Seq<char>) -> Seq<char> {
    trimmed_end(trimmed_start(s))
}

/// The position of the first line feed, or the length where there is none.
pub open spec fn line_end(s: Seq<char>) -> int
    decreases s.len(),
{
    if s.len() == 0 || s.first() == '\n' {
        0
    } else {
        1 + line_end(s.drop_first())
    }
}

/// `line` without the carriage return that ends it, if one does.
pub open spec fn without_carriage_return(line: Seq<char>) -> Seq<char> {
    if line.len() > 0 && line.last() == '\r' {
        line.drop_last()
    } else {
        line
    }
}

/// The lines of `s`. A line ends at a line feed, or at a carriage return followed
/// by a line feed; neither is part of the line. The last line needs no ending.
pub open spec fn lines(s: Seq<char>) -> Seq<Seq<char>>
    decreases s.len(),
    via lines_decreases
{
    let end = line_end(s);
    if s.len() == 0 {
        Seq::empty()
    } else if end >= s.len() {
        seq![s]
    } else {
        seq![without_carriage_return(s.take(end))] + lines(s.skip(end + 1))
    }
}

#[via_fn]
proof fn lines_decreases(s: Seq<char>) {
    lemma_line_end(s);
}

/// `line_end` is the first position that holds a line feed.
pub proof fn lemma_line_end(s: Seq<char>)
    ensures
        0 <= line_end(s) <= s.len(),
        forall|i: int| 0 <= i < line_end(s) ==> s[i] != '\n',
        line_end(s) < s.len() ==> s[line_end(s)] == '\n',
    decreases s.len(),
{
    if s.len() > 0 && s.first() != '\n' {
        let rest = s.drop_first();
        lemma_line_end(rest);
        assert forall|i: int| 0 <= i < line_end(s) implies s[i] != '\n' by {
            if i > 0 {
                assert(rest[i - 1] == s[i]);
            }
        }
    }
}

/// No line holds a line feed.
pub proof fn lemma_lines_hold_no_line_feed(s: Seq<char>, n: int, i: int)
    requires
        0 <= n < lines(s).len(),
        0 <= i < lines(s)[n].len(),
    ensures
        lines(s)[n][i] != '\n',
    decreases s.len(),
{
    lemma_line_end(s);
    let end = line_end(s);
    if end < s.len() && n > 0 {
        lemma_lines_hold_no_line_feed(s.skip(end + 1), n - 1, i);
    }
}

/// No text comes before itself.
pub proof fn lemma_text_before_is_strict(a: Seq<char>, b: Seq<char>)
    requires
        text_before(a, b),
    ensures
        a != b,
{
}

/// Where two texts begin with parts of the same length, those parts decide.
pub proof fn lemma_text_before_by_head(
    a: Seq<char>,
    b: Seq<char>,
    rest_a: Seq<char>,
    rest_b: Seq<char>,
)
    requires
        a.len() == b.len(),
        text_before(a, b),
    ensures
        text_before(a + rest_a, b + rest_b),
{
    let k = choose|k: int|
        0 <= k < a.len() && k < b.len() && a.take(k) == b.take(k) && #[trigger] a[k] < b[k];
    let whole_a = a + rest_a;
    let whole_b = b + rest_b;
    assert(whole_a.take(k) =~= a.take(k));
    assert(whole_b.take(k) =~= b.take(k));
    assert(whole_a[k] < whole_b[k]);
}

/// Where two texts of the same length begin alike, what follows decides.
pub proof fn lemma_text_before_by_tail(head: Seq<char>, a: Seq<char>, b: Seq<char>)
    requires
        a.len() == b.len(),
        text_before(a, b),
    ensures
        text_before(head + a, head + b),
{
    let k = choose|k: int|
        0 <= k < a.len() && k < b.len() && a.take(k) == b.take(k) && #[trigger] a[k] < b[k];
    let whole_a = head + a;
    let whole_b = head + b;
    let at = head.len() + k;
    assert(whole_a.take(at) =~= head + a.take(k));
    assert(whole_b.take(at) =~= head + b.take(k));
    assert(whole_a[at] < whole_b[at]);
}

/// Joining one more word appends the separator and that word.
pub proof fn lemma_joined_push(words: Seq<Seq<char>>, sep: Seq<char>, word: Seq<char>)
    requires
        words.len() > 0,
    ensures
        joined(words.push(word), sep) == joined(words, sep) + sep + word,
    decreases words.len(),
{
    reveal_with_fuel(joined, 2);
    let all = words.push(word);
    if words.len() == 1 {
        assert(all.drop_first() =~= seq![word]);
    } else {
        let rest = words.drop_first();
        assert(all.drop_first() =~= rest.push(word));
        lemma_joined_push(rest, sep, word);
        assert(joined(all, sep) =~= joined(words, sep) + sep + word);
    }
}

/// These characters are white space and no others, by their code points.
pub proof fn lemma_white_space_by_code_point(c: char)
    ensures
        is_white_space(c) <==> {
            ||| 9 <= c as int <= 13
            ||| c as int == 32
            ||| c as int == 133
            ||| c as int == 160
            ||| c as int == 5760
            ||| 8192 <= c as int <= 8202
            ||| c as int == 8232
            ||| c as int == 8233
            ||| c as int == 8239
            ||| c as int == 8287
            ||| c as int == 12288
        },
{
}

/// A list is seen string by string: none is left out, added or moved.
pub proof fn lemma_views_show_every_string(list: Seq<String>)
    ensures
        views(list).len() == list.len(),
        forall|i: int| 0 <= i < list.len() ==> #[trigger] views(list)[i] == list[i]@,
{
}

/// Nothing joined is nothing, and a single word is joined to itself.
pub proof fn lemma_joined_of_few_words(word: Seq<char>, sep: Seq<char>)
    ensures
        joined(Seq::empty(), sep) == Seq::<char>::empty(),
        joined(seq![word], sep) == word,
{
}

/// Joining two lists of words that are not empty puts one separator between the two.
pub proof fn lemma_joined_lists(
    first: Seq<Seq<char>>,
    second: Seq<Seq<char>>,
    sep: Seq<char>,
)
    requires
        first.len() > 0,
        second.len() > 0,
    ensures
        joined(first + second, sep) == joined(first, sep) + sep + joined(second, sep),
    decreases second.len(),
{
    let shorter = second.drop_last();
    assert(first + second =~= (first + shorter).push(second.last()));
    assert(second =~= shorter.push(second.last()));
    lemma_joined_push(first + shorter, sep, second.last());
    if shorter.len() == 0 {
        assert(first + shorter =~= first);
        assert(second =~= seq![second.last()]);
    } else {
        lemma_joined_lists(first, shorter, sep);
        lemma_joined_push(shorter, sep, second.last());
        assert(joined(first + second, sep) =~= joined(first, sep) + sep + joined(second, sep));
    }
}

/// A text without a line feed is one line, unless it is empty: then it has none.
pub proof fn lemma_text_without_line_feed_is_one_line(s: Seq<char>)
    requires
        !s.contains('\n'),
    ensures
        lines(s) == (if s.len() == 0 { Seq::empty() } else { seq![s] }),
{
    lemma_line_end(s);
    if s.len() > 0 && line_end(s) < s.len() {
        assert(s.contains(s[line_end(s)]));
    }
}

/// A line feed ends a line, together with a carriage return before it, and the lines of
/// what follows come after that line.
pub proof fn lemma_line_feed_ends_a_line(line: Seq<char>, rest: Seq<char>)
    requires
        !line.contains('\n'),
    ensures
        lines(line.push('\n') + rest) == seq![
            if line.len() > 0 && line.last() == '\r' {
                line.take(line.len() - 1)
            } else {
                line
            },
        ] + lines(rest),
{
    let s = line.push('\n') + rest;
    lemma_line_end(s);
    let end = line_end(s);
    assert(s[line.len() as int] == '\n');
    assert(end == line.len()) by {
        if end < line.len() {
            assert(s[end] == line[end]);
            assert(line.contains(line[end]));
        }
    }
    assert(s.take(end) =~= line);
    assert(s.skip(end + 1) =~= rest);
    if line.len() > 0 {
        assert(line.drop_last() =~= line.take(line.len() - 1));
    }
}

/// Trimming takes white space off both ends and nothing else: what is left neither
/// begins nor ends with white space, and what was taken off is white space alone.
pub proof fn lemma_trimmed(s: Seq<char>) -> (at: (int, int))
    ensures
        0 <= at.0 <= at.1 <= s.len(),
        trimmed(s) == s.subrange(at.0, at.1),
        forall|i: int| 0 <= i < at.0 ==> is_white_space(s[i]),
        forall|i: int| at.1 <= i < s.len() ==> is_white_space(s[i]),
        trimmed(s).len() > 0 ==> !is_white_space(trimmed(s).first()) && !is_white_space(
            trimmed(s).last(),
        ),
{
    let from = lemma_trimmed_start(s);
    let tail = trimmed_start(s);
    let kept = lemma_trimmed_end(tail);
    assert forall|i: int| from + kept <= i < s.len() implies is_white_space(s[i]) by {
        assert(tail[i - from] == s[i]);
    }
    assert(trimmed(s) =~= s.subrange(from, from + kept));
    assert(trimmed(s).len() > 0 ==> trimmed(s).first() == tail.first());
    (from, from + kept)
}

/// Trimming a second time changes nothing.
pub proof fn lemma_trimmed_twice(s: Seq<char>)
    ensures
        trimmed(trimmed(s)) == trimmed(s),
{
    let at = lemma_trimmed(s);
}

proof fn lemma_trimmed_start(s: Seq<char>) -> (from: int)
    ensures
        0 <= from <= s.len(),
        trimmed_start(s) == s.skip(from),
        forall|i: int| 0 <= i < from ==> is_white_space(s[i]),
        from < s.len() ==> !is_white_space(s[from]),
    decreases s.len(),
{
    if s.len() > 0 && is_white_space(s.first()) {
        let rest = s.drop_first();
        let from = lemma_trimmed_start(rest);
        assert forall|i: int| 0 <= i < from + 1 implies is_white_space(s[i]) by {
            if i > 0 {
                assert(rest[i - 1] == s[i]);
            }
        }
        assert(rest.skip(from) =~= s.skip(from + 1));
        from + 1
    } else {
        assert(s.skip(0) =~= s);
        0
    }
}

proof fn lemma_trimmed_end(s: Seq<char>) -> (kept: int)
    ensures
        0 <= kept <= s.len(),
        trimmed_end(s) == s.take(kept),
        forall|i: int| kept <= i < s.len() ==> is_white_space(s[i]),
        kept > 0 ==> !is_white_space(s[kept - 1]),
    decreases s.len(),
{
    if s.len() > 0 && is_white_space(s.last()) {
        let rest = s.drop_last();
        let kept = lemma_trimmed_end(rest);
        assert forall|i: int| kept <= i < s.len() implies is_white_space(s[i]) by {
            if i < rest.len() {
                assert(rest[i] == s[i]);
            }
        }
        assert(rest.take(kept) =~= s.take(kept));
        kept
    } else {
        assert(s.take(s.len() as int) =~= s);
        s.len() as int
    }
}

/// `String::push` appends one character to the end of a string.
pub assume_specification[ String::push ](s: &mut String, c: char)
    ensures
        final(s)@ == old(s)@.push(c),
;

/// Copies the characters of `s` out into a vector.
pub fn chars_of(s: &str) -> (v: Vec<char>)
    ensures
        v@ == s@,
{
    let mut v: Vec<char> = Vec::new();
    for c in it: s.chars()
        invariant
            v@ == s@.take(it.index() as int),
            it.seq() == s@,
    {
        v.push(c);
    }
    v
}

/// The string made of the characters from position `from` up to position `to`.
pub fn string_of(v: &Vec<char>, from: usize, to: usize) -> (s: String)
    requires
        from <= to <= v.len(),
    ensures
        s@ == v@.subrange(from as int, to as int),
{
    let mut s = String::new();
    for i in from..to
        invariant
            from <= to <= v.len(),
            s@ == v@.subrange(from as int, i as int),
    {
        s.push(v[i]);
    }
    s
}

/// Whether `s` begins with `p`.
pub fn starts_with(s: &str, p: &str) -> (b: bool)
    ensures
        b == p@.is_prefix_of(s@),
{
    let whole = chars_of(s);
    let part = chars_of(p);
    if part.len() > whole.len() {
        return false;
    }
    for i in 0..part.len()
        invariant
            whole@ == s@,
            part@ == p@,
            part.len() <= whole.len(),
            forall|k: int| 0 <= k < i ==> part[k] == whole[k],
    {
        if whole[i] != part[i] {
            return false;
        }
    }
    true
}

/// Whether the two strings hold the same characters.
pub fn same_text(a: &str, b: &str) -> (same: bool)
    ensures
        same == (a@ == b@),
{
    a.to_string() == b.to_string()
}

/// Whether one of the strings in `list` is `wanted`.
pub fn contains_text(list: &Vec<String>, wanted: &str) -> (found: bool)
    ensures
        found == views(list@).contains(wanted@),
{
    for i in 0..list.len()
        invariant
            forall|k: int| 0 <= k < i ==> list[k]@ != wanted@,
    {
        if same_text(list[i].as_str(), wanted) {
            assert(views(list@)[i as int] == wanted@);
            return true;
        }
    }
    false
}

/// Joins the words with `sep` between them.
pub fn join(words: &Vec<String>, sep: &str) -> (s: String)
    ensures
        s@ == joined(views(words@), sep@),
{
    let mut s = String::new();
    for i in 0..words.len()
        invariant
            s@ == joined(views(words@).take(i as int), sep@),
    {
        proof {
            let done = views(words@).take(i as int);
            assert(views(words@).take(i + 1) =~= done.push(words[i as int]@));
            if i > 0 {
                lemma_joined_push(done, sep@, words[i as int]@);
            }
        }
        if i > 0 {
            s.append(sep);
        }
        s.append(words[i].as_str());
    }
    assert(views(words@).take(words.len() as int) =~= views(words@));
    s
}

/// Whether Unicode gives `c` the `White_Space` property.
pub fn white_space(c: char) -> (b: bool)
    ensures
        b == is_white_space(c),
{
    ('\u{9}' <= c && c <= '\u{d}') || c == ' ' || c == '\u{85}' || c == '\u{a0}' || c == '\u{1680}'
        || ('\u{2000}' <= c && c <= '\u{200a}') || c == '\u{2028}' || c == '\u{2029}'
        || c == '\u{202f}' || c == '\u{205f}' || c == '\u{3000}'
}

/// The text without white space at either end.
pub fn trim(s: &str) -> (t: String)
    ensures
        t@ == trimmed(s@),
{
    let v = chars_of(s);
    let mut from: usize = 0;
    assert(s@.skip(0) =~= s@);
    while from < v.len() && white_space(v[from])
        invariant
            v@ == s@,
            from <= v.len(),
            trimmed_start(s@) == trimmed_start(s@.skip(from as int)),
        decreases v.len() - from,
    {
        assert(s@.skip(from as int).drop_first() =~= s@.skip(from + 1));
        from = from + 1;
    }
    let ghost tail = s@.skip(from as int);
    let mut to: usize = v.len();
    assert(tail.take(to - from) =~= tail);
    while from < to && white_space(v[to - 1])
        invariant
            v@ == s@,
            from <= to <= v.len(),
            tail == s@.skip(from as int),
            trimmed_end(tail) == trimmed_end(tail.take(to - from)),
        decreases to - from,
    {
        assert(tail.take(to - from).drop_last() =~= tail.take(to - 1 - from));
        to = to - 1;
    }
    assert(tail.take(to - from) =~= s@.subrange(from as int, to as int));
    string_of(&v, from, to)
}

/// The first `n` lines of `s`, or all of them where there are no more than that.
pub fn first_lines(s: &str, n: usize) -> (found: Vec<String>)
    ensures
        views(found@) == lines(s@).take(if n <= lines(s@).len() { n as int } else { lines(s@).len() as int }),
{
    let v = chars_of(s);
    let mut found: Vec<String> = Vec::new();
    let mut at: usize = 0;
    assert(s@.skip(0) =~= s@);
    while at < v.len() && found.len() < n
        invariant
            v@ == s@,
            at <= v.len(),
            found.len() <= n,
            lines(s@) == views(found@) + lines(s@.skip(at as int)),
        decreases v.len() - at,
    {
        let ghost rest = s@.skip(at as int);
        let mut end: usize = at;
        proof {
            lemma_line_end(rest);
        }
        while end < v.len() && v[end] != '\n'
            invariant
                v@ == s@,
                at <= end <= v.len(),
                rest == s@.skip(at as int),
                end - at <= line_end(rest),
                0 <= line_end(rest) <= rest.len(),
                line_end(rest) < rest.len() ==> rest[line_end(rest)] == '\n',
            decreases v.len() - end,
        {
            assert(rest[end - at] == v[end as int]);
            end = end + 1;
        }
        let ghost before = views(found@);
        assert(end - at == line_end(rest)) by {
            if end < v.len() {
                assert(rest[end - at] == '\n');
            }
        }
        if end == v.len() {
            let line = string_of(&v, at, end);
            assert(line@ =~= rest);
            found.push(line);
            assert(views(found@) =~= before.push(rest));
            at = end;
            assert(s@.skip(at as int) =~= Seq::<char>::empty());
            assert(lines(s@) =~= views(found@) + lines(s@.skip(at as int)));
        } else {
            let ghost raw = rest.take(end - at);
            assert(raw =~= s@.subrange(at as int, end as int));
            let to: usize = if end > at && v[end - 1] == '\r' {
                end - 1
            } else {
                end
            };
            let line = string_of(&v, at, to);
            assert(line@ =~= without_carriage_return(raw)) by {
                if end > at {
                    assert(raw.last() == v[end - 1]);
                }
            }
            found.push(line);
            assert(views(found@) =~= before.push(without_carriage_return(raw)));
            assert(rest.skip(end - at + 1) =~= s@.skip(end + 1));
            at = end + 1;
            assert(lines(s@) =~= views(found@) + lines(s@.skip(at as int)));
        }
    }
    proof {
        let got = views(found@);
        assert(got.len() == found.len());
        if at == v.len() {
            assert(s@.skip(at as int) =~= Seq::<char>::empty());
            assert(lines(s@) =~= got);
        }
        assert(lines(s@).take(got.len() as int) =~= got);
    }
    found
}

} // verus!
