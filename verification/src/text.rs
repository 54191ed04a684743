//! Program text: white space, lines and tokens.
//!
//! A program is read the way `str::trim`, `str::lines` and
//! `str::split_whitespace` read it: the text is trimmed, cut at line feeds,
//! and every line is cut into its maximal runs of characters that are not
//! white space. A carriage return before a line feed is white space and so
//! never reaches a token.

use vstd::prelude::*;

verus! {

/// The characters that Unicode counts as white space.
pub open spec fn is_space(c: char) -> bool {
    let u = c as u32;
    ||| 0x09 <= u <= 0x0D
    ||| u == 0x20
    ||| u == 0x85
    ||| u == 0xA0
    ||| u == 0x1680
    ||| 0x2000 <= u <= 0x200A
    ||| u == 0x2028
    ||| u == 0x2029
    ||| u == 0x202F
    ||| u == 0x205F
    ||| u == 0x3000
}

/// Length of the longest prefix of `s` that holds no white space.
pub open spec fn word_len(s: Seq<char>) -> nat
    decreases s.len(),
{
    if s.len() == 0 || is_space(s[0]) {
        0
    } else {
        1 + word_len(s.skip(1))
    }
}

/// Length of the longest prefix of `s` that holds no line feed.
pub open spec fn line_len(s: Seq<char>) -> nat
    decreases s.len(),
{
    if s.len() == 0 || s[0] == '\n' {
        0
    } else {
        1 + line_len(s.skip(1))
    }
}

/// The maximal runs of characters of `s` that are not white space, in order.
pub open spec fn words(s: Seq<char>) -> Seq<Seq<char>>
    decreases s.len(),
    via words_decreases
{
    if s.len() == 0 {
        Seq::empty()
    } else if is_space(s[0]) {
        words(s.skip(1))
    } else {
        seq![s.take(word_len(s) as int)] + words(s.skip(word_len(s) as int))
    }
}

#[via_fn]
proof fn words_decreases(s: Seq<char>) {
    lemma_word_len_bounds(s);
}

/// The lines of `s`: the pieces between line feeds. A line feed at the very
/// end opens no further line, and the empty text has no line at all.
pub open spec fn lines(s: Seq<char>) -> Seq<Seq<char>>
    decreases s.len(),
    via lines_decreases
{
    if s.len() == 0 {
        Seq::empty()
    } else if line_len(s) == s.len() {
        seq![s]
    } else {
        seq![s.take(line_len(s) as int)] + lines(s.skip((line_len(s) + 1) as int))
    }
}

#[via_fn]
proof fn lines_decreases(s: Seq<char>) {
    lemma_line_len_bounds(s);
}

/// `s` without its leading white space.
pub open spec fn trim_start(s: Seq<char>) -> Seq<char>
    decreases s.len(),
{
    if s.len() > 0 && is_space(s[0]) {
        trim_start(s.skip(1))
    } else {
        s
    }
}

/// `s` without its trailing white space.
pub open spec fn trim_end(s: Seq<char>) -> Seq<char>
    decreases s.len(),
{
    if s.len() > 0 && is_space(s.last()) {
        trim_end(s.drop_last())
    } else {
        s
    }
}

/// `s` without leading and trailing white space.
pub open spec fn trim(s: Seq<char>) -> Seq<char> {
    trim_end(trim_start(s))
}

/// The tokens of every line of the trimmed text. The position of a line in
/// the result is its line index.
pub open spec fn source_lines(source: Seq<char>) -> Seq<Seq<Seq<char>>> {
    words_of_each(lines(trim(source)))
}

/// The words of each of the given lines.
pub open spec fn words_of_each(lines: Seq<Seq<char>>) -> Seq<Seq<Seq<char>>> {
    Seq::new(lines.len(), |i: int| words(lines[i]))
}

/// The first word of `s` lies in `s`, holds no white space, and ends at white
/// space or at the end of `s`.
pub proof fn lemma_word_len_bounds(s: Seq<char>)
    ensures
        word_len(s) <= s.len(),
        s.len() > 0 && !is_space(s[0]) ==> word_len(s) >= 1,
        forall|i: int| 0 <= i < word_len(s) ==> !is_space(#[trigger] s[i]),
        word_len(s) < s.len() ==> is_space(s[word_len(s) as int]),
    decreases s.len(),
{
    if s.len() == 0 || is_space(s[0]) {
    } else {
        let t = s.skip(1);
        lemma_word_len_bounds(t);
        assert forall|i: int| 0 <= i < word_len(s) implies !is_space(#[trigger] s[i]) by {
            if i > 0 {
                assert(s[i] == t[i - 1]);
            }
        }
    }
}

/// The first line of `s` lies in `s`, holds no line feed, and ends at a line
/// feed or at the end of `s`.
pub proof fn lemma_line_len_bounds(s: Seq<char>)
    ensures
        line_len(s) <= s.len(),
        forall|i: int| 0 <= i < line_len(s) ==> #[trigger] s[i] != '\n',
        line_len(s) < s.len() ==> s[line_len(s) as int] == '\n',
    decreases s.len(),
{
    if s.len() == 0 || s[0] == '\n' {
    } else {
        let t = s.skip(1);
        lemma_line_len_bounds(t);
        assert forall|i: int| 0 <= i < line_len(s) implies #[trigger] s[i] != '\n' by {
            if i > 0 {
                assert(s[i] == t[i - 1]);
            }
        }
    }
}

/// Whether `w` can be a word: it holds a character, and no white space.
pub open spec fn is_word(w: Seq<char>) -> bool {
    &&& w.len() > 0
    &&& forall|j: int| 0 <= j < w.len() ==> !is_space(#[trigger] w[j])
}

/// Every word of a text holds at least one character and no white space.
pub proof fn theorem_words_hold_no_space(s: Seq<char>)
    ensures
        forall|i: int| 0 <= i < words(s).len() ==> is_word(#[trigger] words(s)[i]),
    decreases s.len(),
{
    if s.len() == 0 {
    } else if is_space(s[0]) {
        theorem_words_hold_no_space(s.skip(1));
        assert(words(s) == words(s.skip(1)));
    } else {
        let n = word_len(s) as int;
        lemma_word_len_bounds(s);
        theorem_words_hold_no_space(s.skip(n));
        assert(words(s) == seq![s.take(n)] + words(s.skip(n)));
    }
}

/// Whether `c` is white space.
pub fn is_whitespace(c: char) -> (r: bool)
    ensures
        r == is_space(c),
{
    let u: u32 = c as u32;
    (0x09 <= u && u <= 0x0D) || u == 0x20 || u == 0x85 || u == 0xA0 || u == 0x1680 || (0x2000 <= u
        && u <= 0x200A) || u == 0x2028 || u == 0x2029 || u == 0x202F || u == 0x205F || u == 0x3000
}

/// The characters of `source`, in order.
pub fn characters(source: &str) -> (out: Vec<char>)
    ensures
        out@ == source@,
{
    let mut out: Vec<char> = Vec::new();
    for c in it: source.chars()
        invariant
            it.seq() == source@,
            out@ == it.seq().take(it.index()),
    {
        out.push(c);
    }
    out
}

/// Index just past the word that starts at `from`, looking no further than `to`.
fn word_end(chars: &Vec<char>, from: usize, to: usize) -> (end: usize)
    requires
        from <= to <= chars.len(),
    ensures
        from <= end <= to,
        end - from == word_len(chars@.subrange(from as int, to as int)),
{
    let mut end = from;
    while end < to && !is_whitespace(chars[end])
        invariant
            from <= end <= to <= chars.len(),
            word_len(chars@.subrange(from as int, to as int)) == (end - from) + word_len(
                chars@.subrange(end as int, to as int),
            ),
        decreases to - end,
    {
        assert(chars@.subrange(end as int, to as int).skip(1) =~= chars@.subrange(
            end + 1,
            to as int,
        ));
        end += 1;
    }
    end
}

/// Index of the first line feed at or after `from`, or `to` if there is none before it.
fn line_end(chars: &Vec<char>, from: usize, to: usize) -> (end: usize)
    requires
        from <= to <= chars.len(),
    ensures
        from <= end <= to,
        end - from == line_len(chars@.subrange(from as int, to as int)),
{
    let mut end = from;
    while end < to && chars[end] != '\n'
        invariant
            from <= end <= to <= chars.len(),
            line_len(chars@.subrange(from as int, to as int)) == (end - from) + line_len(
                chars@.subrange(end as int, to as int),
            ),
        decreases to - end,
    {
        assert(chars@.subrange(end as int, to as int).skip(1) =~= chars@.subrange(
            end + 1,
            to as int,
        ));
        end += 1;
    }
    end
}

/// The characters of `chars` from `from` up to `to`, as a string.
fn string_of(chars: &Vec<char>, from: usize, to: usize) -> (s: String)
    requires
        from <= to <= chars.len(),
    ensures
        s@ == chars@.subrange(from as int, to as int),
{
    let mut s = String::new();
    let mut i = from;
    while i < to
        invariant
            from <= i <= to <= chars.len(),
            s@ == chars@.subrange(from as int, i as int),
        decreases to - i,
    {
        s.push(chars[i]);
        i += 1;
    }
    s
}

/// The words of the line that `chars` holds from `from` up to `to`.
fn split_words(chars: &Vec<char>, from: usize, to: usize) -> (out: Vec<String>)
    requires
        from <= to <= chars.len(),
    ensures
        out.deep_view() == words(chars@.subrange(from as int, to as int)),
{
    let mut out: Vec<String> = Vec::new();
    let mut i = from;
    while i < to
        invariant
            from <= i <= to <= chars.len(),
            words(chars@.subrange(from as int, to as int)) == out.deep_view() + words(
                chars@.subrange(i as int, to as int),
            ),
        decreases to - i,
    {
        let ghost rest = chars@.subrange(i as int, to as int);
        if is_whitespace(chars[i]) {
            assert(rest.skip(1) =~= chars@.subrange(i + 1, to as int));
            i += 1;
        } else {
            let end = word_end(chars, i, to);
            let word = string_of(chars, i, end);
            proof {
                assert(rest.take(end - i) =~= chars@.subrange(i as int, end as int));
                assert(rest.skip(end - i) =~= chars@.subrange(end as int, to as int));
            }
            out.push(word);
            i = end;
        }
    }
    out
}

/// The bounds of `chars` without its leading and trailing white space.
fn trim_bounds(chars: &Vec<char>) -> (bounds: (usize, usize))
    ensures
        bounds.0 <= bounds.1 <= chars.len(),
        chars@.subrange(bounds.0 as int, bounds.1 as int) == trim(chars@),
{
    let mut from: usize = 0;
    assert(chars@.skip(0) =~= chars@);
    while from < chars.len() && is_whitespace(chars[from])
        invariant
            from <= chars.len(),
            trim_start(chars@) == trim_start(chars@.skip(from as int)),
        decreases chars.len() - from,
    {
        assert(chars@.skip(from as int).skip(1) =~= chars@.skip(from + 1));
        from += 1;
    }
    let mut to: usize = chars.len();
    while to > from && is_whitespace(chars[to - 1])
        invariant
            from <= to <= chars.len(),
            trim(chars@) == trim_end(chars@.subrange(from as int, to as int)),
        decreases to,
    {
        assert(chars@.subrange(from as int, to as int).drop_last() =~= chars@.subrange(
            from as int,
            to - 1,
        ));
        to -= 1;
    }
    (from, to)
}

/// Splits program text into its lines, and each line into its tokens.
pub fn tokenize(source: &str) -> (out: Vec<Vec<String>>)
    ensures
        out.deep_view() == source_lines(source@),
{
    let chars = characters(source);
    let (from, to) = trim_bounds(&chars);
    let mut out: Vec<Vec<String>> = Vec::new();
    let ghost mut done: Seq<Seq<char>> = Seq::empty();
    let mut i = from;
    while i < to
        invariant
            from <= i <= to <= chars.len(),
            lines(chars@.subrange(from as int, to as int)) == done + lines(
                chars@.subrange(i as int, to as int),
            ),
            out.deep_view() == words_of_each(done),
        decreases to - i,
    {
        let ghost rest = chars@.subrange(i as int, to as int);
        let end = line_end(&chars, i, to);
        let tokens = split_words(&chars, i, end);
        proof {
            assert(rest.take(end - i) =~= chars@.subrange(i as int, end as int));
            if end < to {
                assert(rest.skip(end - i + 1) =~= chars@.subrange(end + 1, to as int));
            }
            done = done.push(chars@.subrange(i as int, end as int));
        }
        let ghost before = out.deep_view();
        out.push(tokens);
        assert(out.deep_view() =~= before.push(tokens.deep_view()));
        i = if end < to {
            end + 1
        } else {
            to
        };
    }
    out
}

} // verus!
