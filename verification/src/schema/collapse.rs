//! SQL on one line, for the log.

use vstd::prelude::*;

use crate::text::{from_chars, to_chars};

verus! {

/// SQL longer than this is cut short in the log, with an ellipsis.
pub const LOG_CHARS: usize = 200;

/// The characters with the Unicode property White_Space.
pub open spec fn is_space(c: char) -> bool {
    let u = c as u32;
    ||| 0x9 <= u <= 0xd
    ||| u == 0x20
    ||| u == 0x85
    ||| u == 0xa0
    ||| u == 0x1680
    ||| 0x2000 <= u <= 0x200a
    ||| u == 0x2028
    ||| u == 0x2029
    ||| u == 0x202f
    ||| u == 0x205f
    ||| u == 0x3000
}

fn is_whitespace(c: char) -> (b: bool)
    ensures
        b == is_space(c),
{
    let u: u32 = c as u32;
    (0x9 <= u && u <= 0xd) || u == 0x20 || u == 0x85 || u == 0xa0 || u == 0x1680 || (0x2000 <= u
        && u <= 0x200a) || u == 0x2028 || u == 0x2029 || u == 0x202f || u == 0x205f || u == 0x3000
}

/// The text between line feeds.
pub open spec fn lines(s: Seq<char>) -> Seq<Seq<char>>
    decreases s.len(),
{
    if s.len() == 0 {
        seq![Seq::empty()]
    } else {
        let before = lines(s.drop_last());
        if s.last() == '\n' {
            before.push(Seq::empty())
        } else {
            before.drop_last().push(before.last().push(s.last()))
        }
    }
}

/// The maximal runs of characters that are no white space.
pub open spec fn words(s: Seq<char>) -> Seq<Seq<char>>
    decreases s.len(),
{
    if s.len() == 0 {
        Seq::empty()
    } else {
        let front = s.drop_last();
        let before = words(front);
        if is_space(s.last()) {
            before
        } else if front.len() == 0 || is_space(front.last()) {
            before.push(seq![s.last()])
        } else {
            before.drop_last().push(before.last().push(s.last()))
        }
    }
}

/// Whether a line is a comment: its first word starts with two dashes.
pub open spec fn is_comment(line: Seq<char>) -> bool {
    let w = words(line);
    w.len() > 0 && w[0].len() >= 2 && w[0][0] == '-' && w[0][1] == '-'
}

/// The words that a line contributes: none where it is a comment.
pub open spec fn kept_words(line: Seq<char>) -> Seq<Seq<char>> {
    if is_comment(line) {
        Seq::empty()
    } else {
        words(line)
    }
}

/// The words of a text, comments left out.
pub open spec fn sql_words(s: Seq<char>) -> Seq<Seq<char>> {
    lines(s).flat_map(|line: Seq<char>| kept_words(line))
}

/// Whether a word is set off from the text before it by a space.
pub open spec fn spaced(text: Seq<char>, word: Seq<char>) -> bool {
    &&& text.len() > 0
    &&& text.last() != '('
    &&& text.last() != '['
    &&& !(word.len() > 0 && (word[0] == ')' || word[0] == ']' || word[0] == ',' || word[0] == ';'))
}

/// The words one after another, with single spaces where they are due.
pub open spec fn run_together(words: Seq<Seq<char>>) -> Seq<char>
    decreases words.len(),
{
    if words.len() == 0 {
        Seq::empty()
    } else {
        let text = run_together(words.drop_last());
        if spaced(text, words.last()) {
            text.push(' ') + words.last()
        } else {
            text + words.last()
        }
    }
}

/// A text cut short after the first characters, with an ellipsis for the rest.
pub open spec fn cut_short(text: Seq<char>) -> Seq<char> {
    if text.len() > LOG_CHARS {
        text.take(LOG_CHARS as int).push('\u{2026}')
    } else {
        text
    }
}

/// A text on one line, as it is shown.
pub open spec fn collapsed(source: Seq<char>) -> Seq<char> {
    cut_short(run_together(sql_words(source)))
}

/// Each word of a list as a sequence of characters.
pub open spec fn word_views(v: Seq<Vec<char>>) -> Seq<Seq<char>> {
    v.map_values(|w: Vec<char>| w@)
}

/// Whether a space belongs between a text and the word that follows it.
pub fn needs_space(text: &Vec<char>, word: &Vec<char>) -> (b: bool)
    ensures
        b == spaced(text@, word@),
{
    if text.len() == 0 {
        return false;
    }
    let last: char = text[text.len() - 1];
    if last == '(' || last == '[' {
        return false;
    }
    if word.len() == 0 {
        return true;
    }
    let first: char = word[0];
    !(first == ')' || first == ']' || first == ',' || first == ';')
}

proof fn lemma_words_nonempty(s: Seq<char>)
    ensures
        s.len() > 0 && !is_space(s.last()) ==> words(s).len() > 0,
    decreases s.len(),
{
    if s.len() > 0 {
        lemma_words_nonempty(s.drop_last());
    }
}

fn line_words(line: &[char]) -> (out: Vec<Vec<char>>)
    ensures
        word_views(out@) == words(line@),
{
    let mut out: Vec<Vec<char>> = Vec::new();
    let mut i: usize = 0;
    assert(word_views(out@) =~= words(line@.take(0)));
    while i < line.len()
        invariant
            i <= line.len(),
            word_views(out@) == words(line@.take(i as int)),
        decreases line.len() - i,
    {
        let ghost front = line@.take(i as int);
        let ghost before = out@;
        assert(line@.take(i + 1).drop_last() =~= front);
        let c: char = line[i];
        if !is_whitespace(c) {
            if i == 0 || is_whitespace(line[i - 1]) {
                let mut word: Vec<char> = Vec::new();
                word.push(c);
                out.push(word);
                assert(word@ =~= seq![c]);
                assert(word_views(out@) =~= word_views(before).push(seq![c]));
            } else {
                proof {
                    lemma_words_nonempty(front);
                }
                assert(word_views(before).len() == before.len());
                match out.pop() {
                    Some(mut word) => {
                        word.push(c);
                        out.push(word);
                        assert(word_views(out@) =~= word_views(before).drop_last().push(
                            word_views(before).last().push(c),
                        ));
                    },
                    None => {},
                }
            }
        }
        i += 1;
    }
    assert(line@.take(line@.len() as int) =~= line@);
    out
}

fn push_kept(all: &mut Vec<Vec<char>>, line: &[char])
    ensures
        word_views(final(all)@) == word_views(old(all)@) + kept_words(line@),
{
    let found: Vec<Vec<char>> = line_words(line);
    let ghost w = words(line@);
    assert(found@.len() == w.len());
    if found.len() > 0 {
        assert(found@[0]@ == w[0]);
        let first: &Vec<char> = &found[0];
        if first.len() >= 2 && first[0] == '-' && first[1] == '-' {
            assert(word_views(all@) =~= word_views(old(all)@) + kept_words(line@));
            return ;
        }
    }
    let mut rest: Vec<Vec<char>> = found;
    let ghost words_found = rest@;
    all.append(&mut rest);
    assert(word_views(all@) =~= word_views(old(all)@) + word_views(words_found));
}

proof fn lemma_lines_nonempty(s: Seq<char>)
    ensures
        lines(s).len() > 0,
    decreases s.len(),
{
    if s.len() > 0 {
        lemma_lines_nonempty(s.drop_last());
    }
}

fn all_words(source: &Vec<char>) -> (out: Vec<Vec<char>>)
    ensures
        word_views(out@) == sql_words(source@),
{
    let ghost f = |line: Seq<char>| kept_words(line);
    let mut out: Vec<Vec<char>> = Vec::new();
    let mut line: Vec<char> = Vec::new();
    let mut i: usize = 0;
    proof {
        let first = lines(source@.take(0));
        assert(first.drop_last() =~= Seq::<Seq<char>>::empty());
        assert(first.drop_last().flat_map(f) =~= Seq::<Seq<char>>::empty());
        assert(word_views(out@) =~= first.drop_last().flat_map(f));
        assert(line@ =~= first.last());
    }
    while i < source.len()
        invariant
            i <= source.len(),
            f == (|line: Seq<char>| kept_words(line)),
            line@ == lines(source@.take(i as int)).last(),
            word_views(out@) == lines(source@.take(i as int)).drop_last().flat_map(f),
        decreases source.len() - i,
    {
        let ghost front = source@.take(i as int);
        proof {
            lemma_lines_nonempty(front);
            assert(source@.take(i + 1).drop_last() =~= front);
        }
        let ghost next = lines(source@.take(i + 1));
        let c: char = source[i];
        if c == '\n' {
            push_kept(&mut out, line.as_slice());
            proof {
                assert(next.drop_last() =~= lines(front));
                assert(lines(front) =~= lines(front).drop_last().push(lines(front).last()));
                lines(front).drop_last().lemma_flat_map_push(f, lines(front).last());
            }
            line = Vec::new();
            assert(line@ =~= next.last());
        } else {
            line.push(c);
            assert(next.drop_last() =~= lines(front).drop_last());
        }
        i += 1;
    }
    push_kept(&mut out, line.as_slice());
    proof {
        assert(source@.take(source@.len() as int) =~= source@);
        let all = lines(source@);
        lemma_lines_nonempty(source@);
        assert(all =~= all.drop_last().push(all.last()));
        all.drop_last().lemma_flat_map_push(f, all.last());
    }
    out
}

/// SQL to be shown on one line.
pub struct Collapsed<'a>(pub &'a str);

impl<'a> Collapsed<'a> {
    /// The text on one line: comments and blank lines left out, runs of white
    /// space drawn together, none inside brackets or before punctuation, and
    /// cut short where it is too long for the log.
    pub fn render(&self) -> (out: String)
        ensures
            out@ == collapsed(self.0@),
    {
        let source: Vec<char> = to_chars(self.0);
        let found: Vec<Vec<char>> = all_words(&source);
        let ghost w = sql_words(self.0@);
        let mut text: Vec<char> = Vec::new();
        let mut i: usize = 0;
        assert(text@ =~= run_together(w.take(0)));
        while i < found.len()
            invariant
                i <= found.len(),
                word_views(found@) == w,
                text@ == run_together(w.take(i as int)),
            decreases found.len() - i,
        {
            proof {
                assert(w.take(i + 1).drop_last() =~= w.take(i as int));
                assert(w.take(i + 1).last() == found@[i as int]@);
            }
            if needs_space(&text, &found[i]) {
                text.push(' ');
            }
            extend_chars(&mut text, &found[i]);
            i += 1;
        }
        assert(w.take(w.len() as int) =~= w);
        if text.len() > LOG_CHARS {
            text.truncate(LOG_CHARS);
            text.push('\u{2026}');
        }
        from_chars(text.as_slice())
    }
}

fn extend_chars(text: &mut Vec<char>, word: &Vec<char>)
    ensures
        final(text)@ == old(text)@ + word@,
{
    let mut i: usize = 0;
    while i < word.len()
        invariant
            i <= word.len(),
            text@ == old(text)@ + word@.take(i as int),
        decreases word.len() - i,
    {
        text.push(word[i]);
        assert(word@.take(i + 1) =~= word@.take(i as int).push(word@[i as int]));
        i += 1;
    }
    assert(word@.take(word@.len() as int) =~= word@);
}

proof fn lemma_words_solid(s: Seq<char>)
    ensures
        forall|i: int| 0 <= i < words(s).len() ==> (#[trigger] words(s)[i]).len() > 0,
        forall|i: int, j: int|
            0 <= i < words(s).len() && 0 <= j < words(s)[i].len() ==> !is_space(
                #[trigger] words(s)[i][j],
            ),
    decreases s.len(),
{
    if s.len() > 0 {
        let front = s.drop_last();
        let before = words(front);
        lemma_words_solid(front);
        lemma_words_nonempty(front);
        assert forall|i: int| 0 <= i < words(s).len() implies (#[trigger] words(s)[i]).len() > 0 by {
            if i < before.len() - 1 || words(s) == before {
                assert(words(s)[i] == before[i]);
            }
        }
        assert forall|i: int, j: int|
            0 <= i < words(s).len() && 0 <= j < words(s)[i].len() implies !is_space(
            #[trigger] words(s)[i][j],
        ) by {
            if i < before.len() && j < before[i].len() {
                assert(words(s)[i][j] == before[i][j]);
            }
        }
    }
}

proof fn lemma_flat_words_solid(ls: Seq<Seq<char>>)
    ensures
        ({
            let w = ls.flat_map(|line: Seq<char>| kept_words(line));
            &&& forall|i: int| 0 <= i < w.len() ==> (#[trigger] w[i]).len() > 0
            &&& forall|i: int, j: int|
                0 <= i < w.len() && 0 <= j < w[i].len() ==> !is_space(#[trigger] w[i][j])
        }),
    decreases ls.len(),
{
    let f = |line: Seq<char>| kept_words(line);
    if ls.len() > 0 {
        lemma_flat_words_solid(ls.drop_last());
        ls.drop_last().lemma_flat_map_push(f, ls.last());
        assert(ls =~= ls.drop_last().push(ls.last()));
        lemma_words_solid(ls.last());
    } else {
        assert(ls.flat_map(f) =~= Seq::<Seq<char>>::empty());
    }
}

/// Whether a text holds no white space but single spaces between words.
pub open spec fn single_spaced(s: Seq<char>) -> bool {
    &&& s.len() > 0 ==> !is_space(s[0]) && !is_space(s.last())
    &&& forall|i: int|
        0 <= i < s.len() && is_space(#[trigger] s[i]) ==> s[i] == ' ' && 0 < i < s.len() - 1
            && !is_space(s[i - 1]) && !is_space(s[i + 1])
}

/// Whether a text reads the same when its words are set one after another: single
/// spaces only, each where one is due, and no comment in front.
spec fn tight(s: Seq<char>) -> bool {
    &&& single_spaced(s)
    &&& forall|i: int|
        0 < i < s.len() - 1 && is_space(#[trigger] s[i]) ==> spaced(s.take(i), s.skip(i + 1))
    &&& !(s.len() >= 2 && s[0] == '-' && s[1] == '-')
}

/// Whether the first of some words, if there is any, starts a comment.
spec fn starts_comment(w: Seq<Seq<char>>) -> bool {
    w.len() > 0 && w[0].len() >= 2 && w[0][0] == '-' && w[0][1] == '-'
}

proof fn lemma_no_comment_first(ls: Seq<Seq<char>>)
    ensures
        !starts_comment(ls.flat_map(|line: Seq<char>| kept_words(line))),
    decreases ls.len(),
{
    let f = |line: Seq<char>| kept_words(line);
    if ls.len() > 0 {
        lemma_no_comment_first(ls.drop_last());
        ls.drop_last().lemma_flat_map_push(f, ls.last());
        assert(ls =~= ls.drop_last().push(ls.last()));
        let before = ls.drop_last().flat_map(f);
        assert(ls.flat_map(f) =~= before + kept_words(ls.last()));
    } else {
        assert(ls.flat_map(f) =~= Seq::<Seq<char>>::empty());
    }
}

proof fn lemma_run_together_is_tight(w: Seq<Seq<char>>)
    requires
        forall|i: int| 0 <= i < w.len() ==> (#[trigger] w[i]).len() > 0,
        forall|i: int, j: int|
            0 <= i < w.len() && 0 <= j < w[i].len() ==> !is_space(#[trigger] w[i][j]),
        !starts_comment(w),
    ensures
        tight(run_together(w)),
    decreases w.len(),
{
    if w.len() > 0 {
        let front = w.drop_last();
        assert forall|i: int, j: int|
            0 <= i < front.len() && 0 <= j < front[i].len() implies !is_space(
            #[trigger] front[i][j],
        ) by {
            assert(!is_space(w[i][j]));
        }
        lemma_run_together_is_tight(front);
        let before = run_together(front);
        let after = run_together(w);
        let n = before.len() as int;
        let last = w.last();
        let gap = after.len() - last.len();
        assert forall|j: int| gap <= j < after.len() implies !is_space(#[trigger] after[j]) by {
            assert(after[j] == last[j - gap]);
            assert(!is_space(w[w.len() - 1][j - gap]));
        }
        assert forall|j: int| 0 <= j < n implies after[j] == before[j] by {}
        if n > 0 {
            assert(!is_space(before.last()));
        } else {
            assert(after =~= last);
            if front.len() > 0 {
                lemma_run_together_nonempty(front);
            }
        }
        assert forall|i: int| 0 < i < after.len() - 1 && is_space(#[trigger] after[i]) implies spaced(
            after.take(i),
            after.skip(i + 1),
        ) by {
            if i < n {
                assert(is_space(before[i]));
                assert(spaced(before.take(i), before.skip(i + 1)));
                assert(after.take(i) =~= before.take(i));
                assert(after.skip(i + 1)[0] == before.skip(i + 1)[0]);
            } else {
                assert(i == n && gap == n + 1);
                assert(after.take(i) =~= before);
                assert(after.skip(i + 1) =~= last);
            }
        }
    }
}

proof fn lemma_run_together_nonempty(w: Seq<Seq<char>>)
    requires
        w.len() > 0,
        forall|i: int| 0 <= i < w.len() ==> (#[trigger] w[i]).len() > 0,
    ensures
        run_together(w).len() > 0,
{
    assert(w[w.len() - 1].len() > 0);
}

/// A text without a line feed is one line.
proof fn lemma_one_line(s: Seq<char>)
    requires
        forall|i: int| 0 <= i < s.len() ==> #[trigger] s[i] != '\n',
    ensures
        lines(s) == seq![s],
    decreases s.len(),
{
    if s.len() > 0 {
        lemma_one_line(s.drop_last());
        assert(s[s.len() - 1] != '\n');
        assert(s.drop_last().push(s.last()) =~= s);
        assert(lines(s) =~= seq![s]);
    } else {
        assert(s =~= Seq::empty());
    }
}

proof fn lemma_starts_with_first(w: Seq<Seq<char>>)
    requires
        w.len() > 0,
    ensures
        w[0].is_prefix_of(run_together(w)),
    decreases w.len(),
{
    if w.len() == 1 {
        assert(run_together(w.drop_last()) =~= Seq::<char>::empty());
        assert(run_together(w) =~= w[0]);
    } else {
        lemma_starts_with_first(w.drop_last());
        let before = run_together(w.drop_last());
        assert(before.is_prefix_of(run_together(w)));
        assert(w[0] =~= run_together(w).take(w[0].len() as int));
    }
}

/// The words of the first characters of a tight text, one after another, are those
/// characters, but for a space at the end.
proof fn lemma_words_rebuild(s: Seq<char>, n: int)
    requires
        tight(s),
        0 <= n <= s.len(),
    ensures
        run_together(words(s.take(n))) == if n > 0 && is_space(s[n - 1]) {
            s.take(n - 1)
        } else {
            s.take(n)
        },
    decreases n,
{
    let p = s.take(n);
    if n == 0 {
        assert(p =~= Seq::empty());
    } else {
        lemma_words_rebuild(s, n - 1);
        let front = p.drop_last();
        let c = p.last();
        assert(front =~= s.take(n - 1));
        assert(c == s[n - 1]);
        let w = words(front);
        if is_space(c) {
            // The character before a space is none.
            assert(n >= 2 && !is_space(s[n - 2]));
        } else if n == 1 {
            assert(words(p) =~= seq![seq![c]]);
            assert(run_together(words(p).drop_last()) =~= Seq::<char>::empty());
            assert(run_together(words(p)) =~= p);
        } else if is_space(s[n - 2]) {
            let text = s.take(n - 2);
            assert(front.last() == s[n - 2]);
            assert(spaced(s.take(n - 2), s.skip(n - 1)));
            assert(s.skip(n - 1)[0] == c);
            assert(words(p).drop_last() =~= w);
            assert(words(p).last() == seq![c]);
            assert(spaced(text, seq![c]));
            assert(run_together(words(p)) == text.push(' ') + seq![c]);
            assert(run_together(words(p)) =~= p);
        } else {
            assert(front.last() == s[n - 2]);
            lemma_words_nonempty(front);
            lemma_words_solid(front);
            let last = w.last();
            assert(w[w.len() - 1].len() > 0);
            let text = run_together(w.drop_last());
            let longer = last.push(c);
            assert(words(p) == w.drop_last().push(longer));
            assert(words(p).drop_last() =~= w.drop_last());
            assert(longer[0] == last[0]);
            assert(spaced(text, longer) == spaced(text, last));
            assert(run_together(words(p)) =~= run_together(w).push(c));
            assert(run_together(words(p)) =~= p);
        }
    }
}

proof fn lemma_tight_is_kept(s: Seq<char>)
    requires
        tight(s),
    ensures
        run_together(sql_words(s)) == s,
{
    let f = |line: Seq<char>| kept_words(line);
    assert forall|i: int| 0 <= i < s.len() implies #[trigger] s[i] != '\n' by {
        if is_space(s[i]) {
            assert(s[i] == ' ');
        }
    }
    lemma_one_line(s);
    lemma_words_rebuild(s, s.len() as int);
    assert(s.take(s.len() as int) =~= s);
    let w = words(s);
    if s.len() > 0 {
        assert(!is_space(s[s.len() - 1]));
    }
    if w.len() > 0 {
        lemma_starts_with_first(w);
        if is_comment(s) {
            assert(w[0][0] == s[0]);
            assert(w[0][1] == s[1]);
        }
    }
    let none = Seq::<Seq<char>>::empty();
    none.lemma_flat_map_push(f, s);
    assert(none.push(s) =~= lines(s));
    assert(none.flat_map(f) =~= Seq::<Seq<char>>::empty());
    assert(sql_words(s) =~= kept_words(s));
}

proof fn lemma_collapsed_is_tight(source: Seq<char>)
    ensures
        tight(run_together(sql_words(source))),
        tight(collapsed(source)),
{
    lemma_flat_words_solid(lines(source));
    lemma_no_comment_first(lines(source));
    lemma_run_together_is_tight(sql_words(source));
    let text = run_together(sql_words(source));
    let out = collapsed(source);
    if text.len() > LOG_CHARS {
        let n = LOG_CHARS as int;
        assert forall|i: int| 0 <= i < n implies out[i] == text[i] by {}
        assert(out[n] == '\u{2026}');
        assert forall|i: int| 0 <= i < out.len() && is_space(#[trigger] out[i]) implies out[i]
            == ' ' && 0 < i < out.len() - 1 && !is_space(out[i - 1]) && !is_space(out[i + 1]) by {
            assert(is_space(text[i]));
        }
        assert forall|i: int| 0 < i < out.len() - 1 && is_space(#[trigger] out[i]) implies spaced(
            out.take(i),
            out.skip(i + 1),
        ) by {
            assert(is_space(text[i]));
            assert(spaced(text.take(i), text.skip(i + 1)));
            assert(out.take(i) =~= text.take(i));
            assert(out.skip(i + 1)[0] == out[i + 1]);
            assert(text.skip(i + 1)[0] == text[i + 1]);
        }
    }
}

/// On one line, a text holds no white space but single spaces between words: none
/// at either end, no tab and no line feed. So it is where it is cut short.
pub proof fn law_collapsed_is_single_spaced(source: Seq<char>)
    ensures
        single_spaced(run_together(sql_words(source))),
        single_spaced(collapsed(source)),
{
    lemma_collapsed_is_tight(source);
}

/// A text that has been brought on one line stays as it is when that is done again,
/// cut short or not.
pub proof fn law_collapsing_once_is_enough(source: Seq<char>)
    ensures
        collapsed(collapsed(source)) == collapsed(source),
{
    lemma_collapsed_is_tight(source);
    let once = collapsed(source);
    lemma_tight_is_kept(once);
    law_collapsed_is_bounded(run_together(sql_words(source)));
    assert(collapsed(once) =~= once);
}

/// What is shown is never longer than the limit and its ellipsis, and a text
/// within the limit is shown whole.
pub proof fn law_collapsed_is_bounded(text: Seq<char>)
    ensures
        cut_short(text).len() <= LOG_CHARS + 1,
        text.len() <= LOG_CHARS ==> cut_short(text) == text,
        text.len() > LOG_CHARS ==> cut_short(text).len() == LOG_CHARS + 1
            && cut_short(text).take(LOG_CHARS as int) == text.take(LOG_CHARS as int),
{
    if text.len() > LOG_CHARS {
        assert(cut_short(text).take(LOG_CHARS as int) =~= text.take(LOG_CHARS as int));
    }
}

/// What is not white space of a text.
pub open spec fn ink(s: Seq<char>) -> Seq<char>
    decreases s.len(),
{
    if s.len() == 0 {
        Seq::empty()
    } else if is_space(s.last()) {
        ink(s.drop_last())
    } else {
        ink(s.drop_last()).push(s.last())
    }
}

/// Words one behind the other.
pub open spec fn in_a_row(words: Seq<Seq<char>>) -> Seq<char>
    decreases words.len(),
{
    if words.len() == 0 {
        Seq::empty()
    } else {
        in_a_row(words.drop_last()) + words.last()
    }
}

/// The words of a line hold all of it but the white space, in order.
pub proof fn law_words_hold_the_line(line: Seq<char>)
    ensures
        in_a_row(words(line)) == ink(line),
    decreases line.len(),
{
    if line.len() > 0 {
        let front = line.drop_last();
        let before = words(front);
        law_words_hold_the_line(front);
        if is_space(line.last()) {
        } else if front.len() == 0 || is_space(front.last()) {
            let w = before.push(seq![line.last()]);
            assert(w.drop_last() =~= before);
            assert(in_a_row(w) =~= in_a_row(before) + seq![line.last()]);
            assert(in_a_row(words(line)) =~= ink(line));
        } else {
            lemma_words_nonempty(front);
            let w = before.drop_last().push(before.last().push(line.last()));
            assert(w.drop_last() =~= before.drop_last());
            assert(in_a_row(w) =~= in_a_row(before).push(line.last()));
        }
    }
}

/// Running words together keeps every one of them, in order: only single spaces come
/// between, and none behind an opening bracket or before a closing one, a comma or a
/// semicolon.
pub proof fn law_words_are_run_together(list: Seq<Seq<char>>, word: Seq<char>)
    requires
        list.len() > 0,
        run_together(list).len() > 0,
        word.len() > 0,
    ensures
        ({
            let text = run_together(list);
            let tight = text.last() == '(' || text.last() == '[' || word[0] == ')' || word[0]
                == ']' || word[0] == ',' || word[0] == ';';
            &&& run_together(seq![word]) == word
            &&& tight ==> run_together(list.push(word)) == text + word
            &&& !tight ==> run_together(list.push(word)) == text + seq![' '] + word
        }),
{
    reveal_with_fuel(run_together, 2);
    assert(list.push(word).drop_last() =~= list);
    assert(seq![word].drop_last() =~= Seq::<Seq<char>>::empty());
    let text = run_together(list);
    assert(text.push(' ') + word =~= text + seq![' '] + word);
    assert(run_together(seq![word]) =~= word);
}

/// A line whose first word starts with two dashes is a comment, of which nothing is
/// kept; of any other line all words are. A text is cut at the limit, and shows that
/// it was.
pub proof fn law_comments_are_dropped(line: Seq<char>, text: Seq<char>)
    ensures
        words(line).len() > 0 && words(line)[0].len() >= 2 && words(line)[0][0] == '-' && words(
            line,
        )[0][1] == '-' ==> kept_words(line) == Seq::<Seq<char>>::empty(),
        !(words(line).len() > 0 && words(line)[0].len() >= 2 && words(line)[0][0] == '-' && words(
            line,
        )[0][1] == '-') ==> kept_words(line) == words(line),
        text.len() <= 200 ==> cut_short(text) == text,
        text.len() > 200 ==> cut_short(text).len() == 201 && cut_short(text).take(200)
            == text.take(200) && cut_short(text)[200] == '\u{2026}',
{
    if text.len() > 200 {
        assert(cut_short(text).take(200) =~= text.take(200));
    }
}

} // verus!
