//! Takes out of a dump what only `psql` understands.

use regex::Regex;
use vstd::prelude::*;

use super::ast::opt_text;
use super::collapse::lines;

verus! {

/// The lines that `pg_dump` puts around a dump for `psql`.
pub const RESTRICT_PATTERN: &'static str = "(?m)^\\\\(?:un)?restrict.*\\n?";

/// Whether a line starts with one of the commands.
pub open spec fn is_marker(line: Seq<char>) -> bool {
    "\\restrict"@.is_prefix_of(line) || "\\unrestrict"@.is_prefix_of(line)
}

/// A line with the line feed that ends it, unless it is one of the commands. The
/// last line has no line feed.
pub open spec fn kept_line(all: Seq<Seq<char>>, i: int) -> Seq<char> {
    if is_marker(all[i]) {
        Seq::empty()
    } else if i + 1 < all.len() {
        all[i].push('\n')
    } else {
        all[i]
    }
}

/// The first lines of a text, but for the commands.
pub open spec fn kept_lines(all: Seq<Seq<char>>, n: nat) -> Seq<char>
    decreases n,
{
    if n == 0 {
        Seq::empty()
    } else {
        kept_lines(all, (n - 1) as nat) + kept_line(all, n - 1)
    }
}

/// A text without the lines that hold one of the commands.
pub open spec fn without_markers(text: Seq<char>) -> Seq<char> {
    kept_lines(lines(text), lines(text).len())
}

/// `Regex::new` reads a pattern and `Regex::replace_all` replaces its matches. With
/// the pattern for the commands of `psql` and nothing in their place, each line that
/// starts with one is gone, along with its line feed: the pattern matches from the
/// start of a line, with the rest of it, up to and with the line feed.
#[verifier::external_body]
fn regex_replace_all(pattern: &str, text: &str, replacement: &str) -> (out: Option<String>)
    requires
        pattern@ == RESTRICT_PATTERN@,
        replacement@ == ""@,
    ensures
        opt_text(out) == Some(without_markers(text@)),
{
    match Regex::new(pattern) {
        Ok(regex) => Some(regex.replace_all(text, replacement).into_owned()),
        Err(_) => None,
    }
}

/// Takes the lines out of a dump that hold a command of `psql`.
pub fn clean(source: &str) -> (out: String)
    ensures
        out@ == without_markers(source@),
{
    match regex_replace_all(RESTRICT_PATTERN, source, "") {
        Some(cleaned) => cleaned,
        None => source.to_owned(),
    }
}

proof fn lemma_lines(s: Seq<char>)
    ensures
        lines(s).len() > 0,
        forall|i: int| 0 <= i < lines(s).len() ==> !(#[trigger] lines(s)[i]).contains('\n'),
    decreases s.len(),
{
    if s.len() > 0 {
        let front = s.drop_last();
        lemma_lines(front);
        let before = lines(front);
        assert forall|i: int| 0 <= i < lines(s).len() implies !(#[trigger] lines(s)[i]).contains(
            '\n',
        ) by {
            if i < before.len() - 1 {
                assert(lines(s)[i] == before[i]);
            } else if s.last() == '\n' {
                if i == before.len() - 1 {
                    assert(lines(s)[i] == before[i]);
                }
            } else {
                let last = before.last();
                assert(!before[before.len() - 1].contains('\n'));
                vstd::seq_lib::lemma_seq_contains_after_push(last, s.last(), '\n');
            }
        }
    }
}

/// Text without a line feed goes to the end of the last line.
proof fn lemma_lines_extend(a: Seq<char>, line: Seq<char>)
    requires
        !line.contains('\n'),
    ensures
        lines(a + line) == lines(a).drop_last().push(lines(a).last() + line),
    decreases line.len(),
{
    lemma_lines(a);
    if line.len() == 0 {
        assert(a + line =~= a);
        assert(lines(a).last() + line =~= lines(a).last());
        assert(lines(a) =~= lines(a).drop_last().push(lines(a).last()));
    } else {
        let front = line.drop_last();
        assert forall|c: char| front.contains(c) implies line.contains(c) by {
            let i = front.index_of(c);
            assert(line[i] == c);
        }
        lemma_lines_extend(a, front);
        assert((a + line).drop_last() =~= a + front);
        assert((a + line).last() == line.last());
        assert(line.contains(line.last())) by {
            assert(line[line.len() - 1] == line.last());
        }
        assert(lines(a).last() + line =~= (lines(a).last() + front).push(line.last()));
        assert(lines(a + line) =~= lines(a).drop_last().push(lines(a).last() + line));
    }
}

/// The first lines that are kept, and what follows the last of their line feeds.
spec fn kept_so_far(all: Seq<Seq<char>>, n: nat) -> Seq<Seq<char>>
    decreases n,
{
    if n == 0 {
        Seq::empty()
    } else {
        let before = kept_so_far(all, (n - 1) as nat);
        if is_marker(all[n - 1]) {
            before
        } else {
            before.push(all[n - 1])
        }
    }
}

proof fn lemma_kept_lines(all: Seq<Seq<char>>, n: nat)
    requires
        n < all.len(),
        forall|i: int| 0 <= i < all.len() ==> !(#[trigger] all[i]).contains('\n'),
    ensures
        lines(kept_lines(all, n)) == kept_so_far(all, n).push(Seq::empty()),
    decreases n,
{
    if n == 0 {
        assert(lines(kept_lines(all, n)) =~= kept_so_far(all, n).push(Seq::empty()));
    } else {
        let m = (n - 1) as nat;
        lemma_kept_lines(all, m);
        let before = kept_lines(all, m);
        let line = all[n - 1];
        if is_marker(line) {
            assert(kept_lines(all, n) =~= before);
        } else {
            lemma_lines_extend(before, line);
            let whole = before + line;
            assert(kept_lines(all, n) =~= whole.push('\n'));
            assert(kept_lines(all, n).drop_last() =~= whole);
            assert(lines(before).last() + line =~= line);
            assert(lines(whole) =~= kept_so_far(all, m).push(line));
        }
    }
}

proof fn lemma_no_markers_kept(all: Seq<Seq<char>>, n: nat)
    requires
        n <= all.len(),
    ensures
        forall|i: int| 0 <= i < kept_so_far(all, n).len() ==> !is_marker(
            #[trigger] kept_so_far(all, n)[i],
        ),
    decreases n,
{
    if n > 0 {
        let before = kept_so_far(all, (n - 1) as nat);
        lemma_no_markers_kept(all, (n - 1) as nat);
        assert forall|i: int| 0 <= i < kept_so_far(all, n).len() implies !is_marker(
            #[trigger] kept_so_far(all, n)[i],
        ) by {
            if i < before.len() {
                assert(kept_so_far(all, n)[i] == before[i]);
            }
        }
    }
}

/// Once cleaned, no line of a dump starts with one of the commands.
pub proof fn law_no_markers_left(text: Seq<char>)
    ensures
        forall|i: int|
            0 <= i < lines(without_markers(text)).len() ==> !is_marker(
                #[trigger] lines(without_markers(text))[i],
            ),
{
    let all = lines(text);
    lemma_lines(text);
    let n = (all.len() - 1) as nat;
    lemma_kept_lines(all, n);
    lemma_no_markers_kept(all, n);
    let before = kept_lines(all, n);
    let last = all[n as int];
    reveal_strlit("\\restrict");
    reveal_strlit("\\unrestrict");
    assert(!is_marker(Seq::<char>::empty()));
    if is_marker(last) {
        assert(without_markers(text) =~= before);
    } else {
        assert(without_markers(text) =~= before + last);
        lemma_lines_extend(before, last);
        assert(lines(before).last() + last =~= last);
        assert(lines(without_markers(text)) =~= kept_so_far(all, n).push(last));
    }
    let result = lines(without_markers(text));
    assert forall|i: int| 0 <= i < result.len() implies !is_marker(#[trigger] result[i]) by {
        if i < kept_so_far(all, n).len() {
            assert(result[i] == kept_so_far(all, n)[i]);
        }
    }
}

/// A text in which no line is one of the commands is left as it is.
proof fn lemma_rejoined(text: Seq<char>)
    requires
        forall|i: int| 0 <= i < lines(text).len() ==> !is_marker(#[trigger] lines(text)[i]),
    ensures
        without_markers(text) == text,
{
    lemma_lines(text);
    lemma_all_kept(text);
    let all = lines(text);
    let n = (all.len() - 1) as nat;
    assert(!is_marker(all[n as int]));
    assert(without_markers(text) =~= text);
}

/// All lines but the last, with their line feeds.
spec fn terminated(all: Seq<Seq<char>>, n: nat) -> Seq<char>
    decreases n,
{
    if n == 0 {
        Seq::empty()
    } else {
        terminated(all, (n - 1) as nat) + all[n - 1].push('\n')
    }
}

proof fn lemma_terminated(text: Seq<char>)
    ensures
        text == terminated(lines(text), (lines(text).len() - 1) as nat) + lines(text).last(),
    decreases text.len(),
{
    lemma_lines(text);
    if text.len() == 0 {
        assert(text =~= terminated(lines(text), 0) + lines(text).last());
    } else {
        let front = text.drop_last();
        let before = lines(front);
        lemma_terminated(front);
        lemma_lines(front);
        let n = (before.len() - 1) as nat;
        lemma_terminated_prefix(before, lines(text), n);
        let head = terminated(before, n);
        assert(text =~= front.push(text.last()));
        if text.last() == '\n' {
            assert(lines(text)[n as int] == before.last());
            assert(terminated(lines(text), n + 1) =~= head + before.last().push('\n'));
            assert(text =~= terminated(lines(text), n + 1) + lines(text).last());
        } else {
            assert(lines(text).last() == before.last().push(text.last()));
            assert(text =~= terminated(lines(text), n) + lines(text).last());
        }
    }
}

proof fn lemma_terminated_prefix(a: Seq<Seq<char>>, b: Seq<Seq<char>>, n: nat)
    requires
        n <= a.len(),
        n <= b.len(),
        forall|i: int| 0 <= i < n ==> a[i] == b[i],
    ensures
        terminated(a, n) == terminated(b, n),
    decreases n,
{
    if n > 0 {
        lemma_terminated_prefix(a, b, (n - 1) as nat);
    }
}

proof fn lemma_kept_is_terminated(all: Seq<Seq<char>>, n: nat)
    requires
        n < all.len(),
        forall|i: int| 0 <= i < all.len() ==> !is_marker(#[trigger] all[i]),
    ensures
        kept_lines(all, n) == terminated(all, n),
    decreases n,
{
    if n > 0 {
        lemma_kept_is_terminated(all, (n - 1) as nat);
        assert(!is_marker(all[n - 1]));
    }
}

proof fn lemma_all_kept(text: Seq<char>)
    requires
        forall|i: int| 0 <= i < lines(text).len() ==> !is_marker(#[trigger] lines(text)[i]),
    ensures
        text == kept_lines(lines(text), (lines(text).len() - 1) as nat) + lines(text).last(),
{
    lemma_lines(text);
    lemma_terminated(text);
    lemma_kept_is_terminated(lines(text), (lines(text).len() - 1) as nat);
}

/// A dump without the commands is left as it is.
pub proof fn law_clean_text_is_kept(text: Seq<char>)
    requires
        forall|i: int| 0 <= i < lines(text).len() ==> !is_marker(#[trigger] lines(text)[i]),
    ensures
        without_markers(text) == text,
{
    lemma_rejoined(text);
}

/// Cleaning a dump again changes nothing.
pub proof fn law_cleaning_once_is_enough(text: Seq<char>)
    ensures
        without_markers(without_markers(text)) == without_markers(text),
{
    law_no_markers_left(text);
    lemma_rejoined(without_markers(text));
}

proof fn lemma_others_kept(all: Seq<Seq<char>>, n: nat, i: int)
    requires
        0 <= i < n <= all.len(),
        !is_marker(all[i]),
    ensures
        kept_so_far(all, n).contains(all[i]),
    decreases n,
{
    let before = kept_so_far(all, (n - 1) as nat);
    let now = kept_so_far(all, n);
    if i == n - 1 {
        assert(now[before.len() as int] == all[i]);
    } else {
        lemma_others_kept(all, (n - 1) as nat, i);
        let k = before.index_of(all[i]);
        assert(now[k] == all[i]);
    }
}

/// Every line of a dump that does not start with one of the commands is kept.
pub proof fn law_other_lines_are_kept(text: Seq<char>, i: int)
    requires
        0 <= i < lines(text).len(),
        !"\\restrict"@.is_prefix_of(lines(text)[i]),
        !"\\unrestrict"@.is_prefix_of(lines(text)[i]),
    ensures
        lines(without_markers(text)).contains(lines(text)[i]),
{
    let all = lines(text);
    lemma_lines(text);
    let n = (all.len() - 1) as nat;
    lemma_kept_lines(all, n);
    let before = kept_lines(all, n);
    let last = all[n as int];
    let result = lines(without_markers(text));
    if is_marker(last) {
        assert(without_markers(text) =~= before);
        assert(result =~= kept_so_far(all, n).push(Seq::empty()));
    } else {
        assert(without_markers(text) =~= before + last);
        lemma_lines_extend(before, last);
        assert(lines(before).last() + last =~= last);
        assert(result =~= kept_so_far(all, n).push(last));
    }
    if i < n {
        lemma_others_kept(all, n, i);
        let k = kept_so_far(all, n).index_of(all[i]);
        assert(result[k] == all[i]);
    } else {
        assert(result[kept_so_far(all, n).len() as int] == last);
    }
}

} // verus!
