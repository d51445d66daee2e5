//! Sentence segmentation.
//!
//! A sentence ends at a terminal punctuation mark (`.`, `!` or `?`)
//! followed by a run of whitespace.  Each sentence keeps its
//! punctuation, is trimmed of surrounding whitespace, and any text
//! left after the last separator becomes a final sentence.

use vstd::prelude::*;

use crate::window::join_spaces;

verus! {

/// Terminal punctuation: a sentence may end at one of these marks.
pub open spec fn is_terminal(c: char) -> bool {
    c == '.' || c == '!' || c == '?'
}

/// The whitespace class used by the splitter: the ASCII whitespace
/// characters (space, tab, line feed, vertical tab, form feed,
/// carriage return).
pub open spec fn is_space(c: char) -> bool {
    c == ' ' || c == '\t' || c == '\n' || c == '\u{b}' || c == '\u{c}' || c == '\r'
}

/// Executable form of `is_terminal`.
pub fn is_terminal_char(c: char) -> (r: bool)
    ensures
        r == is_terminal(c),
{
    c == '.' || c == '!' || c == '?'
}

/// Executable form of `is_space`.
pub fn is_space_char(c: char) -> (r: bool)
    ensures
        r == is_space(c),
{
    c == ' ' || c == '\t' || c == '\n' || c == '\u{b}' || c == '\u{c}' || c == '\r'
}

/// `s` without its leading run of whitespace.
pub open spec fn trim_start_spec(s: Seq<char>) -> Seq<char>
    decreases s.len(),
{
    if s.len() > 0 && is_space(s[0]) {
        trim_start_spec(s.drop_first())
    } else {
        s
    }
}

/// `s` without its trailing run of whitespace.
pub open spec fn trim_end_spec(s: Seq<char>) -> Seq<char>
    decreases s.len(),
{
    if s.len() > 0 && is_space(s[s.len() - 1]) {
        trim_end_spec(s.drop_last())
    } else {
        s
    }
}

/// `s` without leading and trailing whitespace.
pub open spec fn trim_spec(s: Seq<char>) -> Seq<char> {
    trim_end_spec(trim_start_spec(s))
}

/// Dropping the leading whitespace run keeps exactly the suffix that
/// starts at the first non-whitespace position.
proof fn lemma_trim_start_at(s: Seq<char>, a: int)
    requires
        0 <= a <= s.len(),
        forall|k: int| 0 <= k < a ==> is_space(#[trigger] s[k]),
        a == s.len() || !is_space(s[a]),
    ensures
        trim_start_spec(s) == s.subrange(a, s.len() as int),
    decreases a,
{
    if a == 0 {
        assert(s.subrange(0, s.len() as int) =~= s);
    } else {
        lemma_trim_start_at(s.drop_first(), a - 1);
        assert(trim_start_spec(s) == trim_start_spec(s.drop_first()));
        assert(s.drop_first().subrange(a - 1, s.drop_first().len() as int) =~= s.subrange(
            a,
            s.len() as int,
        ));
    }
}

/// Dropping the trailing whitespace run keeps exactly the prefix that
/// ends after the last non-whitespace position.
proof fn lemma_trim_end_at(s: Seq<char>, b: int)
    requires
        0 <= b <= s.len(),
        forall|k: int| b <= k < s.len() ==> is_space(#[trigger] s[k]),
        b == 0 || !is_space(s[b - 1]),
    ensures
        trim_end_spec(s) == s.subrange(0, b),
    decreases s.len(),
{
    if b == s.len() {
        assert(s.subrange(0, b) =~= s);
        if s.len() > 0 {
            assert(!is_space(s[s.len() - 1]));
        }
    } else {
        assert(is_space(s[s.len() - 1]));
        lemma_trim_end_at(s.drop_last(), b);
        assert(s.drop_last().subrange(0, b) =~= s.subrange(0, b));
    }
}

/// Trim a string of its leading and trailing whitespace, as
/// `trim_spec` describes.
pub fn trim(s: &str) -> (r: &str)
    ensures
        r@ == trim_spec(s@),
{
    let n = s.unicode_len();
    let mut a: usize = 0;
    while a < n && is_space_char(s.get_char(a))
        invariant
            0 <= a <= n,
            n == s@.len(),
            forall|k: int| 0 <= k < a ==> is_space(#[trigger] s@[k]),
        decreases n - a,
    {
        a = a + 1;
    }
    proof {
        lemma_trim_start_at(s@, a as int);
    }
    if a == n {
        let r = s.substring_char(n, n);
        proof {
            assert(trim_start_spec(s@) =~= Seq::<char>::empty());
            assert(trim_spec(s@) =~= Seq::<char>::empty());
        }
        r
    } else {
        let mut b: usize = n;
        while b > a && is_space_char(s.get_char(b - 1))
            invariant
                a <= b <= n,
                n == s@.len(),
                forall|k: int| b <= k < n ==> is_space(#[trigger] s@[k]),
            decreases b,
        {
            b = b - 1;
        }
        proof {
            let t = s@.subrange(a as int, n as int);
            assert(forall|k: int| 0 <= k < t.len() ==> t[k] == s@[a + k]);
            assert(b > a) by {
                assert(!is_space(s@[a as int]));
            }
            lemma_trim_end_at(t, b - a);
            assert(t.subrange(0, b - a) =~= s@.subrange(a as int, b as int));
        }
        s.substring_char(a, b)
    }
}

/// A separator match starts at position `p`: a terminal mark there,
/// followed by at least one whitespace character.
pub open spec fn match_at(s: Seq<char>, p: int) -> bool {
    &&& 0 <= p
    &&& p + 1 < s.len()
    &&& is_terminal(s[p])
    &&& is_space(s[p + 1])
}

/// The first separator-match position at or after `from`, or the
/// length of `s` when no further match exists.
pub open spec fn find_match(s: Seq<char>, from: int) -> int
    decreases s.len() - from,
{
    if from < 0 || from + 1 >= s.len() {
        s.len() as int
    } else if match_at(s, from) {
        from
    } else {
        find_match(s, from + 1)
    }
}

/// The first position at or after `from` that does not hold
/// whitespace, or the length of `s`.
pub open spec fn skip_spaces(s: Seq<char>, from: int) -> int
    decreases s.len() - from,
{
    if 0 <= from < s.len() && is_space(s[from]) {
        skip_spaces(s, from + 1)
    } else {
        from
    }
}

/// What `find_match` returns: the least match position at or after
/// `from`, or the length when there is none.
pub proof fn lemma_find_match(s: Seq<char>, from: int)
    requires
        0 <= from <= s.len(),
    ensures
        from <= find_match(s, from) <= s.len(),
        find_match(s, from) < s.len() ==> match_at(s, find_match(s, from)),
        forall|k: int| from <= k < find_match(s, from) ==> !match_at(s, k),
    decreases s.len() - from,
{
    if from + 1 >= s.len() {
        assert(forall|k: int| from <= k < s.len() ==> !match_at(s, k));
    } else if match_at(s, from) {
    } else {
        lemma_find_match(s, from + 1);
    }
}

/// What `skip_spaces` returns: the end of the whitespace run that
/// starts at `from`.
pub proof fn lemma_skip_spaces(s: Seq<char>, from: int)
    requires
        0 <= from <= s.len(),
    ensures
        from <= skip_spaces(s, from) <= s.len(),
        skip_spaces(s, from) < s.len() ==> !is_space(s[skip_spaces(s, from)]),
        forall|k: int| from <= k < skip_spaces(s, from) ==> is_space(#[trigger] s[k]),
    decreases s.len() - from,
{
    if 0 <= from < s.len() && is_space(s[from]) {
        lemma_skip_spaces(s, from + 1);
    }
}

/// The sentences of `s` from position `start` on.  Each separator
/// match closes a sentence that runs to the end of the match's
/// whitespace and is then trimmed; a trimmed remainder, when text is
/// left after the last match, closes the sequence.
pub open spec fn split_from(s: Seq<char>, start: int) -> Seq<Seq<char>>
    decreases s.len() - start when 0 <= start <= s.len() via split_from_decreases
{
    if start >= s.len() {
        Seq::empty()
    } else {
        let p = find_match(s, start);
        if p == s.len() {
            seq![trim_spec(s.subrange(start, s.len() as int))]
        } else {
            let e = skip_spaces(s, p + 1);
            seq![trim_spec(s.subrange(start, e))] + split_from(s, e)
        }
    }
}

#[via_fn]
proof fn split_from_decreases(s: Seq<char>, start: int) {
    if 0 <= start < s.len() {
        let p = find_match(s, start);
        lemma_find_match(s, start);
        if p < s.len() {
            lemma_skip_spaces(s, p + 1);
        }
    }
}

/// The ordered sentences of `s`.
pub open spec fn split_spec(s: Seq<char>) -> Seq<Seq<char>> {
    split_from(s, 0)
}

/// Find the first separator match at or after `start`, returning the
/// text length when there is none.
fn find_next_match(text: &str, start: usize) -> (p: usize)
    requires
        start <= text@.len(),
    ensures
        p as int == find_match(text@, start as int),
{
    let n = text.unicode_len();
    let mut p = start;
    while n > 0 && p < n - 1 && !(is_terminal_char(text.get_char(p)) && is_space_char(text.get_char(
        p + 1,
    )))
        invariant
            start <= p <= n,
            n == text@.len(),
            p < n || p == start,
            forall|k: int| start <= k < p ==> !match_at(text@, k),
        decreases n - p,
    {
        p = p + 1;
    }
    proof {
        lemma_find_match(text@, start as int);
        let f = find_match(text@, start as int);
        if p + 1 < n {
            // the loop stopped on a match, and none lies before it
            assert(match_at(text@, p as int));
            assert(f <= p as int);
            assert(p as int <= f);
        } else {
            // no match anywhere at or after start
            assert(forall|k: int| start <= k < text@.len() ==> !match_at(text@, k));
            if f < text@.len() {
                assert(match_at(text@, f));
                assert(false);
            }
            if p + 1 == n {
                assert(!match_at(text@, p as int));
            }
        }
    }
    if n > 0 && p < n - 1 {
        p
    } else {
        n
    }
}

/// Walk past the whitespace run that starts at `from`.
fn skip_space_run(text: &str, from: usize) -> (e: usize)
    requires
        from <= text@.len(),
    ensures
        e as int == skip_spaces(text@, from as int),
{
    let n = text.unicode_len();
    let mut e = from;
    while e < n && is_space_char(text.get_char(e))
        invariant
            from <= e <= n,
            n == text@.len(),
            forall|k: int| from <= k < e ==> is_space(#[trigger] text@[k]),
            skip_spaces(text@, from as int) == skip_spaces(text@, e as int),
        decreases n - e,
    {
        e = e + 1;
    }
    e
}

/// Split `text` into its ordered sequence of trimmed sentences.
pub fn split_sentences(text: &str) -> (r: Vec<String>)
    ensures
        r.deep_view() == split_spec(text@),
{
    let n = text.unicode_len();
    let mut out: Vec<String> = Vec::new();
    let mut start: usize = 0;
    while start < n
        invariant
            0 <= start <= n,
            n == text@.len(),
            split_spec(text@) == out.deep_view() + split_from(text@, start as int),
        decreases n - start,
    {
        let ghost prev = out.deep_view();
        let p = find_next_match(text, start);
        proof {
            lemma_find_match(text@, start as int);
        }
        let next: usize;
        if p == n {
            let piece = trim(text.substring_char(start, n)).to_owned();
            out.push(piece);
            next = n;
        } else {
            proof {
                lemma_skip_spaces(text@, p + 1);
            }
            let e = skip_space_run(text, p + 1);
            let piece = trim(text.substring_char(start, e)).to_owned();
            out.push(piece);
            next = e;
        }
        proof {
            assert(out.deep_view() =~= prev.push(out@[out@.len() - 1].deep_view()));
            assert(split_from(text@, start as int) =~= seq![
                out@[out@.len() - 1].deep_view(),
            ] + split_from(text@, next as int));
            assert(prev + split_from(text@, start as int) =~= out.deep_view() + split_from(
                text@,
                next as int,
            ));
        }
        start = next;
    }
    proof {
        assert(split_from(text@, start as int) =~= Seq::<Seq<char>>::empty());
        assert(out.deep_view() + split_from(text@, start as int) =~= out.deep_view());
    }
    out
}

/// A non-empty text with no terminal punctuation splits into exactly
/// one sentence: the whole text, trimmed.
pub proof fn lemma_split_no_terminal(text: Seq<char>)
    requires
        text.len() > 0,
        forall|k: int| 0 <= k < text.len() ==> !is_terminal(#[trigger] text[k]),
    ensures
        split_spec(text) == seq![trim_spec(text)],
{
    lemma_find_match(text, 0);
    let p = find_match(text, 0);
    if p < text.len() {
        assert(is_terminal(text[p]));
        assert(false);
    }
    assert(text.subrange(0, text.len() as int) =~= text);
}

/// The characters of `s` that are not whitespace, in order.
pub open spec fn visible_chars(s: Seq<char>) -> Seq<char> {
    s.filter(|c: char| !is_space(c))
}

proof fn lemma_visible_singleton(c: char)
    ensures
        visible_chars(seq![c]) == if is_space(c) {
            Seq::<char>::empty()
        } else {
            seq![c]
        },
{
    reveal_with_fuel(Seq::<char>::filter, 2);
    assert(seq![c].drop_last() =~= Seq::<char>::empty());
    if !is_space(c) {
        assert(Seq::<char>::empty().push(c) =~= seq![c]);
    }
}

proof fn lemma_visible_trim_start(s: Seq<char>)
    ensures
        visible_chars(trim_start_spec(s)) == visible_chars(s),
    decreases s.len(),
{
    if s.len() > 0 && is_space(s[0]) {
        lemma_visible_trim_start(s.drop_first());
        assert(s =~= seq![s[0]] + s.drop_first());
        Seq::<char>::filter_distributes_over_add(
            seq![s[0]],
            s.drop_first(),
            |c: char| !is_space(c),
        );
        lemma_visible_singleton(s[0]);
        assert(visible_chars(s) =~= visible_chars(s.drop_first()));
    }
}

proof fn lemma_visible_trim_end(s: Seq<char>)
    ensures
        visible_chars(trim_end_spec(s)) == visible_chars(s),
    decreases s.len(),
{
    reveal(Seq::filter);
    if s.len() > 0 && is_space(s[s.len() - 1]) {
        lemma_visible_trim_end(s.drop_last());
    }
}

/// Trimming removes only whitespace: the non-whitespace characters
/// stay as they were.
pub proof fn lemma_visible_trim(s: Seq<char>)
    ensures
        visible_chars(trim_spec(s)) == visible_chars(s),
{
    lemma_visible_trim_start(s);
    lemma_visible_trim_end(trim_start_spec(s));
}

proof fn lemma_split_from_visible(s: Seq<char>, start: int)
    requires
        0 <= start <= s.len(),
    ensures
        visible_chars(join_spaces(split_from(s, start))) == visible_chars(
            s.subrange(start, s.len() as int),
        ),
    decreases s.len() - start,
{
    reveal(Seq::filter);
    if start >= s.len() {
        assert(s.subrange(start, s.len() as int) =~= Seq::<char>::empty());
        assert(split_from(s, start) =~= Seq::<Seq<char>>::empty());
    } else {
        lemma_find_match(s, start);
        let p = find_match(s, start);
        if p == s.len() {
            lemma_visible_trim(s.subrange(start, s.len() as int));
        } else {
            lemma_skip_spaces(s, p + 1);
            let e = skip_spaces(s, p + 1);
            lemma_split_from_visible(s, e);
            lemma_visible_trim(s.subrange(start, e));
            let piece = trim_spec(s.subrange(start, e));
            let rest = split_from(s, e);
            let whole = seq![piece] + rest;
            assert(whole[0] == piece);
            assert(whole.drop_first() =~= rest);
            assert(s.subrange(start, s.len() as int) =~= s.subrange(start, e) + s.subrange(
                e,
                s.len() as int,
            ));
            Seq::<char>::filter_distributes_over_add(
                s.subrange(start, e),
                s.subrange(e, s.len() as int),
                |c: char| !is_space(c),
            );
            if rest.len() == 0 {
                assert(e == s.len());
                assert(join_spaces(whole) == piece);
                assert(visible_chars(s.subrange(e, s.len() as int)) =~= Seq::<char>::empty());
            } else {
                assert(join_spaces(whole) == piece + seq![' '] + join_spaces(rest));
                Seq::<char>::filter_distributes_over_add(
                    piece + seq![' '],
                    join_spaces(rest),
                    |c: char| !is_space(c),
                );
                Seq::<char>::filter_distributes_over_add(piece, seq![' '], |c: char| !is_space(c));
                lemma_visible_singleton(' ');
                assert(visible_chars(piece + seq![' ']) =~= visible_chars(piece));
                assert(visible_chars(join_spaces(whole)) =~= visible_chars(piece) + visible_chars(
                    join_spaces(rest),
                ));
            }
        }
    }
}

/// Reconstruction: joining the split sentences with single spaces
/// keeps exactly the non-whitespace characters of the original text,
/// in their original order.
pub proof fn lemma_split_reconstruction(text: Seq<char>)
    ensures
        visible_chars(join_spaces(split_spec(text))) == visible_chars(text),
{
    lemma_split_from_visible(text, 0);
    assert(text.subrange(0, text.len() as int) =~= text);
}

} // verus!
