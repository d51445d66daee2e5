//! Windowed context construction.
//!
//! The window for the sentence at index `i` is the join, with single
//! spaces, of the `buffer_size` sentences before it, the sentence
//! itself, and the `buffer_size` sentences after it, with positions
//! outside the sequence simply omitted.

use vstd::prelude::*;

verus! {

/// The pieces joined with a single space between each pair.
pub open spec fn join_spaces(parts: Seq<Seq<char>>) -> Seq<char>
    decreases parts.len(),
{
    if parts.len() == 0 {
        Seq::empty()
    } else if parts.len() == 1 {
        parts[0]
    } else {
        parts[0] + seq![' '] + join_spaces(parts.drop_first())
    }
}

/// Index of the first sentence of window `i`.
pub open spec fn window_lo(i: int, buffer: int) -> int {
    if i - buffer > 0 {
        i - buffer
    } else {
        0
    }
}

/// One past the index of the last sentence of window `i` in a
/// sequence of `n` sentences.
pub open spec fn window_hi(i: int, buffer: int, n: int) -> int {
    if i + buffer + 1 < n {
        i + buffer + 1
    } else {
        n
    }
}

/// The contiguous run of sentences that makes up window `i`.
pub open spec fn window_pieces(sentences: Seq<Seq<char>>, i: int, buffer: int) -> Seq<Seq<char>> {
    sentences.subrange(window_lo(i, buffer), window_hi(i, buffer, sentences.len() as int))
}

/// The window string for the sentence at index `i`.
pub open spec fn window_spec(sentences: Seq<Seq<char>>, i: int, buffer: int) -> Seq<char> {
    join_spaces(window_pieces(sentences, i, buffer))
}

/// Appending one more piece extends the join with a single space.
proof fn lemma_join_spaces_push(parts: Seq<Seq<char>>, piece: Seq<char>)
    ensures
        join_spaces(parts.push(piece)) == if parts.len() == 0 {
            piece
        } else {
            join_spaces(parts) + seq![' '] + piece
        },
    decreases parts.len(),
{
    let whole = parts.push(piece);
    if parts.len() == 0 {
        assert(whole.len() == 1);
        assert(whole[0] == piece);
    } else if parts.len() == 1 {
        assert(whole.drop_first() =~= seq![piece]);
        assert(join_spaces(seq![piece]) == seq![piece][0]);
        assert(whole[0] == parts[0]);
        assert(join_spaces(whole) == parts[0] + seq![' '] + piece);
        assert(join_spaces(parts) == parts[0]);
    } else {
        assert(whole.drop_first() =~= parts.drop_first().push(piece));
        lemma_join_spaces_push(parts.drop_first(), piece);
        assert(join_spaces(whole) == whole[0] + seq![' '] + join_spaces(
            parts.drop_first().push(piece),
        ));
        assert(whole[0] == parts[0]);
        assert(parts[0] + seq![' '] + (join_spaces(parts.drop_first()) + seq![' '] + piece) =~= (
        parts[0] + seq![' '] + join_spaces(parts.drop_first())) + seq![' '] + piece);
    }
}

/// Window `i` of `n` sentences holds exactly
/// `min(buffer, i) + 1 + min(buffer, n - 1 - i)` sentences: the
/// available neighbors on each side and the sentence itself.
pub proof fn lemma_window_piece_count(sentences: Seq<Seq<char>>, i: int, buffer: int)
    requires
        0 <= i < sentences.len(),
        buffer >= 0,
    ensures
        window_pieces(sentences, i, buffer).len() == vstd::math::min(buffer, i) + 1
            + vstd::math::min(buffer, sentences.len() - 1 - i),
{
}

/// With a buffer of zero, every window is exactly its own sentence.
pub proof fn lemma_window_buffer_zero(sentences: Seq<Seq<char>>, i: int)
    requires
        0 <= i < sentences.len(),
    ensures
        window_spec(sentences, i, 0) == sentences[i],
{
    assert(window_pieces(sentences, i, 0) =~= seq![sentences[i]]);
}

/// Build the window string for each sentence.
pub fn build_windows(sentences: &[String], buffer_size: usize) -> (r: Vec<String>)
    ensures
        r@.len() == sentences@.len(),
        forall|i: int|
            0 <= i < r@.len() ==> r@[i]@ == window_spec(
                sentences.deep_view(),
                i,
                buffer_size as int,
            ),
{
    let n = sentences.len();
    let mut r: Vec<String> = Vec::new();
    let mut i: usize = 0;
    while i < n
        invariant
            0 <= i <= n,
            n == sentences@.len(),
            r@.len() == i,
            forall|k: int|
                0 <= k < i as int ==> r@[k]@ == window_spec(
                    sentences.deep_view(),
                    k,
                    buffer_size as int,
                ),
        decreases n - i,
    {
        let lo = if i >= buffer_size {
            i - buffer_size
        } else {
            0
        };
        let hi = if buffer_size >= n - i - 1 {
            n
        } else {
            i + buffer_size + 1
        };
        proof {
            assert(lo as int == window_lo(i as int, buffer_size as int));
            assert(hi as int == window_hi(i as int, buffer_size as int, n as int));
        }
        let ghost pieces = window_pieces(sentences.deep_view(), i as int, buffer_size as int);
        let mut w = String::new();
        let mut j = lo;
        while j < hi
            invariant
                lo <= j <= hi,
                lo as int == window_lo(i as int, buffer_size as int),
                hi as int == window_hi(i as int, buffer_size as int, n as int),
                0 <= lo <= i as int,
                (i as int) < hi <= n,
                n == sentences@.len(),
                pieces == window_pieces(sentences.deep_view(), i as int, buffer_size as int),
                w@ == join_spaces(pieces.subrange(0, j - lo)),
            decreases hi - j,
        {
            let ghost done = pieces.subrange(0, j - lo);
            proof {
                reveal_strlit(" ");
            }
            if j > lo {
                w.append(" ");
                assert(" "@ =~= seq![' ']);
            }
            let piece = &sentences[j];
            w.append(piece.as_str());
            proof {
                assert(pieces[j - lo] == sentences.deep_view()[j as int]);
                assert(sentences.deep_view()[j as int] == sentences@[j as int]@);
                lemma_join_spaces_push(done, piece@);
                assert(done.push(piece@) =~= pieces.subrange(0, j - lo + 1));
                if j > lo {
                    assert(w@ == join_spaces(done) + seq![' '] + piece@);
                } else {
                    assert(done.len() == 0);
                    assert(w@ =~= piece@);
                }
            }
            j = j + 1;
        }
        proof {
            assert(pieces.subrange(0, hi - lo) =~= pieces);
        }
        r.push(w);
        i = i + 1;
    }
    r
}

} // verus!
