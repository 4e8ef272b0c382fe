//! Splitting text into lines and fields.

use vstd::prelude::*;

verus! {

/// The pieces of `s` between occurrences of `sep`, in order.
///
/// Every occurrence of `sep` ends a piece, and the empty sequence splits into
/// one empty piece, so the result always holds one more piece than `s` holds
/// separators. The definition peels characters off the end: a closing `sep`
/// opens a fresh empty piece, and any other character extends the last piece.
pub open spec fn split_char(s: Seq<char>, sep: char) -> Seq<Seq<char>>
    decreases s.len(),
{
    if s.len() == 0 {
        seq![Seq::<char>::empty()]
    } else {
        let init = split_char(s.drop_last(), sep);
        if s.last() == sep {
            init.push(Seq::<char>::empty())
        } else {
            init.update(init.len() - 1, init.last().push(s.last()))
        }
    }
}

/// A split never yields an empty list of pieces.
pub proof fn lemma_split_char_nonempty(s: Seq<char>, sep: char)
    ensures
        split_char(s, sep).len() >= 1,
    decreases s.len(),
{
    if s.len() > 0 {
        lemma_split_char_nonempty(s.drop_last(), sep);
    }
}

/// The lines of `s`: the pieces between `'\n'` characters, except that a final
/// empty piece (the effect of a trailing newline, or of an empty input) is not
/// a line.
pub open spec fn split_lines(s: Seq<char>) -> Seq<Seq<char>> {
    let parts = split_char(s, '\n');
    if parts.last().len() == 0 {
        parts.drop_last()
    } else {
        parts
    }
}

/// Splits `s` at every occurrence of `sep`.
pub fn split_on(s: &str, sep: char) -> (r: Vec<String>)
    ensures
        r.deep_view() == split_char(s@, sep),
{
    let n = s.unicode_len();
    let mut out: Vec<String> = Vec::new();
    let mut start: usize = 0;
    let mut i: usize = 0;
    while i < n
        invariant
            n == s@.len(),
            start <= i <= n,
            out.deep_view() == split_char(s@.subrange(0, i as int), sep).drop_last(),
            split_char(s@.subrange(0, i as int), sep).last() == s@.subrange(
                start as int,
                i as int,
            ),
        decreases n - i,
    {
        let ghost prefix = s@.subrange(0, i as int);
        let ghost extended = s@.subrange(0, i + 1 as int);
        proof {
            assert(extended.drop_last() =~= prefix);
            assert(extended.last() == s@[i as int]);
            lemma_split_char_nonempty(prefix, sep);
        }
        let c = s.get_char(i);
        if c == sep {
            let piece = s.substring_char(start, i).to_owned();
            out.push(piece);
            proof {
                let parts = split_char(prefix, sep);
                assert(split_char(extended, sep) == parts.push(Seq::<char>::empty()));
                assert(parts.push(Seq::<char>::empty()).drop_last() =~= parts);
                assert(parts =~= parts.drop_last().push(parts.last()));
                assert(out.deep_view() =~= parts);
                assert(s@.subrange((i + 1) as int, (i + 1) as int) =~= Seq::<char>::empty());
            }
            start = i + 1;
        } else {
            proof {
                let parts = split_char(prefix, sep);
                let grown = parts.update(parts.len() - 1, parts.last().push(s@[i as int]));
                assert(split_char(extended, sep) == grown);
                assert(grown.drop_last() =~= parts.drop_last());
                assert(grown.last() == s@.subrange(start as int, i as int).push(s@[i as int]));
                assert(s@.subrange(start as int, i as int).push(s@[i as int]) =~= s@.subrange(
                    start as int,
                    (i + 1) as int,
                ));
            }
        }
        i = i + 1;
    }
    proof {
        assert(s@.subrange(0, n as int) =~= s@);
        lemma_split_char_nonempty(s@, sep);
    }
    let last_piece = s.substring_char(start, n).to_owned();
    let ghost last_view = last_piece@;
    let ghost dv_before = out.deep_view();
    out.push(last_piece);
    proof {
        assert(out.deep_view() =~= dv_before.push(last_view));
        let parts = split_char(s@, sep);
        assert(parts.drop_last().push(parts.last()) =~= parts);
        assert(out.deep_view() =~= parts);
    }
    out
}

/// Splits `s` into its lines.
pub fn lines_of(s: &str) -> (r: Vec<String>)
    ensures
        r.deep_view() == split_lines(s@),
{
    let mut parts = split_on(s, '\n');
    proof {
        lemma_split_char_nonempty(s@, '\n');
    }
    let last_index = parts.len() - 1;
    if parts[last_index].as_str().is_empty() {
        let ghost before = parts.deep_view();
        parts.pop();
        proof {
            assert(parts.deep_view() =~= before.drop_last());
        }
    }
    parts
}

} // verus!
