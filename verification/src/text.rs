//! Splitting text on a separator character, the way `str::split` does:
//! every occurrence of the separator ends a piece, empty pieces are kept,
//! and there is always at least one piece.

use vstd::prelude::*;

verus! {

/// Index of the first occurrence of `sep` in `s`, or `s.len()` if `s` does
/// not contain `sep`.
pub open spec fn first_sep(s: Seq<char>, sep: char) -> int
    decreases s.len(),
{
    if s.len() == 0 {
        0
    } else if s[0] == sep {
        0
    } else {
        1 + first_sep(s.drop_first(), sep)
    }
}

pub proof fn lemma_first_sep(s: Seq<char>, sep: char)
    ensures
        0 <= first_sep(s, sep) <= s.len(),
        first_sep(s, sep) < s.len() ==> s[first_sep(s, sep)] == sep,
        forall|j: int| 0 <= j < first_sep(s, sep) ==> s[j] != sep,
    decreases s.len(),
{
    if s.len() == 0 {
    } else if s[0] == sep {
    } else {
        lemma_first_sep(s.drop_first(), sep);
        assert forall|j: int| 0 <= j < first_sep(s, sep) implies s[j] != sep by {
            if j > 0 {
                assert(s.drop_first()[j - 1] != sep);
            }
        }
    }
}

#[via_fn]
proof fn split_on_decreases(s: Seq<char>, sep: char) {
    lemma_first_sep(s, sep);
}

/// The pieces of `s` between occurrences of `sep`.
pub open spec fn split_on(s: Seq<char>, sep: char) -> Seq<Seq<char>>
    decreases s.len(),
        via split_on_decreases
{
    let i = first_sep(s, sep);
    if i == s.len() {
        seq![s]
    } else {
        seq![s.take(i)] + split_on(s.skip(i + 1), sep)
    }
}

/// A split always yields at least one piece, and splitting a sequence free of
/// the separator yields exactly that sequence.
pub proof fn lemma_split_on_basic(s: Seq<char>, sep: char)
    ensures
        split_on(s, sep).len() >= 1,
        (forall|j: int| 0 <= j < s.len() ==> s[j] != sep) ==> split_on(s, sep) == seq![s],
{
    lemma_first_sep(s, sep);
    if forall|j: int| 0 <= j < s.len() ==> s[j] != sep {
        if first_sep(s, sep) < s.len() {
            assert(s[first_sep(s, sep)] == sep);
        }
    }
}

/// How a split decomposes at the first separator: if `s[k]` is the first
/// occurrence of `sep`, the pieces are `s[..k]` followed by the pieces of
/// `s[k+1..]`.
pub proof fn lemma_split_on_step(s: Seq<char>, sep: char, k: int)
    requires
        0 <= k < s.len(),
        s[k] == sep,
        forall|j: int| 0 <= j < k ==> s[j] != sep,
    ensures
        split_on(s, sep) == seq![s.take(k)] + split_on(s.skip(k + 1), sep),
    decreases s.len(),
{
    lemma_first_sep(s, sep);
    if first_sep(s, sep) < k {
        assert(s[first_sep(s, sep)] != sep);
    }
    if first_sep(s, sep) > k {
        assert(s[k] != sep);
    }
    assert(first_sep(s, sep) == k);
}

/// Splits `s` on every occurrence of `sep`, as `str::split` does.
pub fn split_char(s: &str, sep: char) -> (r: Vec<String>)
    ensures
        r.deep_view() == split_on(s@, sep),
{
    let n = s.unicode_len();
    let mut r: Vec<String> = Vec::new();
    let mut start: usize = 0;
    let mut i: usize = 0;
    proof {
        assert(s@.subrange(0, n as int) =~= s@);
        assert(r.deep_view() =~= Seq::<Seq<char>>::empty());
        assert(Seq::<Seq<char>>::empty() + split_on(s@, sep) =~= split_on(s@, sep));
    }
    while i < n
        invariant
            n == s@.len(),
            0 <= start <= i <= n,
            forall|j: int| start <= j < i ==> s@[j] != sep,
            split_on(s@, sep) == r.deep_view() + split_on(s@.subrange(start as int, n as int), sep),
        decreases n - i,
    {
        if s.get_char(i) == sep {
            let piece = s.substring_char(start, i);
            r.push(piece.to_owned());
            proof {
                let tail = s@.subrange(start as int, n as int);
                lemma_split_on_step(tail, sep, i - start);
                assert(tail.take(i - start) =~= s@.subrange(start as int, i as int));
                assert(tail.skip(i - start + 1) =~= s@.subrange(i + 1 as int, n as int));
                assert(r.deep_view() =~= r.deep_view().drop_last() + seq![piece@]);
                assert(split_on(s@, sep) == r.deep_view() + split_on(
                    s@.subrange(i + 1 as int, n as int),
                    sep,
                ));
            }
            start = i + 1;
        }
        i += 1;
    }
    let last = s.substring_char(start, n);
    r.push(last.to_owned());
    proof {
        let tail = s@.subrange(start as int, n as int);
        lemma_split_on_basic(tail, sep);
        assert(split_on(tail, sep) == seq![last@]);
        assert(r.deep_view() =~= r.deep_view().drop_last() + seq![last@]);
    }
    r
}

} // verus!
