//! Verified string utilities: equality, searching and splitting on `:`,
//! and prefix/suffix tests, all specified over `Seq<char>` views.

use vstd::prelude::*;

verus! {

/// Character-wise equality of two string slices.
pub fn str_eq(a: &str, b: &str) -> (r: bool)
    ensures
        r == (a@ == b@),
{
    let alen = a.unicode_len();
    let blen = b.unicode_len();
    if alen != blen {
        assert(a@ != b@) by {
            assert(a@.len() != b@.len());
        }
        return false;
    }
    let mut i: usize = 0;
    while i < alen
        invariant
            alen == a@.len(),
            alen == b@.len(),
            0 <= i <= alen,
            forall|j: int| 0 <= j < i ==> a@[j] == b@[j],
        decreases alen - i,
    {
        if a.get_char(i) != b.get_char(i) {
            return false;
        }
        i += 1;
    }
    proof {
        assert(a@ =~= b@);
    }
    true
}

/// Index of the first occurrence of `c` in `s`, or -1 when absent.
pub open spec fn first_index_of(s: Seq<char>, c: char) -> int
    decreases s.len(),
{
    if s.len() == 0 {
        -1
    } else if s[0] == c {
        0
    } else {
        let r = first_index_of(s.drop_first(), c);
        if r < 0 {
            -1
        } else {
            r + 1
        }
    }
}

/// `first_index_of` finds the least index holding `c`, or reports that
/// `c` does not occur.
pub proof fn lemma_first_index_of(s: Seq<char>, c: char)
    ensures
        first_index_of(s, c) >= 0 ==> {
            &&& 0 <= first_index_of(s, c) < s.len()
            &&& s[first_index_of(s, c)] == c
            &&& forall|j: int| 0 <= j < first_index_of(s, c) ==> s[j] != c
        },
        first_index_of(s, c) < 0 ==> forall|j: int| 0 <= j < s.len() ==> s[j] != c,
    decreases s.len(),
{
    if s.len() > 0 && s[0] != c {
        lemma_first_index_of(s.drop_first(), c);
        assert(forall|j: int| 1 <= j < s.len() ==> s[j] == s.drop_first()[j - 1]);
    }
}

/// Whether `c` occurs anywhere in `s`.
pub open spec fn contains_char(s: Seq<char>, c: char) -> bool {
    first_index_of(s, c) >= 0
}

/// Index of the first occurrence of `c` in `s` at or after position
/// `from`, or the length of `s` when there is none.
fn scan_for_char(s: &str, from: usize, c: char) -> (r: usize)
    requires
        from <= s@.len(),
    ensures
        from <= r <= s@.len(),
        r < s@.len() ==> s@[r as int] == c,
        forall|j: int| from <= j < r ==> s@[j] != c,
{
    let len = s.unicode_len();
    let mut i: usize = from;
    while i < len
        invariant
            from <= i <= len,
            len == s@.len(),
            forall|j: int| from <= j < i ==> s@[j] != c,
        decreases len - i,
    {
        if s.get_char(i) == c {
            return i;
        }
        i += 1;
    }
    i
}

/// The pieces of `s` cut at every occurrence of `c`; empty pieces are
/// kept, and a string without `c` is one piece.
pub open spec fn split_at_char(s: Seq<char>, c: char) -> Seq<Seq<char>>
    decreases s.len(),
{
    let i = first_index_of(s, c);
    if 0 <= i < s.len() {
        seq![s.take(i)] + split_at_char(s.skip(i + 1), c)
    } else {
        seq![s]
    }
}

/// Splitting yields at least one piece, and more than one exactly when
/// the character occurs.
pub proof fn lemma_split_at_char_len(s: Seq<char>, c: char)
    ensures
        split_at_char(s, c).len() >= 1,
        split_at_char(s, c).len() == 1 <==> !contains_char(s, c),
    decreases s.len(),
{
    lemma_first_index_of(s, c);
    let i = first_index_of(s, c);
    if i >= 0 {
        lemma_split_at_char_len(s.skip(i + 1), c);
    }
}

/// Splits `s` at every occurrence of `c`, as owned strings.
pub fn split_str_at_char(s: &str, c: char) -> (parts: Vec<String>)
    ensures
        parts.deep_view() == split_at_char(s@, c),
{
    let mut parts: Vec<String> = Vec::new();
    let len = s.unicode_len();
    let mut pos: usize = 0;
    proof {
        assert(s@.skip(0) =~= s@);
        assert(parts.deep_view() =~= Seq::<Seq<char>>::empty());
    }
    // Pieces cut so far, then the pieces of the remaining suffix.
    while pos < len
        invariant
            0 <= pos <= len,
            len == s@.len(),
            parts.deep_view() + split_at_char(s@.skip(pos as int), c) == split_at_char(s@, c),
        decreases len - pos,
    {
        let cut = scan_for_char(s, pos, c);
        let ghost rest = s@.skip(pos as int);
        proof {
            lemma_first_index_of(rest, c);
            if cut < len {
                // the first occurrence in the suffix is at cut - pos
                assert(forall|j: int| 0 <= j < cut - pos ==> rest[j] != c);
                assert(rest[cut - pos] == c);
                assert(first_index_of(rest, c) == cut - pos) by {
                    let fi = first_index_of(rest, c);
                    if fi < cut - pos {
                        assert(rest[fi] != c);
                    }
                    if fi > cut - pos || fi < 0 {
                        assert(rest[cut - pos] != c);
                    }
                }
            } else {
                assert(forall|j: int| 0 <= j < rest.len() ==> rest[j] != c);
                assert(first_index_of(rest, c) < 0) by {
                    let fi = first_index_of(rest, c);
                    if fi >= 0 {
                        assert(rest[fi] != c);
                    }
                }
            }
        }
        let piece = s.substring_char(pos, cut);
        parts.push(piece.to_owned());
        if cut == len {
            proof {
                assert(rest.take(rest.len() as int) =~= rest);
                assert(split_at_char(rest, c) =~= seq![rest]);
                assert(parts.deep_view() =~= split_at_char(s@, c));
            }
            return parts;
        }
        proof {
            assert(rest.take(cut - pos) =~= piece@);
            assert(rest.skip(cut - pos + 1) =~= s@.skip(cut + 1));
            assert(split_at_char(rest, c) == seq![piece@] + split_at_char(s@.skip(cut + 1), c));
        }
        pos = cut + 1;
        proof {
            assert(parts.deep_view() + split_at_char(s@.skip(pos as int), c) =~= split_at_char(s@, c));
        }
    }
    proof {
        if pos == len {
            let rest = s@.skip(pos as int);
            assert(rest.len() == 0);
            lemma_first_index_of(rest, c);
            assert(split_at_char(rest, c) == seq![rest]);
        }
    }
    let piece = s.substring_char(pos, len);
    parts.push(piece.to_owned());
    proof {
        assert(s@.skip(pos as int).take((len - pos) as int) =~= s@.skip(pos as int));
        assert(piece@ =~= s@.skip(pos as int));
        assert(parts.deep_view() =~= split_at_char(s@, c));
    }
    parts
}

/// Whether `pre` is a prefix of `s`.
pub open spec fn has_prefix(s: Seq<char>, pre: Seq<char>) -> bool {
    pre.len() <= s.len() && s.take(pre.len() as int) == pre
}

/// Prefix test on string slices.
pub fn starts_with(s: &str, pre: &str) -> (r: bool)
    ensures
        r == has_prefix(s@, pre@),
{
    let plen = pre.unicode_len();
    let slen = s.unicode_len();
    if plen > slen {
        return false;
    }
    let head = s.substring_char(0, plen);
    let r = str_eq(head, pre);
    proof {
        assert(head@ == s@.take(plen as int));
    }
    r
}

/// Whether `suf` is a suffix of `s`.
pub open spec fn has_suffix(s: Seq<char>, suf: Seq<char>) -> bool {
    suf.len() <= s.len() && s.skip(s.len() - suf.len()) == suf
}

/// Suffix test on string slices.
pub fn ends_with(s: &str, suf: &str) -> (r: bool)
    ensures
        r == has_suffix(s@, suf@),
{
    let flen = suf.unicode_len();
    let slen = s.unicode_len();
    if flen > slen {
        return false;
    }
    let tail = s.substring_char(slen - flen, slen);
    let r = str_eq(tail, suf);
    proof {
        assert(tail@ == s@.skip(s@.len() - suf@.len()));
    }
    r
}

/// A sequence in which `c` does not occur has no first index of `c`.
pub proof fn lemma_no_char_no_index(s: Seq<char>, c: char)
    requires
        forall|j: int| 0 <= j < s.len() ==> s[j] != c,
    ensures
        first_index_of(s, c) < 0,
        !contains_char(s, c),
{
    lemma_first_index_of(s, c);
    if first_index_of(s, c) >= 0 {
        assert(s[first_index_of(s, c)] == c);
    }
}

/// Every piece that splitting yields is free of the split character.
pub proof fn lemma_split_pieces_free(s: Seq<char>, c: char)
    ensures
        forall|k: int|
            0 <= k < split_at_char(s, c).len() ==> !contains_char(
                #[trigger] split_at_char(s, c)[k],
                c,
            ),
    decreases s.len(),
{
    lemma_first_index_of(s, c);
    let i = first_index_of(s, c);
    if 0 <= i < s.len() {
        let head = s.take(i);
        assert(forall|j: int| 0 <= j < head.len() ==> head[j] != c);
        lemma_no_char_no_index(head, c);
        lemma_split_pieces_free(s.skip(i + 1), c);
        assert(split_at_char(s, c) == seq![head] + split_at_char(s.skip(i + 1), c));
        assert(!contains_char(split_at_char(s, c)[0], c)) by {
            assert(split_at_char(s, c)[0] == head);
        }
        assert forall|k: int|
            1 <= k < split_at_char(s, c).len() implies !contains_char(
            #[trigger] split_at_char(s, c)[k],
            c,
        ) by {
            assert(split_at_char(s, c)[k] == split_at_char(s.skip(i + 1), c)[k - 1]);
        }
    } else {
        lemma_no_char_no_index(s, c);
        assert(split_at_char(s, c) == seq![s]);
    }
}

/// A piece free of the split character splits into itself alone.
pub proof fn lemma_split_single(s: Seq<char>, c: char)
    requires
        !contains_char(s, c),
    ensures
        split_at_char(s, c) == seq![s],
{
}

/// Splitting `a ++ c ++ rest`, with `a` free of `c`, cuts exactly at
/// that first `c`.
pub proof fn lemma_split_prepend(a: Seq<char>, rest: Seq<char>, c: char)
    requires
        !contains_char(a, c),
    ensures
        split_at_char(a + seq![c] + rest, c) == seq![a] + split_at_char(rest, c),
{
    let s = a + seq![c] + rest;
    lemma_first_index_of(a, c);
    assert(forall|j: int| 0 <= j < a.len() ==> a[j] != c);
    assert(s[a.len() as int] == c);
    assert(forall|j: int| 0 <= j < a.len() ==> s[j] == a[j]);
    lemma_first_index_of(s, c);
    let fi = first_index_of(s, c);
    if fi < 0 {
        assert(s[a.len() as int] != c);
        assert(false);
    }
    if fi < a.len() {
        assert(s[fi] != c);
        assert(false);
    }
    if fi > a.len() {
        assert(s[a.len() as int] != c);
        assert(false);
    }
    assert(fi == a.len());
    assert(s.take(fi) =~= a);
    assert(s.skip(fi + 1) =~= rest);
    assert(split_at_char(s, c) == seq![a] + split_at_char(rest, c));
}

} // verus!
