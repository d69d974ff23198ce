//! Character-level helpers shared by the key-expression and endpoint logic.
//!
//! Strings are reasoned about through their character sequences (`String::view`).
//! Splitting follows `str::split` with a single-character separator: the
//! result always has one more element than there are separators.

use vstd::prelude::*;

verus! {

/// The pieces of `s` between occurrences of `sep`, as `str::split(sep)` yields them.
pub open spec fn split_on(s: Seq<char>, sep: char) -> Seq<Seq<char>>
    decreases s.len(),
{
    if s.len() == 0 {
        seq![Seq::<char>::empty()]
    } else {
        let init = split_on(s.drop_last(), sep);
        if s.last() == sep {
            init.push(Seq::<char>::empty())
        } else {
            init.update(init.len() - 1, init.last().push(s.last()))
        }
    }
}

/// The pieces joined back together with `sep` between neighbours.
pub open spec fn join_on(parts: Seq<Seq<char>>, sep: char) -> Seq<char>
    decreases parts.len(),
{
    if parts.len() == 0 {
        Seq::<char>::empty()
    } else if parts.len() == 1 {
        parts[0]
    } else {
        join_on(parts.drop_last(), sep).push(sep) + parts.last()
    }
}

/// Index of the first `sep` in `s`, or `s.len()` when there is none.
pub open spec fn first_index_of(s: Seq<char>, sep: char) -> int
    decreases s.len(),
{
    if s.len() == 0 {
        0
    } else if s[0] == sep {
        0
    } else {
        1 + first_index_of(s.drop_first(), sep)
    }
}

pub proof fn lemma_split_nonempty(s: Seq<char>, sep: char)
    ensures
        split_on(s, sep).len() >= 1,
    decreases s.len(),
{
    if s.len() > 0 {
        lemma_split_nonempty(s.drop_last(), sep);
    }
}

/// A string without the separator is a single piece.
pub proof fn lemma_split_no_sep(s: Seq<char>, sep: char)
    requires
        !s.contains(sep),
    ensures
        split_on(s, sep) == seq![s],
    decreases s.len(),
{
    if s.len() > 0 {
        assert(!s.drop_last().contains(sep)) by {
            if s.drop_last().contains(sep) {
                let i = choose|i: int| 0 <= i < s.drop_last().len() && s.drop_last()[i] == sep;
                assert(s[i] == sep);
            }
        }
        lemma_split_no_sep(s.drop_last(), sep);
        assert(s.last() != sep) by {
            assert(s[s.len() - 1] == s.last());
        }
        assert(s.drop_last().push(s.last()) =~= s);
        let init = split_on(s.drop_last(), sep);
        assert(init.len() == 1 && init.last() == s.drop_last());
        assert(init.update(0, s.drop_last().push(s.last())) =~= seq![s]);
    } else {
        assert(s =~= Seq::<char>::empty());
    }
}

/// Splitting at a separator splits the pieces: `split(a + [sep] + b) == split(a) + split(b)`.
pub proof fn lemma_split_concat(a: Seq<char>, b: Seq<char>, sep: char)
    ensures
        split_on(a.push(sep) + b, sep) == split_on(a, sep) + split_on(b, sep),
    decreases b.len(),
{
    if b.len() == 0 {
        assert(a.push(sep) + b =~= a.push(sep));
        assert((a.push(sep)).drop_last() =~= a);
        assert(split_on(a, sep) + split_on(b, sep) =~= split_on(a, sep).push(Seq::<char>::empty()));
    } else {
        let s = a.push(sep) + b;
        assert(s.drop_last() =~= a.push(sep) + b.drop_last());
        assert(s.last() == b.last());
        lemma_split_concat(a, b.drop_last(), sep);
        lemma_split_nonempty(b.drop_last(), sep);
        lemma_split_nonempty(a, sep);
        let pa = split_on(a, sep);
        let pb = split_on(b.drop_last(), sep);
        if b.last() == sep {
            assert((pa + pb).push(Seq::<char>::empty()) =~= pa + pb.push(Seq::<char>::empty()));
        } else {
            let u = pa + pb;
            assert(u.update(u.len() - 1, u.last().push(b.last())) =~= pa + pb.update(
                pb.len() - 1,
                pb.last().push(b.last()),
            ));
        }
    }
}

/// No piece of a split contains the separator.
pub proof fn lemma_split_pieces_free(s: Seq<char>, sep: char)
    ensures
        forall|i: int|
            0 <= i < split_on(s, sep).len() ==> !(#[trigger] split_on(s, sep)[i]).contains(sep),
    decreases s.len(),
{
    if s.len() > 0 {
        lemma_split_pieces_free(s.drop_last(), sep);
        lemma_split_nonempty(s.drop_last(), sep);
        let init = split_on(s.drop_last(), sep);
        if s.last() != sep {
            let last = init.last().push(s.last());
            assert(!last.contains(sep)) by {
                if last.contains(sep) {
                    let j = choose|j: int| 0 <= j < last.len() && last[j] == sep;
                    if j < last.len() - 1 {
                        assert(init.last()[j] == sep);
                        assert(init[init.len() - 1].contains(sep));
                    }
                }
            }
        }
    }
}

/// Joining the pieces of a split gives back the string.
pub proof fn lemma_join_split(s: Seq<char>, sep: char)
    ensures
        join_on(split_on(s, sep), sep) == s,
    decreases s.len(),
{
    if s.len() > 0 {
        let t = s.drop_last();
        lemma_join_split(t, sep);
        lemma_split_nonempty(t, sep);
        let init = split_on(t, sep);
        if s.last() == sep {
            let parts = init.push(Seq::<char>::empty());
            assert(parts.drop_last() =~= init);
            assert(join_on(parts, sep) =~= t.push(sep));
            assert(t.push(sep) =~= s);
        } else {
            let parts = init.update(init.len() - 1, init.last().push(s.last()));
            if init.len() == 1 {
                assert(join_on(init, sep) == init[0]);
                assert(parts[0] == init.last().push(s.last()));
                assert(t.push(s.last()) =~= s);
            } else {
                assert(parts.drop_last() =~= init.drop_last());
                assert(join_on(init, sep) == join_on(init.drop_last(), sep).push(sep) + init.last());
                assert(join_on(parts, sep) =~= join_on(init, sep).push(s.last()));
                assert(t.push(s.last()) =~= s);
            }
        }
    }
}

/// Splitting is injective: equal pieces come from equal strings.
pub proof fn lemma_split_injective(a: Seq<char>, b: Seq<char>, sep: char)
    requires
        split_on(a, sep) == split_on(b, sep),
    ensures
        a == b,
{
    lemma_join_split(a, sep);
    lemma_join_split(b, sep);
}

/// The first piece of a split ends at the first separator.
pub proof fn lemma_split_first(s: Seq<char>, sep: char)
    ensures
        0 <= first_index_of(s, sep) <= s.len(),
        split_on(s, sep)[0] == s.take(first_index_of(s, sep)),
        first_index_of(s, sep) < s.len() ==> s[first_index_of(s, sep)] == sep,
    decreases s.len(),
{
    if s.len() > 0 {
        lemma_split_first(s.drop_first(), sep);
        let k = first_index_of(s, sep);
        if s[0] == sep {
            let b = s.drop_first();
            lemma_split_concat(Seq::<char>::empty(), b, sep);
            assert(Seq::<char>::empty().push(sep) + b =~= s);
            assert(split_on(Seq::<char>::empty(), sep) =~= seq![Seq::<char>::empty()]);
            assert(s.take(0) =~= Seq::<char>::empty());
        } else {
            let r = s.drop_first();
            let kr = first_index_of(r, sep);
            if kr < r.len() {
                // s = s.take(k) + [sep] + rest
                let a = s.take(k);
                let b = s.skip(k + 1);
                assert(a.push(sep) + b =~= s);
                lemma_split_concat(a, b, sep);
                assert(!a.contains(sep)) by {
                    if a.contains(sep) {
                        let j = choose|j: int| 0 <= j < a.len() && a[j] == sep;
                        if j == 0 {
                        } else {
                            assert(r.take(kr)[j - 1] == sep);
                            lemma_split_pieces_free(r, sep);
                            lemma_split_nonempty(r, sep);
                            assert(split_on(r, sep)[0].contains(sep));
                        }
                    }
                }
                lemma_split_no_sep(a, sep);
            } else {
                assert(!s.contains(sep)) by {
                    if s.contains(sep) {
                        let j = choose|j: int| 0 <= j < s.len() && s[j] == sep;
                        assert(j > 0);
                        assert(r.take(kr)[j - 1] == sep);
                        lemma_split_pieces_free(r, sep);
                        lemma_split_nonempty(r, sep);
                        assert(split_on(r, sep)[0].contains(sep));
                    }
                }
                lemma_split_no_sep(s, sep);
                assert(s.take(s.len() as int) =~= s);
            }
        }
    }
}

/// Copies the characters of a string slice into a vector.
pub fn chars_of(s: &str) -> (v: Vec<char>)
    ensures
        v@ == s@,
{
    let mut v: Vec<char> = Vec::new();
    for c in it: s.chars()
        invariant
            v@ == it.seq().take(it.index()),
            it.seq() == s@,
    {
        v.push(c);
    }
    v
}

/// Whether two character vectors hold the same characters.
pub fn chars_eq(a: &Vec<char>, b: &Vec<char>) -> (r: bool)
    ensures
        r == (a@ == b@),
{
    if a.len() != b.len() {
        return false;
    }
    let mut i: usize = 0;
    while i < a.len()
        invariant
            a.len() == b.len(),
            i <= a.len(),
            forall|j: int| 0 <= j < i ==> a@[j] == b@[j],
        decreases a.len() - i,
    {
        if a[i] != b[i] {
            return false;
        }
        i += 1;
    }
    assert(a@ =~= b@);
    true
}

/// Whether two string slices hold the same characters.
pub fn str_eq(a: &str, b: &str) -> (r: bool)
    ensures
        r == (a@ == b@),
{
    let va = chars_of(a);
    let vb = chars_of(b);
    chars_eq(&va, &vb)
}

/// The character sequences held by a vector of character vectors.
pub open spec fn char_views(v: Seq<Vec<char>>) -> Seq<Seq<char>> {
    v.map_values(|p: Vec<char>| p@)
}

/// Splits a character vector at every `sep`, as `str::split(sep)` does.
pub fn split_chars(s: &Vec<char>, sep: char) -> (parts: Vec<Vec<char>>)
    ensures
        char_views(parts@) == split_on(s@, sep),
{
    let mut parts: Vec<Vec<char>> = Vec::new();
    let mut cur: Vec<char> = Vec::new();
    let mut i: usize = 0;
    while i < s.len()
        invariant
            i <= s.len(),
            char_views(parts@).push(cur@) == split_on(s@.take(i as int), sep),
        decreases s.len() - i,
    {
        let ghost before = char_views(parts@).push(cur@);
        assert(s@.take(i + 1).drop_last() =~= s@.take(i as int));
        assert(s@.take(i + 1).last() == s@[i as int]);
        if s[i] == sep {
            let done = cur;
            parts.push(done);
            cur = Vec::new();
            assert(char_views(parts@).push(cur@) =~= before.push(Seq::<char>::empty()));
        } else {
            cur.push(s[i]);
            assert(char_views(parts@).push(cur@) =~= before.update(
                before.len() - 1,
                before.last().push(s@[i as int]),
            ));
        }
        i += 1;
    }
    assert(s@.take(s.len() as int) =~= s@);
    let ghost before = char_views(parts@).push(cur@);
    parts.push(cur);
    assert(char_views(parts@) =~= before);
    parts
}

/// Position of the first `sep` in `s`, or its length when there is none.
pub fn find_char(s: &Vec<char>, sep: char) -> (k: usize)
    ensures
        k == first_index_of(s@, sep),
{
    let mut i: usize = 0;
    assert(s@.skip(0) =~= s@);
    while i < s.len()
        invariant
            i <= s.len(),
            forall|j: int| 0 <= j < i ==> s@[j] != sep,
            first_index_of(s@, sep) == i + first_index_of(s@.skip(i as int), sep),
        decreases s.len() - i,
    {
        if s[i] == sep {
            return i;
        }
        assert(s@.skip(i as int).drop_first() =~= s@.skip(i + 1));
        i += 1;
    }
    i
}

} // verus!
