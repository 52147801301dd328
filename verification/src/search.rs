use vstd::prelude::*;

verus! {

/// `needle` occurs in `hay` starting at character position `i`.
pub open spec fn occurs_at(hay: Seq<char>, needle: Seq<char>, i: int) -> bool {
    &&& 0 <= i
    &&& i + needle.len() <= hay.len()
    &&& hay.subrange(i, i + needle.len()) == needle
}

/// `needle` occurs somewhere in `hay` as a contiguous run of characters.
pub open spec fn occurs_in(hay: Seq<char>, needle: Seq<char>) -> bool {
    exists|i: int| occurs_at(hay, needle, i)
}

/// `p` is a prefix of `s`.
pub open spec fn prefix_of(p: Seq<char>, s: Seq<char>) -> bool {
    p.len() <= s.len() && s.subrange(0, p.len() as int) == p
}

/// The non-overlapping occurrences of `needle` in `hay` at or after
/// position `from`, scanned left to right, each as (start, length) in
/// characters. An empty needle matches at every position, including the
/// end of `hay`.
pub open spec fn match_list(hay: Seq<char>, needle: Seq<char>, from: int) -> Seq<(int, int)>
    decreases hay.len() - from + 1,
{
    if !(0 <= from && from + needle.len() <= hay.len()) {
        Seq::empty()
    } else if hay.subrange(from, from + needle.len()) == needle {
        if needle.len() == 0 {
            seq![(from, 0int)] + match_list(hay, needle, from + 1)
        } else {
            seq![(from, needle.len() as int)] + match_list(hay, needle, from + needle.len())
        }
    } else {
        match_list(hay, needle, from + 1)
    }
}

/// `hay` from position `from` on, with every non-overlapping occurrence of
/// `needle` replaced by `repl`, scanning left to right. An empty needle
/// puts `repl` at every position, including the end of `hay`.
pub open spec fn replace_from(hay: Seq<char>, needle: Seq<char>, repl: Seq<char>, from: int) -> Seq<
    char,
>
    decreases hay.len() - from + 1,
{
    if !(0 <= from <= hay.len()) {
        Seq::empty()
    } else if from + needle.len() <= hay.len() && hay.subrange(from, from + needle.len())
        == needle {
        if needle.len() == 0 {
            if from == hay.len() {
                repl
            } else {
                repl + seq![hay[from]] + replace_from(hay, needle, repl, from + 1)
            }
        } else {
            repl + replace_from(hay, needle, repl, from + needle.len())
        }
    } else if from == hay.len() {
        Seq::empty()
    } else {
        seq![hay[from]] + replace_from(hay, needle, repl, from + 1)
    }
}

/// The same pairs, with the machine integers widened.
pub open spec fn as_int_pairs(s: Seq<(usize, usize)>) -> Seq<(int, int)> {
    s.map_values(|p: (usize, usize)| (p.0 as int, p.1 as int))
}

/// The character-position pairs `ms` of `s`, each turned into (byte
/// offset, byte length) under the UTF-8 encoding of `s`.
pub open spec fn byte_pairs(s: Seq<char>, ms: Seq<(int, int)>) -> Seq<(int, int)> {
    ms.map_values(
        |m: (int, int)|
            (
                crate::chars::byte_offset(s, m.0),
                crate::chars::byte_offset(s, m.0 + m.1) - crate::chars::byte_offset(s, m.0),
            ),
    )
}

/// Every pair of the occurrence list is a span of `hay` whose length is
/// the needle's.
pub proof fn lemma_match_list_in_bounds(hay: Seq<char>, needle: Seq<char>, from: int)
    ensures
        forall|k: int|
            0 <= k < match_list(hay, needle, from).len() ==> {
                let m = #[trigger] match_list(hay, needle, from)[k];
                0 <= m.0 && m.0 + m.1 <= hay.len() && m.1 == needle.len()
            },
    decreases hay.len() - from + 1,
{
    let l = match_list(hay, needle, from);
    if !(0 <= from && from + needle.len() <= hay.len()) {
    } else if hay.subrange(from, from + needle.len()) == needle {
        let step: int = if needle.len() == 0 {
            1
        } else {
            needle.len() as int
        };
        let tail = match_list(hay, needle, from + step);
        lemma_match_list_in_bounds(hay, needle, from + step);
        assert forall|k: int|
            0 <= k < l.len() implies {
            let m = #[trigger] l[k];
            0 <= m.0 && m.0 + m.1 <= hay.len() && m.1 == needle.len()
        } by {
            if k > 0 {
                assert(l[k] == tail[k - 1]);
            }
        }
    } else {
        lemma_match_list_in_bounds(hay, needle, from + 1);
        let tail = match_list(hay, needle, from + 1);
        assert forall|k: int|
            0 <= k < l.len() implies {
            let m = #[trigger] l[k];
            0 <= m.0 && m.0 + m.1 <= hay.len() && m.1 == needle.len()
        } by {
            assert(l[k] == tail[k]);
        }
    }
}

/// The occurrence list from `from` on is empty exactly when the needle
/// occurs nowhere at or after `from`.
pub proof fn lemma_match_list_empty_iff(hay: Seq<char>, needle: Seq<char>, from: int)
    requires
        0 <= from,
    ensures
        match_list(hay, needle, from).len() == 0 <==> (forall|i: int|
            from <= i ==> !occurs_at(hay, needle, i)),
    decreases hay.len() - from + 1,
{
    if !(0 <= from && from + needle.len() <= hay.len()) {
        assert forall|i: int| from <= i implies !occurs_at(hay, needle, i) by {}
    } else if hay.subrange(from, from + needle.len()) == needle {
        assert(occurs_at(hay, needle, from));
    } else {
        lemma_match_list_empty_iff(hay, needle, from + 1);
        assert(!occurs_at(hay, needle, from));
    }
}

/// Whether `needle` occurs in `hay` at position `at`.
pub(crate) fn eq_at(hay: &Vec<char>, needle: &Vec<char>, at: usize) -> (b: bool)
    requires
        at + needle@.len() <= hay@.len(),
    ensures
        b == occurs_at(hay@, needle@, at as int),
{
    let m = needle.len();
    let hlen = hay.len();
    let mut k: usize = 0;
    while k < m
        invariant
            hlen == hay@.len(),
            at + m <= hay@.len(),
            m == needle@.len(),
            k <= m,
            forall|j: int| 0 <= j < k ==> hay@[at + j] == needle@[j],
        decreases m - k,
    {
        if hay[at + k] != needle[k] {
            proof {
                assert(!occurs_at(hay@, needle@, at as int)) by {
                    if hay@.subrange(at as int, at + m) == needle@ {
                        assert(hay@.subrange(at as int, at + m)[k as int] == hay@[at + k]);
                    }
                }
            }
            return false;
        }
        k += 1;
    }
    proof {
        assert(hay@.subrange(at as int, at + m) =~= needle@);
    }
    true
}

/// Whether `needle` occurs anywhere in `hay`.
pub(crate) fn contains_chars(hay: &Vec<char>, needle: &Vec<char>) -> (b: bool)
    ensures
        b == occurs_in(hay@, needle@),
{
    let n = hay.len();
    let m = needle.len();
    if m > n {
        proof {
            assert forall|i: int| !occurs_at(hay@, needle@, i) by {}
        }
        return false;
    }
    if m == 0 {
        proof {
            assert(hay@.subrange(0, 0) =~= needle@);
            assert(occurs_at(hay@, needle@, 0));
        }
        return true;
    }
    let mut i: usize = 0;
    while i <= n - m
        invariant
            0 < m <= n,
            n == hay@.len(),
            m == needle@.len(),
            i <= n,
            forall|j: int| 0 <= j < i ==> !occurs_at(hay@, needle@, j),
        decreases n - i,
    {
        if eq_at(hay, needle, i) {
            proof {
                assert(occurs_at(hay@, needle@, i as int));
            }
            return true;
        }
        i += 1;
    }
    proof {
        assert forall|j: int| !occurs_at(hay@, needle@, j) by {
            if 0 <= j <= n - m {
                assert(!occurs_at(hay@, needle@, j));
            }
        }
    }
    false
}

/// Whether `p` is a prefix of `s`.
pub(crate) fn prefix_of_chars(p: &Vec<char>, s: &Vec<char>) -> (b: bool)
    ensures
        b == prefix_of(p@, s@),
{
    if p.len() > s.len() {
        return false;
    }
    eq_at(s, p, 0)
}

/// All non-overlapping occurrences of `needle` in `hay`, left to right,
/// as (start, length) pairs in characters.
pub(crate) fn match_indices_chars(hay: &Vec<char>, needle: &Vec<char>) -> (out: Vec<(usize, usize)>)
    ensures
        as_int_pairs(out@) == match_list(hay@, needle@, 0),
{
    let n = hay.len();
    let m = needle.len();
    let mut out: Vec<(usize, usize)> = Vec::new();
    if m > n {
        proof {
            assert(as_int_pairs(out@) =~= match_list(hay@, needle@, 0));
        }
        return out;
    }
    if m == 0 {
        let mut i: usize = 0;
        while i < n
            invariant
                n == hay@.len(),
                0 == needle@.len(),
                i <= n,
                match_list(hay@, needle@, 0) == as_int_pairs(out@) + match_list(
                    hay@,
                    needle@,
                    i as int,
                ),
            decreases n - i,
        {
            let ghost prev = out@;
            let ghost ifrom = i as int;
            out.push((i, 0));
            proof {
                assert(hay@.subrange(ifrom, ifrom) =~= needle@);
                assert(match_list(hay@, needle@, ifrom) == seq![(ifrom, 0int)] + match_list(
                    hay@,
                    needle@,
                    ifrom + 1,
                ));
                assert(as_int_pairs(out@) =~= as_int_pairs(prev) + seq![(ifrom, 0int)]);
                assert(as_int_pairs(prev) + match_list(hay@, needle@, ifrom) =~= as_int_pairs(out@)
                    + match_list(hay@, needle@, ifrom + 1));
            }
            i += 1;
        }
        let ghost prev = out@;
        out.push((n, 0));
        proof {
            let nn = n as int;
            assert(hay@.subrange(nn, nn) =~= needle@);
            assert(match_list(hay@, needle@, nn) == seq![(nn, 0int)] + match_list(
                hay@,
                needle@,
                nn + 1,
            ));
            assert(match_list(hay@, needle@, nn + 1) =~= Seq::<(int, int)>::empty());
            assert(as_int_pairs(out@) =~= as_int_pairs(prev) + seq![(nn, 0int)]);
            assert(as_int_pairs(out@) =~= match_list(hay@, needle@, 0));
        }
        return out;
    }
    let mut i: usize = 0;
    while i <= n - m
        invariant
            0 < m <= n,
            n == hay@.len(),
            m == needle@.len(),
            i <= n,
            match_list(hay@, needle@, 0) == as_int_pairs(out@) + match_list(
                hay@,
                needle@,
                i as int,
            ),
        decreases n - i,
    {
        let ghost prev = out@;
        let ghost ifrom = i as int;
        if eq_at(hay, needle, i) {
            out.push((i, m));
            proof {
                assert(as_int_pairs(out@) =~= as_int_pairs(prev) + seq![(ifrom, m as int)]);
                assert(match_list(hay@, needle@, ifrom) == seq![(ifrom, m as int)] + match_list(
                    hay@,
                    needle@,
                    ifrom + m,
                ));
                assert(as_int_pairs(prev) + match_list(hay@, needle@, ifrom) =~= as_int_pairs(out@)
                    + match_list(hay@, needle@, ifrom + m));
            }
            i += m;
        } else {
            proof {
                assert(match_list(hay@, needle@, ifrom) == match_list(hay@, needle@, ifrom + 1));
            }
            i += 1;
        }
    }
    proof {
        assert(match_list(hay@, needle@, i as int) =~= Seq::<(int, int)>::empty());
        assert(as_int_pairs(out@) + match_list(hay@, needle@, i as int) =~= as_int_pairs(out@));
    }
    out
}

/// All non-overlapping occurrences of `needle` in `hay`, left to right,
/// as (byte offset, byte length) pairs under the UTF-8 encoding of `hay`.
/// `byte_len` is the byte length of that encoding.
pub(crate) fn byte_match_indices(hay: &Vec<char>, needle: &Vec<char>, byte_len: usize) -> (out:
    Vec<(usize, usize)>)
    requires
        byte_len as int == vstd::utf8::encode_utf8(hay@).len(),
    ensures
        as_int_pairs(out@) == byte_pairs(hay@, match_list(hay@, needle@, 0)),
{
    let cm = match_indices_chars(hay, needle);
    let hn = hay.len();
    let offs = crate::chars::byte_offsets(hay, byte_len);
    let ghost ml = match_list(hay@, needle@, 0);
    proof {
        lemma_match_list_in_bounds(hay@, needle@, 0);
    }
    let mut out: Vec<(usize, usize)> = Vec::new();
    let mut k: usize = 0;
    while k < cm.len()
        invariant
            as_int_pairs(cm@) == ml,
            ml == match_list(hay@, needle@, 0),
            hn == hay@.len(),
            offs@.len() == hay@.len() + 1,
            forall|i: int| 0 <= i <= hay@.len() ==> #[trigger] offs@[i] == crate::chars::byte_offset(
                hay@,
                i,
            ),
            forall|j: int|
                0 <= j < ml.len() ==> {
                    let m = #[trigger] ml[j];
                    0 <= m.0 && m.0 + m.1 <= hay@.len()
                },
            k <= cm@.len(),
            out@.len() == k,
            as_int_pairs(out@) == byte_pairs(hay@, ml.subrange(0, k as int)),
        decreases cm@.len() - k,
    {
        let (a, l) = cm[k];
        let ghost prev = out@;
        proof {
            assert(ml[k as int] == (a as int, l as int));
            crate::chars::lemma_byte_offset_mono(hay@, a as int, a + l);
        }
        let start = offs[a];
        let end = offs[a + l];
        let width = end - start;
        out.push((start, width));
        k += 1;
        proof {
            let sub = ml.subrange(0, k as int);
            assert(offs@[a as int] == crate::chars::byte_offset(hay@, a as int));
            assert(offs@[a + l] == crate::chars::byte_offset(hay@, a + l));
            assert forall|j: int|
                0 <= j < sub.len() implies as_int_pairs(out@)[j] == byte_pairs(hay@, sub)[j] by {
                assert(sub[j] == ml[j]);
                if j < k - 1 {
                    assert(as_int_pairs(prev)[j] == byte_pairs(hay@, ml.subrange(0, k - 1))[j]);
                    assert(ml.subrange(0, k - 1)[j] == ml[j]);
                    assert(out@[j] == prev[j]);
                } else {
                    assert(out@[j] == (start, width));
                }
            }
            assert(as_int_pairs(out@).len() == sub.len());
            assert(as_int_pairs(out@) =~= byte_pairs(hay@, sub));
        }
    }
    proof {
        assert(ml.subrange(0, ml.len() as int) =~= ml);
    }
    out
}

/// Appends every character of `piece` to `out`.
pub(crate) fn push_all(out: &mut Vec<char>, piece: &Vec<char>)
    ensures
        final(out)@ == old(out)@ + piece@,
{
    let mut k: usize = 0;
    while k < piece.len()
        invariant
            k <= piece@.len(),
            out@ == old(out)@ + piece@.subrange(0, k as int),
        decreases piece@.len() - k,
    {
        out.push(piece[k]);
        k += 1;
        proof {
            assert(out@ =~= old(out)@ + piece@.subrange(0, k as int));
        }
    }
    proof {
        assert(old(out)@ + piece@.subrange(0, piece@.len() as int) =~= old(out)@ + piece@);
    }
}

/// `hay` with every non-overlapping occurrence of `needle` replaced by
/// `repl`, scanning left to right.
pub(crate) fn replace_chars(hay: &Vec<char>, needle: &Vec<char>, repl: &Vec<char>) -> (out: Vec<
    char,
>)
    ensures
        out@ == replace_from(hay@, needle@, repl@, 0),
{
    let n = hay.len();
    let m = needle.len();
    let mut out: Vec<char> = Vec::new();
    let mut i: usize = 0;
    while i < n
        invariant
            n == hay@.len(),
            m == needle@.len(),
            i <= n,
            replace_from(hay@, needle@, repl@, 0) == out@ + replace_from(
                hay@,
                needle@,
                repl@,
                i as int,
            ),
        decreases n - i,
    {
        let ghost prev = out@;
        let ghost ifrom = i as int;
        let matched = if m <= n - i {
            eq_at(hay, needle, i)
        } else {
            false
        };
        if matched {
            push_all(&mut out, repl);
            if m == 0 {
                out.push(hay[i]);
                proof {
                    assert(replace_from(hay@, needle@, repl@, ifrom) == repl@ + seq![hay@[ifrom]]
                        + replace_from(hay@, needle@, repl@, ifrom + 1));
                    assert(prev + replace_from(hay@, needle@, repl@, ifrom) =~= out@
                        + replace_from(hay@, needle@, repl@, ifrom + 1));
                }
                i += 1;
            } else {
                proof {
                    assert(replace_from(hay@, needle@, repl@, ifrom) == repl@ + replace_from(
                        hay@,
                        needle@,
                        repl@,
                        ifrom + m,
                    ));
                    assert(prev + replace_from(hay@, needle@, repl@, ifrom) =~= out@
                        + replace_from(hay@, needle@, repl@, ifrom + m));
                }
                i += m;
            }
        } else {
            out.push(hay[i]);
            proof {
                assert(replace_from(hay@, needle@, repl@, ifrom) == seq![hay@[ifrom]]
                    + replace_from(hay@, needle@, repl@, ifrom + 1));
                assert(prev + replace_from(hay@, needle@, repl@, ifrom) =~= out@ + replace_from(
                    hay@,
                    needle@,
                    repl@,
                    ifrom + 1,
                ));
            }
            i += 1;
        }
    }
    if m == 0 {
        let ghost prev = out@;
        push_all(&mut out, repl);
        proof {
            assert(hay@.subrange(n as int, n as int) =~= needle@);
            assert(replace_from(hay@, needle@, repl@, n as int) == repl@);
            assert(prev + replace_from(hay@, needle@, repl@, n as int) =~= out@);
        }
    } else {
        proof {
            assert(replace_from(hay@, needle@, repl@, n as int) =~= Seq::<char>::empty());
            assert(out@ + replace_from(hay@, needle@, repl@, n as int) =~= out@);
        }
    }
    out
}

} // verus!
