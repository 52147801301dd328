use vstd::prelude::*;

verus! {

use vstd::string::StrSliceExecFns;

/// The character sequence that `str::to_lowercase` maps a given character
/// sequence to. It depends on the characters alone.
pub uninterp spec fn lower_of(s: Seq<char>) -> Seq<char>;

/// Relies on str::to_lowercase: the result depends on the input characters
/// alone, per the Unicode lowercase mapping.
#[verifier::external_body]
pub(crate) fn lowercase(s: &str) -> (r: String)
    ensures
        r@ == lower_of(s@),
{
    s.to_lowercase()
}

/// Relies on String::push: it appends exactly the given character.
#[verifier::external_body]
pub(crate) fn push_char(s: &mut String, c: char)
    ensures
        final(s)@ == old(s)@.push(c),
{
    s.push(c);
}

/// The characters of `s`, in order, as a vector.
pub fn chars_vec(s: &str) -> (v: Vec<char>)
    ensures
        v@ == s@,
{
    let n = s.unicode_len();
    let mut v: Vec<char> = Vec::new();
    let mut i: usize = 0;
    while i < n
        invariant
            n == s@.len(),
            i <= n,
            v@ == s@.subrange(0, i as int),
        decreases n - i,
    {
        let c = s.get_char(i);
        v.push(c);
        i += 1;
        proof {
            assert(v@ =~= s@.subrange(0, i as int));
        }
    }
    proof {
        assert(v@ =~= s@);
    }
    v
}

/// The number of bytes the UTF-8 encoding of `c` takes.
pub open spec fn utf8_len_of(c: char) -> int {
    if c as u32 <= 0x7F {
        1
    } else if c as u32 <= 0x7FF {
        2
    } else if c as u32 <= 0xFFFF {
        3
    } else {
        4
    }
}

/// The byte offset of character position `i` of `s` under UTF-8: the byte
/// length of the encoding of the first `i` characters.
pub open spec fn byte_offset(s: Seq<char>, i: int) -> int {
    vstd::utf8::encode_utf8(s.subrange(0, i)).len() as int
}

/// Appending one character extends the UTF-8 encoding by that character's
/// byte width.
pub proof fn lemma_encode_utf8_push(s: Seq<char>, c: char)
    ensures
        vstd::utf8::encode_utf8(s.push(c)).len() == vstd::utf8::encode_utf8(s).len() + utf8_len_of(
            c,
        ),
    decreases s.len(),
{
    vstd::utf8::char_is_scalar(c);
    if s.len() == 0 {
        assert(s.push(c)[0] == c);
        assert(s.push(c).drop_first() =~= Seq::<char>::empty());
        assert(s =~= Seq::<char>::empty());
    } else {
        assert(s.push(c)[0] == s[0]);
        assert(s.push(c).drop_first() =~= s.drop_first().push(c));
        lemma_encode_utf8_push(s.drop_first(), c);
    }
}

/// One character step of the byte-offset map.
pub proof fn lemma_byte_offset_step(s: Seq<char>, i: int)
    requires
        0 <= i < s.len(),
    ensures
        byte_offset(s, i + 1) == byte_offset(s, i) + utf8_len_of(s[i]),
{
    assert(s.subrange(0, i + 1) =~= s.subrange(0, i).push(s[i]));
    lemma_encode_utf8_push(s.subrange(0, i), s[i]);
}

/// Byte offsets grow with the character position.
pub proof fn lemma_byte_offset_mono(s: Seq<char>, i: int, j: int)
    requires
        0 <= i <= j <= s.len(),
    ensures
        byte_offset(s, i) <= byte_offset(s, j),
    decreases j - i,
{
    if i < j {
        lemma_byte_offset_step(s, j - 1);
        lemma_byte_offset_mono(s, i, j - 1);
    }
}

/// The byte offset of the end of `s` is the byte length of its encoding.
pub proof fn lemma_byte_offset_full(s: Seq<char>)
    ensures
        byte_offset(s, s.len() as int) == vstd::utf8::encode_utf8(s).len(),
{
    assert(s.subrange(0, s.len() as int) =~= s);
}

/// The table of byte offsets of every character position of `v`, from 0
/// up to and including the end.
pub(crate) fn byte_offsets(v: &Vec<char>, byte_len: usize) -> (offs: Vec<usize>)
    requires
        byte_len as int == vstd::utf8::encode_utf8(v@).len(),
    ensures
        offs@.len() == v@.len() + 1,
        forall|i: int| 0 <= i <= v@.len() ==> #[trigger] offs@[i] == byte_offset(v@, i),
{
    let n = v.len();
    let mut offs: Vec<usize> = Vec::new();
    let mut acc: usize = 0;
    offs.push(0);
    proof {
        assert(v@.subrange(0, 0) =~= Seq::<char>::empty());
    }
    let mut i: usize = 0;
    while i < n
        invariant
            n == v@.len(),
            byte_len as int == vstd::utf8::encode_utf8(v@).len(),
            i <= n,
            offs@.len() == i + 1,
            forall|j: int| 0 <= j <= i ==> #[trigger] offs@[j] == byte_offset(v@, j),
            acc == byte_offset(v@, i as int),
        decreases n - i,
    {
        let w = v[i] as u32;
        let step: usize = if w <= 0x7F {
            1
        } else if w <= 0x7FF {
            2
        } else if w <= 0xFFFF {
            3
        } else {
            4
        };
        proof {
            assert(step as int == utf8_len_of(v@[i as int]));
            lemma_byte_offset_step(v@, i as int);
            lemma_byte_offset_mono(v@, i as int + 1, v@.len() as int);
            lemma_byte_offset_full(v@);
        }
        acc = acc + step;
        offs.push(acc);
        i += 1;
    }
    offs
}

/// Lexicographic comparison of the character sequences `a` and `b` from
/// position `i` on, by Unicode scalar value. It agrees with Rust's string
/// ordering, since UTF-8 byte order preserves scalar-value order.
pub open spec fn lex_cmp_from(a: Seq<char>, b: Seq<char>, i: int) -> core::cmp::Ordering
    decreases a.len() - i + 1,
{
    if !(0 <= i) {
        core::cmp::Ordering::Equal
    } else if i >= a.len() && i >= b.len() {
        core::cmp::Ordering::Equal
    } else if i >= a.len() {
        core::cmp::Ordering::Less
    } else if i >= b.len() {
        core::cmp::Ordering::Greater
    } else if (a[i] as u32) < (b[i] as u32) {
        core::cmp::Ordering::Less
    } else if (a[i] as u32) > (b[i] as u32) {
        core::cmp::Ordering::Greater
    } else {
        lex_cmp_from(a, b, i + 1)
    }
}

/// Lexicographic comparison of two character sequences.
pub open spec fn lex_cmp_chars(a: Seq<char>, b: Seq<char>) -> core::cmp::Ordering {
    lex_cmp_from(a, b, 0)
}

/// Compares two character vectors lexicographically.
pub(crate) fn lex_cmp_vec(a: &Vec<char>, b: &Vec<char>) -> (c: core::cmp::Ordering)
    ensures
        c == lex_cmp_chars(a@, b@),
{
    let na = a.len();
    let nb = b.len();
    let mut i: usize = 0;
    loop
        invariant
            i <= na,
            i <= nb,
            na == a@.len(),
            nb == b@.len(),
            lex_cmp_chars(a@, b@) == lex_cmp_from(a@, b@, i as int),
        decreases na - i,
    {
        if i >= na && i >= nb {
            return core::cmp::Ordering::Equal;
        }
        if i >= na {
            return core::cmp::Ordering::Less;
        }
        if i >= nb {
            return core::cmp::Ordering::Greater;
        }
        let ca = a[i] as u32;
        let cb = b[i] as u32;
        if ca < cb {
            return core::cmp::Ordering::Less;
        }
        if ca > cb {
            return core::cmp::Ordering::Greater;
        }
        i += 1;
    }
}

/// The string holding exactly the characters of `v`, in order.
pub fn chars_to_string(v: &Vec<char>) -> (s: String)
    ensures
        s@ == v@,
{
    let mut s = String::new();
    let mut i: usize = 0;
    while i < v.len()
        invariant
            i <= v@.len(),
            s@ == v@.subrange(0, i as int),
        decreases v@.len() - i,
    {
        push_char(&mut s, v[i]);
        i += 1;
        proof {
            assert(s@ =~= v@.subrange(0, i as int));
        }
    }
    proof {
        assert(s@ =~= v@);
    }
    s
}

} // verus!
