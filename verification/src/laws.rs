use vstd::prelude::*;

verus! {

use crate::rx::{regex_all_matches, regex_compiles, regex_first_match};
use crate::search::{
    as_int_pairs,
    byte_pairs,
    lemma_match_list_empty_iff,
    match_list,
    occurs_at,
    occurs_in,
    replace_from,
};
use crate::text::Text;
use crate::{
    folded,
    has_meta,
    newline_seq,
    pattern_mode,
    placeholder_seq,
    strip_negative,
    strip_text,
    MaybeRegex,
};
use vstd::std_specs::cmp::PartialEqSpec;
use vstd::utf8::encode_utf8;

/// Classification law: a constructed matcher is in compiled-pattern mode
/// exactly when its stored text holds a pattern character and the regex
/// engine accepts it; text without a pattern character, and pattern-like
/// text that fails to compile, is matched as literal text.
pub proof fn lemma_classification(m: MaybeRegex, sv: Seq<char>)
    requires
        m.constructed_from(sv),
    ensures
        m.spec_is_regex() == (has_meta(strip_text(sv)) && regex_compiles(strip_text(sv))),
{
}

/// Negation law: `matches` is the containment check, inverted exactly when
/// the input began or ended with the negation marker.
pub proof fn lemma_negation_round_trip(m: MaybeRegex, sv: Seq<char>, hay: Seq<char>)
    requires
        m.constructed_from(sv),
    ensures
        strip_negative(sv) ==> m.spec_matches(hay) == !m.spec_contained(hay),
        !strip_negative(sv) ==> m.spec_matches(hay) == m.spec_contained(hay),
{
}

/// Input-shape law: construction depends only on the characters of the
/// input. Matchers built from inputs with equal characters — owned,
/// borrowed, or any other string-like shape — are equal, and answer every
/// query alike.
pub proof fn lemma_input_shape_invariance(
    a: MaybeRegex,
    b: MaybeRegex,
    sv: Seq<char>,
    q: Seq<char>,
)
    requires
        a.constructed_from(sv),
        b.constructed_from(sv),
    ensures
        a.eq_spec(&b),
        a.spec_contained(q) == b.spec_contained(q),
        a.spec_matches(q) == b.spec_matches(q),
        a.spec_matches_exactly(q) == b.spec_matches_exactly(q),
        a.spec_starts_with(q) == b.spec_starts_with(q),
        a.spec_match_indices(q) == b.spec_match_indices(q),
{
}

/// Two string-like values with equal characters are seen alike by
/// construction: their views, and so the matchers built from them, agree.
pub proof fn lemma_text_view_pins_construction<S: Text, T: Text>(s: S, t: T, m: MaybeRegex)
    requires
        s.text_view() == t.text_view(),
        m.constructed_from(s.text_view()),
    ensures
        m.constructed_from(t.text_view()),
{
}

/// Exact-match boundary law: in compiled-pattern mode, an exact match
/// holds only when the leftmost match covers every byte of the (folded)
/// candidate; a match that is a strict substring of the candidate is
/// rejected.
pub proof fn lemma_exact_match_boundary(m: MaybeRegex, cand: Seq<char>)
    requires
        pattern_mode(m.spec_text()),
    ensures
        ({
            let c = folded(m.spec_case_sensitive(), cand);
            m.spec_matches_exactly(cand) <==> (regex_first_match(m.spec_text(), c) matches Some(
                pair,
            ) && pair.1 == encode_utf8(c).len())
        }),
{
}

/// An exact match implies containment, in both modes and either case
/// setting: a candidate the matcher matches exactly is also found inside
/// itself as a haystack.
pub proof fn lemma_exact_match_implies_containment(m: MaybeRegex, s: Seq<char>)
    ensures
        m.spec_matches_exactly(s) ==> m.spec_contained(s),
{
    let c = folded(m.spec_case_sensitive(), s);
    let t = m.spec_text();
    if !pattern_mode(t) && m.spec_matches_exactly(s) {
        assert(c.subrange(0, t.len() as int) =~= t);
        assert(occurs_at(c, t, 0));
    }
}

/// Containment holds exactly when at least one match index pair is
/// reported, in both modes and either case setting.
pub proof fn lemma_indices_empty_iff_not_contained(m: MaybeRegex, s: Seq<char>)
    ensures
        (m.spec_match_indices(s).len() == 0) == !m.spec_contained(s),
{
    let c = folded(m.spec_case_sensitive(), s);
    let t = m.spec_text();
    if pattern_mode(t) {
        assert(as_int_pairs(regex_all_matches(t, c)).len() == regex_all_matches(t, c).len());
    } else {
        let ml = match_list(c, t, 0);
        assert(byte_pairs(c, ml).len() == ml.len());
        lemma_match_list_empty_iff(c, t, 0);
        if ml.len() == 0 {
            assert forall|i: int| !occurs_at(c, t, i) by {
                if i >= 0 {
                    assert(!occurs_at(c, t, i));
                }
            }
        } else {
            let i = choose|i: int| 0 <= i && occurs_at(c, t, i);
            assert(occurs_at(c, t, i));
            assert(occurs_in(c, t));
        }
    }
}

/// Replacement is a single pass: in literal mode the occurrences that are
/// substituted are exactly the non-overlapping occurrences of the stored
/// text in the original body, scanned left to right; the substituted
/// replacement text is never scanned again.
pub proof fn lemma_replace_single_pass(hay: Seq<char>, needle: Seq<char>, repl: Seq<char>)
    requires
        needle.len() > 0,
        hay.len() >= needle.len(),
        hay.subrange(0, needle.len() as int) == needle,
    ensures
        replace_from(hay, needle, repl, 0) == repl + replace_from(
            hay,
            needle,
            repl,
            needle.len() as int,
        ),
{
}

/// From `from` on, replacement with a needle that occurs nowhere at or
/// after `from` copies the text unchanged.
proof fn lemma_replace_no_match_from(hay: Seq<char>, needle: Seq<char>, repl: Seq<char>, from: int)
    requires
        needle.len() > 0,
        0 <= from <= hay.len(),
        forall|i: int| from <= i ==> !occurs_at(hay, needle, i),
    ensures
        replace_from(hay, needle, repl, from) == hay.subrange(
            from,
            hay.len() as int,
        ),
    decreases hay.len() - from,
{
    if from == hay.len() {
        assert(hay.subrange(from, hay.len() as int) =~= Seq::<char>::empty());
    } else {
        assert(!occurs_at(hay, needle, from));
        lemma_replace_no_match_from(hay, needle, repl, from + 1);
        assert(seq![hay[from]] + hay.subrange(from + 1, hay.len() as int) =~= hay.subrange(
            from,
            hay.len() as int,
        ));
    }
}

/// Replacement with a needle that occurs nowhere in the text leaves the
/// text unchanged. In particular, masking line breaks in a body without
/// any, or restoring them in a body without the placeholder, is the
/// identity.
pub proof fn lemma_replace_no_occurrence(hay: Seq<char>, needle: Seq<char>, repl: Seq<char>)
    requires
        needle.len() > 0,
        !occurs_in(hay, needle),
    ensures
        replace_from(hay, needle, repl, 0) == hay,
{
    assert forall|i: int| 0 <= i implies !occurs_at(hay, needle, i) by {
        assert(!occurs_in(hay, needle));
    }
    lemma_replace_no_match_from(hay, needle, repl, 0);
    assert(hay.subrange(0, hay.len() as int) =~= hay);
}

/// Replacement of a non-empty needle depends only on the text at and
/// after the scanning position.
proof fn lemma_replace_shift(t: Seq<char>, needle: Seq<char>, repl: Seq<char>, from: int)
    requires
        needle.len() > 0,
        0 <= from <= t.len(),
    ensures
        replace_from(t, needle, repl, from) == replace_from(
            t.skip(from),
            needle,
            repl,
            0,
        ),
    decreases t.len(), t.len() - from,
{
    let u = t.skip(from);
    if from == 0 {
        assert(u =~= t);
    } else if from == t.len() {
        assert(u =~= Seq::<char>::empty());
    } else {
        let nlen = needle.len() as int;
        if from + nlen <= t.len() && t.subrange(from, from + nlen) == needle {
            assert(u.subrange(0, nlen) =~= t.subrange(from, from + nlen));
            lemma_replace_shift(t, needle, repl, from + nlen);
            lemma_replace_shift(u, needle, repl, nlen);
            assert(u.skip(nlen) =~= t.skip(from + nlen));
        } else {
            if from + nlen <= t.len() {
                assert(u.subrange(0, nlen) =~= t.subrange(from, from + nlen));
            }
            lemma_replace_shift(t, needle, repl, from + 1);
            lemma_replace_shift(u, needle, repl, 1);
            assert(u.skip(1) =~= t.skip(from + 1));
            assert(u[0] == t[from]);
        }
    }
}

/// An occurrence in a suffix is an occurrence in the whole.
proof fn lemma_occurs_in_skip(s: Seq<char>, needle: Seq<char>, k: int)
    requires
        0 <= k <= s.len(),
        !occurs_in(s, needle),
    ensures
        !occurs_in(s.skip(k), needle),
{
    if occurs_in(s.skip(k), needle) {
        let i = choose|i: int| occurs_at(s.skip(k), needle, i);
        assert(s.subrange(k + i, k + i + needle.len()) =~= s.skip(k).subrange(
            i,
            i + needle.len(),
        ));
        assert(occurs_at(s, needle, k + i));
    }
}

/// Masking copies a break-free prefix unchanged and goes on after it.
proof fn lemma_mask_prefix(s: Seq<char>, k: int)
    requires
        0 <= k <= s.len(),
        forall|j: int| 0 <= j < k ==> s[j] != '\n',
    ensures
        replace_from(s, newline_seq(), placeholder_seq(), 0)
            == s.subrange(0, k) + replace_from(
            s.skip(k),
            newline_seq(),
            placeholder_seq(),
            0,
        ),
    decreases k,
{
    reveal_strlit("\n");
    let nl = newline_seq();
    let ph = placeholder_seq();
    if k == 0 {
        assert(s.skip(0) =~= s);
        assert(s.subrange(0, 0) + replace_from(s, nl, ph, 0)
            =~= replace_from(s, nl, ph, 0));
    } else {
        assert(s.subrange(0, 1) != nl) by {
            if s.subrange(0, 1) == nl {
                assert(s.subrange(0, 1)[0] == s[0]);
            }
        }
        lemma_replace_shift(s, nl, ph, 1);
        assert forall|j: int| 0 <= j < k - 1 implies s.skip(1)[j] != '\n' by {
            assert(s.skip(1)[j] == s[j + 1]);
        }
        lemma_mask_prefix(s.skip(1), k - 1);
        assert(s.skip(1).subrange(0, k - 1) =~= s.subrange(1, k));
        assert(s.skip(1).skip(k - 1) =~= s.skip(k));
        assert(seq![s[0]] + (s.subrange(1, k) + replace_from(
            s.skip(k),
            nl,
            ph,
            0,
        )) =~= s.subrange(0, k) + replace_from(s.skip(k), nl, ph, 0));
    }
}

/// At the first line break of `s`, the masked text carries the first
/// placeholder character.
proof fn lemma_mask_block_at(s: Seq<char>, j: int)
    requires
        0 <= j < s.len(),
        s[j] == '\n',
        forall|i: int| 0 <= i < j ==> s[i] != '\n',
    ensures
        ({
            let t = replace_from(s, newline_seq(), placeholder_seq(), 0);
            t.len() > j && t[j] == 'a'
        }),
{
    reveal_strlit("\n");
    reveal_strlit("abcdefg");
    let nl = newline_seq();
    let ph = placeholder_seq();
    lemma_mask_prefix(s, j);
    let rest = s.skip(j);
    assert(rest.subrange(0, 1) =~= nl);
    assert(replace_from(rest, nl, ph, 0) == ph + replace_from(
        rest,
        nl,
        ph,
        1,
    ));
}

/// If the placeholder does not stand at the head of `s` and `s` does not
/// begin with a line break, the masked text does not begin with the
/// placeholder either.
proof fn lemma_mask_not_ph_at_head(s: Seq<char>)
    requires
        s.len() > 0,
        s[0] != '\n',
        !occurs_at(s, placeholder_seq(), 0),
    ensures
        ({
            let t = replace_from(s, newline_seq(), placeholder_seq(), 0);
            t.len() >= 7 ==> t.subrange(0, 7) != placeholder_seq()
        }),
{
    reveal_strlit("\n");
    reveal_strlit("abcdefg");
    let nl = newline_seq();
    let ph = placeholder_seq();
    let t = replace_from(s, nl, ph, 0);
    if t.len() >= 7 && t.subrange(0, 7) == ph {
        assert forall|j: int| 0 <= j < 7 implies t[j] == ph[j] by {
            assert(t.subrange(0, 7)[j] == t[j]);
        }
        if s.len() > 1 && s[1] == '\n' {
            lemma_mask_block_at(s, 1);
        } else if s.len() > 2 && s[2] == '\n' {
            lemma_mask_block_at(s, 2);
        } else if s.len() > 3 && s[3] == '\n' {
            lemma_mask_block_at(s, 3);
        } else if s.len() > 4 && s[4] == '\n' {
            lemma_mask_block_at(s, 4);
        } else if s.len() > 5 && s[5] == '\n' {
            lemma_mask_block_at(s, 5);
        } else if s.len() > 6 && s[6] == '\n' {
            lemma_mask_block_at(s, 6);
        } else if s.len() >= 7 {
            lemma_mask_prefix(s, 7);
            assert(t.subrange(0, 7) =~= s.subrange(0, 7));
            assert(occurs_at(s, ph, 0));
        } else {
            assert(!occurs_in(s, nl)) by {
                if occurs_in(s, nl) {
                    let i = choose|i: int| occurs_at(s, nl, i);
                    assert(s.subrange(i, i + 1)[0] == s[i]);
                }
            }
            lemma_replace_no_occurrence(s, nl, ph);
        }
    }
}

/// The placeholder detour of compiled-mode replacement cannot corrupt its
/// input: masking every line break and then restoring every placeholder
/// gives the original text back, for any text that does not already
/// contain the placeholder sequence (such bodies are out of scope).
pub proof fn lemma_mask_round_trip(s: Seq<char>)
    requires
        !occurs_in(s, placeholder_seq()),
    ensures
        replace_from(
            replace_from(s, newline_seq(), placeholder_seq(), 0),
            placeholder_seq(),
            newline_seq(),
            0,
        ) == s,
    decreases s.len(),
{
    reveal_strlit("\n");
    reveal_strlit("abcdefg");
    let nl = newline_seq();
    let ph = placeholder_seq();
    let t = replace_from(s, nl, ph, 0);
    if s.len() == 0 {
    } else if s[0] == '\n' {
        assert(s.subrange(0, 1) =~= nl);
        lemma_replace_shift(s, nl, ph, 1);
        let rest_masked = replace_from(s.skip(1), nl, ph, 0);
        assert(t == ph + rest_masked);
        assert(t.subrange(0, 7) =~= ph);
        lemma_replace_shift(t, ph, nl, 7);
        assert(t.skip(7) =~= rest_masked);
        lemma_occurs_in_skip(s, ph, 1);
        lemma_mask_round_trip(s.skip(1));
        assert(nl + s.skip(1) =~= s);
    } else {
        assert(s.subrange(0, 1) != nl) by {
            if s.subrange(0, 1) == nl {
                assert(s.subrange(0, 1)[0] == s[0]);
            }
        }
        lemma_replace_shift(s, nl, ph, 1);
        let rest_masked = replace_from(s.skip(1), nl, ph, 0);
        assert(t == seq![s[0]] + rest_masked);
        assert(!occurs_at(s, ph, 0));
        lemma_mask_not_ph_at_head(s);
        lemma_replace_shift(t, ph, nl, 1);
        assert(t.skip(1) =~= rest_masked);
        lemma_occurs_in_skip(s, ph, 1);
        lemma_mask_round_trip(s.skip(1));
        assert(seq![t[0]] + s.skip(1) =~= s);
    }
}

} // verus!
