use vstd::prelude::*;

pub mod chars;
pub mod laws;
pub mod rx;
pub mod search;
pub mod text;
pub mod utils;

pub use utils::remove_first_n_chars;
pub use utils::remove_last_n_chars;

verus! {

use crate::chars::{chars_to_string, chars_vec, lex_cmp_chars, lex_cmp_vec, lower_of, lowercase};
use crate::rx::{
    regex_all_matches,
    regex_compile,
    regex_compiles,
    regex_find,
    regex_find_all,
    regex_first_match,
    regex_found,
    regex_is_match,
    regex_pattern,
    regex_replace_all,
    replaced_all,
};
use crate::search::{
    as_int_pairs,
    byte_match_indices,
    byte_pairs,
    contains_chars,
    match_list,
    occurs_in,
    prefix_of,
    prefix_of_chars,
    replace_chars,
    replace_from,
};
use crate::text::Text;
use vstd::string::StrSliceExecFns;
use vstd::utf8::encode_utf8;

/// The characters that make a string count as a regular-expression
/// pattern rather than literal text: backslash, dollar, caret, open or
/// close bracket, plus, asterisk, period.
pub open spec fn is_meta_char(c: char) -> bool {
    ||| c == '\\'
    ||| c == '$'
    ||| c == '^'
    ||| c == '['
    ||| c == ']'
    ||| c == '+'
    ||| c == '*'
    ||| c == '.'
}

/// Whether `s` holds at least one pattern character.
pub open spec fn has_meta(s: Seq<char>) -> bool {
    exists|i: int| 0 <= i < s.len() && is_meta_char(s[i])
}

/// A stored text is matched as a compiled pattern exactly when it looks
/// like a pattern and the regex engine accepts it; otherwise it is matched
/// as literal text.
pub open spec fn pattern_mode(t: Seq<char>) -> bool {
    has_meta(t) && regex_compiles(t)
}

/// Whether the input began or ended with the negation marker `-`.
pub open spec fn strip_negative(s: Seq<char>) -> bool {
    s.len() > 0 && (s[0] == '-' || s[s.len() - 1] == '-')
}

/// The input with at most one negation marker removed: the leading `-` if
/// there is one, else the trailing `-` if there is one.
pub open spec fn strip_text(s: Seq<char>) -> Seq<char> {
    if s.len() > 0 && s[0] == '-' {
        s.drop_first()
    } else if s.len() > 0 && s[s.len() - 1] == '-' {
        s.drop_last()
    } else {
        s
    }
}

/// The haystack as the matcher sees it: folded to lowercase unless the
/// matcher is case-sensitive. The stored text is never folded.
pub open spec fn folded(case_sensitive: bool, s: Seq<char>) -> Seq<char> {
    if case_sensitive {
        s
    } else {
        lower_of(s)
    }
}

/// Whether the leftmost match of the pattern `p` in `h` covers all of `h`.
pub open spec fn regex_exact(p: Seq<char>, h: Seq<char>) -> bool {
    match regex_first_match(p, h) {
        Some(m) => m.1 == encode_utf8(h).len(),
        None => false,
    }
}

/// Whether the leftmost match of the pattern `p` in `h` begins at offset 0.
pub open spec fn regex_starts(p: Seq<char>, h: Seq<char>) -> bool {
    match regex_first_match(p, h) {
        Some(m) => m.0 == 0,
        None => false,
    }
}

/// The line break that multi-occurrence pattern replacement masks out.
pub open spec fn newline_seq() -> Seq<char> {
    "\n"@
}

/// The private placeholder that stands for a line break while a pattern
/// replacement runs. Bodies that already contain it are out of scope.
pub open spec fn placeholder_seq() -> Seq<char> {
    "abcdefg"@
}

/// How the stored text is matched: as literal text, or as a compiled
/// regular expression.
#[derive(Debug, Clone)]
pub enum TagWrapperData {
    Raw(String),
    Regex(regex::Regex),
}

/// A pattern that decides at construction time, by a character heuristic,
/// whether it matches as literal text or as a compiled regular expression,
/// and answers containment, match, prefix and replacement queries the same
/// way in either mode. A leading or trailing `-` in the input negates
/// `matches`.
#[derive(Debug, Clone)]
pub struct MaybeRegex {
    data: TagWrapperData,
    original: String,
    pub is_negative: bool,
    case_sensitive: bool,
}

impl MaybeRegex {
    /// The stored text: the input after negation stripping, which both
    /// modes match against.
    pub closed spec fn spec_text(self) -> Seq<char> {
        self.original@
    }

    /// Whether haystacks are taken as given rather than folded to
    /// lowercase.
    pub closed spec fn spec_case_sensitive(self) -> bool {
        self.case_sensitive
    }

    /// Whether the input carried a negation marker.
    pub closed spec fn spec_is_negative(self) -> bool {
        self.is_negative
    }

    /// Whether the matcher holds a compiled pattern.
    pub closed spec fn spec_is_regex(self) -> bool {
        self.data matches TagWrapperData::Regex(_)
    }

    /// The construction invariant: the stored mode agrees with the
    /// classification of the stored text, and both modes hold that text.
    pub closed spec fn wf(self) -> bool {
        match self.data {
            TagWrapperData::Raw(v) => v@ == self.original@ && !pattern_mode(self.original@),
            TagWrapperData::Regex(re) => regex_pattern(re) == self.original@ && pattern_mode(
                self.original@,
            ),
        }
    }

    /// Whether the stored text is found inside `hay`, negation ignored.
    pub open spec fn spec_contained(self, hay: Seq<char>) -> bool {
        let h = folded(self.spec_case_sensitive(), hay);
        if pattern_mode(self.spec_text()) {
            regex_found(self.spec_text(), h)
        } else {
            occurs_in(h, self.spec_text())
        }
    }

    /// `spec_contained`, inverted when the matcher is negative.
    pub open spec fn spec_matches(self, hay: Seq<char>) -> bool {
        if self.spec_is_negative() {
            !self.spec_contained(hay)
        } else {
            self.spec_contained(hay)
        }
    }

    /// Whether `cand` as a whole is the stored text (literal mode) or is
    /// covered by the leftmost pattern match (compiled mode).
    pub open spec fn spec_matches_exactly(self, cand: Seq<char>) -> bool {
        let c = folded(self.spec_case_sensitive(), cand);
        if pattern_mode(self.spec_text()) {
            regex_exact(self.spec_text(), c)
        } else {
            c == self.spec_text()
        }
    }

    /// Whether the stored text starts with `cand` (literal mode) or the
    /// leftmost pattern match in `cand` begins at its start (compiled
    /// mode).
    pub open spec fn spec_starts_with(self, cand: Seq<char>) -> bool {
        let c = folded(self.spec_case_sensitive(), cand);
        if pattern_mode(self.spec_text()) {
            regex_starts(self.spec_text(), c)
        } else {
            prefix_of(c, self.spec_text())
        }
    }

    /// The non-overlapping matches in `subj`, left to right, as (byte
    /// offset, byte length) pairs into the folded subject: of the stored
    /// text as a substring (literal mode), or of the compiled pattern
    /// (compiled mode).
    pub open spec fn spec_match_indices(self, subj: Seq<char>) -> Seq<(int, int)> {
        let c = folded(self.spec_case_sensitive(), subj);
        if pattern_mode(self.spec_text()) {
            as_int_pairs(regex_all_matches(self.spec_text(), c))
        } else {
            byte_pairs(c, match_list(c, self.spec_text(), 0))
        }
    }

    /// The post-state of construction from an input whose characters are
    /// `sv`.
    pub open spec fn constructed_from(self, sv: Seq<char>) -> bool {
        &&& self.wf()
        &&& self.spec_text() == strip_text(sv)
        &&& self.spec_is_negative() == strip_negative(sv)
        &&& !self.spec_case_sensitive()
    }

    pub fn new<S: Text>(s: S) -> (r: Self)
        ensures
            r.constructed_from(s.text_view()),
    {
        Self::from(s)
    }

    /// Strips at most one negation marker, then classifies: text holding a
    /// pattern character is compiled as a regular expression; if it does
    /// not compile, the matcher silently falls back to literal text.
    /// Construction never fails.
    pub fn from<S: Text>(s: S) -> (r: Self)
        ensures
            r.constructed_from(s.text_view()),
    {
        let t = s.text();
        let n = t.unicode_len();
        let (stripped, is_negative): (String, bool) = if n > 0 && t.get_char(0) == '-' {
            let st = remove_first_n_chars(t, 1);
            proof {
                assert(st@ =~= t@.drop_first());
            }
            (st, true)
        } else if n > 0 && t.get_char(n - 1) == '-' {
            let st = remove_last_n_chars(t, 1);
            proof {
                assert(st@ =~= t@.drop_last());
            }
            (st, true)
        } else {
            (t.to_owned(), false)
        };
        let sv = chars_vec(stripped.as_str());
        let data = if has_meta_chars(&sv) {
            match regex_compile(stripped.as_str()) {
                Some(re) => TagWrapperData::Regex(re),
                None => TagWrapperData::Raw(stripped.clone()),
            }
        } else {
            TagWrapperData::Raw(stripped.clone())
        };
        MaybeRegex { data, original: stripped, is_negative, case_sensitive: false }
    }

    /// The same matcher, with haystack folding turned off. All other state
    /// is unchanged.
    pub fn as_case_sensitive(self) -> (r: Self)
        ensures
            r.spec_text() == self.spec_text(),
            r.spec_is_negative() == self.spec_is_negative(),
            r.spec_case_sensitive(),
            r.spec_is_regex() == self.spec_is_regex(),
            self.wf() ==> r.wf(),
    {
        let mut r = self;
        r.case_sensitive = true;
        r
    }

    /// Whether the matcher holds a compiled pattern: the stored text has a
    /// pattern character and compiles.
    pub fn is_regex(&self) -> (b: bool)
        requires
            self.wf(),
        ensures
            b == self.spec_is_regex(),
            b == pattern_mode(self.spec_text()),
    {
        match &self.data {
            TagWrapperData::Raw(_) => false,
            TagWrapperData::Regex(_) => true,
        }
    }

    /// `is_contained_within`, inverted when the input carried a negation
    /// marker.
    pub fn matches<S: Text>(&self, haystack: S) -> (b: bool)
        requires
            self.wf(),
        ensures
            b == self.spec_matches(haystack.text_view()),
    {
        let found = self.is_contained_within(haystack);
        if self.is_negative {
            return !found;
        }
        found
    }

    /// Whether the stored text is found inside the haystack, ignoring the
    /// negation marker: as a substring in literal mode, as a pattern match
    /// anywhere in compiled mode. The haystack alone is folded to
    /// lowercase unless the matcher is case-sensitive.
    pub fn is_contained_within<S: Text>(&self, haystack: S) -> (b: bool)
        requires
            self.wf(),
        ensures
            b == self.spec_contained(haystack.text_view()),
    {
        let h = self.fold_input(haystack.text());
        match &self.data {
            TagWrapperData::Raw(value) => {
                let hv = chars_vec(h.as_str());
                let vv = chars_vec(value.as_str());
                contains_chars(&hv, &vv)
            },
            TagWrapperData::Regex(re) => regex_is_match(re, h.as_str()),
        }
    }

    /// The stored text, as borrowed text.
    pub fn to_str(&self) -> (r: &str)
        ensures
            r@ == self.spec_text(),
    {
        self.original.as_str()
    }

    /// The stored text, as an owned string.
    pub fn to_string(&self) -> (r: String)
        ensures
            r@ == self.spec_text(),
    {
        self.original.clone()
    }

    /// Every non-overlapping match in `other`, left to right, as (byte
    /// offset, byte length) pairs into the folded subject, in both modes:
    /// of the stored text as a substring in literal mode, of the compiled
    /// pattern in compiled mode.
    pub fn match_indices<S: Text>(&self, other: S) -> (out: Vec<(usize, usize)>)
        requires
            self.wf(),
        ensures
            as_int_pairs(out@) == self.spec_match_indices(other.text_view()),
    {
        let o = self.fold_input(other.text());
        match &self.data {
            TagWrapperData::Raw(value) => {
                let ov = chars_vec(o.as_str());
                let vv = chars_vec(value.as_str());
                let byte_len = o.as_str().as_bytes().len();
                byte_match_indices(&ov, &vv, byte_len)
            },
            TagWrapperData::Regex(re) => regex_find_all(re, o.as_str()),
        }
    }

    /// Whether the (folded) candidate as a whole equals the stored text
    /// (literal mode), or the leftmost pattern match covers the whole
    /// candidate (compiled mode).
    pub fn matches_exactly<S: Text>(&self, other: S) -> (b: bool)
        requires
            self.wf(),
        ensures
            b == self.spec_matches_exactly(other.text_view()),
    {
        let o = self.fold_input(other.text());
        match &self.data {
            TagWrapperData::Raw(value) => o.eq(value),
            TagWrapperData::Regex(re) => {
                match regex_find(re, o.as_str()) {
                    Some((_start, len)) => len == o.as_str().len(),
                    None => false,
                }
            },
        }
    }

    /// Whether the stored text starts with the (folded) candidate
    /// (literal mode; note the direction), or the leftmost pattern match
    /// in the candidate begins at offset 0 (compiled mode).
    pub fn starts_with<S: Text>(&self, s: S) -> (b: bool)
        requires
            self.wf(),
        ensures
            b == self.spec_starts_with(s.text_view()),
    {
        let c = self.fold_input(s.text());
        match &self.data {
            TagWrapperData::Raw(value) => {
                let cv = chars_vec(c.as_str());
                let vv = chars_vec(value.as_str());
                prefix_of_chars(&cv, &vv)
            },
            TagWrapperData::Regex(re) => {
                match regex_find(re, c.as_str()) {
                    Some((start, _len)) => start == 0,
                    None => false,
                }
            },
        }
    }

    /// Replaces every occurrence of the stored text or pattern in `body`.
    /// In literal mode the transform runs once, on the stored text itself,
    /// and that single replacement is substituted at every occurrence. In
    /// compiled mode the transform runs once per match, on the matched
    /// text; line breaks are masked by a private placeholder around the
    /// pattern replacement, so bodies already containing the placeholder
    /// are out of scope.
    pub fn replace<F: Fn(&str) -> String + 'static>(&self, body: String, to_string: F) -> (out:
        String)
        requires
            self.wf(),
            forall|a: &str| call_requires(to_string, (a,)),
        ensures
            !pattern_mode(self.spec_text()) ==> exists|a: &str, rep: String|
                {
                    &&& a@ == self.spec_text()
                    &&& #[trigger] call_ensures(to_string, (a,), rep)
                    &&& out@ == replace_from(body@, self.spec_text(), rep@, 0)
                },
            pattern_mode(self.spec_text()) ==> exists|mid: Seq<char>|
                {
                    &&& #[trigger] replaced_all(
                        self.spec_text(),
                        replace_from(body@, newline_seq(), placeholder_seq(), 0),
                        to_string,
                        mid,
                    )
                    &&& out@ == replace_from(mid, placeholder_seq(), newline_seq(), 0)
                },
    {
        match &self.data {
            TagWrapperData::Raw(value) => {
                let arg = value.as_str();
                let rep = to_string(arg);
                let bv = chars_vec(body.as_str());
                let vv = chars_vec(arg);
                let rv = chars_vec(rep.as_str());
                let outv = replace_chars(&bv, &vv, &rv);
                chars_to_string(&outv)
            },
            TagWrapperData::Regex(re) => {
                let bv = chars_vec(body.as_str());
                let nl = chars_vec("\n");
                let ph = chars_vec("abcdefg");
                let masked_v = replace_chars(&bv, &nl, &ph);
                let masked = chars_to_string(&masked_v);
                let mid = regex_replace_all(re, masked.as_str(), &to_string);
                proof {
                    assert(replaced_all(
                        self.spec_text(),
                        replace_from(body@, newline_seq(), placeholder_seq(), 0),
                        to_string,
                        mid@,
                    ));
                }
                let mv = chars_vec(mid.as_str());
                let outv = replace_chars(&mv, &ph, &nl);
                chars_to_string(&outv)
            },
        }
    }

    /// The haystack as this matcher sees it: folded to lowercase unless
    /// case-sensitive.
    fn fold_input(&self, t: &str) -> (r: String)
        ensures
            r@ == folded(self.spec_case_sensitive(), t@),
    {
        if self.case_sensitive {
            t.to_owned()
        } else {
            lowercase(t)
        }
    }
}

impl PartialEq for MaybeRegex {
    /// Two matchers are equal exactly when their stored texts and their
    /// negation flags are equal; case-sensitivity and mode are not part
    /// of equality.
    fn eq(&self, other: &Self) -> (r: bool) {
        self.original.eq(&other.original) && self.is_negative == other.is_negative
    }
}

impl PartialOrd for MaybeRegex {
    /// Matchers are ordered by stored text, then by the negation flag
    /// (`false` before `true`); case-sensitivity and mode are ignored. The
    /// ordering is total, so the result is always `Some`.
    fn partial_cmp(&self, other: &Self) -> (r: Option<core::cmp::Ordering>) {
        let a = chars_vec(self.original.as_str());
        let b = chars_vec(other.original.as_str());
        let c = lex_cmp_vec(&a, &b);
        let ord = match c {
            core::cmp::Ordering::Equal => {
                if self.is_negative == other.is_negative {
                    core::cmp::Ordering::Equal
                } else if other.is_negative {
                    core::cmp::Ordering::Less
                } else {
                    core::cmp::Ordering::Greater
                }
            },
            o => o,
        };
        Some(ord)
    }
}

impl vstd::std_specs::cmp::PartialOrdSpecImpl for MaybeRegex {
    open spec fn obeys_partial_cmp_spec() -> bool {
        true
    }

    open spec fn partial_cmp_spec(&self, other: &Self) -> Option<core::cmp::Ordering> {
        Some(
            if lex_cmp_chars(self.spec_text(), other.spec_text()) == core::cmp::Ordering::Equal {
                if self.spec_is_negative() == other.spec_is_negative() {
                    core::cmp::Ordering::Equal
                } else if other.spec_is_negative() {
                    core::cmp::Ordering::Less
                } else {
                    core::cmp::Ordering::Greater
                }
            } else {
                lex_cmp_chars(self.spec_text(), other.spec_text())
            },
        )
    }
}

impl vstd::std_specs::cmp::PartialEqSpecImpl for MaybeRegex {
    open spec fn obeys_eq_spec() -> bool {
        true
    }

    open spec fn eq_spec(&self, other: &Self) -> bool {
        self.spec_text() == other.spec_text() && self.spec_is_negative()
            == other.spec_is_negative()
    }
}

/// Whether `v` holds at least one pattern character.
fn has_meta_chars(v: &Vec<char>) -> (b: bool)
    ensures
        b == has_meta(v@),
{
    let n = v.len();
    let mut i: usize = 0;
    while i < n
        invariant
            n == v@.len(),
            i <= n,
            forall|j: int| 0 <= j < i ==> !is_meta_char(v@[j]),
        decreases n - i,
    {
        let c = v[i];
        if c == '\\' || c == '$' || c == '^' || c == '[' || c == ']' || c == '+' || c == '*' || c
            == '.' {
            proof {
                assert(is_meta_char(v@[i as int]));
            }
            return true;
        }
        i += 1;
    }
    false
}

} // verus!
