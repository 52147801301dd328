use vstd::prelude::*;

verus! {

use vstd::utf8::encode_utf8;

#[verifier::external_type_specification]
#[verifier::external_body]
pub struct ExRegex(regex::Regex);

/// The pattern a compiled regex was built from, as a character sequence;
/// it is what `regex::Regex::as_str` returns.
pub uninterp spec fn regex_pattern(re: regex::Regex) -> Seq<char>;

/// Whether `regex::Regex::new` accepts a pattern under its default
/// configuration. It depends on the pattern alone.
pub uninterp spec fn regex_compiles(pattern: Seq<char>) -> bool;

/// What `regex::Regex::find_iter` yields: the successive non-overlapping
/// matches of a regex built from `pattern` in `hay`, left to right, each
/// as (byte offset, byte length). It depends on the two character
/// sequences alone.
pub uninterp spec fn regex_all_matches(pattern: Seq<char>, hay: Seq<char>) -> Seq<(usize, usize)>;

/// What `regex::Regex::find` returns: the leftmost match, which is the
/// first of the successive non-overlapping matches, or None when there
/// are none.
pub open spec fn regex_first_match(pattern: Seq<char>, hay: Seq<char>) -> Option<(usize, usize)> {
    if regex_all_matches(pattern, hay).len() > 0 {
        Some(regex_all_matches(pattern, hay)[0])
    } else {
        None
    }
}

/// What `regex::Regex::is_match` returns: whether a regex built from
/// `pattern` matches anywhere in `hay`, that is, whether it has any
/// match at all.
pub open spec fn regex_found(pattern: Seq<char>, hay: Seq<char>) -> bool {
    regex_all_matches(pattern, hay).len() > 0
}

/// Relies on regex::Regex's derived Clone: a clone carries the same
/// compiled pattern (the field regex::Regex::as_str reads is cloned as
/// is).
pub assume_specification[ <regex::Regex as Clone>::clone ](re: &regex::Regex) -> (r:
    regex::Regex)
    ensures
        regex_pattern(r) == regex_pattern(*re),
;

/// Relies on regex::Regex::new: it returns Ok exactly when the pattern is
/// accepted under the default configuration, and the compiled value keeps
/// that pattern (regex::Regex::as_str returns the string `new` was given).
#[verifier::external_body]
pub(crate) fn regex_compile(s: &str) -> (r: Option<regex::Regex>)
    ensures
        r is Some <==> regex_compiles(s@),
        r matches Some(re) ==> regex_pattern(re) == s@,
{
    regex::Regex::new(s).ok()
}

/// Relies on regex::Regex::is_match: true if and only if there is a match
/// for the regex anywhere in the haystack, that is, if and only if
/// regex::Regex::find_iter yields at least one match.
#[verifier::external_body]
pub(crate) fn regex_is_match(re: &regex::Regex, hay: &str) -> (b: bool)
    ensures
        b == regex_found(regex_pattern(*re), hay@),
{
    re.is_match(hay)
}

/// Relies on regex::Regex::find: the leftmost match — the first one that
/// regex::Regex::find_iter yields — reported through regex::Match::start
/// and regex::Match::len as byte offsets that lie within the haystack;
/// None exactly when there is no match.
#[verifier::external_body]
pub(crate) fn regex_find(re: &regex::Regex, hay: &str) -> (m: Option<(usize, usize)>)
    ensures
        m == regex_first_match(regex_pattern(*re), hay@),
        m matches Some(p) ==> p.0 + p.1 <= encode_utf8(hay@).len() && encode_utf8(hay@).len()
            <= usize::MAX,
{
    re.find(hay).map(|f| (f.start(), f.len()))
}

/// Relies on regex::Regex::find_iter: the successive non-overlapping
/// matches, left to right, through regex::Match::start and
/// regex::Match::len: each span lies within the haystack's bytes, and
/// each match begins at or after the end of the one before it.
#[verifier::external_body]
pub(crate) fn regex_find_all(re: &regex::Regex, hay: &str) -> (v: Vec<(usize, usize)>)
    ensures
        v@ == regex_all_matches(regex_pattern(*re), hay@),
        forall|i: int|
            0 <= i < v@.len() ==> (#[trigger] v@[i]).0 + v@[i].1 <= encode_utf8(hay@).len()
                && encode_utf8(hay@).len() <= usize::MAX,
        forall|i: int| 0 <= i < v@.len() - 1 ==> (#[trigger] v@[i]).0 + v@[i].1 <= v@[i + 1].0,
{
    re.find_iter(hay).map(|f| (f.start(), f.len())).collect()
}

/// The bytes of `hay` with the matched spans `ms` cut out and the byte
/// sequences `reps` put in their places, from position `pos` on.
pub open spec fn splice_bytes(
    hb: Seq<u8>,
    ms: Seq<(usize, usize)>,
    reps: Seq<Seq<u8>>,
    pos: int,
) -> Seq<u8>
    decreases ms.len(),
{
    if ms.len() == 0 {
        hb.subrange(pos, hb.len() as int)
    } else {
        hb.subrange(pos, ms[0].0 as int) + reps[0] + splice_bytes(
            hb,
            ms.drop_first(),
            reps.drop_first(),
            ms[0].0 + ms[0].1,
        )
    }
}

/// `rep` is a possible output of `cb` on the matched text, the span `m` of
/// the haystack bytes `hb`.
pub open spec fn replacement_for<F: Fn(&str) -> String>(
    cb: F,
    hb: Seq<u8>,
    m: (usize, usize),
    rep: Seq<u8>,
) -> bool {
    exists|a: &str, s: String|
        {
            &&& encode_utf8(a@) == hb.subrange(m.0 as int, m.0 + m.1)
            &&& #[trigger] call_ensures(cb, (a,), s)
            &&& encode_utf8(s@) == rep
        }
}

/// `out` is a possible result of replacing, with `cb`'s output on each
/// matched text, every non-overlapping match of a regex built from `p`
/// in `hay`, the rest of `hay` kept unchanged.
pub open spec fn replaced_all<F: Fn(&str) -> String>(
    p: Seq<char>,
    hay: Seq<char>,
    cb: F,
    out: Seq<char>,
) -> bool {
    let hb = encode_utf8(hay);
    let ms = regex_all_matches(p, hay);
    exists|reps: Seq<Seq<u8>>|
        {
            &&& reps.len() == ms.len()
            &&& (forall|i: int|
                0 <= i < ms.len() ==> replacement_for(cb, hb, ms[i], #[trigger] reps[i]))
            &&& encode_utf8(out) == splice_bytes(hb, ms, reps, 0)
        }
}

/// Relies on regex::Regex::replace_all with a closure replacer: every
/// non-overlapping match, left to right, is replaced by the closure's
/// output on the matched text (capture group 0), and the haystack between
/// and around the matches is kept unchanged.
#[verifier::external_body]
pub(crate) fn regex_replace_all<F: Fn(&str) -> String>(
    re: &regex::Regex,
    hay: &str,
    cb: &F,
) -> (out: String)
    requires
        forall|a: &str| call_requires(*cb, (a,)),
    ensures
        replaced_all(regex_pattern(*re), hay@, *cb, out@),
{
    let rep = |caps: &regex::Captures| cb(caps.get(0).map_or("", |f| f.as_str()));
    re.replace_all(hay, rep).to_string()
}

} // verus!
