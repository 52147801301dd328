use maybe_regex::MaybeRegex;

#[test]
fn detects_regexes() {
    assert!(MaybeRegex::new("This is a regex.*").is_regex());
    assert!(MaybeRegex::new(".*This is a regex").is_regex());
    assert!(MaybeRegex::new(".This is a regex").is_regex());
    assert!(MaybeRegex::new("This is a regex [0-9]").is_regex());
}

#[test]
fn detects_non_regexes() {
    assert!(!MaybeRegex::new("This is not a regex").is_regex());
    assert!(!MaybeRegex::new("This is not a regex?").is_regex());
    assert!(!MaybeRegex::new("This is not a regex [").is_regex());
    assert!(!MaybeRegex::new("This is not a regex [0-9").is_regex());
}

#[test]
fn contains_works() {
    assert!(!MaybeRegex::new("z").is_contained_within("Hello"));
    assert!(!MaybeRegex::new("e$").is_contained_within("Hello"));

    assert!(MaybeRegex::new("e").is_contained_within("Hello"));
    assert!(MaybeRegex::new("o$").is_contained_within("Hello"));
}

#[test]
fn negative_works() {
    assert!(MaybeRegex::new("-e").is_contained_within("Hello"));
    assert!(!MaybeRegex::new("-e").matches("Hello"));

    assert!(MaybeRegex::new("-o$").is_contained_within("Hello"));
    assert!(!MaybeRegex::new("-o$").matches("Hello"));
}

#[test]
fn all_string_types_work() {
    assert!(MaybeRegex::new("e").is_contained_within("Hello"));
    assert!(MaybeRegex::new(String::from("e")).is_contained_within("Hello"));
    assert!(MaybeRegex::new(&String::from("e")).is_contained_within("Hello"));
}

#[test]
fn trailing_marker_negates() {
    let m = MaybeRegex::new("e-");
    assert!(m.is_negative);
    assert_eq!(m.to_str(), "e");
    assert!(m.is_contained_within("Hello"));
    assert!(!m.matches("Hello"));
}

#[test]
fn positive_matches_agree_with_containment() {
    let m = MaybeRegex::new("e");
    assert!(!m.is_negative);
    assert!(m.matches("Hello"));
    assert!(!m.matches("world"));
}

#[test]
fn leading_marker_wins_over_trailing() {
    let m = MaybeRegex::new("-abc-");
    assert!(m.is_negative);
    assert_eq!(m.to_str(), "abc-");
}

#[test]
fn stored_text_is_returned() {
    let m = MaybeRegex::new("-needle");
    assert!(m.is_negative);
    assert_eq!(m.to_str(), "needle");
    assert_eq!(m.to_string(), String::from("needle"));
}

#[test]
fn equality_ignores_case_sensitivity_and_mode() {
    assert!(MaybeRegex::new("e") == MaybeRegex::new(String::from("e")));
    assert!(MaybeRegex::new("e") == MaybeRegex::new("e").as_case_sensitive());
    assert!(MaybeRegex::new("e") != MaybeRegex::new("-e"));
    assert!(MaybeRegex::new("e") != MaybeRegex::new("o"));
}

#[test]
fn haystack_is_folded_but_stored_text_is_not() {
    assert!(MaybeRegex::new("e").is_contained_within("HELLO"));
    assert!(!MaybeRegex::new("E").is_contained_within("hello"));
}

#[test]
fn case_sensitive_disables_folding() {
    assert!(!MaybeRegex::new("e").as_case_sensitive().is_contained_within("HELLO"));
    assert!(MaybeRegex::new("e").as_case_sensitive().is_contained_within("Hello"));
}

#[test]
fn exact_match_rejects_strict_substring() {
    let m = MaybeRegex::new("e+");
    assert!(m.is_regex());
    assert!(!m.matches_exactly("Hello"));
    assert!(m.matches_exactly("eee"));
}

#[test]
fn exact_match_literal_compares_folded_candidate() {
    assert!(MaybeRegex::new("hello").matches_exactly("HELLO"));
    assert!(!MaybeRegex::new("Hello").matches_exactly("Hello"));
    assert!(!MaybeRegex::new("hello").matches_exactly("hello!"));
}

#[test]
fn starts_with_checks_stored_text_direction() {
    let m = MaybeRegex::new("hello");
    assert!(m.starts_with("he"));
    assert!(m.starts_with("HE"));
    assert!(!m.starts_with("el"));
    assert!(!m.starts_with("hello there"));
}

#[test]
fn starts_with_compiled_needs_match_at_start() {
    let m = MaybeRegex::new("l+");
    assert!(m.is_regex());
    assert!(m.starts_with("llama"));
    assert!(!m.starts_with("hello"));
}

#[test]
fn match_indices_literal_are_non_overlapping() {
    let m = MaybeRegex::new("an");
    assert_eq!(m.match_indices("banana"), vec![(1, 2), (3, 2)]);
    let aa = MaybeRegex::new("aa");
    assert_eq!(aa.match_indices("aaaa"), vec![(0, 2), (2, 2)]);
}

#[test]
fn match_indices_compiled_report_match_lengths() {
    let m = MaybeRegex::new("a+");
    assert!(m.is_regex());
    assert_eq!(m.match_indices("baaa!a"), vec![(1, 3), (5, 1)]);
}

#[test]
fn match_indices_literal_are_byte_offsets() {
    let m = MaybeRegex::new("a");
    assert_eq!(m.match_indices("\u{e9}a"), vec![(2, 1)]);
    let e = MaybeRegex::new("\u{e9}");
    assert_eq!(e.match_indices("a\u{e9}\u{e9}"), vec![(1, 2), (3, 2)]);
}

#[test]
fn match_indices_fold_the_subject() {
    let m = MaybeRegex::new("an");
    assert_eq!(m.match_indices("BANANA"), vec![(1, 2), (3, 2)]);
}

#[test]
fn replace_literal_substitutes_every_occurrence_once() {
    let m = MaybeRegex::new("a");
    let out = m.replace(String::from("banana"), |_s: &str| String::from("aa"));
    assert_eq!(out, "baanaanaa");
}

#[test]
fn replace_literal_calls_transform_on_stored_text() {
    let m = MaybeRegex::new("an");
    let out = m.replace(String::from("banana"), |s: &str| format!("<{}>", s));
    assert_eq!(out, "b<an><an>a");
}

#[test]
fn replace_compiled_transforms_each_match() {
    let m = MaybeRegex::new("a+");
    assert!(m.is_regex());
    let out = m.replace(String::from("banana"), |s: &str| format!("[{}]", s));
    assert_eq!(out, "b[a]n[a]n[a]");
    let out2 = m.replace(String::from("baaa!a"), |s: &str| format!("[{}]", s));
    assert_eq!(out2, "b[aaa]![a]");
}

#[test]
fn replace_compiled_spans_lines_without_residue() {
    let m = MaybeRegex::new("[0-9]+");
    assert!(m.is_regex());
    let out = m.replace(String::from("line1\nline2"), |s: &str| format!("<{}>", s));
    assert_eq!(out, "line<1>\nline<2>");
}

#[test]
fn replace_is_single_pass_not_recursive() {
    let m = MaybeRegex::new("ab");
    let out = m.replace(String::from("aabb"), |_s: &str| String::from("ab"));
    assert_eq!(out, "aabb");
    let grow = MaybeRegex::new("x");
    let once = grow.replace(String::from("x"), |_s: &str| String::from("xx"));
    assert_eq!(once, "xx");
    let again = grow.replace(once, |_s: &str| String::from("xx"));
    assert_eq!(again, "xxxx");
}

#[test]
fn empty_pattern_is_literal_and_matches_everywhere() {
    let m = MaybeRegex::new("");
    assert!(!m.is_regex());
    assert!(m.is_contained_within("anything"));
    assert_eq!(m.match_indices("ab"), vec![(0, 0), (1, 0), (2, 0)]);
    let out = m.replace(String::from("ab"), |_s: &str| String::from("-"));
    assert_eq!(out, "-a-b-");
}

#[test]
fn ordering_compares_text_then_negation() {
    assert!(MaybeRegex::new("a") < MaybeRegex::new("b"));
    assert!(MaybeRegex::new("ab") < MaybeRegex::new("b"));
    assert!(MaybeRegex::new("a") < MaybeRegex::new("-a"));
    assert_eq!(
        MaybeRegex::new("a").partial_cmp(&MaybeRegex::new("a")),
        Some(std::cmp::Ordering::Equal)
    );
}
