use maybe_regex::{remove_first_n_chars, remove_last_n_chars};

#[test]
fn remove_first_n_chars_drops_a_prefix() {
    assert_eq!(remove_first_n_chars("hello", 0), "hello");
    assert_eq!(remove_first_n_chars("hello", 2), "llo");
    assert_eq!(remove_first_n_chars("hello", 5), "");
    assert_eq!(remove_first_n_chars("hello", 9), "");
}

#[test]
fn remove_last_n_chars_drops_a_suffix() {
    assert_eq!(remove_last_n_chars("hello", 0), "hello");
    assert_eq!(remove_last_n_chars("hello", 2), "hel");
    assert_eq!(remove_last_n_chars("hello", 5), "");
    assert_eq!(remove_last_n_chars("hello", 9), "");
}
