use oxide_code::config::{Effort, PromptCacheTtl};
use oxide_code::home::tildify;
use oxide_code::text::{
    cut_bytes, decimal_of, ellipsize, first_line, has_char, has_prefix, has_substring, has_suffix,
    is_alphanumeric, is_white_space, joined, len_utf8, signed_decimal_of, str_less, strip_end,
    to_lower, trim, trim_end, trim_start,
};

#[test]
fn white_space_is_that_of_the_standard_library() {
    for c in '\0'..=char::MAX {
        assert_eq!(is_white_space(c), c.is_whitespace(), "{c:?}");
    }
}

#[test]
fn ascii_alphanumerics_are_those_of_the_standard_library() {
    for c in '\0'..=char::MAX {
        assert_eq!(is_alphanumeric(c), c.is_ascii_alphanumeric(), "{c:?}");
    }
}

#[test]
fn lengths_are_those_of_the_standard_library() {
    for c in ['\0', 'a', '\u{7f}', '\u{80}', '\u{7ff}', '\u{800}', '\u{ffff}', '\u{10000}', char::MAX] {
        assert_eq!(len_utf8(c), c.len_utf8(), "{c:?}");
    }
}

#[test]
fn trimming_takes_white_space_off() {
    for s in ["", " ", " a b ", "\t\u{a0}x\u{2003}\n", "plain"] {
        assert_eq!(trim(s), s.trim());
        assert_eq!(trim_start(s), s.trim_start());
        assert_eq!(trim_end(s), s.trim_end());
    }
}

#[test]
fn parts_are_found() {
    assert!(has_prefix("hello", "he") && !has_prefix("he", "hello"));
    assert!(has_suffix("hello", "lo") && !has_suffix("hello", "he"));
    assert!(has_substring("hello", "ell") && has_substring("hello", "") && !has_substring("", "a"));
    assert!(has_char("a/b", '/') && !has_char("ab", '/'));
    assert_eq!(strip_end("a\n\n", '\n'), "a");
    assert_eq!(first_line("a\r\nb"), "a");
}

#[test]
fn capitals_are_lowered() {
    assert_eq!(to_lower("HeLLo-4[1M]"), "hello-4[1m]");
}

#[test]
fn texts_are_cut_at_characters_only() {
    assert_eq!(cut_bytes("héllo", 3), Some("hé"));
    assert_eq!(cut_bytes("héllo", 2), None);
    assert_eq!(cut_bytes("ab", 2), Some("ab"));
    assert_eq!(cut_bytes("ab", 3), None);
}

#[test]
fn long_texts_end_in_an_ellipsis() {
    assert_eq!(ellipsize("abcdef", 6), "abcdef");
    assert_eq!(ellipsize("abcdefg", 6), "abc...");
}

#[test]
fn numbers_are_written_in_decimal() {
    for n in [0, 9, 10, 1_234_567_890, u64::MAX] {
        assert_eq!(decimal_of(n), n.to_string());
    }
    for n in [0, -1, 42, i64::MIN, i64::MAX] {
        assert_eq!(signed_decimal_of(n), n.to_string());
    }
}

#[test]
fn texts_are_ordered_by_their_characters() {
    for (a, b) in [("", "a"), ("a", "b"), ("a", "ab"), ("é", "日"), ("b", "a")] {
        assert_eq!(str_less(a, b), a < b);
    }
}

#[test]
fn lists_are_joined() {
    assert_eq!(joined(&vec!["a".to_owned(), "b".to_owned()], ", "), "a, b");
    assert_eq!(joined(&vec![], ", "), "");
}

#[test]
fn home_is_written_as_a_tilde() {
    assert_eq!(tildify("/home/me/x", Some("/home/me")), "~/x");
    assert_eq!(tildify("/home/me", Some("/home/me")), "~");
    assert_eq!(tildify("/home/me2/x", Some("/home/me")), "/home/me2/x");
    assert_eq!(tildify("/x", None), "/x");
}

#[test]
fn effort_names_read_back() {
    for e in Effort::all() {
        assert_eq!(Effort::parse(e.name()), Some(e));
    }
    assert_eq!(Effort::parse("turbo"), None);
    assert_eq!(PromptCacheTtl::OneHour.name(), "1h");
}
