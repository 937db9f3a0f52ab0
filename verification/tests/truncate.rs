use auto_commit::text::whitespace_char;
use auto_commit::truncate_to_n_tokens;

#[test]
fn test_truncate_to_n_tokens() {
    let text = "a b c d e";
    assert_eq!(truncate_to_n_tokens(text, 3), "a b c");
}

#[test]
fn test_truncate_to_n_tokens_zero_limit() {
    let text = "a b c d e";
    assert_eq!(truncate_to_n_tokens(text, 0), "");
}

#[test]
fn test_truncate_to_n_tokens_empty_string() {
    let text = "";
    assert_eq!(truncate_to_n_tokens(text, 5), "");
}

#[test]
fn test_truncate_to_n_tokens_limit_exceeds_tokens() {
    let text = "hello world";
    assert_eq!(truncate_to_n_tokens(text, 5), "hello world");
}

#[test]
fn test_truncate_to_n_tokens_whitespace_normalization() {
    let text = " a   b  c ";
    assert_eq!(truncate_to_n_tokens(text, 2), "a b");
}

#[test]
fn test_truncate_to_n_tokens_unicode_characters() {
    let text = "你好 世界 Rust 编程";
    assert_eq!(truncate_to_n_tokens(text, 3), "你好 世界 Rust");
}

#[test]
fn truncate_to_n_tokens_returns_original_when_under_limit() {
    let input = "one two three";
    let result = truncate_to_n_tokens(input, 5);
    assert_eq!(result, input.to_string());
}

#[test]
fn truncate_to_n_tokens_truncates_to_specified_token_count() {
    let input = (1..=10).map(|n| n.to_string()).collect::<Vec<_>>().join(" ");
    let result = truncate_to_n_tokens(&input, 5);
    assert_eq!(result.split_whitespace().count(), 5);
}

#[test]
fn truncate_is_idempotent_on_examples() {
    for text in ["a b c d e", "  x \t y\nz  ", "", "один два три"] {
        for limit in [0usize, 1, 2, 100] {
            let once = truncate_to_n_tokens(text, limit);
            let twice = truncate_to_n_tokens(&once, limit);
            assert_eq!(once, twice);
        }
    }
}

#[test]
fn truncate_keeps_multibyte_tokens_whole() {
    let text = "naïve café ☕ emoji\u{3000}日本語";
    let out = truncate_to_n_tokens(text, 4);
    assert_eq!(out, "naïve café ☕ emoji");
    for tok in out.split_whitespace() {
        assert!(text.split_whitespace().any(|t| t == tok));
    }
}

#[test]
fn truncate_handles_unicode_whitespace_boundaries() {
    let text = "a\u{00A0}b\u{2003}c";
    assert_eq!(truncate_to_n_tokens(text, 2), "a b");
}

#[test]
fn whitespace_predicate_agrees_with_std_everywhere() {
    for u in 0..=0x10FFFFu32 {
        if let Some(c) = char::from_u32(u) {
            assert_eq!(whitespace_char(c), c.is_whitespace());
        }
    }
}
