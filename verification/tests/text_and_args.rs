use tpu_sender::args::{nonzero_arg, split_rpc_urls, status_rpc_urls};
use tpu_sender::each_slot::slot_lamports;
use tpu_sender::text::{contains_text, decimal_text, is_white_space};
use tpu_sender::types::{TpuPortArg, TpuPortKind};

fn strings(values: &[&str]) -> Vec<String> {
    values.iter().map(|v| v.to_string()).collect()
}

#[test]
fn white_space_is_that_of_the_standard_library() {
    for code in 0u32..=0x10ffff {
        if let Some(c) = char::from_u32(code) {
            assert_eq!(is_white_space(c), c.is_whitespace(), "{code:x}");
        }
    }
}

#[test]
fn urls_are_split_trimmed_and_blank_ones_dropped() {
    assert_eq!(
        split_rpc_urls(&strings(&["http://a, http://b ,,\thttp://c\n", "", " , ", "http://d"])),
        strings(&["http://a", "http://b", "http://c", "http://d"])
    );
    assert_eq!(split_rpc_urls(&[]), Vec::<String>::new());
    assert_eq!(split_rpc_urls(&strings(&[",", " "])), Vec::<String>::new());
}

#[test]
fn urls_keep_inner_space_and_wide_characters() {
    assert_eq!(
        split_rpc_urls(&strings(&["\u{3000}http://é x\u{a0},http://ü"])),
        strings(&["http://é x", "http://ü"])
    );
}

#[test]
fn urls_joined_by_commas_are_urls_given_one_by_one() {
    let joined = strings(&["http://a,http://b, http://c"]);
    let repeated = strings(&["http://a", "http://b", " http://c"]);
    assert_eq!(split_rpc_urls(&joined), split_rpc_urls(&repeated));
}

#[test]
fn a_plain_url_is_its_own_list() {
    assert_eq!(
        split_rpc_urls(&strings(&["http://127.0.0.1:8899"])),
        strings(&["http://127.0.0.1:8899"])
    );
}

#[test]
fn splitting_agrees_with_the_standard_library() {
    for text in ["", ",", "a", " a ", "a,b", ",a,,b,", " a , b c ,\u{2003}d\u{2003}", "é,ü "] {
        let expected: Vec<String> = text
            .split(',')
            .map(str::trim)
            .filter(|v| !v.is_empty())
            .map(ToOwned::to_owned)
            .collect();
        assert_eq!(split_rpc_urls(&strings(&[text])), expected, "{text:?}");
    }
}

#[test]
fn status_urls_prefer_the_command_line() {
    assert_eq!(
        status_rpc_urls(&strings(&["http://a"]), Some("http://e".to_string()), "http://f"),
        strings(&["http://a"])
    );
}

#[test]
fn status_urls_fall_back_to_the_environment_and_then_to_the_default() {
    assert_eq!(
        status_rpc_urls(&strings(&[" "]), Some("http://e,http://g".to_string()), "http://f"),
        strings(&["http://e", "http://g"])
    );
    assert_eq!(
        status_rpc_urls(&[], Some(" , ".to_string()), "http://f"),
        strings(&["http://f"])
    );
    assert_eq!(status_rpc_urls(&[], None, "http://f"), strings(&["http://f"]));
}

#[test]
fn the_fallback_url_is_taken_as_it_is() {
    assert_eq!(status_rpc_urls(&[], None, " x, y "), strings(&[" x, y "]));
}

#[test]
fn arguments_other_than_zero() {
    assert_eq!(nonzero_arg(1, "--endpoint-count"), 1);
    assert_eq!(nonzero_arg(usize::MAX, "--endpoint-count"), usize::MAX);
}

#[test]
fn text_search() {
    assert!(contains_text("connection disallowed by peer", "disallowed"));
    assert!(contains_text("disallowed", "disallowed"));
    assert!(!contains_text("disallowe", "disallowed"));
    assert!(!contains_text("Disallowed", "disallowed"));
    assert!(contains_text("aab", "ab"));
    assert!(contains_text("", ""));
    assert!(!contains_text("", "a"));
}

#[test]
fn decimal_texts() {
    for n in [0u64, 7, 10, 99, 100, 12345, 1_000_000_007, u64::MAX] {
        assert_eq!(decimal_text(n), n.to_string());
        assert_eq!(decimal_text(n).parse::<u64>(), Ok(n));
    }
}

#[test]
fn lamports_jitter_by_slot() {
    assert_eq!(slot_lamports(1000, 1000, 0), 1000);
    assert_eq!(slot_lamports(1000, 1000, 123_456), 1456);
    assert_eq!(slot_lamports(5, 1, u64::MAX), 5);
    assert_eq!(slot_lamports(u64::MAX - 2, 3, 8), u64::MAX);
}

#[test]
fn nearby_slots_get_different_amounts() {
    for slot in 995u64..1005 {
        for later in slot + 1..slot + 10 {
            assert_ne!(slot_lamports(7, 10, slot), slot_lamports(7, 10, later));
        }
        assert_eq!(slot_lamports(7, 10, slot), slot_lamports(7, 10, slot + 10));
    }
}

#[test]
fn port_kinds_by_name() {
    assert_eq!(TpuPortKind::from(TpuPortArg::Normal), TpuPortKind::Normal);
    assert_eq!(TpuPortKind::from(TpuPortArg::Forwards), TpuPortKind::Forwards);
}
