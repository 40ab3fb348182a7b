use deskflow_plus::primitives::{decimal_string, join_path, trim_text};

#[test]
fn decimal_text_has_no_leading_zeros() {
    assert_eq!(decimal_string(0), "0");
    assert_eq!(decimal_string(7), "7");
    assert_eq!(decimal_string(10), "10");
    assert_eq!(decimal_string(65535), "65535");
    assert_eq!(decimal_string(u128::MAX), u128::MAX.to_string());
}

#[test]
fn joining_adds_one_separator_where_needed() {
    assert_eq!(join_path("/data", "config", '/'), "/data/config");
    assert_eq!(join_path("/data/", "config", '/'), "/data/config");
    assert_eq!(join_path("", "config", '/'), "config");
    assert_eq!(join_path("C:\\data", "config", '\\'), "C:\\data\\config");
    assert_eq!(join_path("C:/data/", "config", '\\'), "C:/data/config");
    assert_eq!(join_path("C:", "config", '\\'), "C:config");
    assert_eq!(join_path("C:", "config", '/'), "C:/config");
}

#[test]
fn joining_matches_the_platform_path_join() {
    let sep = std::path::MAIN_SEPARATOR;
    for base in ["/data", "/data/", "", "relative/dir"] {
        let expected = std::path::Path::new(base).join("config.json");
        assert_eq!(join_path(base, "config.json", sep), expected.to_string_lossy());
    }
}

#[test]
fn trimming_matches_str_trim() {
    for text in [
        "",
        "   ",
        "  host ",
        "\u{3000}\t10.0.0.5\u{a0}\n",
        "a b",
        "\u{2028}x\u{200a}",
        "\u{200b}zero-width\u{200b}",
    ] {
        assert_eq!(trim_text(text), text.trim());
    }
}
