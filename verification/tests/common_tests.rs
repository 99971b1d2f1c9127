use neurons_agent::utils::common::{is_contain, join_vec_string, lines_to_string_vec, str_eq};
use neurons_agent::utils::string::vec_u8_to_string;

#[test]
fn test_join_vec_string() {
    assert_eq!(join_vec_string(["a", "b", "c"].to_vec(), ""), "abc");
    assert_eq!(join_vec_string(["a", "b", "c"].to_vec(), "-"), "a-b-c");
    assert_eq!(join_vec_string([].to_vec(), ""), "");
    assert_eq!(join_vec_string([].to_vec(), "-"), "");
}

#[test]
fn test_is_contain() {
    assert_eq!(is_contain("", ""), true);
    assert_eq!(is_contain("", "ac"), false);
    assert_eq!(is_contain("", "b"), false);
    assert_eq!(is_contain("abc", ""), true);
    assert_eq!(is_contain("abc", "ac"), false);
    assert_eq!(is_contain("abc", "b"), true);
}

#[test]
fn join_single_and_multichar_separator() {
    assert_eq!(join_vec_string(vec!["only"], ", "), "only");
    assert_eq!(join_vec_string(vec!["x", "", "y"], "::"), "x::::y");
}

#[test]
fn contains_non_ascii_and_edges() {
    assert!(is_contain("日本語テキスト", "語テ"));
    assert!(!is_contain("日本語", "本日"));
    assert!(is_contain("abc", "abc"));
    assert!(!is_contain("ab", "abc"));
    assert!(is_contain("error: disk full", "disk"));
}

#[test]
fn lines_match_std_lines() {
    let cases = [
        "",
        "\n",
        "a",
        "a\n",
        "a\nb",
        "a\r\nb\r\n",
        "a\rb\n",
        "a\r",
        "\n\nx\n\n",
        "line one\r\n\r\nline three",
        "ü\nß\r\n",
    ];
    for c in cases.iter() {
        let expected: Vec<String> = c.lines().map(|s| s.to_string()).collect();
        assert_eq!(lines_to_string_vec(c), expected, "input {:?}", c);
    }
}

#[test]
fn lines_final_line_ending_law() {
    assert_eq!(lines_to_string_vec("a\nb"), lines_to_string_vec("a\nb\n"));
    assert_eq!(lines_to_string_vec("a\nb"), lines_to_string_vec("a\nb\r\n"));
    assert_eq!(lines_to_string_vec("a\nb"), vec!["a".to_string(), "b".to_string()]);
}

#[test]
fn str_eq_cases() {
    assert!(str_eq("reload", "reload"));
    assert!(!str_eq("reload", "reloa"));
    assert!(str_eq("", ""));
}

#[test]
fn vec_u8_to_string_cases() {
    assert_eq!(vec_u8_to_string(&b"hello".to_vec()), "hello");
    assert_eq!(vec_u8_to_string(&"héllo".as_bytes().to_vec()), "héllo");
    assert_eq!(vec_u8_to_string(&vec![0xff, 0x41]), "");
    assert_eq!(vec_u8_to_string(&Vec::new()), "");
}

#[test]
fn lines_round_trip_law() {
    for s in ["", "\n", "a", "a\n", "a\n\nb", "x\ny\n\n"].iter() {
        let lines = lines_to_string_vec(s);
        let refs: Vec<&str> = lines.iter().map(|x| x.as_str()).collect();
        let mut back = join_vec_string(refs, "\n");
        if s.ends_with('\n') {
            back.push('\n');
        }
        assert_eq!(&back, s);
    }
}
