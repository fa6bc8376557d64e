use wsl_clip::paths::{
    is_space_char, sort_paths, text_precedes, trim, windows_path_from_output, InputPath, PathError,
};

fn texts(paths: &[InputPath]) -> Vec<String> {
    paths.iter().map(|p| p.text.clone()).collect()
}

#[test]
fn test_wslpath_resolution() {
    let res = windows_path_from_output(true, Some("\\\\wsl.localhost\\Ubuntu\\bin\\sh\n"), "");
    assert!(res.is_ok());
    assert_eq!(res, Ok("\\\\wsl.localhost\\Ubuntu\\bin\\sh".to_string()));
}

#[test]
fn a_failed_resolver_is_reported_with_its_complaint() {
    let res = windows_path_from_output(false, Some("ignored"), "  wslpath: no such file\n");
    assert_eq!(res, Err(PathError::ResolverFailed { detail: "wslpath: no such file".to_string() }));
    assert_eq!(res.unwrap_err().message(), "wslpath failed: wslpath: no such file");
    assert_eq!(
        windows_path_from_output(false, None, ""),
        Err(PathError::ResolverFailed { detail: String::new() })
    );
}

#[test]
fn output_that_is_no_text_is_an_error() {
    let res = windows_path_from_output(true, None, "");
    assert_eq!(res, Err(PathError::InvalidOutput));
    assert_eq!(res.unwrap_err().message(), "wslpath output returned invalid UTF-8");
}

#[test]
fn trimming_takes_white_space_from_both_ends_only() {
    assert_eq!(trim("  a b \t\r\n"), "a b");
    assert_eq!(trim("a"), "a");
    assert_eq!(trim(""), "");
    assert_eq!(trim(" \n\t "), "");
    assert_eq!(trim("\u{A0}\u{3000}x\u{2028}\u{85}"), "x");
    assert_eq!(trim("\u{200B}x\u{200B}"), "\u{200B}x\u{200B}");
    for text in ["  a b \t\r\n", "\u{1680}q\u{205F}", " C:\\Users\\me ", "\u{B}\u{C}x y\u{2003}"] {
        assert_eq!(trim(text), text.trim());
    }
}

#[test]
fn white_space_is_what_the_standard_library_calls_so() {
    for n in 0u32..0x3100 {
        let c = char::from_u32(n).unwrap();
        assert_eq!(is_space_char(c), c.is_whitespace(), "{:#x}", n);
    }
}

#[test]
fn texts_are_ordered_by_code_point() {
    assert!(text_precedes("", ""));
    assert!(text_precedes("", "a"));
    assert!(!text_precedes("a", ""));
    assert!(text_precedes("a", "a"));
    assert!(text_precedes("a", "ab"));
    assert!(!text_precedes("ab", "a"));
    assert!(text_precedes("B", "a"));
    assert!(!text_precedes("a", "B"));
    assert!(text_precedes("a.b", "a/b"));
    assert!(text_precedes("z", "\u{E9}"));
    assert!(text_precedes("\u{E9}", "\u{1F600}"));
    let samples = ["", "a", "ab", "b", "B", "a/b", "a.b", "\u{E9}", "\u{1F600}", "~"];
    for x in samples {
        for y in samples {
            assert_eq!(text_precedes(x, y), x <= y, "{:?} {:?}", x, y);
        }
    }
}

#[test]
fn paths_are_sorted_by_their_text() {
    let paths = vec![
        InputPath::new("b.txt", Some("txt")),
        InputPath::new("a/z.txt", Some("txt")),
        InputPath::new("B.txt", Some("txt")),
        InputPath::new("a.txt", Some("txt")),
        InputPath::new("a", None),
    ];
    let sorted = sort_paths(&paths);
    assert_eq!(texts(&sorted), vec!["B.txt", "a", "a.txt", "a/z.txt", "b.txt"]);
    assert_eq!(sorted[1], InputPath::new("a", None));
    assert_eq!(sort_paths(&Vec::new()), Vec::new());
}

#[test]
fn paths_of_equal_text_keep_their_order() {
    let paths = vec![
        InputPath::new("x", Some("second")),
        InputPath::new("a", None),
        InputPath::new("x", Some("first")),
        InputPath::new("x", None),
    ];
    assert_eq!(
        sort_paths(&paths),
        vec![
            InputPath::new("a", None),
            InputPath::new("x", Some("second")),
            InputPath::new("x", Some("first")),
            InputPath::new("x", None),
        ]
    );
}

#[test]
fn a_path_is_copied_whole() {
    let path = InputPath::new("dir/x.py", Some("py"));
    assert_eq!(path.duplicate(), path);
    assert_eq!(path.text, "dir/x.py");
    assert_eq!(path.extension, Some("py".to_string()));
}

#[test]
fn sorting_agrees_with_the_order_of_strings() {
    let names = [
        "src/main.rs", "src/lib.rs", "README.md", "a b.txt", "a.txt", "a/b.txt", "a", "",
        "Z.txt", "z.txt", "\u{E9}t\u{E9}.txt", "10.txt", "9.txt", "src/main.rs", "~", "a.txt.bak",
    ];
    let paths: Vec<InputPath> = names.iter().map(|n| InputPath::new(n, None)).collect();
    let mut expected: Vec<String> = names.iter().map(|n| n.to_string()).collect();
    expected.sort();
    assert_eq!(texts(&sort_paths(&paths)), expected);
    let mut backward = paths.clone();
    backward.reverse();
    assert_eq!(texts(&sort_paths(&backward)), expected);
}
