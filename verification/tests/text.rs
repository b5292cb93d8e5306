use llama_server::text::{is_whitespace, join, split_whitespace};

#[test]
fn white_space_is_what_the_standard_library_takes_for_it() {
    let mut count = 0;
    for code in 0..=0x10FFFFu32 {
        if let Some(c) = char::from_u32(code) {
            assert_eq!(is_whitespace(c), c.is_whitespace(), "U+{code:04X}");
            if is_whitespace(c) {
                count += 1;
            }
        }
    }
    assert_eq!(count, 25);
}

#[test]
fn words_are_split_as_the_standard_library_splits_them() {
    let texts = [
        "",
        " ",
        "a",
        " a",
        "a ",
        "a b",
        "  a   b  ",
        "--model m.gguf --host 127.0.0.1 --port 8080 --gpu-layers 80 --jinja",
        "tab\tand\nnewline\r\nand\u{3000}wide\u{a0}space",
        "\u{2028}x\u{2029}",
        "é è\u{85}ê",
        "one",
        "   ",
        "a\u{200B}b c",
    ];
    for text in texts {
        let expected: Vec<String> = text.split_whitespace().map(str::to_owned).collect();
        assert_eq!(split_whitespace(text), expected, "{text:?}");
    }
}

#[test]
fn words_of_a_line() {
    assert_eq!(split_whitespace("  my model.gguf  "), vec!["my", "model.gguf"]);
    assert_eq!(split_whitespace(""), Vec::<String>::new());
    assert_eq!(split_whitespace(" \t "), Vec::<String>::new());
}

#[test]
fn parts_are_joined_with_the_separator_between_them() {
    assert_eq!(join(&vec![], "-"), "");
    assert_eq!(join(&vec!["cuda"], "-"), "cuda");
    assert_eq!(join(&vec!["cuda", "hip"], "-"), "cuda-hip");
    assert_eq!(join(&vec!["a", "", "c"], ", "), "a, , c");
    assert_eq!(join(&vec!["", ""], "/"), "/");
    for parts in [vec![], vec!["x"], vec!["x", "y", "z"]] {
        assert_eq!(join(&parts, "--"), parts.join("--"));
    }
}
