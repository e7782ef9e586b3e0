use path_discovery::charclass::alnum;
use path_discovery::text::chars_of;
use path_discovery::token::file_type_token;
use regex::Regex;

fn stripper() -> Regex {
    Regex::new(r"([a-zA-Z0-9]+\.|^[a-zA-Z0-9]*)").unwrap()
}

fn check_against_pattern(pattern: &Regex, name: &str) {
    let expected = pattern.replace_all(name, "").into_owned();
    assert_eq!(file_type_token(name), expected, "token of {:?}", name);
}

fn check_all_names(pattern: &Regex, alphabet: &[char], prefix: &mut String, remaining: usize) {
    check_against_pattern(pattern, prefix);
    if remaining == 0 {
        return;
    }
    for c in alphabet {
        prefix.push(*c);
        check_all_names(pattern, alphabet, prefix, remaining - 1);
        prefix.pop();
    }
}

#[test]
fn alnum_is_ascii_letters_and_digits() {
    for c in ['a', 'm', 'z', 'A', 'M', 'Z', '0', '5', '9'] {
        assert!(alnum(c), "{:?}", c);
    }
    for c in ['.', '/', '-', '_', ' ', '`', '{', '@', '[', ':', '\u{e9}', '\u{661}', '\u{0}'] {
        assert!(!alnum(c), "{:?}", c);
    }
}

#[test]
fn alnum_agrees_with_the_character_class() {
    let class = Regex::new(r"^[a-zA-Z0-9]$").unwrap();
    for code in 0u32..0x3000 {
        let c = char::from_u32(code).expect("a character");
        assert_eq!(alnum(c), class.is_match(&c.to_string()), "{:?}", c);
    }
}

#[test]
fn chars_of_gives_the_characters_in_order() {
    assert_eq!(chars_of(""), Vec::<char>::new());
    assert_eq!(chars_of("a.b"), vec!['a', '.', 'b']);
    assert_eq!(chars_of("a\u{f1}\u{1f600}/"), vec!['a', '\u{f1}', '\u{1f600}', '/']);
}

#[test]
fn plain_name_gives_empty_token() {
    assert_eq!(file_type_token("README"), "");
}

#[test]
fn empty_name_gives_empty_token() {
    assert_eq!(file_type_token(""), "");
}

#[test]
fn dotfile_is_its_own_token() {
    assert_eq!(file_type_token(".gitignore"), ".gitignore");
}

#[test]
fn dotted_runs_are_struck_and_the_tail_stays() {
    assert_eq!(file_type_token("archive.tar.gz"), "gz");
    assert_eq!(file_type_token("main.rs"), "rs");
    assert_eq!(file_type_token("a.b.c.d"), "d");
}

#[test]
fn name_that_ends_in_a_dot_is_struck_whole() {
    assert_eq!(file_type_token("notes."), "");
    assert_eq!(file_type_token("a.b."), "");
}

#[test]
fn leading_run_is_struck_without_a_dot() {
    assert_eq!(file_type_token("foo-bar"), "-bar");
    assert_eq!(file_type_token("my file"), " file");
    assert_eq!(file_type_token("x_y.txt"), "_txt");
}

#[test]
fn inner_run_without_a_dot_stays() {
    assert_eq!(file_type_token("a.b-c.d"), "b-d");
    assert_eq!(file_type_token("-abc"), "-abc");
    assert_eq!(file_type_token("_a.b"), "_b");
}

#[test]
fn dot_without_a_run_before_it_stays() {
    assert_eq!(file_type_token("a..b"), ".b");
    assert_eq!(file_type_token("..."), "...");
    assert_eq!(file_type_token(".a.b"), ".b");
    assert_eq!(file_type_token("-.x"), "-.x");
}

#[test]
fn characters_outside_ascii_are_no_alphanumerics() {
    assert_eq!(file_type_token("\u{e9}t\u{e9}.txt"), "\u{e9}t\u{e9}.txt");
    assert_eq!(file_type_token("r\u{e9}sum\u{e9}.pdf"), "\u{e9}sum\u{e9}.pdf");
    assert_eq!(file_type_token("\u{65e5}\u{672c}.a.b"), "\u{65e5}\u{672c}.b");
}

#[test]
fn token_agrees_with_the_pattern_on_sample_names() {
    let pattern = stripper();
    let names = [
        "",
        "README",
        "archive.tar.gz",
        ".gitignore",
        "src",
        "Cargo.toml",
        "Cargo.lock",
        "a",
        ".",
        "..",
        "a.",
        ".a",
        "a.b",
        "a..b",
        "a.b.",
        "a-b.c-d.e",
        "hello world.txt",
        "x.y z.w",
        "UPPER.lower.123",
        "007.bond",
        "tab\tname.ext",
        "new\nline.ext",
        "r\u{e9}sum\u{e9}.pdf",
        "\u{e9}.txt",
        "a\u{e9}.b\u{e9}.c",
        "\u{1f600}.png",
        "trailing.dot.",
        "_underscore.rs",
        "file (1).txt",
        "v1.2.3-rc.1",
        "....a....b....",
        "no-dots-here",
        "@scope.pkg",
    ];
    for name in names {
        check_against_pattern(&pattern, name);
    }
}

#[test]
fn token_agrees_with_the_pattern_on_all_short_names() {
    let pattern = stripper();
    let alphabet = ['a', 'Z', '7', '.', '-', '\u{e9}'];
    let mut prefix = String::new();
    check_all_names(&pattern, &alphabet, &mut prefix, 6);
}

#[test]
fn token_agrees_with_the_pattern_on_longer_names() {
    let pattern = stripper();
    let alphabet = ['x', '.', '_'];
    let mut prefix = String::new();
    check_all_names(&pattern, &alphabet, &mut prefix, 9);
}
