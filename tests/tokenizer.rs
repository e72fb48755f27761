use netrc_util::token::{tokenize, Token};

fn texts(input: &str) -> Vec<String> {
    tokenize(input).iter().map(|t| t.to_text()).collect()
}

#[test]
fn keywords_and_words() {
    let ts = tokenize("machine a login b password c account d default");
    assert_eq!(ts.len(), 9);
    assert!(matches!(ts[0], Token::Machine));
    assert!(matches!(&ts[1], Token::Text(s) if s == "a"));
    assert!(matches!(ts[2], Token::Login));
    assert!(matches!(ts[4], Token::Password));
    assert!(matches!(ts[6], Token::Account));
    assert!(matches!(ts[8], Token::Default));
}

#[test]
fn keyword_counts_only_as_whole_word() {
    assert_eq!(texts("loginuser"), vec!["loginuser"]);
    assert_eq!(texts("pass"), vec!["pass"]);
    let ts = tokenize("loginx machinery defaults");
    assert_eq!(ts.len(), 3);
    assert!(matches!(&ts[0], Token::Text(s) if s == "loginx"));
    assert!(matches!(&ts[1], Token::Text(s) if s == "machinery"));
    assert!(matches!(&ts[2], Token::Text(s) if s == "defaults"));
}

#[test]
fn single_word_renders_back() {
    for w in ["machine", "login", "password", "account", "default", "macdefx", "loginx", "#!"] {
        let ts = tokenize(w);
        assert_eq!(ts.len(), 1);
        assert_eq!(ts[0].to_text(), w);
    }
}

#[test]
fn comment_is_dropped() {
    assert_eq!(texts("# a comment\nlogin x"), vec!["login", "x"]);
}

#[test]
fn comment_without_line_break_is_words() {
    assert_eq!(texts("# a"), vec!["#", "a"]);
}

#[test]
fn macro_body_runs_to_blank_line() {
    let ts = tokenize("macdef m\nlogin x\n\nlogin y");
    assert_eq!(ts.len(), 3);
    assert!(matches!(&ts[0], Token::MacDef(n, b) if n == "m" && b == "\nlogin x"));
    assert_eq!(ts[0].to_text(), "macdef m \nlogin x");
}

#[test]
fn macro_body_runs_to_end() {
    let ts = tokenize("macdef m login x");
    assert_eq!(ts.len(), 1);
    assert!(matches!(&ts[0], Token::MacDef(n, b) if n == "m" && b == " login x"));
}

#[test]
fn macro_without_name_is_a_word() {
    assert_eq!(texts("macdef   "), vec!["macdef"]);
}

#[test]
fn unicode_spaces_separate() {
    assert_eq!(texts("a\u{2029}b\u{3000}c\u{85}d"), vec!["a", "b", "c", "d"]);
    assert!(tokenize(" \t\r\n ").is_empty());
}
