use netrc_util::{Host, NetrcParser, RawNetrcParser};

fn host(s: &str) -> Host {
    Host::parse(s).unwrap()
}

#[test]
fn single_block_raw_lookup() {
    let mut p = RawNetrcParser::new("machine a.test login lo password pw");
    let e = p.entry_for_host(&host("a.test")).unwrap();
    assert_eq!(e.login().map(|s| s.as_str()), Some("lo"));
    assert_eq!(e.password().map(|s| s.as_str()), Some("pw"));
    assert_eq!(e.account(), None);
}

#[test]
fn unmentioned_host_is_absent_for_both_lookups() {
    let text = "machine a.test login lo password pw";
    assert!(RawNetrcParser::new(text).entry_for_host(&host("b.test")).is_none());
    assert!(NetrcParser::new(text).entry_for_host(&host("b.test")).is_none());
    assert!(RawNetrcParser::new("").entry_for_host(&host("b.test")).is_none());
}

#[test]
fn host_record_is_never_merged_with_default() {
    let mut p = NetrcParser::new("machine A password pass\ndefault login user2");
    let e = p.entry_for_host(&host("A")).unwrap();
    assert_eq!(e.login(), None);
    assert_eq!(e.password(), "pass");
}

#[test]
fn last_block_for_a_host_wins() {
    let text = "machine A login x password y\nmachine A login z password w";
    let e = RawNetrcParser::new(text).entry_for_host(&host("A")).unwrap();
    assert_eq!(e.login().map(|s| s.as_str()), Some("z"));
    assert_eq!(e.password().map(|s| s.as_str()), Some("w"));
}

#[test]
fn unknown_word_drops_only_its_block() {
    let text = "machine A \n login u \n foo \n password p\nmachine B login l password q";
    let mut p = RawNetrcParser::new(text);
    assert!(p.entry_for_host(&host("A")).is_none());
    let e = p.entry_for_host(&host("B")).unwrap();
    assert_eq!(e.login().map(|s| s.as_str()), Some("l"));
    assert_eq!(e.password().map(|s| s.as_str()), Some("q"));
}

#[test]
fn macro_body_is_never_committed() {
    let text = "macdef m \n machine A login x password y \n\n machine A login real password pw";
    let e = NetrcParser::new(text).entry_for_host(&host("A")).unwrap();
    assert_eq!(e.login().map(|s| s.as_str()), Some("real"));
    assert_eq!(e.password(), "pw");
}

#[test]
fn account_stands_in_for_login() {
    let e = NetrcParser::new("machine A account acc password pass")
        .entry_for_host(&host("A"))
        .unwrap();
    assert_eq!(e.login().map(|s| s.as_str()), Some("acc"));
    let e = NetrcParser::new("machine A login log password pass account acc")
        .entry_for_host(&host("A"))
        .unwrap();
    assert_eq!(e.login().map(|s| s.as_str()), Some("log"));
}

#[test]
fn repeated_lookups_agree() {
    let mut p = NetrcParser::new("machine a.test login lo password pw\ndefault password d");
    let first = p.entry_for_host(&host("a.test"));
    let second = p.entry_for_host(&host("a.test"));
    assert_eq!(first, second);
    let other = p.entry_for_host(&host("b.test")).unwrap();
    assert_eq!(other.password(), "d");
    let mut r = RawNetrcParser::new("machine a.test login lo");
    assert_eq!(r.entry_for_host(&host("a.test")), r.entry_for_host(&host("a.test")));
}

#[test]
fn default_sections_merge_field_by_field() {
    let text = "default login a password b\ndefault password c";
    let e = RawNetrcParser::new(text).entry_for_host(&host("x.test")).unwrap();
    assert_eq!(e.login().map(|s| s.as_str()), Some("a"));
    assert_eq!(e.password().map(|s| s.as_str()), Some("c"));
}

#[test]
fn empty_default_is_no_default() {
    let mut p = RawNetrcParser::new("default\nmachine a.test login lo");
    assert!(p.entry_for_host(&host("b.test")).is_none());
}

#[test]
fn value_at_end_of_input_clears_field() {
    let e = RawNetrcParser::new("machine a.test login lo password pw login")
        .entry_for_host(&host("a.test"))
        .unwrap();
    assert_eq!(e.login(), None);
    assert_eq!(e.password().map(|s| s.as_str()), Some("pw"));
}

#[test]
fn bad_host_header_drops_block() {
    let text = "machine [zz login lo password pw\nmachine b.test login l password q";
    let mut p = RawNetrcParser::new(text);
    assert!(p.entry_for_host(&host("zz")).is_none());
    assert!(p.entry_for_host(&host("b.test")).is_some());
}

#[test]
fn host_parse_normalizes() {
    assert_eq!(host("É.com").as_str(), "xn--9ca.com");
    assert_eq!(host("16843009").as_str(), "1.1.1.1");
    assert_eq!(host("EXAMPLE.com").as_str(), "example.com");
    assert!(host("[::1]").same(&host("[0:0::1]")));
    assert!(Host::parse("[zz").is_none());
}

#[test]
fn keyword_lookalike_values_are_kept() {
    let text = "machine a.test login loginx password machinery";
    let e = RawNetrcParser::new(text).entry_for_host(&host("a.test")).unwrap();
    assert_eq!(e.login().map(|s| s.as_str()), Some("loginx"));
    assert_eq!(e.password().map(|s| s.as_str()), Some("machinery"));
}

#[test]
fn terminated_macro_is_inert() {
    let text = "macdef n\nmachine a.test login x password y\n\nmachine b.test login l password q";
    let mut p = RawNetrcParser::new(text);
    assert!(p.entry_for_host(&host("a.test")).is_none());
    assert!(p.entry_for_host(&host("b.test")).is_some());
}

#[test]
fn appended_block_inserts_its_host() {
    let base = "machine a.test login x password y\ndefault password d\n";
    let text = format!("{base}machine b.test login loginx password p");
    let mut p = RawNetrcParser::new(&text);
    let e = p.entry_for_host(&host("b.test")).unwrap();
    assert_eq!(e.login().map(|s| s.as_str()), Some("loginx"));
    assert_eq!(e.password().map(|s| s.as_str()), Some("p"));
    let a = p.entry_for_host(&host("a.test")).unwrap();
    assert_eq!(a.login().map(|s| s.as_str()), Some("x"));
}
