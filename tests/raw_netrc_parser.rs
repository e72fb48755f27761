use netrc_util::{Host, RawNetrcParser};

const COM: &str = "example.com";
const ORG: &str = "example.org";
const UNI: &str = "xn--9ca.com";
const IP1: &str = "1.1.1.1";

fn found(
    netrc: &str,
    host: &str,
    login: impl Into<Option<&'static str>>,
    password: impl Into<Option<&'static str>>,
    account: impl Into<Option<&'static str>>,
) {
    let entry = RawNetrcParser::new(netrc).entry_for_host(&Host::parse(host).unwrap());
    let entry = entry.expect("Didn't find entry");

    assert_eq!(entry.login().map(|s| s.as_str()), login.into());
    assert_eq!(entry.password().map(|s| s.as_str()), password.into());
    assert_eq!(entry.account().map(|s| s.as_str()), account.into());
}

fn notfound(netrc: &str, host: &str) {
    let entry = RawNetrcParser::new(netrc).entry_for_host(&Host::parse(host).unwrap());

    assert!(entry.is_none(), "Found entry");
}

#[test]
fn raw_netrc_parser_parse_simple_config() {
    const SIMPLE: &str = "
            machine example.com
            login user
            password pass
            account acc
        ";
    found(SIMPLE, COM, "user", "pass", "acc");
    notfound(SIMPLE, ORG);
    notfound(SIMPLE, UNI);
    notfound(SIMPLE, IP1);
}

#[test]
fn parse_empty_config() {
    const SIMPLE: &str = "
            machine example.com
        ";
    found(SIMPLE, COM, None, None, None);
    notfound(SIMPLE, ORG);
    notfound(SIMPLE, UNI);
    notfound(SIMPLE, IP1);
}
