use vstd::prelude::*;

use crate::config::{config_of, resolve, ConfigView};
use crate::host::Host;
use crate::raw_netrc_parser::{RawNetrcParser, RawRecord};

verus! {

/// An entry that has a password, and may have a login.
pub struct Credentials {
    pub login: Option<Seq<char>>,
    pub password: Seq<char>,
}

/// The credentials that a record gives: only a record with a password gives
/// any, and its login is the `login` field, else the `account` field.
pub open spec fn validate(r: RawRecord) -> Option<Credentials> {
    match r.password {
        Some(p) => Some(
            Credentials {
                login: if r.login is Some {
                    r.login
                } else {
                    r.account
                },
                password: p,
            },
        ),
        None => None,
    }
}

/// The credentials for host `h`: those of the record that applies to it, if
/// that record has a password. A record without one never falls through to
/// another.
pub open spec fn credentials_for(c: ConfigView, h: Seq<char>) -> Option<Credentials> {
    match resolve(c, h) {
        Some(r) => validate(r),
        None => None,
    }
}

/// A netrc entry validated to have at least a password.
#[derive(Debug, PartialEq, Eq)]
pub struct ValidatedEntry {
    pub(crate) login: Option<String>,
    pub(crate) password: String,
}

impl View for ValidatedEntry {
    type V = Credentials;

    closed spec fn view(&self) -> Credentials {
        Credentials {
            login: match self.login {
                Some(l) => Some(l@),
                None => None,
            },
            password: self.password@,
        }
    }
}

impl ValidatedEntry {
    /// An entry with the given login and password.
    pub fn new(login: Option<String>, password: String) -> (r: Self)
        ensures
            r@.login == (match login {
                Some(l) => Some(l@),
                None => None::<Seq<char>>,
            }),
            r@.password == password@,
    {
        ValidatedEntry { login, password }
    }

    /// Get the login value for the entry
    pub fn login(&self) -> (r: Option<&String>)
        ensures
            r matches Some(s) ==> self@.login == Some(s@),
            r is None ==> self@.login is None,
    {
        self.login.as_ref()
    }

    /// Get the password value for the entry
    pub fn password(&self) -> (r: &str)
        ensures
            r@ == self@.password,
    {
        self.password.as_str()
    }
}

/// Netrc parser following the rules of common command-line clients:
///
/// - an entry must have a password and may have a login;
/// - an incomplete entry does not fall back to the default entry;
/// - fields are never mixed with those of the default entry;
/// - where the login is missing, the account value is used instead.
pub struct NetrcParser {
    raw: RawNetrcParser,
}

impl NetrcParser {
    /// The netrc text that the parser reads.
    pub closed spec fn source(&self) -> Seq<char> {
        self.raw.source()
    }

    /// Whether the text has been parsed.
    pub closed spec fn is_parsed(&self) -> bool {
        self.raw.is_parsed()
    }

    pub closed spec fn wf(&self) -> bool {
        self.raw.wf()
    }

    /// Create a new parser over a netrc text.
    pub fn new(source: &str) -> (r: Self)
        ensures
            r.wf(),
            r.source() == source@,
            !r.is_parsed(),
    {
        NetrcParser { raw: RawNetrcParser::new(source) }
    }

    /// Parse the text if it has not been parsed yet, and find the validated entry
    /// for the given host.
    ///
    /// `None` if the record that applies to the host (its own, else the default
    /// one) is missing or has no password.
    pub fn entry_for_host(&mut self, host: &Host) -> (r: Option<ValidatedEntry>)
        requires
            old(self).wf(),
        ensures
            final(self).wf(),
            final(self).source() == old(self).source(),
            final(self).is_parsed(),
            r matches Some(e) ==> credentials_for(config_of(old(self).source()), host@) == Some(
                e@,
            ),
            r is None ==> credentials_for(config_of(old(self).source()), host@) is None,
    {
        match self.raw.entry_for_host(host) {
            Some(entry) => {
                let login = match entry.login() {
                    Some(l) => Some(l.clone()),
                    None => match entry.account() {
                        Some(a) => Some(a.clone()),
                        None => None,
                    },
                };
                match entry.password() {
                    Some(p) => Some(ValidatedEntry::new(login, p.clone())),
                    None => None,
                }
            },
            None => None,
        }
    }
}

} // verus!
