use vstd::prelude::*;

use crate::config::{config_of, parse_config, resolve, ConfigView, NetrcConfig};
use crate::host::Host;

verus! {

/// The fields of a netrc record, each one there or not.
pub struct RawRecord {
    pub login: Option<Seq<char>>,
    pub password: Option<Seq<char>>,
    pub account: Option<Seq<char>>,
}

/// The record with no field.
pub open spec fn empty_record() -> RawRecord {
    RawRecord { login: None, password: None, account: None }
}

pub open spec fn opt_view(o: Option<String>) -> Option<Seq<char>> {
    match o {
        Some(s) => Some(s@),
        None => None,
    }
}

/// A raw netrc entry which may contain values.
#[derive(Debug, PartialEq, Eq)]
pub struct RawEntry {
    pub(crate) login: Option<String>,
    pub(crate) password: Option<String>,
    pub(crate) account: Option<String>,
}

impl View for RawEntry {
    type V = RawRecord;

    closed spec fn view(&self) -> RawRecord {
        RawRecord {
            login: opt_view(self.login),
            password: opt_view(self.password),
            account: opt_view(self.account),
        }
    }
}

fn copy_field(o: &Option<String>) -> (r: Option<String>)
    ensures
        opt_view(r) == opt_view(*o),
{
    match o {
        Some(s) => Some(s.clone()),
        None => None,
    }
}

impl Clone for RawEntry {
    fn clone(&self) -> (r: RawEntry)
        ensures
            r@ == self@,
    {
        RawEntry {
            login: copy_field(&self.login),
            password: copy_field(&self.password),
            account: copy_field(&self.account),
        }
    }
}

impl RawEntry {
    /// The entry with no field.
    pub fn empty() -> (r: RawEntry)
        ensures
            r@ == empty_record(),
    {
        RawEntry { login: None, password: None, account: None }
    }

    /// Whether no field is there.
    pub fn is_empty(&self) -> (r: bool)
        ensures
            r == (self@ == empty_record()),
    {
        self.login.is_none() && self.password.is_none() && self.account.is_none()
    }

    pub(crate) fn set_login(&mut self, v: Option<String>)
        ensures
            final(self)@ == (RawRecord { login: opt_view(v), ..old(self)@ }),
    {
        self.login = v;
    }

    pub(crate) fn set_password(&mut self, v: Option<String>)
        ensures
            final(self)@ == (RawRecord { password: opt_view(v), ..old(self)@ }),
    {
        self.password = v;
    }

    pub(crate) fn set_account(&mut self, v: Option<String>)
        ensures
            final(self)@ == (RawRecord { account: opt_view(v), ..old(self)@ }),
    {
        self.account = v;
    }

    /// Get the login value for the entry.
    pub fn login(&self) -> (r: Option<&String>)
        ensures
            r matches Some(s) ==> self@.login == Some(s@),
            r is None ==> self@.login is None,
    {
        self.login.as_ref()
    }

    /// Get the password value for the entry.
    pub fn password(&self) -> (r: Option<&String>)
        ensures
            r matches Some(s) ==> self@.password == Some(s@),
            r is None ==> self@.password is None,
    {
        self.password.as_ref()
    }

    /// Get the account value for the entry.
    pub fn account(&self) -> (r: Option<&String>)
        ensures
            r matches Some(s) ==> self@.account == Some(s@),
            r is None ==> self@.account is None,
    {
        self.account.as_ref()
    }
}

/// A lower-level netrc parser without any business rules: it hands out the
/// record that applies to a host as it stands in the file. The text is parsed
/// on the first lookup, once.
pub struct RawNetrcParser {
    source: String,
    config: Option<NetrcConfig>,
}

impl RawNetrcParser {
    /// The netrc text that the parser reads.
    pub closed spec fn source(&self) -> Seq<char> {
        self.source@
    }

    /// Whether the text has been parsed.
    pub closed spec fn is_parsed(&self) -> bool {
        self.config is Some
    }

    /// The configuration kept from the parse, if any.
    pub closed spec fn parsed(&self) -> Option<ConfigView> {
        match self.config {
            Some(c) => Some(c@),
            None => None,
        }
    }

    /// What is kept is the configuration of the text.
    pub closed spec fn wf(&self) -> bool {
        self.config matches Some(c) ==> c@ == config_of(self.source@)
    }

    /// Create a new parser over a netrc text.
    pub fn new(source: &str) -> (r: Self)
        ensures
            r.wf(),
            r.source() == source@,
            !r.is_parsed(),
    {
        RawNetrcParser { source: source.to_owned(), config: None }
    }

    /// Parse the text if it has not been parsed yet, and find the entry that applies
    /// to the given host: its own, else the default one. Entries are not validated
    /// to contain any values and could be empty.
    ///
    /// `None` if the host was not found and no default was set up.
    pub fn entry_for_host(&mut self, host: &Host) -> (r: Option<RawEntry>)
        requires
            old(self).wf(),
        ensures
            final(self).wf(),
            final(self).source() == old(self).source(),
            final(self).is_parsed(),
            old(self).is_parsed() ==> final(self).parsed() == old(self).parsed(),
            r matches Some(e) ==> resolve(config_of(old(self).source()), host@) == Some(e@),
            r is None ==> resolve(config_of(old(self).source()), host@) is None,
    {
        let config = match self.config.take() {
            Some(c) => c,
            None => parse_config(self.source.as_str()),
        };
        let r = match config.lookup(host) {
            Some(e) => Some(e.clone()),
            None => None,
        };
        self.config = Some(config);
        r
    }
}

} // verus!
