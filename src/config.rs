use vstd::prelude::*;

use crate::host::{canonical_host, Host};
use crate::raw_netrc_parser::{empty_record, opt_view, RawEntry, RawRecord};
use crate::token::{render, tokenize, tokens_of, view_tokens, Token, TokenView};

verus! {

/// A parsed netrc file: one record per host, and the default record if any
/// `default` section set a field.
pub struct ConfigView {
    pub entries: Map<Seq<char>, RawRecord>,
    pub default: Option<RawRecord>,
}

/// What the scan over the tokens holds between two steps.
pub struct ScanState {
    /// The host of the open `machine` block, if it is still to be committed.
    pub host: Option<Seq<char>>,
    /// The fields of the open `machine` block.
    pub record: RawRecord,
    /// The fields that `default` sections set, over the whole file.
    pub default: RawRecord,
    /// Whether fields go to the default record.
    pub in_default: bool,
    /// The committed `machine` blocks.
    pub entries: Map<Seq<char>, RawRecord>,
}

pub open spec fn initial_state() -> ScanState {
    ScanState {
        host: None,
        record: empty_record(),
        default: empty_record(),
        in_default: false,
        entries: Map::empty(),
    }
}

/// The committed blocks once the open block, if it has a host, is committed too.
pub open spec fn commit(st: ScanState) -> Map<Seq<char>, RawRecord> {
    match st.host {
        Some(h) => st.entries.insert(h, st.record),
        None => st.entries,
    }
}

/// The text of the token at `i`, if there is one.
pub open spec fn argument(ts: Seq<TokenView>, i: int) -> Option<Seq<char>> {
    if 0 <= i < ts.len() {
        Some(render(ts[i]))
    } else {
        None
    }
}

/// `r` with the field that the keyword `t` names set to `v`.
pub open spec fn set_field(r: RawRecord, t: TokenView, v: Option<Seq<char>>) -> RawRecord {
    match t {
        TokenView::Login => RawRecord { login: v, ..r },
        TokenView::Password => RawRecord { password: v, ..r },
        TokenView::Account => RawRecord { account: v, ..r },
        _ => r,
    }
}

pub open spec fn is_field(t: TokenView) -> bool {
    t is Login || t is Password || t is Account
}

/// Whether the token reads the token after it as its value.
pub open spec fn takes_argument(t: TokenView) -> bool {
    t is Machine || is_field(t)
}

/// The state after the token at `i`.
pub open spec fn step(ts: Seq<TokenView>, i: int, st: ScanState) -> ScanState {
    let t = ts[i];
    if t is Machine {
        let entries = commit(st);
        if i + 1 < ts.len() {
            ScanState {
                host: canonical_host(render(ts[i + 1])),
                record: empty_record(),
                in_default: false,
                entries,
                ..st
            }
        } else {
            ScanState { in_default: false, entries, ..st }
        }
    } else if t is Default {
        ScanState { in_default: true, ..st }
    } else if is_field(t) {
        let v = argument(ts, i + 1);
        if st.in_default {
            ScanState { default: set_field(st.default, t, v), ..st }
        } else {
            ScanState { record: set_field(st.record, t, v), ..st }
        }
    } else if t is Text {
        ScanState { host: None, ..st }
    } else {
        st
    }
}

/// Where the scan goes on after the token at `i`.
pub open spec fn next_index(ts: Seq<TokenView>, i: nat) -> nat {
    if takes_argument(ts[i as int]) && i + 1 < ts.len() {
        i + 2
    } else {
        i + 1
    }
}

/// The state once every token from `i` on has been read.
pub open spec fn scan(ts: Seq<TokenView>, i: nat, st: ScanState) -> ScanState
    decreases ts.len() - i,
{
    if i < ts.len() {
        scan(ts, next_index(ts, i), step(ts, i as int, st))
    } else {
        st
    }
}

/// The configuration that a token sequence describes.
pub open spec fn config_of_tokens(ts: Seq<TokenView>) -> ConfigView {
    let st = scan(ts, 0, initial_state());
    ConfigView {
        entries: commit(st),
        default: if st.default == empty_record() {
            None
        } else {
            Some(st.default)
        },
    }
}

/// The configuration that a netrc text describes.
pub open spec fn config_of(s: Seq<char>) -> ConfigView {
    config_of_tokens(tokens_of(s))
}

/// The record that applies to host `h`: its own, else the default one.
pub open spec fn resolve(c: ConfigView, h: Seq<char>) -> Option<RawRecord> {
    if c.entries.contains_key(h) {
        Some(c.entries[h])
    } else {
        c.default
    }
}

/// The map that a list of (host, record) pairs builds, a later pair overriding
/// an earlier one for the same host.
pub open spec fn entries_map(s: Seq<(Host, RawEntry)>) -> Map<Seq<char>, RawRecord>
    decreases s.len(),
{
    if s.len() == 0 {
        Map::empty()
    } else {
        entries_map(s.drop_last()).insert(s.last().0@, s.last().1@)
    }
}

proof fn lemma_entries_map_prefix(s: Seq<(Host, RawEntry)>, n: int, h: Seq<char>)
    requires
        0 <= n <= s.len(),
        forall|j: int| n <= j < s.len() ==> s[j].0@ != h,
    ensures
        entries_map(s).contains_key(h) == entries_map(s.take(n)).contains_key(h),
        entries_map(s)[h] == entries_map(s.take(n))[h],
    decreases s.len(),
{
    if s.len() == n {
        assert(s.take(n) =~= s);
    } else {
        lemma_entries_map_prefix(s.drop_last(), n, h);
        assert(s.drop_last().take(n) =~= s.take(n));
    }
}

/// The records of a netrc file, built once.
pub struct NetrcConfig {
    entries: Vec<(Host, RawEntry)>,
    default: Option<RawEntry>,
}

impl View for NetrcConfig {
    type V = ConfigView;

    closed spec fn view(&self) -> ConfigView {
        ConfigView {
            entries: entries_map(self.entries@),
            default: match self.default {
                Some(e) => Some(e@),
                None => None,
            },
        }
    }
}

impl NetrcConfig {
    /// The record that applies to `host`: its own, else the default one.
    pub fn lookup(&self, host: &Host) -> (r: Option<&RawEntry>)
        ensures
            r matches Some(e) ==> resolve(self@, host@) == Some(e@),
            r is None ==> resolve(self@, host@) is None,
    {
        let mut i = self.entries.len();
        while i > 0
            invariant
                i <= self.entries.len(),
                forall|j: int| i <= j < self.entries.len() ==> self.entries@[j].0@ != host@,
            decreases i,
        {
            proof { lemma_entries_map_prefix(self.entries@, i as int, host@); }
            if self.entries[i - 1].0.same(host) {
                proof {
                    assert(self.entries@.take(i as int).drop_last() =~= self.entries@.take(
                        i - 1,
                    ));
                }
                return Some(&self.entries[i - 1].1);
            }
            i = i - 1;
        }
        proof {
            lemma_entries_map_prefix(self.entries@, 0, host@);
            assert(self.entries@.take(0).len() == 0);
        }
        self.default.as_ref()
    }
}

/// The scan state that the builder's variables stand for.
pub open spec fn state_of(
    host: Option<Host>,
    record: RawEntry,
    default: RawEntry,
    in_default: bool,
    entries: Seq<(Host, RawEntry)>,
) -> ScanState {
    ScanState {
        host: match host {
            Some(h) => Some(h@),
            None => None,
        },
        record: record@,
        default: default@,
        in_default,
        entries: entries_map(entries),
    }
}

fn set_field_exec(r: &mut RawEntry, t: &Token, v: Option<String>)
    requires
        is_field(t@),
    ensures
        final(r)@ == set_field(old(r)@, t@, opt_view(v)),
{
    match t {
        Token::Login => r.set_login(v),
        Token::Password => r.set_password(v),
        _ => r.set_account(v),
    }
}

fn push_entry(entries: &mut Vec<(Host, RawEntry)>, h: Host, e: RawEntry)
    ensures
        entries_map(final(entries)@) == entries_map(old(entries)@).insert(h@, e@),
{
    let ghost before = entries@;
    entries.push((h, e));
    assert(entries@.drop_last() =~= before);
}

/// Builds the configuration that a netrc text describes.
pub fn parse_config(text: &str) -> (c: NetrcConfig)
    ensures
        c@ == config_of(text@),
{
    let tokens = tokenize(text);
    let ghost ts = view_tokens(tokens@);
    let mut entries: Vec<(Host, RawEntry)> = Vec::new();
    let mut default = RawEntry::empty();
    let mut host: Option<Host> = None;
    let mut record = RawEntry::empty();
    let mut in_default = false;
    let mut i: usize = 0;
    assert(state_of(host, record, default, in_default, entries@) == initial_state());
    while i < tokens.len()
        invariant
            ts == view_tokens(tokens@),
            ts == tokens_of(text@),
            i <= tokens.len(),
            scan(ts, i as nat, state_of(host, record, default, in_default, entries@)) == scan(
                ts,
                0,
                initial_state(),
            ),
        decreases tokens.len() - i,
    {
        let ghost st = state_of(host, record, default, in_default, entries@);
        let ghost next = step(ts, i as int, st);
        let ghost j = next_index(ts, i as nat);
        assert(ts[i as int] == tokens@[i as int]@);
        let t = &tokens[i];
        match t {
            Token::Machine => {
                if let Some(h) = &host {
                    push_entry(&mut entries, h.clone(), record.clone());
                }
                in_default = false;
                if i + 1 < tokens.len() {
                    assert(ts[i + 1] == tokens@[i + 1]@);
                    let name = tokens[i + 1].to_text();
                    host = Host::parse(name.as_str());
                    record = RawEntry::empty();
                    i = i + 2;
                } else {
                    i = i + 1;
                }
            },
            Token::Default => {
                in_default = true;
                i = i + 1;
            },
            Token::Login | Token::Password | Token::Account => {
                let v = if i + 1 < tokens.len() {
                    assert(ts[i + 1] == tokens@[i + 1]@);
                    Some(tokens[i + 1].to_text())
                } else {
                    None
                };
                if in_default {
                    set_field_exec(&mut default, t, v);
                } else {
                    set_field_exec(&mut record, t, v);
                }
                if i + 1 < tokens.len() {
                    i = i + 2;
                } else {
                    i = i + 1;
                }
            },
            Token::Text(_) => {
                host = None;
                i = i + 1;
            },
            _ => {
                i = i + 1;
            },
        }
        assert(state_of(host, record, default, in_default, entries@) == next);
        assert(i == j);
    }
    let ghost st = state_of(host, record, default, in_default, entries@);
    if let Some(h) = host {
        push_entry(&mut entries, h, record);
    }
    assert(entries_map(entries@) == commit(st));
    let default = if default.is_empty() {
        None
    } else {
        Some(default)
    };
    NetrcConfig { entries, default }
}

} // verus!
