use vstd::prelude::*;

use crate::config::{
    commit, config_of, config_of_tokens, initial_state, next_index, resolve, scan, step, ConfigView,
    ScanState,
};
use crate::host::canonical_host;
use crate::netrc_parser::{credentials_for, validate, Credentials};
use crate::raw_netrc_parser::{empty_record, RawRecord};
use crate::token::{
    blank_line, comment_mark, find_from, has_at, is_space, is_word, lemma_find_from, lemma_skip_space,
    lemma_token_at, lemma_word_end, kw_account, kw_default, kw_login,
    kw_macdef, kw_machine, kw_password, line_break, render, skip_space, token_at, tokens_from,
    tokens_of, word_end, TokenView,
};

verus! {

/// The tokens of `machine h login l password p`.
pub open spec fn block(h: Seq<char>, l: Seq<char>, p: Seq<char>) -> Seq<TokenView> {
    seq![
        TokenView::Machine,
        TokenView::Text(h),
        TokenView::Login,
        TokenView::Text(l),
        TokenView::Password,
        TokenView::Text(p),
    ]
}

/// A block `machine h login l password p` whose host is a host gives, for that
/// host, exactly that login and password, and no account.
pub proof fn law_single_block(h: Seq<char>, l: Seq<char>, p: Seq<char>)
    requires
        canonical_host(h) is Some,
    ensures
        resolve(config_of_tokens(block(h, l, p)), canonical_host(h)->0) == Some(
            RawRecord { login: Some(l), password: Some(p), account: None },
        ),
{
    reveal_with_fuel(scan, 5);
    let ts = block(h, l, p);
    assert(ts.len() == 6);
}

/// A later block for a host replaces an earlier one: nothing of the earlier
/// block is kept.
pub proof fn law_last_block_wins(
    h: Seq<char>,
    old_login: Seq<char>,
    old_pass: Seq<char>,
    new_login: Seq<char>,
    new_pass: Seq<char>,
)
    requires
        canonical_host(h) is Some,
    ensures
        resolve(config_of_tokens(block(h, old_login, old_pass) + block(h, new_login, new_pass)), canonical_host(h)->0)
            == Some(RawRecord { login: Some(new_login), password: Some(new_pass), account: None }),
{
    reveal_with_fuel(scan, 8);
    let ts = block(h, old_login, old_pass) + block(h, new_login, new_pass);
    assert(ts.len() == 12);
    assert(ts =~= seq![
        TokenView::Machine,
        TokenView::Text(h),
        TokenView::Login,
        TokenView::Text(old_login),
        TokenView::Password,
        TokenView::Text(old_pass),
        TokenView::Machine,
        TokenView::Text(h),
        TokenView::Login,
        TokenView::Text(new_login),
        TokenView::Password,
        TokenView::Text(new_pass),
    ]);
}

/// An unknown word inside a block drops that block, and only that block: a
/// later well-formed block still counts.
pub proof fn law_unknown_word_drops_block(
    a: Seq<char>,
    u: Seq<char>,
    w: Seq<char>,
    p: Seq<char>,
    b: Seq<char>,
    l: Seq<char>,
    q: Seq<char>,
)
    requires
        canonical_host(a) is Some,
        canonical_host(b) is Some,
        canonical_host(a) != canonical_host(b),
    ensures
        ({
            let c = config_of_tokens(
                seq![
                    TokenView::Machine,
                    TokenView::Text(a),
                    TokenView::Login,
                    TokenView::Text(u),
                    TokenView::Text(w),
                    TokenView::Password,
                    TokenView::Text(p),
                ] + block(b, l, q),
            );
            &&& resolve(c, canonical_host(a)->0) is None
            &&& resolve(c, canonical_host(b)->0) == Some(
                RawRecord { login: Some(l), password: Some(q), account: None },
            )
        }),
{
    reveal_with_fuel(scan, 9);
    let ts = seq![
        TokenView::Machine,
        TokenView::Text(a),
        TokenView::Login,
        TokenView::Text(u),
        TokenView::Text(w),
        TokenView::Password,
        TokenView::Text(p),
    ] + block(b, l, q);
    assert(ts =~= seq![
        TokenView::Machine,
        TokenView::Text(a),
        TokenView::Login,
        TokenView::Text(u),
        TokenView::Text(w),
        TokenView::Password,
        TokenView::Text(p),
        TokenView::Machine,
        TokenView::Text(b),
        TokenView::Login,
        TokenView::Text(l),
        TokenView::Password,
        TokenView::Text(q),
    ]);
}

/// A macro, whatever its body holds, sets nothing: the block after it is read
/// as if the macro were not there.
pub proof fn law_macro_is_inert(
    m: Seq<char>,
    body: Seq<char>,
    h: Seq<char>,
    l: Seq<char>,
    p: Seq<char>,
)
    requires
        canonical_host(h) is Some,
    ensures
        resolve(
            config_of_tokens(seq![TokenView::MacDef(m, body)] + block(h, l, p)),
            canonical_host(h)->0,
        ) == Some(RawRecord { login: Some(l), password: Some(p), account: None }),
{
    reveal_with_fuel(scan, 6);
    let ts = seq![TokenView::MacDef(m, body)] + block(h, l, p);
    assert(ts =~= seq![
        TokenView::MacDef(m, body),
        TokenView::Machine,
        TokenView::Text(h),
        TokenView::Login,
        TokenView::Text(l),
        TokenView::Password,
        TokenView::Text(p),
    ]);
}

/// The login of validated credentials is the record's login where it has one,
/// else its account.
pub proof fn law_account_fallback(r: RawRecord)
    requires
        r.password is Some,
    ensures
        validate(r) is Some,
        r.login is Some ==> validate(r)->0.login == r.login,
        r.login is None ==> validate(r)->0.login == r.account,
        validate(r)->0.password == r.password->0,
{
}

/// `machine h account acc password pass` gives `acc` as the login; with a login
/// as well, the login wins whatever the order of the fields.
pub proof fn law_account_fallback_in_block(
    h: Seq<char>,
    acc: Seq<char>,
    log: Seq<char>,
    pass: Seq<char>,
)
    requires
        canonical_host(h) is Some,
    ensures
        credentials_for(
            config_of_tokens(
                seq![
                    TokenView::Machine,
                    TokenView::Text(h),
                    TokenView::Account,
                    TokenView::Text(acc),
                    TokenView::Password,
                    TokenView::Text(pass),
                ],
            ),
            canonical_host(h)->0,
        ) == Some(Credentials { login: Some(acc), password: pass }),
        credentials_for(
            config_of_tokens(
                seq![
                    TokenView::Machine,
                    TokenView::Text(h),
                    TokenView::Login,
                    TokenView::Text(log),
                    TokenView::Password,
                    TokenView::Text(pass),
                    TokenView::Account,
                    TokenView::Text(acc),
                ],
            ),
            canonical_host(h)->0,
        ) == Some(Credentials { login: Some(log), password: pass }),
{
    reveal_with_fuel(scan, 6);
}

/// A host's own record decides its credentials alone: where it has no
/// password the lookup gives nothing, whatever the default record holds, and
/// otherwise it gives that record's fields and none of the default's.
pub proof fn law_own_record_decides(c: ConfigView, h: Seq<char>)
    requires
        c.entries.contains_key(h),
    ensures
        c.entries[h].password is None ==> credentials_for(c, h) is None,
        c.entries[h].password is Some ==> credentials_for(c, h) == validate(c.entries[h]),
{
}

/// Whether some `machine` keyword is followed by a word that names host `h`.
pub open spec fn mentions(ts: Seq<TokenView>, h: Seq<char>) -> bool {
    exists|i: int|
        0 <= i && i + 1 < ts.len() && (#[trigger] ts[i]) is Machine && canonical_host(render(ts[(i + 1) as int]))
            == Some(h)
}

/// Whether some `default` keyword occurs.
pub open spec fn has_default(ts: Seq<TokenView>) -> bool {
    exists|i: int| 0 <= i < ts.len() && (#[trigger] ts[i]) is Default
}

proof fn lemma_scan_unmentioned(ts: Seq<TokenView>, i: nat, st: ScanState, h: Seq<char>)
    requires
        !mentions(ts, h),
        !has_default(ts),
        st.default == empty_record(),
        !st.in_default,
        !st.entries.contains_key(h),
        st.host != Some(h),
    ensures
        scan(ts, i, st).default == empty_record(),
        !commit(scan(ts, i, st)).contains_key(h),
    decreases ts.len() - i,
{
    if i < ts.len() {
        let t = ts[i as int];
        if t is Machine && i + 1 < ts.len() {
            assert(!(canonical_host(render(ts[i + 1 as int])) == Some(h)));
        }
        if t is Default {
            assert(has_default(ts));
        }
        lemma_scan_unmentioned(ts, next_index(ts, i), step(ts, i as int, st), h);
    }
}

/// A host that no `machine` line names gets nothing from a file without a
/// `default` section, from either lookup.
pub proof fn law_unmentioned_host(s: Seq<char>, h: Seq<char>)
    requires
        !mentions(tokens_of(s), h),
        !has_default(tokens_of(s)),
    ensures
        resolve(config_of(s), h) is None,
        credentials_for(config_of(s), h) is None,
{
    lemma_scan_unmentioned(tokens_of(s), 0, initial_state(), h);
}

/// A word that the scanner reads as one bare word: no space in it, and no
/// keyword.
pub open spec fn plain_word(w: Seq<char>) -> bool {
    &&& w.len() > 0
    &&& forall|j: int| 0 <= j < w.len() ==> !is_space(#[trigger] w[j])
    &&& w != kw_machine()
    &&& w != kw_login()
    &&& w != kw_password()
    &&& w != kw_account()
    &&& w != kw_default()
    &&& w != kw_macdef()
}

/// The text `machine h login l password p`.
#[verifier::opaque]
pub open spec fn block_text(h: Seq<char>, l: Seq<char>, p: Seq<char>) -> Seq<char> {
    kw_machine() + seq![' '] + h + seq![' '] + kw_login() + seq![' '] + l + seq![' ']
        + kw_password() + seq![' '] + p
}

proof fn lemma_no_line_break(s: Seq<char>, i: nat, pat: Seq<char>)
    requires
        pat.len() > 0,
        pat[0] == '\n',
        forall|j: int| 0 <= j < s.len() ==> #[trigger] s[j] != '\n',
    ensures
        find_from(s, i, pat) is None,
    decreases s.len() - i,
{
    if i < s.len() {
        if has_at(s, i, pat) {
            assert(s.subrange(i as int, (i + pat.len()) as int)[0] == s[i as int]);
        }
        lemma_no_line_break(s, i + 1, pat);
    }
}

proof fn lemma_word_end_at(s: Seq<char>, k: nat, n: nat)
    requires
        k <= n <= s.len(),
        forall|j: int| k <= j < n ==> !is_space(#[trigger] s[j]),
        n == s.len() || is_space(s[n as int]),
    ensures
        word_end(s, k) == n,
    decreases n - k,
{
    if k < n {
        lemma_word_end_at(s, k + 1, n);
    }
}

proof fn lemma_not_at(s: Seq<char>, k: nat, w: Seq<char>, kw: Seq<char>)
    requires
        w != kw,
        k + w.len() <= s.len(),
        s.subrange(k as int, (k + w.len()) as int) == w,
        word_end(s, k) == k + w.len(),
    ensures
        !is_word(s, k, kw),
{
}

/// A keyword with a space or the end of `s` after it is a whole word.
proof fn lemma_keyword_word(s: Seq<char>, k: nat, kw: Seq<char>)
    requires
        has_at(s, k, kw),
        forall|j: int| 0 <= j < kw.len() ==> !is_space(#[trigger] kw[j]),
        k + kw.len() == s.len() || is_space(s[(k + kw.len()) as int]),
    ensures
        word_end(s, k) == k + kw.len(),
{
    assert forall|j: int| k <= j < k + kw.len() implies !is_space(#[trigger] s[j]) by {
        assert(s.subrange(k as int, (k + kw.len()) as int)[j - k] == s[j]);
    }
    lemma_word_end_at(s, k, k + kw.len());
}

proof fn lemma_keywords_have_no_space()
    ensures
        forall|j: int| 0 <= j < kw_machine().len() ==> !is_space(#[trigger] kw_machine()[j]),
        forall|j: int| 0 <= j < kw_login().len() ==> !is_space(#[trigger] kw_login()[j]),
        forall|j: int| 0 <= j < kw_password().len() ==> !is_space(#[trigger] kw_password()[j]),
        forall|j: int| 0 <= j < kw_account().len() ==> !is_space(#[trigger] kw_account()[j]),
        forall|j: int| 0 <= j < kw_default().len() ==> !is_space(#[trigger] kw_default()[j]),
        forall|j: int| 0 <= j < kw_macdef().len() ==> !is_space(#[trigger] kw_macdef()[j]),
{
}

/// A plain word, with a space or the end of the text after it, is one bare word.
proof fn lemma_word_token(s: Seq<char>, k: nat, w: Seq<char>)
    requires
        plain_word(w),
        k + w.len() <= s.len(),
        s.subrange(k as int, (k + w.len()) as int) == w,
        k + w.len() == s.len() || is_space(s[(k + w.len()) as int]),
        forall|j: int| 0 <= j < s.len() ==> #[trigger] s[j] != '\n',
    ensures
        token_at(s, k) == (TokenView::Text(w), k + w.len()),
{
    assert forall|j: int| k <= j < k + w.len() implies !is_space(#[trigger] s[j]) by {
        assert(s.subrange(k as int, (k + w.len()) as int)[j - k] == s[j]);
    }
    lemma_word_end_at(s, k, k + w.len());
    lemma_not_at(s, k, w, kw_machine());
    lemma_not_at(s, k, w, kw_login());
    lemma_not_at(s, k, w, kw_password());
    lemma_not_at(s, k, w, kw_account());
    lemma_not_at(s, k, w, kw_default());
    lemma_not_at(s, k, w, kw_macdef());
    lemma_no_line_break(s, k + 2, line_break());
    assert(s.subrange(k as int, (k + w.len()) as int) == w);
}

proof fn lemma_skip_one(s: Seq<char>, i: nat)
    requires
        i + 1 < s.len(),
        is_space(s[i as int]),
        !is_space(s[(i + 1) as int]),
    ensures
        skip_space(s, i) == i + 1,
{
    assert(skip_space(s, i + 1) == i + 1);
}

proof fn lemma_tokens_step(s: Seq<char>, i: nat, t: TokenView, e: nat)
    requires
        i <= skip_space(s, i) < e <= s.len(),
        token_at(s, skip_space(s, i)) == (t, e),
        !(t is Comment),
    ensures
        tokens_from(s, i) == seq![t] + tokens_from(s, e),
{
}

proof fn lemma_login_at(s: Seq<char>, k: nat)
    requires
        has_at(s, k, kw_login()),
        k + 5 < s.len(),
        is_space(s[k + 5 as int]),
    ensures
        token_at(s, k) == (TokenView::Login, k + 5),
{
    lemma_keywords_have_no_space();
    lemma_keyword_word(s, k, kw_login());
    assert(s.subrange(k as int, k + 5 as int)[0] == s[k as int]);
    if has_at(s, k, kw_machine()) {
        assert(s.subrange(k as int, k + 7 as int)[0] == s[k as int]);
    }
}

proof fn lemma_password_at(s: Seq<char>, k: nat)
    requires
        has_at(s, k, kw_password()),
        k + 8 < s.len(),
        is_space(s[k + 8 as int]),
    ensures
        token_at(s, k) == (TokenView::Password, k + 8),
{
    lemma_keywords_have_no_space();
    lemma_keyword_word(s, k, kw_password());
    assert(s.subrange(k as int, k + 8 as int)[0] == s[k as int]);
    if has_at(s, k, kw_machine()) {
        assert(s.subrange(k as int, k + 7 as int)[0] == s[k as int]);
    }
    if has_at(s, k, kw_login()) {
        assert(s.subrange(k as int, k + 5 as int)[0] == s[k as int]);
    }
}

/// Where the keywords, spaces and words of `machine h login l password p`
/// stand in a text `s` that is exactly that block.
pub open spec fn block_layout(s: Seq<char>, h: Seq<char>, l: Seq<char>, p: Seq<char>) -> bool {
    let a = h.len() as int;
    let b = l.len() as int;
    &&& s.len() == 25 + a + b + p.len()
    &&& forall|j: int| 0 <= j < s.len() ==> #[trigger] s[j] != '\n'
    &&& has_at(s, 0, kw_machine())
    &&& s.subrange(8, 8 + a) == h
    &&& has_at(s, (9 + a) as nat, kw_login())
    &&& s.subrange(15 + a, 15 + a + b) == l
    &&& has_at(s, (16 + a + b) as nat, kw_password())
    &&& s.subrange(25 + a + b, s.len() as int) == p
    &&& is_space(s[7]) && is_space(s[8 + a]) && is_space(s[14 + a])
    &&& is_space(s[15 + a + b]) && is_space(s[24 + a + b])
    &&& !is_space(s[8]) && !is_space(s[9 + a]) && !is_space(s[15 + a])
    &&& !is_space(s[16 + a + b]) && !is_space(s[25 + a + b])
}

#[verifier::spinoff_prover]
proof fn lemma_block_text_parts(h: Seq<char>, l: Seq<char>, p: Seq<char>)
    requires
        plain_word(h),
        plain_word(l),
        plain_word(p),
    ensures
        block_layout(block_text(h, l, p), h, l, p),
{
    reveal(block_text);
    let s = block_text(h, l, p);
    let a = h.len() as int;
    let b = l.len() as int;
    let c = p.len() as int;
    assert(s.len() == 25 + a + b + c);
    assert forall|j: int| 0 <= j < s.len() implies #[trigger] s[j] != '\n' by {
        if 8 <= j < 8 + a {
            assert(s[j] == h[j - 8]);
        } else if 15 + a <= j < 15 + a + b {
            assert(s[j] == l[j - 15 - a]);
        } else if 25 + a + b <= j {
            assert(s[j] == p[j - 25 - a - b]);
        }
    }
    assert(s.subrange(0, 7) =~= kw_machine());
    assert(s.subrange(8, 8 + a) =~= h);
    assert(s.subrange(9 + a, 14 + a) =~= kw_login());
    assert(s.subrange(15 + a, 15 + a + b) =~= l);
    assert(s.subrange(16 + a + b, 24 + a + b) =~= kw_password());
    assert(s.subrange(25 + a + b, 25 + a + b + c) =~= p);
    assert(s[8] == h[0]);
    assert(s[15 + a] == l[0]);
    assert(s[25 + a + b] == p[0]);
}

/// A space, then a plain word: the word is the next token.
proof fn lemma_word_step(s: Seq<char>, i: nat, w: Seq<char>)
    requires
        plain_word(w),
        i + 1 + w.len() <= s.len(),
        is_space(s[i as int]),
        s.subrange((i + 1) as int, (i + 1 + w.len()) as int) == w,
        i + 1 + w.len() == s.len() || is_space(s[(i + 1 + w.len()) as int]),
        forall|j: int| 0 <= j < s.len() ==> #[trigger] s[j] != '\n',
    ensures
        tokens_from(s, i) == seq![TokenView::Text(w)] + tokens_from(s, i + 1 + w.len()),
{
    assert(s.subrange((i + 1) as int, (i + 1 + w.len()) as int)[0] == s[(i + 1) as int]);
    lemma_skip_one(s, i);
    lemma_word_token(s, i + 1, w);
    lemma_tokens_step(s, i, TokenView::Text(w), i + 1 + w.len());
}

/// A space, a keyword of `n` letters, a space and a plain word: the keyword
/// and the word are the next two tokens.
proof fn lemma_field_step(s: Seq<char>, i: nat, t: TokenView, n: nat, w: Seq<char>)
    requires
        plain_word(w),
        n > 0,
        !(t is Comment),
        i + 2 + n + w.len() <= s.len(),
        is_space(s[i as int]),
        !is_space(s[(i + 1) as int]),
        token_at(s, i + 1) == (t, i + 1 + n),
        is_space(s[(i + 1 + n) as int]),
        s.subrange((i + 2 + n) as int, (i + 2 + n + w.len()) as int) == w,
        i + 2 + n + w.len() == s.len() || is_space(s[(i + 2 + n + w.len()) as int]),
        forall|j: int| 0 <= j < s.len() ==> #[trigger] s[j] != '\n',
    ensures
        tokens_from(s, i) == seq![t, TokenView::Text(w)] + tokens_from(
            s,
            i + 2 + n + w.len(),
        ),
{
    lemma_skip_one(s, i);
    lemma_tokens_step(s, i, t, i + 1 + n);
    lemma_word_step(s, i + 1 + n, w);
    assert(seq![t] + (seq![TokenView::Text(w)] + tokens_from(s, i + 2 + n + w.len()))
        =~= seq![t, TokenView::Text(w)] + tokens_from(s, i + 2 + n + w.len()));
}

/// The facts that the scanner needs of a block text `t` (with words of
/// lengths `a`, `b` and `c`) carry over to `s`, where `t` stands at `o`.
#[verifier::rlimit(60)]
#[verifier::spinoff_prover]
proof fn lemma_shift(s: Seq<char>, o: int, t: Seq<char>, a: int, b: int, c: int)
    requires
        0 <= o,
        0 < a && 0 < b && 0 < c,
        o + t.len() <= s.len(),
        s.subrange(o, o + t.len()) == t,
        t.len() == 25 + a + b + c,
        has_at(t, 0, kw_machine()),
        has_at(t, (9 + a) as nat, kw_login()),
        has_at(t, (16 + a + b) as nat, kw_password()),
        is_space(t[7]) && is_space(t[8 + a]) && is_space(t[14 + a]),
        is_space(t[15 + a + b]) && is_space(t[24 + a + b]),
        !is_space(t[8]) && !is_space(t[9 + a]) && !is_space(t[15 + a]),
        !is_space(t[16 + a + b]) && !is_space(t[25 + a + b]),
    ensures
        has_at(s, o as nat, kw_machine()),
        s.subrange(o + 8, o + 8 + a) == t.subrange(8, 8 + a),
        has_at(s, (o + 9 + a) as nat, kw_login()),
        s.subrange(o + 15 + a, o + 15 + a + b) == t.subrange(15 + a, 15 + a + b),
        has_at(s, (o + 16 + a + b) as nat, kw_password()),
        s.subrange(o + 25 + a + b, o + 25 + a + b + c) == t.subrange(25 + a + b, t.len() as int),
        is_space(s[o + 7]) && is_space(s[o + 8 + a]) && is_space(s[o + 14 + a]),
        is_space(s[o + 15 + a + b]) && is_space(s[o + 24 + a + b]),
        !is_space(s[o + 8]) && !is_space(s[o + 9 + a]) && !is_space(s[o + 15 + a]),
        !is_space(s[o + 16 + a + b]) && !is_space(s[o + 25 + a + b]),
{
    assert(s.subrange(o, o + 7) =~= t.subrange(0, 7));
    assert(s.subrange(o + 8, o + 8 + a) =~= t.subrange(8, 8 + a));
    assert(s.subrange(o + 9 + a, o + 14 + a) =~= t.subrange(9 + a, 14 + a));
    assert(s.subrange(o + 15 + a, o + 15 + a + b) =~= t.subrange(15 + a, 15 + a + b));
    assert(s.subrange(o + 16 + a + b, o + 24 + a + b) =~= t.subrange(16 + a + b, 24 + a + b));
    assert(s.subrange(o + 25 + a + b, o + 25 + a + b + c) =~= t.subrange(25 + a + b, t.len() as int));
    assert(s.subrange(o, o + t.len())[7] == s[o + 7]);
    assert(s.subrange(o, o + t.len())[8] == s[o + 8]);
    assert(s.subrange(o, o + t.len())[8 + a] == s[o + 8 + a]);
    assert(s.subrange(o, o + t.len())[9 + a] == s[o + 9 + a]);
    assert(s.subrange(o, o + t.len())[14 + a] == s[o + 14 + a]);
    assert(s.subrange(o, o + t.len())[15 + a] == s[o + 15 + a]);
    assert(s.subrange(o, o + t.len())[15 + a + b] == s[o + 15 + a + b]);
    assert(s.subrange(o, o + t.len())[16 + a + b] == s[o + 16 + a + b]);
    assert(s.subrange(o, o + t.len())[24 + a + b] == s[o + 24 + a + b]);
    assert(s.subrange(o, o + t.len())[25 + a + b] == s[o + 25 + a + b]);
}

/// `machine` and the host word that follows it, reached at `o` from `i`.
#[verifier::spinoff_prover]
proof fn lemma_block_head(s: Seq<char>, i: nat, o: int, h: Seq<char>)
    requires
        plain_word(h),
        forall|j: int| 0 <= j < s.len() ==> #[trigger] s[j] != '\n',
        skip_space(s, i) == o,
        i <= o,
        o + 8 + h.len() < s.len(),
        has_at(s, o as nat, kw_machine()),
        s.subrange(o + 8, o + 8 + h.len()) == h,
        is_space(s[o + 7]) && is_space(s[o + 8 + h.len()]),
        !is_space(s[o + 8]),
    ensures
        tokens_from(s, i) == seq![TokenView::Machine, TokenView::Text(h)] + tokens_from(
            s,
            (o + 8 + h.len()) as nat,
        ),
{
    lemma_keywords_have_no_space();
    lemma_keyword_word(s, o as nat, kw_machine());
    lemma_tokens_step(s, i, TokenView::Machine, (o + 7) as nat);
    lemma_word_step(s, (o + 7) as nat, h);
    assert(tokens_from(s, i) =~= seq![TokenView::Machine, TokenView::Text(h)] + tokens_from(
        s,
        (o + 8 + h.len()) as nat,
    ));
}

/// A block text that the scan reaches at `o` from `i`, with a space or the end
/// of `s` after it, gives the six tokens of the block.
#[verifier::rlimit(100)]
#[verifier::spinoff_prover]
proof fn lemma_block_chain(
    s: Seq<char>,
    i: nat,
    o: int,
    h: Seq<char>,
    l: Seq<char>,
    p: Seq<char>,
)
    requires
        plain_word(h),
        plain_word(l),
        plain_word(p),
        forall|j: int| 0 <= j < s.len() ==> #[trigger] s[j] != '\n',
        skip_space(s, i) == o,
        i <= o,
        ({
            let a = h.len() as int;
            let b = l.len() as int;
            let e = o + 25 + a + b + p.len();
            &&& e <= s.len()
            &&& e == s.len() || is_space(s[e])
            &&& has_at(s, o as nat, kw_machine())
            &&& s.subrange(o + 8, o + 8 + a) == h
            &&& has_at(s, (o + 9 + a) as nat, kw_login())
            &&& s.subrange(o + 15 + a, o + 15 + a + b) == l
            &&& has_at(s, (o + 16 + a + b) as nat, kw_password())
            &&& s.subrange(o + 25 + a + b, e) == p
            &&& is_space(s[o + 7]) && is_space(s[o + 8 + a]) && is_space(s[o + 14 + a])
            &&& is_space(s[o + 15 + a + b]) && is_space(s[o + 24 + a + b])
            &&& !is_space(s[o + 8]) && !is_space(s[o + 9 + a]) && !is_space(s[o + 15 + a])
            &&& !is_space(s[o + 16 + a + b]) && !is_space(s[o + 25 + a + b])
        }),
    ensures
        tokens_from(s, i) == block(h, l, p) + tokens_from(
            s,
            (o + 25 + h.len() + l.len() + p.len()) as nat,
        ),
{
    let a = h.len() as int;
    let b = l.len() as int;
    let e = (o + 25 + a + b + p.len()) as nat;
    lemma_block_head(s, i, o, h);
    lemma_login_at(s, (o + 9 + a) as nat);
    lemma_field_step(s, (o + 8 + a) as nat, TokenView::Login, 5, l);
    lemma_password_at(s, (o + 16 + a + b) as nat);
    lemma_field_step(s, (o + 15 + a + b) as nat, TokenView::Password, 8, p);
    assert(tokens_from(s, i) =~= block(h, l, p) + tokens_from(s, e));
}

proof fn lemma_block_whole(s: Seq<char>, h: Seq<char>, l: Seq<char>, p: Seq<char>)
    requires
        plain_word(h),
        plain_word(l),
        plain_word(p),
        block_layout(s, h, l, p),
    ensures
        tokens_of(s) == block(h, l, p),
{
    assert(s.subrange(0, 7)[0] == s[0]);
    assert(skip_space(s, 0) == 0);
    lemma_block_chain(s, 0, 0, h, l, p);
    assert(tokens_from(s, s.len()) == Seq::<TokenView>::empty());
    assert(block(h, l, p) + Seq::<TokenView>::empty() =~= block(h, l, p));
}

/// A text `machine h login l password p` of plain words is read as the six
/// tokens of that block.
pub proof fn lemma_block_text_tokens(h: Seq<char>, l: Seq<char>, p: Seq<char>)
    requires
        plain_word(h),
        plain_word(l),
        plain_word(p),
    ensures
        tokens_of(block_text(h, l, p)) == block(h, l, p),
{
    lemma_block_text_parts(h, l, p);
    lemma_block_whole(block_text(h, l, p), h, l, p);
}

/// A text `machine h login l password p` of plain words, whose host word names
/// a host, gives for that host exactly that login and password, and no account.
pub proof fn law_single_block_text(h: Seq<char>, l: Seq<char>, p: Seq<char>)
    requires
        plain_word(h),
        plain_word(l),
        plain_word(p),
        canonical_host(h) is Some,
    ensures
        resolve(config_of(block_text(h, l, p)), canonical_host(h)->0) == Some(
            RawRecord { login: Some(l), password: Some(p), account: None },
        ),
{
    lemma_block_text_tokens(h, l, p);
    law_single_block(h, l, p);
}

#[verifier::rlimit(100)]
#[verifier::spinoff_prover]
proof fn lemma_two_blocks(
    s: Seq<char>,
    t1: Seq<char>,
    t2: Seq<char>,
    h: Seq<char>,
    old_login: Seq<char>,
    old_pass: Seq<char>,
    new_login: Seq<char>,
    new_pass: Seq<char>,
)
    requires
        plain_word(h),
        plain_word(old_login),
        plain_word(old_pass),
        plain_word(new_login),
        plain_word(new_pass),
        block_layout(t1, h, old_login, old_pass),
        block_layout(t2, h, new_login, new_pass),
        s == t1 + seq![' '] + t2,
    ensures
        tokens_of(s) == block(h, old_login, old_pass) + block(h, new_login, new_pass),
{
    let e1 = t1.len() as int;
    assert forall|j: int| 0 <= j < s.len() implies #[trigger] s[j] != '\n' by {
        if j < e1 {
            assert(s[j] == t1[j]);
        } else if j > e1 {
            assert(s[j] == t2[j - e1 - 1]);
        }
    }
    assert(s.subrange(0, e1) =~= t1);
    assert(s.subrange(e1 + 1, e1 + 1 + t2.len()) =~= t2);
    assert(t1.subrange(0, 7)[0] == t1[0]);
    assert(t2.subrange(0, 7)[0] == t2[0]);
    assert(s[0] == t1[0]);
    assert(s[e1 + 1] == t2[0]);
    lemma_shift(s, 0, t1, h.len() as int, old_login.len() as int, old_pass.len() as int);
    lemma_shift(s, e1 + 1, t2, h.len() as int, new_login.len() as int, new_pass.len() as int);
    assert(skip_space(s, 0) == 0);
    lemma_block_chain(s, 0, 0, h, old_login, old_pass);
    lemma_skip_one(s, e1 as nat);
    lemma_block_chain(s, e1 as nat, e1 + 1, h, new_login, new_pass);
    assert(tokens_from(s, s.len()) == Seq::<TokenView>::empty());
    assert(tokens_of(s) =~= block(h, old_login, old_pass) + block(h, new_login, new_pass));
}

/// Of two blocks for one host in a text, the later one is what a lookup of
/// that host gives; nothing of the earlier one is kept.
pub proof fn law_last_block_wins_text(
    h: Seq<char>,
    old_login: Seq<char>,
    old_pass: Seq<char>,
    new_login: Seq<char>,
    new_pass: Seq<char>,
)
    requires
        plain_word(h),
        plain_word(old_login),
        plain_word(old_pass),
        plain_word(new_login),
        plain_word(new_pass),
        canonical_host(h) is Some,
    ensures
        resolve(
            config_of(block_text(h, old_login, old_pass) + seq![' '] + block_text(h, new_login, new_pass)),
            canonical_host(h)->0,
        ) == Some(RawRecord { login: Some(new_login), password: Some(new_pass), account: None }),
{
    lemma_block_text_parts(h, old_login, old_pass);
    lemma_block_text_parts(h, new_login, new_pass);
    lemma_two_blocks(
        block_text(h, old_login, old_pass) + seq![' '] + block_text(h, new_login, new_pass),
        block_text(h, old_login, old_pass),
        block_text(h, new_login, new_pass),
        h,
        old_login,
        old_pass,
        new_login,
        new_pass,
    );
    law_last_block_wins(h, old_login, old_pass, new_login, new_pass);
}

/// The text `machine a login u w password p`: a block with the word `w` where
/// a keyword should stand.
#[verifier::opaque]
pub open spec fn broken_text(a: Seq<char>, u: Seq<char>, w: Seq<char>, p: Seq<char>) -> Seq<char> {
    kw_machine() + seq![' '] + a + seq![' '] + kw_login() + seq![' '] + u + seq![' '] + w
        + seq![' '] + kw_password() + seq![' '] + p
}

/// The tokens of `machine a login u w password p`.
pub open spec fn broken_block(
    a: Seq<char>,
    u: Seq<char>,
    w: Seq<char>,
    p: Seq<char>,
) -> Seq<TokenView> {
    seq![
        TokenView::Machine,
        TokenView::Text(a),
        TokenView::Login,
        TokenView::Text(u),
        TokenView::Text(w),
        TokenView::Password,
        TokenView::Text(p),
    ]
}

/// Where the parts of `machine a login u w password p` stand in a text `s`
/// that starts with it.
pub open spec fn broken_layout(
    s: Seq<char>,
    a: Seq<char>,
    u: Seq<char>,
    w: Seq<char>,
    p: Seq<char>,
) -> bool {
    let x = a.len() as int;
    let y = u.len() as int;
    let z = w.len() as int;
    let e = 26 + x + y + z + p.len();
    &&& e <= s.len()
    &&& e == s.len() || is_space(s[e])
    &&& has_at(s, 0, kw_machine())
    &&& s.subrange(8, 8 + x) == a
    &&& has_at(s, (9 + x) as nat, kw_login())
    &&& s.subrange(15 + x, 15 + x + y) == u
    &&& s.subrange(16 + x + y, 16 + x + y + z) == w
    &&& has_at(s, (17 + x + y + z) as nat, kw_password())
    &&& s.subrange(26 + x + y + z, e) == p
    &&& is_space(s[7]) && is_space(s[8 + x]) && is_space(s[14 + x])
    &&& is_space(s[15 + x + y]) && is_space(s[16 + x + y + z]) && is_space(s[25 + x + y + z])
    &&& !is_space(s[8]) && !is_space(s[9 + x]) && !is_space(s[15 + x])
    &&& !is_space(s[16 + x + y]) && !is_space(s[17 + x + y + z]) && !is_space(s[26 + x + y + z])
}

#[verifier::rlimit(60)]
#[verifier::spinoff_prover]
proof fn lemma_broken_parts(
    a: Seq<char>,
    u: Seq<char>,
    w: Seq<char>,
    p: Seq<char>,
    rest: Seq<char>,
)
    requires
        plain_word(a),
        plain_word(u),
        plain_word(w),
        plain_word(p),
        rest.len() > 0 ==> is_space(rest[0]),
    ensures
        broken_layout(broken_text(a, u, w, p) + rest, a, u, w, p),
        broken_text(a, u, w, p).len() == 26 + a.len() + u.len() + w.len() + p.len(),
        forall|j: int|
            0 <= j < broken_text(a, u, w, p).len() ==> #[trigger] broken_text(a, u, w, p)[j]
                != '\n',
{
    reveal(broken_text);
    let t = broken_text(a, u, w, p);
    let s = t + rest;
    let x = a.len() as int;
    let y = u.len() as int;
    let z = w.len() as int;
    let c = p.len() as int;
    assert(t.len() == 26 + x + y + z + c);
    assert forall|j: int| 0 <= j < t.len() implies #[trigger] t[j] != '\n' by {
        if 8 <= j < 8 + x {
            assert(t[j] == a[j - 8]);
        } else if 15 + x <= j < 15 + x + y {
            assert(t[j] == u[j - 15 - x]);
        } else if 16 + x + y <= j < 16 + x + y + z {
            assert(t[j] == w[j - 16 - x - y]);
        } else if 26 + x + y + z <= j {
            assert(t[j] == p[j - 26 - x - y - z]);
        }
    }
    assert(s.subrange(0, 7) =~= kw_machine());
    assert(s.subrange(8, 8 + x) =~= a);
    assert(s.subrange(9 + x, 14 + x) =~= kw_login());
    assert(s.subrange(15 + x, 15 + x + y) =~= u);
    assert(s.subrange(16 + x + y, 16 + x + y + z) =~= w);
    assert(s.subrange(17 + x + y + z, 25 + x + y + z) =~= kw_password());
    assert(s.subrange(26 + x + y + z, 26 + x + y + z + c) =~= p);
    assert(s[8] == a[0]);
    assert(s[15 + x] == u[0]);
    assert(s[16 + x + y] == w[0]);
    assert(s[26 + x + y + z] == p[0]);
    if rest.len() > 0 {
        assert(s[t.len() as int] == rest[0]);
    }
}

#[verifier::rlimit(60)]
#[verifier::spinoff_prover]
proof fn lemma_broken_head(
    s: Seq<char>,
    a: Seq<char>,
    u: Seq<char>,
    w: Seq<char>,
    p: Seq<char>,
)
    requires
        plain_word(a),
        plain_word(u),
        forall|j: int| 0 <= j < s.len() ==> #[trigger] s[j] != '\n',
        broken_layout(s, a, u, w, p),
    ensures
        tokens_from(s, 0) == seq![
            TokenView::Machine,
            TokenView::Text(a),
            TokenView::Login,
            TokenView::Text(u),
        ] + tokens_from(s, (15 + a.len() + u.len()) as nat),
{
    let x = a.len() as int;
    let y = u.len() as int;
    assert(s.subrange(0, 7)[0] == s[0]);
    assert(skip_space(s, 0) == 0);
    lemma_keywords_have_no_space();
    lemma_keyword_word(s, 0, kw_machine());
    lemma_tokens_step(s, 0, TokenView::Machine, 7);
    lemma_word_step(s, 7, a);
    lemma_login_at(s, (9 + x) as nat);
    lemma_field_step(s, (8 + x) as nat, TokenView::Login, 5, u);
    assert(tokens_from(s, 0) =~= seq![
        TokenView::Machine,
        TokenView::Text(a),
        TokenView::Login,
        TokenView::Text(u),
    ] + tokens_from(s, (15 + x + y) as nat));
}

#[verifier::rlimit(100)]
#[verifier::spinoff_prover]
proof fn lemma_broken_chain(
    s: Seq<char>,
    a: Seq<char>,
    u: Seq<char>,
    w: Seq<char>,
    p: Seq<char>,
)
    requires
        plain_word(a),
        plain_word(u),
        plain_word(w),
        plain_word(p),
        forall|j: int| 0 <= j < s.len() ==> #[trigger] s[j] != '\n',
        broken_layout(s, a, u, w, p),
    ensures
        tokens_from(s, 0) == broken_block(a, u, w, p) + tokens_from(
            s,
            (26 + a.len() + u.len() + w.len() + p.len()) as nat,
        ),
{
    let x = a.len() as int;
    let y = u.len() as int;
    let z = w.len() as int;
    let e = (26 + x + y + z + p.len()) as nat;
    lemma_broken_head(s, a, u, w, p);
    lemma_word_step(s, (15 + x + y) as nat, w);
    lemma_password_at(s, (17 + x + y + z) as nat);
    lemma_field_step(s, (16 + x + y + z) as nat, TokenView::Password, 8, p);
    assert(tokens_from(s, 0) =~= broken_block(a, u, w, p) + tokens_from(s, e));
}

proof fn lemma_join_no_line_break(t1: Seq<char>, t2: Seq<char>)
    requires
        forall|j: int| 0 <= j < t1.len() ==> #[trigger] t1[j] != '\n',
        forall|j: int| 0 <= j < t2.len() ==> #[trigger] t2[j] != '\n',
    ensures
        forall|j: int|
            0 <= j < (t1 + (seq![' '] + t2)).len() ==> #[trigger] (t1 + (seq![' '] + t2))[j]
                != '\n',
{
    let s = t1 + (seq![' '] + t2);
    assert forall|j: int| 0 <= j < s.len() implies #[trigger] s[j] != '\n' by {
        if j < t1.len() {
            assert(s[j] == t1[j]);
        } else if j > t1.len() {
            assert(s[j] == t2[j - t1.len() - 1]);
        }
    }
}

#[verifier::rlimit(100)]
#[verifier::spinoff_prover]
proof fn lemma_broken_then_block(
    s: Seq<char>,
    t1: Seq<char>,
    t2: Seq<char>,
    a: Seq<char>,
    u: Seq<char>,
    w: Seq<char>,
    p: Seq<char>,
    b: Seq<char>,
    l: Seq<char>,
    q: Seq<char>,
)
    requires
        plain_word(a),
        plain_word(u),
        plain_word(w),
        plain_word(p),
        plain_word(b),
        plain_word(l),
        plain_word(q),
        s == t1 + (seq![' '] + t2),
        broken_layout(s, a, u, w, p),
        t1.len() == 26 + a.len() + u.len() + w.len() + p.len(),
        forall|j: int| 0 <= j < t1.len() ==> #[trigger] t1[j] != '\n',
        block_layout(t2, b, l, q),
    ensures
        tokens_of(s) == broken_block(a, u, w, p) + block(b, l, q),
{
    let e1 = t1.len() as int;
    lemma_join_no_line_break(t1, t2);
    assert(s.subrange(e1 + 1, e1 + 1 + t2.len()) =~= t2);
    assert(t2.subrange(0, 7)[0] == t2[0]);
    assert(s[e1 + 1] == t2[0]);
    lemma_broken_chain(s, a, u, w, p);
    lemma_shift(s, e1 + 1, t2, b.len() as int, l.len() as int, q.len() as int);
    lemma_skip_one(s, e1 as nat);
    lemma_block_chain(s, e1 as nat, e1 + 1, b, l, q);
    assert(tokens_from(s, s.len()) == Seq::<TokenView>::empty());
    assert(tokens_of(s) =~= broken_block(a, u, w, p) + block(b, l, q));
}

/// An unknown word where a keyword should stand drops its block, and only that
/// block: in `machine a login u w password p machine b login l password q`,
/// host `a` gets nothing and host `b` gets its login and password.
#[verifier::spinoff_prover]
#[verifier::rlimit(100)]
pub proof fn law_unknown_word_drops_block_text(
    a: Seq<char>,
    u: Seq<char>,
    w: Seq<char>,
    p: Seq<char>,
    b: Seq<char>,
    l: Seq<char>,
    q: Seq<char>,
)
    requires
        plain_word(a),
        plain_word(u),
        plain_word(w),
        plain_word(p),
        plain_word(b),
        plain_word(l),
        plain_word(q),
        canonical_host(a) is Some,
        canonical_host(b) is Some,
        canonical_host(a) != canonical_host(b),
    ensures
        ({
            let c = config_of(broken_text(a, u, w, p) + (seq![' '] + block_text(b, l, q)));
            &&& resolve(c, canonical_host(a)->0) is None
            &&& resolve(c, canonical_host(b)->0) == Some(
                RawRecord { login: Some(l), password: Some(q), account: None },
            )
        }),
{
    let t1 = broken_text(a, u, w, p);
    let t2 = block_text(b, l, q);
    let rest = seq![' '] + t2;
    assert(rest[0] == ' ');
    lemma_broken_parts(a, u, w, p, rest);
    lemma_block_text_parts(b, l, q);
    lemma_broken_then_block(t1 + rest, t1, t2, a, u, w, p, b, l, q);
    law_unknown_word_drops_block(a, u, w, p, b, l, q);
}

proof fn lemma_shift_skip_space(p: Seq<char>, s: Seq<char>, i: nat)
    requires
        i <= s.len(),
    ensures
        skip_space(p + s, p.len() + i) == p.len() + skip_space(s, i),
    decreases s.len() - i,
{
    if i < s.len() {
        assert((p + s)[(p.len() + i) as int] == s[i as int]);
        lemma_shift_skip_space(p, s, i + 1);
    }
}

proof fn lemma_shift_word_end(p: Seq<char>, s: Seq<char>, i: nat)
    requires
        i <= s.len(),
    ensures
        word_end(p + s, p.len() + i) == p.len() + word_end(s, i),
    decreases s.len() - i,
{
    if i < s.len() {
        assert((p + s)[(p.len() + i) as int] == s[i as int]);
        lemma_shift_word_end(p, s, i + 1);
    }
}

proof fn lemma_shift_subrange(p: Seq<char>, s: Seq<char>, i: int, j: int)
    requires
        0 <= i <= j <= s.len(),
    ensures
        (p + s).subrange(p.len() + i, p.len() + j) == s.subrange(i, j),
{
    assert((p + s).subrange(p.len() + i, p.len() + j) =~= s.subrange(i, j));
}

proof fn lemma_shift_has_at(p: Seq<char>, s: Seq<char>, i: nat, lit: Seq<char>)
    requires
        i <= s.len(),
    ensures
        has_at(p + s, p.len() + i, lit) == has_at(s, i, lit),
{
    if i + lit.len() <= s.len() {
        lemma_shift_subrange(p, s, i as int, (i + lit.len()) as int);
    }
}

proof fn lemma_shift_find_from(p: Seq<char>, s: Seq<char>, i: nat, pat: Seq<char>)
    requires
        i <= s.len(),
    ensures
        find_from(p + s, p.len() + i, pat) == (match find_from(s, i, pat) {
            Some(j) => Some(p.len() + j),
            None => None::<nat>,
        }),
    decreases s.len() - i,
{
    if i < s.len() {
        lemma_shift_has_at(p, s, i, pat);
        lemma_shift_find_from(p, s, i + 1, pat);
    }
}

proof fn lemma_shift_token_at(p: Seq<char>, s: Seq<char>, i: nat)
    requires
        i < s.len(),
    ensures
        token_at(p + s, p.len() + i).0 == token_at(s, i).0,
        token_at(p + s, p.len() + i).1 == p.len() + token_at(s, i).1,
{
    let n = p.len();
    let m = p + s;
    lemma_shift_word_end(p, s, i);
    lemma_word_end(s, i);
    lemma_shift_has_at(p, s, i, kw_machine());
    lemma_shift_has_at(p, s, i, kw_login());
    lemma_shift_has_at(p, s, i, kw_password());
    lemma_shift_has_at(p, s, i, kw_account());
    lemma_shift_has_at(p, s, i, kw_default());
    lemma_shift_has_at(p, s, i, kw_macdef());
    lemma_shift_has_at(p, s, i, comment_mark());
    lemma_shift_subrange(p, s, i as int, word_end(s, i) as int);
    if i + 2 <= s.len() {
        lemma_shift_find_from(p, s, i + 2, line_break());
        lemma_find_from(s, i + 2, line_break());
        if let Some(j) = find_from(s, i + 2, line_break()) {
            lemma_shift_subrange(p, s, (i + 2) as int, j as int);
        }
    }
    if i + 6 <= s.len() {
        lemma_shift_skip_space(p, s, i + 6);
        lemma_skip_space(s, i + 6);
        let k = skip_space(s, i + 6);
        lemma_shift_word_end(p, s, k);
        lemma_word_end(s, k);
        let e = word_end(s, k);
        lemma_shift_find_from(p, s, e, blank_line());
        lemma_find_from(s, e, blank_line());
        let b = match find_from(s, e, blank_line()) {
            Some(b) => b,
            None => s.len(),
        };
        lemma_shift_subrange(p, s, k as int, e as int);
        lemma_shift_subrange(p, s, e as int, b as int);
    }
}

proof fn lemma_shift_tokens_from(p: Seq<char>, s: Seq<char>, i: nat)
    requires
        i <= s.len(),
    ensures
        tokens_from(p + s, p.len() + i) == tokens_from(s, i),
    decreases s.len() - i,
{
    lemma_shift_skip_space(p, s, i);
    lemma_skip_space(s, i);
    let k = skip_space(s, i);
    if k < s.len() {
        lemma_shift_token_at(p, s, k);
        lemma_token_at(s, k);
        lemma_shift_tokens_from(p, s, token_at(s, k).1);
    }
}

proof fn lemma_find_first(r: Seq<char>, i: nat, t: nat, pat: Seq<char>)
    requires
        i <= t < r.len(),
        has_at(r, t, pat),
        forall|j: nat| i <= j < t ==> !has_at(r, j, pat),
    ensures
        find_from(r, i, pat) == Some(t),
    decreases t - i,
{
    if i < t {
        lemma_find_first(r, i + 1, t, pat);
    }
}

proof fn lemma_shift_scan(x: TokenView, ts: Seq<TokenView>, i: nat, st: ScanState)
    requires
        i <= ts.len(),
    ensures
        scan(seq![x] + ts, i + 1, st) == scan(ts, i, st),
    decreases ts.len() - i,
{
    let us = seq![x] + ts;
    if i < ts.len() {
        assert(us[i + 1 as int] == ts[i as int]);
        if i + 1 < ts.len() {
            assert(us[i + 2 as int] == ts[i + 1 as int]);
        }
        assert(step(us, i + 1 as int, st) == step(ts, i as int, st));
        lemma_shift_scan(x, ts, next_index(ts, i), step(ts, i as int, st));
    }
}

/// A macro block, `macdef n`, a line break, its body and a blank line.
#[verifier::opaque]
pub open spec fn macro_text(n: Seq<char>, b: Seq<char>) -> Seq<char> {
    kw_macdef() + seq![' '] + n + seq!['\n'] + b + blank_line()
}

/// Whether a line break, then `b`, then a line break hold no two line breaks in a row.
pub open spec fn no_blank_line(b: Seq<char>) -> bool {
    let q = seq!['\n'] + b + seq!['\n'];
    forall|j: int| 0 <= j < q.len() - 1 ==> !(#[trigger] q[j] == '\n' && q[j + 1] == '\n')
}

#[verifier::spinoff_prover]
#[verifier::rlimit(100)]
proof fn lemma_macro_token(n: Seq<char>, b: Seq<char>, s: Seq<char>)
    requires
        n.len() > 0,
        forall|j: int| 0 <= j < n.len() ==> !is_space(#[trigger] n[j]),
        no_blank_line(b),
    ensures
        macro_text(n, b).len() == 10 + n.len() + b.len(),
        token_at(macro_text(n, b) + s, 0) == (
            TokenView::MacDef(n, seq!['\n'] + b),
            (8 + n.len() + b.len()) as nat,
        ),
{
    reveal(macro_text);
    let p = macro_text(n, b);
    let m = p + s;
    let c = n.len() as int;
    let d = b.len() as int;
    let e = 8 + c + d;
    assert(p.len() == 10 + c + d);
    assert forall|j: int| 0 <= j < 6 implies !is_space(#[trigger] m[j]) by {
        assert(m[j] == kw_macdef()[j]);
    }
    assert(m.subrange(0, 6) =~= kw_macdef());
    assert(m[6] == ' ');
    lemma_word_end_at(m, 0, 6);
    assert forall|j: int| 7 <= j < 7 + c implies !is_space(#[trigger] m[j]) by {
        assert(m[j] == n[j - 7]);
    }
    assert(m[7 + c] == '\n');
    lemma_word_end_at(m, 7, (7 + c) as nat);
    assert(skip_space(m, 7) == 7);
    assert(skip_space(m, 6) == 7);
    assert(m.subrange(0, 7)[3] == m[3]);
    assert(m.subrange(0, 5)[0] == m[0]);
    assert(m.subrange(0, 8)[0] == m[0]);
    assert(m.subrange(0, 7)[0] == m[0]);
    assert(m.subrange(0, 2)[0] == m[0]);
    let q = seq!['\n'] + b + seq!['\n'];
    assert forall|j: nat| 7 + c <= j < e implies !has_at(m, j, blank_line()) by {
        if has_at(m, j, blank_line()) {
            assert(m.subrange(j as int, j + 2 as int)[0] == m[j as int]);
            assert(m.subrange(j as int, j + 2 as int)[1] == m[j + 1 as int]);
            assert(m[j as int] == q[j - 7 - c]);
            assert(m[j + 1 as int] == q[j - 6 - c]);
        }
    }
    assert(m.subrange(e, e + 2) =~= blank_line());
    lemma_find_first(m, (7 + c) as nat, e as nat, blank_line());
    assert(m.subrange(7, 7 + c) =~= n);
    assert(m.subrange(7 + c, e) =~= seq!['\n'] + b);
}

/// A macro block ended by a blank line is inert, whatever its body holds:
/// the text after it is read as if the macro were not there.
#[verifier::spinoff_prover]
pub proof fn law_macro_is_inert_text(n: Seq<char>, b: Seq<char>, s: Seq<char>)
    requires
        n.len() > 0,
        forall|j: int| 0 <= j < n.len() ==> !is_space(#[trigger] n[j]),
        no_blank_line(b),
    ensures
        config_of(macro_text(n, b) + s) == config_of(s),
{
    let p = macro_text(n, b);
    let m = p + s;
    lemma_macro_token(n, b, s);
    let e = (8 + n.len() + b.len()) as nat;
    let t = TokenView::MacDef(n, seq!['\n'] + b);
    assert(m[e as int] == '\n' && m[e + 1 as int] == '\n') by {
        reveal(macro_text);
        assert(m[e as int] == p[e as int]);
        assert(m[e + 1 as int] == p[e + 1 as int]);
    }
    assert(skip_space(m, 0) == 0) by {
        reveal(macro_text);
        assert(m[0] == 'm');
    }
    lemma_skip_space(m, e + 2);
    assert(m.len() >= e + 2);
    assert(is_space(m[e as int]) && is_space(m[e + 1 as int]));
    assert(skip_space(m, e + 1) == skip_space(m, e + 2));
    assert(skip_space(m, e) == skip_space(m, e + 2));
    lemma_shift_tokens_from(p, s, 0);
    assert(tokens_from(m, e) == tokens_from(m, e + 2));
    assert(tokens_from(m, 0) == seq![t] + tokens_from(m, e));
    let ts = tokens_of(s);
    assert(tokens_of(m) == seq![t] + ts);
    lemma_shift_scan(t, ts, 0, initial_state());
    assert(scan(seq![t] + ts, 0, initial_state()) == scan(seq![t] + ts, 1, initial_state()));
}

} // verus!
