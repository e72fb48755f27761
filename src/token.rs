use vstd::prelude::*;

verus! {

/// Unicode `White_Space`: the characters that separate two tokens.
pub open spec fn is_space(c: char) -> bool {
    ('\u{9}' <= c && c <= '\u{d}') || c == ' ' || c == '\u{85}' || c == '\u{a0}'
        || c == '\u{1680}' || ('\u{2000}' <= c && c <= '\u{200a}') || c == '\u{2028}'
        || c == '\u{2029}' || c == '\u{202f}' || c == '\u{205f}' || c == '\u{3000}'
}

/// Whether `c` has the Unicode `White_Space` property, as `char::is_whitespace` decides it.
pub fn is_space_char(c: char) -> (r: bool)
    ensures
        r == is_space(c),
{
    ('\u{9}' <= c && c <= '\u{d}') || c == ' ' || c == '\u{85}' || c == '\u{a0}'
        || c == '\u{1680}' || ('\u{2000}' <= c && c <= '\u{200a}') || c == '\u{2028}'
        || c == '\u{2029}' || c == '\u{202f}' || c == '\u{205f}' || c == '\u{3000}'
}

/// A token of netrc text, as the scanner classifies it.
pub enum TokenView {
    Machine,
    Default,
    Login,
    Password,
    Account,
    MacDef(Seq<char>, Seq<char>),
    Comment(Seq<char>),
    Text(Seq<char>),
}

pub open spec fn kw_machine() -> Seq<char> {
    seq!['m', 'a', 'c', 'h', 'i', 'n', 'e']
}

pub open spec fn kw_login() -> Seq<char> {
    seq!['l', 'o', 'g', 'i', 'n']
}

pub open spec fn kw_password() -> Seq<char> {
    seq!['p', 'a', 's', 's', 'w', 'o', 'r', 'd']
}

pub open spec fn kw_account() -> Seq<char> {
    seq!['a', 'c', 'c', 'o', 'u', 'n', 't']
}

pub open spec fn kw_default() -> Seq<char> {
    seq!['d', 'e', 'f', 'a', 'u', 'l', 't']
}

pub open spec fn kw_macdef() -> Seq<char> {
    seq!['m', 'a', 'c', 'd', 'e', 'f']
}

/// `#` and one space: the start of a comment.
pub open spec fn comment_mark() -> Seq<char> {
    seq!['#', ' ']
}

pub open spec fn line_break() -> Seq<char> {
    seq!['\n']
}

/// Two line breaks in a row: the end of a macro body.
pub open spec fn blank_line() -> Seq<char> {
    seq!['\n', '\n']
}

/// The first position at or after `i` that does not hold a space (or the end of `s`).
pub open spec fn skip_space(s: Seq<char>, i: nat) -> nat
    decreases s.len() - i,
{
    if i < s.len() && is_space(s[i as int]) {
        skip_space(s, i + 1)
    } else {
        i
    }
}

/// The first position at or after `i` that holds a space (or the end of `s`).
pub open spec fn word_end(s: Seq<char>, i: nat) -> nat
    decreases s.len() - i,
{
    if i < s.len() && !is_space(s[i as int]) {
        word_end(s, i + 1)
    } else {
        i
    }
}

/// Whether `lit` occurs in `s` at position `i`.
pub open spec fn has_at(s: Seq<char>, i: nat, lit: Seq<char>) -> bool {
    i + lit.len() <= s.len() && s.subrange(i as int, (i + lit.len()) as int) == lit
}

/// The first position at or after `i` where `pat` occurs in `s`.
pub open spec fn find_from(s: Seq<char>, i: nat, pat: Seq<char>) -> Option<nat>
    decreases s.len() - i,
{
    if i >= s.len() {
        None
    } else if has_at(s, i, pat) {
        Some(i)
    } else {
        find_from(s, i + 1, pat)
    }
}

/// Whether the word that starts at position `i` of `s` is `kw`.
pub open spec fn is_word(s: Seq<char>, i: nat, kw: Seq<char>) -> bool {
    has_at(s, i, kw) && word_end(s, i) == i + kw.len()
}

/// The token that starts at position `i` of `s`, and the position just past it.
///
/// A keyword, `macdef` included, counts only where it is the whole word. A comment needs a line break after it; a macro
/// needs a name, and its body runs to the next blank line or to the end of `s`.
/// Anything else is a bare word.
pub open spec fn token_at(s: Seq<char>, i: nat) -> (TokenView, nat) {
    if is_word(s, i, kw_machine()) {
        (TokenView::Machine, i + kw_machine().len())
    } else if is_word(s, i, kw_login()) {
        (TokenView::Login, i + kw_login().len())
    } else if is_word(s, i, kw_password()) {
        (TokenView::Password, i + kw_password().len())
    } else if is_word(s, i, kw_account()) {
        (TokenView::Account, i + kw_account().len())
    } else if is_word(s, i, kw_default()) {
        (TokenView::Default, i + kw_default().len())
    } else if has_at(s, i, comment_mark()) && find_from(s, i + 2, line_break()) is Some {
        let j = find_from(s, i + 2, line_break())->0;
        (TokenView::Comment(s.subrange((i + 2) as int, j as int)), j)
    } else if is_word(s, i, kw_macdef()) && skip_space(s, i + 6) < s.len() {
        let k = skip_space(s, i + 6);
        let e = word_end(s, k);
        let b = match find_from(s, e, blank_line()) {
            Some(b) => b,
            None => s.len(),
        };
        (TokenView::MacDef(s.subrange(k as int, e as int), s.subrange(e as int, b as int)), b)
    } else {
        let e = word_end(s, i);
        (TokenView::Text(s.subrange(i as int, e as int)), e)
    }
}

/// The tokens of `s` from position `i` on, comments left out.
pub open spec fn tokens_from(s: Seq<char>, i: nat) -> Seq<TokenView>
    decreases s.len() - i,
{
    let k = skip_space(s, i);
    let (t, e) = token_at(s, k);
    if i <= k < e <= s.len() {
        if t is Comment {
            tokens_from(s, e)
        } else {
            seq![t] + tokens_from(s, e)
        }
    } else {
        seq![]
    }
}

/// The tokens of a whole netrc text.
pub open spec fn tokens_of(s: Seq<char>) -> Seq<TokenView> {
    tokens_from(s, 0)
}

pub(crate) proof fn lemma_skip_space(s: Seq<char>, i: nat)
    requires
        i <= s.len(),
    ensures
        i <= skip_space(s, i) <= s.len(),
        skip_space(s, i) < s.len() ==> !is_space(s[skip_space(s, i) as int]),
    decreases s.len() - i,
{
    if i < s.len() && is_space(s[i as int]) {
        lemma_skip_space(s, i + 1);
    }
}

pub(crate) proof fn lemma_word_end(s: Seq<char>, i: nat)
    requires
        i <= s.len(),
    ensures
        i <= word_end(s, i) <= s.len(),
        i < s.len() && !is_space(s[i as int]) ==> i < word_end(s, i),
    decreases s.len() - i,
{
    if i < s.len() && !is_space(s[i as int]) {
        lemma_word_end(s, i + 1);
    }
}

pub(crate) proof fn lemma_find_from(s: Seq<char>, i: nat, pat: Seq<char>)
    ensures
        find_from(s, i, pat) matches Some(j) ==> i <= j && has_at(s, j, pat),
    decreases s.len() - i,
{
    if i < s.len() && !has_at(s, i, pat) {
        lemma_find_from(s, i + 1, pat);
    }
}

/// A token that starts on a character other than a space is never empty.
pub(crate) proof fn lemma_token_at(s: Seq<char>, i: nat)
    requires
        i < s.len(),
        !is_space(s[i as int]),
    ensures
        i < token_at(s, i).1 <= s.len(),
{
    lemma_word_end(s, i);
    lemma_find_from(s, i + 2, line_break());
    if is_word(s, i, kw_macdef()) && skip_space(s, i + 6) < s.len() {
        lemma_skip_space(s, i + 6);
        let k = skip_space(s, i + 6);
        lemma_word_end(s, k);
        lemma_find_from(s, word_end(s, k), blank_line());
    }
}

/// A token of netrc text.
pub enum Token {
    Machine,
    Default,
    Login,
    Password,
    Account,
    /// A macro: its name and its body, which is never read as tokens.
    MacDef(String, String),
    Comment(String),
    /// A bare word that is no keyword.
    Text(String),
}

impl View for Token {
    type V = TokenView;

    open spec fn view(&self) -> TokenView {
        match self {
            Token::Machine => TokenView::Machine,
            Token::Default => TokenView::Default,
            Token::Login => TokenView::Login,
            Token::Password => TokenView::Password,
            Token::Account => TokenView::Account,
            Token::MacDef(n, b) => TokenView::MacDef(n@, b@),
            Token::Comment(c) => TokenView::Comment(c@),
            Token::Text(t) => TokenView::Text(t@),
        }
    }
}

pub open spec fn view_tokens(ts: Seq<Token>) -> Seq<TokenView> {
    ts.map_values(|t: Token| t@)
}

/// The literal text of a token, as it would be written.
pub open spec fn render(t: TokenView) -> Seq<char> {
    match t {
        TokenView::Machine => kw_machine(),
        TokenView::Default => kw_default(),
        TokenView::Login => kw_login(),
        TokenView::Password => kw_password(),
        TokenView::Account => kw_account(),
        TokenView::MacDef(n, b) => kw_macdef() + seq![' '] + n + seq![' '] + b,
        TokenView::Comment(c) => comment_mark() + c,
        TokenView::Text(w) => w,
    }
}

impl Token {
    /// The literal text of the token.
    pub fn to_text(&self) -> (r: String)
        ensures
            r@ == render(self@),
    {
        match self {
            Token::Machine => {
                proof { reveal_strlit("machine"); }
                "machine".to_owned()
            },
            Token::Default => {
                proof { reveal_strlit("default"); }
                "default".to_owned()
            },
            Token::Login => {
                proof { reveal_strlit("login"); }
                "login".to_owned()
            },
            Token::Password => {
                proof { reveal_strlit("password"); }
                "password".to_owned()
            },
            Token::Account => {
                proof { reveal_strlit("account"); }
                "account".to_owned()
            },
            Token::MacDef(n, b) => {
                proof {
                    reveal_strlit("macdef ");
                    reveal_strlit(" ");
                }
                let mut r = "macdef ".to_owned();
                r.append(n.as_str());
                r.append(" ");
                r.append(b.as_str());
                r
            },
            Token::Comment(c) => {
                proof { reveal_strlit("# "); }
                let mut r = "# ".to_owned();
                r.append(c.as_str());
                r
            },
            Token::Text(w) => w.clone(),
        }
    }
}

fn skip_space_exec(cs: &Vec<char>, i: usize) -> (r: usize)
    requires
        i <= cs.len(),
    ensures
        r == skip_space(cs@, i as nat),
{
    let mut j = i;
    while j < cs.len() && is_space_char(cs[j])
        invariant
            i <= j <= cs.len(),
            skip_space(cs@, j as nat) == skip_space(cs@, i as nat),
        decreases cs.len() - j,
    {
        j = j + 1;
    }
    j
}

fn word_end_exec(cs: &Vec<char>, i: usize) -> (r: usize)
    requires
        i <= cs.len(),
    ensures
        r == word_end(cs@, i as nat),
{
    let mut j = i;
    while j < cs.len() && !is_space_char(cs[j])
        invariant
            i <= j <= cs.len(),
            word_end(cs@, j as nat) == word_end(cs@, i as nat),
        decreases cs.len() - j,
    {
        j = j + 1;
    }
    j
}

fn has_at_exec(cs: &Vec<char>, i: usize, lit: &[char]) -> (r: bool)
    requires
        i <= cs.len(),
    ensures
        r == has_at(cs@, i as nat, lit@),
{
    if lit.len() > cs.len() - i {
        return false;
    }
    let mut k: usize = 0;
    while k < lit.len()
        invariant
            i + lit.len() <= cs.len(),
            k <= lit.len(),
            forall|m: int| 0 <= m < k ==> cs@[i + m] == lit@[m],
        decreases lit.len() - k,
    {
        if cs[i + k] != lit[k] {
            assert(cs@.subrange(i as int, i + lit@.len())[k as int] != lit@[k as int]);
            return false;
        }
        k = k + 1;
    }
    assert(cs@.subrange(i as int, i + lit@.len()) =~= lit@);
    true
}

fn find_from_exec(cs: &Vec<char>, i: usize, pat: &[char]) -> (r: Option<usize>)
    requires
        i <= cs.len(),
    ensures
        r matches Some(j) ==> find_from(cs@, i as nat, pat@) == Some(j as nat),
        r is None ==> find_from(cs@, i as nat, pat@) is None,
{
    let mut j = i;
    while j < cs.len()
        invariant
            i <= j <= cs.len(),
            find_from(cs@, j as nat, pat@) == find_from(cs@, i as nat, pat@),
        decreases cs.len() - j,
    {
        if has_at_exec(cs, j, pat) {
            return Some(j);
        }
        j = j + 1;
    }
    None
}

/// The token that starts at position `i` of the text, and the position just past it.
fn token_at_exec(text: &str, cs: &Vec<char>, i: usize) -> (r: (Token, usize))
    requires
        cs@ == text@,
        i < cs.len(),
        !is_space(cs@[i as int]),
    ensures
        r.0@ == token_at(cs@, i as nat).0,
        r.1 == token_at(cs@, i as nat).1,
{
    proof {
        lemma_token_at(cs@, i as nat);
        lemma_word_end(cs@, i as nat);
        lemma_find_from(cs@, (i + 2) as nat, line_break());
    }
    let w = word_end_exec(cs, i);
    if w - i == 7 && has_at_exec(cs, i, &['m', 'a', 'c', 'h', 'i', 'n', 'e']) {
        return (Token::Machine, i + 7);
    }
    if w - i == 5 && has_at_exec(cs, i, &['l', 'o', 'g', 'i', 'n']) {
        return (Token::Login, i + 5);
    }
    if w - i == 8 && has_at_exec(cs, i, &['p', 'a', 's', 's', 'w', 'o', 'r', 'd']) {
        return (Token::Password, i + 8);
    }
    if w - i == 7 && has_at_exec(cs, i, &['a', 'c', 'c', 'o', 'u', 'n', 't']) {
        return (Token::Account, i + 7);
    }
    if w - i == 7 && has_at_exec(cs, i, &['d', 'e', 'f', 'a', 'u', 'l', 't']) {
        return (Token::Default, i + 7);
    }
    if has_at_exec(cs, i, &['#', ' ']) {
        let nl: &[char] = &['\n'];
        assert(nl@ == line_break());
        if let Some(j) = find_from_exec(cs, i + 2, nl) {
            assert(i + 2 <= j && j < cs.len());
            let c = text.substring_char(i + 2, j).to_owned();
            return (Token::Comment(c), j);
        }
    }
    if w - i == 6 && has_at_exec(cs, i, &['m', 'a', 'c', 'd', 'e', 'f']) {
        let k = skip_space_exec(cs, i + 6);
        if k < cs.len() {
            proof {
                lemma_skip_space(cs@, (i + 6) as nat);
                lemma_word_end(cs@, k as nat);
                lemma_find_from(cs@, word_end(cs@, k as nat), blank_line());
            }
            let e = word_end_exec(cs, k);
            let b = match find_from_exec(cs, e, &['\n', '\n']) {
                Some(b) => b,
                None => cs.len(),
            };
            let name = text.substring_char(k, e).to_owned();
            let body = text.substring_char(e, b).to_owned();
            return (Token::MacDef(name, body), b);
        }
    }
    (Token::Text(text.substring_char(i, w).to_owned()), w)
}

/// Splits netrc text into its tokens, in order, leaving comments out.
pub fn tokenize(text: &str) -> (r: Vec<Token>)
    ensures
        view_tokens(r@) == tokens_of(text@),
{
    let cs = chars_of(text);
    let mut out: Vec<Token> = Vec::new();
    let mut i: usize = 0;
    loop
        invariant
            cs@ == text@,
            i <= cs.len(),
            view_tokens(out@) + tokens_from(cs@, i as nat) == tokens_of(text@),
        decreases cs.len() - i,
    {
        let k = skip_space_exec(&cs, i);
        proof { lemma_skip_space(cs@, i as nat); }
        if k >= cs.len() {
            assert(tokens_from(cs@, i as nat) == Seq::<TokenView>::empty());
            assert(view_tokens(out@) =~= view_tokens(out@) + Seq::<TokenView>::empty());
            return out;
        }
        proof { lemma_token_at(cs@, k as nat); }
        let (t, e) = token_at_exec(text, &cs, k);
        let ghost prev = out@;
        match t {
            Token::Comment(_) => {},
            _ => {
                out.push(t);
                assert(view_tokens(out@) =~= view_tokens(prev) + seq![t@]);
            },
        }
        i = e;
    }
}

fn chars_of(s: &str) -> (r: Vec<char>)
    ensures
        r@ == s@,
{
    let mut out: Vec<char> = Vec::new();
    for c in iter: s.chars()
        invariant
            out@ == iter.seq().take(iter.index() as int),
    {
        out.push(c);
    }
    out
}

} // verus!
