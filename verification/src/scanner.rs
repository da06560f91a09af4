//! Scanner for the interactive command language: splits a raw input line into
//! words, quoted strings and flags on unquoted whitespace. It does no
//! semantic validation; any run of characters is a legal word. An unclosed
//! quote is the one scanning error, reported with the quote's offset.

use vstd::prelude::*;
use vstd::string::StrSliceExecFns;

verus! {

/// Lexical class of a token.
#[derive(Clone, Copy, Debug, PartialEq, Eq, Structural)]
pub enum TokenKind {
    Word,
    QuotedString,
    Flag,
}

/// One token, tagged with the offset (in characters) of its first character
/// in the raw input, for error reporting. A quoted string's offset is that of
/// its opening quote and its text excludes the quotes; a flag's offset is
/// that of its first dash and its text excludes the leading dashes.
#[derive(Clone, Debug, PartialEq)]
pub struct Token {
    pub kind: TokenKind,
    pub text: String,
    pub offset: usize,
}

/// Mathematical model of a `Token`.
pub ghost struct TokenModel {
    pub kind: TokenKind,
    pub text: Seq<char>,
    pub offset: int,
}

impl View for Token {
    type V = TokenModel;

    open spec fn view(&self) -> TokenModel {
        TokenModel { kind: self.kind, text: self.text@, offset: self.offset as int }
    }
}

impl DeepView for Token {
    type V = TokenModel;

    open spec fn deep_view(&self) -> TokenModel {
        self.view()
    }
}

/// Scanning error: the input ended inside a quoted token; carries the offset
/// of the opening quote.
#[derive(Clone, Copy, Debug, PartialEq, Eq, Structural)]
pub enum ScanError {
    UnterminatedQuote(usize),
}

/// The characters the scanner splits tokens on.
pub open spec fn is_space_char(c: char) -> bool {
    c == ' ' || c == '\t' || c == '\n' || c == '\r'
}

/// The two quote characters; either encloses one token.
pub open spec fn is_quote_char(c: char) -> bool {
    c == '"' || c == '\''
}

/// First position at or after `i` holding a space, or the end of the input.
pub open spec fn word_end(s: Seq<char>, i: int) -> int
    decreases s.len() - i,
{
    if !(0 <= i < s.len()) {
        s.len() as int
    } else if is_space_char(s[i]) {
        i
    } else {
        word_end(s, i + 1)
    }
}

/// First position at or after `i` holding the closing quote `q`, or the end
/// of the input when the quote never closes.
pub open spec fn close_quote(s: Seq<char>, i: int, q: char) -> int
    decreases s.len() - i,
{
    if !(0 <= i < s.len()) {
        s.len() as int
    } else if s[i] == q {
        i
    } else {
        close_quote(s, i + 1, q)
    }
}

/// First position in `[i, e)` holding something other than a dash, or `e`.
pub open spec fn dash_end(s: Seq<char>, i: int, e: int) -> int
    decreases e - i,
{
    if !(0 <= i < e <= s.len()) {
        e
    } else if s[i] != '-' {
        i
    } else {
        dash_end(s, i + 1, e)
    }
}

pub proof fn lemma_word_end_bounds(s: Seq<char>, i: int)
    requires
        0 <= i <= s.len(),
    ensures
        i <= word_end(s, i) <= s.len(),
    decreases s.len() - i,
{
    if i < s.len() && !is_space_char(s[i]) {
        lemma_word_end_bounds(s, i + 1);
    }
}

pub proof fn lemma_close_quote_bounds(s: Seq<char>, i: int, q: char)
    requires
        0 <= i <= s.len(),
    ensures
        i <= close_quote(s, i, q) <= s.len(),
    decreases s.len() - i,
{
    if i < s.len() && s[i] != q {
        lemma_close_quote_bounds(s, i + 1, q);
    }
}

pub proof fn lemma_dash_end_bounds(s: Seq<char>, i: int, e: int)
    requires
        0 <= i <= e <= s.len(),
    ensures
        i <= dash_end(s, i, e) <= e,
    decreases e - i,
{
    if i < e && s[i] == '-' {
        lemma_dash_end_bounds(s, i + 1, e);
    }
}

/// What scanning yields from position `i` on: skip spaces; a quote opens a
/// quoted-string token reaching its matching close (or fails at the end of
/// input); a dash opens a flag whose leading dashes are stripped; anything
/// else opens a word reaching the next space.
pub open spec fn spec_scan_from(s: Seq<char>, i: int) -> Result<Seq<TokenModel>, int>
    decreases s.len() - i,
    via spec_scan_from_dec
{
    if !(0 <= i < s.len()) {
        Ok(Seq::<TokenModel>::empty())
    } else if is_space_char(s[i]) {
        spec_scan_from(s, i + 1)
    } else if is_quote_char(s[i]) {
        let e = close_quote(s, i + 1, s[i]);
        if e >= s.len() {
            Err(i)
        } else {
            match spec_scan_from(s, e + 1) {
                Ok(rest) => Ok(
                    seq![
                        TokenModel {
                            kind: TokenKind::QuotedString,
                            text: s.subrange(i + 1, e),
                            offset: i,
                        },
                    ] + rest,
                ),
                Err(x) => Err(x),
            }
        }
    } else if s[i] == '-' {
        let e = word_end(s, i);
        let t = dash_end(s, i, e);
        match spec_scan_from(s, e) {
            Ok(rest) => Ok(
                seq![TokenModel { kind: TokenKind::Flag, text: s.subrange(t, e), offset: i }]
                    + rest,
            ),
            Err(x) => Err(x),
        }
    } else {
        let e = word_end(s, i);
        match spec_scan_from(s, e) {
            Ok(rest) => Ok(
                seq![TokenModel { kind: TokenKind::Word, text: s.subrange(i, e), offset: i }]
                    + rest,
            ),
            Err(x) => Err(x),
        }
    }
}

#[via_fn]
proof fn spec_scan_from_dec(s: Seq<char>, i: int) {
    if 0 <= i < s.len() && !is_space_char(s[i]) {
        if is_quote_char(s[i]) {
            lemma_close_quote_bounds(s, i + 1, s[i]);
        } else {
            lemma_word_end_bounds(s, i + 1);
        }
    }
}

/// The token sequence of a whole input line, or the offset of an unclosed
/// quote.
pub open spec fn spec_scan(s: Seq<char>) -> Result<Seq<TokenModel>, int> {
    spec_scan_from(s, 0)
}

/// Already-emitted tokens joined with the outcome of scanning the rest.
pub open spec fn join_scan(pre: Seq<TokenModel>, r: Result<Seq<TokenModel>, int>) -> Result<
    Seq<TokenModel>,
    int,
> {
    match r {
        Ok(rest) => Ok(pre + rest),
        Err(x) => Err(x),
    }
}

/// Scanning is a pure function of the input line: scanning the same string a
/// second time yields the very same outcome, tokens and offsets alike.
pub proof fn lemma_scan_deterministic(
    s: Seq<char>,
    r1: Result<Seq<TokenModel>, int>,
    r2: Result<Seq<TokenModel>, int>,
)
    requires
        r1 == spec_scan(s),
        r2 == spec_scan(s),
    ensures
        r1 == r2,
{
}

/// Tokenizes one raw input line, exactly as `spec_scan` says.
pub fn scan(raw: &str) -> (r: Result<Vec<Token>, ScanError>)
    ensures
        match r {
            Ok(toks) => spec_scan(raw@) == Result::<Seq<TokenModel>, int>::Ok(toks.deep_view()),
            Err(ScanError::UnterminatedQuote(off)) => spec_scan(raw@) == Result::<
                Seq<TokenModel>,
                int,
            >::Err(off as int),
        },
{
    let ghost s = raw@;
    let n = raw.unicode_len();
    let mut toks: Vec<Token> = Vec::new();
    let mut i: usize = 0;
    proof {
        assert(toks.deep_view() =~= Seq::<TokenModel>::empty());
        assert(toks.deep_view() + Seq::<TokenModel>::empty() =~= toks.deep_view());
        if spec_scan_from(s, 0) is Ok {
            assert(toks.deep_view() + spec_scan_from(s, 0)->Ok_0 =~= spec_scan_from(s, 0)->Ok_0);
        }
    }
    while i < n
        invariant
            n == s.len(),
            s == raw@,
            i <= n,
            spec_scan(s) == join_scan(toks.deep_view(), spec_scan_from(s, i as int)),
        decreases n - i,
    {
        let c = raw.get_char(i);
        if c == ' ' || c == '\t' || c == '\n' || c == '\r' {
            proof {
                assert(spec_scan_from(s, i as int) == spec_scan_from(s, i as int + 1));
            }
            i = i + 1;
        } else if c == '"' || c == '\'' {
            let mut k = i + 1;
            proof {
                lemma_close_quote_bounds(s, i as int + 1, c);
            }
            while k < n
                invariant
                    n == s.len(),
                    s == raw@,
                    i < k <= n,
                    c == s[i as int],
                    close_quote(s, i as int + 1, c) == close_quote(s, k as int, c),
                ensures
                    k == n ==> close_quote(s, i as int + 1, c) == s.len(),
                    k < n ==> close_quote(s, i as int + 1, c) == k,
                decreases n - k,
            {
                let d = raw.get_char(k);
                if d == c {
                    proof {
                        assert(close_quote(s, k as int, c) == k);
                    }
                    break;
                }
                proof {
                    assert(close_quote(s, k as int, c) == close_quote(s, k as int + 1, c));
                }
                k = k + 1;
            }
            if k == n {
                proof {
                    assert(close_quote(s, k as int, c) == s.len());
                    assert(spec_scan_from(s, i as int) == Result::<Seq<TokenModel>, int>::Err(
                        i as int,
                    ));
                }
                return Err(ScanError::UnterminatedQuote(i));
            }
            proof {
                assert(close_quote(s, k as int, c) == k);
            }
            let text = raw.substring_char(i + 1, k).to_owned();
            let ghost toks0 = toks.deep_view();
            let ghost tm = TokenModel {
                kind: TokenKind::QuotedString,
                text: s.subrange(i as int + 1, k as int),
                offset: i as int,
            };
            toks.push(Token { kind: TokenKind::QuotedString, text, offset: i });
            proof {
                lemma_push_token(toks@, toks0, tm);
                lemma_join_step(s, i as int, k as int + 1, toks0, tm);
            }
            i = k + 1;
        } else {
            let mut e = i;
            proof {
                lemma_word_end_bounds(s, i as int);
            }
            while e < n
                invariant
                    n == s.len(),
                    s == raw@,
                    i <= e <= n,
                    word_end(s, i as int) == word_end(s, e as int),
                ensures
                    i <= e <= n,
                    word_end(s, i as int) == e,
                decreases n - e,
            {
                let d = raw.get_char(e);
                if d == ' ' || d == '\t' || d == '\n' || d == '\r' {
                    proof {
                        assert(word_end(s, e as int) == e);
                    }
                    break;
                }
                proof {
                    assert(word_end(s, e as int) == word_end(s, e as int + 1));
                }
                e = e + 1;
            }
            proof {
                assert(word_end(s, i as int) == word_end(s, i as int + 1));
                lemma_word_end_bounds(s, i as int + 1);
            }
            let ghost toks0 = toks.deep_view();
            if c == '-' {
                let mut t = i;
                proof {
                    lemma_dash_end_bounds(s, i as int, e as int);
                }
                while t < e
                    invariant
                        n == s.len(),
                        s == raw@,
                        i <= t <= e <= n,
                        dash_end(s, i as int, e as int) == dash_end(s, t as int, e as int),
                    ensures
                        i <= t <= e,
                        dash_end(s, i as int, e as int) == t,
                    decreases e - t,
                {
                    let d = raw.get_char(t);
                    if d != '-' {
                        proof {
                            assert(dash_end(s, t as int, e as int) == t);
                        }
                        break;
                    }
                    proof {
                        assert(dash_end(s, t as int, e as int) == dash_end(
                            s,
                            t as int + 1,
                            e as int,
                        ));
                    }
                    t = t + 1;
                }
                let text = raw.substring_char(t, e).to_owned();
                let ghost tm = TokenModel {
                    kind: TokenKind::Flag,
                    text: s.subrange(t as int, e as int),
                    offset: i as int,
                };
                toks.push(Token { kind: TokenKind::Flag, text, offset: i });
                proof {
                    lemma_push_token(toks@, toks0, tm);
                    lemma_join_step(s, i as int, e as int, toks0, tm);
                }
            } else {
                let text = raw.substring_char(i, e).to_owned();
                let ghost tm = TokenModel {
                    kind: TokenKind::Word,
                    text: s.subrange(i as int, e as int),
                    offset: i as int,
                };
                toks.push(Token { kind: TokenKind::Word, text, offset: i });
                proof {
                    lemma_push_token(toks@, toks0, tm);
                    lemma_join_step(s, i as int, e as int, toks0, tm);
                }
            }
            i = e;
        }
    }
    proof {
        assert(spec_scan_from(s, i as int) == Result::<Seq<TokenModel>, int>::Ok(
            Seq::<TokenModel>::empty(),
        ));
        assert(toks.deep_view() + Seq::<TokenModel>::empty() =~= toks.deep_view());
    }
    Ok(toks)
}

/// After a push, the emitted models are the old ones followed by the new one.
proof fn lemma_push_token(ts: Seq<Token>, pre: Seq<TokenModel>, tm: TokenModel)
    requires
        ts.len() == pre.len() + 1,
        forall|k: int| 0 <= k < pre.len() ==> #[trigger] ts[k]@ == pre[k],
        ts.last()@ == tm,
    ensures
        Seq::new(ts.len(), |k: int| ts[k].deep_view()) == pre + seq![tm],
{
    assert(Seq::new(ts.len(), |k: int| ts[k].deep_view()) =~= pre + seq![tm]);
}

/// One unfolding of the scan: emitting the token that starts at `i` and
/// continuing at `next` keeps the joined outcome unchanged.
proof fn lemma_join_step(s: Seq<char>, i: int, next: int, pre: Seq<TokenModel>, tm: TokenModel)
    requires
        spec_scan_from(s, i) == join_scan(seq![tm], spec_scan_from(s, next)),
        spec_scan(s) == join_scan(pre, spec_scan_from(s, i)),
    ensures
        spec_scan(s) == join_scan(pre + seq![tm], spec_scan_from(s, next)),
{
    let r = spec_scan_from(s, next);
    if r is Ok {
        assert(pre + (seq![tm] + r->Ok_0) =~= (pre + seq![tm]) + r->Ok_0);
    }
}

} // verus!
