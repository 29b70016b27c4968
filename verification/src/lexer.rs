//! The lexer: turns source text into an ordered token sequence terminated by
//! exactly one `EOF` sentinel.
//!
//! [`spec_tokenize`] is the mathematical description of the scan; the
//! executable [`tokenize`] is proved to produce exactly that sequence.  The
//! scan is total: it never fails.  Unrecognized characters are skipped, a
//! lone `!`, `&` or `|` is dropped, and an unterminated string literal yields
//! a token holding whatever was collected before the input ended.  A decimal
//! run whose value falls outside the `i64` range is clamped to the nearest
//! representable bound, so that scanning stays total on adversarial input.
use vstd::prelude::*;
use vstd::string::StrSliceExecFns;
use vstd::string::StringExecFns;

use crate::token::Token;
use crate::token::TokenView;
use crate::token::toks_view;

verus! {

/// Whitespace: consumed, emits nothing.
pub open spec fn is_whitespace_char(c: char) -> bool {
    c == ' ' || c == '\t' || c == '\n'
}

/// A decimal digit.
pub open spec fn is_digit_char(c: char) -> bool {
    '0' <= c && c <= '9'
}

/// A character that may start an identifier or keyword run.
pub open spec fn is_ident_start_char(c: char) -> bool {
    ('a' <= c && c <= 'z') || ('A' <= c && c <= 'Z') || c == '_'
}

/// A character that may continue an identifier or keyword run.
pub open spec fn is_ident_char(c: char) -> bool {
    is_ident_start_char(c) || is_digit_char(c)
}

/// The identifier-run predicate, as a single function value so that every
/// use of `scan_len` over it speaks of the same function.
pub open spec fn ident_pred() -> spec_fn(char) -> bool {
    |c: char| is_ident_char(c)
}

/// The digit-run predicate.
pub open spec fn digit_pred() -> spec_fn(char) -> bool {
    |c: char| is_digit_char(c)
}

/// The string-body predicate: any character but the closing quote.
pub open spec fn nonquote_pred() -> spec_fn(char) -> bool {
    |c: char| c != '"'
}

/// Length of the run of characters satisfying `p` that starts at `i`.
pub open spec fn scan_len(s: Seq<char>, i: int, p: spec_fn(char) -> bool) -> nat
    decreases s.len() - i,
{
    if i < 0 || i >= s.len() || !p(s[i]) {
        0
    } else {
        1 + scan_len(s, i + 1, p)
    }
}

/// A run starting inside the text ends inside the text.
pub proof fn lemma_scan_len_bounds(s: Seq<char>, i: int, p: spec_fn(char) -> bool)
    requires
        0 <= i <= s.len(),
    ensures
        i + scan_len(s, i, p) <= s.len(),
    decreases s.len() - i,
{
    if i < s.len() && p(s[i]) {
        lemma_scan_len_bounds(s, i + 1, p);
    }
}

/// `scan_len` is exactly `n` when the `n` characters from `i` satisfy `p`
/// and the run is then closed by the end of text or a failing character.
pub proof fn lemma_scan_len_is(s: Seq<char>, i: int, p: spec_fn(char) -> bool, n: nat)
    requires
        0 <= i,
        i + n <= s.len(),
        forall|k: int| i <= k < i + n ==> p(s[k]),
        i + n == s.len() || !p(s[i + n]),
    ensures
        scan_len(s, i, p) == n,
    decreases n,
{
    if n > 0 {
        assert(p(s[i]));
        lemma_scan_len_is(s, i + 1, p, (n - 1) as nat);
    }
}

/// Every character of a run satisfies its predicate, and the run is closed
/// by the end of text or by a failing character.
pub proof fn lemma_scan_len_chars(s: Seq<char>, i: int, p: spec_fn(char) -> bool)
    requires
        0 <= i <= s.len(),
    ensures
        i + scan_len(s, i, p) <= s.len(),
        forall|k: int| i <= k < i + scan_len(s, i, p) ==> p(#[trigger] s[k]),
        i + scan_len(s, i, p) == s.len() || !p(s[i + scan_len(s, i, p)]),
    decreases s.len() - i,
{
    if i < s.len() && p(s[i]) {
        lemma_scan_len_chars(s, i + 1, p);
    }
}

/// A run is unmoved by cutting the text off in front of it.
pub proof fn lemma_scan_len_shift(s: Seq<char>, i: int, d: int, p: spec_fn(char) -> bool)
    requires
        0 <= i,
        0 <= d,
        i + d <= s.len(),
    ensures
        scan_len(s, i + d, p) == scan_len(s.skip(i), d, p),
    decreases s.len() - i - d,
{
    assert(s.skip(i).len() == s.len() - i);
    if i + d < s.len() {
        assert(s.skip(i)[d] == s[i + d]);
        if p(s[i + d]) {
            lemma_scan_len_shift(s, i, d + 1, p);
        }
    }
}

/// The value of the decimal digit `c`.
pub open spec fn digit_val(c: char) -> int {
    c as int - '0' as int
}

/// The numeric value of a run of decimal digits.
pub open spec fn digits_val(ds: Seq<char>) -> int
    decreases ds.len(),
{
    if ds.len() == 0 {
        0
    } else {
        digits_val(ds.drop_last()) * 10 + digit_val(ds.last())
    }
}

/// A digit run never has a negative value.
pub proof fn lemma_digits_val_nonneg(ds: Seq<char>)
    requires
        forall|k: int| 0 <= k < ds.len() ==> is_digit_char(#[trigger] ds[k]),
    ensures
        digits_val(ds) >= 0,
    decreases ds.len(),
{
    if ds.len() > 0 {
        lemma_digits_val_nonneg(ds.drop_last());
    }
}

/// Clamps an unbounded integer into the `i64` range.
pub open spec fn clamp_i64(v: int) -> int {
    if v > i64::MAX {
        i64::MAX as int
    } else if v < i64::MIN {
        i64::MIN as int
    } else {
        v
    }
}

/// A nonnegative magnitude clamped to `2^63`, the largest magnitude a signed
/// 64-bit number can carry.
pub open spec fn clamp_mag(v: int) -> int {
    if v >= 0x8000_0000_0000_0000 {
        0x8000_0000_0000_0000
    } else {
        v
    }
}

/// The token an identifier-or-keyword run denotes.
pub open spec fn word_token(word: Seq<char>) -> TokenView {
    if word == "True"@ {
        TokenView::Boolean(true)
    } else if word == "False"@ {
        TokenView::Boolean(false)
    } else {
        TokenView::Identifier(word)
    }
}

/// The token sequence scanned from position `i` to the end of `s`,
/// terminated by the `EOF` sentinel.  One branch per lexical rule, in the
/// priority order of the scan.
pub open spec fn spec_scan(s: Seq<char>, i: int) -> Seq<TokenView>
    decreases s.len() - i,
{
    if i < 0 || i >= s.len() {
        seq![TokenView::EOF]
    } else {
        let c = s[i];
        if is_whitespace_char(c) {
            spec_scan(s, i + 1)
        } else if is_ident_start_char(c) {
            let n = scan_len(s, i, ident_pred());
            proof {
                lemma_scan_len_bounds(s, i, ident_pred());
            }
            seq![word_token(s.subrange(i, i + n))] + spec_scan(s, i + n)
        } else if c == '"' {
            let m = scan_len(s, i + 1, nonquote_pred());
            proof {
                lemma_scan_len_bounds(s, i + 1, nonquote_pred());
            }
            let content = s.subrange(i + 1, i + 1 + m);
            let close = i + 1 + m;
            if close < s.len() {
                seq![TokenView::StringLiteral(content)] + spec_scan(s, close + 1)
            } else {
                seq![TokenView::StringLiteral(content)] + spec_scan(s, close)
            }
        } else if is_digit_char(c) {
            let n = scan_len(s, i, digit_pred());
            proof {
                lemma_scan_len_bounds(s, i, digit_pred());
            }
            let v = clamp_i64(digits_val(s.subrange(i, i + n)));
            seq![TokenView::Number(v)] + spec_scan(s, i + n)
        } else if c == '-' {
            if i + 1 < s.len() && is_digit_char(s[i + 1]) {
                let n = scan_len(s, i + 1, digit_pred());
                proof {
                    lemma_scan_len_bounds(s, i + 1, digit_pred());
                }
                let v = clamp_i64(-digits_val(s.subrange(i + 1, i + 1 + n)));
                seq![TokenView::Number(v)] + spec_scan(s, i + 1 + n)
            } else {
                seq![TokenView::Operator("-"@)] + spec_scan(s, i + 1)
            }
        } else if c == '+' {
            seq![TokenView::Operator("+"@)] + spec_scan(s, i + 1)
        } else if c == '%' {
            seq![TokenView::Operator("%"@)] + spec_scan(s, i + 1)
        } else if c == '*' {
            if i + 1 < s.len() && s[i + 1] == '*' {
                seq![TokenView::Operator("**"@)] + spec_scan(s, i + 2)
            } else {
                seq![TokenView::Operator("*"@)] + spec_scan(s, i + 1)
            }
        } else if c == '/' {
            if i + 1 < s.len() && s[i + 1] == '/' {
                seq![TokenView::Operator("//"@)] + spec_scan(s, i + 2)
            } else {
                seq![TokenView::Operator("/"@)] + spec_scan(s, i + 1)
            }
        } else if c == '=' {
            if i + 1 < s.len() && s[i + 1] == '=' {
                seq![TokenView::Operator("=="@)] + spec_scan(s, i + 2)
            } else {
                seq![TokenView::Assign] + spec_scan(s, i + 1)
            }
        } else if c == '!' {
            if i + 1 < s.len() && s[i + 1] == '=' {
                seq![TokenView::Operator("!="@)] + spec_scan(s, i + 2)
            } else {
                spec_scan(s, i + 1)
            }
        } else if c == '<' {
            if i + 1 < s.len() && s[i + 1] == '=' {
                seq![TokenView::Operator("<="@)] + spec_scan(s, i + 2)
            } else {
                seq![TokenView::Operator("<"@)] + spec_scan(s, i + 1)
            }
        } else if c == '>' {
            if i + 1 < s.len() && s[i + 1] == '=' {
                seq![TokenView::Operator(">="@)] + spec_scan(s, i + 2)
            } else {
                seq![TokenView::Operator(">"@)] + spec_scan(s, i + 1)
            }
        } else if c == '&' {
            if i + 1 < s.len() && s[i + 1] == '&' {
                seq![TokenView::Operator("&&"@)] + spec_scan(s, i + 2)
            } else {
                spec_scan(s, i + 1)
            }
        } else if c == '|' {
            if i + 1 < s.len() && s[i + 1] == '|' {
                seq![TokenView::Operator("||"@)] + spec_scan(s, i + 2)
            } else {
                spec_scan(s, i + 1)
            }
        } else if c == '(' {
            seq![TokenView::OpenParen] + spec_scan(s, i + 1)
        } else if c == ')' {
            seq![TokenView::CloseParen] + spec_scan(s, i + 1)
        } else {
            spec_scan(s, i + 1)
        }
    }
}

/// The full scan of a text: its token sequence, `EOF` included.
pub open spec fn spec_tokenize(s: Seq<char>) -> Seq<TokenView> {
    spec_scan(s, 0)
}

/// Scanning from position `i` is scanning the text cut off at `i` from its
/// start: the scan never looks behind the cursor.
pub proof fn lemma_scan_shift(s: Seq<char>, i: int)
    requires
        0 <= i <= s.len(),
    ensures
        spec_scan(s, i) == spec_scan(s.skip(i), 0),
    decreases s.len() - i,
{
    let u = s.skip(i);
    assert(u.len() == s.len() - i);
    assert(forall|k: int| 0 <= k < u.len() ==> u[k] == s[k + i]);
    if i >= s.len() {
    } else {
        let c = s[i];
        assert(u[0] == c);
        if is_whitespace_char(c) {
            lemma_scan_shift(s, i + 1);
            assert(s.skip(i + 1) =~= u.skip(1));
            lemma_scan_shift(u, 1);
        } else if is_ident_start_char(c) {
            lemma_scan_len_shift(s, i, 0, ident_pred());
            let n = scan_len(s, i, ident_pred()) as int;
            lemma_scan_len_bounds(s, i, ident_pred());
            assert(s.subrange(i, i + n) =~= u.subrange(0, n));
            lemma_scan_shift(s, i + n);
            assert(s.skip(i + n) =~= u.skip(n));
            lemma_scan_shift(u, n);
        } else if c == '"' {
            lemma_scan_len_shift(s, i, 1, nonquote_pred());
            let m = scan_len(s, i + 1, nonquote_pred()) as int;
            lemma_scan_len_bounds(s, i + 1, nonquote_pred());
            assert(s.subrange(i + 1, i + 1 + m) =~= u.subrange(1, 1 + m));
            let close = i + 1 + m;
            if close < s.len() {
                lemma_scan_shift(s, close + 1);
                assert(s.skip(close + 1) =~= u.skip(2 + m));
                lemma_scan_shift(u, 2 + m);
            } else {
                lemma_scan_shift(s, close);
                assert(s.skip(close) =~= u.skip(1 + m));
                lemma_scan_shift(u, 1 + m);
            }
        } else if is_digit_char(c) {
            lemma_scan_len_shift(s, i, 0, digit_pred());
            let n = scan_len(s, i, digit_pred()) as int;
            lemma_scan_len_bounds(s, i, digit_pred());
            assert(s.subrange(i, i + n) =~= u.subrange(0, n));
            lemma_scan_shift(s, i + n);
            assert(s.skip(i + n) =~= u.skip(n));
            lemma_scan_shift(u, n);
        } else if c == '-' {
            if i + 1 < s.len() && is_digit_char(s[i + 1]) {
                assert(u[1] == s[i + 1]);
                lemma_scan_len_shift(s, i, 1, digit_pred());
                let n = scan_len(s, i + 1, digit_pred()) as int;
                lemma_scan_len_bounds(s, i + 1, digit_pred());
                assert(s.subrange(i + 1, i + 1 + n) =~= u.subrange(1, 1 + n));
                lemma_scan_shift(s, i + 1 + n);
                assert(s.skip(i + 1 + n) =~= u.skip(1 + n));
                lemma_scan_shift(u, 1 + n);
            } else {
                lemma_scan_shift(s, i + 1);
                assert(s.skip(i + 1) =~= u.skip(1));
                lemma_scan_shift(u, 1);
            }
        } else {
            // the remaining rules consume one or two characters
            let two = i + 1 < s.len() && ((c == '*' && s[i + 1] == '*') || (c == '/' && s[i + 1]
                == '/') || (c == '=' && s[i + 1] == '=') || (c == '!' && s[i + 1] == '=') || (c
                == '<' && s[i + 1] == '=') || (c == '>' && s[i + 1] == '=') || (c == '&' && s[i + 1]
                == '&') || (c == '|' && s[i + 1] == '|'));
            if i + 1 < s.len() {
                assert(u[1] == s[i + 1]);
            }
            if two {
                lemma_scan_shift(s, i + 2);
                assert(s.skip(i + 2) =~= u.skip(2));
                lemma_scan_shift(u, 2);
            } else {
                lemma_scan_shift(s, i + 1);
                assert(s.skip(i + 1) =~= u.skip(1));
                lemma_scan_shift(u, 1);
            }
        }
    }
}

proof fn lemma_toks_view_push(ts: Seq<Token>, t: Token)
    ensures
        toks_view(ts.push(t)) == toks_view(ts).push(t@),
{
    assert(toks_view(ts.push(t)) =~= toks_view(ts).push(t@));
}

/// Appending the token that the scan emits at `i` keeps the whole scan equal
/// to the tokens collected so far plus the scan of the rest.
proof fn lemma_emit_step(
    s: Seq<char>,
    i: int,
    next: int,
    full: Seq<TokenView>,
    pre: Seq<Token>,
    t: Token,
)
    requires
        full == toks_view(pre) + spec_scan(s, i),
        spec_scan(s, i) == seq![t@] + spec_scan(s, next),
    ensures
        full == toks_view(pre.push(t)) + spec_scan(s, next),
{
    lemma_toks_view_push(pre, t);
    assert(toks_view(pre.push(t)) + spec_scan(s, next) =~= toks_view(pre) + (seq![t@]
        + spec_scan(s, next)));
}

fn at_ident_char(input: &str, j: usize, n: usize) -> (r: bool)
    requires
        n == input@.len(),
    ensures
        r == (j < n && is_ident_char(input@[j as int])),
{
    if j < n {
        let c = input.get_char(j);
        (c >= 'a' && c <= 'z') || (c >= 'A' && c <= 'Z') || c == '_' || (c >= '0' && c <= '9')
    } else {
        false
    }
}

fn at_digit(input: &str, j: usize, n: usize) -> (r: bool)
    requires
        n == input@.len(),
    ensures
        r == (j < n && is_digit_char(input@[j as int])),
{
    if j < n {
        let c = input.get_char(j);
        c >= '0' && c <= '9'
    } else {
        false
    }
}

fn at_nonquote(input: &str, j: usize, n: usize) -> (r: bool)
    requires
        n == input@.len(),
    ensures
        r == (j < n && input@[j as int] != '"'),
{
    if j < n {
        input.get_char(j) != '"'
    } else {
        false
    }
}

/// Scans an identifier-or-keyword run and builds its token.
#[verifier::loop_isolation(false)]
fn lex_word(input: &str, i: usize, n: usize) -> (r: (Token, usize))
    requires
        n == input@.len(),
        i < n,
        is_ident_start_char(input@[i as int]),
    ensures
        spec_scan(input@, i as int) == seq![r.0@] + spec_scan(input@, r.1 as int),
        i < r.1 <= n,
{
    let ghost s = input@;
    let mut j: usize = i;
    while at_ident_char(input, j, n)
        invariant
            i <= j <= n,
            forall|k: int| i <= k < j ==> is_ident_char(#[trigger] s[k]),
        decreases n - j,
    {
        j = j + 1;
    }
    proof {
        lemma_scan_len_is(s, i as int, ident_pred(), (j - i) as nat);
    }
    let word = input.substring_char(i, j).to_owned();
    let tok = if word == String::from_str("True") {
        Token::Boolean(true)
    } else if word == String::from_str("False") {
        Token::Boolean(false)
    } else {
        Token::Identifier(word)
    };
    (tok, j)
}

/// Scans a string literal: the text between two double quotes, or, when no
/// closing quote follows, everything up to the end of input.
#[verifier::loop_isolation(false)]
fn lex_string(input: &str, i: usize, n: usize) -> (r: (Token, usize))
    requires
        n == input@.len(),
        i < n,
        input@[i as int] == '"',
    ensures
        spec_scan(input@, i as int) == seq![r.0@] + spec_scan(input@, r.1 as int),
        i < r.1 <= n,
{
    let ghost s = input@;
    let mut j: usize = i + 1;
    while at_nonquote(input, j, n)
        invariant
            i + 1 <= j <= n,
            forall|k: int| i + 1 <= k < j ==> #[trigger] s[k] != '"',
        decreases n - j,
    {
        j = j + 1;
    }
    proof {
        lemma_scan_len_is(s, i + 1, nonquote_pred(), (j - (i + 1)) as nat);
    }
    let content = input.substring_char(i + 1, j).to_owned();
    let next = if j < n {
        j + 1
    } else {
        j
    };
    (Token::StringLiteral(content), next)
}

/// Scans a run of decimal digits; returns its magnitude, clamped to `2^63`,
/// and the position just past the run.
#[verifier::loop_isolation(false)]
fn lex_digit_run(input: &str, d: usize, n: usize) -> (r: (u64, usize))
    requires
        n == input@.len(),
        d < n,
        is_digit_char(input@[d as int]),
    ensures
        d < r.1 <= n,
        r.1 - d == scan_len(input@, d as int, digit_pred()),
        r.0 == clamp_mag(digits_val(input@.subrange(d as int, r.1 as int))),
        digits_val(input@.subrange(d as int, r.1 as int)) >= 0,
{
    let ghost s = input@;
    let mut j: usize = d;
    let mut acc: u128 = 0;
    proof {
        assert(s.subrange(d as int, d as int) =~= Seq::<char>::empty());
    }
    while at_digit(input, j, n)
        invariant
            d <= j <= n,
            forall|k: int| d <= k < j ==> is_digit_char(#[trigger] s[k]),
            acc == clamp_mag(digits_val(s.subrange(d as int, j as int))),
            digits_val(s.subrange(d as int, j as int)) >= 0,
        decreases n - j,
    {
        let c = input.get_char(j);
        let dv: u32 = c as u32 - '0' as u32;
        let t: u128 = if acc >= 0x8000_0000_0000_0000 {
            0x8000_0000_0000_0000
        } else {
            acc * 10 + dv as u128
        };
        acc = if t >= 0x8000_0000_0000_0000 {
            0x8000_0000_0000_0000
        } else {
            t
        };
        proof {
            let pre = s.subrange(d as int, j as int);
            let post = s.subrange(d as int, j + 1);
            assert(post.drop_last() =~= pre);
            assert(post.last() == s[j as int]);
            assert(digits_val(post) == digits_val(pre) * 10 + digit_val(s[j as int]));
        }
        j = j + 1;
    }
    proof {
        lemma_scan_len_is(s, d as int, digit_pred(), (j - d) as nat);
    }
    (acc as u64, j)
}

/// Converts source text into its token sequence.
///
/// Total: every text scans to a sequence of tokens ending in one `EOF`
/// sentinel, exactly the sequence that [`spec_tokenize`] describes.
#[verifier::loop_isolation(false)]
pub fn tokenize(input: &str) -> (tokens: Vec<Token>)
    ensures
        toks_view(tokens@) == spec_tokenize(input@),
{
    let ghost s = input@;
    let n = input.unicode_len();
    let mut tokens: Vec<Token> = Vec::new();
    let mut i: usize = 0;
    while i < n
        invariant
            i <= n,
            spec_tokenize(s) == toks_view(tokens@) + spec_scan(s, i as int),
        decreases n - i,
    {
        let ghost pre = tokens@;
        let c = input.get_char(i);
        if c == ' ' || c == '\t' || c == '\n' {
            i = i + 1;
        } else if (c >= 'a' && c <= 'z') || (c >= 'A' && c <= 'Z') || c == '_' {
            let (tok, next) = lex_word(input, i, n);
            proof {
                lemma_emit_step(s, i as int, next as int, spec_tokenize(s), pre, tok);
            }
            tokens.push(tok);
            i = next;
        } else if c == '"' {
            let (tok, next) = lex_string(input, i, n);
            proof {
                lemma_emit_step(s, i as int, next as int, spec_tokenize(s), pre, tok);
            }
            tokens.push(tok);
            i = next;
        } else if c >= '0' && c <= '9' {
            let (m, next) = lex_digit_run(input, i, n);
            let v: i64 = if m >= 0x8000_0000_0000_0000 {
                i64::MAX
            } else {
                m as i64
            };
            let tok = Token::Number(v);
            proof {
                lemma_emit_step(s, i as int, next as int, spec_tokenize(s), pre, tok);
            }
            tokens.push(tok);
            i = next;
        } else if c == '-' {
            if at_digit(input, i + 1, n) {
                let (m, next) = lex_digit_run(input, i + 1, n);
                let v: i64 = if m >= 0x8000_0000_0000_0000 {
                    i64::MIN
                } else {
                    -(m as i64)
                };
                let tok = Token::Number(v);
                proof {
                    lemma_emit_step(s, i as int, next as int, spec_tokenize(s), pre, tok);
                }
                tokens.push(tok);
                i = next;
            } else {
                let tok = Token::Operator(String::from_str("-"));
                proof {
                    lemma_emit_step(s, i as int, i + 1, spec_tokenize(s), pre, tok);
                }
                tokens.push(tok);
                i = i + 1;
            }
        } else if c == '+' || c == '%' {
            let tok = if c == '+' {
                Token::Operator(String::from_str("+"))
            } else {
                Token::Operator(String::from_str("%"))
            };
            proof {
                lemma_emit_step(s, i as int, i + 1, spec_tokenize(s), pre, tok);
            }
            tokens.push(tok);
            i = i + 1;
        } else if c == '*' || c == '/' || c == '=' || c == '<' || c == '>' {
            let twin = if i + 1 < n {
                let c2 = input.get_char(i + 1);
                (c == '*' && c2 == '*') || (c == '/' && c2 == '/') || ((c == '=' || c == '<' || c
                    == '>') && c2 == '=')
            } else {
                false
            };
            let tok = if c == '*' {
                if twin {
                    Token::Operator(String::from_str("**"))
                } else {
                    Token::Operator(String::from_str("*"))
                }
            } else if c == '/' {
                if twin {
                    Token::Operator(String::from_str("//"))
                } else {
                    Token::Operator(String::from_str("/"))
                }
            } else if c == '=' {
                if twin {
                    Token::Operator(String::from_str("=="))
                } else {
                    Token::Assign
                }
            } else if c == '<' {
                if twin {
                    Token::Operator(String::from_str("<="))
                } else {
                    Token::Operator(String::from_str("<"))
                }
            } else {
                if twin {
                    Token::Operator(String::from_str(">="))
                } else {
                    Token::Operator(String::from_str(">"))
                }
            };
            let next = if twin {
                i + 2
            } else {
                i + 1
            };
            proof {
                lemma_emit_step(s, i as int, next as int, spec_tokenize(s), pre, tok);
            }
            tokens.push(tok);
            i = next;
        } else if c == '!' || c == '&' || c == '|' {
            let wanted = if c == '!' {
                '='
            } else {
                c
            };
            let twin = if i + 1 < n {
                input.get_char(i + 1) == wanted
            } else {
                false
            };
            if twin {
                let tok = if c == '!' {
                    Token::Operator(String::from_str("!="))
                } else if c == '&' {
                    Token::Operator(String::from_str("&&"))
                } else {
                    Token::Operator(String::from_str("||"))
                };
                proof {
                    lemma_emit_step(s, i as int, i + 2, spec_tokenize(s), pre, tok);
                }
                tokens.push(tok);
                i = i + 2;
            } else {
                i = i + 1;
            }
        } else if c == '(' {
            let tok = Token::OpenParen;
            proof {
                lemma_emit_step(s, i as int, i + 1, spec_tokenize(s), pre, tok);
            }
            tokens.push(tok);
            i = i + 1;
        } else if c == ')' {
            let tok = Token::CloseParen;
            proof {
                lemma_emit_step(s, i as int, i + 1, spec_tokenize(s), pre, tok);
            }
            tokens.push(tok);
            i = i + 1;
        } else {
            i = i + 1;
        }
    }
    let ghost pre = tokens@;
    tokens.push(Token::EOF);
    proof {
        lemma_toks_view_push(pre, Token::EOF);
        assert(toks_view(tokens@) =~= toks_view(pre) + seq![TokenView::EOF]);
    }
    tokens
}

} // verus!
