//! Rendering a token sequence back to source text, and the round-trip law:
//! re-tokenizing the rendered text of any scan yields the same token
//! sequence — tokens lose no information.
//!
//! Tokens are rendered separated by single spaces, numbers in decimal,
//! string literals between their quotes; the `EOF` sentinel renders as
//! nothing, and [`tokenize`](crate::lexer::tokenize) puts it back.
use vstd::prelude::*;
use vstd::string::StringExecFns;

use crate::lexer::clamp_i64;
use crate::lexer::digit_pred;
use crate::lexer::digit_val;
use crate::lexer::digits_val;
use crate::lexer::ident_pred;
use crate::lexer::is_digit_char;
use crate::lexer::is_ident_char;
use crate::lexer::is_ident_start_char;
use crate::lexer::is_whitespace_char;
use crate::lexer::lemma_scan_len_chars;
use crate::lexer::lemma_scan_len_is;
use crate::lexer::lemma_scan_shift;
use crate::lexer::nonquote_pred;
use crate::lexer::scan_len;
use crate::lexer::spec_scan;
use crate::lexer::spec_tokenize;
use crate::lexer::word_token;
use crate::token::Token;
use crate::token::TokenView;
use crate::token::toks_view;

verus! {

/// One of the fifteen operator symbols of the language.
pub open spec fn is_op_symbol(s: Seq<char>) -> bool {
    ||| s == "+"@
    ||| s == "-"@
    ||| s == "*"@
    ||| s == "/"@
    ||| s == "%"@
    ||| s == "**"@
    ||| s == "//"@
    ||| s == "=="@
    ||| s == "!="@
    ||| s == "<"@
    ||| s == "<="@
    ||| s == ">"@
    ||| s == ">="@
    ||| s == "&&"@
    ||| s == "||"@
}

/// A well-formed interior token: one that the lexer itself can produce
/// before the final sentinel.  The `EOF` sentinel is not an interior token.
pub open spec fn wf_token(tok: TokenView) -> bool {
    match tok {
        TokenView::Number(n) => i64::MIN <= n <= i64::MAX,
        TokenView::Identifier(name) => {
            &&& name.len() >= 1
            &&& is_ident_start_char(name[0])
            &&& forall|k: int| 0 <= k < name.len() ==> is_ident_char(#[trigger] name[k])
            &&& name != "True"@
            &&& name != "False"@
        },
        TokenView::Operator(s) => is_op_symbol(s),
        TokenView::StringLiteral(s) => forall|k: int| 0 <= k < s.len() ==> #[trigger] s[k] != '"',
        TokenView::Boolean(_) => true,
        TokenView::OpenParen => true,
        TokenView::CloseParen => true,
        TokenView::Assign => true,
        TokenView::EOF => false,
    }
}

/// The decimal digit character for a value below ten.
pub open spec fn digit_char(d: int) -> char
    recommends
        0 <= d <= 9,
{
    if d == 0 {
        '0'
    } else if d == 1 {
        '1'
    } else if d == 2 {
        '2'
    } else if d == 3 {
        '3'
    } else if d == 4 {
        '4'
    } else if d == 5 {
        '5'
    } else if d == 6 {
        '6'
    } else if d == 7 {
        '7'
    } else if d == 8 {
        '8'
    } else {
        '9'
    }
}

/// The decimal digits of a nonnegative number, most significant first.
pub open spec fn dec_digits(n: int) -> Seq<char>
    recommends
        n >= 0,
    decreases n,
{
    if n < 10 {
        seq![digit_char(n)]
    } else {
        dec_digits(n / 10) + seq![digit_char(n % 10)]
    }
}

/// The decimal digits of a nonnegative number are a nonempty digit run
/// whose numeric value is the number itself.
pub proof fn lemma_dec_digits(n: int)
    requires
        n >= 0,
    ensures
        dec_digits(n).len() >= 1,
        forall|k: int|
            0 <= k < dec_digits(n).len() ==> is_digit_char(#[trigger] dec_digits(n)[k]),
        digits_val(dec_digits(n)) == n,
    decreases n,
{
    if n < 10 {
        assert(digits_val(dec_digits(n)) == digits_val(Seq::<char>::empty()) * 10 + digit_val(
            digit_char(n),
        )) by {
            assert(dec_digits(n).drop_last() =~= Seq::<char>::empty());
        }
    } else {
        lemma_dec_digits(n / 10);
        let w = dec_digits(n / 10);
        let d = digit_char(n % 10);
        assert((w + seq![d]).drop_last() =~= w);
        assert(digits_val(w + seq![d]) == digits_val(w) * 10 + digit_val(d));
        assert(digit_val(d) == n % 10);
    }
}

/// The text of one token.
pub open spec fn render_token(tok: TokenView) -> Seq<char> {
    match tok {
        TokenView::Number(n) => if n < 0 {
            seq!['-'] + dec_digits(-n)
        } else {
            dec_digits(n)
        },
        TokenView::Identifier(name) => name,
        TokenView::Operator(s) => s,
        TokenView::StringLiteral(s) => seq!['"'] + s + seq!['"'],
        TokenView::Boolean(b) => if b {
            "True"@
        } else {
            "False"@
        },
        TokenView::OpenParen => seq!['('],
        TokenView::CloseParen => seq![')'],
        TokenView::Assign => seq!['='],
        TokenView::EOF => Seq::empty(),
    }
}

/// The text of a token sequence: each token's text followed by one space.
pub open spec fn spec_render(ts: Seq<TokenView>) -> Seq<char>
    decreases ts.len(),
{
    if ts.len() == 0 {
        Seq::empty()
    } else {
        render_token(ts[0]) + seq![' '] + spec_render(ts.skip(1))
    }
}

/// Rendering distributes over concatenation.
pub proof fn lemma_render_append(a: Seq<TokenView>, b: Seq<TokenView>)
    ensures
        spec_render(a + b) == spec_render(a) + spec_render(b),
    decreases a.len(),
{
    if a.len() == 0 {
        assert(a + b =~= b);
        assert(spec_render(a) + spec_render(b) =~= spec_render(b));
    } else {
        lemma_render_append(a.skip(1), b);
        assert((a + b).skip(1) =~= a.skip(1) + b);
        assert((a + b)[0] == a[0]);
        assert(spec_render(a + b) =~= spec_render(a) + spec_render(b));
    }
}

/// After a token's text and its separating space, the scan continues as a
/// fresh scan of the rest.
proof fn lemma_scan_after_space(x: Seq<char>, l: int, rest: Seq<char>)
    requires
        0 <= l,
        x.len() == l + 1 + rest.len(),
        x[l] == ' ',
        x.skip(l + 1) == rest,
    ensures
        spec_scan(x, l) == spec_scan(rest, 0),
{
    lemma_scan_shift(x, l + 1);
}

/// Scanning the text of one well-formed number token yields that token and
/// then the scan of the rest.
proof fn lemma_scan_number(n: int, rest: Seq<char>)
    requires
        i64::MIN <= n <= i64::MAX,
    ensures
        spec_scan(render_token(TokenView::Number(n)) + seq![' '] + rest, 0) == seq![
            TokenView::Number(n),
        ] + spec_scan(rest, 0),
{
    let w = render_token(TokenView::Number(n));
    let x = w + seq![' '] + rest;
    let l = w.len() as int;
    assert(x[l] == ' ');
    assert(x.skip(l + 1) =~= rest);
    if n >= 0 {
        lemma_dec_digits(n);
        assert(x[0] == dec_digits(n)[0]);
        assert(forall|k: int| 0 <= k < l ==> x[k] == dec_digits(n)[k]);
        lemma_scan_len_is(x, 0, digit_pred(), l as nat);
        assert(x.subrange(0, l) =~= dec_digits(n));
        assert(clamp_i64(digits_val(x.subrange(0, l))) == n);
        lemma_scan_after_space(x, l, rest);
    } else {
        lemma_dec_digits(-n);
        let d = dec_digits(-n);
        assert(x[0] == '-');
        assert(x[1] == d[0]);
        assert(forall|k: int| 0 <= k < d.len() ==> x[1 + k] == d[k]);
        lemma_scan_len_is(x, 1, digit_pred(), d.len());
        assert(x.subrange(1, 1 + d.len() as int) =~= d);
        assert(clamp_i64(-digits_val(x.subrange(1, 1 + d.len() as int))) == n);
        lemma_scan_after_space(x, l, rest);
    }
}

/// Scanning the text of a well-formed identifier, or of a boolean keyword,
/// yields that token and then the scan of the rest.
proof fn lemma_scan_word(tok: TokenView, rest: Seq<char>)
    requires
        wf_token(tok),
        tok is Identifier || tok is Boolean,
    ensures
        spec_scan(render_token(tok) + seq![' '] + rest, 0) == seq![tok] + spec_scan(rest, 0),
{
    reveal_strlit("True");
    reveal_strlit("False");
    let w = render_token(tok);
    let x = w + seq![' '] + rest;
    let l = w.len() as int;
    assert(x[l] == ' ');
    assert(x.skip(l + 1) =~= rest);
    assert(forall|k: int| 0 <= k < l ==> x[k] == w[k]);
    match tok {
        TokenView::Identifier(name) => {
            assert(is_ident_start_char(x[0]));
            lemma_scan_len_is(x, 0, ident_pred(), l as nat);
            assert(x.subrange(0, l) =~= name);
            assert(word_token(name) == tok);
        },
        TokenView::Boolean(b) => {
            if b {
                assert(w == "True"@);
                assert(w.len() == 4 && w[0] == 'T' && w[1] == 'r' && w[2] == 'u' && w[3] == 'e');
            } else {
                assert(w == "False"@);
                assert(w.len() == 5 && w[0] == 'F' && w[1] == 'a' && w[2] == 'l' && w[3] == 's'
                    && w[4] == 'e');
            }
            assert(is_ident_start_char(x[0]));
            assert(forall|k: int| 0 <= k < l ==> is_ident_char(#[trigger] x[k]));
            lemma_scan_len_is(x, 0, ident_pred(), l as nat);
            assert(x.subrange(0, l) =~= w);
            assert(word_token(w) == tok);
        },
        _ => {},
    }
    lemma_scan_after_space(x, l, rest);
}

/// Scanning the text of a well-formed string literal yields that token and
/// then the scan of the rest.
proof fn lemma_scan_string(sv: Seq<char>, rest: Seq<char>)
    requires
        forall|k: int| 0 <= k < sv.len() ==> #[trigger] sv[k] != '"',
    ensures
        spec_scan(render_token(TokenView::StringLiteral(sv)) + seq![' '] + rest, 0) == seq![
            TokenView::StringLiteral(sv),
        ] + spec_scan(rest, 0),
{
    let w = render_token(TokenView::StringLiteral(sv));
    let x = w + seq![' '] + rest;
    let l = w.len() as int;
    assert(l == sv.len() + 2);
    assert(x[0] == '"');
    assert(forall|k: int| 0 <= k < sv.len() ==> x[1 + k] == sv[k]);
    assert(x[sv.len() as int + 1] == '"');
    lemma_scan_len_is(x, 1, nonquote_pred(), sv.len());
    assert(x.subrange(1, 1 + sv.len() as int) =~= sv);
    assert(x[l] == ' ');
    assert(x.skip(l + 1) =~= rest);
    lemma_scan_after_space(x, l, rest);
}

/// Scanning the text of an operator symbol yields that operator token and
/// then the scan of the rest.
#[verifier::rlimit(80)]
proof fn lemma_scan_operator(s: Seq<char>, rest: Seq<char>)
    requires
        is_op_symbol(s),
    ensures
        spec_scan(render_token(TokenView::Operator(s)) + seq![' '] + rest, 0) == seq![
            TokenView::Operator(s),
        ] + spec_scan(rest, 0),
{
    crate::grammar::lemma_op_table();
    reveal_strlit("+");
    reveal_strlit("-");
    reveal_strlit("*");
    reveal_strlit("/");
    reveal_strlit("%");
    reveal_strlit("**");
    reveal_strlit("//");
    reveal_strlit("==");
    reveal_strlit("!=");
    reveal_strlit("<");
    reveal_strlit("<=");
    reveal_strlit(">");
    reveal_strlit(">=");
    reveal_strlit("&&");
    reveal_strlit("||");
    let x = s + seq![' '] + rest;
    let l = s.len() as int;
    assert(x[l] == ' ');
    assert(x.skip(l + 1) =~= rest);
    assert(forall|k: int| 0 <= k < l ==> x[k] == s[k]);
    lemma_scan_after_space(x, l, rest);
}

/// Scanning the text of a parenthesis or of the assignment sign yields that
/// token and then the scan of the rest.
proof fn lemma_scan_punct(tok: TokenView, rest: Seq<char>)
    requires
        tok is OpenParen || tok is CloseParen || tok is Assign,
    ensures
        spec_scan(render_token(tok) + seq![' '] + rest, 0) == seq![tok] + spec_scan(rest, 0),
{
    let w = render_token(tok);
    let x = w + seq![' '] + rest;
    assert(x[0] == w[0]);
    assert(x[1] == ' ');
    assert(x.skip(2) =~= rest);
    lemma_scan_after_space(x, 1, rest);
}

/// Scanning the text of one well-formed token, its separating space and a
/// remainder yields the token and then the scan of the remainder.
proof fn lemma_scan_one_token(tok: TokenView, rest: Seq<char>)
    requires
        wf_token(tok),
    ensures
        spec_scan(render_token(tok) + seq![' '] + rest, 0) == seq![tok] + spec_scan(rest, 0),
{
    match tok {
        TokenView::Number(n) => lemma_scan_number(n, rest),
        TokenView::Identifier(_) => lemma_scan_word(tok, rest),
        TokenView::Boolean(_) => lemma_scan_word(tok, rest),
        TokenView::Operator(s) => lemma_scan_operator(s, rest),
        TokenView::StringLiteral(sv) => lemma_scan_string(sv, rest),
        TokenView::OpenParen => lemma_scan_punct(tok, rest),
        TokenView::CloseParen => lemma_scan_punct(tok, rest),
        TokenView::Assign => lemma_scan_punct(tok, rest),
        TokenView::EOF => {},
    }
}

/// Scanning the rendered text of well-formed tokens, followed by any
/// remainder, yields those tokens and then the scan of the remainder.
proof fn lemma_render_scan(ts: Seq<TokenView>, rest: Seq<char>)
    requires
        forall|k: int| 0 <= k < ts.len() ==> wf_token(#[trigger] ts[k]),
    ensures
        spec_scan(spec_render(ts) + rest, 0) == ts + spec_scan(rest, 0),
    decreases ts.len(),
{
    if ts.len() == 0 {
        assert(spec_render(ts) + rest =~= rest);
        assert(ts + spec_scan(rest, 0) =~= spec_scan(rest, 0));
    } else {
        let tail = ts.skip(1);
        lemma_render_scan(tail, rest);
        assert(spec_render(ts) + rest =~= render_token(ts[0]) + seq![' '] + (spec_render(tail)
            + rest));
        lemma_scan_one_token(ts[0], spec_render(tail) + rest);
        assert(seq![ts[0]] + (tail + spec_scan(rest, 0)) =~= ts + spec_scan(rest, 0));
    }
}

/// Every token a scan produces before its final sentinel is well formed, and
/// the sentinel closes the sequence.
pub proof fn lemma_scan_wf(s: Seq<char>, i: int)
    requires
        0 <= i <= s.len(),
    ensures
        spec_scan(s, i).len() >= 1,
        spec_scan(s, i).last() == TokenView::EOF,
        forall|k: int|
            0 <= k < spec_scan(s, i).len() - 1 ==> wf_token(#[trigger] spec_scan(s, i)[k]),
    decreases s.len() - i,
{
    if i >= s.len() {
    } else {
        let c = s[i];
        if is_whitespace_char(c) {
            lemma_scan_wf(s, i + 1);
        } else if is_ident_start_char(c) {
            let n = scan_len(s, i, ident_pred()) as int;
            lemma_scan_len_chars(s, i, ident_pred());
            let word = s.subrange(i, i + n);
            assert(word[0] == s[i]);
            lemma_scan_wf(s, i + n);
            assert(wf_token(word_token(word)));
        } else if c == '"' {
            let m = scan_len(s, i + 1, nonquote_pred()) as int;
            lemma_scan_len_chars(s, i + 1, nonquote_pred());
            let content = s.subrange(i + 1, i + 1 + m);
            assert(forall|k: int| 0 <= k < content.len() ==> #[trigger] content[k] != '"');
            let close = i + 1 + m;
            if close < s.len() {
                lemma_scan_wf(s, close + 1);
            } else {
                lemma_scan_wf(s, close);
            }
        } else if is_digit_char(c) {
            let n = scan_len(s, i, digit_pred()) as int;
            lemma_scan_len_chars(s, i, digit_pred());
            lemma_scan_wf(s, i + n);
        } else if c == '-' {
            if i + 1 < s.len() && is_digit_char(s[i + 1]) {
                let n = scan_len(s, i + 1, digit_pred()) as int;
                lemma_scan_len_chars(s, i + 1, digit_pred());
                lemma_scan_wf(s, i + 1 + n);
            } else {
                lemma_scan_wf(s, i + 1);
            }
        } else {
            let two = i + 1 < s.len() && ((c == '*' && s[i + 1] == '*') || (c == '/' && s[i + 1]
                == '/') || (c == '=' && s[i + 1] == '=') || (c == '!' && s[i + 1] == '=') || (c
                == '<' && s[i + 1] == '=') || (c == '>' && s[i + 1] == '=') || (c == '&' && s[i + 1]
                == '&') || (c == '|' && s[i + 1] == '|'));
            if two {
                lemma_scan_wf(s, i + 2);
            } else {
                lemma_scan_wf(s, i + 1);
            }
        }
    }
}

fn digit_str(d: u64) -> (r: &'static str)
    requires
        d < 10,
    ensures
        r@ == seq![digit_char(d as int)],
{
    if d == 0 {
        proof {
            reveal_strlit("0");
            assert("0"@ =~= seq!['0']);
        }
        "0"
    } else if d == 1 {
        proof {
            reveal_strlit("1");
            assert("1"@ =~= seq!['1']);
        }
        "1"
    } else if d == 2 {
        proof {
            reveal_strlit("2");
            assert("2"@ =~= seq!['2']);
        }
        "2"
    } else if d == 3 {
        proof {
            reveal_strlit("3");
            assert("3"@ =~= seq!['3']);
        }
        "3"
    } else if d == 4 {
        proof {
            reveal_strlit("4");
            assert("4"@ =~= seq!['4']);
        }
        "4"
    } else if d == 5 {
        proof {
            reveal_strlit("5");
            assert("5"@ =~= seq!['5']);
        }
        "5"
    } else if d == 6 {
        proof {
            reveal_strlit("6");
            assert("6"@ =~= seq!['6']);
        }
        "6"
    } else if d == 7 {
        proof {
            reveal_strlit("7");
            assert("7"@ =~= seq!['7']);
        }
        "7"
    } else if d == 8 {
        proof {
            reveal_strlit("8");
            assert("8"@ =~= seq!['8']);
        }
        "8"
    } else {
        proof {
            reveal_strlit("9");
            assert("9"@ =~= seq!['9']);
        }
        "9"
    }
}

/// Appends the decimal digits of `n`, most significant first.
fn push_dec(out: &mut String, n: u64)
    ensures
        final(out)@ == old(out)@ + dec_digits(n as int),
    decreases n,
{
    if n >= 10 {
        push_dec(out, n / 10);
    }
    let ds = digit_str(n % 10);
    out.append(ds);
    proof {
        if n < 10 {
            assert(old(out)@ + seq![digit_char(n as int)] =~= final(out)@);
        } else {
            assert(old(out)@ + (dec_digits(n as int / 10) + seq![digit_char(n as int % 10)]) =~= (
            old(out)@ + dec_digits(n as int / 10)) + seq![digit_char(n as int % 10)]);
        }
    }
}

/// Renders a token sequence back to source text: each token's text followed
/// by one space, numbers in decimal, string literals between their quotes,
/// the `EOF` sentinel as nothing.
#[verifier::loop_isolation(false)]
pub fn render_tokens(tokens: &Vec<Token>) -> (s: String)
    ensures
        s@ == spec_render(toks_view(tokens@)),
{
    let ghost t = toks_view(tokens@);
    let mut out = String::new();
    let mut i: usize = 0;
    proof {
        assert(t.take(0) =~= Seq::<TokenView>::empty());
    }
    while i < tokens.len()
        invariant
            i <= tokens@.len(),
            out@ == spec_render(t.take(i as int)),
        decreases tokens@.len() - i,
    {
        proof {
            assert(t[i as int] == tokens@[i as int]@);
        }
        let ghost out_pre = out@;
        let tok = &tokens[i];
        match tok {
            Token::Number(v) => {
                let m: u64 = if *v < 0 {
                    proof {
                        reveal_strlit("-");
                        assert("-"@ =~= seq!['-']);
                    }
                    out.append("-");
                    (-(*v as i128)) as u64
                } else {
                    *v as u64
                };
                push_dec(&mut out, m);
                proof {
                    if *v < 0 {
                        assert(out@ =~= out_pre + (seq!['-'] + dec_digits(-(*v as int))));
                    }
                }
            },
            Token::Identifier(name) => {
                out.append(name.as_str());
            },
            Token::Operator(sym) => {
                out.append(sym.as_str());
            },
            Token::StringLiteral(text) => {
                proof {
                    reveal_strlit("\"");
                    assert("\""@ =~= seq!['"']);
                }
                out.append("\"");
                out.append(text.as_str());
                out.append("\"");
                proof {
                    assert(out@ =~= out_pre + (seq!['"'] + text@ + seq!['"']));
                }
            },
            Token::Boolean(b) => {
                if *b {
                    out.append("True");
                } else {
                    out.append("False");
                }
            },
            Token::OpenParen => {
                proof {
                    reveal_strlit("(");
                    assert("("@ =~= seq!['(']);
                }
                out.append("(");
            },
            Token::CloseParen => {
                proof {
                    reveal_strlit(")");
                    assert(")"@ =~= seq![')']);
                }
                out.append(")");
            },
            Token::Assign => {
                proof {
                    reveal_strlit("=");
                    assert("="@ =~= seq!['=']);
                }
                out.append("=");
            },
            Token::EOF => {},
        }
        proof {
            reveal_strlit(" ");
            assert(" "@ =~= seq![' ']);
        }
        out.append(" ");
        proof {
            assert(t.take(i + 1) =~= t.take(i as int) + seq![t[i as int]]);
            lemma_render_append(t.take(i as int), seq![t[i as int]]);
            assert(spec_render(seq![t[i as int]]) =~= render_token(t[i as int]) + seq![' ']) by {
                assert(seq![t[i as int]][0] == t[i as int]);
                assert(seq![t[i as int]].skip(1) =~= Seq::<TokenView>::empty());
                assert(spec_render(Seq::<TokenView>::empty()) =~= Seq::<char>::empty());
            }
            assert(out@ =~= spec_render(t.take(i as int)) + (render_token(t[i as int])
                + seq![' ']));
        }
        i = i + 1;
    }
    proof {
        assert(t.take(tokens@.len() as int) =~= t);
    }
    out
}

/// The round-trip law: re-tokenizing the rendered text of any scan yields
/// the same token sequence.  Tokens lose no information that rendering and
/// scanning again would not recover.
pub proof fn lemma_tokenize_round_trip(s: Seq<char>)
    ensures
        spec_tokenize(spec_render(spec_tokenize(s))) == spec_tokenize(s),
{
    let ts = spec_tokenize(s);
    lemma_scan_wf(s, 0);
    let body = ts.drop_last();
    assert(ts =~= body + seq![TokenView::EOF]);
    lemma_render_append(body, seq![TokenView::EOF]);
    assert(spec_render(seq![TokenView::EOF]) =~= seq![' ']) by {
        assert(seq![TokenView::EOF].skip(1) =~= Seq::<TokenView>::empty());
        assert(render_token(TokenView::EOF) + seq![' '] + spec_render(Seq::empty()) =~= seq![' ']);
    }
    assert(spec_render(ts) =~= spec_render(body) + seq![' ']);
    lemma_render_scan(body, seq![' ']);
    assert(spec_scan(seq![' '], 0) =~= seq![TokenView::EOF]) by {
        lemma_scan_shift(seq![' '], 1);
    }
    assert(spec_tokenize(spec_render(ts)) =~= ts);
}

} // verus!
