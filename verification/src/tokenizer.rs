//! A tokenizer for a small procedural language: keywords, identifiers,
//! boolean literals, braces, parentheses, and the two `=` operators.

use vstd::prelude::*;
use vstd::string::StrSliceExecFns;
use vstd::string::StringExecFns;

verus! {

/// Whether `char::is_alphabetic` holds of `c`; the result depends on the
/// character alone.
pub uninterp spec fn alphabetic(c: char) -> bool;

/// Whether `char::is_numeric` holds of `c`; the result depends on the
/// character alone.
pub uninterp spec fn numeric(c: char) -> bool;

/// Relies on `char::is_alphabetic`.
#[verifier::external_body]
fn char_is_alphabetic(c: char) -> (r: bool)
    ensures
        r == alphabetic(c),
{
    c.is_alphabetic()
}

/// Relies on `char::is_alphanumeric`, which holds exactly when
/// `char::is_alphabetic` or `char::is_numeric` does.
#[verifier::external_body]
fn char_is_alphanumeric(c: char) -> (r: bool)
    ensures
        r == (alphabetic(c) || numeric(c)),
{
    c.is_alphanumeric()
}

/// One lexical unit of the language.
#[derive(Debug, PartialEq, Eq)]
pub enum Token {
    /// A single `=`.
    Assignment,
    /// A run of letters, digits and underscores led by a letter, other than
    /// a keyword.
    Identifier(String),
    /// The keyword `if`.
    KeywordIf,
    /// The keyword `proc`.
    KeywordProc,
    /// The keyword `pub`.
    KeywordPub,
    /// The literal `false`.
    LiteralBoolFalse,
    /// The literal `true`.
    LiteralBoolTrue,
    /// A closing brace.
    OperatorBraceClose,
    /// An opening brace.
    OperatorBraceOpen,
    /// The operator `==`.
    OperatorEquality,
    /// A closing parenthesis.
    OperatorParenthesisClose,
    /// An opening parenthesis.
    OperatorParenthesisOpen,
}

/// The mathematical image of a [`Token`].
pub enum TokenView {
    /// A single `=`.
    Assignment,
    /// An identifier and its characters.
    Identifier(Seq<char>),
    /// The keyword `if`.
    KeywordIf,
    /// The keyword `proc`.
    KeywordProc,
    /// The keyword `pub`.
    KeywordPub,
    /// The literal `false`.
    LiteralBoolFalse,
    /// The literal `true`.
    LiteralBoolTrue,
    /// A closing brace.
    OperatorBraceClose,
    /// An opening brace.
    OperatorBraceOpen,
    /// The operator `==`.
    OperatorEquality,
    /// A closing parenthesis.
    OperatorParenthesisClose,
    /// An opening parenthesis.
    OperatorParenthesisOpen,
}

impl View for Token {
    type V = TokenView;

    open spec fn view(&self) -> TokenView {
        match self {
            Token::Assignment => TokenView::Assignment,
            Token::Identifier(s) => TokenView::Identifier(s@),
            Token::KeywordIf => TokenView::KeywordIf,
            Token::KeywordProc => TokenView::KeywordProc,
            Token::KeywordPub => TokenView::KeywordPub,
            Token::LiteralBoolFalse => TokenView::LiteralBoolFalse,
            Token::LiteralBoolTrue => TokenView::LiteralBoolTrue,
            Token::OperatorBraceClose => TokenView::OperatorBraceClose,
            Token::OperatorBraceOpen => TokenView::OperatorBraceOpen,
            Token::OperatorEquality => TokenView::OperatorEquality,
            Token::OperatorParenthesisClose => TokenView::OperatorParenthesisClose,
            Token::OperatorParenthesisOpen => TokenView::OperatorParenthesisOpen,
        }
    }
}

/// The mathematical images of a run of tokens.
pub open spec fn token_views(ts: Seq<Token>) -> Seq<TokenView> {
    ts.map_values(|t: Token| t@)
}

/// Whether `c` may continue an identifier.
pub open spec fn is_ident_char(c: char) -> bool {
    alphabetic(c) || numeric(c) || c == '_'
}

/// First position at or after `i` where the identifier run ends.
pub open spec fn ident_end(cs: Seq<char>, i: int) -> int
    decreases
            (if i < cs.len() {
                cs.len() - i
            } else {
                0
            }),
{
    if 0 <= i < cs.len() && is_ident_char(cs[i]) {
        ident_end(cs, i + 1)
    } else {
        i
    }
}

/// An identifier run ends within the text, and strictly after a position
/// that holds an identifier character.
pub proof fn lemma_ident_end_bounds(cs: Seq<char>, i: int)
    requires
        0 <= i <= cs.len(),
    ensures
        i <= ident_end(cs, i) <= cs.len(),
        i < cs.len() && is_ident_char(cs[i]) ==> ident_end(cs, i) >= i + 1,
    decreases cs.len() - i,
{
    if i < cs.len() && is_ident_char(cs[i]) {
        lemma_ident_end_bounds(cs, i + 1);
    }
}

/// The identifier end is the first scan position that is either the end of
/// the text or no identifier character.
pub proof fn lemma_ident_end_of_scan(cs: Seq<char>, i: int, j: int)
    requires
        0 <= i <= j <= cs.len(),
        forall|k: int| i <= k < j ==> is_ident_char(cs[k]),
        j == cs.len() || !is_ident_char(cs[j]),
    ensures
        ident_end(cs, i) == j,
    decreases j - i,
{
    if i < j {
        lemma_ident_end_of_scan(cs, i + 1, j);
    }
}

/// The token a word stands for: a keyword or boolean literal where it
/// matches one, else an identifier.
pub open spec fn classify_word(w: Seq<char>) -> TokenView {
    if w == "false"@ {
        TokenView::LiteralBoolFalse
    } else if w == "if"@ {
        TokenView::KeywordIf
    } else if w == "proc"@ {
        TokenView::KeywordProc
    } else if w == "pub"@ {
        TokenView::KeywordPub
    } else if w == "true"@ {
        TokenView::LiteralBoolTrue
    } else {
        TokenView::Identifier(w)
    }
}

/// The tokens of `cs` from position `i` on.  One-character operators stand
/// for themselves; `==` beats `=`; a letter starts an identifier run that
/// is classified as a keyword, a literal, or an identifier; any other
/// character is skipped.
pub open spec fn spec_tokenize_from(cs: Seq<char>, i: int) -> Seq<TokenView>
    decreases
            (if i < cs.len() {
                cs.len() - i
            } else {
                0
            }),
    via spec_tokenize_from_decreases
{
    if !(0 <= i < cs.len()) {
        Seq::empty()
    } else {
        let c = cs[i];
        if c == '}' {
            seq![TokenView::OperatorBraceClose] + spec_tokenize_from(cs, i + 1)
        } else if c == '{' {
            seq![TokenView::OperatorBraceOpen] + spec_tokenize_from(cs, i + 1)
        } else if c == ')' {
            seq![TokenView::OperatorParenthesisClose] + spec_tokenize_from(cs, i + 1)
        } else if c == '(' {
            seq![TokenView::OperatorParenthesisOpen] + spec_tokenize_from(cs, i + 1)
        } else if c == '=' {
            if i + 1 < cs.len() && cs[i + 1] == '=' {
                seq![TokenView::OperatorEquality] + spec_tokenize_from(cs, i + 2)
            } else {
                seq![TokenView::Assignment] + spec_tokenize_from(cs, i + 1)
            }
        } else if alphabetic(c) {
            let j = ident_end(cs, i);
            seq![classify_word(cs.subrange(i, j))] + spec_tokenize_from(cs, j)
        } else {
            spec_tokenize_from(cs, i + 1)
        }
    }
}

#[via_fn]
proof fn spec_tokenize_from_decreases(cs: Seq<char>, i: int) {
    if 0 <= i < cs.len() && alphabetic(cs[i]) {
        lemma_ident_end_bounds(cs, i);
    }
}

/// The tokens of a piece of text.
pub open spec fn spec_tokenize(cs: Seq<char>) -> Seq<TokenView> {
    spec_tokenize_from(cs, 0)
}

/// Classifies one word.
fn classify(word: String) -> (t: Token)
    ensures
        t@ == classify_word(word@),
{
    if word == String::from_str("false") {
        Token::LiteralBoolFalse
    } else if word == String::from_str("if") {
        Token::KeywordIf
    } else if word == String::from_str("proc") {
        Token::KeywordProc
    } else if word == String::from_str("pub") {
        Token::KeywordPub
    } else if word == String::from_str("true") {
        Token::LiteralBoolTrue
    } else {
        Token::Identifier(word)
    }
}

/// Splits `code` into its tokens.
pub fn tokenize(code: &str) -> (r: Vec<Token>)
    ensures
        token_views(r@) == spec_tokenize(code@),
{
    let n: usize = code.unicode_len();
    let mut tokens: Vec<Token> = Vec::new();
    let mut i: usize = 0;

    while i < n
        invariant
            i <= n,
            n == code@.len(),
            spec_tokenize(code@) == token_views(tokens@) + spec_tokenize_from(code@, i as int),
        decreases n - i,
    {
        let ghost i0: int = i as int;
        let ghost before = tokens@;
        let c = code.get_char(i);
        if c == '}' {
            push_token(&mut tokens, Token::OperatorBraceClose);
            i = i + 1;
            proof {
                lemma_fold_token(code@, before, tokens@, i0, i as int);
            }
        } else if c == '{' {
            push_token(&mut tokens, Token::OperatorBraceOpen);
            i = i + 1;
            proof {
                lemma_fold_token(code@, before, tokens@, i0, i as int);
            }
        } else if c == ')' {
            push_token(&mut tokens, Token::OperatorParenthesisClose);
            i = i + 1;
            proof {
                lemma_fold_token(code@, before, tokens@, i0, i as int);
            }
        } else if c == '(' {
            push_token(&mut tokens, Token::OperatorParenthesisOpen);
            i = i + 1;
            proof {
                lemma_fold_token(code@, before, tokens@, i0, i as int);
            }
        } else if c == '=' {
            if i + 1 < n && code.get_char(i + 1) == '=' {
                push_token(&mut tokens, Token::OperatorEquality);
                i = i + 2;
            } else {
                push_token(&mut tokens, Token::Assignment);
                i = i + 1;
            }
            proof {
                lemma_fold_token(code@, before, tokens@, i0, i as int);
            }
        } else if char_is_alphabetic(c) {
            let mut j: usize = i;
            while j < n && (char_is_alphanumeric(code.get_char(j)) || code.get_char(j) == '_')
                invariant
                    i <= j <= n,
                    n == code@.len(),
                    forall|k: int| i <= k < j ==> is_ident_char(code@[k]),
                decreases n - j,
            {
                j = j + 1;
            }
            proof {
                lemma_ident_end_of_scan(code@, i as int, j as int);
                lemma_ident_end_bounds(code@, i as int);
            }
            let word = code.substring_char(i, j).to_owned();
            proof {
                assert(word@ =~= code@.subrange(i as int, j as int));
            }
            let t = classify(word);
            push_token(&mut tokens, t);
            i = j;
            proof {
                lemma_fold_token(code@, before, tokens@, i0, i as int);
            }
        } else {
            i = i + 1;
        }
    }
    tokens
}

/// Appends one token.
fn push_token(tokens: &mut Vec<Token>, t: Token)
    ensures
        final(tokens)@ == old(tokens)@.push(t),
        token_views(final(tokens)@) == token_views(old(tokens)@) + seq![t@],
{
    let ghost before = tokens@;
    tokens.push(t);
    proof {
        assert(token_views(tokens@) =~= token_views(before) + seq![t@]);
    }
}

/// Folding one emitted token into the accumulated run keeps the overall
/// tokenization equation.
proof fn lemma_fold_token(cs: Seq<char>, before: Seq<Token>, after: Seq<Token>, i0: int, i1: int)
    requires
        after.len() == before.len() + 1,
        after == before.push(after.last()),
        spec_tokenize(cs) == token_views(before) + spec_tokenize_from(cs, i0),
        spec_tokenize_from(cs, i0) == seq![after.last()@] + spec_tokenize_from(cs, i1),
    ensures
        spec_tokenize(cs) == token_views(after) + spec_tokenize_from(cs, i1),
{
    let t = after.last();
    assert(token_views(after) =~= token_views(before) + seq![t@]);
    assert((token_views(before) + seq![t@]) + spec_tokenize_from(cs, i1) =~= token_views(before)
        + (seq![t@] + spec_tokenize_from(cs, i1)));
}

} // verus!
