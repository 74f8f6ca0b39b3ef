//! Tokens, their mathematical model, and the specification-level tokenizer
//! that the scanner is proved to implement.

use vstd::prelude::*;
use crate::classify::{ws_char, digit_char, alpha_char};

verus! {

/// A lexical token. `IDENTIFIER` and `NUMBER` carry the matched text;
/// `ERROR` stands for a single unrecognized character (whose identity is
/// not retained); `EOF` closes every tokenized line.
#[derive(Debug)]
pub enum TOKEN {
    IDENTIFIER(String),
    NUMBER(String),
    PLUS,
    STAR,
    BOPEN,
    BCLOSE,
    ERROR(()),
    EOF,
}

/// The mathematical model of a token: the same variants, with the carried
/// text as a sequence of characters.
pub enum Tok {
    Identifier(Seq<char>),
    Number(Seq<char>),
    Plus,
    Star,
    Bopen,
    Bclose,
    Invalid,
    End,
}

/// The model of an executable token.
pub open spec fn tok_view(t: TOKEN) -> Tok {
    match t {
        TOKEN::IDENTIFIER(s) => Tok::Identifier(s@),
        TOKEN::NUMBER(s) => Tok::Number(s@),
        TOKEN::PLUS => Tok::Plus,
        TOKEN::STAR => Tok::Star,
        TOKEN::BOPEN => Tok::Bopen,
        TOKEN::BCLOSE => Tok::Bclose,
        TOKEN::ERROR(_) => Tok::Invalid,
        TOKEN::EOF => Tok::End,
    }
}

/// The model of a token vector.
pub open spec fn toks_view(ts: Seq<TOKEN>) -> Seq<Tok> {
    ts.map_values(|t: TOKEN| tok_view(t))
}

/// Length of the whitespace run in `line` starting at `i`.
pub open spec fn ws_run(line: Seq<char>, i: int) -> nat
    decreases line.len() - i,
{
    if 0 <= i < line.len() && ws_char(line[i]) {
        1 + ws_run(line, i + 1)
    } else {
        0
    }
}

/// Length of the ASCII-digit run in `line` starting at `i`.
pub open spec fn digit_run(line: Seq<char>, i: int) -> nat
    decreases line.len() - i,
{
    if 0 <= i < line.len() && digit_char(line[i]) {
        1 + digit_run(line, i + 1)
    } else {
        0
    }
}

/// Length of the alphabetic run in `line` starting at `i`.
pub open spec fn alpha_run(line: Seq<char>, i: int) -> nat
    decreases line.len() - i,
{
    if 0 <= i < line.len() && alpha_char(line[i]) {
        1 + alpha_run(line, i + 1)
    } else {
        0
    }
}

/// The token that starts at position `i` of `line`, for `i` in range and
/// not on whitespace. Single-character symbols come first; an ASCII digit
/// starts a maximal digit run; an alphabetic character starts a maximal
/// alphabetic run; anything else is one `Invalid` token.
pub open spec fn tok_at(line: Seq<char>, i: int) -> Tok {
    let c = line[i];
    if c == '+' {
        Tok::Plus
    } else if c == '*' {
        Tok::Star
    } else if c == '(' {
        Tok::Bopen
    } else if c == ')' {
        Tok::Bclose
    } else if digit_char(c) {
        Tok::Number(line.subrange(i, i + 1 + digit_run(line, i + 1)))
    } else if alpha_char(c) {
        Tok::Identifier(line.subrange(i, i + 1 + alpha_run(line, i + 1)))
    } else {
        Tok::Invalid
    }
}

/// How many characters the token starting at `i` consumes.
pub open spec fn tok_len(line: Seq<char>, i: int) -> nat {
    let c = line[i];
    if c == '+' || c == '*' || c == '(' || c == ')' {
        1
    } else if digit_char(c) {
        1 + digit_run(line, i + 1)
    } else if alpha_char(c) {
        1 + alpha_run(line, i + 1)
    } else {
        1
    }
}

/// A whitespace run never runs past the end of the line.
pub proof fn lemma_ws_run_bound(line: Seq<char>, i: int)
    requires
        0 <= i <= line.len(),
    ensures
        i + ws_run(line, i) <= line.len(),
    decreases line.len() - i,
{
    if i < line.len() && ws_char(line[i]) {
        lemma_ws_run_bound(line, i + 1);
    }
}

/// A digit run never runs past the end of the line.
pub proof fn lemma_digit_run_bound(line: Seq<char>, i: int)
    requires
        0 <= i <= line.len(),
    ensures
        i + digit_run(line, i) <= line.len(),
    decreases line.len() - i,
{
    if i < line.len() && digit_char(line[i]) {
        lemma_digit_run_bound(line, i + 1);
    }
}

/// An alphabetic run never runs past the end of the line.
pub proof fn lemma_alpha_run_bound(line: Seq<char>, i: int)
    requires
        0 <= i <= line.len(),
    ensures
        i + alpha_run(line, i) <= line.len(),
    decreases line.len() - i,
{
    if i < line.len() && alpha_char(line[i]) {
        lemma_alpha_run_bound(line, i + 1);
    }
}

/// A whitespace run is exactly the distance to the first non-whitespace
/// character.
pub proof fn lemma_ws_run_exact(line: Seq<char>, i: int, j: int)
    requires
        0 <= i <= j <= line.len(),
        forall|k: int| i <= k < j ==> ws_char(#[trigger] line[k]),
        j == line.len() || !ws_char(line[j]),
    ensures
        ws_run(line, i) == j - i,
    decreases j - i,
{
    if i < j {
        lemma_ws_run_exact(line, i + 1, j);
    }
}

/// A digit run is exactly the distance to the first non-digit character.
pub proof fn lemma_digit_run_exact(line: Seq<char>, i: int, j: int)
    requires
        0 <= i <= j <= line.len(),
        forall|k: int| i <= k < j ==> digit_char(#[trigger] line[k]),
        j == line.len() || !digit_char(line[j]),
    ensures
        digit_run(line, i) == j - i,
    decreases j - i,
{
    if i < j {
        lemma_digit_run_exact(line, i + 1, j);
    }
}

/// An alphabetic run is exactly the distance to the first non-alphabetic
/// character.
pub proof fn lemma_alpha_run_exact(line: Seq<char>, i: int, j: int)
    requires
        0 <= i <= j <= line.len(),
        forall|k: int| i <= k < j ==> alpha_char(#[trigger] line[k]),
        j == line.len() || !alpha_char(line[j]),
    ensures
        alpha_run(line, i) == j - i,
    decreases j - i,
{
    if i < j {
        lemma_alpha_run_exact(line, i + 1, j);
    }
}

/// A token within the line ends within the line.
pub proof fn lemma_tok_len_bound(line: Seq<char>, i: int)
    requires
        0 <= i < line.len(),
    ensures
        1 <= tok_len(line, i),
        i + tok_len(line, i) <= line.len(),
{
    lemma_digit_run_bound(line, i + 1);
    lemma_alpha_run_bound(line, i + 1);
}

/// The token sequence of `line` from position `i` on: whitespace is
/// skipped before each token, and a final `End` token closes the sequence.
pub open spec fn spec_tokens(line: Seq<char>, i: int) -> Seq<Tok>
    decreases line.len() - i,
    via spec_tokens_decreases
{
    let j = i + ws_run(line, i);
    if !(0 <= j < line.len()) {
        seq![Tok::End]
    } else {
        seq![tok_at(line, j)] + spec_tokens(line, j + tok_len(line, j))
    }
}

#[via_fn]
proof fn spec_tokens_decreases(line: Seq<char>, i: int) {
    let j = i + ws_run(line, i);
    if 0 <= j < line.len() {
        lemma_tok_len_bound(line, j);
    }
}

/// The full token sequence of a line.
pub open spec fn spec_tokenize(line: Seq<char>) -> Seq<Tok> {
    spec_tokens(line, 0)
}

/// Round trip for numbers: tokenizing the digit text carried by a NUMBER
/// token (the text inside its rendered leaf label) yields exactly that
/// NUMBER token again, byte for byte, and nothing else before the end.
pub proof fn lemma_retokenize_number(digits: Seq<char>)
    requires
        digits.len() > 0,
        forall|k: int| 0 <= k < digits.len() ==> digit_char(#[trigger] digits[k]),
    ensures
        spec_tokenize(digits) == seq![Tok::Number(digits), Tok::End],
{
    let n = digits.len() as int;
    assert(!ws_char(digits[0]));
    assert(ws_run(digits, 0) == 0);
    lemma_digit_run_exact(digits, 1, n);
    assert(digits.subrange(0, n) =~= digits);
    assert(tok_at(digits, 0) == Tok::Number(digits));
    assert(tok_len(digits, 0) == n);
    assert(ws_run(digits, n) == 0);
    assert(spec_tokens(digits, n) =~= seq![Tok::End]);
    assert(spec_tokenize(digits) =~= seq![Tok::Number(digits), Tok::End]);
}

/// Round trip for identifiers: tokenizing the letter text carried by an
/// IDENTIFIER token (the text inside its rendered leaf label) yields
/// exactly that IDENTIFIER token again, byte for byte, and nothing else
/// before the end.
pub proof fn lemma_retokenize_identifier(name: Seq<char>)
    requires
        name.len() > 0,
        forall|k: int| 0 <= k < name.len() ==> alpha_char(#[trigger] name[k]),
    ensures
        spec_tokenize(name) == seq![Tok::Identifier(name), Tok::End],
{
    let n = name.len() as int;
    assert(!ws_char(name[0]));
    assert(!digit_char(name[0]));
    lemma_alpha_run_exact(name, 1, n);
    assert(name.subrange(0, n) =~= name);
    assert(ws_run(name, 0) == 0);
    assert(tok_at(name, 0) == Tok::Identifier(name));
    assert(tok_len(name, 0) == n);
    assert(ws_run(name, n) == 0);
    assert(spec_tokens(name, n) =~= seq![Tok::End]);
    assert(spec_tokenize(name) =~= seq![Tok::Identifier(name), Tok::End]);
}

} // verus!
