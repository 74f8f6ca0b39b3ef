//! The scanner: lexical analysis of one line of text into a token vector,
//! proved equal to the specification-level tokenizer of [`crate::token`].

use vstd::prelude::*;
use vstd::string::StrSliceExecFns;
use crate::classify::{ws_char, digit_char, alpha_char};
use crate::token::{
    TOKEN, Tok, tok_view, toks_view, ws_run, tok_at, tok_len, spec_tokens,
    lemma_ws_run_bound, lemma_ws_run_exact, lemma_digit_run_exact, lemma_alpha_run_exact,
};

verus! {

/// Relies on String::push: appends the given character to the end of the
/// string.
pub assume_specification[ String::push ](s: &mut String, c: char)
    ensures
        final(s)@ == old(s)@.push(c),
;

/// Whether a line holds only whitespace (an empty line counts). Such a
/// line is recognized before scanning and never tokenized.
pub fn line_is_blank(line: &String) -> (r: bool)
    ensures
        r == (forall|k: int| 0 <= k < line@.len() ==> ws_char(#[trigger] line@[k])),
{
    let n = line.as_str().unicode_len();
    let mut i: usize = 0;
    while i < n
        invariant
            i <= n,
            n == line@.len(),
            forall|k: int| 0 <= k < i ==> ws_char(#[trigger] line@[k]),
        decreases n - i,
    {
        let c = line.as_str().get_char(i);
        if !c.is_whitespace() {
            return false;
        }
        i = i + 1;
    }
    true
}

/// Whether a character may continue a number: an ASCII digit.
pub fn digit_continues(c: char) -> (b: bool)
    ensures
        b == digit_char(c),
{
    c.is_ascii_digit()
}

/// Whether a character may continue an identifier: an alphabetic character.
pub fn alpha_continues(c: char) -> (b: bool)
    ensures
        b == alpha_char(c),
{
    c.is_alphabetic()
}

/// The scanner: an immutable character sequence plus a cursor into it.
pub struct SCANNER {
    pub index: usize,
    pub user_input: Vec<char>,
}

impl SCANNER {
    /// The cursor never lies past the end of the input.
    pub open spec fn wf(self) -> bool {
        self.index <= self.user_input.len()
    }

    /// The character under the cursor, if any.
    pub open spec fn current_char(self) -> Option<char> {
        if self.index < self.user_input@.len() {
            Some(self.user_input@[self.index as int])
        } else {
            None
        }
    }

    /// Builds a scanner over the characters of `input_string`, with the
    /// cursor at the start.
    pub fn constructor(input_string: String) -> (s: Self)
        ensures
            s.user_input@ == input_string@,
            s.index == 0,
            s.wf(),
    {
        let n = input_string.as_str().unicode_len();
        let mut v: Vec<char> = Vec::new();
        let mut i: usize = 0;
        while i < n
            invariant
                i <= n,
                n == input_string@.len(),
                v@ == input_string@.subrange(0, i as int),
            decreases n - i,
        {
            let c = input_string.as_str().get_char(i);
            v.push(c);
            proof {
                assert(v@ =~= input_string@.subrange(0, i + 1));
            }
            i = i + 1;
        }
        proof {
            assert(v@ =~= input_string@);
        }
        SCANNER { index: 0, user_input: v }
    }

    /// Returns the character under the cursor without advancing.
    pub fn look_up_current_char(&self) -> (r: Option<char>)
        ensures
            r == self.current_char(),
    {
        if self.index < self.user_input.len() {
            Some(self.user_input[self.index])
        } else {
            None
        }
    }

    /// Returns the character under the cursor and advances past it; at the
    /// end of the input, returns nothing and leaves the cursor unchanged.
    pub fn move_to_next_char(&mut self) -> (r: Option<char>)
        requires
            old(self).wf(),
        ensures
            final(self).wf(),
            final(self).user_input == old(self).user_input,
            r == old(self).current_char(),
            final(self).index == if r is Some {
                old(self).index + 1
            } else {
                old(self).index as int
            },
    {
        let c = self.look_up_current_char();
        if c.is_some() {
            self.index = self.index + 1;
        }
        c
    }

    /// Advances the cursor past the whitespace run under it.
    pub fn skip_whitespace(&mut self)
        requires
            old(self).wf(),
        ensures
            final(self).wf(),
            final(self).user_input == old(self).user_input,
            final(self).index == old(self).index + ws_run(
                old(self).user_input@,
                old(self).index as int,
            ),
    {
        loop
            invariant
                self.wf(),
                self.user_input == old(self).user_input,
                old(self).index <= self.index,
                forall|k: int|
                    old(self).index <= k < self.index ==> ws_char(
                        #[trigger] self.user_input@[k],
                    ),
            ensures
                self.index == self.user_input@.len() || !ws_char(
                    self.user_input@[self.index as int],
                ),
            decreases self.user_input@.len() - self.index,
        {
            match self.look_up_current_char() {
                Some(ch) => {
                    if ch.is_whitespace() {
                        let _ = self.move_to_next_char();
                    } else {
                        break;
                    }
                },
                None => {
                    break;
                },
            }
        }
        proof {
            lemma_ws_run_exact(
                self.user_input@,
                old(self).index as int,
                self.index as int,
            );
        }
    }

    /// Accumulates `first` and then every immediately following character
    /// accepted by `keep`, advancing the cursor past the accepted run.
    pub fn collect_while<F: Fn(char) -> bool>(&mut self, first: char, keep: F) -> (r: String)
        requires
            old(self).wf(),
            forall|c: char| #[trigger] call_requires(keep, (c,)),
        ensures
            final(self).wf(),
            final(self).user_input == old(self).user_input,
            old(self).index <= final(self).index,
            r@ == seq![first] + old(self).user_input@.subrange(
                old(self).index as int,
                final(self).index as int,
            ),
            forall|k: int|
                old(self).index <= k < final(self).index ==> call_ensures(
                    keep,
                    (#[trigger] old(self).user_input@[k],),
                    true,
                ),
            final(self).index < old(self).user_input@.len() ==> call_ensures(
                keep,
                (old(self).user_input@[final(self).index as int],),
                false,
            ),
    {
        let mut s = String::new();
        s.push(first);
        loop
            invariant
                self.wf(),
                self.user_input == old(self).user_input,
                old(self).index <= self.index,
                forall|c: char| #[trigger] call_requires(keep, (c,)),
                s@ == seq![first] + self.user_input@.subrange(
                    old(self).index as int,
                    self.index as int,
                ),
                forall|k: int|
                    old(self).index <= k < self.index ==> call_ensures(
                        keep,
                        (#[trigger] self.user_input@[k],),
                        true,
                    ),
            ensures
                self.index < self.user_input@.len() ==> call_ensures(
                    keep,
                    (self.user_input@[self.index as int],),
                    false,
                ),
            decreases self.user_input@.len() - self.index,
        {
            match self.look_up_current_char() {
                Some(next) => {
                    let fits = keep(next);
                    if fits {
                        let c = self.move_to_next_char().unwrap();
                        s.push(c);
                        proof {
                            assert(s@ =~= seq![first] + self.user_input@.subrange(
                                old(self).index as int,
                                self.index as int,
                            ));
                        }
                    } else {
                        break;
                    }
                },
                None => {
                    break;
                },
            }
        }
        s
    }

    /// Produces the next token, or nothing when only whitespace is left.
    /// Symbols consume one character; a digit or an alphabetic character
    /// starts a maximal run; any other character becomes one `ERROR` token.
    pub fn get_next_token(&mut self) -> (r: Option<TOKEN>)
        requires
            old(self).wf(),
        ensures
            final(self).wf(),
            final(self).user_input == old(self).user_input,
            ({
                let line = old(self).user_input@;
                let j = old(self).index + ws_run(line, old(self).index as int);
                if j >= line.len() {
                    r is None && final(self).index == line.len()
                } else {
                    r matches Some(t) && tok_view(t) == tok_at(line, j) && final(self).index
                        == j + tok_len(line, j)
                }
            }),
    {
        let ghost line = self.user_input@;
        self.skip_whitespace();
        let ghost j = self.index as int;
        proof {
            lemma_ws_run_bound(line, old(self).index as int);
        }
        let oc = self.move_to_next_char();
        match oc {
            None => None,
            Some(ch) => {
                let t = if ch == '+' {
                    TOKEN::PLUS
                } else if ch == '*' {
                    TOKEN::STAR
                } else if ch == '(' {
                    TOKEN::BOPEN
                } else if ch == ')' {
                    TOKEN::BCLOSE
                } else if ch.is_ascii_digit() {
                    let num = self.collect_while(ch, digit_continues);
                    proof {
                        lemma_digit_run_exact(line, j + 1, self.index as int);
                        assert(num@ =~= line.subrange(j, j + tok_len(line, j)));
                    }
                    TOKEN::NUMBER(num)
                } else if ch.is_alphabetic() {
                    let id = self.collect_while(ch, alpha_continues);
                    proof {
                        lemma_alpha_run_exact(line, j + 1, self.index as int);
                        assert(id@ =~= line.subrange(j, j + tok_len(line, j)));
                    }
                    TOKEN::IDENTIFIER(id)
                } else {
                    TOKEN::ERROR(())
                };
                Some(t)
            },
        }
    }

    /// Tokenizes the rest of the line: every token in order, then exactly
    /// one `EOF` token.
    pub fn tokenize_the_line(&mut self) -> (r: Vec<TOKEN>)
        requires
            old(self).wf(),
        ensures
            final(self).user_input == old(self).user_input,
            final(self).index == old(self).user_input@.len(),
            toks_view(r@) == spec_tokens(old(self).user_input@, old(self).index as int),
    {
        let ghost line = self.user_input@;
        let mut tokens: Vec<TOKEN> = Vec::new();
        loop
            invariant
                self.wf(),
                self.user_input == old(self).user_input,
                self.user_input@ == line,
                old(self).index <= self.index,
                toks_view(tokens@) + spec_tokens(line, self.index as int) == spec_tokens(
                    line,
                    old(self).index as int,
                ),
            ensures
                self.index == line.len(),
                toks_view(tokens@) + seq![Tok::End] == spec_tokens(
                    line,
                    old(self).index as int,
                ),
            decreases self.user_input@.len() - self.index,
        {
            let ghost i_before = self.index as int;
            match self.get_next_token() {
                Some(tok) => {
                    proof {
                        assert(toks_view(tokens@.push(tok)) =~= toks_view(tokens@).push(
                            tok_view(tok),
                        ));
                        assert(spec_tokens(line, i_before) =~= seq![tok_view(tok)]
                            + spec_tokens(line, self.index as int));
                    }
                    tokens.push(tok);
                    proof {
                        assert(toks_view(tokens@) + spec_tokens(line, self.index as int)
                            =~= spec_tokens(line, old(self).index as int));
                    }
                },
                None => {
                    proof {
                        assert(spec_tokens(line, i_before) =~= seq![Tok::End]);
                    }
                    break;
                },
            }
        }
        tokens.push(TOKEN::EOF);
        proof {
            assert(toks_view(tokens@) =~= spec_tokens(line, old(self).index as int));
        }
        tokens
    }
}

} // verus!
