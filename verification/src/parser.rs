//! The recursive-descent parser: one function per grammar non-terminal,
//! each proved equal to a specification-level parser over the token model.
//!
//! A failed parse returns a typed error instead of aborting: the caller
//! decides what to do with it.

use vstd::prelude::*;
use vstd::string::StringExecFns;
use crate::token::{TOKEN, Tok, tok_view, toks_view};
use crate::node::{NODE, Tree, sp_leaf, tree_of, trees_of, frontier, frontier_seq};

verus! {

/// Why a parse failed: a token that cannot start a FACTOR, or a
/// parenthesized expression without its closing parenthesis.
#[derive(Clone, Copy, Debug, PartialEq, Eq, Structural)]
pub enum ParseError {
    UnexpectedToken,
    MissingCloseParen,
}

/// The outcome of the specification-level parser: a model tree together
/// with the position just past the consumed tokens, or a parse error.
pub enum Parsed {
    Found(Tree, int),
    Failed(ParseError),
}

/// The label of an identifier leaf.
pub open spec fn ident_label(name: Seq<char>) -> Seq<char> {
    "IDENTIFIER("@ + name + ")"@
}

/// The label of a number leaf.
pub open spec fn number_label(digits: Seq<char>) -> Seq<char> {
    "NUMBER("@ + digits + ")"@
}

/// FACTOR -> IDENTIFIER | NUMBER | BOPEN EXPR BCLOSE. An identifier or a
/// number becomes a FACTOR node over one labeled leaf; a parenthesized
/// expression keeps its parentheses as leaves; any other token fails.
pub open spec fn sp_factor(toks: Seq<Tok>, i: int) -> Parsed
    decreases toks.len() - i, 0int,
{
    if !(0 <= i < toks.len()) {
        Parsed::Failed(ParseError::UnexpectedToken)
    } else {
        match toks[i] {
            Tok::Identifier(name) => Parsed::Found(
                Tree { label: "FACTOR"@, children: seq![sp_leaf(ident_label(name))] },
                i + 1,
            ),
            Tok::Number(digits) => Parsed::Found(
                Tree { label: "FACTOR"@, children: seq![sp_leaf(number_label(digits))] },
                i + 1,
            ),
            Tok::Bopen => match sp_expr(toks, i + 1) {
                Parsed::Found(inside, j) => if 0 <= j < toks.len() && toks[j] is Bclose {
                    Parsed::Found(
                        Tree {
                            label: "FACTOR"@,
                            children: seq![sp_leaf("BOPEN"@), inside, sp_leaf("BCLOSE"@)],
                        },
                        j + 1,
                    )
                } else {
                    Parsed::Failed(ParseError::MissingCloseParen)
                },
                Parsed::Failed(e) => Parsed::Failed(e),
            },
            _ => Parsed::Failed(ParseError::UnexpectedToken),
        }
    }
}

/// TERM -> FACTOR TERMDASH.
pub open spec fn sp_term(toks: Seq<Tok>, i: int) -> Parsed
    decreases toks.len() - i, 1int,
{
    match sp_factor(toks, i) {
        Parsed::Found(f, j) => if i < j <= toks.len() {
            match sp_termdash(toks, j) {
                Parsed::Found(d, k) => Parsed::Found(
                    Tree { label: "TERM"@, children: seq![f, d] },
                    k,
                ),
                Parsed::Failed(e) => Parsed::Failed(e),
            }
        } else {
            Parsed::Failed(ParseError::UnexpectedToken)
        },
        Parsed::Failed(e) => Parsed::Failed(e),
    }
}

/// TERMDASH -> STAR FACTOR TERMDASH | epsilon. The epsilon case is one
/// EPSILON leaf and consumes nothing.
pub open spec fn sp_termdash(toks: Seq<Tok>, i: int) -> Parsed
    decreases toks.len() - i, 2int,
{
    if 0 <= i < toks.len() && toks[i] is Star {
        match sp_factor(toks, i + 1) {
            Parsed::Found(f, j) => if i < j <= toks.len() {
                match sp_termdash(toks, j) {
                    Parsed::Found(more, k) => Parsed::Found(
                        Tree {
                            label: "TERMDASH"@,
                            children: seq![sp_leaf("STAR"@), f, more],
                        },
                        k,
                    ),
                    Parsed::Failed(e) => Parsed::Failed(e),
                }
            } else {
                Parsed::Failed(ParseError::UnexpectedToken)
            },
            Parsed::Failed(e) => Parsed::Failed(e),
        }
    } else {
        Parsed::Found(
            Tree { label: "TERMDASH"@, children: seq![sp_leaf("EPSILON"@)] },
            i,
        )
    }
}

/// EXPR -> TERM EXPRDASH.
pub open spec fn sp_expr(toks: Seq<Tok>, i: int) -> Parsed
    decreases toks.len() - i, 3int,
{
    match sp_term(toks, i) {
        Parsed::Found(t, j) => if i < j <= toks.len() {
            match sp_exprdash(toks, j) {
                Parsed::Found(d, k) => Parsed::Found(
                    Tree { label: "EXPR"@, children: seq![t, d] },
                    k,
                ),
                Parsed::Failed(e) => Parsed::Failed(e),
            }
        } else {
            Parsed::Failed(ParseError::UnexpectedToken)
        },
        Parsed::Failed(e) => Parsed::Failed(e),
    }
}

/// EXPRDASH -> PLUS TERM EXPRDASH | epsilon. The epsilon case is one
/// EPSILON leaf and consumes nothing.
pub open spec fn sp_exprdash(toks: Seq<Tok>, i: int) -> Parsed
    decreases toks.len() - i, 4int,
{
    if 0 <= i < toks.len() && toks[i] is Plus {
        match sp_term(toks, i + 1) {
            Parsed::Found(rhs, j) => if i < j <= toks.len() {
                match sp_exprdash(toks, j) {
                    Parsed::Found(more, k) => Parsed::Found(
                        Tree {
                            label: "EXPRDASH"@,
                            children: seq![sp_leaf("PLUS"@), rhs, more],
                        },
                        k,
                    ),
                    Parsed::Failed(e) => Parsed::Failed(e),
                }
            } else {
                Parsed::Failed(ParseError::UnexpectedToken)
            },
            Parsed::Failed(e) => Parsed::Failed(e),
        }
    } else {
        Parsed::Found(
            Tree { label: "EXPRDASH"@, children: seq![sp_leaf("EPSILON"@)] },
            i,
        )
    }
}

/// A successful parse consumes at least one token for EXPR, TERM and
/// FACTOR, none or more for the dash rules, and never runs past the end.
pub proof fn lemma_parse_bounds(toks: Seq<Tok>, i: int)
    requires
        0 <= i <= toks.len(),
    ensures
        sp_factor(toks, i) matches Parsed::Found(t, j) ==> i < j <= toks.len(),
        sp_term(toks, i) matches Parsed::Found(t, j) ==> i < j <= toks.len(),
        sp_expr(toks, i) matches Parsed::Found(t, j) ==> i < j <= toks.len(),
        sp_termdash(toks, i) matches Parsed::Found(t, j) ==> i <= j <= toks.len(),
        sp_exprdash(toks, i) matches Parsed::Found(t, j) ==> i <= j <= toks.len(),
    decreases toks.len() - i,
{
    if i < toks.len() && toks[i] is Bopen {
        lemma_parse_bounds(toks, i + 1);
    }
    if i < toks.len() && (toks[i] is Plus || toks[i] is Star) {
        lemma_parse_bounds(toks, i + 1);
        match sp_term(toks, i + 1) {
            Parsed::Found(t, j) => {
                lemma_parse_bounds(toks, j);
            },
            Parsed::Failed(e) => {},
        }
        match sp_factor(toks, i + 1) {
            Parsed::Found(t, j) => {
                lemma_parse_bounds(toks, j);
            },
            Parsed::Failed(e) => {},
        }
    }
    match sp_factor(toks, i) {
        Parsed::Found(t, j) => {
            lemma_parse_bounds(toks, j);
        },
        Parsed::Failed(e) => {},
    }
    match sp_term(toks, i) {
        Parsed::Found(t, j) => {
            lemma_parse_bounds(toks, j);
        },
        Parsed::Failed(e) => {},
    }
}

/// The parser: a read-only token vector plus a cursor into it.
pub struct PARSER {
    pub index: usize,
    pub tokens: Vec<TOKEN>,
}

impl PARSER {
    /// The cursor never lies past the end of the token vector.
    pub open spec fn wf(self) -> bool {
        self.index <= self.tokens.len()
    }

    /// The token model the parser works over.
    pub open spec fn toks(self) -> Seq<Tok> {
        toks_view(self.tokens@)
    }

    /// Builds a parser over `tokens`, with the cursor at the start.
    pub fn constructor(tokens: Vec<TOKEN>) -> (p: Self)
        ensures
            p.tokens == tokens,
            p.index == 0,
            p.wf(),
    {
        PARSER { index: 0, tokens }
    }

    /// The token under the cursor, or `EOF` past the end.
    pub fn current_token(&self) -> (r: &TOKEN)
        ensures
            tok_view(*r) == cur_tok(self.toks(), self.index as int),
    {
        if self.index < self.tokens.len() {
            &self.tokens[self.index]
        } else {
            &TOKEN::EOF
        }
    }

    /// Advances the cursor by one token, unless already past the end.
    pub fn move_to_next_token(&mut self)
        ensures
            final(self).tokens == old(self).tokens,
            final(self).index == if old(self).index < old(self).tokens.len() {
                old(self).index + 1
            } else {
                old(self).index as int
            },
    {
        if self.index < self.tokens.len() {
            self.index = self.index + 1;
        }
    }

    /// EXPR -> TERM EXPRDASH.
    pub fn parse_expr(&mut self) -> (r: Result<NODE, ParseError>)
        requires
            old(self).wf(),
        ensures
            final(self).wf(),
            final(self).tokens == old(self).tokens,
            match sp_expr(old(self).toks(), old(self).index as int) {
                Parsed::Found(t, j) => r matches Ok(n) && tree_of(n) == t && final(self).index
                    == j,
                Parsed::Failed(e) => r == Result::<NODE, ParseError>::Err(e),
            },
        decreases self.tokens@.len() - self.index, 3int,
    {
        let ghost toks = self.toks();
        let ghost i0 = self.index as int;
        let t = match self.parse_term() {
            Ok(t) => t,
            Err(e) => {
                return Err(e);
            },
        };
        proof {
            lemma_parse_bounds(toks, i0);
        }
        let d = match self.parse_exprdash() {
            Ok(d) => d,
            Err(e) => {
                return Err(e);
            },
        };
        let ghost gt = tree_of(t);
        let ghost gd = tree_of(d);
        let mut children: Vec<NODE> = Vec::new();
        children.push(t);
        children.push(d);
        let ghost cs = children@;
        let n = NODE::with("EXPR", children);
        proof {
            reveal_with_fuel(trees_of, 5);
            assert(trees_of(cs, 0) =~= seq![gt, gd]);
        }
        Ok(n)
    }

    /// EXPRDASH -> PLUS TERM EXPRDASH | epsilon.
    pub fn parse_exprdash(&mut self) -> (r: Result<NODE, ParseError>)
        requires
            old(self).wf(),
        ensures
            final(self).wf(),
            final(self).tokens == old(self).tokens,
            match sp_exprdash(old(self).toks(), old(self).index as int) {
                Parsed::Found(t, j) => r matches Ok(n) && tree_of(n) == t && final(self).index
                    == j,
                Parsed::Failed(e) => r == Result::<NODE, ParseError>::Err(e),
            },
        decreases self.tokens@.len() - self.index, 4int,
    {
        let ghost toks = self.toks();
        let ghost i0 = self.index as int;
        let is_plus = matches!(self.current_token(), TOKEN::PLUS);
        if is_plus {
            self.move_to_next_token();
            let rhs = match self.parse_term() {
                Ok(t) => t,
                Err(e) => {
                    return Err(e);
                },
            };
            proof {
                lemma_parse_bounds(toks, i0 + 1);
            }
            let more = match self.parse_exprdash() {
                Ok(d) => d,
                Err(e) => {
                    return Err(e);
                },
            };
            let ghost grhs = tree_of(rhs);
            let ghost gmore = tree_of(more);
            let plus_leaf = NODE::leaf("PLUS");
            let ghost gplus = tree_of(plus_leaf);
            let mut children: Vec<NODE> = Vec::new();
            children.push(plus_leaf);
            children.push(rhs);
            children.push(more);
            let ghost cs = children@;
            let n = NODE::with("EXPRDASH", children);
            proof {
                reveal_with_fuel(trees_of, 5);
                assert(trees_of(cs, 0) =~= seq![gplus, grhs, gmore]);
            }
            Ok(n)
        } else {
            let eps = NODE::leaf("EPSILON");
            let ghost geps = tree_of(eps);
            let mut children: Vec<NODE> = Vec::new();
            children.push(eps);
            let ghost cs = children@;
            let n = NODE::with("EXPRDASH", children);
            proof {
                reveal_with_fuel(trees_of, 5);
                assert(trees_of(cs, 0) =~= seq![geps]);
            }
            Ok(n)
        }
    }

    /// TERM -> FACTOR TERMDASH.
    pub fn parse_term(&mut self) -> (r: Result<NODE, ParseError>)
        requires
            old(self).wf(),
        ensures
            final(self).wf(),
            final(self).tokens == old(self).tokens,
            match sp_term(old(self).toks(), old(self).index as int) {
                Parsed::Found(t, j) => r matches Ok(n) && tree_of(n) == t && final(self).index
                    == j,
                Parsed::Failed(e) => r == Result::<NODE, ParseError>::Err(e),
            },
        decreases self.tokens@.len() - self.index, 1int,
    {
        let ghost toks = self.toks();
        let ghost i0 = self.index as int;
        let f = match self.parse_factor() {
            Ok(f) => f,
            Err(e) => {
                return Err(e);
            },
        };
        proof {
            lemma_parse_bounds(toks, i0);
        }
        let d = match self.parse_termdash() {
            Ok(d) => d,
            Err(e) => {
                return Err(e);
            },
        };
        let ghost gf = tree_of(f);
        let ghost gd = tree_of(d);
        let mut children: Vec<NODE> = Vec::new();
        children.push(f);
        children.push(d);
        let ghost cs = children@;
        let n = NODE::with("TERM", children);
        proof {
            reveal_with_fuel(trees_of, 5);
            assert(trees_of(cs, 0) =~= seq![gf, gd]);
        }
        Ok(n)
    }

    /// TERMDASH -> STAR FACTOR TERMDASH | epsilon.
    pub fn parse_termdash(&mut self) -> (r: Result<NODE, ParseError>)
        requires
            old(self).wf(),
        ensures
            final(self).wf(),
            final(self).tokens == old(self).tokens,
            match sp_termdash(old(self).toks(), old(self).index as int) {
                Parsed::Found(t, j) => r matches Ok(n) && tree_of(n) == t && final(self).index
                    == j,
                Parsed::Failed(e) => r == Result::<NODE, ParseError>::Err(e),
            },
        decreases self.tokens@.len() - self.index, 2int,
    {
        let ghost toks = self.toks();
        let ghost i0 = self.index as int;
        let is_star = matches!(self.current_token(), TOKEN::STAR);
        if is_star {
            self.move_to_next_token();
            let f = match self.parse_factor() {
                Ok(f) => f,
                Err(e) => {
                    return Err(e);
                },
            };
            proof {
                lemma_parse_bounds(toks, i0 + 1);
            }
            let more = match self.parse_termdash() {
                Ok(d) => d,
                Err(e) => {
                    return Err(e);
                },
            };
            let ghost gf = tree_of(f);
            let ghost gmore = tree_of(more);
            let star_leaf = NODE::leaf("STAR");
            let ghost gstar = tree_of(star_leaf);
            let mut children: Vec<NODE> = Vec::new();
            children.push(star_leaf);
            children.push(f);
            children.push(more);
            let ghost cs = children@;
            let n = NODE::with("TERMDASH", children);
            proof {
                reveal_with_fuel(trees_of, 5);
                assert(trees_of(cs, 0) =~= seq![gstar, gf, gmore]);
            }
            Ok(n)
        } else {
            let eps = NODE::leaf("EPSILON");
            let ghost geps = tree_of(eps);
            let mut children: Vec<NODE> = Vec::new();
            children.push(eps);
            let ghost cs = children@;
            let n = NODE::with("TERMDASH", children);
            proof {
                reveal_with_fuel(trees_of, 5);
                assert(trees_of(cs, 0) =~= seq![geps]);
            }
            Ok(n)
        }
    }

    /// FACTOR -> IDENTIFIER | NUMBER | BOPEN EXPR BCLOSE.
    pub fn parse_factor(&mut self) -> (r: Result<NODE, ParseError>)
        requires
            old(self).wf(),
        ensures
            final(self).wf(),
            final(self).tokens == old(self).tokens,
            match sp_factor(old(self).toks(), old(self).index as int) {
                Parsed::Found(t, j) => r matches Ok(n) && tree_of(n) == t && final(self).index
                    == j,
                Parsed::Failed(e) => r == Result::<NODE, ParseError>::Err(e),
            },
        decreases self.tokens@.len() - self.index, 0int,
    {
        let ghost toks = self.toks();
        let ghost i0 = self.index as int;
        match self.current_token() {
            TOKEN::IDENTIFIER(name) => {
                let mut label = "IDENTIFIER(".to_owned();
                label.append(name.as_str());
                label.append(")");
                let leaf = NODE::leaf(label.as_str());
                let ghost gleaf = tree_of(leaf);
                self.move_to_next_token();
                let mut children: Vec<NODE> = Vec::new();
                children.push(leaf);
                let ghost cs = children@;
                let n = NODE::with("FACTOR", children);
                proof {
                    reveal_with_fuel(trees_of, 5);
                    assert(trees_of(cs, 0) =~= seq![gleaf]);
                }
                Ok(n)
            },
            TOKEN::NUMBER(digits) => {
                let mut label = "NUMBER(".to_owned();
                label.append(digits.as_str());
                label.append(")");
                let leaf = NODE::leaf(label.as_str());
                let ghost gleaf = tree_of(leaf);
                self.move_to_next_token();
                let mut children: Vec<NODE> = Vec::new();
                children.push(leaf);
                let ghost cs = children@;
                let n = NODE::with("FACTOR", children);
                proof {
                    reveal_with_fuel(trees_of, 5);
                    assert(trees_of(cs, 0) =~= seq![gleaf]);
                }
                Ok(n)
            },
            TOKEN::BOPEN => {
                self.move_to_next_token();
                let inside = match self.parse_expr() {
                    Ok(n) => n,
                    Err(e) => {
                        return Err(e);
                    },
                };
                proof {
                    lemma_parse_bounds(toks, i0 + 1);
                }
                let is_close = matches!(self.current_token(), TOKEN::BCLOSE);
                if is_close {
                    self.move_to_next_token();
                    let open_leaf = NODE::leaf("BOPEN");
                    let close_leaf = NODE::leaf("BCLOSE");
                    let ghost gopen = tree_of(open_leaf);
                    let ghost ginside = tree_of(inside);
                    let ghost gclose = tree_of(close_leaf);
                    let mut children: Vec<NODE> = Vec::new();
                    children.push(open_leaf);
                    children.push(inside);
                    children.push(close_leaf);
                    let ghost cs = children@;
                    let n = NODE::with("FACTOR", children);
                    proof {
                        reveal_with_fuel(trees_of, 5);
                        assert(trees_of(cs, 0) =~= seq![gopen, ginside, gclose]);
                    }
                    Ok(n)
                } else {
                    Err(ParseError::MissingCloseParen)
                }
            },
            _ => Err(ParseError::UnexpectedToken),
        }
    }
}

/// The token under the cursor of a token model, `End` past the end.
pub open spec fn cur_tok(toks: Seq<Tok>, i: int) -> Tok {
    if 0 <= i < toks.len() {
        toks[i]
    } else {
        Tok::End
    }
}

/// The leaf label that a consumed token leaves in the tree.
pub open spec fn leaf_text(t: Tok) -> Seq<char> {
    match t {
        Tok::Identifier(name) => ident_label(name),
        Tok::Number(digits) => number_label(digits),
        Tok::Plus => "PLUS"@,
        Tok::Star => "STAR"@,
        Tok::Bopen => "BOPEN"@,
        Tok::Bclose => "BCLOSE"@,
        Tok::Invalid => seq![],
        Tok::End => seq![],
    }
}

/// Whether a leaf label is a consumed token's label rather than EPSILON.
pub open spec fn keeps_label(l: Seq<char>) -> bool {
    l != "EPSILON"@
}

/// A frontier with its EPSILON leaves set aside.
pub open spec fn non_epsilon(ls: Seq<Seq<char>>) -> Seq<Seq<char>> {
    ls.filter(|l: Seq<char>| keeps_label(l))
}

/// The leaf labels of the tokens `i..j`, in order.
pub open spec fn token_texts(toks: Seq<Tok>, i: int, j: int) -> Seq<Seq<char>> {
    toks.subrange(i, j).map_values(|tk: Tok| leaf_text(tk))
}

proof fn lemma_non_epsilon_one(l: Seq<char>)
    ensures
        keeps_label(l) ==> non_epsilon(seq![l]) == seq![l],
        !keeps_label(l) ==> non_epsilon(seq![l]) == Seq::<Seq<char>>::empty(),
{
    reveal_with_fuel(Seq::<_>::filter, 2);
    assert(seq![l].drop_last() =~= Seq::<Seq<char>>::empty());
    if keeps_label(l) {
        assert(non_epsilon(seq![l]) =~= seq![l]);
    } else {
        assert(non_epsilon(seq![l]) =~= Seq::<Seq<char>>::empty());
    }
}

proof fn lemma_real_labels_kept()
    ensures
        keeps_label("PLUS"@),
        keeps_label("STAR"@),
        keeps_label("BOPEN"@),
        keeps_label("BCLOSE"@),
        !keeps_label("EPSILON"@),
        forall|s: Seq<char>| keeps_label(#[trigger] ident_label(s)),
        forall|s: Seq<char>| keeps_label(#[trigger] number_label(s)),
{
    reveal_strlit("EPSILON");
    reveal_strlit("PLUS");
    reveal_strlit("STAR");
    reveal_strlit("BOPEN");
    reveal_strlit("BCLOSE");
    reveal_strlit("IDENTIFIER(");
    reveal_strlit("NUMBER(");
    reveal_strlit(")");
    assert(("EPSILON"@).len() == 7);
    assert(("PLUS"@).len() == 4);
    assert(("STAR"@).len() == 4);
    assert(("BOPEN"@).len() == 5);
    assert(("BCLOSE"@).len() == 6);
    assert forall|s: Seq<char>| keeps_label(#[trigger] ident_label(s)) by {
        assert(ident_label(s).len() == 12 + s.len());
    }
    assert forall|s: Seq<char>| keeps_label(#[trigger] number_label(s)) by {
        assert(number_label(s).len() == 8 + s.len());
    }
}

proof fn lemma_token_texts_concat(toks: Seq<Tok>, i: int, j: int, k: int)
    requires
        0 <= i <= j <= k <= toks.len(),
    ensures
        token_texts(toks, i, k) == token_texts(toks, i, j) + token_texts(toks, j, k),
{
    assert(token_texts(toks, i, k) =~= token_texts(toks, i, j) + token_texts(toks, j, k));
}

proof fn lemma_token_texts_one(toks: Seq<Tok>, i: int)
    requires
        0 <= i < toks.len(),
    ensures
        token_texts(toks, i, i + 1) == seq![leaf_text(toks[i])],
{
    assert(token_texts(toks, i, i + 1) =~= seq![leaf_text(toks[i])]);
}

proof fn lemma_token_texts_empty(toks: Seq<Tok>, i: int)
    requires
        0 <= i <= toks.len(),
    ensures
        token_texts(toks, i, i) == Seq::<Seq<char>>::empty(),
{
    assert(token_texts(toks, i, i) =~= Seq::<Seq<char>>::empty());
}

proof fn lemma_ne_concat(a: Seq<Seq<char>>, b: Seq<Seq<char>>)
    ensures
        non_epsilon(a + b) == non_epsilon(a) + non_epsilon(b),
{
    broadcast use Seq::filter_distributes_over_add;

    assert(non_epsilon(a + b) == non_epsilon(a) + non_epsilon(b));
}

proof fn lemma_frontier_leaf(l: Seq<char>)
    ensures
        frontier(sp_leaf(l)) == seq![l],
{
    assert(frontier(sp_leaf(l)) =~= seq![l]);
}

proof fn lemma_frontier_shapes(t: Tree)
    ensures
        t.children.len() == 1 ==> frontier(t) == frontier(t.children[0]),
        t.children.len() == 2 ==> frontier(t) == frontier(t.children[0]) + frontier(
            t.children[1],
        ),
        t.children.len() == 3 ==> frontier(t) == frontier(t.children[0]) + frontier(
            t.children[1],
        ) + frontier(t.children[2]),
{
    reveal_with_fuel(frontier_seq, 5);
    reveal_with_fuel(frontier, 2);
    if t.children.len() == 1 {
        assert(frontier(t) =~= frontier(t.children[0]));
    } else if t.children.len() == 2 {
        assert(frontier_seq(t.children, 1) =~= frontier(t.children[0]));
        assert(frontier_seq(t.children, 2) =~= frontier_seq(t.children, 1) + frontier(
            t.children[1],
        ));
        assert(frontier(t) =~= frontier(t.children[0]) + frontier(t.children[1]));
    } else if t.children.len() == 3 {
        assert(frontier_seq(t.children, 1) =~= frontier(t.children[0]));
        assert(frontier_seq(t.children, 2) =~= frontier_seq(t.children, 1) + frontier(
            t.children[1],
        ));
        assert(frontier_seq(t.children, 3) =~= frontier_seq(t.children, 2) + frontier(
            t.children[2],
        ));
        assert(frontier(t) =~= frontier(t.children[0]) + frontier(t.children[1]) + frontier(
            t.children[2],
        ));
    }
}

/// The frontier law, rule by rule: wherever the specification parser
/// succeeds, the frontier of the tree it builds, EPSILON leaves set
/// aside, is exactly the sequence of labels of the consumed tokens.
#[verifier::rlimit(100)]
pub proof fn lemma_frontier_rules(toks: Seq<Tok>, i: int)
    requires
        0 <= i <= toks.len(),
    ensures
        sp_factor(toks, i) matches Parsed::Found(t, j) ==> non_epsilon(frontier(t))
            == token_texts(toks, i, j),
        sp_term(toks, i) matches Parsed::Found(t, j) ==> non_epsilon(frontier(t))
            == token_texts(toks, i, j),
        sp_expr(toks, i) matches Parsed::Found(t, j) ==> non_epsilon(frontier(t))
            == token_texts(toks, i, j),
        sp_termdash(toks, i) matches Parsed::Found(t, j) ==> non_epsilon(frontier(t))
            == token_texts(toks, i, j),
        sp_exprdash(toks, i) matches Parsed::Found(t, j) ==> non_epsilon(frontier(t))
            == token_texts(toks, i, j),
    decreases toks.len() - i,
{
    lemma_parse_bounds(toks, i);
    lemma_real_labels_kept();
    // FACTOR
    if 0 <= i < toks.len() {
        match toks[i] {
            Tok::Identifier(name) => {
                let t = Tree {
                    label: "FACTOR"@,
                    children: seq![sp_leaf(ident_label(name))],
                };
                lemma_frontier_shapes(t);
                lemma_frontier_leaf(ident_label(name));
                lemma_non_epsilon_one(ident_label(name));
                lemma_token_texts_one(toks, i);
            },
            Tok::Number(digits) => {
                let t = Tree {
                    label: "FACTOR"@,
                    children: seq![sp_leaf(number_label(digits))],
                };
                lemma_frontier_shapes(t);
                lemma_frontier_leaf(number_label(digits));
                lemma_non_epsilon_one(number_label(digits));
                lemma_token_texts_one(toks, i);
            },
            Tok::Bopen => {
                lemma_parse_bounds(toks, i + 1);
                lemma_frontier_rules(toks, i + 1);
                match sp_expr(toks, i + 1) {
                    Parsed::Found(inside, j) => {
                        if 0 <= j < toks.len() && toks[j] is Bclose {
                            let cs = seq![sp_leaf("BOPEN"@), inside, sp_leaf("BCLOSE"@)];
                            let t = Tree { label: "FACTOR"@, children: cs };
                            lemma_frontier_shapes(t);
                            lemma_frontier_leaf("BOPEN"@);
                            lemma_frontier_leaf("BCLOSE"@);
                            lemma_ne_concat(seq!["BOPEN"@] + frontier(inside), seq!["BCLOSE"@]);
                            lemma_ne_concat(seq!["BOPEN"@], frontier(inside));
                            lemma_non_epsilon_one("BOPEN"@);
                            lemma_non_epsilon_one("BCLOSE"@);
                            assert(non_epsilon(frontier(t)) == seq!["BOPEN"@] + non_epsilon(
                                frontier(inside),
                            ) + seq!["BCLOSE"@]);
                            lemma_token_texts_one(toks, i);
                            lemma_token_texts_one(toks, j);
                            lemma_token_texts_concat(toks, i, i + 1, j);
                            lemma_token_texts_concat(toks, i, j, j + 1);
                            assert(non_epsilon(frontier(t)) == token_texts(toks, i, j + 1));
                        }
                    },
                    Parsed::Failed(e) => {},
                }
            },
            _ => {},
        }
    }
    // TERMDASH and EXPRDASH
    if i < toks.len() && (toks[i] is Plus || toks[i] is Star) {
        lemma_parse_bounds(toks, i + 1);
        lemma_frontier_rules(toks, i + 1);
        match sp_factor(toks, i + 1) {
            Parsed::Found(f, j) => {
                lemma_parse_bounds(toks, j);
                lemma_frontier_rules(toks, j);
                match sp_termdash(toks, j) {
                    Parsed::Found(more, k) => {
                        if toks[i] is Star {
                            let cs = seq![sp_leaf("STAR"@), f, more];
                            let t = Tree { label: "TERMDASH"@, children: cs };
                            lemma_frontier_shapes(t);
                            lemma_frontier_leaf("STAR"@);
                            lemma_ne_concat(seq!["STAR"@] + frontier(f), frontier(more));
                            lemma_ne_concat(seq!["STAR"@], frontier(f));
                            lemma_non_epsilon_one("STAR"@);
                            assert(non_epsilon(frontier(t)) == seq!["STAR"@] + non_epsilon(
                                frontier(f),
                            ) + non_epsilon(frontier(more)));
                            lemma_token_texts_one(toks, i);
                            lemma_token_texts_concat(toks, i, i + 1, j);
                            lemma_token_texts_concat(toks, i, j, k);
                            assert(non_epsilon(frontier(t)) == token_texts(toks, i, k));
                        }
                    },
                    Parsed::Failed(e) => {},
                }
            },
            Parsed::Failed(e) => {},
        }
        match sp_term(toks, i + 1) {
            Parsed::Found(rhs, j) => {
                lemma_parse_bounds(toks, j);
                lemma_frontier_rules(toks, j);
                match sp_exprdash(toks, j) {
                    Parsed::Found(more, k) => {
                        if toks[i] is Plus {
                            let cs = seq![sp_leaf("PLUS"@), rhs, more];
                            let t = Tree { label: "EXPRDASH"@, children: cs };
                            lemma_frontier_shapes(t);
                            lemma_frontier_leaf("PLUS"@);
                            lemma_ne_concat(seq!["PLUS"@] + frontier(rhs), frontier(more));
                            lemma_ne_concat(seq!["PLUS"@], frontier(rhs));
                            lemma_non_epsilon_one("PLUS"@);
                            assert(non_epsilon(frontier(t)) == seq!["PLUS"@] + non_epsilon(
                                frontier(rhs),
                            ) + non_epsilon(frontier(more)));
                            lemma_token_texts_one(toks, i);
                            lemma_token_texts_concat(toks, i, i + 1, j);
                            lemma_token_texts_concat(toks, i, j, k);
                            assert(non_epsilon(frontier(t)) == token_texts(toks, i, k));
                        }
                    },
                    Parsed::Failed(e) => {},
                }
            },
            Parsed::Failed(e) => {},
        }
    }
    // the epsilon productions
    if !(0 <= i < toks.len() && toks[i] is Star) {
        let t = Tree { label: "TERMDASH"@, children: seq![sp_leaf("EPSILON"@)] };
        lemma_frontier_shapes(t);
        lemma_frontier_leaf("EPSILON"@);
        lemma_non_epsilon_one("EPSILON"@);
        lemma_token_texts_empty(toks, i);
        assert(non_epsilon(frontier(t)) == token_texts(toks, i, i));
    }
    if !(0 <= i < toks.len() && toks[i] is Plus) {
        let t = Tree { label: "EXPRDASH"@, children: seq![sp_leaf("EPSILON"@)] };
        lemma_frontier_shapes(t);
        lemma_frontier_leaf("EPSILON"@);
        lemma_non_epsilon_one("EPSILON"@);
        lemma_token_texts_empty(toks, i);
        assert(non_epsilon(frontier(t)) == token_texts(toks, i, i));
    }
    // TERM
    match sp_factor(toks, i) {
        Parsed::Found(f, j) => {
            lemma_parse_bounds(toks, j);
            lemma_frontier_rules(toks, j);
            match sp_termdash(toks, j) {
                Parsed::Found(d, k) => {
                    let t = Tree { label: "TERM"@, children: seq![f, d] };
                    lemma_frontier_shapes(t);
                    lemma_ne_concat(frontier(f), frontier(d));
                    assert(non_epsilon(frontier(t)) == non_epsilon(frontier(f))
                        + non_epsilon(frontier(d)));
                    lemma_token_texts_concat(toks, i, j, k);
                    assert(non_epsilon(frontier(t)) == token_texts(toks, i, k));
                },
                Parsed::Failed(e) => {},
            }
        },
        Parsed::Failed(e) => {},
    }
    // EXPR
    match sp_term(toks, i) {
        Parsed::Found(t1, j) => {
            lemma_parse_bounds(toks, j);
            lemma_frontier_rules(toks, j);
            match sp_exprdash(toks, j) {
                Parsed::Found(d, k) => {
                    let t = Tree { label: "EXPR"@, children: seq![t1, d] };
                    lemma_frontier_shapes(t);
                    lemma_ne_concat(frontier(t1), frontier(d));
                    assert(non_epsilon(frontier(t)) == non_epsilon(frontier(t1))
                        + non_epsilon(frontier(d)));
                    lemma_token_texts_concat(toks, i, j, k);
                    assert(non_epsilon(frontier(t)) == token_texts(toks, i, k));
                },
                Parsed::Failed(e) => {},
            }
        },
        Parsed::Failed(e) => {},
    }
}

/// The frontier law at the entry point: a successful parse of a token
/// sequence yields a tree whose leaf labels, in order and with EPSILON
/// leaves set aside, are exactly the labels of the tokens it consumed —
/// the tree reconstructs its input.
pub proof fn lemma_parse_reconstructs_input(toks: Seq<Tok>)
    ensures
        sp_expr(toks, 0) matches Parsed::Found(t, j) ==> non_epsilon(frontier(t))
            == token_texts(toks, 0, j),
{
    lemma_frontier_rules(toks, 0);
}

} // verus!
