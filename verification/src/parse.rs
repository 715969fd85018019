//! The parser: recursive descent over the tokens of a line, with one token
//! of lookahead and a cursor that is set back where an attempt fails.
//!
//! ```text
//! atom    = (number | identifier | "+" | "-" | "*" | "/" | "%" | "^" | "(" expr ")")
//!           ("(" (expr ("," expr)*)? ")")*
//! primary = atom ("^" factor)?
//! factor  = (("+" | "-") factor) | primary
//! term    = factor (("*" | "/" | "%") factor)*
//! expr    = term (("+" | "-") term)*
//! ```

use vstd::prelude::*;
use vstd::string::*;
use crate::token::{
    Token, TokenKind, TokenView, ends_once, kind_name, lemma_tokens_end_once, token_text,
    token_views, tokens_from, tokenize,
};

verus! {

/// The syntax tree of an expression.
#[derive(Debug)]
pub enum ParseTree {
    /// A number, held as it was written.
    Number(String),
    /// A name to look up; the operators are names like any other.
    Identifier(String),
    /// A call of the first tree's value with the values of the others.
    FunctionCall(Box<ParseTree>, Vec<ParseTree>),
}

/// A syntax tree as contracts speak of it.
pub enum TreeView {
    Number(Seq<char>),
    Identifier(Seq<char>),
    FunctionCall(Box<TreeView>, Seq<TreeView>),
}

/// The tree that `tree` stands for.
pub open spec fn tree_view(tree: ParseTree) -> TreeView
    decreases tree,
{
    match tree {
        ParseTree::Number(text) => TreeView::Number(text@),
        ParseTree::Identifier(name) => TreeView::Identifier(name@),
        ParseTree::FunctionCall(callee, arguments) => TreeView::FunctionCall(
            Box::new(tree_view(*callee)),
            Seq::new(
                arguments@.len(),
                |i: int|
                    if 0 <= i < arguments@.len() {
                        tree_view(arguments@[i])
                    } else {
                        arbitrary()
                    },
            ),
        ),
    }
}

impl View for ParseTree {
    type V = TreeView;

    open spec fn view(&self) -> TreeView {
        tree_view(*self)
    }
}

/// Why a parse failed: the kinds of token that would have been accepted,
/// none where nothing more was expected, and the token that stood there.
#[derive(Debug)]
pub struct ParseError<'a> {
    pub expected: Vec<TokenKind>,
    pub found: Token<'a>,
}

/// A parse error as contracts speak of it.
pub struct ErrorView {
    pub expected: Seq<TokenKind>,
    pub found: TokenView,
}

impl<'a> View for ParseError<'a> {
    type V = ErrorView;

    open spec fn view(&self) -> ErrorView {
        ErrorView { expected: self.expected@, found: self.found@ }
    }
}

impl<'a> Clone for ParseError<'a> {
    fn clone(&self) -> (copy: Self)
        ensures
            copy@ == self@,
    {
        let mut expected: Vec<TokenKind> = Vec::new();
        for i in 0..self.expected.len()
            invariant
                expected@ == self.expected@.take(i as int),
        {
            expected.push(self.expected[i]);
            assert(expected@ =~= self.expected@.take(i + 1));
        }
        assert(expected@ =~= self.expected@);
        ParseError { expected, found: self.found }
    }
}

impl Clone for ParseTree {
    fn clone(&self) -> (copy: Self)
        ensures
            copy@ == self@,
        decreases self,
    {
        match self {
            ParseTree::Number(text) => ParseTree::Number(text.clone()),
            ParseTree::Identifier(name) => ParseTree::Identifier(name.clone()),
            ParseTree::FunctionCall(callee, arguments) => {
                let mut copies: Vec<ParseTree> = Vec::new();
                for i in 0..arguments.len()
                    invariant
                        self is FunctionCall,
                        self->FunctionCall_1 == *arguments,
                        copies@.len() == i,
                        forall|j: int| 0 <= j < i ==> (#[trigger] copies@[j])@ == arguments@[j]@,
                {
                    assert(decreases_to!(*self => self->FunctionCall_1@[i as int]));
                    copies.push(arguments[i].clone());
                }
                let head = (**callee).clone();
                proof {
                    lemma_call_view(head, copies);
                    lemma_call_view(**callee, *arguments);
                    assert(tree_views(copies@) =~= tree_views(arguments@));
                }
                ParseTree::FunctionCall(Box::new(head), copies)
            },
        }
    }
}

/// What a rule of the grammar makes of the tokens from some place on: a
/// tree and the number of tokens that it took, or an error.
pub type Parsed = Result<(TreeView, nat), ErrorView>;

/// What the rule for argument lists makes of them: the arguments and the
/// number of tokens that they took.
pub type ParsedList = Result<(Seq<TreeView>, nat), ErrorView>;

/// The token at `at`; behind the last token, `EndOfFile` without end.
pub open spec fn peek(ts: Seq<TokenView>, at: int) -> TokenView {
    if 0 <= at < ts.len() {
        ts[at]
    } else {
        TokenView { lexeme: Seq::empty(), kind: TokenKind::EndOfFile }
    }
}

/// How many tokens stand at `at` and behind it.
pub open spec fn remaining(ts: Seq<TokenView>, at: int) -> nat {
    if at <= ts.len() {
        (ts.len() - at) as nat
    } else {
        0
    }
}

/// The name under which an operator's token is looked up.
pub open spec fn symbol_name(kind: TokenKind) -> Seq<char> {
    match kind {
        TokenKind::Plus => "+"@,
        TokenKind::Minus => "-"@,
        TokenKind::Star => "*"@,
        TokenKind::Slash => "/"@,
        TokenKind::Percent => "%"@,
        _ => "^"@,
    }
}

/// Whether the token is one of the six operators.
pub open spec fn is_operator(kind: TokenKind) -> bool {
    kind == TokenKind::Plus || kind == TokenKind::Minus || kind == TokenKind::Star || kind
        == TokenKind::Slash || kind == TokenKind::Percent || kind == TokenKind::Caret
}

/// The call of the operator `kind` with the given arguments.
pub open spec fn operation(kind: TokenKind, arguments: Seq<TreeView>) -> TreeView {
    TreeView::FunctionCall(Box::new(TreeView::Identifier(symbol_name(kind))), arguments)
}

/// The error that the token at `at` stands where one of `expected` should.
pub open spec fn unexpected(ts: Seq<TokenView>, at: int, expected: Seq<TokenKind>) -> ErrorView {
    ErrorView { expected, found: peek(ts, at) }
}

/// The kinds that are named where no atom starts.
pub open spec fn atom_starts() -> Seq<TokenKind> {
    seq![
        TokenKind::Number,
        TokenKind::Identifier,
        TokenKind::Plus,
        TokenKind::Minus,
        TokenKind::LeftParenthesis,
    ]
}

/// `parsed` with `count` more tokens taken before it.
pub open spec fn after(count: nat, parsed: Parsed) -> Parsed {
    match parsed {
        Ok((tree, taken)) => Ok((tree, count + taken)),
        Err(error) => Err(error),
    }
}

/// `list` with `count` more tokens taken before it.
pub open spec fn list_after(count: nat, list: ParsedList) -> ParsedList {
    match list {
        Ok((trees, taken)) => Ok((trees, count + taken)),
        Err(error) => Err(error),
    }
}

/// `expr`: terms joined by `+` and `-`, grouped from the left.
#[verifier::opaque]
pub open spec fn expression(ts: Seq<TokenView>, at: int) -> Parsed
    decreases remaining(ts, at), 5int,
{
    match term(ts, at) {
        Ok((left, taken)) => after(taken, sums(ts, left, at + taken)),
        Err(error) => Err(error),
    }
}

/// What follows the first term of an `expr`, of which `left` has been read.
#[verifier::opaque]
pub open spec fn sums(ts: Seq<TokenView>, left: TreeView, at: int) -> Parsed
    decreases remaining(ts, at), 0int,
{
    let kind = peek(ts, at).kind;
    if kind == TokenKind::Plus || kind == TokenKind::Minus {
        match term(ts, at + 1) {
            Ok((right, taken)) => after(
                1 + taken,
                sums(ts, operation(kind, seq![left, right]), at + 1 + taken),
            ),
            Err(error) => Err(error),
        }
    } else {
        Ok((left, 0))
    }
}

/// `term`: factors joined by `*`, `/` and `%`, grouped from the left.
#[verifier::opaque]
pub open spec fn term(ts: Seq<TokenView>, at: int) -> Parsed
    decreases remaining(ts, at), 4int,
{
    match factor(ts, at) {
        Ok((left, taken)) => after(taken, products(ts, left, at + taken)),
        Err(error) => Err(error),
    }
}

/// What follows the first factor of a `term`, of which `left` has been read.
#[verifier::opaque]
pub open spec fn products(ts: Seq<TokenView>, left: TreeView, at: int) -> Parsed
    decreases remaining(ts, at), 0int,
{
    let kind = peek(ts, at).kind;
    if kind == TokenKind::Star || kind == TokenKind::Slash || kind == TokenKind::Percent {
        match factor(ts, at + 1) {
            Ok((right, taken)) => after(
                1 + taken,
                products(ts, operation(kind, seq![left, right]), at + 1 + taken),
            ),
            Err(error) => Err(error),
        }
    } else {
        Ok((left, 0))
    }
}

/// Whether the sign at `at` is an operand and no sign: it is where one of
/// `*`, `/`, `%`, `^` follows it and two factors can be read behind it,
/// one after the other.
#[verifier::opaque]
pub open spec fn sign_is_operand(ts: Seq<TokenView>, at: int) -> bool
    decreases remaining(ts, at), 2int,
{
    let sign = peek(ts, at).kind;
    let next = peek(ts, at + 1).kind;
    &&& sign == TokenKind::Plus || sign == TokenKind::Minus
    &&& next == TokenKind::Star || next == TokenKind::Slash || next == TokenKind::Percent || next
        == TokenKind::Caret
    &&& match factor(ts, at + 1) {
        Ok((_, taken)) => factor(ts, at + 1 + taken) is Ok,
        Err(_) => false,
    }
}

/// `factor`: a sign before a factor, or a primary. A sign that is an
/// operand is left to the primary; so is one behind which no factor can
/// be read.
#[verifier::opaque]
pub open spec fn factor(ts: Seq<TokenView>, at: int) -> Parsed
    decreases remaining(ts, at), 3int,
{
    let sign = peek(ts, at).kind;
    if (sign == TokenKind::Plus || sign == TokenKind::Minus) && !sign_is_operand(ts, at) {
        match factor(ts, at + 1) {
            Ok((operand, taken)) => Ok((operation(sign, seq![operand]), 1 + taken)),
            Err(_) => primary(ts, at),
        }
    } else {
        primary(ts, at)
    }
}

/// `primary`: an atom, or an atom raised to a factor.
#[verifier::opaque]
pub open spec fn primary(ts: Seq<TokenView>, at: int) -> Parsed
    decreases remaining(ts, at), 2int,
{
    match atom(ts, at) {
        Ok((base, taken)) => if peek(ts, at + taken).kind == TokenKind::Caret {
            match factor(ts, at + taken + 1) {
                Ok((exponent, more)) => Ok(
                    (operation(TokenKind::Caret, seq![base, exponent]), taken + 1 + more),
                ),
                Err(error) => Err(error),
            }
        } else {
            Ok((base, taken))
        },
        Err(error) => Err(error),
    }
}

/// `atom`: a number, a name, an operator or an expression in parentheses,
/// called as often as argument lists follow it.
#[verifier::opaque]
pub open spec fn atom(ts: Seq<TokenView>, at: int) -> Parsed
    decreases remaining(ts, at), 1int,
{
    match head(ts, at) {
        Ok((tree, taken)) => after(taken, calls(ts, tree, at + taken)),
        Err(error) => Err(error),
    }
}

/// What an atom starts with, before any argument list.
#[verifier::opaque]
pub open spec fn head(ts: Seq<TokenView>, at: int) -> Parsed
    decreases remaining(ts, at), 0int,
{
    let token = peek(ts, at);
    if token.kind == TokenKind::Number {
        Ok((TreeView::Number(token.lexeme), 1))
    } else if token.kind == TokenKind::Identifier {
        Ok((TreeView::Identifier(token.lexeme), 1))
    } else if is_operator(token.kind) {
        Ok((TreeView::Identifier(symbol_name(token.kind)), 1))
    } else if token.kind == TokenKind::LeftParenthesis {
        match expression(ts, at + 1) {
            Ok((tree, taken)) => if peek(ts, at + 1 + taken).kind == TokenKind::RightParenthesis {
                Ok((tree, taken + 2))
            } else {
                Err(unexpected(ts, at + 1 + taken, seq![TokenKind::RightParenthesis]))
            },
            Err(error) => Err(error),
        }
    } else {
        Err(unexpected(ts, at, atom_starts()))
    }
}

/// The argument lists that follow an atom, of which `callee` has been read.
#[verifier::opaque]
pub open spec fn calls(ts: Seq<TokenView>, callee: TreeView, at: int) -> Parsed
    decreases remaining(ts, at), 0int,
{
    if peek(ts, at).kind == TokenKind::LeftParenthesis {
        match arguments(ts, at + 1) {
            Ok((list, taken)) => if peek(ts, at + 1 + taken).kind == TokenKind::RightParenthesis {
                after(
                    taken + 2,
                    calls(ts, TreeView::FunctionCall(Box::new(callee), list), at + taken + 2),
                )
            } else {
                Err(unexpected(ts, at + 1 + taken, seq![TokenKind::RightParenthesis]))
            },
            Err(error) => Err(error),
        }
    } else {
        Ok((callee, 0))
    }
}

/// The arguments of a call, behind its `(`: none where no expression can
/// be read there, else expressions with commas between them.
#[verifier::opaque]
pub open spec fn arguments(ts: Seq<TokenView>, at: int) -> ParsedList
    decreases remaining(ts, at), 6int,
{
    match expression(ts, at) {
        Ok((first, taken)) => list_after(taken, more_arguments(ts, seq![first], at + taken)),
        Err(_) => Ok((Seq::empty(), 0)),
    }
}

/// What follows the first argument of a call, of which `list` has been read.
#[verifier::opaque]
pub open spec fn more_arguments(ts: Seq<TokenView>, list: Seq<TreeView>, at: int) -> ParsedList
    decreases remaining(ts, at), 0int,
{
    if peek(ts, at).kind == TokenKind::Comma {
        match expression(ts, at + 1) {
            Ok((argument, taken)) => list_after(
                1 + taken,
                more_arguments(ts, list.push(argument), at + 1 + taken),
            ),
            Err(error) => Err(error),
        }
    } else {
        Ok((list, 0))
    }
}

/// A whole line: one expression, and `EndOfFile` behind it.
pub open spec fn line(ts: Seq<TokenView>, at: int) -> Result<TreeView, ErrorView> {
    match expression(ts, at) {
        Ok((tree, taken)) => if peek(ts, at + taken).kind == TokenKind::EndOfFile {
            Ok(tree)
        } else {
            Err(unexpected(ts, at + taken, seq![TokenKind::EndOfFile]))
        },
        Err(error) => Err(error),
    }
}


/// Whether what was parsed at `at` took at least `least` tokens, all of
/// them before the last.
pub open spec fn within(ts: Seq<TokenView>, at: int, least: nat, parsed: Parsed) -> bool {
    match parsed {
        Ok((_, taken)) => least <= taken && at + taken < ts.len(),
        Err(_) => true,
    }
}

/// The same for a list of arguments, which may take no token.
pub open spec fn list_within(ts: Seq<TokenView>, at: int, list: ParsedList) -> bool {
    match list {
        Ok((_, taken)) => at + taken < ts.len(),
        Err(_) => true,
    }
}

/// An expression takes at least one token and never the end of the line.
pub proof fn lemma_expression_within(ts: Seq<TokenView>, at: int)
    requires
        ends_once(ts),
        0 <= at < ts.len(),
    ensures
        within(ts, at, 1, expression(ts, at)),
    decreases remaining(ts, at), 5int,
{
    reveal(expression);
    reveal(term);
    reveal(sums);
    lemma_term_within(ts, at);
    match term(ts, at) {
        Ok((left, taken)) => lemma_sums_within(ts, left, at + taken),
        Err(_) => {},
    }
}

/// What follows the first term never takes the end of the line.
pub proof fn lemma_sums_within(ts: Seq<TokenView>, left: TreeView, at: int)
    requires
        ends_once(ts),
        0 <= at < ts.len(),
    ensures
        within(ts, at, 0, sums(ts, left, at)),
    decreases remaining(ts, at), 0int,
{
    reveal(sums);
    reveal(term);
    let kind = peek(ts, at).kind;
    if kind == TokenKind::Plus || kind == TokenKind::Minus {
        lemma_term_within(ts, at + 1);
        match term(ts, at + 1) {
            Ok((right, taken)) => lemma_sums_within(
                ts,
                operation(kind, seq![left, right]),
                at + 1 + taken,
            ),
            Err(_) => {},
        }
    }
}

/// A term takes at least one token and never the end of the line.
pub proof fn lemma_term_within(ts: Seq<TokenView>, at: int)
    requires
        ends_once(ts),
        0 <= at < ts.len(),
    ensures
        within(ts, at, 1, term(ts, at)),
    decreases remaining(ts, at), 4int,
{
    reveal(term);
    reveal(factor);
    reveal(products);
    lemma_factor_within(ts, at);
    match factor(ts, at) {
        Ok((left, taken)) => lemma_products_within(ts, left, at + taken),
        Err(_) => {},
    }
}

/// What follows the first factor never takes the end of the line.
pub proof fn lemma_products_within(ts: Seq<TokenView>, left: TreeView, at: int)
    requires
        ends_once(ts),
        0 <= at < ts.len(),
    ensures
        within(ts, at, 0, products(ts, left, at)),
    decreases remaining(ts, at), 0int,
{
    reveal(products);
    reveal(factor);
    let kind = peek(ts, at).kind;
    if kind == TokenKind::Star || kind == TokenKind::Slash || kind == TokenKind::Percent {
        lemma_factor_within(ts, at + 1);
        match factor(ts, at + 1) {
            Ok((right, taken)) => lemma_products_within(
                ts,
                operation(kind, seq![left, right]),
                at + 1 + taken,
            ),
            Err(_) => {},
        }
    }
}

/// A factor takes at least one token and never the end of the line.
pub proof fn lemma_factor_within(ts: Seq<TokenView>, at: int)
    requires
        ends_once(ts),
        0 <= at < ts.len(),
    ensures
        within(ts, at, 1, factor(ts, at)),
    decreases remaining(ts, at), 3int,
{
    reveal(factor);
    reveal(sign_is_operand);
    reveal(primary);
    let sign = peek(ts, at).kind;
    if sign == TokenKind::Plus || sign == TokenKind::Minus {
        lemma_factor_within(ts, at + 1);
    }
    lemma_primary_within(ts, at);
}

/// A primary takes at least one token and never the end of the line.
pub proof fn lemma_primary_within(ts: Seq<TokenView>, at: int)
    requires
        ends_once(ts),
        0 <= at < ts.len(),
    ensures
        within(ts, at, 1, primary(ts, at)),
    decreases remaining(ts, at), 2int,
{
    reveal(primary);
    reveal(atom);
    reveal(factor);
    lemma_atom_within(ts, at);
    match atom(ts, at) {
        Ok((_, taken)) => {
            if peek(ts, at + taken).kind == TokenKind::Caret {
                lemma_factor_within(ts, at + taken + 1);
            }
        },
        Err(_) => {},
    }
}

/// An atom takes at least one token and never the end of the line.
pub proof fn lemma_atom_within(ts: Seq<TokenView>, at: int)
    requires
        ends_once(ts),
        0 <= at < ts.len(),
    ensures
        within(ts, at, 1, atom(ts, at)),
    decreases remaining(ts, at), 1int,
{
    reveal(atom);
    reveal(head);
    reveal(calls);
    lemma_head_within(ts, at);
    match head(ts, at) {
        Ok((tree, taken)) => lemma_calls_within(ts, tree, at + taken),
        Err(_) => {},
    }
}

/// What an atom starts with takes at least one token and never the end
/// of the line.
pub proof fn lemma_head_within(ts: Seq<TokenView>, at: int)
    requires
        ends_once(ts),
        0 <= at < ts.len(),
    ensures
        within(ts, at, 1, head(ts, at)),
    decreases remaining(ts, at), 0int,
{
    reveal(head);
    reveal(expression);
    if peek(ts, at).kind == TokenKind::LeftParenthesis {
        lemma_expression_within(ts, at + 1);
    }
}

/// The argument lists behind an atom never take the end of the line.
pub proof fn lemma_calls_within(ts: Seq<TokenView>, callee: TreeView, at: int)
    requires
        ends_once(ts),
        0 <= at < ts.len(),
    ensures
        within(ts, at, 0, calls(ts, callee, at)),
    decreases remaining(ts, at), 0int,
{
    reveal(calls);
    reveal(arguments);
    if peek(ts, at).kind == TokenKind::LeftParenthesis {
        lemma_arguments_within(ts, at + 1);
        match arguments(ts, at + 1) {
            Ok((list, taken)) => {
                if peek(ts, at + 1 + taken).kind == TokenKind::RightParenthesis {
                    lemma_calls_within(
                        ts,
                        TreeView::FunctionCall(Box::new(callee), list),
                        at + taken + 2,
                    );
                }
            },
            Err(_) => {},
        }
    }
}

/// The arguments of a call never take the end of the line.
pub proof fn lemma_arguments_within(ts: Seq<TokenView>, at: int)
    requires
        ends_once(ts),
        0 <= at < ts.len(),
    ensures
        list_within(ts, at, arguments(ts, at)),
    decreases remaining(ts, at), 6int,
{
    reveal(arguments);
    reveal(expression);
    reveal(more_arguments);
    lemma_expression_within(ts, at);
    match expression(ts, at) {
        Ok((first, taken)) => lemma_more_arguments_within(ts, seq![first], at + taken),
        Err(_) => {},
    }
}

/// What follows the first argument never takes the end of the line.
pub proof fn lemma_more_arguments_within(ts: Seq<TokenView>, list: Seq<TreeView>, at: int)
    requires
        ends_once(ts),
        0 <= at < ts.len(),
    ensures
        list_within(ts, at, more_arguments(ts, list, at)),
    decreases remaining(ts, at), 0int,
{
    reveal(more_arguments);
    reveal(expression);
    if peek(ts, at).kind == TokenKind::Comma {
        lemma_expression_within(ts, at + 1);
        match expression(ts, at + 1) {
            Ok((argument, taken)) => lemma_more_arguments_within(
                ts,
                list.push(argument),
                at + 1 + taken,
            ),
            Err(_) => {},
        }
    }
}

/// A line that parses is taken whole: the expression takes every token
/// from the cursor to the end of the line, which is all that is left.
pub proof fn lemma_line_taken_whole(ts: Seq<TokenView>, at: int)
    requires
        ends_once(ts),
        0 <= at < ts.len(),
        line(ts, at) is Ok,
    ensures
        expression(ts, at) is Ok,
        expression(ts, at)->Ok_0.0 == line(ts, at)->Ok_0,
        at + expression(ts, at)->Ok_0.1 == ts.len() - 1,
{
    lemma_expression_within(ts, at);
}

/// What `calls` is, spelled out for one argument list.
pub proof fn lemma_calls_unfold(ts: Seq<TokenView>, callee: TreeView, at: int)
    ensures
        calls(ts, callee, at) == if peek(ts, at).kind == TokenKind::LeftParenthesis {
            match arguments(ts, at + 1) {
                Ok((list, taken)) => if peek(ts, at + 1 + taken).kind
                    == TokenKind::RightParenthesis {
                    after(
                        taken + 2,
                        calls(ts, TreeView::FunctionCall(Box::new(callee), list), at + taken + 2),
                    )
                } else {
                    Err(unexpected(ts, at + 1 + taken, seq![TokenKind::RightParenthesis]))
                },
                Err(error) => Err(error),
            }
        } else {
            Ok((callee, 0))
        },
{
    reveal(calls);
    reveal(arguments);
}

/// The trees that `trees` stand for.
pub open spec fn tree_views(trees: Seq<ParseTree>) -> Seq<TreeView> {
    Seq::new(trees.len(), |i: int| tree_view(trees[i]))
}

/// The view of a call is the call of the views.
pub proof fn lemma_call_view(callee: ParseTree, arguments: Vec<ParseTree>)
    ensures
        ParseTree::FunctionCall(Box::new(callee), arguments)@ == TreeView::FunctionCall(
            Box::new(callee@),
            tree_views(arguments@),
        ),
{
    let tree = ParseTree::FunctionCall(Box::new(callee), arguments);
    assert(tree_view(tree)->FunctionCall_1 =~= tree_views(arguments@));
}

/// Whether a rule's outcome at `at` is what the grammar says: the same
/// tree, and a cursor behind the tokens that it took, or the same error.
pub open spec fn yields<'a>(
    result: Result<(ParseTree, usize), ParseError<'a>>,
    at: int,
    parsed: Parsed,
) -> bool {
    match result {
        Ok((tree, next)) => at <= next && parsed == Ok::<(TreeView, nat), ErrorView>(
            (tree@, (next - at) as nat),
        ),
        Err(error) => parsed == Err::<(TreeView, nat), ErrorView>(error@),
    }
}

/// The same for a list of arguments.
pub open spec fn yields_list<'a>(
    result: Result<(Vec<ParseTree>, usize), ParseError<'a>>,
    at: int,
    parsed: ParsedList,
) -> bool {
    match result {
        Ok((trees, next)) => at <= next && parsed == Ok::<(Seq<TreeView>, nat), ErrorView>(
            (tree_views(trees@), (next - at) as nat),
        ),
        Err(error) => parsed == Err::<(Seq<TreeView>, nat), ErrorView>(error@),
    }
}

fn name(kind: TokenKind) -> (text: String)
    ensures
        text@ == symbol_name(kind),
{
    match kind {
        TokenKind::Plus => "+".to_owned(),
        TokenKind::Minus => "-".to_owned(),
        TokenKind::Star => "*".to_owned(),
        TokenKind::Slash => "/".to_owned(),
        TokenKind::Percent => "%".to_owned(),
        _ => "^".to_owned(),
    }
}

fn apply(callee: ParseTree, arguments: Vec<ParseTree>) -> (tree: ParseTree)
    ensures
        tree@ == TreeView::FunctionCall(Box::new(callee@), tree_views(arguments@)),
{
    proof {
        lemma_call_view(callee, arguments);
    }
    ParseTree::FunctionCall(Box::new(callee), arguments)
}

fn call(kind: TokenKind, arguments: Vec<ParseTree>) -> (tree: ParseTree)
    ensures
        tree@ == operation(kind, tree_views(arguments@)),
{
    apply(ParseTree::Identifier(name(kind)), arguments)
}

fn unary(kind: TokenKind, operand: ParseTree) -> (tree: ParseTree)
    ensures
        tree@ == operation(kind, seq![operand@]),
{
    let arguments = vec![operand];
    assert(tree_views(arguments@) =~= seq![operand@]);
    call(kind, arguments)
}

fn binary(kind: TokenKind, left: ParseTree, right: ParseTree) -> (tree: ParseTree)
    ensures
        tree@ == operation(kind, seq![left@, right@]),
{
    let arguments = vec![left, right];
    assert(tree_views(arguments@) =~= seq![left@, right@]);
    call(kind, arguments)
}

/// A parser: the tokens of a line and a cursor into them.
#[derive(Debug)]
pub struct Parser<'a> {
    tokens: Vec<Token<'a>>,
    position: usize,
}

impl<'a> Parser<'a> {
    /// The tokens that are parsed.
    pub closed spec fn stream(&self) -> Seq<TokenView> {
        token_views(self.tokens@)
    }

    /// How many of the tokens have been taken.
    pub closed spec fn cursor(&self) -> int {
        self.position as int
    }

    #[verifier::type_invariant]
    closed spec fn consistent(&self) -> bool {
        ends_once(token_views(self.tokens@)) && self.position < self.tokens.len()
    }

    /// A parser at the start of `text`.
    pub fn from(text: &'a str) -> (parser: Self)
        ensures
            parser.stream() == tokens_from(text@, 0),
            parser.cursor() == 0,
    {
        proof {
            lemma_tokens_end_once(text@, 0);
        }
        Parser { tokens: tokenize(text), position: 0 }
    }

    /// Parses a whole line from the cursor on: one expression with nothing
    /// but the end of the line behind it. Where that succeeds, the cursor
    /// then stands at the end of the line, with every token before it
    /// taken; where it fails, the cursor stays.
    ///
    /// The rules call each other as deep as the expression is nested:
    /// the call stack is the only bound on nesting.
    pub fn parse(&mut self) -> (result: Result<ParseTree, ParseError<'a>>)
        ensures
            final(self).stream() == old(self).stream(),
            match result {
                Ok(tree) => {
                    &&& line(old(self).stream(), old(self).cursor()) == Ok::<TreeView, ErrorView>(
                        tree@,
                    )
                    &&& final(self).cursor() == old(self).stream().len() - 1
                },
                Err(error) => {
                    &&& line(old(self).stream(), old(self).cursor()) == Err::<TreeView, ErrorView>(
                        error@,
                    )
                    &&& final(self).cursor() == old(self).cursor()
                },
            },
    {
        proof {
            use_type_invariant(&*self);
        }
        match self.expr(self.position) {
            Ok((tree, next)) => {
                if self.token(next).kind == TokenKind::EndOfFile {
                    self.position = next;
                    Ok(tree)
                } else {
                    Err(self.unexpected(next, TokenKind::EndOfFile))
                }
            },
            Err(error) => Err(error),
        }
    }

    fn token(&self, at: usize) -> (token: Token<'a>)
        requires
            at < self.tokens.len(),
        ensures
            token@ == peek(self.stream(), at as int),
            token.kind != TokenKind::EndOfFile ==> at + 1 < self.tokens.len(),
    {
        proof {
            use_type_invariant(self);
        }
        self.tokens[at]
    }

    fn unexpected(&self, at: usize, kind: TokenKind) -> (error: ParseError<'a>)
        requires
            at < self.tokens.len(),
        ensures
            error@ == unexpected(self.stream(), at as int, seq![kind]),
    {
        let expected = vec![kind];
        assert(expected@ =~= seq![kind]);
        ParseError { expected, found: self.token(at) }
    }

    fn no_atom(&self, at: usize) -> (error: ParseError<'a>)
        requires
            at < self.tokens.len(),
        ensures
            error@ == unexpected(self.stream(), at as int, atom_starts()),
    {
        let expected = vec![
            TokenKind::Number,
            TokenKind::Identifier,
            TokenKind::Plus,
            TokenKind::Minus,
            TokenKind::LeftParenthesis,
        ];
        assert(expected@ =~= atom_starts());
        ParseError { expected, found: self.token(at) }
    }

    fn head(&self, at: usize) -> (result: Result<(ParseTree, usize), ParseError<'a>>)
        requires
            at < self.tokens.len(),
        ensures
            yields(result, at as int, head(self.stream(), at as int)),
            result is Ok ==> result->Ok_0.1 < self.tokens.len(),
        decreases self.tokens.len() - at, 0int,
    {
        proof {
            reveal(head);
            reveal(expression);
        }
        let token = self.token(at);
        match token.kind {
            TokenKind::Number => Ok((ParseTree::Number(token.lexeme.to_owned()), at + 1)),
            TokenKind::Identifier => Ok((ParseTree::Identifier(token.lexeme.to_owned()), at + 1)),
            TokenKind::Plus
            | TokenKind::Minus
            | TokenKind::Star
            | TokenKind::Slash
            | TokenKind::Percent
            | TokenKind::Caret => Ok((ParseTree::Identifier(name(token.kind)), at + 1)),
            TokenKind::LeftParenthesis => {
                match self.expr(at + 1) {
                    Ok((tree, next)) => {
                        if self.token(next).kind == TokenKind::RightParenthesis {
                            Ok((tree, next + 1))
                        } else {
                            Err(self.unexpected(next, TokenKind::RightParenthesis))
                        }
                    },
                    Err(error) => Err(error),
                }
            },
            _ => Err(self.no_atom(at)),
        }
    }

    fn arguments(&self, at: usize) -> (result: Result<(Vec<ParseTree>, usize), ParseError<'a>>)
        requires
            at < self.tokens.len(),
        ensures
            yields_list(result, at as int, arguments(self.stream(), at as int)),
            result is Ok ==> result->Ok_0.1 < self.tokens.len(),
        decreases self.tokens.len() - at, 6int,
    {
        let ghost ts = self.stream();
        let mut list: Vec<ParseTree> = Vec::new();
        let mut position: usize = at;
        match self.expr(at) {
            Ok((first, next)) => {
                list.push(first);
                position = next;
                proof {
                    assert(tree_views(list@) =~= seq![first@]);
                    assert(arguments(ts, at as int) == list_after(
                        (next - at) as nat,
                        more_arguments(ts, seq![first@], next as int),
                    )) by {
                        reveal(arguments);
                        reveal(expression);
                        reveal(more_arguments);
                    }
                }
            },
            Err(_) => {
                proof {
                    assert(tree_views(list@) =~= Seq::empty());
                    assert(arguments(ts, at as int) == Ok::<(Seq<TreeView>, nat), ErrorView>(
                        (Seq::empty(), 0nat),
                    )) by {
                        reveal(arguments);
                        reveal(expression);
                        reveal(more_arguments);
                    }
                }
                return Ok((list, at));
            },
        }
        loop
            invariant
                ts == self.stream(),
                at <= position < self.tokens.len(),
                list_after(
                    (position - at) as nat,
                    more_arguments(ts, tree_views(list@), position as int),
                ) == arguments(ts, at as int),
            decreases self.tokens.len() - position,
        {
            let ghost before = tree_views(list@);
            if self.token(position).kind != TokenKind::Comma {
                proof {
                    assert(more_arguments(ts, before, position as int) == Ok::<
                        (Seq<TreeView>, nat),
                        ErrorView,
                    >((before, 0nat))) by {
                        reveal(more_arguments);
                        reveal(expression);
                    }
                }
                return Ok((list, position));
            }
            match self.expr(position + 1) {
                Ok((argument, next)) => {
                    proof {
                        assert(more_arguments(ts, before, position as int) == list_after(
                            (next - position) as nat,
                            more_arguments(ts, before.push(argument@), next as int),
                        )) by {
                            reveal(more_arguments);
                            reveal(expression);
                        }
                    }
                    list.push(argument);
                    position = next;
                    assert(tree_views(list@) =~= before.push(argument@));
                },
                Err(error) => {
                    proof {
                        assert(more_arguments(ts, before, position as int) == Err::<
                            (Seq<TreeView>, nat),
                            ErrorView,
                        >(error@)) by {
                            reveal(more_arguments);
                            reveal(expression);
                        }
                    }
                    return Err(error);
                },
            }
        }
    }

    fn atom(&self, at: usize) -> (result: Result<(ParseTree, usize), ParseError<'a>>)
        requires
            at < self.tokens.len(),
        ensures
            yields(result, at as int, atom(self.stream(), at as int)),
            result is Ok ==> result->Ok_0.1 < self.tokens.len(),
        decreases self.tokens.len() - at, 1int,
    {
        let ghost ts = self.stream();
        let (mut callee, mut position) = match self.head(at) {
            Ok(pair) => pair,
            Err(error) => {
                proof {
                    reveal(atom);
                    reveal(head);
                    reveal(calls);
                }
                return Err(error);
            },
        };
        proof {
            assert(atom(ts, at as int) == after(
                (position - at) as nat,
                calls(ts, callee@, position as int),
            )) by {
                reveal(atom);
                reveal(head);
                reveal(calls);
            }
        }
        loop
            invariant
                ts == self.stream(),
                at <= position < self.tokens.len(),
                after((position - at) as nat, calls(ts, callee@, position as int)) == atom(
                    ts,
                    at as int,
                ),
            decreases self.tokens.len() - position,
        {
            proof {
                lemma_calls_unfold(ts, callee@, position as int);
            }
            if self.token(position).kind != TokenKind::LeftParenthesis {
                return Ok((callee, position));
            }
            match self.arguments(position + 1) {
                Ok((list, next)) => {
                    if self.token(next).kind == TokenKind::RightParenthesis {
                        callee = apply(callee, list);
                        position = next + 1;
                    } else {
                        return Err(self.unexpected(next, TokenKind::RightParenthesis));
                    }
                },
                Err(error) => {
                    return Err(error);
                },
            }
        }
    }

    fn primary(&self, at: usize) -> (result: Result<(ParseTree, usize), ParseError<'a>>)
        requires
            at < self.tokens.len(),
        ensures
            yields(result, at as int, primary(self.stream(), at as int)),
            result is Ok ==> result->Ok_0.1 < self.tokens.len(),
        decreases self.tokens.len() - at, 2int,
    {
        proof {
            reveal(primary);
            reveal(atom);
            reveal(factor);
        }
        match self.atom(at) {
            Ok((base, next)) => {
                if self.token(next).kind == TokenKind::Caret {
                    match self.factor(next + 1) {
                        Ok((exponent, end)) => Ok(
                            (binary(TokenKind::Caret, base, exponent), end),
                        ),
                        Err(error) => Err(error),
                    }
                } else {
                    Ok((base, next))
                }
            },
            Err(error) => Err(error),
        }
    }

    fn sign_is_operand(&self, at: usize) -> (answer: bool)
        requires
            at < self.tokens.len(),
        ensures
            answer == sign_is_operand(self.stream(), at as int),
        decreases self.tokens.len() - at, 2int,
    {
        proof {
            reveal(sign_is_operand);
            reveal(factor);
        }
        let sign = self.token(at).kind;
        if !(sign == TokenKind::Plus || sign == TokenKind::Minus) {
            return false;
        }
        let next = self.token(at + 1).kind;
        if !(next == TokenKind::Star || next == TokenKind::Slash || next == TokenKind::Percent
            || next == TokenKind::Caret) {
            return false;
        }
        match self.factor(at + 1) {
            Ok((_, behind)) => self.factor(behind).is_ok(),
            Err(_) => false,
        }
    }

    fn factor(&self, at: usize) -> (result: Result<(ParseTree, usize), ParseError<'a>>)
        requires
            at < self.tokens.len(),
        ensures
            yields(result, at as int, factor(self.stream(), at as int)),
            result is Ok ==> result->Ok_0.1 < self.tokens.len(),
        decreases self.tokens.len() - at, 3int,
    {
        proof {
            reveal(factor);
            reveal(sign_is_operand);
            reveal(primary);
        }
        let sign = self.token(at).kind;
        if (sign == TokenKind::Plus || sign == TokenKind::Minus) && !self.sign_is_operand(at) {
            match self.factor(at + 1) {
                Ok((operand, next)) => Ok((unary(sign, operand), next)),
                Err(_) => self.primary(at),
            }
        } else {
            self.primary(at)
        }
    }

    fn term(&self, at: usize) -> (result: Result<(ParseTree, usize), ParseError<'a>>)
        requires
            at < self.tokens.len(),
        ensures
            yields(result, at as int, term(self.stream(), at as int)),
            result is Ok ==> result->Ok_0.1 < self.tokens.len(),
        decreases self.tokens.len() - at, 4int,
    {
        let ghost ts = self.stream();
        let (mut left, mut position) = match self.factor(at) {
            Ok(pair) => pair,
            Err(error) => {
                proof {
                    reveal(term);
                    reveal(factor);
                    reveal(products);
                }
                return Err(error);
            },
        };
        proof {
            assert(term(ts, at as int) == after(
                (position - at) as nat,
                products(ts, left@, position as int),
            )) by {
                reveal(term);
                reveal(factor);
                reveal(products);
            }
        }
        loop
            invariant
                ts == self.stream(),
                at <= position < self.tokens.len(),
                after((position - at) as nat, products(ts, left@, position as int)) == term(
                    ts,
                    at as int,
                ),
            decreases self.tokens.len() - position,
        {
            let ghost before = left@;
            let kind = self.token(position).kind;
            if !(kind == TokenKind::Star || kind == TokenKind::Slash || kind
                == TokenKind::Percent) {
                proof {
                    assert(products(ts, before, position as int) == Ok::<
                        (TreeView, nat),
                        ErrorView,
                    >((before, 0nat))) by {
                        reveal(products);
                        reveal(factor);
                    }
                }
                return Ok((left, position));
            }
            match self.factor(position + 1) {
                Ok((right, next)) => {
                    proof {
                        assert(products(ts, before, position as int) == after(
                            (next - position) as nat,
                            products(ts, operation(kind, seq![before, right@]), next as int),
                        )) by {
                            reveal(products);
                            reveal(factor);
                        }
                    }
                    left = binary(kind, left, right);
                    position = next;
                },
                Err(error) => {
                    proof {
                        assert(products(ts, before, position as int) == Err::<
                            (TreeView, nat),
                            ErrorView,
                        >(error@)) by {
                            reveal(products);
                            reveal(factor);
                        }
                    }
                    return Err(error);
                },
            }
        }
    }

    fn expr(&self, at: usize) -> (result: Result<(ParseTree, usize), ParseError<'a>>)
        requires
            at < self.tokens.len(),
        ensures
            yields(result, at as int, expression(self.stream(), at as int)),
            result is Ok ==> result->Ok_0.1 < self.tokens.len(),
        decreases self.tokens.len() - at, 5int,
    {
        let ghost ts = self.stream();
        let (mut left, mut position) = match self.term(at) {
            Ok(pair) => pair,
            Err(error) => {
                proof {
                    reveal(expression);
                    reveal(term);
                    reveal(sums);
                }
                return Err(error);
            },
        };
        proof {
            assert(expression(ts, at as int) == after(
                (position - at) as nat,
                sums(ts, left@, position as int),
            )) by {
                reveal(expression);
                reveal(term);
                reveal(sums);
            }
        }
        loop
            invariant
                ts == self.stream(),
                at <= position < self.tokens.len(),
                after((position - at) as nat, sums(ts, left@, position as int)) == expression(
                    ts,
                    at as int,
                ),
            decreases self.tokens.len() - position,
        {
            let ghost before = left@;
            let kind = self.token(position).kind;
            if !(kind == TokenKind::Plus || kind == TokenKind::Minus) {
                proof {
                    assert(sums(ts, before, position as int) == Ok::<(TreeView, nat), ErrorView>(
                        (before, 0nat),
                    )) by {
                        reveal(sums);
                        reveal(term);
                    }
                }
                return Ok((left, position));
            }
            match self.term(position + 1) {
                Ok((right, next)) => {
                    proof {
                        assert(sums(ts, before, position as int) == after(
                            (next - position) as nat,
                            sums(ts, operation(kind, seq![before, right@]), next as int),
                        )) by {
                            reveal(sums);
                            reveal(term);
                        }
                    }
                    left = binary(kind, left, right);
                    position = next;
                },
                Err(error) => {
                    proof {
                        assert(sums(ts, before, position as int) == Err::<
                            (TreeView, nat),
                            ErrorView,
                        >(error@)) by {
                            reveal(sums);
                            reveal(term);
                        }
                    }
                    return Err(error);
                },
            }
        }
    }
}

impl<'a> Clone for Parser<'a> {
    fn clone(&self) -> (copy: Self)
        ensures
            copy.stream() == self.stream(),
            copy.cursor() == self.cursor(),
    {
        proof {
            use_type_invariant(self);
        }
        let mut tokens: Vec<Token<'a>> = Vec::new();
        for i in 0..self.tokens.len()
            invariant
                tokens@ == self.tokens@.take(i as int),
        {
            tokens.push(self.tokens[i]);
            assert(tokens@ =~= self.tokens@.take(i + 1));
        }
        assert(tokens@ =~= self.tokens@);
        Parser { tokens, position: self.position }
    }
}

/// The names of the kinds, with ` or ` between them.
pub open spec fn alternatives(kinds: Seq<TokenKind>) -> Seq<char>
    decreases kinds.len(),
{
    if kinds.len() == 0 {
        Seq::empty()
    } else if kinds.len() == 1 {
        kind_name(kinds[0])
    } else {
        alternatives(kinds.drop_last()) + " or "@ + kind_name(kinds.last())
    }
}

/// A parse error as it is shown: where kinds were expected, they are
/// named first; then the token that was found.
pub open spec fn error_text(error: ErrorView) -> Seq<char> {
    if error.expected.len() > 0 {
        "expected a token of type "@ + alternatives(error.expected) + " but "@ + "found "@
            + token_text(error.found)
    } else {
        "found "@ + token_text(error.found)
    }
}

impl<'a> ParseError<'a> {
    /// The error as it is shown.
    pub fn to_string(&self) -> (text: String)
        ensures
            text@ == error_text(self@),
    {
        let mut text = String::new();
        if self.expected.len() > 0 {
            text.append("expected a token of type ");
            text.append(self.expected[0].name());
            let ghost lead = "expected a token of type "@;
            assert(self.expected@.take(1) =~= seq![self.expected@[0]]);
            assert(text@ =~= lead + alternatives(self.expected@.take(1)));
            for i in 1..self.expected.len()
                invariant
                    lead == "expected a token of type "@,
                    text@ == lead + alternatives(self.expected@.take(i as int)),
            {
                assert(self.expected@.take(i + 1).drop_last() =~= self.expected@.take(i as int));
                text.append(" or ");
                text.append(self.expected[i].name());
                assert(text@ =~= lead + alternatives(self.expected@.take(i + 1)));
            }
            assert(self.expected@.take(self.expected.len() as int) =~= self.expected@);
            text.append(" but ");
        }
        text.append("found ");
        let found = self.found.to_string();
        text.append(found.as_str());
        text
    }
}

impl ParseTree {
    /// Parses a whole line.
    pub fn try_from<'a>(text: &'a str) -> (result: Result<ParseTree, ParseError<'a>>)
        ensures
            match result {
                Ok(tree) => line(tokens_from(text@, 0), 0) == Ok::<TreeView, ErrorView>(tree@),
                Err(error) => line(tokens_from(text@, 0), 0) == Err::<TreeView, ErrorView>(error@),
            },
    {
        let mut parser = Parser::from(text);
        parser.parse()
    }
}


} // verus!
