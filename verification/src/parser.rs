//! The syntax tree and the parser that builds it from tokens.
use vstd::prelude::*;
use crate::lexer::{
    LexError, LexErrorView, Token, TokenType, TokenTypeView, TokenView, described,
    lex_error_message, same_kind, tokens_view,
};
use crate::types::{VaderValue, ValueView, value_view};
use crate::text::{strings_view, copy_strings, is_word};

verus! {

/// A node of the syntax tree.
#[derive(Debug, PartialEq)]
#[allow(inconsistent_fields)]
pub enum AstNode {
    Literal { value: VaderValue },
    Variable { name: String },
    BinaryOp { left: Box<AstNode>, operator: String, right: Box<AstNode> },
    UnaryOp { operator: String, operand: Box<AstNode> },
    Assignment { name: String, value: Box<AstNode> },
    FunctionCall { name: String, args: Vec<AstNode> },
    FunctionDef { name: String, params: Vec<String>, body: Vec<AstNode> },
    If { condition: Box<AstNode>, then_branch: Vec<AstNode>, else_branch: Option<Vec<AstNode>> },
    While { condition: Box<AstNode>, body: Vec<AstNode> },
    For { variable: String, iterable: Box<AstNode>, body: Vec<AstNode> },
    List { elements: Vec<AstNode> },
    Dict { pairs: Vec<(AstNode, AstNode)> },
    Index { object: Box<AstNode>, index: Box<AstNode> },
    MemberAccess { object: Box<AstNode>, member: String },
    Return { value: Option<Box<AstNode>> },
    Block { statements: Vec<AstNode> },
}

/// The mathematical model of a syntax tree node.
#[allow(inconsistent_fields)]
pub enum NodeView {
    Literal { value: ValueView },
    Variable { name: Seq<char> },
    BinaryOp { left: Box<NodeView>, operator: Seq<char>, right: Box<NodeView> },
    UnaryOp { operator: Seq<char>, operand: Box<NodeView> },
    Assignment { name: Seq<char>, value: Box<NodeView> },
    FunctionCall { name: Seq<char>, args: Seq<NodeView> },
    FunctionDef { name: Seq<char>, params: Seq<Seq<char>>, body: Seq<NodeView> },
    If { condition: Box<NodeView>, then_branch: Seq<NodeView>, else_branch: Option<Seq<NodeView>> },
    While { condition: Box<NodeView>, body: Seq<NodeView> },
    For { variable: Seq<char>, iterable: Box<NodeView>, body: Seq<NodeView> },
    List { elements: Seq<NodeView> },
    Dict { pairs: Seq<(NodeView, NodeView)> },
    Index { object: Box<NodeView>, index: Box<NodeView> },
    MemberAccess { object: Box<NodeView>, member: Seq<char> },
    Return { value: Option<Box<NodeView>> },
    Block { statements: Seq<NodeView> },
}

/// The model of a node. `AstNode`'s view is this function.
pub open spec fn node_view(node: AstNode) -> NodeView
    decreases node,
{
    match node {
        AstNode::Literal { value } => NodeView::Literal { value: value_view(value) },
        AstNode::Variable { name } => NodeView::Variable { name: name@ },
        AstNode::BinaryOp { left, operator, right } => NodeView::BinaryOp {
            left: Box::new(node_view(*left)),
            operator: operator@,
            right: Box::new(node_view(*right)),
        },
        AstNode::UnaryOp { operator, operand } => NodeView::UnaryOp {
            operator: operator@,
            operand: Box::new(node_view(*operand)),
        },
        AstNode::Assignment { name, value } => NodeView::Assignment {
            name: name@,
            value: Box::new(node_view(*value)),
        },
        AstNode::FunctionCall { name, args } => NodeView::FunctionCall {
            name: name@,
            args: Seq::new(
                args@.len(),
                |i: int|
                    if 0 <= i < args@.len() {
                        node_view(args@[i])
                    } else {
                        arbitrary()
                    },
            ),
        },
        AstNode::FunctionDef { name, params, body } => NodeView::FunctionDef {
            name: name@,
            params: strings_view(params@),
            body: Seq::new(
                body@.len(),
                |i: int|
                    if 0 <= i < body@.len() {
                        node_view(body@[i])
                    } else {
                        arbitrary()
                    },
            ),
        },
        AstNode::If { condition, then_branch, else_branch } => NodeView::If {
            condition: Box::new(node_view(*condition)),
            then_branch: Seq::new(
                then_branch@.len(),
                |i: int|
                    if 0 <= i < then_branch@.len() {
                        node_view(then_branch@[i])
                    } else {
                        arbitrary()
                    },
            ),
            else_branch: match else_branch {
                Some(branch) => Some(
                    Seq::new(
                        branch@.len(),
                        |i: int|
                            if 0 <= i < branch@.len() {
                                node_view(branch@[i])
                            } else {
                                arbitrary()
                            },
                    ),
                ),
                None => None,
            },
        },
        AstNode::While { condition, body } => NodeView::While {
            condition: Box::new(node_view(*condition)),
            body: Seq::new(
                body@.len(),
                |i: int|
                    if 0 <= i < body@.len() {
                        node_view(body@[i])
                    } else {
                        arbitrary()
                    },
            ),
        },
        AstNode::For { variable, iterable, body } => NodeView::For {
            variable: variable@,
            iterable: Box::new(node_view(*iterable)),
            body: Seq::new(
                body@.len(),
                |i: int|
                    if 0 <= i < body@.len() {
                        node_view(body@[i])
                    } else {
                        arbitrary()
                    },
            ),
        },
        AstNode::List { elements } => NodeView::List {
            elements: Seq::new(
                elements@.len(),
                |i: int|
                    if 0 <= i < elements@.len() {
                        node_view(elements@[i])
                    } else {
                        arbitrary()
                    },
            ),
        },
        AstNode::Dict { pairs } => NodeView::Dict {
            pairs: Seq::new(
                pairs@.len(),
                |i: int|
                    if 0 <= i < pairs@.len() {
                        (node_view(pairs@[i].0), node_view(pairs@[i].1))
                    } else {
                        arbitrary()
                    },
            ),
        },
        AstNode::Index { object, index } => NodeView::Index {
            object: Box::new(node_view(*object)),
            index: Box::new(node_view(*index)),
        },
        AstNode::MemberAccess { object, member } => NodeView::MemberAccess {
            object: Box::new(node_view(*object)),
            member: member@,
        },
        AstNode::Return { value } => NodeView::Return {
            value: match value {
                Some(inner) => Some(Box::new(node_view(*inner))),
                None => None,
            },
        },
        AstNode::Block { statements } => NodeView::Block {
            statements: Seq::new(
                statements@.len(),
                |i: int|
                    if 0 <= i < statements@.len() {
                        node_view(statements@[i])
                    } else {
                        arbitrary()
                    },
            ),
        },
    }
}

impl View for AstNode {
    type V = NodeView;

    open spec fn view(&self) -> NodeView {
        node_view(*self)
    }
}

/// The models of a sequence of nodes.
pub open spec fn nodes_view(nodes: Seq<AstNode>) -> Seq<NodeView> {
    Seq::new(nodes.len(), |i: int| nodes[i]@)
}

/// The models of a sequence of pairs of nodes.
pub open spec fn pairs_view(pairs: Seq<(AstNode, AstNode)>) -> Seq<(NodeView, NodeView)> {
    Seq::new(pairs.len(), |i: int| (pairs[i].0@, pairs[i].1@))
}

/// The model of an optional sequence of nodes.
pub open spec fn branch_view(branch: Option<Vec<AstNode>>) -> Option<Seq<NodeView>> {
    match branch {
        Some(nodes) => Some(nodes_view(nodes@)),
        None => None,
    }
}

/// The model of a node, written with the models of its parts.
pub open spec fn node_model(node: AstNode) -> NodeView {
    match node {
        AstNode::Literal { value } => NodeView::Literal { value: value@ },
        AstNode::Variable { name } => NodeView::Variable { name: name@ },
        AstNode::BinaryOp { left, operator, right } => NodeView::BinaryOp {
            left: Box::new((*left)@),
            operator: operator@,
            right: Box::new((*right)@),
        },
        AstNode::UnaryOp { operator, operand } => NodeView::UnaryOp {
            operator: operator@,
            operand: Box::new((*operand)@),
        },
        AstNode::Assignment { name, value } => NodeView::Assignment {
            name: name@,
            value: Box::new((*value)@),
        },
        AstNode::FunctionCall { name, args } => NodeView::FunctionCall {
            name: name@,
            args: nodes_view(args@),
        },
        AstNode::FunctionDef { name, params, body } => NodeView::FunctionDef {
            name: name@,
            params: strings_view(params@),
            body: nodes_view(body@),
        },
        AstNode::If { condition, then_branch, else_branch } => NodeView::If {
            condition: Box::new((*condition)@),
            then_branch: nodes_view(then_branch@),
            else_branch: branch_view(else_branch),
        },
        AstNode::While { condition, body } => NodeView::While {
            condition: Box::new((*condition)@),
            body: nodes_view(body@),
        },
        AstNode::For { variable, iterable, body } => NodeView::For {
            variable: variable@,
            iterable: Box::new((*iterable)@),
            body: nodes_view(body@),
        },
        AstNode::List { elements } => NodeView::List { elements: nodes_view(elements@) },
        AstNode::Dict { pairs } => NodeView::Dict { pairs: pairs_view(pairs@) },
        AstNode::Index { object, index } => NodeView::Index {
            object: Box::new((*object)@),
            index: Box::new((*index)@),
        },
        AstNode::MemberAccess { object, member } => NodeView::MemberAccess {
            object: Box::new((*object)@),
            member: member@,
        },
        AstNode::Return { value } => NodeView::Return {
            value: match value {
                Some(inner) => Some(Box::new((*inner)@)),
                None => None,
            },
        },
        AstNode::Block { statements } => NodeView::Block { statements: nodes_view(statements@) },
    }
}

/// A node's view is built from the views of its parts.
pub proof fn lemma_node_view(node: AstNode)
    ensures
        node@ == node_model(node),
{
    match node {
        AstNode::FunctionCall { name, args } => {
            assert(node@->FunctionCall_args =~= nodes_view(args@));
        },
        AstNode::FunctionDef { name, params, body } => {
            assert(node@->FunctionDef_body =~= nodes_view(body@));
        },
        AstNode::If { condition, then_branch, else_branch } => {
            assert(node@->If_then_branch =~= nodes_view(then_branch@));
            match else_branch {
                Some(branch) => {
                    assert(node@->If_else_branch->0 =~= nodes_view(branch@));
                },
                None => {},
            }
        },
        AstNode::While { condition, body } => {
            assert(node@->While_body =~= nodes_view(body@));
        },
        AstNode::For { variable, iterable, body } => {
            assert(node@->For_body =~= nodes_view(body@));
        },
        AstNode::List { elements } => {
            assert(node@->List_elements =~= nodes_view(elements@));
        },
        AstNode::Dict { pairs } => {
            assert(node@->Dict_pairs =~= pairs_view(pairs@));
        },
        AstNode::Block { statements } => {
            assert(node@->Block_statements =~= nodes_view(statements@));
        },
        _ => {},
    }
}

/// A copy of a sequence of nodes.
#[verifier::loop_isolation(false)]
pub fn copy_nodes(nodes: &Vec<AstNode>) -> (copy: Vec<AstNode>)
    ensures
        nodes_view(copy@) == nodes_view(nodes@),
    decreases nodes,
{
    let mut copy: Vec<AstNode> = Vec::new();
    let mut at: usize = 0;
    while at < nodes.len()
        invariant
            at <= nodes.len(),
            nodes_view(copy@) =~= nodes_view(nodes@).subrange(0, at as int),
        decreases nodes.len() - at,
    {
        copy.push(nodes[at].copy());
        at = at + 1;
    }
    assert(nodes_view(copy@) =~= nodes_view(nodes@));
    copy
}

#[verifier::loop_isolation(false)]
fn copy_pairs(pairs: &Vec<(AstNode, AstNode)>) -> (copy: Vec<(AstNode, AstNode)>)
    ensures
        pairs_view(copy@) == pairs_view(pairs@),
    decreases pairs,
{
    let mut copy: Vec<(AstNode, AstNode)> = Vec::new();
    let mut at: usize = 0;
    while at < pairs.len()
        invariant
            at <= pairs.len(),
            pairs_view(copy@) =~= pairs_view(pairs@).subrange(0, at as int),
        decreases pairs.len() - at,
    {
        let key = pairs[at].0.copy();
        let value = pairs[at].1.copy();
        copy.push((key, value));
        at = at + 1;
    }
    assert(pairs_view(copy@) =~= pairs_view(pairs@));
    copy
}

impl AstNode {
    /// A copy of the node, with the same view.
    pub fn copy(&self) -> (copy: AstNode)
        ensures
            copy@ == self@,
        decreases self,
    {
        let copy = match self {
            AstNode::Literal { value } => AstNode::Literal { value: value.copy() },
            AstNode::Variable { name } => AstNode::Variable { name: name.clone() },
            AstNode::BinaryOp { left, operator, right } => AstNode::BinaryOp {
                left: Box::new(left.copy()),
                operator: operator.clone(),
                right: Box::new(right.copy()),
            },
            AstNode::UnaryOp { operator, operand } => AstNode::UnaryOp {
                operator: operator.clone(),
                operand: Box::new(operand.copy()),
            },
            AstNode::Assignment { name, value } => AstNode::Assignment {
                name: name.clone(),
                value: Box::new(value.copy()),
            },
            AstNode::FunctionCall { name, args } => AstNode::FunctionCall {
                name: name.clone(),
                args: copy_nodes(args),
            },
            AstNode::FunctionDef { name, params, body } => AstNode::FunctionDef {
                name: name.clone(),
                params: copy_strings(params),
                body: copy_nodes(body),
            },
            AstNode::If { condition, then_branch, else_branch } => AstNode::If {
                condition: Box::new(condition.copy()),
                then_branch: copy_nodes(then_branch),
                else_branch: match else_branch {
                    Some(branch) => Some(copy_nodes(branch)),
                    None => None,
                },
            },
            AstNode::While { condition, body } => AstNode::While {
                condition: Box::new(condition.copy()),
                body: copy_nodes(body),
            },
            AstNode::For { variable, iterable, body } => AstNode::For {
                variable: variable.clone(),
                iterable: Box::new(iterable.copy()),
                body: copy_nodes(body),
            },
            AstNode::List { elements } => AstNode::List { elements: copy_nodes(elements) },
            AstNode::Dict { pairs } => AstNode::Dict { pairs: copy_pairs(pairs) },
            AstNode::Index { object, index } => AstNode::Index {
                object: Box::new(object.copy()),
                index: Box::new(index.copy()),
            },
            AstNode::MemberAccess { object, member } => AstNode::MemberAccess {
                object: Box::new(object.copy()),
                member: member.clone(),
            },
            AstNode::Return { value } => AstNode::Return {
                value: match value {
                    Some(inner) => Some(Box::new(inner.copy())),
                    None => None,
                },
            },
            AstNode::Block { statements } => AstNode::Block { statements: copy_nodes(statements) },
        };
        proof {
            lemma_node_view(copy);
            lemma_node_view(*self);
        }
        copy
    }
}

impl Clone for AstNode {
    fn clone(&self) -> (copy: Self)
        ensures
            copy@ == self@,
    {
        self.copy()
    }
}

} // verus!

verus! {

/// Why a sequence of tokens is no program.
#[derive(Debug, Clone, PartialEq)]
pub enum ParseError {
    /// A token that cannot stand where it stands.
    UnexpectedToken(Token),
    /// The tokens end where more are needed.
    UnexpectedEof,
    InvalidExpression,
    LexError(LexError),
}

pub enum ParseErrorView {
    UnexpectedToken(TokenView),
    UnexpectedEof,
    InvalidExpression,
    LexError(LexErrorView),
}

impl View for ParseError {
    type V = ParseErrorView;

    open spec fn view(&self) -> ParseErrorView {
        match self {
            ParseError::UnexpectedToken(token) => ParseErrorView::UnexpectedToken(token@),
            ParseError::UnexpectedEof => ParseErrorView::UnexpectedEof,
            ParseError::InvalidExpression => ParseErrorView::InvalidExpression,
            ParseError::LexError(error) => ParseErrorView::LexError(error@),
        }
    }
}

/// The one-line diagnostic of a parse error.
pub open spec fn parse_error_message(error: ParseErrorView) -> Seq<char> {
    match error {
        ParseErrorView::UnexpectedToken(token) => "Token inesperado: "@ + described(token),
        ParseErrorView::UnexpectedEof => "Fin de archivo inesperado"@,
        ParseErrorView::InvalidExpression => "Expresión inválida"@,
        ParseErrorView::LexError(error) => "Error de lexer: "@ + lex_error_message(error),
    }
}

impl ParseError {
    /// The one-line diagnostic of the error.
    pub fn message(&self) -> (text: String)
        ensures
            text@ == parse_error_message(self@),
    {
        match self {
            ParseError::UnexpectedToken(token) => {
                let mut text = String::from_str("Token inesperado: ");
                text.append(token.describe().as_str());
                text
            },
            ParseError::UnexpectedEof => String::from_str("Fin de archivo inesperado"),
            ParseError::InvalidExpression => String::from_str("Expresión inválida"),
            ParseError::LexError(error) => {
                let mut text = String::from_str("Error de lexer: ");
                text.append(error.message().as_str());
                text
            },
        }
    }

    /// The parse error that stands for a lexical error.
    pub fn from_lex(error: LexError) -> (wrapped: ParseError)
        ensures
            wrapped@ == ParseErrorView::LexError(error@),
    {
        ParseError::LexError(error)
    }
}

/// What a parse gives: what it built and the position after it.
pub type Parsed<T> = Result<(T, int), ParseErrorView>;

/// The kind of the token at a position; `Eof` past the last token.
pub open spec fn kind_at(tokens: Seq<TokenView>, at: int) -> TokenTypeView {
    if 0 <= at < tokens.len() {
        tokens[at].token_type
    } else {
        TokenTypeView::Eof
    }
}

/// Whether no token is left to read at a position.
pub open spec fn at_end(tokens: Seq<TokenView>, at: int) -> bool {
    kind_at(tokens, at) is Eof
}

/// How many tokens can still be read from a position.
pub open spec fn remaining(tokens: Seq<TokenView>, at: int) -> nat {
    if at < tokens.len() {
        (tokens.len() - at) as nat
    } else {
        0
    }
}

/// The error for a token that cannot stand at a position.
pub open spec fn unexpected(tokens: Seq<TokenView>, at: int) -> ParseErrorView {
    if at_end(tokens, at) {
        ParseErrorView::UnexpectedEof
    } else {
        ParseErrorView::UnexpectedToken(tokens[at])
    }
}

/// The position `next` that a parse from `at` reached. Every parse that
/// succeeds ends after the position it started from, as
/// `lemma_statement_advances` and the lemmas beside it show; this states it
/// where the definitions below need it to terminate.
pub open spec fn after(at: int, next: int) -> int {
    if next > at {
        next
    } else {
        at + 1
    }
}

/// The first position from `at` on that holds no `Newline`.
pub open spec fn past_newlines(tokens: Seq<TokenView>, at: int) -> int
    decreases remaining(tokens, at),
{
    if kind_at(tokens, at) is Newline {
        past_newlines(tokens, at + 1)
    } else {
        at
    }
}

pub proof fn lemma_past_newlines(tokens: Seq<TokenView>, at: int)
    ensures
        at <= past_newlines(tokens, at),
        !(kind_at(tokens, past_newlines(tokens, at)) is Newline),
    decreases remaining(tokens, at),
{
    if kind_at(tokens, at) is Newline {
        lemma_past_newlines(tokens, at + 1);
    }
}

/// The position after a `:` at `at`, if there is one.
pub open spec fn past_colon(tokens: Seq<TokenView>, at: int) -> int {
    if kind_at(tokens, at) is Colon {
        at + 1
    } else {
        at
    }
}

/// Whether a token is the keyword with one of two spellings.
pub open spec fn is_keyword(kind: TokenTypeView, spanish: Seq<char>, english: Seq<char>) -> bool {
    kind matches TokenTypeView::Keyword(word) && (word == spanish || word == english)
}

/// Whether a token closes the block before it: `sino`, `else`, `fin`,
/// `end`, `funcion` or `function`.
pub open spec fn closes_block(kind: TokenTypeView) -> bool {
    is_keyword(kind, "sino"@, "else"@) || is_keyword(kind, "fin"@, "end"@) || is_keyword(
        kind,
        "funcion"@,
        "function"@,
    )
}

/// Whether a name that starts no assignment stands at a position.
pub open spec fn bare_name(tokens: Seq<TokenView>, at: int) -> bool {
    kind_at(tokens, at) is Identifier && !(kind_at(tokens, at + 1) is Assign)
}

/// The operator that a token is at a level of precedence, from the
/// loosest, 0, to the tightest, 5: `or`; `and`; equality; order; sum and
/// difference; product, quotient and remainder.
pub open spec fn operator_at(level: u8, kind: TokenTypeView) -> Option<Seq<char>> {
    match (level, kind) {
        (0, TokenTypeView::Or) => Some("o"@),
        (1, TokenTypeView::And) => Some("y"@),
        (2, TokenTypeView::Equal) => Some("=="@),
        (2, TokenTypeView::NotEqual) => Some("!="@),
        (3, TokenTypeView::Greater) => Some(">"@),
        (3, TokenTypeView::GreaterEqual) => Some(">="@),
        (3, TokenTypeView::Less) => Some("<"@),
        (3, TokenTypeView::LessEqual) => Some("<="@),
        (4, TokenTypeView::Plus) => Some("+"@),
        (4, TokenTypeView::Minus) => Some("-"@),
        (5, TokenTypeView::Multiply) => Some("*"@),
        (5, TokenTypeView::Divide) => Some("/"@),
        (5, TokenTypeView::Modulo) => Some("%"@),
        _ => None,
    }
}

/// The rank of a level of precedence among the definitions below.
pub open spec fn level_rank(level: u8) -> nat {
    if level < 6 {
        (50 - 3 * level) as nat
    } else {
        32
    }
}

/// An expression.
pub open spec fn expression(tokens: Seq<TokenView>, at: int) -> Parsed<NodeView>
    decreases remaining(tokens, at), 60nat,
{
    binary(tokens, at, 0)
}

/// An expression of the operators from `level` on: operands of the next
/// level, joined from the left by the operators of this one.
pub open spec fn binary(tokens: Seq<TokenView>, at: int, level: u8) -> Parsed<NodeView>
    decreases remaining(tokens, at), level_rank(level),
{
    if level >= 6 {
        unary(tokens, at)
    } else {
        match binary(tokens, at, (level + 1) as u8) {
            Err(error) => Err(error),
            Ok((left, next)) => binary_tail(tokens, after(at, next), level, left),
        }
    }
}

/// The operators of `level` and their right operands that follow `left`.
pub open spec fn binary_tail(tokens: Seq<TokenView>, at: int, level: u8, left: NodeView) -> Parsed<
    NodeView,
>
    decreases remaining(tokens, at), 31nat,
{
    match operator_at(level, kind_at(tokens, at)) {
        None => Ok((left, at)),
        Some(operator) => match binary(tokens, at + 1, (level + 1) as u8) {
            Err(error) => Err(error),
            Ok((right, next)) => binary_tail(
                tokens,
                after(at, next),
                level,
                NodeView::BinaryOp { left: Box::new(left), operator, right: Box::new(right) },
            ),
        },
    }
}

/// An operand, behind any number of `not`, `no` and `-`.
pub open spec fn unary(tokens: Seq<TokenView>, at: int) -> Parsed<NodeView>
    decreases remaining(tokens, at), 30nat,
{
    let kind = kind_at(tokens, at);
    if kind is Not || kind is Minus {
        match unary(tokens, at + 1) {
            Err(error) => Err(error),
            Ok((operand, next)) => Ok(
                (
                    NodeView::UnaryOp {
                        operator: if kind is Not {
                            "not"@
                        } else {
                            "-"@
                        },
                        operand: Box::new(operand),
                    },
                    next,
                ),
            ),
        }
    } else {
        match primary(tokens, at) {
            Err(error) => Err(error),
            Ok((object, next)) => suffixes(tokens, after(at, next), object),
        }
    }
}

/// The indexes `[e]` and members `.name` that follow an operand.
pub open spec fn suffixes(tokens: Seq<TokenView>, at: int, object: NodeView) -> Parsed<NodeView>
    decreases remaining(tokens, at), 20nat,
{
    match kind_at(tokens, at) {
        TokenTypeView::LeftBracket => match expression(tokens, at + 1) {
            Err(error) => Err(error),
            Ok((index, next)) => {
                let close = after(at, next);
                if kind_at(tokens, close) is RightBracket {
                    suffixes(
                        tokens,
                        close + 1,
                        NodeView::Index { object: Box::new(object), index: Box::new(index) },
                    )
                } else {
                    Err(unexpected(tokens, close))
                }
            },
        },
        TokenTypeView::Dot => match kind_at(tokens, at + 1) {
            TokenTypeView::Identifier(member) => suffixes(
                tokens,
                at + 2,
                NodeView::MemberAccess { object: Box::new(object), member },
            ),
            _ => Err(unexpected(tokens, at + 1)),
        },
        _ => Ok((object, at)),
    }
}

/// A literal, a name, a call, an expression in parentheses, or a list.
pub open spec fn primary(tokens: Seq<TokenView>, at: int) -> Parsed<NodeView>
    decreases remaining(tokens, at), 10nat,
{
    match kind_at(tokens, at) {
        TokenTypeView::Number(bits) => Ok(
            (NodeView::Literal { value: ValueView::Number(bits) }, at + 1),
        ),
        TokenTypeView::String(text) => Ok(
            (NodeView::Literal { value: ValueView::String(text) }, at + 1),
        ),
        TokenTypeView::Boolean(truth) => Ok(
            (NodeView::Literal { value: ValueView::Boolean(truth) }, at + 1),
        ),
        TokenTypeView::Keyword(word) => if word == "nulo"@ || word == "null"@ {
            Ok((NodeView::Literal { value: ValueView::Null }, at + 1))
        } else {
            Err(unexpected(tokens, at))
        },
        TokenTypeView::Identifier(name) => if kind_at(tokens, at + 1) is LeftParen {
            match items(tokens, at + 2, TokenTypeView::RightParen) {
                Err(error) => Err(error),
                Ok((args, next)) => Ok((NodeView::FunctionCall { name, args }, next)),
            }
        } else {
            Ok((NodeView::Variable { name }, at + 1))
        },
        TokenTypeView::LeftParen => match expression(tokens, at + 1) {
            Err(error) => Err(error),
            Ok((inner, next)) => {
                let close = after(at, next);
                if kind_at(tokens, close) is RightParen {
                    Ok((inner, close + 1))
                } else {
                    Err(unexpected(tokens, close))
                }
            },
        },
        TokenTypeView::LeftBracket => match items(tokens, at + 1, TokenTypeView::RightBracket) {
            Err(error) => Err(error),
            Ok((elements, next)) => Ok((NodeView::List { elements }, next)),
        },
        _ => Err(unexpected(tokens, at)),
    }
}

/// Expressions with commas between them, up to the token `closer`.
pub open spec fn items(tokens: Seq<TokenView>, at: int, closer: TokenTypeView) -> Parsed<
    Seq<NodeView>,
>
    decreases remaining(tokens, at), 71nat,
{
    if kind_at(tokens, at) == closer {
        Ok((Seq::empty(), at + 1))
    } else {
        items_tail(tokens, at, closer, Seq::empty())
    }
}

/// The expressions from `at` on, behind those of `done`.
pub open spec fn items_tail(
    tokens: Seq<TokenView>,
    at: int,
    closer: TokenTypeView,
    done: Seq<NodeView>,
) -> Parsed<Seq<NodeView>>
    decreases remaining(tokens, at), 70nat,
{
    match expression(tokens, at) {
        Err(error) => Err(error),
        Ok((item, next)) => {
            let stop = after(at, next);
            if kind_at(tokens, stop) is Comma {
                items_tail(tokens, stop + 1, closer, done.push(item))
            } else if kind_at(tokens, stop) == closer {
                Ok((done.push(item), stop + 1))
            } else {
                Err(unexpected(tokens, stop))
            }
        },
    }
}

/// The names of parameters from `at` on, behind those of `done`, up to
/// the closing parenthesis.
pub open spec fn parameters_tail(tokens: Seq<TokenView>, at: int, done: Seq<Seq<char>>) -> Parsed<
    Seq<Seq<char>>,
>
    decreases remaining(tokens, at),
{
    match kind_at(tokens, at) {
        TokenTypeView::Identifier(name) => if kind_at(tokens, at + 1) is Comma {
            parameters_tail(tokens, at + 2, done.push(name))
        } else if kind_at(tokens, at + 1) is RightParen {
            Ok((done.push(name), at + 2))
        } else {
            Err(unexpected(tokens, at + 1))
        },
        _ => Err(unexpected(tokens, at)),
    }
}

/// The names of parameters in parentheses.
pub open spec fn parameters(tokens: Seq<TokenView>, at: int) -> Parsed<Seq<Seq<char>>> {
    if !(kind_at(tokens, at) is LeftParen) {
        Err(unexpected(tokens, at))
    } else if kind_at(tokens, at + 1) is RightParen {
        Ok((Seq::empty(), at + 2))
    } else {
        parameters_tail(tokens, at + 1, Seq::empty())
    }
}

/// `decir e` or `print e` at `at`: a call of that builtin with one
/// argument.
pub open spec fn print_statement(tokens: Seq<TokenView>, at: int) -> Parsed<NodeView>
    decreases remaining(tokens, at), 80nat,
        when !at_end(tokens, at)
{
    match expression(tokens, at + 1) {
        Err(error) => Err(error),
        Ok((argument, next)) => Ok(
            (
                NodeView::FunctionCall {
                    name: kind_at(tokens, at)->Keyword_0,
                    args: seq![argument],
                },
                next,
            ),
        ),
    }
}

/// `si e: block` at `at`, with an optional `sino: block`.
pub open spec fn if_statement(tokens: Seq<TokenView>, at: int) -> Parsed<NodeView>
    decreases remaining(tokens, at), 80nat,
        when !at_end(tokens, at)
{
    match expression(tokens, at + 1) {
        Err(error) => Err(error),
        Ok((condition, next)) => match block(tokens, past_colon(tokens, after(at, next))) {
            Err(error) => Err(error),
            Ok((then_branch, middle)) => {
                let other = after(at, middle);
                if is_keyword(kind_at(tokens, other), "sino"@, "else"@) {
                    match block(tokens, past_colon(tokens, other + 1)) {
                        Err(error) => Err(error),
                        Ok((else_branch, end)) => Ok(
                            (
                                NodeView::If {
                                    condition: Box::new(condition),
                                    then_branch,
                                    else_branch: Some(else_branch),
                                },
                                end,
                            ),
                        ),
                    }
                } else {
                    Ok(
                        (
                            NodeView::If {
                                condition: Box::new(condition),
                                then_branch,
                                else_branch: None,
                            },
                            other,
                        ),
                    )
                }
            },
        },
    }
}

/// `mientras e: block` at `at`.
pub open spec fn while_statement(tokens: Seq<TokenView>, at: int) -> Parsed<NodeView>
    decreases remaining(tokens, at), 80nat,
        when !at_end(tokens, at)
{
    match expression(tokens, at + 1) {
        Err(error) => Err(error),
        Ok((condition, next)) => match block(tokens, past_colon(tokens, after(at, next))) {
            Err(error) => Err(error),
            Ok((body, end)) => Ok((NodeView::While { condition: Box::new(condition), body }, end)),
        },
    }
}

/// `para name en e: statement` at `at`.
pub open spec fn for_statement(tokens: Seq<TokenView>, at: int) -> Parsed<NodeView>
    decreases remaining(tokens, at), 80nat,
{
    match kind_at(tokens, at + 1) {
        TokenTypeView::Identifier(variable) => if is_keyword(kind_at(tokens, at + 2), "en"@, "in"@) {
            match expression(tokens, at + 3) {
                Err(error) => Err(error),
                Ok((iterable, next)) => match statement(tokens, past_colon(tokens, after(at, next))) {
                    Err(error) => Err(error),
                    Ok((body, end)) => Ok(
                        (
                            NodeView::For {
                                variable,
                                iterable: Box::new(iterable),
                                body: seq![body],
                            },
                            end,
                        ),
                    ),
                },
            }
        } else {
            Err(unexpected(tokens, at + 2))
        },
        _ => Err(unexpected(tokens, at + 1)),
    }
}

/// `funcion name(parameters): block` at `at`.
pub open spec fn function_statement(tokens: Seq<TokenView>, at: int) -> Parsed<NodeView>
    decreases remaining(tokens, at), 80nat,
{
    match kind_at(tokens, at + 1) {
        TokenTypeView::Identifier(name) => match parameters(tokens, at + 2) {
            Err(error) => Err(error),
            Ok((params, next)) => match block(tokens, past_colon(tokens, after(at, next))) {
                Err(error) => Err(error),
                Ok((body, end)) => Ok((NodeView::FunctionDef { name, params, body }, end)),
            },
        },
        _ => Err(unexpected(tokens, at + 1)),
    }
}

/// `retornar` at `at`, with a value unless the line ends.
pub open spec fn return_statement(tokens: Seq<TokenView>, at: int) -> Parsed<NodeView>
    decreases remaining(tokens, at), 80nat,
        when !at_end(tokens, at)
{
    if at_end(tokens, at + 1) || kind_at(tokens, at + 1) is Newline {
        Ok((NodeView::Return { value: None }, at + 1))
    } else {
        match expression(tokens, at + 1) {
            Err(error) => Err(error),
            Ok((value, next)) => Ok((NodeView::Return { value: Some(Box::new(value)) }, next)),
        }
    }
}

/// `name = e` at `at`.
pub open spec fn assignment_statement(tokens: Seq<TokenView>, at: int) -> Parsed<NodeView>
    decreases remaining(tokens, at), 80nat,
        when !at_end(tokens, at)
{
    match expression(tokens, at + 2) {
        Err(error) => Err(error),
        Ok((value, next)) => Ok(
            (
                NodeView::Assignment {
                    name: kind_at(tokens, at)->Identifier_0,
                    value: Box::new(value),
                },
                next,
            ),
        ),
    }
}

/// A statement, after any line breaks before it: what its first token
/// announces, and an expression if that token announces nothing.
pub open spec fn statement(tokens: Seq<TokenView>, from: int) -> Parsed<NodeView>
    decreases remaining(tokens, from), 90nat,
{
    let at = past_newlines(tokens, from);
    let kind = kind_at(tokens, at);
    proof {
        lemma_past_newlines(tokens, from);
    }
    if is_keyword(kind, "decir"@, "print"@) {
        print_statement(tokens, at)
    } else if is_keyword(kind, "si"@, "if"@) {
        if_statement(tokens, at)
    } else if is_keyword(kind, "mientras"@, "while"@) {
        while_statement(tokens, at)
    } else if is_keyword(kind, "para"@, "for"@) {
        for_statement(tokens, at)
    } else if is_keyword(kind, "funcion"@, "function"@) {
        function_statement(tokens, at)
    } else if is_keyword(kind, "retornar"@, "return"@) {
        return_statement(tokens, at)
    } else if kind is Identifier && kind_at(tokens, at + 1) is Assign {
        assignment_statement(tokens, at)
    } else {
        expression(tokens, at)
    }
}

/// A block: statements up to the end of the tokens, to a keyword that
/// closes the block or, once one statement is read, to a name that starts
/// no assignment.
pub open spec fn block(tokens: Seq<TokenView>, from: int) -> Parsed<Seq<NodeView>>
    decreases remaining(tokens, from), 96nat,
{
    let at = past_newlines(tokens, from);
    proof {
        lemma_past_newlines(tokens, from);
    }
    if at_end(tokens, at) || closes_block(kind_at(tokens, at)) {
        Ok((Seq::empty(), at))
    } else {
        match statement(tokens, at) {
            Err(error) => Err(error),
            Ok((first, next)) => block_tail(tokens, after(at, next), seq![first]),
        }
    }
}

/// The statements of a block from `from` on, behind those of `done`.
pub open spec fn block_tail(tokens: Seq<TokenView>, from: int, done: Seq<NodeView>) -> Parsed<
    Seq<NodeView>,
>
    decreases remaining(tokens, from), 95nat,
{
    let at = past_newlines(tokens, from);
    proof {
        lemma_past_newlines(tokens, from);
    }
    if at_end(tokens, at) || closes_block(kind_at(tokens, at)) || bare_name(tokens, at) {
        Ok((done, at))
    } else {
        match statement(tokens, at) {
            Err(error) => Err(error),
            Ok((next_statement, next)) => block_tail(
                tokens,
                after(at, next),
                done.push(next_statement),
            ),
        }
    }
}

/// The statements of a program from `from` on, behind those of `done`.
pub open spec fn program(tokens: Seq<TokenView>, from: int, done: Seq<NodeView>) -> Result<
    Seq<NodeView>,
    ParseErrorView,
>
    decreases remaining(tokens, from), 100nat,
{
    let at = past_newlines(tokens, from);
    proof {
        lemma_past_newlines(tokens, from);
    }
    if at_end(tokens, at) {
        Ok(done)
    } else {
        match statement(tokens, at) {
            Err(error) => Err(error),
            Ok((next_statement, next)) => program(tokens, after(at, next), done.push(next_statement)),
        }
    }
}

/// The syntax tree of a sequence of tokens is a function of the tokens:
/// equal tokens have equal trees, or the same error.
pub proof fn lemma_parse_is_deterministic(first: Seq<TokenView>, second: Seq<TokenView>)
    requires
        first == second,
    ensures
        program(first, 0, Seq::empty()) == program(second, 0, Seq::empty()),
{
}

} // verus!

verus! {

/// Whether a parse gave the node and the position that its model names,
/// or the error that it names.
pub open spec fn parsed_node(
    result: Result<AstNode, ParseError>,
    end: int,
    model: Parsed<NodeView>,
) -> bool {
    match result {
        Ok(node) => model == Ok::<(NodeView, int), ParseErrorView>((node@, end)),
        Err(error) => model == Err::<(NodeView, int), ParseErrorView>(error@),
    }
}

/// Whether a parse gave the nodes and the position that its model names,
/// or the error that it names.
pub open spec fn parsed_nodes(
    result: Result<Vec<AstNode>, ParseError>,
    end: int,
    model: Parsed<Seq<NodeView>>,
) -> bool {
    match result {
        Ok(nodes) => model == Ok::<(Seq<NodeView>, int), ParseErrorView>((nodes_view(nodes@), end)),
        Err(error) => model == Err::<(Seq<NodeView>, int), ParseErrorView>(error@),
    }
}

/// The parser: a sequence of tokens and a position in it.
pub struct VaderParser {
    tokens: Vec<Token>,
    current: usize,
}

impl VaderParser {
    /// The tokens.
    pub closed spec fn stream(&self) -> Seq<TokenView> {
        tokens_view(self.tokens@)
    }

    /// The position of the next token to read.
    pub closed spec fn cursor(&self) -> int {
        self.current as int
    }

    /// The position lies within the tokens.
    pub closed spec fn wf(&self) -> bool {
        self.current <= self.tokens@.len()
    }

    /// A parser at the first token.
    pub fn new(tokens: Vec<Token>) -> (parser: Self)
        ensures
            parser.wf(),
            parser.stream() == tokens_view(tokens@),
            parser.cursor() == 0,
    {
        Self { tokens, current: 0 }
    }

    /// The kind of the token `offset` tokens ahead.
    fn kind(&self, offset: usize) -> (kind: TokenType)
        requires
            self.wf(),
        ensures
            kind@ == kind_at(self.stream(), self.cursor() + offset),
    {
        if offset < self.tokens.len() - self.current {
            self.tokens[self.current + offset].token_type.copy()
        } else {
            TokenType::Eof
        }
    }

    /// The error for the token `offset` tokens ahead.
    fn fail(&self, offset: usize) -> (error: ParseError)
        requires
            self.wf(),
        ensures
            error@ == unexpected(self.stream(), self.cursor() + offset),
    {
        if offset < self.tokens.len() - self.current {
            match &self.tokens[self.current + offset].token_type {
                TokenType::Eof => ParseError::UnexpectedEof,
                _ => ParseError::UnexpectedToken(self.tokens[self.current + offset].copy()),
            }
        } else {
            ParseError::UnexpectedEof
        }
    }

    /// The next token; past the last one, an `Eof` without a place.
    pub fn current_token(&self) -> (token: Token)
        requires
            self.wf(),
        ensures
            token@ == if self.cursor() < self.stream().len() {
                self.stream()[self.cursor()]
            } else {
                TokenView { token_type: TokenTypeView::Eof, lexeme: Seq::empty(), line: 0, column: 0 }
            },
            token@.token_type == kind_at(self.stream(), self.cursor()),
    {
        if self.current < self.tokens.len() {
            self.tokens[self.current].copy()
        } else {
            Token { token_type: TokenType::Eof, lexeme: String::new(), line: 0, column: 0 }
        }
    }

    /// The kind of the token `offset` tokens ahead, if there is one.
    pub fn peek_token_type(&self, offset: usize) -> (kind: Option<TokenType>)
        requires
            self.wf(),
        ensures
            match kind {
                Some(k) => self.cursor() + offset < self.stream().len() && k@
                    == self.stream()[self.cursor() + offset].token_type,
                None => self.cursor() + offset >= self.stream().len(),
            },
    {
        if offset < self.tokens.len() - self.current {
            Some(self.tokens[self.current + offset].token_type.copy())
        } else {
            None
        }
    }

    /// Whether no token is left to read.
    pub fn is_at_end(&self) -> (yes: bool)
        requires
            self.wf(),
        ensures
            yes == at_end(self.stream(), self.cursor()),
    {
        match self.kind(0) {
            TokenType::Eof => true,
            _ => false,
        }
    }

    /// Moves past the next token, if one is left.
    pub fn advance(&mut self)
        requires
            old(self).wf(),
        ensures
            final(self).wf(),
            final(self).stream() == old(self).stream(),
            final(self).cursor() == if at_end(old(self).stream(), old(self).cursor()) {
                old(self).cursor()
            } else {
                old(self).cursor() + 1
            },
    {
        if !self.is_at_end() && self.current < self.tokens.len() {
            self.current = self.current + 1;
        }
    }

    /// Moves past the next token if it is of the given kind, whatever it
    /// holds.
    pub fn match_token_type(&mut self, token_type: &TokenType) -> (matched: bool)
        requires
            old(self).wf(),
        ensures
            final(self).wf(),
            final(self).stream() == old(self).stream(),
            matched == same_kind(kind_at(old(self).stream(), old(self).cursor()), token_type@),
            final(self).cursor() == if matched && !at_end(old(self).stream(), old(self).cursor()) {
                old(self).cursor() + 1
            } else {
                old(self).cursor()
            },
    {
        if self.kind(0).is_kind(token_type) {
            self.advance();
            true
        } else {
            false
        }
    }

    /// Moves past the next token if it is the keyword.
    pub fn match_keyword(&mut self, keyword: &str) -> (matched: bool)
        requires
            old(self).wf(),
        ensures
            final(self).wf(),
            final(self).stream() == old(self).stream(),
            matched == is_keyword(kind_at(old(self).stream(), old(self).cursor()), keyword@, keyword@),
            final(self).cursor() == if matched {
                old(self).cursor() + 1
            } else {
                old(self).cursor()
            },
    {
        match self.kind(0) {
            TokenType::Keyword(word) => {
                if is_word(&word, keyword) {
                    self.advance();
                    true
                } else {
                    false
                }
            },
            _ => false,
        }
    }

    /// Moves past the next token if it is of the given kind, whatever it
    /// holds, and fails on a token of any other kind.
    pub fn expect_token_type(&mut self, expected: &TokenType) -> (result: Result<(), ParseError>)
        requires
            old(self).wf(),
        ensures
            final(self).wf(),
            final(self).stream() == old(self).stream(),
            match result {
                Ok(_) => same_kind(kind_at(old(self).stream(), old(self).cursor()), expected@)
                    && final(self).cursor() == if at_end(old(self).stream(), old(self).cursor()) {
                    old(self).cursor()
                } else {
                    old(self).cursor() + 1
                },
                Err(error) => !same_kind(
                    kind_at(old(self).stream(), old(self).cursor()),
                    expected@,
                ) && error@ == unexpected(old(self).stream(), old(self).cursor())
                    && final(self).cursor() == old(self).cursor(),
            },
    {
        if self.kind(0).is_kind(expected) {
            self.advance();
            Ok(())
        } else {
            Err(self.fail(0))
        }
    }

    /// Moves past the line breaks.
    pub fn skip_newlines(&mut self)
        requires
            old(self).wf(),
        ensures
            final(self).wf(),
            final(self).stream() == old(self).stream(),
            final(self).cursor() == past_newlines(old(self).stream(), old(self).cursor()),
            old(self).cursor() <= final(self).cursor(),
    {
        loop
            invariant
                self.wf(),
                self.stream() == old(self).stream(),
                old(self).current <= self.current,
                past_newlines(self.stream(), self.cursor()) == past_newlines(
                    old(self).stream(),
                    old(self).cursor(),
                ),
            ensures
                self.current as int == past_newlines(old(self).stream(), old(self).cursor()),
            decreases self.tokens@.len() - self.current,
        {
            match self.kind(0) {
                TokenType::Newline => {
                    self.advance();
                },
                _ => {
                    break ;
                },
            }
        }
    }

    /// Moves past a `:`, if one is next.
    fn skip_colon(&mut self)
        requires
            old(self).wf(),
        ensures
            final(self).wf(),
            final(self).stream() == old(self).stream(),
            final(self).cursor() == past_colon(old(self).stream(), old(self).cursor()),
    {
        match self.kind(0) {
            TokenType::Colon => {
                self.advance();
            },
            _ => {},
        }
    }

    /// Whether the next token ends a block that holds a statement already.
    pub fn is_block_terminator(&self) -> (yes: bool)
        requires
            self.wf(),
        ensures
            yes == (closes_block(kind_at(self.stream(), self.cursor())) || bare_name(
                self.stream(),
                self.cursor(),
            )),
    {
        match self.kind(0) {
            TokenType::Keyword(word) => is_word(&word, "sino") || is_word(&word, "else") || is_word(
                &word,
                "fin",
            ) || is_word(&word, "end") || is_word(&word, "funcion") || is_word(&word, "function"),
            TokenType::Identifier(_) => match self.kind(1) {
                TokenType::Assign => false,
                _ => true,
            },
            _ => false,
        }
    }

    /// Whether the next token is a keyword that closes a block.
    fn is_block_closer(&self) -> (yes: bool)
        requires
            self.wf(),
        ensures
            yes == closes_block(kind_at(self.stream(), self.cursor())),
    {
        match self.kind(0) {
            TokenType::Keyword(word) => is_word(&word, "sino") || is_word(&word, "else") || is_word(
                &word,
                "fin",
            ) || is_word(&word, "end") || is_word(&word, "funcion") || is_word(&word, "function"),
            _ => false,
        }
    }

    /// The statements of the tokens from the position on. Line breaks
    /// between statements are passed over.
    pub fn parse(&mut self) -> (result: Result<Vec<AstNode>, ParseError>)
        requires
            old(self).wf(),
        ensures
            final(self).wf(),
            final(self).stream() == old(self).stream(),
            match result {
                Ok(nodes) => program(old(self).stream(), old(self).cursor(), Seq::empty()) == Ok::<
                    Seq<NodeView>,
                    ParseErrorView,
                >(nodes_view(nodes@)),
                Err(error) => program(old(self).stream(), old(self).cursor(), Seq::empty()) == Err::<
                    Seq<NodeView>,
                    ParseErrorView,
                >(error@),
            },
    {
        let mut statements: Vec<AstNode> = Vec::new();
        assert(nodes_view(statements@) =~= Seq::<NodeView>::empty());
        loop
            invariant
                self.wf(),
                self.stream() == old(self).stream(),
                program(self.stream(), self.cursor(), nodes_view(statements@)) == program(
                    old(self).stream(),
                    old(self).cursor(),
                    Seq::empty(),
                ),
            ensures
                self.wf(),
                self.stream() == old(self).stream(),
                program(old(self).stream(), old(self).cursor(), Seq::empty()) == Ok::<
                    Seq<NodeView>,
                    ParseErrorView,
                >(nodes_view(statements@)),
            decreases remaining(self.stream(), self.cursor()),
        {
            let ghost from = self.cursor();
            self.skip_newlines();
            if self.is_at_end() {
                break ;
            }
            let ghost before = nodes_view(statements@);
            match self.parse_statement() {
                Ok(node) => {
                    statements.push(node);
                    assert(nodes_view(statements@) =~= before.push(node@));
                },
                Err(error) => {
                    return Err(error);
                },
            }
        }
        Ok(statements)
    }

    /// A statement, after any line breaks before it.
    pub fn parse_statement(&mut self) -> (result: Result<AstNode, ParseError>)
        requires
            old(self).wf(),
        ensures
            final(self).wf(),
            final(self).stream() == old(self).stream(),
            parsed_node(
                result,
                final(self).cursor(),
                statement(old(self).stream(), old(self).cursor()),
            ),
            result is Ok ==> final(self).cursor() > old(self).cursor(),
        decreases remaining(old(self).stream(), old(self).cursor()), 90nat,
    {
        self.skip_newlines();
        proof {
            lemma_past_newlines(old(self).stream(), old(self).cursor());
            lemma_past_newlines(self.stream(), self.cursor());
        }
        match self.kind(0) {
            TokenType::Keyword(word) => {
                if is_word(&word, "decir") || is_word(&word, "print") {
                    self.parse_print()
                } else if is_word(&word, "si") || is_word(&word, "if") {
                    self.parse_if()
                } else if is_word(&word, "mientras") || is_word(&word, "while") {
                    self.parse_while()
                } else if is_word(&word, "para") || is_word(&word, "for") {
                    self.parse_for()
                } else if is_word(&word, "funcion") || is_word(&word, "function") {
                    self.parse_function_def()
                } else if is_word(&word, "retornar") || is_word(&word, "return") {
                    self.parse_return()
                } else {
                    self.parse_expression_statement()
                }
            },
            TokenType::Identifier(_) => {
                match self.kind(1) {
                    TokenType::Assign => self.parse_assignment(),
                    _ => self.parse_expression_statement(),
                }
            },
            _ => self.parse_expression_statement(),
        }
    }

    /// `decir e` or `print e`: a call of that builtin with one argument.
    fn parse_print(&mut self) -> (result: Result<AstNode, ParseError>)
        requires
            old(self).wf(),
            is_keyword(kind_at(old(self).stream(), old(self).cursor()), "decir"@, "print"@),
        ensures
            final(self).wf(),
            final(self).stream() == old(self).stream(),
            parsed_node(
                result,
                final(self).cursor(),
                print_statement(old(self).stream(), old(self).cursor()),
            ),
            result is Ok ==> final(self).cursor() > old(self).cursor(),
        decreases remaining(old(self).stream(), old(self).cursor()), 80nat,
    {
        let name = match self.kind(0) {
            TokenType::Keyword(word) => word,
            _ => String::from_str("print"),
        };
        self.advance();
        match self.parse_expression() {
            Ok(argument) => {
                let mut args: Vec<AstNode> = Vec::new();
                args.push(argument);
                let node = AstNode::FunctionCall { name, args };
                proof {
                    lemma_node_view(node);
                    assert(nodes_view(args@) =~= seq![argument@]);
                }
                Ok(node)
            },
            Err(error) => Err(error),
        }
    }

    /// `si e: block` with an optional `sino: block`.
    fn parse_if(&mut self) -> (result: Result<AstNode, ParseError>)
        requires
            old(self).wf(),
            is_keyword(kind_at(old(self).stream(), old(self).cursor()), "si"@, "if"@),
        ensures
            final(self).wf(),
            final(self).stream() == old(self).stream(),
            parsed_node(
                result,
                final(self).cursor(),
                if_statement(old(self).stream(), old(self).cursor()),
            ),
            result is Ok ==> final(self).cursor() > old(self).cursor(),
        decreases remaining(old(self).stream(), old(self).cursor()), 80nat,
    {
        self.advance();
        let condition = match self.parse_expression() {
            Ok(node) => node,
            Err(error) => {
                return Err(error);
            },
        };
        self.skip_colon();
        let then_branch = match self.parse_block() {
            Ok(nodes) => nodes,
            Err(error) => {
                return Err(error);
            },
        };
        let else_branch = if self.match_keyword("sino") || self.match_keyword("else") {
            self.skip_colon();
            match self.parse_block() {
                Ok(nodes) => Some(nodes),
                Err(error) => {
                    return Err(error);
                },
            }
        } else {
            None
        };
        let node = AstNode::If { condition: Box::new(condition), then_branch, else_branch };
        proof {
            lemma_node_view(node);
        }
        Ok(node)
    }

    /// `mientras e: block`.
    fn parse_while(&mut self) -> (result: Result<AstNode, ParseError>)
        requires
            old(self).wf(),
            is_keyword(kind_at(old(self).stream(), old(self).cursor()), "mientras"@, "while"@),
        ensures
            final(self).wf(),
            final(self).stream() == old(self).stream(),
            parsed_node(
                result,
                final(self).cursor(),
                while_statement(old(self).stream(), old(self).cursor()),
            ),
            result is Ok ==> final(self).cursor() > old(self).cursor(),
        decreases remaining(old(self).stream(), old(self).cursor()), 80nat,
    {
        self.advance();
        let condition = match self.parse_expression() {
            Ok(node) => node,
            Err(error) => {
                return Err(error);
            },
        };
        self.skip_colon();
        let body = match self.parse_block() {
            Ok(nodes) => nodes,
            Err(error) => {
                return Err(error);
            },
        };
        let node = AstNode::While { condition: Box::new(condition), body };
        proof {
            lemma_node_view(node);
        }
        Ok(node)
    }

    /// `para name en e: statement`.
    fn parse_for(&mut self) -> (result: Result<AstNode, ParseError>)
        requires
            old(self).wf(),
            is_keyword(kind_at(old(self).stream(), old(self).cursor()), "para"@, "for"@),
        ensures
            final(self).wf(),
            final(self).stream() == old(self).stream(),
            parsed_node(
                result,
                final(self).cursor(),
                for_statement(old(self).stream(), old(self).cursor()),
            ),
            result is Ok ==> final(self).cursor() > old(self).cursor(),
        decreases remaining(old(self).stream(), old(self).cursor()), 80nat,
    {
        self.advance();
        let variable = match self.kind(0) {
            TokenType::Identifier(name) => name,
            _ => {
                return Err(self.fail(0));
            },
        };
        self.advance();
        if !self.match_keyword("en") && !self.match_keyword("in") {
            return Err(self.fail(0));
        }
        let iterable = match self.parse_expression() {
            Ok(node) => node,
            Err(error) => {
                return Err(error);
            },
        };
        self.skip_colon();
        let statement = match self.parse_statement() {
            Ok(node) => node,
            Err(error) => {
                return Err(error);
            },
        };
        let mut body: Vec<AstNode> = Vec::new();
        body.push(statement);
        let node = AstNode::For { variable, iterable: Box::new(iterable), body };
        proof {
            lemma_node_view(node);
            assert(nodes_view(body@) =~= seq![statement@]);
        }
        Ok(node)
    }

    /// The names of parameters, in parentheses and with commas between
    /// them.
    fn parse_parameters(&mut self) -> (result: Result<Vec<String>, ParseError>)
        requires
            old(self).wf(),
        ensures
            final(self).wf(),
            final(self).stream() == old(self).stream(),
            match result {
                Ok(names) => parameters(old(self).stream(), old(self).cursor()) == Ok::<
                    (Seq<Seq<char>>, int),
                    ParseErrorView,
                >((strings_view(names@), final(self).cursor())) && final(self).cursor() > old(
                    self,
                ).cursor(),
                Err(error) => parameters(old(self).stream(), old(self).cursor()) == Err::<
                    (Seq<Seq<char>>, int),
                    ParseErrorView,
                >(error@),
            },
    {
        match self.expect_token_type(&TokenType::LeftParen) {
            Ok(_) => {},
            Err(error) => {
                return Err(error);
            },
        }
        let mut params: Vec<String> = Vec::new();
        assert(strings_view(params@) =~= Seq::<Seq<char>>::empty());
        match self.kind(0) {
            TokenType::RightParen => {
                self.advance();
                return Ok(params);
            },
            _ => {},
        }
        loop
            invariant
                self.wf(),
                self.stream() == old(self).stream(),
                self.current > old(self).current,
                parameters_tail(self.stream(), self.cursor(), strings_view(params@)) == parameters(
                    old(self).stream(),
                    old(self).cursor(),
                ),
            decreases remaining(self.stream(), self.cursor()),
        {
            let ghost before = strings_view(params@);
            match self.kind(0) {
                TokenType::Identifier(name) => {
                    params.push(name);
                    assert(strings_view(params@) =~= before.push(name@));
                    self.advance();
                },
                _ => {
                    return Err(self.fail(0));
                },
            }
            match self.kind(0) {
                TokenType::Comma => {
                    self.advance();
                },
                TokenType::RightParen => {
                    self.advance();
                    return Ok(params);
                },
                _ => {
                    return Err(self.fail(0));
                },
            }
        }
    }

    /// `funcion name(parameters): block`.
    fn parse_function_def(&mut self) -> (result: Result<AstNode, ParseError>)
        requires
            old(self).wf(),
            is_keyword(kind_at(old(self).stream(), old(self).cursor()), "funcion"@, "function"@),
        ensures
            final(self).wf(),
            final(self).stream() == old(self).stream(),
            parsed_node(
                result,
                final(self).cursor(),
                function_statement(old(self).stream(), old(self).cursor()),
            ),
            result is Ok ==> final(self).cursor() > old(self).cursor(),
        decreases remaining(old(self).stream(), old(self).cursor()), 80nat,
    {
        self.advance();
        let name = match self.kind(0) {
            TokenType::Identifier(name) => name,
            _ => {
                return Err(self.fail(0));
            },
        };
        self.advance();
        let params = match self.parse_parameters() {
            Ok(names) => names,
            Err(error) => {
                return Err(error);
            },
        };
        self.skip_colon();
        let body = match self.parse_block() {
            Ok(nodes) => nodes,
            Err(error) => {
                return Err(error);
            },
        };
        let node = AstNode::FunctionDef { name, params, body };
        proof {
            lemma_node_view(node);
        }
        Ok(node)
    }

    /// `retornar`, with a value unless the line ends.
    fn parse_return(&mut self) -> (result: Result<AstNode, ParseError>)
        requires
            old(self).wf(),
            is_keyword(kind_at(old(self).stream(), old(self).cursor()), "retornar"@, "return"@),
        ensures
            final(self).wf(),
            final(self).stream() == old(self).stream(),
            parsed_node(
                result,
                final(self).cursor(),
                return_statement(old(self).stream(), old(self).cursor()),
            ),
            result is Ok ==> final(self).cursor() > old(self).cursor(),
        decreases remaining(old(self).stream(), old(self).cursor()), 80nat,
    {
        self.advance();
        let ends = match self.kind(0) {
            TokenType::Eof => true,
            TokenType::Newline => true,
            _ => false,
        };
        if ends {
            Ok(AstNode::Return { value: None })
        } else {
            match self.parse_expression() {
                Ok(value) => Ok(AstNode::Return { value: Some(Box::new(value)) }),
                Err(error) => Err(error),
            }
        }
    }

    /// `name = e`.
    fn parse_assignment(&mut self) -> (result: Result<AstNode, ParseError>)
        requires
            old(self).wf(),
            kind_at(old(self).stream(), old(self).cursor()) is Identifier,
            kind_at(old(self).stream(), old(self).cursor() + 1) is Assign,
        ensures
            final(self).wf(),
            final(self).stream() == old(self).stream(),
            parsed_node(
                result,
                final(self).cursor(),
                assignment_statement(old(self).stream(), old(self).cursor()),
            ),
            result is Ok ==> final(self).cursor() > old(self).cursor(),
        decreases remaining(old(self).stream(), old(self).cursor()), 80nat,
    {
        let name = match self.kind(0) {
            TokenType::Identifier(name) => name,
            _ => String::new(),
        };
        self.advance();
        self.advance();
        match self.parse_expression() {
            Ok(value) => Ok(AstNode::Assignment { name, value: Box::new(value) }),
            Err(error) => Err(error),
        }
    }

    /// A statement that is an expression.
    fn parse_expression_statement(&mut self) -> (result: Result<AstNode, ParseError>)
        requires
            old(self).wf(),
        ensures
            final(self).wf(),
            final(self).stream() == old(self).stream(),
            parsed_node(
                result,
                final(self).cursor(),
                expression(old(self).stream(), old(self).cursor()),
            ),
            result is Ok ==> final(self).cursor() > old(self).cursor(),
        decreases remaining(old(self).stream(), old(self).cursor()), 61nat,
    {
        self.parse_expression()
    }

    /// An expression.
    pub fn parse_expression(&mut self) -> (result: Result<AstNode, ParseError>)
        requires
            old(self).wf(),
        ensures
            final(self).wf(),
            final(self).stream() == old(self).stream(),
            parsed_node(
                result,
                final(self).cursor(),
                expression(old(self).stream(), old(self).cursor()),
            ),
            result is Ok ==> final(self).cursor() > old(self).cursor(),
        decreases remaining(old(self).stream(), old(self).cursor()), 60nat,
    {
        self.parse_logical_or()
    }

    /// Operands joined by `o` and `or`.
    fn parse_logical_or(&mut self) -> (result: Result<AstNode, ParseError>)
        requires
            old(self).wf(),
        ensures
            final(self).wf(),
            final(self).stream() == old(self).stream(),
            parsed_node(
                result,
                final(self).cursor(),
                binary(old(self).stream(), old(self).cursor(), 0),
            ),
            result is Ok ==> final(self).cursor() > old(self).cursor(),
        decreases remaining(old(self).stream(), old(self).cursor()), 51nat,
    {
        self.parse_binary(0)
    }

    /// Operands joined by `y` and `and`.
    fn parse_logical_and(&mut self) -> (result: Result<AstNode, ParseError>)
        requires
            old(self).wf(),
        ensures
            final(self).wf(),
            final(self).stream() == old(self).stream(),
            parsed_node(
                result,
                final(self).cursor(),
                binary(old(self).stream(), old(self).cursor(), 1),
            ),
            result is Ok ==> final(self).cursor() > old(self).cursor(),
        decreases remaining(old(self).stream(), old(self).cursor()), 48nat,
    {
        self.parse_binary(1)
    }

    /// Operands joined by `==` and `!=`.
    fn parse_equality(&mut self) -> (result: Result<AstNode, ParseError>)
        requires
            old(self).wf(),
        ensures
            final(self).wf(),
            final(self).stream() == old(self).stream(),
            parsed_node(
                result,
                final(self).cursor(),
                binary(old(self).stream(), old(self).cursor(), 2),
            ),
            result is Ok ==> final(self).cursor() > old(self).cursor(),
        decreases remaining(old(self).stream(), old(self).cursor()), 45nat,
    {
        self.parse_binary(2)
    }

    /// Operands joined by `<`, `<=`, `>` and `>=`.
    fn parse_comparison(&mut self) -> (result: Result<AstNode, ParseError>)
        requires
            old(self).wf(),
        ensures
            final(self).wf(),
            final(self).stream() == old(self).stream(),
            parsed_node(
                result,
                final(self).cursor(),
                binary(old(self).stream(), old(self).cursor(), 3),
            ),
            result is Ok ==> final(self).cursor() > old(self).cursor(),
        decreases remaining(old(self).stream(), old(self).cursor()), 42nat,
    {
        self.parse_binary(3)
    }

    /// Operands joined by `+` and `-`.
    fn parse_term(&mut self) -> (result: Result<AstNode, ParseError>)
        requires
            old(self).wf(),
        ensures
            final(self).wf(),
            final(self).stream() == old(self).stream(),
            parsed_node(
                result,
                final(self).cursor(),
                binary(old(self).stream(), old(self).cursor(), 4),
            ),
            result is Ok ==> final(self).cursor() > old(self).cursor(),
        decreases remaining(old(self).stream(), old(self).cursor()), 39nat,
    {
        self.parse_binary(4)
    }

    /// Operands joined by `*`, `/` and `%`.
    fn parse_factor(&mut self) -> (result: Result<AstNode, ParseError>)
        requires
            old(self).wf(),
        ensures
            final(self).wf(),
            final(self).stream() == old(self).stream(),
            parsed_node(
                result,
                final(self).cursor(),
                binary(old(self).stream(), old(self).cursor(), 5),
            ),
            result is Ok ==> final(self).cursor() > old(self).cursor(),
        decreases remaining(old(self).stream(), old(self).cursor()), 36nat,
    {
        self.parse_binary(5)
    }

    /// The operator that the next token is at a level of precedence.
    fn operator(&self, level: u8) -> (found: Option<String>)
        requires
            self.wf(),
        ensures
            match found {
                Some(operator) => operator_at(level, kind_at(self.stream(), self.cursor())) == Some(
                    operator@,
                ) && !at_end(self.stream(), self.cursor()),
                None => operator_at(level, kind_at(self.stream(), self.cursor())) is None,
            },
    {
        let symbol = match (level, self.kind(0)) {
            (0, TokenType::Or) => "o",
            (1, TokenType::And) => "y",
            (2, TokenType::Equal) => "==",
            (2, TokenType::NotEqual) => "!=",
            (3, TokenType::Greater) => ">",
            (3, TokenType::GreaterEqual) => ">=",
            (3, TokenType::Less) => "<",
            (3, TokenType::LessEqual) => "<=",
            (4, TokenType::Plus) => "+",
            (4, TokenType::Minus) => "-",
            (5, TokenType::Multiply) => "*",
            (5, TokenType::Divide) => "/",
            (5, TokenType::Modulo) => "%",
            _ => {
                return None;
            },
        };
        Some(String::from_str(symbol))
    }

    /// An operand of the operators of a level of precedence: an expression
    /// of the operators of the next level.
    fn parse_operand(&mut self, level: u8) -> (result: Result<AstNode, ParseError>)
        requires
            old(self).wf(),
            level < 6,
        ensures
            final(self).wf(),
            final(self).stream() == old(self).stream(),
            parsed_node(
                result,
                final(self).cursor(),
                binary(old(self).stream(), old(self).cursor(), (level + 1) as u8),
            ),
            result is Ok ==> final(self).cursor() > old(self).cursor(),
        decreases remaining(old(self).stream(), old(self).cursor()), (level_rank(level) - 1) as nat,
    {
        if level == 0 {
            self.parse_logical_and()
        } else if level == 1 {
            self.parse_equality()
        } else if level == 2 {
            self.parse_comparison()
        } else if level == 3 {
            self.parse_term()
        } else if level == 4 {
            self.parse_factor()
        } else {
            proof {
                assert(binary(self.stream(), self.cursor(), 6) == unary(
                    self.stream(),
                    self.cursor(),
                ));
            }
            self.parse_unary()
        }
    }

    /// An expression of the operators from a level of precedence on.
    fn parse_binary(&mut self, level: u8) -> (result: Result<AstNode, ParseError>)
        requires
            old(self).wf(),
        ensures
            final(self).wf(),
            final(self).stream() == old(self).stream(),
            parsed_node(
                result,
                final(self).cursor(),
                binary(old(self).stream(), old(self).cursor(), level),
            ),
            result is Ok ==> final(self).cursor() > old(self).cursor(),
        decreases remaining(old(self).stream(), old(self).cursor()), level_rank(level),
    {
        if level >= 6 {
            return self.parse_unary();
        }
        let mut left = match self.parse_operand(level) {
            Ok(node) => node,
            Err(error) => {
                return Err(error);
            },
        };
        loop
            invariant
                self.wf(),
                level < 6,
                self.stream() == old(self).stream(),
                self.current > old(self).current,
                binary_tail(self.stream(), self.cursor(), level, left@) == binary(
                    old(self).stream(),
                    old(self).cursor(),
                    level,
                ),
            decreases remaining(self.stream(), self.cursor()),
        {
            let operator = match self.operator(level) {
                Some(operator) => operator,
                None => {
                    return Ok(left);
                },
            };
            self.advance();
            let right = match self.parse_operand(level) {
                Ok(node) => node,
                Err(error) => {
                    return Err(error);
                },
            };
            left = AstNode::BinaryOp { left: Box::new(left), operator, right: Box::new(right) };
        }
    }

    /// An operand behind any number of `not`, `no` and `-`, with the
    /// indexes and members that follow it.
    fn parse_unary(&mut self) -> (result: Result<AstNode, ParseError>)
        requires
            old(self).wf(),
        ensures
            final(self).wf(),
            final(self).stream() == old(self).stream(),
            parsed_node(
                result,
                final(self).cursor(),
                unary(old(self).stream(), old(self).cursor()),
            ),
            result is Ok ==> final(self).cursor() > old(self).cursor(),
        decreases remaining(old(self).stream(), old(self).cursor()), 30nat,
    {
        let symbol = match self.kind(0) {
            TokenType::Not => "not",
            TokenType::Minus => "-",
            _ => {
                return self.parse_suffixed();
            },
        };
        self.advance();
        match self.parse_unary() {
            Ok(operand) => Ok(
                AstNode::UnaryOp { operator: String::from_str(symbol), operand: Box::new(operand) },
            ),
            Err(error) => Err(error),
        }
    }

    /// An operand with the indexes `[e]` and members `.name` that follow
    /// it.
    fn parse_suffixed(&mut self) -> (result: Result<AstNode, ParseError>)
        requires
            old(self).wf(),
            !(kind_at(old(self).stream(), old(self).cursor()) is Not),
            !(kind_at(old(self).stream(), old(self).cursor()) is Minus),
        ensures
            final(self).wf(),
            final(self).stream() == old(self).stream(),
            parsed_node(
                result,
                final(self).cursor(),
                unary(old(self).stream(), old(self).cursor()),
            ),
            result is Ok ==> final(self).cursor() > old(self).cursor(),
        decreases remaining(old(self).stream(), old(self).cursor()), 25nat,
    {
        let mut object = match self.parse_primary() {
            Ok(node) => node,
            Err(error) => {
                return Err(error);
            },
        };
        loop
            invariant
                self.wf(),
                self.stream() == old(self).stream(),
                self.current > old(self).current,
                suffixes(self.stream(), self.cursor(), object@) == unary(
                    old(self).stream(),
                    old(self).cursor(),
                ),
            decreases remaining(self.stream(), self.cursor()),
        {
            match self.kind(0) {
                TokenType::LeftBracket => {
                    self.advance();
                    let index = match self.parse_expression() {
                        Ok(node) => node,
                        Err(error) => {
                            return Err(error);
                        },
                    };
                    match self.expect_token_type(&TokenType::RightBracket) {
                        Ok(_) => {},
                        Err(error) => {
                            return Err(error);
                        },
                    }
                    object = AstNode::Index { object: Box::new(object), index: Box::new(index) };
                },
                TokenType::Dot => {
                    let member = match self.kind(1) {
                        TokenType::Identifier(name) => name,
                        _ => {
                            return Err(self.fail(1));
                        },
                    };
                    self.advance();
                    self.advance();
                    object = AstNode::MemberAccess { object: Box::new(object), member };
                },
                _ => {
                    return Ok(object);
                },
            }
        }
    }

    /// Expressions with commas between them, up to the token `closer`.
    fn parse_items(&mut self, closer: &TokenType) -> (result: Result<Vec<AstNode>, ParseError>)
        requires
            old(self).wf(),
            closer@ is RightParen || closer@ is RightBracket,
        ensures
            final(self).wf(),
            final(self).stream() == old(self).stream(),
            parsed_nodes(
                result,
                final(self).cursor(),
                items(old(self).stream(), old(self).cursor(), closer@),
            ),
            result is Ok ==> final(self).cursor() > old(self).cursor(),
        decreases remaining(old(self).stream(), old(self).cursor()), 71nat,
    {
        let mut nodes: Vec<AstNode> = Vec::new();
        assert(nodes_view(nodes@) =~= Seq::<NodeView>::empty());
        if self.kind(0).equals(closer) {
            self.advance();
            return Ok(nodes);
        }
        loop
            invariant
                self.wf(),
                closer@ is RightParen || closer@ is RightBracket,
                self.stream() == old(self).stream(),
                self.current >= old(self).current,
                items_tail(self.stream(), self.cursor(), closer@, nodes_view(nodes@)) == items(
                    old(self).stream(),
                    old(self).cursor(),
                    closer@,
                ),
            decreases remaining(self.stream(), self.cursor()),
        {
            let ghost before = nodes_view(nodes@);
            match self.parse_expression() {
                Ok(node) => {
                    nodes.push(node);
                    assert(nodes_view(nodes@) =~= before.push(node@));
                },
                Err(error) => {
                    return Err(error);
                },
            }
            match self.kind(0) {
                TokenType::Comma => {
                    self.advance();
                },
                _ => {
                    match self.expect_token_type(closer) {
                        Ok(_) => {
                            return Ok(nodes);
                        },
                        Err(error) => {
                            return Err(error);
                        },
                    }
                },
            }
        }
    }

    /// A literal, a name, a call, an expression in parentheses, or a list.
    fn parse_primary(&mut self) -> (result: Result<AstNode, ParseError>)
        requires
            old(self).wf(),
        ensures
            final(self).wf(),
            final(self).stream() == old(self).stream(),
            parsed_node(
                result,
                final(self).cursor(),
                primary(old(self).stream(), old(self).cursor()),
            ),
            result is Ok ==> final(self).cursor() > old(self).cursor(),
        decreases remaining(old(self).stream(), old(self).cursor()), 10nat,
    {
        match self.kind(0) {
            TokenType::Number(bits) => {
                self.advance();
                let node = AstNode::Literal { value: VaderValue::Number(bits) };
                proof {
                    lemma_node_view(node);
                }
                Ok(node)
            },
            TokenType::String(text) => {
                self.advance();
                let node = AstNode::Literal { value: VaderValue::String(text) };
                proof {
                    lemma_node_view(node);
                }
                Ok(node)
            },
            TokenType::Boolean(truth) => {
                self.advance();
                let node = AstNode::Literal { value: VaderValue::Boolean(truth) };
                proof {
                    lemma_node_view(node);
                }
                Ok(node)
            },
            TokenType::Keyword(word) => {
                if is_word(&word, "nulo") || is_word(&word, "null") {
                    self.advance();
                    let node = AstNode::Literal { value: VaderValue::Null };
                    proof {
                        lemma_node_view(node);
                    }
                    Ok(node)
                } else {
                    Err(self.fail(0))
                }
            },
            TokenType::Identifier(name) => {
                match self.kind(1) {
                    TokenType::LeftParen => {
                        self.advance();
                        self.advance();
                        match self.parse_items(&TokenType::RightParen) {
                            Ok(args) => {
                                let node = AstNode::FunctionCall { name, args };
                                proof {
                                    lemma_node_view(node);
                                }
                                Ok(node)
                            },
                            Err(error) => Err(error),
                        }
                    },
                    _ => {
                        self.advance();
                        Ok(AstNode::Variable { name })
                    },
                }
            },
            TokenType::LeftParen => {
                self.advance();
                let inner = match self.parse_expression() {
                    Ok(node) => node,
                    Err(error) => {
                        return Err(error);
                    },
                };
                match self.expect_token_type(&TokenType::RightParen) {
                    Ok(_) => Ok(inner),
                    Err(error) => Err(error),
                }
            },
            TokenType::LeftBracket => {
                self.advance();
                match self.parse_items(&TokenType::RightBracket) {
                    Ok(elements) => {
                        let node = AstNode::List { elements };
                        proof {
                            lemma_node_view(node);
                        }
                        Ok(node)
                    },
                    Err(error) => Err(error),
                }
            },
            _ => Err(self.fail(0)),
        }
    }

    /// A block of statements.
    pub fn parse_block(&mut self) -> (result: Result<Vec<AstNode>, ParseError>)
        requires
            old(self).wf(),
        ensures
            final(self).wf(),
            final(self).stream() == old(self).stream(),
            parsed_nodes(result, final(self).cursor(), block(old(self).stream(), old(self).cursor())),
            result is Ok ==> final(self).cursor() >= old(self).cursor(),
        decreases remaining(old(self).stream(), old(self).cursor()), 96nat,
    {
        let mut statements: Vec<AstNode> = Vec::new();
        assert(nodes_view(statements@) =~= Seq::<NodeView>::empty());
        self.skip_newlines();
        proof {
            lemma_past_newlines(old(self).stream(), old(self).cursor());
        }
        if self.is_at_end() || self.is_block_closer() {
            return Ok(statements);
        }
        match self.parse_statement() {
            Ok(node) => {
                statements.push(node);
                assert(nodes_view(statements@) =~= seq![node@]);
            },
            Err(error) => {
                return Err(error);
            },
        }
        loop
            invariant
                self.wf(),
                self.stream() == old(self).stream(),
                self.current > old(self).current,
                block_tail(self.stream(), self.cursor(), nodes_view(statements@)) == block(
                    old(self).stream(),
                    old(self).cursor(),
                ),
            decreases remaining(self.stream(), self.cursor()),
        {
            self.skip_newlines();
            if self.is_at_end() || self.is_block_terminator() {
                return Ok(statements);
            }
            let ghost before = nodes_view(statements@);
            match self.parse_statement() {
                Ok(node) => {
                    statements.push(node);
                    assert(nodes_view(statements@) =~= before.push(node@));
                },
                Err(error) => {
                    return Err(error);
                },
            }
        }
    }
}

} // verus!

verus! {

/// An expression that is read ends after the position it starts from.
pub proof fn lemma_expression_advances(tokens: Seq<TokenView>, at: int)
    ensures
        expression(tokens, at) matches Ok(parsed) ==> parsed.1 > at,
    decreases remaining(tokens, at), 60nat,
{
    lemma_binary_advances(tokens, at, 0);
}

/// An expression of some level of precedence ends after its start.
pub proof fn lemma_binary_advances(tokens: Seq<TokenView>, at: int, level: u8)
    ensures
        binary(tokens, at, level) matches Ok(parsed) ==> parsed.1 > at,
    decreases remaining(tokens, at), level_rank(level),
{
    if level >= 6 {
        lemma_unary_advances(tokens, at);
    } else {
        lemma_binary_advances(tokens, at, (level + 1) as u8);
        match binary(tokens, at, (level + 1) as u8) {
            Ok((left, next)) => {
                lemma_binary_tail_advances(tokens, after(at, next), level, left);
            },
            Err(error) => {},
        }
    }
}

/// The operators and operands that follow an operand end at or after
/// their start.
pub proof fn lemma_binary_tail_advances(tokens: Seq<TokenView>, at: int, level: u8, left: NodeView)
    ensures
        binary_tail(tokens, at, level, left) matches Ok(parsed) ==> parsed.1 >= at,
    decreases remaining(tokens, at), 31nat,
{
    match operator_at(level, kind_at(tokens, at)) {
        None => {},
        Some(operator) => {
            lemma_binary_advances(tokens, at + 1, (level + 1) as u8);
            match binary(tokens, at + 1, (level + 1) as u8) {
                Ok((right, next)) => {
                    lemma_binary_tail_advances(
                        tokens,
                        after(at, next),
                        level,
                        NodeView::BinaryOp {
                            left: Box::new(left),
                            operator,
                            right: Box::new(right),
                        },
                    );
                },
                Err(error) => {},
            }
        },
    }
}

/// An operand behind its unary operators ends after its start.
pub proof fn lemma_unary_advances(tokens: Seq<TokenView>, at: int)
    ensures
        unary(tokens, at) matches Ok(parsed) ==> parsed.1 > at,
    decreases remaining(tokens, at), 30nat,
{
    let kind = kind_at(tokens, at);
    if kind is Not || kind is Minus {
        lemma_unary_advances(tokens, at + 1);
    } else {
        lemma_primary_advances(tokens, at);
        match primary(tokens, at) {
            Ok((object, next)) => {
                lemma_suffixes_advance(tokens, after(at, next), object);
            },
            Err(error) => {},
        }
    }
}

/// The indexes and members that follow an operand end at or after their
/// start.
pub proof fn lemma_suffixes_advance(tokens: Seq<TokenView>, at: int, object: NodeView)
    ensures
        suffixes(tokens, at, object) matches Ok(parsed) ==> parsed.1 >= at,
    decreases remaining(tokens, at), 20nat,
{
    match kind_at(tokens, at) {
        TokenTypeView::LeftBracket => {
            lemma_expression_advances(tokens, at + 1);
            match expression(tokens, at + 1) {
                Ok((index, next)) => {
                    let close = after(at, next);
                    if kind_at(tokens, close) is RightBracket {
                        lemma_suffixes_advance(
                            tokens,
                            close + 1,
                            NodeView::Index { object: Box::new(object), index: Box::new(index) },
                        );
                    }
                },
                Err(error) => {},
            }
        },
        TokenTypeView::Dot => {
            match kind_at(tokens, at + 1) {
                TokenTypeView::Identifier(member) => {
                    lemma_suffixes_advance(
                        tokens,
                        at + 2,
                        NodeView::MemberAccess { object: Box::new(object), member },
                    );
                },
                _ => {},
            }
        },
        _ => {},
    }
}

/// A literal, a name, a call, an expression in parentheses or a list ends
/// after its start.
pub proof fn lemma_primary_advances(tokens: Seq<TokenView>, at: int)
    ensures
        primary(tokens, at) matches Ok(parsed) ==> parsed.1 > at,
    decreases remaining(tokens, at), 10nat,
{
    match kind_at(tokens, at) {
        TokenTypeView::Identifier(name) => {
            if kind_at(tokens, at + 1) is LeftParen {
                lemma_items_advance(tokens, at + 2, TokenTypeView::RightParen);
            }
        },
        TokenTypeView::LeftParen => {
            lemma_expression_advances(tokens, at + 1);
        },
        TokenTypeView::LeftBracket => {
            lemma_items_advance(tokens, at + 1, TokenTypeView::RightBracket);
        },
        _ => {},
    }
}

/// Expressions up to a closing token end after their start.
pub proof fn lemma_items_advance(tokens: Seq<TokenView>, at: int, closer: TokenTypeView)
    ensures
        items(tokens, at, closer) matches Ok(parsed) ==> parsed.1 > at,
    decreases remaining(tokens, at), 71nat,
{
    if kind_at(tokens, at) != closer {
        lemma_items_tail_advances(tokens, at, closer, Seq::empty());
    }
}

/// The expressions from a position on, up to a closing token, end after
/// that position.
pub proof fn lemma_items_tail_advances(
    tokens: Seq<TokenView>,
    at: int,
    closer: TokenTypeView,
    done: Seq<NodeView>,
)
    ensures
        items_tail(tokens, at, closer, done) matches Ok(parsed) ==> parsed.1 > at,
    decreases remaining(tokens, at), 70nat,
{
    lemma_expression_advances(tokens, at);
    match expression(tokens, at) {
        Ok((item, next)) => {
            let stop = after(at, next);
            if kind_at(tokens, stop) is Comma {
                lemma_items_tail_advances(tokens, stop + 1, closer, done.push(item));
            }
        },
        Err(error) => {},
    }
}

/// The names of parameters end after their start.
pub proof fn lemma_parameters_advance(tokens: Seq<TokenView>, at: int, done: Seq<Seq<char>>)
    ensures
        parameters_tail(tokens, at, done) matches Ok(parsed) ==> parsed.1 > at,
        parameters(tokens, at) matches Ok(parsed) ==> parsed.1 > at,
    decreases remaining(tokens, at),
{
    match kind_at(tokens, at) {
        TokenTypeView::Identifier(name) => {
            if kind_at(tokens, at + 1) is Comma {
                lemma_parameters_advance(tokens, at + 2, done.push(name));
            }
        },
        _ => {},
    }
    if kind_at(tokens, at) is LeftParen && !(kind_at(tokens, at + 1) is RightParen) {
        lemma_parameters_advance(tokens, at + 1, Seq::empty());
    }
}

/// A statement that is read ends after the position it starts from.
pub proof fn lemma_statement_advances(tokens: Seq<TokenView>, from: int)
    ensures
        statement(tokens, from) matches Ok(parsed) ==> parsed.1 > from,
    decreases remaining(tokens, from), 90nat,
{
    let at = past_newlines(tokens, from);
    let kind = kind_at(tokens, at);
    lemma_past_newlines(tokens, from);
    if is_keyword(kind, "decir"@, "print"@) {
        lemma_expression_advances(tokens, at + 1);
    } else if is_keyword(kind, "si"@, "if"@) {
        lemma_expression_advances(tokens, at + 1);
        match expression(tokens, at + 1) {
            Ok((condition, next)) => {
                lemma_block_advances(tokens, past_colon(tokens, after(at, next)));
                match block(tokens, past_colon(tokens, after(at, next))) {
                    Ok((then_branch, middle)) => {
                        let other = after(at, middle);
                        if is_keyword(kind_at(tokens, other), "sino"@, "else"@) {
                            lemma_block_advances(tokens, past_colon(tokens, other + 1));
                        }
                    },
                    Err(error) => {},
                }
            },
            Err(error) => {},
        }
    } else if is_keyword(kind, "mientras"@, "while"@) {
        lemma_expression_advances(tokens, at + 1);
        match expression(tokens, at + 1) {
            Ok((condition, next)) => {
                lemma_block_advances(tokens, past_colon(tokens, after(at, next)));
            },
            Err(error) => {},
        }
    } else if is_keyword(kind, "para"@, "for"@) {
        lemma_expression_advances(tokens, at + 3);
        match expression(tokens, at + 3) {
            Ok((iterable, next)) => {
                if kind_at(tokens, at + 1) is Identifier && is_keyword(
                    kind_at(tokens, at + 2),
                    "en"@,
                    "in"@,
                ) {
                    lemma_statement_advances(tokens, past_colon(tokens, after(at, next)));
                }
            },
            Err(error) => {},
        }
    } else if is_keyword(kind, "funcion"@, "function"@) {
        lemma_parameters_advance(tokens, at + 2, Seq::empty());
        match parameters(tokens, at + 2) {
            Ok((params, next)) => {
                if kind_at(tokens, at + 1) is Identifier {
                    lemma_block_advances(tokens, past_colon(tokens, after(at, next)));
                }
            },
            Err(error) => {},
        }
    } else if is_keyword(kind, "retornar"@, "return"@) {
        lemma_expression_advances(tokens, at + 1);
    } else if kind is Identifier && kind_at(tokens, at + 1) is Assign {
        lemma_expression_advances(tokens, at + 2);
    } else {
        lemma_expression_advances(tokens, at);
    }
}

/// A block ends at or after the position it starts from.
pub proof fn lemma_block_advances(tokens: Seq<TokenView>, from: int)
    ensures
        block(tokens, from) matches Ok(parsed) ==> parsed.1 >= from,
    decreases remaining(tokens, from), 96nat,
{
    let at = past_newlines(tokens, from);
    lemma_past_newlines(tokens, from);
    if !(at_end(tokens, at) || closes_block(kind_at(tokens, at))) {
        lemma_statement_advances(tokens, at);
        match statement(tokens, at) {
            Ok((first, next)) => {
                lemma_block_tail_advances(tokens, after(at, next), seq![first]);
            },
            Err(error) => {},
        }
    }
}

/// The statements of a block from a position on end at or after it.
pub proof fn lemma_block_tail_advances(tokens: Seq<TokenView>, from: int, done: Seq<NodeView>)
    ensures
        block_tail(tokens, from, done) matches Ok(parsed) ==> parsed.1 >= from,
    decreases remaining(tokens, from), 95nat,
{
    let at = past_newlines(tokens, from);
    lemma_past_newlines(tokens, from);
    if !(at_end(tokens, at) || closes_block(kind_at(tokens, at)) || bare_name(tokens, at)) {
        lemma_statement_advances(tokens, at);
        match statement(tokens, at) {
            Ok((next_statement, next)) => {
                lemma_block_tail_advances(tokens, after(at, next), done.push(next_statement));
            },
            Err(error) => {},
        }
    }
}

} // verus!
