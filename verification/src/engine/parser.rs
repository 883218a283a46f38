//! The syntax tree of a command and the recursive-descent parser that
//! builds it.
//!
//! ```text
//! command    := expr_and EOF
//! expr_and   := expr_or ("&" expr_or)*
//! expr_or    := expr_case ("|" expr_case)*
//! expr_case  := "(" expr_and ")" | func
//! func       := NAME ("(" arg_list? ")")?
//! arg_list   := arg ("," arg)*
//! arg        := CONST | expr_and
//! ```

use super::semantic_type::SemanticType;
use super::tokenizer::{
    bare, lemma_tokens_from_all_valid, lemma_tokens_from_step, lex, tokens_from, valid_token,
    valid_tokens, Token, TokenModel, TokenType, Tokenizer,
};
use vstd::prelude::*;

verus! {

/// The kinds of node of the syntax tree.
#[derive(Debug, PartialEq, Eq, Structural, Clone, Copy)]
pub enum NodeType {
    CommandExpression,
    ExpressionAnd,
    ExpressionAndRight,
    ExpressionOr,
    ExpressionOrRight,
    ExpressionCase,
    FunctionExpression,
    Arguments,
}

/// A whole command.
#[derive(Debug)]
pub struct CommandExpressionNode {
    pub expr_and: Box<ExpressionAndNode>,
    pub semantic_type: Option<SemanticType>,
}

/// Operands joined by `&`.
#[derive(Debug)]
pub struct ExpressionAndNode {
    pub expr_ors: Vec<Box<ExpressionOrNode>>,
    pub semantic_type: Option<SemanticType>,
}

/// Operands joined by `|`.
#[derive(Debug)]
pub struct ExpressionOrNode {
    pub expr_cases: Vec<Box<ExpressionCaseNode>>,
    pub semantic_type: Option<SemanticType>,
}

/// Either an expression in parentheses or a function.
#[derive(Debug)]
pub struct ExpressionCaseNode {
    pub expr_and: Option<Box<ExpressionAndNode>>,
    pub func: Option<Box<FunctionExpressionNode>>,
    pub semantic_type: Option<SemanticType>,
}

/// A call of a function, or (`is_use`) a function named as a value.
#[derive(Debug)]
pub struct FunctionExpressionNode {
    pub name: String,
    pub is_use: bool,
    pub args: Option<Box<ArgumentsNode>>,
    pub semantic_type: Option<SemanticType>,
}

/// The arguments of a call.
#[derive(Debug)]
pub struct ArgumentsNode {
    pub args: Vec<Box<ArgumentNode>>,
    pub semantic_type: Option<SemanticType>,
}

/// Either a literal or an expression.
#[derive(Debug)]
pub struct ArgumentNode {
    pub value: Option<String>,
    pub expr_and: Option<Box<ExpressionAndNode>>,
    pub semantic_type: Option<SemanticType>,
}

/// The syntax of an `&` expression: its operands in source order.
pub struct AndSyntax {
    pub ors: Seq<OrSyntax>,
}

/// The syntax of an `|` expression: its operands in source order.
pub struct OrSyntax {
    pub cases: Seq<CaseSyntax>,
}

/// The syntax of an operand.
pub enum CaseSyntax {
    Paren(Box<AndSyntax>),
    Func(FuncSyntax),
}

/// The syntax of a function expression.
pub struct FuncSyntax {
    pub name: Seq<char>,
    pub is_use: bool,
    pub args: Seq<ArgSyntax>,
}

/// The syntax of an argument.
pub enum ArgSyntax {
    Literal(Seq<char>),
    Expr(AndSyntax),
}

impl ExpressionAndNode {
    /// The syntax this node stands for, whatever types it is annotated with.
    pub open spec fn syntax(&self) -> AndSyntax
        decreases self,
    {
        AndSyntax {
            ors: Seq::new(
                self.expr_ors.len() as nat,
                |i: int|
                    if 0 <= i < self.expr_ors.len() {
                        self.expr_ors[i].syntax()
                    } else {
                        OrSyntax { cases: Seq::empty() }
                    },
            ),
        }
    }

    /// The node has an operand, and every node below it is well formed.
    pub open spec fn wf(&self) -> bool
        decreases self,
    {
        &&& self.expr_ors.len() >= 1
        &&& forall|i: int| 0 <= i < self.expr_ors.len() ==> (#[trigger] self.expr_ors[i]).wf()
    }

    /// No node from here down carries a type.
    pub open spec fn untyped(&self) -> bool
        decreases self,
    {
        &&& self.semantic_type is None
        &&& forall|i: int| 0 <= i < self.expr_ors.len() ==> (#[trigger] self.expr_ors[i]).untyped()
    }
}

impl ExpressionOrNode {
    /// The syntax this node stands for, whatever types it is annotated with.
    pub open spec fn syntax(&self) -> OrSyntax
        decreases self,
    {
        OrSyntax {
            cases: Seq::new(
                self.expr_cases.len() as nat,
                |i: int|
                    if 0 <= i < self.expr_cases.len() {
                        self.expr_cases[i].syntax()
                    } else {
                        CaseSyntax::Paren(Box::new(AndSyntax { ors: Seq::empty() }))
                    },
            ),
        }
    }

    /// The node has an operand, and every node below it is well formed.
    pub open spec fn wf(&self) -> bool
        decreases self,
    {
        &&& self.expr_cases.len() >= 1
        &&& forall|i: int| 0 <= i < self.expr_cases.len() ==> (#[trigger] self.expr_cases[i]).wf()
    }

    /// No node from here down carries a type.
    pub open spec fn untyped(&self) -> bool
        decreases self,
    {
        &&& self.semantic_type is None
        &&& forall|i: int|
            0 <= i < self.expr_cases.len() ==> (#[trigger] self.expr_cases[i]).untyped()
    }
}

impl ExpressionCaseNode {
    /// The syntax this node stands for, whatever types it is annotated with.
    pub open spec fn syntax(&self) -> CaseSyntax
        decreases self,
    {
        match (self.expr_and, self.func) {
            (Some(inner), _) => CaseSyntax::Paren(Box::new(inner.syntax())),
            (None, Some(func)) => CaseSyntax::Func(func.syntax()),
            (None, None) => CaseSyntax::Paren(Box::new(AndSyntax { ors: Seq::empty() })),
        }
    }

    /// The node is exactly one of its two forms, and every node below it is
    /// well formed.
    pub open spec fn wf(&self) -> bool
        decreases self,
    {
        match (self.expr_and, self.func) {
            (Some(inner), None) => inner.wf(),
            (None, Some(func)) => func.wf(),
            _ => false,
        }
    }

    /// No node from here down carries a type.
    pub open spec fn untyped(&self) -> bool
        decreases self,
    {
        &&& self.semantic_type is None
        &&& self.expr_and matches Some(inner) ==> inner.untyped()
        &&& self.func matches Some(func) ==> func.untyped()
    }
}

impl FunctionExpressionNode {
    /// The syntax this node stands for, whatever types it is annotated with.
    pub open spec fn syntax(&self) -> FuncSyntax
        decreases self,
    {
        FuncSyntax {
            name: self.name@,
            is_use: self.is_use,
            args: match self.args {
                Some(args) => args.syntax(),
                None => Seq::empty(),
            },
        }
    }

    /// Every node below this one is well formed.
    pub open spec fn wf(&self) -> bool
        decreases self,
    {
        self.args matches Some(args) ==> args.wf()
    }

    /// No node from here down carries a type.
    pub open spec fn untyped(&self) -> bool
        decreases self,
    {
        &&& self.semantic_type is None
        &&& self.args matches Some(args) ==> args.untyped()
    }
}

impl ArgumentsNode {
    /// The syntax of the arguments in source order.
    pub open spec fn syntax(&self) -> Seq<ArgSyntax>
        decreases self,
    {
        Seq::new(
            self.args.len() as nat,
            |i: int|
                if 0 <= i < self.args.len() {
                    self.args[i].syntax()
                } else {
                    ArgSyntax::Literal(Seq::empty())
                },
        )
    }

    /// Every argument is well formed.
    pub open spec fn wf(&self) -> bool
        decreases self,
    {
        forall|i: int| 0 <= i < self.args.len() ==> (#[trigger] self.args[i]).wf()
    }

    /// No node from here down carries a type.
    pub open spec fn untyped(&self) -> bool
        decreases self,
    {
        &&& self.semantic_type is None
        &&& forall|i: int| 0 <= i < self.args.len() ==> (#[trigger] self.args[i]).untyped()
    }
}

impl ArgumentNode {
    /// The syntax this node stands for, whatever types it is annotated with.
    pub open spec fn syntax(&self) -> ArgSyntax
        decreases self,
    {
        match (self.value, self.expr_and) {
            (Some(text), _) => ArgSyntax::Literal(text@),
            (None, Some(inner)) => ArgSyntax::Expr(inner.syntax()),
            (None, None) => ArgSyntax::Literal(Seq::empty()),
        }
    }

    /// The node is exactly one of its two forms, and every node below it is
    /// well formed.
    pub open spec fn wf(&self) -> bool
        decreases self,
    {
        match (self.value, self.expr_and) {
            (Some(_), None) => true,
            (None, Some(inner)) => inner.wf(),
            _ => false,
        }
    }

    /// No node from here down carries a type.
    pub open spec fn untyped(&self) -> bool
        decreases self,
    {
        &&& self.semantic_type is None
        &&& self.expr_and matches Some(inner) ==> inner.untyped()
    }
}

impl CommandExpressionNode {
    /// The syntax of the command.
    pub open spec fn syntax(&self) -> AndSyntax {
        self.expr_and.syntax()
    }

    /// Every node of the command is well formed.
    pub open spec fn wf(&self) -> bool {
        self.expr_and.wf()
    }

    /// No node of the command carries a type.
    pub open spec fn untyped(&self) -> bool {
        self.semantic_type is None && self.expr_and.untyped()
    }
}

impl View for CommandExpressionNode {
    type V = AndSyntax;

    open spec fn view(&self) -> AndSyntax {
        self.syntax()
    }
}

/// A token that the grammar does not allow where it stands.
#[derive(Debug)]
pub struct ParseError {
    /// What the grammar asked for: a `Name`, a `BraceEnd`, or `Eof` after the
    /// command.
    pub expected: TokenType,
    /// The token found in its place; a malformed token or an unterminated
    /// string shows as `Error`.
    pub found: Token,
}

/// The mathematical value of a [`ParseError`].
pub struct ParseErrorModel {
    pub expected: TokenType,
    pub found: TokenModel,
}

impl View for ParseError {
    type V = ParseErrorModel;

    open spec fn view(&self) -> ParseErrorModel {
        ParseErrorModel { expected: self.expected, found: self.found@ }
    }
}

/// What parsing one construct yields: its syntax and the tokens left.
pub type Parsed<T> = Result<(T, Seq<TokenModel>), ParseErrorModel>;

/// The first of the tokens; past their end, `Eof`.
pub open spec fn first(ts: Seq<TokenModel>) -> TokenModel {
    if ts.len() > 0 {
        ts[0]
    } else {
        bare(TokenType::Eof)
    }
}

/// The kind of the first token.
pub open spec fn peek(ts: Seq<TokenModel>) -> TokenType {
    first(ts).kind
}

/// The text of the first token; empty where it has none.
pub open spec fn first_text(ts: Seq<TokenModel>) -> Seq<char> {
    match first(ts).content {
        Some(text) => text,
        None => Seq::empty(),
    }
}

/// The error for the first of `ts` standing where `expected` should.
pub open spec fn unexpected(expected: TokenType, ts: Seq<TokenModel>) -> ParseErrorModel {
    ParseErrorModel { expected, found: first(ts) }
}

/// `expr_and := expr_or ("&" expr_or)*`
///
/// In this and the following functions a test that compares the lengths of
/// two token sequences only shows that the recursion ends: on the tokens
/// that the lexer makes it always holds, by [`lemma_parse_and`] and the
/// lemmas beside it.
pub open spec fn parse_and(ts: Seq<TokenModel>) -> Parsed<AndSyntax>
    decreases ts.len(), 3nat,
{
    match parse_or(ts) {
        Ok((head, rest)) if rest.len() <= ts.len() => parse_and_tail(rest, seq![head]),
        Ok(_) => Err(unexpected(TokenType::Error, ts)),
        Err(e) => Err(e),
    }
}

/// `("&" expr_or)*` after the operands `acc`.
pub open spec fn parse_and_tail(ts: Seq<TokenModel>, acc: Seq<OrSyntax>) -> Parsed<AndSyntax>
    decreases ts.len(), 2nat,
{
    if peek(ts) == TokenType::And {
        match parse_or(ts.skip(1)) {
            Ok((operand, rest)) if rest.len() < ts.len() => parse_and_tail(rest, acc.push(operand)),
            Ok(_) => Err(unexpected(TokenType::Error, ts)),
            Err(e) => Err(e),
        }
    } else {
        Ok((AndSyntax { ors: acc }, ts))
    }
}

/// `expr_or := expr_case ("|" expr_case)*`
pub open spec fn parse_or(ts: Seq<TokenModel>) -> Parsed<OrSyntax>
    decreases ts.len(), 2nat,
{
    match parse_case(ts) {
        Ok((head, rest)) if rest.len() <= ts.len() => parse_or_tail(rest, seq![head]),
        Ok(_) => Err(unexpected(TokenType::Error, ts)),
        Err(e) => Err(e),
    }
}

/// `("|" expr_case)*` after the operands `acc`.
pub open spec fn parse_or_tail(ts: Seq<TokenModel>, acc: Seq<CaseSyntax>) -> Parsed<OrSyntax>
    decreases ts.len(), 1nat,
{
    if peek(ts) == TokenType::Or {
        match parse_case(ts.skip(1)) {
            Ok((operand, rest)) if rest.len() < ts.len() => parse_or_tail(rest, acc.push(operand)),
            Ok(_) => Err(unexpected(TokenType::Error, ts)),
            Err(e) => Err(e),
        }
    } else {
        Ok((OrSyntax { cases: acc }, ts))
    }
}

/// `expr_case := "(" expr_and ")" | func`
pub open spec fn parse_case(ts: Seq<TokenModel>) -> Parsed<CaseSyntax>
    decreases ts.len(), 1nat,
{
    if peek(ts) == TokenType::BraceStart {
        match parse_and(ts.skip(1)) {
            Ok((inner, rest)) => if peek(rest) == TokenType::BraceEnd {
                Ok((CaseSyntax::Paren(Box::new(inner)), rest.skip(1)))
            } else {
                Err(unexpected(TokenType::BraceEnd, rest))
            },
            Err(e) => Err(e),
        }
    } else if peek(ts) == TokenType::Name {
        match parse_func(ts) {
            Ok((func, rest)) => Ok((CaseSyntax::Func(func), rest)),
            Err(e) => Err(e),
        }
    } else {
        Err(unexpected(TokenType::Name, ts))
    }
}

/// `func := NAME ("(" arg_list? ")")?`, for tokens that start with a name.
pub open spec fn parse_func(ts: Seq<TokenModel>) -> Parsed<FuncSyntax>
    decreases ts.len(), 0nat,
{
    let name = first_text(ts);
    let after_name = ts.skip(1);
    if ts.len() == 0 || peek(after_name) != TokenType::BraceStart {
        Ok((FuncSyntax { name, is_use: true, args: Seq::empty() }, after_name))
    } else {
        let after_brace = after_name.skip(1);
        if peek(after_brace) == TokenType::BraceEnd {
            Ok((FuncSyntax { name, is_use: false, args: Seq::empty() }, after_brace.skip(1)))
        } else {
            match parse_args(after_brace) {
                Ok((args, rest)) => if peek(rest) == TokenType::BraceEnd {
                    Ok((FuncSyntax { name, is_use: false, args }, rest.skip(1)))
                } else {
                    Err(unexpected(TokenType::BraceEnd, rest))
                },
                Err(e) => Err(e),
            }
        }
    }
}

/// `arg_list := arg ("," arg)*`
pub open spec fn parse_args(ts: Seq<TokenModel>) -> Parsed<Seq<ArgSyntax>>
    decreases ts.len(), 5nat,
{
    match parse_arg(ts) {
        Ok((head, rest)) if rest.len() <= ts.len() => parse_args_tail(rest, seq![head]),
        Ok(_) => Err(unexpected(TokenType::Error, ts)),
        Err(e) => Err(e),
    }
}

/// `("," arg)*` after the arguments `acc`.
pub open spec fn parse_args_tail(ts: Seq<TokenModel>, acc: Seq<ArgSyntax>) -> Parsed<
    Seq<ArgSyntax>,
>
    decreases ts.len(), 4nat,
{
    if peek(ts) == TokenType::Comma {
        match parse_arg(ts.skip(1)) {
            Ok((arg, rest)) if rest.len() < ts.len() => parse_args_tail(rest, acc.push(arg)),
            Ok(_) => Err(unexpected(TokenType::Error, ts)),
            Err(e) => Err(e),
        }
    } else {
        Ok((acc, ts))
    }
}

/// `arg := CONST | expr_and`
pub open spec fn parse_arg(ts: Seq<TokenModel>) -> Parsed<ArgSyntax>
    decreases ts.len(), 4nat,
{
    if peek(ts) == TokenType::Const {
        Ok((ArgSyntax::Literal(first_text(ts)), ts.skip(1)))
    } else {
        match parse_and(ts) {
            Ok((inner, rest)) => Ok((ArgSyntax::Expr(inner), rest)),
            Err(e) => Err(e),
        }
    }
}

/// `command := expr_and EOF`
pub open spec fn parse_command(ts: Seq<TokenModel>) -> Result<AndSyntax, ParseErrorModel> {
    match parse_and(ts) {
        Ok((command, rest)) => if peek(rest) == TokenType::Eof {
            Ok(command)
        } else {
            Err(unexpected(TokenType::Eof, rest))
        },
        Err(e) => Err(e),
    }
}

/// The token of a name.
pub open spec fn name_token(name: Seq<char>) -> TokenModel {
    TokenModel { kind: TokenType::Name, content: Some(name) }
}

/// The token of a constant.
pub open spec fn const_token(text: Seq<char>) -> TokenModel {
    TokenModel { kind: TokenType::Const, content: Some(text) }
}

/// The tokens that an `&` expression is written with.
pub open spec fn tokens_of_and(a: AndSyntax) -> Seq<TokenModel>
    decreases a, a.ors.len() + 1,
{
    tokens_of_ors(a, a.ors.len() as int)
}

/// The tokens of the first `n` operands of `a`, with `&` between them.
pub open spec fn tokens_of_ors(a: AndSyntax, n: int) -> Seq<TokenModel>
    decreases a, n,
{
    if n <= 0 || n > a.ors.len() {
        Seq::empty()
    } else if n == 1 {
        tokens_of_or(a.ors[0])
    } else {
        tokens_of_ors(a, n - 1) + seq![bare(TokenType::And)] + tokens_of_or(a.ors[n - 1])
    }
}

/// The tokens that an `|` expression is written with.
pub open spec fn tokens_of_or(o: OrSyntax) -> Seq<TokenModel>
    decreases o, o.cases.len() + 1,
{
    tokens_of_cases(o, o.cases.len() as int)
}

/// The tokens of the first `n` operands of `o`, with `|` between them.
pub open spec fn tokens_of_cases(o: OrSyntax, n: int) -> Seq<TokenModel>
    decreases o, n,
{
    if n <= 0 || n > o.cases.len() {
        Seq::empty()
    } else if n == 1 {
        tokens_of_case(o.cases[0])
    } else {
        tokens_of_cases(o, n - 1) + seq![bare(TokenType::Or)] + tokens_of_case(o.cases[n - 1])
    }
}

/// The tokens that an operand is written with.
pub open spec fn tokens_of_case(c: CaseSyntax) -> Seq<TokenModel>
    decreases c, 0nat,
{
    match c {
        CaseSyntax::Paren(inner) => seq![bare(TokenType::BraceStart)] + tokens_of_and(*inner)
            + seq![bare(TokenType::BraceEnd)],
        CaseSyntax::Func(func) => tokens_of_func(func),
    }
}

/// The tokens that a function expression is written with.
pub open spec fn tokens_of_func(f: FuncSyntax) -> Seq<TokenModel>
    decreases f, f.args.len() + 1,
{
    if f.is_use {
        seq![name_token(f.name)]
    } else {
        seq![name_token(f.name), bare(TokenType::BraceStart)] + tokens_of_args(
            f,
            f.args.len() as int,
        ) + seq![bare(TokenType::BraceEnd)]
    }
}

/// The tokens of the first `n` arguments of `f`, with `,` between them.
pub open spec fn tokens_of_args(f: FuncSyntax, n: int) -> Seq<TokenModel>
    decreases f, n,
{
    if n <= 0 || n > f.args.len() {
        Seq::empty()
    } else if n == 1 {
        tokens_of_arg(f.args[0])
    } else {
        tokens_of_args(f, n - 1) + seq![bare(TokenType::Comma)] + tokens_of_arg(f.args[n - 1])
    }
}

/// The tokens that an argument is written with.
pub open spec fn tokens_of_arg(x: ArgSyntax) -> Seq<TokenModel>
    decreases x, 0nat,
{
    match x {
        ArgSyntax::Literal(text) => seq![const_token(text)],
        ArgSyntax::Expr(inner) => tokens_of_and(inner),
    }
}

/// The syntax is as the parser makes it: an `&` expression has an operand,
/// and so it is all the way down.
pub open spec fn canonical_and(a: AndSyntax) -> bool
    decreases a, 1nat,
{
    &&& a.ors.len() >= 1
    &&& forall|i: int| 0 <= i < a.ors.len() ==> canonical_or(#[trigger] a.ors[i])
}

/// The syntax is as the parser makes it: an `|` expression has an operand,
/// and so it is all the way down.
pub open spec fn canonical_or(o: OrSyntax) -> bool
    decreases o, 1nat,
{
    &&& o.cases.len() >= 1
    &&& forall|i: int| 0 <= i < o.cases.len() ==> canonical_case(#[trigger] o.cases[i])
}

/// The syntax is as the parser makes it, all the way down.
pub open spec fn canonical_case(c: CaseSyntax) -> bool
    decreases c, 0nat,
{
    match c {
        CaseSyntax::Paren(inner) => canonical_and(*inner),
        CaseSyntax::Func(func) => canonical_func(func),
    }
}

/// The syntax is as the parser makes it: a function named as a value has
/// no arguments, and so it is all the way down.
pub open spec fn canonical_func(f: FuncSyntax) -> bool
    decreases f, 1nat,
{
    &&& f.is_use ==> f.args.len() == 0
    &&& forall|i: int| 0 <= i < f.args.len() ==> canonical_arg(#[trigger] f.args[i])
}

/// The syntax is as the parser makes it, all the way down.
pub open spec fn canonical_arg(x: ArgSyntax) -> bool
    decreases x, 0nat,
{
    match x {
        ArgSyntax::Literal(_) => true,
        ArgSyntax::Expr(inner) => canonical_and(inner),
    }
}

/// Every argument is as the parser makes it.
pub open spec fn canonical_args(args: Seq<ArgSyntax>) -> bool {
    forall|i: int| 0 <= i < args.len() ==> canonical_arg(#[trigger] args[i])
}

/// Every operand is as the parser makes it.
pub open spec fn canonical_ors(ors: Seq<OrSyntax>) -> bool {
    forall|i: int| 0 <= i < ors.len() ==> canonical_or(#[trigger] ors[i])
}

/// Every operand is as the parser makes it.
pub open spec fn canonical_cases(cases: Seq<CaseSyntax>) -> bool {
    forall|i: int| 0 <= i < cases.len() ==> canonical_case(#[trigger] cases[i])
}

/// What a parse left of `ts`, after the tokens `yield_` that it took.
pub open spec fn took(ts: Seq<TokenModel>, yield_: Seq<TokenModel>, rest: Seq<TokenModel>) -> bool {
    &&& yield_ + rest == ts
    &&& yield_.len() >= 1
    &&& valid_tokens(rest)
}

proof fn lemma_first_token(ts: Seq<TokenModel>)
    requires
        valid_tokens(ts),
        ts.len() > 0,
    ensures
        valid_tokens(ts.skip(1)),
        ts == seq![ts[0]] + ts.skip(1),
        ts[0].content is None ==> ts[0] == bare(ts[0].kind),
        peek(ts) == TokenType::Name ==> ts[0] == name_token(first_text(ts)),
        peek(ts) == TokenType::Const ==> ts[0] == const_token(first_text(ts)),
        peek(ts) != TokenType::Name && peek(ts) != TokenType::Const ==> ts[0] == bare(peek(ts)),
{
    assert(valid_token(ts[0]));
    assert forall|i: int| 0 <= i < ts.skip(1).len() implies valid_token(
        #[trigger] ts.skip(1)[i],
    ) by {
        assert(ts.skip(1)[i] == ts[i + 1]);
    }
    assert(ts =~= seq![ts[0]] + ts.skip(1));
}

proof fn lemma_tokens_of_ors_prefix(a: AndSyntax, b: AndSyntax, n: int)
    requires
        0 <= n <= a.ors.len(),
        n <= b.ors.len(),
        forall|k: int| 0 <= k < n ==> a.ors[k] == b.ors[k],
    ensures
        tokens_of_ors(a, n) == tokens_of_ors(b, n),
    decreases n,
{
    if n > 1 {
        lemma_tokens_of_ors_prefix(a, b, n - 1);
    }
}

proof fn lemma_tokens_of_cases_prefix(a: OrSyntax, b: OrSyntax, n: int)
    requires
        0 <= n <= a.cases.len(),
        n <= b.cases.len(),
        forall|k: int| 0 <= k < n ==> a.cases[k] == b.cases[k],
    ensures
        tokens_of_cases(a, n) == tokens_of_cases(b, n),
    decreases n,
{
    if n > 1 {
        lemma_tokens_of_cases_prefix(a, b, n - 1);
    }
}

proof fn lemma_tokens_of_args_prefix(a: FuncSyntax, b: FuncSyntax, n: int)
    requires
        0 <= n <= a.args.len(),
        n <= b.args.len(),
        forall|k: int| 0 <= k < n ==> a.args[k] == b.args[k],
    ensures
        tokens_of_args(a, n) == tokens_of_args(b, n),
    decreases n,
{
    if n > 1 {
        lemma_tokens_of_args_prefix(a, b, n - 1);
    }
}

/// What `parse_and` accepts is written with the tokens that it took: the
/// tokens of the syntax it yields, followed by the tokens it left, are the
/// tokens it was given.
pub proof fn lemma_parse_and(ts: Seq<TokenModel>)
    requires
        valid_tokens(ts),
    ensures
        parse_and(ts) matches Ok((a, rest)) ==> took(ts, tokens_of_and(a), rest) && canonical_and(
            a,
        ),
    decreases ts.len(), 3nat,
{
    lemma_parse_or(ts);
    if let Ok((head, rest)) = parse_or(ts) {
        let first = AndSyntax { ors: seq![head] };
        assert(tokens_of_ors(first, 1) == tokens_of_or(head));
        lemma_parse_and_tail(rest, seq![head], ts);
    }
}

pub proof fn lemma_parse_and_tail(ts: Seq<TokenModel>, acc: Seq<OrSyntax>, all: Seq<TokenModel>)
    requires
        valid_tokens(ts),
        acc.len() >= 1,
        canonical_ors(acc),
        took(all, tokens_of_ors(AndSyntax { ors: acc }, acc.len() as int), ts),
    ensures
        parse_and_tail(ts, acc) matches Ok((a, rest)) ==> took(all, tokens_of_and(a), rest)
            && canonical_and(a),
    decreases ts.len(), 2nat,
{
    if peek(ts) == TokenType::And {
        lemma_first_token(ts);
        lemma_parse_or(ts.skip(1));
        if let Ok((operand, rest)) = parse_or(ts.skip(1)) {
            let before = AndSyntax { ors: acc };
            let after = AndSyntax { ors: acc.push(operand) };
            lemma_tokens_of_ors_prefix(before, after, acc.len() as int);
            assert(tokens_of_ors(after, acc.len() as int + 1) == tokens_of_ors(
                before,
                acc.len() as int,
            ) + seq![bare(TokenType::And)] + tokens_of_or(operand));
            assert(tokens_of_ors(after, acc.len() as int + 1) + rest =~= tokens_of_ors(
                before,
                acc.len() as int,
            ) + (seq![ts[0]] + (tokens_of_or(operand) + rest)));
            lemma_parse_and_tail(rest, acc.push(operand), all);
        }
    }
}

pub proof fn lemma_parse_or(ts: Seq<TokenModel>)
    requires
        valid_tokens(ts),
    ensures
        parse_or(ts) matches Ok((o, rest)) ==> took(ts, tokens_of_or(o), rest) && canonical_or(o),
    decreases ts.len(), 2nat,
{
    lemma_parse_case(ts);
    if let Ok((head, rest)) = parse_case(ts) {
        let first = OrSyntax { cases: seq![head] };
        assert(tokens_of_cases(first, 1) == tokens_of_case(head));
        lemma_parse_or_tail(rest, seq![head], ts);
    }
}

pub proof fn lemma_parse_or_tail(ts: Seq<TokenModel>, acc: Seq<CaseSyntax>, all: Seq<TokenModel>)
    requires
        valid_tokens(ts),
        acc.len() >= 1,
        canonical_cases(acc),
        took(all, tokens_of_cases(OrSyntax { cases: acc }, acc.len() as int), ts),
    ensures
        parse_or_tail(ts, acc) matches Ok((o, rest)) ==> took(all, tokens_of_or(o), rest)
            && canonical_or(o),
    decreases ts.len(), 1nat,
{
    if peek(ts) == TokenType::Or {
        lemma_first_token(ts);
        lemma_parse_case(ts.skip(1));
        if let Ok((operand, rest)) = parse_case(ts.skip(1)) {
            let before = OrSyntax { cases: acc };
            let after = OrSyntax { cases: acc.push(operand) };
            lemma_tokens_of_cases_prefix(before, after, acc.len() as int);
            assert(tokens_of_cases(after, acc.len() as int + 1) == tokens_of_cases(
                before,
                acc.len() as int,
            ) + seq![bare(TokenType::Or)] + tokens_of_case(operand));
            assert(tokens_of_cases(after, acc.len() as int + 1) + rest =~= tokens_of_cases(
                before,
                acc.len() as int,
            ) + (seq![ts[0]] + (tokens_of_case(operand) + rest)));
            lemma_parse_or_tail(rest, acc.push(operand), all);
        }
    }
}

pub proof fn lemma_parse_case(ts: Seq<TokenModel>)
    requires
        valid_tokens(ts),
    ensures
        parse_case(ts) matches Ok((c, rest)) ==> took(ts, tokens_of_case(c), rest)
            && canonical_case(c),
    decreases ts.len(), 1nat,
{
    if peek(ts) == TokenType::BraceStart {
        lemma_first_token(ts);
        lemma_parse_and(ts.skip(1));
        if let Ok((inner, rest)) = parse_and(ts.skip(1)) {
            if peek(rest) == TokenType::BraceEnd {
                lemma_first_token(rest);
                let c = CaseSyntax::Paren(Box::new(inner));
                assert(tokens_of_case(c) + rest.skip(1) =~= seq![ts[0]] + (tokens_of_and(inner)
                    + (seq![rest[0]] + rest.skip(1))));
            }
        }
    } else if peek(ts) == TokenType::Name {
        lemma_parse_func(ts);
    }
}

pub proof fn lemma_parse_func(ts: Seq<TokenModel>)
    requires
        valid_tokens(ts),
        peek(ts) == TokenType::Name,
    ensures
        parse_func(ts) matches Ok((f, rest)) ==> took(ts, tokens_of_func(f), rest)
            && canonical_func(f),
    decreases ts.len(), 0nat,
{
    lemma_first_token(ts);
    let name = first_text(ts);
    let after_name = ts.skip(1);
    if peek(after_name) != TokenType::BraceStart {
        let f = FuncSyntax { name, is_use: true, args: Seq::empty() };
        assert(tokens_of_func(f) + after_name =~= ts);
    } else {
        lemma_first_token(after_name);
        let after_brace = after_name.skip(1);
        if peek(after_brace) == TokenType::BraceEnd {
            lemma_first_token(after_brace);
            let f = FuncSyntax { name, is_use: false, args: Seq::empty() };
            assert(tokens_of_args(f, 0) == Seq::<TokenModel>::empty());
            assert(tokens_of_func(f) + after_brace.skip(1) =~= seq![ts[0]] + (seq![after_name[0]]
                + (seq![after_brace[0]] + after_brace.skip(1))));
        } else {
            lemma_parse_args(after_brace);
            if let Ok((args, rest)) = parse_args(after_brace) {
                if peek(rest) == TokenType::BraceEnd {
                    lemma_first_token(rest);
                    let f = FuncSyntax { name, is_use: false, args };
                    let shown = FuncSyntax { name: Seq::empty(), is_use: false, args };
                    lemma_tokens_of_args_prefix(f, shown, args.len() as int);
                    assert(tokens_of_func(f) + rest.skip(1) =~= seq![ts[0]] + (seq![after_name[0]]
                        + (tokens_of_args(shown, args.len() as int) + (seq![rest[0]] + rest.skip(
                        1,
                    )))));
                }
            }
        }
    }
}

pub proof fn lemma_parse_args(ts: Seq<TokenModel>)
    requires
        valid_tokens(ts),
    ensures
        parse_args(ts) matches Ok((args, rest)) ==> took(
            ts,
            tokens_of_args(
                FuncSyntax { name: Seq::empty(), is_use: false, args },
                args.len() as int,
            ),
            rest,
        ) && canonical_args(args),
    decreases ts.len(), 5nat,
{
    lemma_parse_arg(ts);
    if let Ok((head, rest)) = parse_arg(ts) {
        let first = FuncSyntax { name: Seq::empty(), is_use: false, args: seq![head] };
        assert(tokens_of_args(first, 1) == tokens_of_arg(head));
        lemma_parse_args_tail(rest, seq![head], ts);
    }
}

pub proof fn lemma_parse_args_tail(ts: Seq<TokenModel>, acc: Seq<ArgSyntax>, all: Seq<TokenModel>)
    requires
        valid_tokens(ts),
        acc.len() >= 1,
        canonical_args(acc),
        took(
            all,
            tokens_of_args(
                FuncSyntax { name: Seq::empty(), is_use: false, args: acc },
                acc.len() as int,
            ),
            ts,
        ),
    ensures
        parse_args_tail(ts, acc) matches Ok((args, rest)) ==> took(
            all,
            tokens_of_args(
                FuncSyntax { name: Seq::empty(), is_use: false, args },
                args.len() as int,
            ),
            rest,
        ) && canonical_args(args),
    decreases ts.len(), 4nat,
{
    if peek(ts) == TokenType::Comma {
        lemma_first_token(ts);
        lemma_parse_arg(ts.skip(1));
        if let Ok((arg, rest)) = parse_arg(ts.skip(1)) {
            let before = FuncSyntax { name: Seq::empty(), is_use: false, args: acc };
            let after = FuncSyntax { name: Seq::empty(), is_use: false, args: acc.push(arg) };
            lemma_tokens_of_args_prefix(before, after, acc.len() as int);
            assert(tokens_of_args(after, acc.len() as int + 1) == tokens_of_args(
                before,
                acc.len() as int,
            ) + seq![bare(TokenType::Comma)] + tokens_of_arg(arg));
            assert(tokens_of_args(after, acc.len() as int + 1) + rest =~= tokens_of_args(
                before,
                acc.len() as int,
            ) + (seq![ts[0]] + (tokens_of_arg(arg) + rest)));
            lemma_parse_args_tail(rest, acc.push(arg), all);
        }
    }
}

pub proof fn lemma_parse_arg(ts: Seq<TokenModel>)
    requires
        valid_tokens(ts),
    ensures
        parse_arg(ts) matches Ok((x, rest)) ==> took(ts, tokens_of_arg(x), rest) && canonical_arg(
            x,
        ),
    decreases ts.len(), 4nat,
{
    if peek(ts) == TokenType::Const {
        lemma_first_token(ts);
        assert(tokens_of_arg(ArgSyntax::Literal(first_text(ts))) + ts.skip(1) =~= ts);
    } else {
        lemma_parse_and(ts);
    }
}

/// What `parse_command` accepts is written with the tokens it was given:
/// they are the tokens of the syntax it yields, followed by the end of the
/// command.
pub proof fn lemma_parse_command(ts: Seq<TokenModel>)
    requires
        valid_tokens(ts),
    ensures
        parse_command(ts) matches Ok(a) ==> canonical_and(a) && exists|rest: Seq<TokenModel>|
            tokens_of_and(a) + rest == ts && peek(rest) == TokenType::Eof,
{
    lemma_parse_and(ts);
    if let Ok((a, rest)) = parse_and(ts) {
        if peek(rest) == TokenType::Eof {
            assert(tokens_of_and(a) + rest == ts && peek(rest) == TokenType::Eof);
        }
    }
}

/// The tokens of the operands of `a` from the `k`-th on, each with its `&`
/// before it.
pub open spec fn and_remainder(a: AndSyntax, k: int) -> Seq<TokenModel>
    decreases a.ors.len() - k,
{
    if 0 <= k < a.ors.len() {
        seq![bare(TokenType::And)] + tokens_of_or(a.ors[k]) + and_remainder(a, k + 1)
    } else {
        Seq::empty()
    }
}

/// The tokens of the operands of `o` from the `k`-th on, each with its `|`
/// before it.
pub open spec fn or_remainder(o: OrSyntax, k: int) -> Seq<TokenModel>
    decreases o.cases.len() - k,
{
    if 0 <= k < o.cases.len() {
        seq![bare(TokenType::Or)] + tokens_of_case(o.cases[k]) + or_remainder(o, k + 1)
    } else {
        Seq::empty()
    }
}

/// The tokens of the arguments of `f` from the `k`-th on, each with its `,`
/// before it.
pub open spec fn args_remainder(f: FuncSyntax, k: int) -> Seq<TokenModel>
    decreases f.args.len() - k,
{
    if 0 <= k < f.args.len() {
        seq![bare(TokenType::Comma)] + tokens_of_arg(f.args[k]) + args_remainder(f, k + 1)
    } else {
        Seq::empty()
    }
}

/// What may stand behind an operand: anything but `(`.
pub open spec fn stops_operand(rest: Seq<TokenModel>) -> bool {
    peek(rest) != TokenType::BraceStart
}

/// What may stand behind an `|` expression: anything but `|` and `(`.
pub open spec fn stops_or(rest: Seq<TokenModel>) -> bool {
    peek(rest) != TokenType::Or && stops_operand(rest)
}

/// What may stand behind an `&` expression: anything but `&`, `|` and `(`.
pub open spec fn stops_and(rest: Seq<TokenModel>) -> bool {
    peek(rest) != TokenType::And && stops_or(rest)
}

/// What may stand behind the arguments of a call.
pub open spec fn stops_args(rest: Seq<TokenModel>) -> bool {
    peek(rest) != TokenType::Comma && stops_and(rest)
}

proof fn lemma_and_split(a: AndSyntax, k: int)
    requires
        1 <= k <= a.ors.len(),
    ensures
        tokens_of_and(a) == tokens_of_ors(a, k) + and_remainder(a, k),
    decreases a.ors.len() - k,
{
    if k < a.ors.len() {
        lemma_and_split(a, k + 1);
        assert(tokens_of_ors(a, k + 1) + and_remainder(a, k + 1) =~= tokens_of_ors(a, k)
            + and_remainder(a, k));
    } else {
        assert(tokens_of_ors(a, k) + and_remainder(a, k) =~= tokens_of_ors(a, k));
    }
}

proof fn lemma_or_split(o: OrSyntax, k: int)
    requires
        1 <= k <= o.cases.len(),
    ensures
        tokens_of_or(o) == tokens_of_cases(o, k) + or_remainder(o, k),
    decreases o.cases.len() - k,
{
    if k < o.cases.len() {
        lemma_or_split(o, k + 1);
        assert(tokens_of_cases(o, k + 1) + or_remainder(o, k + 1) =~= tokens_of_cases(o, k)
            + or_remainder(o, k));
    } else {
        assert(tokens_of_cases(o, k) + or_remainder(o, k) =~= tokens_of_cases(o, k));
    }
}

proof fn lemma_args_split(f: FuncSyntax, k: int)
    requires
        1 <= k <= f.args.len(),
    ensures
        tokens_of_args(f, f.args.len() as int) == tokens_of_args(f, k) + args_remainder(f, k),
    decreases f.args.len() - k,
{
    if k < f.args.len() {
        lemma_args_split(f, k + 1);
        assert(tokens_of_args(f, k + 1) + args_remainder(f, k + 1) =~= tokens_of_args(f, k)
            + args_remainder(f, k));
    } else {
        assert(tokens_of_args(f, k) + args_remainder(f, k) =~= tokens_of_args(f, k));
    }
}

/// An expression begins with `(` or with a name.
proof fn lemma_and_begins(a: AndSyntax)
    requires
        canonical_and(a),
    ensures
        tokens_of_and(a).len() >= 1,
        tokens_of_and(a)[0].kind == TokenType::BraceStart || tokens_of_and(a)[0].kind
            == TokenType::Name,
    decreases a, 1nat,
{
    lemma_and_split(a, 1);
    lemma_or_begins(a.ors[0]);
}

proof fn lemma_or_begins(o: OrSyntax)
    requires
        canonical_or(o),
    ensures
        tokens_of_or(o).len() >= 1,
        tokens_of_or(o)[0].kind == TokenType::BraceStart || tokens_of_or(o)[0].kind
            == TokenType::Name,
    decreases o, 1nat,
{
    lemma_or_split(o, 1);
    let first = tokens_of_case(o.cases[0]);
    match o.cases[0] {
        CaseSyntax::Paren(inner) => {
            assert(first[0] == bare(TokenType::BraceStart));
        },
        CaseSyntax::Func(func) => {
            assert(tokens_of_func(func)[0] == name_token(func.name));
        },
    }
    assert(tokens_of_cases(o, 1) == first);
    assert(tokens_of_or(o)[0] == first[0]);
}

/// What is behind an expression, where the rest of its operands stand
/// there, never begins with `(`, nor with the operator of the next level.
proof fn lemma_and_remainder_begins(a: AndSyntax, k: int, rest: Seq<TokenModel>)
    requires
        stops_and(rest),
    ensures
        stops_or(and_remainder(a, k) + rest),
        0 <= k < a.ors.len() ==> peek(and_remainder(a, k) + rest) == TokenType::And,
        !(0 <= k < a.ors.len()) ==> and_remainder(a, k) + rest == rest,
{
    if 0 <= k < a.ors.len() {
        assert((and_remainder(a, k) + rest)[0] == bare(TokenType::And));
    } else {
        assert(and_remainder(a, k) + rest =~= rest);
    }
}

proof fn lemma_or_remainder_begins(o: OrSyntax, k: int, rest: Seq<TokenModel>)
    requires
        stops_or(rest),
    ensures
        stops_operand(or_remainder(o, k) + rest),
        0 <= k < o.cases.len() ==> peek(or_remainder(o, k) + rest) == TokenType::Or,
        !(0 <= k < o.cases.len()) ==> or_remainder(o, k) + rest == rest,
{
    if 0 <= k < o.cases.len() {
        assert((or_remainder(o, k) + rest)[0] == bare(TokenType::Or));
    } else {
        assert(or_remainder(o, k) + rest =~= rest);
    }
}

proof fn lemma_args_remainder_begins(f: FuncSyntax, k: int, rest: Seq<TokenModel>)
    requires
        stops_args(rest),
    ensures
        stops_and(args_remainder(f, k) + rest),
        0 <= k < f.args.len() ==> peek(args_remainder(f, k) + rest) == TokenType::Comma,
        !(0 <= k < f.args.len()) ==> args_remainder(f, k) + rest == rest,
{
    if 0 <= k < f.args.len() {
        assert((args_remainder(f, k) + rest)[0] == bare(TokenType::Comma));
    } else {
        assert(args_remainder(f, k) + rest =~= rest);
    }
}

/// The parser accepts what is written with the tokens of an expression: on
/// the tokens of `a`, followed by tokens that cannot go on with it, it
/// yields `a` and leaves those tokens.
pub proof fn lemma_accepts_and(a: AndSyntax, rest: Seq<TokenModel>)
    requires
        canonical_and(a),
        stops_and(rest),
    ensures
        parse_and(tokens_of_and(a) + rest) == Ok::<_, ParseErrorModel>((a, rest)),
    decreases a, a.ors.len() + 1,
{
    let ts = tokens_of_and(a) + rest;
    let behind = and_remainder(a, 1) + rest;
    lemma_and_split(a, 1);
    lemma_and_remainder_begins(a, 1, rest);
    assert(ts =~= tokens_of_or(a.ors[0]) + behind);
    lemma_accepts_or(a.ors[0], behind);
    lemma_accepts_and_tail(a, 1, rest);
    assert(a.ors.take(1) =~= seq![a.ors[0]]);
}

pub proof fn lemma_accepts_and_tail(a: AndSyntax, k: int, rest: Seq<TokenModel>)
    requires
        canonical_and(a),
        1 <= k <= a.ors.len(),
        stops_and(rest),
    ensures
        parse_and_tail(and_remainder(a, k) + rest, a.ors.take(k)) == Ok::<_, ParseErrorModel>(
            (a, rest),
        ),
    decreases a, a.ors.len() - k,
{
    let ts = and_remainder(a, k) + rest;
    lemma_and_remainder_begins(a, k, rest);
    if k < a.ors.len() {
        let behind = and_remainder(a, k + 1) + rest;
        lemma_and_remainder_begins(a, k + 1, rest);
        assert(ts.skip(1) =~= tokens_of_or(a.ors[k]) + behind);
        lemma_accepts_or(a.ors[k], behind);
        lemma_accepts_and_tail(a, k + 1, rest);
        assert(a.ors.take(k).push(a.ors[k]) =~= a.ors.take(k + 1));
    } else {
        assert(a.ors.take(k) =~= a.ors);
    }
}

pub proof fn lemma_accepts_or(o: OrSyntax, rest: Seq<TokenModel>)
    requires
        canonical_or(o),
        stops_or(rest),
    ensures
        parse_or(tokens_of_or(o) + rest) == Ok::<_, ParseErrorModel>((o, rest)),
    decreases o, o.cases.len() + 1,
{
    let ts = tokens_of_or(o) + rest;
    let behind = or_remainder(o, 1) + rest;
    lemma_or_split(o, 1);
    lemma_or_remainder_begins(o, 1, rest);
    assert(ts =~= tokens_of_case(o.cases[0]) + behind);
    lemma_accepts_case(o.cases[0], behind);
    lemma_accepts_or_tail(o, 1, rest);
    assert(o.cases.take(1) =~= seq![o.cases[0]]);
}

pub proof fn lemma_accepts_or_tail(o: OrSyntax, k: int, rest: Seq<TokenModel>)
    requires
        canonical_or(o),
        1 <= k <= o.cases.len(),
        stops_or(rest),
    ensures
        parse_or_tail(or_remainder(o, k) + rest, o.cases.take(k)) == Ok::<_, ParseErrorModel>(
            (o, rest),
        ),
    decreases o, o.cases.len() - k,
{
    let ts = or_remainder(o, k) + rest;
    lemma_or_remainder_begins(o, k, rest);
    if k < o.cases.len() {
        let behind = or_remainder(o, k + 1) + rest;
        lemma_or_remainder_begins(o, k + 1, rest);
        assert(ts.skip(1) =~= tokens_of_case(o.cases[k]) + behind);
        lemma_accepts_case(o.cases[k], behind);
        lemma_accepts_or_tail(o, k + 1, rest);
        assert(o.cases.take(k).push(o.cases[k]) =~= o.cases.take(k + 1));
    } else {
        assert(o.cases.take(k) =~= o.cases);
    }
}

pub proof fn lemma_accepts_case(c: CaseSyntax, rest: Seq<TokenModel>)
    requires
        canonical_case(c),
        stops_operand(rest),
    ensures
        parse_case(tokens_of_case(c) + rest) == Ok::<_, ParseErrorModel>((c, rest)),
    decreases c, 0nat,
{
    let ts = tokens_of_case(c) + rest;
    match c {
        CaseSyntax::Paren(inner) => {
            let behind = seq![bare(TokenType::BraceEnd)] + rest;
            assert(ts[0] == bare(TokenType::BraceStart));
            assert(ts.skip(1) =~= tokens_of_and(*inner) + behind);
            assert(behind[0] == bare(TokenType::BraceEnd));
            lemma_accepts_and(*inner, behind);
            assert(behind.skip(1) =~= rest);
        },
        CaseSyntax::Func(func) => {
            assert(ts[0] == name_token(func.name));
            lemma_accepts_func(func, rest);
        },
    }
}

pub proof fn lemma_accepts_func(f: FuncSyntax, rest: Seq<TokenModel>)
    requires
        canonical_func(f),
        stops_operand(rest),
    ensures
        parse_func(tokens_of_func(f) + rest) == Ok::<_, ParseErrorModel>((f, rest)),
    decreases f, f.args.len() + 2,
{
    let ts = tokens_of_func(f) + rest;
    assert(ts[0] == name_token(f.name));
    if f.is_use {
        assert(ts.skip(1) =~= rest);
        assert(f.args =~= Seq::<ArgSyntax>::empty());
    } else {
        let after_name = ts.skip(1);
        let after_brace = after_name.skip(1);
        let closing = seq![bare(TokenType::BraceEnd)] + rest;
        assert(after_name[0] == bare(TokenType::BraceStart));
        assert(after_brace =~= tokens_of_args(f, f.args.len() as int) + closing);
        assert(closing[0] == bare(TokenType::BraceEnd));
        assert(closing.skip(1) =~= rest);
        if f.args.len() == 0 {
            assert(after_brace =~= closing);
            assert(f.args =~= Seq::<ArgSyntax>::empty());
        } else {
            lemma_args_split(f, 1);
            match f.args[0] {
                ArgSyntax::Literal(_) => {},
                ArgSyntax::Expr(inner) => {
                    lemma_and_begins(inner);
                },
            }
            assert(after_brace[0] == tokens_of_arg(f.args[0])[0]);
            lemma_accepts_args(f, closing);
        }
    }
}

pub proof fn lemma_accepts_args(f: FuncSyntax, rest: Seq<TokenModel>)
    requires
        canonical_func(f),
        f.args.len() >= 1,
        stops_args(rest),
    ensures
        parse_args(tokens_of_args(f, f.args.len() as int) + rest) == Ok::<_, ParseErrorModel>(
            (f.args, rest),
        ),
    decreases f, f.args.len() + 1,
{
    let ts = tokens_of_args(f, f.args.len() as int) + rest;
    let behind = args_remainder(f, 1) + rest;
    lemma_args_split(f, 1);
    lemma_args_remainder_begins(f, 1, rest);
    assert(ts =~= tokens_of_arg(f.args[0]) + behind);
    lemma_accepts_arg(f.args[0], behind);
    lemma_accepts_args_tail(f, 1, rest);
    assert(f.args.take(1) =~= seq![f.args[0]]);
}

pub proof fn lemma_accepts_args_tail(f: FuncSyntax, k: int, rest: Seq<TokenModel>)
    requires
        canonical_func(f),
        1 <= k <= f.args.len(),
        stops_args(rest),
    ensures
        parse_args_tail(args_remainder(f, k) + rest, f.args.take(k)) == Ok::<_, ParseErrorModel>(
            (f.args, rest),
        ),
    decreases f, f.args.len() - k,
{
    let ts = args_remainder(f, k) + rest;
    lemma_args_remainder_begins(f, k, rest);
    if k < f.args.len() {
        let behind = args_remainder(f, k + 1) + rest;
        lemma_args_remainder_begins(f, k + 1, rest);
        assert(ts.skip(1) =~= tokens_of_arg(f.args[k]) + behind);
        lemma_accepts_arg(f.args[k], behind);
        lemma_accepts_args_tail(f, k + 1, rest);
        assert(f.args.take(k).push(f.args[k]) =~= f.args.take(k + 1));
    } else {
        assert(f.args.take(k) =~= f.args);
    }
}

pub proof fn lemma_accepts_arg(x: ArgSyntax, rest: Seq<TokenModel>)
    requires
        canonical_arg(x),
        stops_and(rest),
    ensures
        parse_arg(tokens_of_arg(x) + rest) == Ok::<_, ParseErrorModel>((x, rest)),
    decreases x, 0nat,
{
    let ts = tokens_of_arg(x) + rest;
    match x {
        ArgSyntax::Literal(text) => {
            assert(ts[0] == const_token(text));
            assert(ts.skip(1) =~= rest);
        },
        ArgSyntax::Expr(inner) => {
            lemma_and_begins(inner);
            assert(ts[0] == tokens_of_and(inner)[0]);
            lemma_accepts_and(inner, rest);
        },
    }
}

/// The parser accepts every command of the grammar: the tokens of an
/// expression, followed by the end of the command, parse to the expression.
pub proof fn lemma_accepts_command(a: AndSyntax)
    requires
        canonical_and(a),
    ensures
        parse_command(tokens_of_and(a).push(bare(TokenType::Eof))) == Ok::<_, ParseErrorModel>(a),
{
    let rest = seq![bare(TokenType::Eof)];
    assert(rest[0] == bare(TokenType::Eof));
    lemma_accepts_and(a, rest);
    assert(tokens_of_and(a).push(bare(TokenType::Eof)) =~= tokens_of_and(a) + rest);
}

/// The grammar is unambiguous: two expressions that are written with the
/// same tokens are the same expression.
pub proof fn lemma_grammar_unambiguous(a: AndSyntax, b: AndSyntax)
    requires
        canonical_and(a),
        canonical_and(b),
        tokens_of_and(a) == tokens_of_and(b),
    ensures
        a == b,
{
    lemma_accepts_command(a);
    lemma_accepts_command(b);
}

/// A command that parses is written with the tokens of the syntax that it
/// parses to, followed by the end of the command.
pub proof fn lemma_parse_text(command: Seq<char>)
    ensures
        parse_command(lex(command)) matches Ok(a) ==> canonical_and(a) && exists|
            rest: Seq<TokenModel>,
        |
            tokens_of_and(a) + rest == lex(command) && peek(rest) == TokenType::Eof,
{
    lemma_tokens_from_all_valid(command, 0);
    lemma_parse_command(lex(command));
}

/// Parsing is a function of the text alone: equal texts parse to equal
/// results. [`Parser::from`] and [`Parser::parse`] compute this function.
pub proof fn lemma_parse_deterministic(first: Seq<char>, second: Seq<char>)
    requires
        first == second,
    ensures
        parse_command(lex(first)) == parse_command(lex(second)),
{
}

/// The parser: a lexer and the grammar on top of it.
pub struct Parser {
    tokenizer: Tokenizer,
}

impl Parser {
    /// The text being parsed.
    pub closed spec fn input(&self) -> Seq<char> {
        self.tokenizer.chars()
    }

    /// The tokens not yet consumed.
    pub closed spec fn remaining(&self) -> Seq<TokenModel> {
        tokens_from(self.tokenizer.chars(), self.tokenizer.pos())
    }

    /// A parser at the start of `target`.
    pub fn from(target: &str) -> (p: Parser)
        ensures
            p.input() == target@,
            p.remaining() == lex(target@),
    {
        Parser { tokenizer: Tokenizer::from(target) }
    }

    /// The kind of the next token, which stays in the stream.
    fn lookup(&mut self) -> (kind: TokenType)
        ensures
            final(self).input() == old(self).input(),
            final(self).remaining() == old(self).remaining(),
            old(self).remaining().len() >= 1,
            kind == peek(old(self).remaining()),
    {
        let kind = self.tokenizer.lookup();
        proof {
            lemma_tokens_from_step(self.tokenizer.chars(), self.tokenizer.pos());
        }
        kind
    }

    /// Takes the next token out of the stream.
    fn advance(&mut self) -> (token: Token)
        ensures
            final(self).input() == old(self).input(),
            old(self).remaining().len() >= 1,
            token@ == first(old(self).remaining()),
            token.token_type != TokenType::Eof && token.token_type != TokenType::Error
                ==> final(self).remaining() == old(self).remaining().skip(1),
    {
        proof {
            
        }
        let ghost before = self.tokenizer.pos();
        let token = self.tokenizer.next();
        proof {
            lemma_tokens_from_step(self.tokenizer.chars(), before);
        }
        token
    }

    /// Takes the next token out of the stream and returns its text.
    fn advance_text(&mut self) -> (text: String)
        requires
            peek(old(self).remaining()) == TokenType::Name || peek(old(self).remaining())
                == TokenType::Const,
        ensures
            final(self).input() == old(self).input(),
            old(self).remaining().len() >= 1,
            text@ == first_text(old(self).remaining()),
            final(self).remaining() == old(self).remaining().skip(1),
    {
        let token = self.advance();
        match token.content {
            Some(text) => text,
            None => String::new(),
        }
    }

    /// The error for the next token standing where `expected` should.
    fn fail(&mut self, expected: TokenType) -> (e: ParseError)
        ensures
            final(self).input() == old(self).input(),
            e@ == unexpected(expected, old(self).remaining()),
    {
        let found = self.advance();
        ParseError { expected, found }
    }

    /// Parses a whole command.
    pub fn parse(&mut self) -> (r: Result<CommandExpressionNode, ParseError>)
        ensures
            final(self).input() == old(self).input(),
            match r {
                Ok(command) => parse_command(old(self).remaining()) == Ok::<_, ParseErrorModel>(
                    command@,
                ) && parse_and(old(self).remaining()) == Ok::<_, ParseErrorModel>(
                    (command@, final(self).remaining()),
                ) && command.wf() && command.untyped(),
                Err(e) => parse_command(old(self).remaining()) == Err::<AndSyntax, _>(e@),
            },
    {
        let result = self.parse_expr_and()?;
        if self.lookup() != TokenType::Eof {
            Err(self.fail(TokenType::Eof))
        } else {
            Ok(CommandExpressionNode { expr_and: result, semantic_type: None })
        }
    }

    #[verifier::loop_isolation(false)]
    fn parse_expr_and(&mut self) -> (r: Result<Box<ExpressionAndNode>, ParseError>)
        ensures
            final(self).input() == old(self).input(),
            match r {
                Ok(node) => parse_and(old(self).remaining()) == Ok::<_, ParseErrorModel>(
                    (node.syntax(), final(self).remaining()),
                ) && node.wf() && node.untyped()
                    && final(self).remaining().len() < old(self).remaining().len(),
                Err(e) => parse_and(old(self).remaining()) == Err::<
                    (AndSyntax, Seq<TokenModel>),
                    _,
                >(e@),
            },
        decreases old(self).remaining().len(), 3nat,
    {
        let mut or_nodes: Vec<Box<ExpressionOrNode>> = Vec::new();
        let head = self.parse_expr_or()?;
        or_nodes.push(head);
        let ghost mut acc: Seq<OrSyntax> = seq![head.syntax()];
        loop
            invariant
                self.input() == old(self).input(),
                self.remaining().len() < old(self).remaining().len(),
                parse_and(old(self).remaining()) == parse_and_tail(self.remaining(), acc),
                acc.len() == or_nodes.len(),
                or_nodes.len() >= 1,
                forall|j: int|
                    0 <= j < or_nodes.len() ==> acc[j] == (#[trigger] or_nodes[j]).syntax()
                        && or_nodes[j].wf() && or_nodes[j].untyped(),
            decreases self.remaining().len(),
        {
            if self.lookup() != TokenType::And {
                break ;
            }
            let _ = self.advance();
            let operand = self.parse_expr_or()?;
            proof {
                acc = acc.push(operand.syntax());
            }
            or_nodes.push(operand);
        }
        let node = Box::new(ExpressionAndNode { expr_ors: or_nodes, semantic_type: None });
        assert(node.syntax().ors =~= acc);
        Ok(node)
    }

    #[verifier::loop_isolation(false)]
    fn parse_expr_or(&mut self) -> (r: Result<Box<ExpressionOrNode>, ParseError>)
        ensures
            final(self).input() == old(self).input(),
            match r {
                Ok(node) => parse_or(old(self).remaining()) == Ok::<_, ParseErrorModel>(
                    (node.syntax(), final(self).remaining()),
                ) && node.wf() && node.untyped()
                    && final(self).remaining().len() < old(self).remaining().len(),
                Err(e) => parse_or(old(self).remaining()) == Err::<(OrSyntax, Seq<TokenModel>), _>(
                    e@,
                ),
            },
        decreases old(self).remaining().len(), 2nat,
    {
        let mut case_nodes: Vec<Box<ExpressionCaseNode>> = Vec::new();
        let head = self.parse_expr_case()?;
        case_nodes.push(head);
        let ghost mut acc: Seq<CaseSyntax> = seq![head.syntax()];
        loop
            invariant
                self.input() == old(self).input(),
                self.remaining().len() < old(self).remaining().len(),
                parse_or(old(self).remaining()) == parse_or_tail(self.remaining(), acc),
                acc.len() == case_nodes.len(),
                case_nodes.len() >= 1,
                forall|j: int|
                    0 <= j < case_nodes.len() ==> acc[j] == (#[trigger] case_nodes[j]).syntax()
                        && case_nodes[j].wf() && case_nodes[j].untyped(),
            decreases self.remaining().len(),
        {
            if self.lookup() != TokenType::Or {
                break ;
            }
            let _ = self.advance();
            let operand = self.parse_expr_case()?;
            proof {
                acc = acc.push(operand.syntax());
            }
            case_nodes.push(operand);
        }
        let node = Box::new(ExpressionOrNode { expr_cases: case_nodes, semantic_type: None });
        assert(node.syntax().cases =~= acc);
        Ok(node)
    }

    fn parse_expr_case(&mut self) -> (r: Result<Box<ExpressionCaseNode>, ParseError>)
        ensures
            final(self).input() == old(self).input(),
            match r {
                Ok(node) => parse_case(old(self).remaining()) == Ok::<_, ParseErrorModel>(
                    (node.syntax(), final(self).remaining()),
                ) && node.wf() && node.untyped()
                    && final(self).remaining().len() < old(self).remaining().len(),
                Err(e) => parse_case(old(self).remaining()) == Err::<
                    (CaseSyntax, Seq<TokenModel>),
                    _,
                >(e@),
            },
        decreases old(self).remaining().len(), 1nat,
    {
        let kind = self.lookup();
        if kind == TokenType::BraceStart {
            let _ = self.advance();
            let inner = self.parse_expr_and()?;
            if self.lookup() != TokenType::BraceEnd {
                return Err(self.fail(TokenType::BraceEnd));
            }
            let _ = self.advance();
            return Ok(
                Box::new(
                    ExpressionCaseNode { expr_and: Some(inner), func: None, semantic_type: None },
                ),
            );
        }
        if kind != TokenType::Name {
            return Err(self.fail(TokenType::Name));
        }
        let func = self.parse_func()?;
        Ok(Box::new(ExpressionCaseNode { expr_and: None, func: Some(func), semantic_type: None }))
    }

    fn parse_func(&mut self) -> (r: Result<Box<FunctionExpressionNode>, ParseError>)
        requires
            peek(old(self).remaining()) == TokenType::Name,
        ensures
            final(self).input() == old(self).input(),
            match r {
                Ok(node) => parse_func(old(self).remaining()) == Ok::<_, ParseErrorModel>(
                    (node.syntax(), final(self).remaining()),
                ) && node.wf() && node.untyped()
                    && final(self).remaining().len() < old(self).remaining().len(),
                Err(e) => parse_func(old(self).remaining()) == Err::<
                    (FuncSyntax, Seq<TokenModel>),
                    _,
                >(e@),
            },
        decreases old(self).remaining().len(), 0nat,
    {
        let name = self.advance_text();
        if self.lookup() != TokenType::BraceStart {
            return Ok(
                Box::new(
                    FunctionExpressionNode { name, is_use: true, args: None, semantic_type: None },
                ),
            );
        }
        let _ = self.advance();
        if self.lookup() == TokenType::BraceEnd {
            let _ = self.advance();
            return Ok(
                Box::new(
                    FunctionExpressionNode { name, is_use: false, args: None, semantic_type: None },
                ),
            );
        }
        let args = self.parse_args()?;
        if self.lookup() != TokenType::BraceEnd {
            return Err(self.fail(TokenType::BraceEnd));
        }
        let _ = self.advance();
        Ok(
            Box::new(
                FunctionExpressionNode {
                    name,
                    is_use: false,
                    args: Some(args),
                    semantic_type: None,
                },
            ),
        )
    }

    #[verifier::loop_isolation(false)]
    fn parse_args(&mut self) -> (r: Result<Box<ArgumentsNode>, ParseError>)
        ensures
            final(self).input() == old(self).input(),
            match r {
                Ok(node) => parse_args(old(self).remaining()) == Ok::<_, ParseErrorModel>(
                    (node.syntax(), final(self).remaining()),
                ) && node.wf() && node.untyped()
                    && final(self).remaining().len() < old(self).remaining().len(),
                Err(e) => parse_args(old(self).remaining()) == Err::<
                    (Seq<ArgSyntax>, Seq<TokenModel>),
                    _,
                >(e@),
            },
        decreases old(self).remaining().len(), 5nat,
    {
        let mut args: Vec<Box<ArgumentNode>> = Vec::new();
        let head = self.parse_arg()?;
        args.push(head);
        let ghost mut acc: Seq<ArgSyntax> = seq![head.syntax()];
        loop
            invariant
                self.input() == old(self).input(),
                self.remaining().len() < old(self).remaining().len(),
                parse_args(old(self).remaining()) == parse_args_tail(self.remaining(), acc),
                acc.len() == args.len(),
                forall|j: int|
                    0 <= j < args.len() ==> acc[j] == (#[trigger] args[j]).syntax() && args[j].wf()
                        && args[j].untyped(),
            decreases self.remaining().len(),
        {
            if self.lookup() != TokenType::Comma {
                break ;
            }
            let _ = self.advance();
            let arg = self.parse_arg()?;
            proof {
                acc = acc.push(arg.syntax());
            }
            args.push(arg);
        }
        let node = Box::new(ArgumentsNode { args, semantic_type: None });
        assert(node.syntax() =~= acc);
        Ok(node)
    }

    fn parse_arg(&mut self) -> (r: Result<Box<ArgumentNode>, ParseError>)
        ensures
            final(self).input() == old(self).input(),
            match r {
                Ok(node) => parse_arg(old(self).remaining()) == Ok::<_, ParseErrorModel>(
                    (node.syntax(), final(self).remaining()),
                ) && node.wf() && node.untyped()
                    && final(self).remaining().len() < old(self).remaining().len(),
                Err(e) => parse_arg(old(self).remaining()) == Err::<
                    (ArgSyntax, Seq<TokenModel>),
                    _,
                >(e@),
            },
        decreases old(self).remaining().len(), 4nat,
    {
        if self.lookup() == TokenType::Const {
            let text = self.advance_text();
            return Ok(
                Box::new(ArgumentNode { value: Some(text), expr_and: None, semantic_type: None }),
            );
        }
        let expr_and = self.parse_expr_and()?;
        Ok(Box::new(ArgumentNode { value: None, expr_and: Some(expr_and), semantic_type: None }))
    }
}

} // verus!
