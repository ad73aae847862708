//! The grammar: a recursive-descent parser from tokens to the abstract
//! syntax tree.
//!
//! The expression layer tries, in order: a key-value pair, a bare leaf, an
//! array, a dict, a tuple, a query form; a value may carry one prefix
//! (`+ - !`) or postfix (`?`) unary operator; after a base expression at most
//! one binary application follows, whose right operand is a full expression,
//! so operator chains associate to the right with no precedence climbing.
//! A tuple, array or dict literal directly after a base expression is an
//! application: a call, an index, or a key access.
//!
//! The statement layer threads an explicit indentation depth: every statement
//! line must begin with exactly that many indentation units, and the bodies
//! of `if`/`elif`/`else` are parsed one unit deeper. A line with the wrong
//! indentation ends the block rather than raising an error.

use vstd::prelude::*;

use crate::tokenizer::Span;
use crate::tokenizer::SpecToken;
use crate::tokenizer::Token;
use crate::tokenizer::spanned_view;

verus! {

/// A unary operator: prefix sign or logical not, or the postfix question.
#[derive(Debug, Clone)]
pub enum UnaryOp {
    Plus,
    Minus,
    Not,
    Question,
}

/// A binary operator. The access operators are synthesized by the grammar,
/// never read from a token: `Index` from an array literal applied to a base
/// expression, `Call` from a tuple literal, `Key` from a dict literal.
#[derive(Debug, Clone)]
pub enum BinaryOp {
    Add,
    Sub,
    Mul,
    Div,
    Pow,
    Mod,
    Equal,
    NotEqual,
    Greater,
    Less,
    GreaterEqual,
    LessEqual,
    And,
    Or,
    Not,
    Assign,
    AddAssign,
    SubAssign,
    MulAssign,
    DivAssign,
    ModAssign,
    PowAssign,
    Index,
    Key,
    Dot,
    Call,
}

/// A leaf or composite literal value.
#[derive(Debug)]
pub enum Object {
    Constant(rust_decimal::Decimal),
    Str(Vec<u8>),
    Variable(Vec<u8>),
    Tuple(Vec<Expression>),
    Array(Vec<Expression>),
    DictItem(Box<Expression>, Box<Expression>),
    Dict(Vec<Expression>),
}

/// An expression tree.
#[derive(Debug)]
pub enum Expression {
    Object(Object),
    Unary { op: UnaryOp, hs: Box<Expression> },
    Binary { op: BinaryOp, lhs: Box<Expression>, rhs: Box<Expression> },
    Priority(Box<Expression>),
    Query { with_compoents: Vec<Vec<u8>>, without_compoents: Vec<Vec<u8>> },
}

/// One conditional branch: a condition and the commands of its body.
#[derive(Debug)]
pub struct Branch {
    pub condition: Expression,
    pub commands: Vec<Command>,
}

/// One statement.
#[derive(Debug)]
pub enum Command {
    Expression(Expression),
    If { if_branch: Vec<Branch>, else_branch: Option<Vec<Command>> },
    While { condition: Box<Expression>, command: Vec<Command> },
    Function { name: Vec<u8>, args: Vec<Vec<u8>>, commands: Vec<Command> },
    NewLine,
}

/// A structural parse error, bound to the source span of the token at which
/// the failing statement began.
#[derive(Debug, Clone, Copy, PartialEq, Eq, Structural)]
pub struct ParseError {
    pub start: usize,
    pub end: usize,
}

/// The indentation depth that gates every statement line.
pub struct Indent(usize);

// --- the mathematical model of the syntax tree ---

/// Model of `Object`: lists are sequences, text is a byte sequence.
pub enum SpecObject {
    Constant(rust_decimal::Decimal),
    Str(Seq<u8>),
    Variable(Seq<u8>),
    Tuple(Seq<SpecExpr>),
    Array(Seq<SpecExpr>),
    DictItem(Box<SpecExpr>, Box<SpecExpr>),
    Dict(Seq<SpecExpr>),
}

/// Model of `Expression`.
pub enum SpecExpr {
    Object(SpecObject),
    Unary { op: UnaryOp, hs: Box<SpecExpr> },
    Binary { op: BinaryOp, lhs: Box<SpecExpr>, rhs: Box<SpecExpr> },
    Priority(Box<SpecExpr>),
    Query { with_compoents: Seq<Seq<u8>>, without_compoents: Seq<Seq<u8>> },
}

/// Model of `Branch`.
pub struct SpecBranch {
    pub condition: SpecExpr,
    pub commands: Seq<SpecCommand>,
}

/// Model of `Command`.
pub enum SpecCommand {
    Expression(SpecExpr),
    If { if_branch: Seq<SpecBranch>, else_branch: Option<Seq<SpecCommand>> },
    While { condition: Box<SpecExpr>, command: Seq<SpecCommand> },
    Function { name: Seq<u8>, args: Seq<Seq<u8>>, commands: Seq<SpecCommand> },
    NewLine,
}

pub open spec fn names_view(v: Seq<Vec<u8>>) -> Seq<Seq<u8>> {
    v.map_values(|x: Vec<u8>| x@)
}

pub open spec fn exprs_view(v: Seq<Expression>) -> Seq<SpecExpr>
    decreases v,
{
    if v.len() == 0 {
        Seq::empty()
    } else {
        seq![v[0]@] + exprs_view(v.drop_first())
    }
}

pub open spec fn cmds_view(v: Seq<Command>) -> Seq<SpecCommand>
    decreases v,
{
    if v.len() == 0 {
        Seq::empty()
    } else {
        seq![v[0]@] + cmds_view(v.drop_first())
    }
}

pub open spec fn branches_view(v: Seq<Branch>) -> Seq<SpecBranch>
    decreases v,
{
    if v.len() == 0 {
        Seq::empty()
    } else {
        seq![v[0]@] + branches_view(v.drop_first())
    }
}

impl View for Object {
    type V = SpecObject;

    open spec fn view(&self) -> SpecObject
        decreases self,
    {
        match self {
            Object::Constant(d) => SpecObject::Constant(*d),
            Object::Str(s) => SpecObject::Str(s@),
            Object::Variable(s) => SpecObject::Variable(s@),
            Object::Tuple(v) => SpecObject::Tuple(exprs_view(v@)),
            Object::Array(v) => SpecObject::Array(exprs_view(v@)),
            Object::DictItem(k, v) => SpecObject::DictItem(
                Box::new((**k)@),
                Box::new((**v)@),
            ),
            Object::Dict(v) => SpecObject::Dict(exprs_view(v@)),
        }
    }
}

impl View for Expression {
    type V = SpecExpr;

    open spec fn view(&self) -> SpecExpr
        decreases self,
    {
        match self {
            Expression::Object(o) => SpecExpr::Object(o@),
            Expression::Unary { op, hs } => SpecExpr::Unary {
                op: *op,
                hs: Box::new((**hs)@),
            },
            Expression::Binary { op, lhs, rhs } => SpecExpr::Binary {
                op: *op,
                lhs: Box::new((**lhs)@),
                rhs: Box::new((**rhs)@),
            },
            Expression::Priority(e) => SpecExpr::Priority(Box::new((**e)@)),
            Expression::Query { with_compoents, without_compoents } => SpecExpr::Query {
                with_compoents: names_view(with_compoents@),
                without_compoents: names_view(without_compoents@),
            },
        }
    }
}

impl View for Branch {
    type V = SpecBranch;

    open spec fn view(&self) -> SpecBranch
        decreases self,
    {
        SpecBranch { condition: self.condition@, commands: cmds_view(self.commands@) }
    }
}

impl View for Command {
    type V = SpecCommand;

    open spec fn view(&self) -> SpecCommand
        decreases self,
    {
        match self {
            Command::Expression(e) => SpecCommand::Expression(e@),
            Command::If { if_branch, else_branch } => SpecCommand::If {
                if_branch: branches_view(if_branch@),
                else_branch: (match else_branch {
                    Some(cs) => Some(cmds_view(cs@)),
                    None => None,
                }),
            },
            Command::While { condition, command } => SpecCommand::While {
                condition: Box::new((**condition)@),
                command: cmds_view(command@),
            },
            Command::Function { name, args, commands } => SpecCommand::Function {
                name: name@,
                args: names_view(args@),
                commands: cmds_view(commands@),
            },
            Command::NewLine => SpecCommand::NewLine,
        }
    }
}

/// The token sequence under a spanned token list.
pub open spec fn toks_view(ts: Seq<(Token, Span)>) -> Seq<SpecToken> {
    ts.map_values(|p: (Token, Span)| p.0@)
}

/// The token sequence under a spanned model-token list.
pub open spec fn tok_seq(v: Seq<(SpecToken, Span)>) -> Seq<SpecToken> {
    v.map_values(|p: (SpecToken, Span)| p.0)
}

// --- the grammar, as spec functions over the token sequence ---
//
// Each function returns what it parsed and the position one past the last
// token it consumed, or `None` where no alternative of that stratum matches.
// Choice is ordered and backtracks; the position guards after inner calls
// only make termination evident and never bite, since a successful parse
// always advances.

/// The unary operator a token selects.
pub open spec fn unary_op_of(t: SpecToken) -> Option<UnaryOp> {
    match t {
        SpecToken::Add => Some(UnaryOp::Plus),
        SpecToken::Sub => Some(UnaryOp::Minus),
        SpecToken::Not => Some(UnaryOp::Not),
        _ => None,
    }
}

/// The binary operator a token selects.
pub open spec fn binary_op_of(t: SpecToken) -> Option<BinaryOp> {
    match t {
        SpecToken::Add => Some(BinaryOp::Add),
        SpecToken::Sub => Some(BinaryOp::Sub),
        SpecToken::Mul => Some(BinaryOp::Mul),
        SpecToken::Div => Some(BinaryOp::Div),
        SpecToken::Equal => Some(BinaryOp::Equal),
        SpecToken::NotEqual => Some(BinaryOp::NotEqual),
        SpecToken::Greater => Some(BinaryOp::Greater),
        SpecToken::Less => Some(BinaryOp::Less),
        SpecToken::GreaterEqual => Some(BinaryOp::GreaterEqual),
        SpecToken::LessEqual => Some(BinaryOp::LessEqual),
        SpecToken::And => Some(BinaryOp::And),
        SpecToken::Or => Some(BinaryOp::Or),
        SpecToken::Pow => Some(BinaryOp::Pow),
        SpecToken::Mod => Some(BinaryOp::Mod),
        SpecToken::Not => Some(BinaryOp::Not),
        SpecToken::Dot => Some(BinaryOp::Dot),
        SpecToken::Assign => Some(BinaryOp::Assign),
        SpecToken::AddAssign => Some(BinaryOp::AddAssign),
        SpecToken::SubAssign => Some(BinaryOp::SubAssign),
        SpecToken::MulAssign => Some(BinaryOp::MulAssign),
        SpecToken::DivAssign => Some(BinaryOp::DivAssign),
        SpecToken::ModAssign => Some(BinaryOp::ModAssign),
        SpecToken::PowAssign => Some(BinaryOp::PowAssign),
        _ => None,
    }
}

/// The leaf expression a token yields: a constant, a string, or a variable.
pub open spec fn base_object_of(t: SpecToken) -> Option<SpecExpr> {
    match t {
        SpecToken::Number(d) => Some(SpecExpr::Object(SpecObject::Constant(d))),
        SpecToken::Str(s) => Some(SpecExpr::Object(SpecObject::Str(s))),
        SpecToken::Ident(s) => Some(SpecExpr::Object(SpecObject::Variable(s))),
        _ => None,
    }
}

/// The component pairs of a query bracket after the first component: each
/// connector routes its identifier, `or`-family into the with list,
/// `and`-family into the without list; the bracket ends at `>`. Any other
/// token in connector position fails the whole query form, and the failure
/// carries the position of the token that did not fit.
pub open spec fn spec_parse_query_tail(s: Seq<SpecToken>, pos: int) -> Result<
    (Seq<Seq<u8>>, Seq<Seq<u8>>, int),
    int,
>
    decreases s.len() - pos, 1int,
    when 0 <= pos <= s.len()
{
    if pos < s.len() && s[pos] is Greater {
        Ok((Seq::empty(), Seq::empty(), pos + 1))
    } else if pos < s.len() && (s[pos] is And || s[pos] is Or) {
        if pos + 1 < s.len() && s[pos + 1] is Ident {
            match spec_parse_query_tail(s, pos + 2) {
                Ok((w, wo, p)) => if s[pos] is Or {
                    Ok((seq![s[pos + 1]->Ident_0] + w, wo, p))
                } else {
                    Ok((w, seq![s[pos + 1]->Ident_0] + wo, p))
                },
                Err(q) => Err(q),
            }
        } else {
            Err(pos + 1)
        }
    } else {
        Err(pos)
    }
}

/// A query form: bare `Query` or `Query<>` yield empty component lists; a
/// nonempty bracket starts with a with-component.
pub open spec fn spec_parse_query(s: Seq<SpecToken>, pos: int) -> Result<(SpecExpr, int), int>
    decreases s.len() - pos, 2int,
    when 0 <= pos <= s.len()
{
    if pos < s.len() && s[pos] is Query {
        if pos + 1 < s.len() && s[pos + 1] is Less {
            if pos + 2 < s.len() && s[pos + 2] is Greater {
                Ok(
                    (
                        SpecExpr::Query {
                            with_compoents: Seq::empty(),
                            without_compoents: Seq::empty(),
                        },
                        pos + 3,
                    ),
                )
            } else if pos + 2 < s.len() && s[pos + 2] is Ident {
                match spec_parse_query_tail(s, pos + 3) {
                    Ok((w, wo, p)) => Ok(
                        (
                            SpecExpr::Query {
                                with_compoents: seq![s[pos + 2]->Ident_0] + w,
                                without_compoents: wo,
                            },
                            p,
                        ),
                    ),
                    Err(q) => Err(q),
                }
            } else {
                Err(pos + 2)
            }
        } else {
            Ok(
                (
                    SpecExpr::Query {
                        with_compoents: Seq::empty(),
                        without_compoents: Seq::empty(),
                    },
                    pos + 1,
                ),
            )
        }
    } else {
        Err(pos)
    }
}

/// A value: a key-value pair, a bare leaf, an array, a dict, a tuple, or a
/// query form, tried in that order. A leaf followed by a colon whose value
/// part fails falls back to the bare leaf.
pub open spec fn spec_parse_value(s: Seq<SpecToken>, pos: int) -> Result<(SpecExpr, int), int>
    decreases s.len() - pos, 4int,
    when 0 <= pos <= s.len()
{
    if pos >= s.len() {
        Err(pos)
    } else if base_object_of(s[pos]) is Some {
        let k = base_object_of(s[pos])->0;
        if pos + 1 < s.len() && s[pos + 1] is Colon {
            match spec_parse_expression(s, pos + 2) {
                Ok((v, p)) => Ok(
                    (SpecExpr::Object(SpecObject::DictItem(Box::new(k), Box::new(v))), p),
                ),
                Err(_) => Ok((k, pos + 1)),
            }
        } else {
            Ok((k, pos + 1))
        }
    } else if s[pos] is LeftBracket {
        let (items, p) = spec_parse_expr_list(s, pos + 1);
        if pos + 1 <= p && p < s.len() && s[p] is RightBracket {
            Ok((SpecExpr::Object(SpecObject::Array(items)), p + 1))
        } else {
            Err(p)
        }
    } else if s[pos] is LeftBrace {
        let (items, p) = spec_parse_expr_list(s, pos + 1);
        if pos + 1 <= p && p < s.len() && s[p] is RightBrace {
            Ok((SpecExpr::Object(SpecObject::Dict(items)), p + 1))
        } else {
            Err(p)
        }
    } else if s[pos] is LeftParen {
        let (items, p) = spec_parse_expr_list(s, pos + 1);
        if pos + 1 <= p && p < s.len() && s[p] is RightParen {
            Ok((SpecExpr::Object(SpecObject::Tuple(items)), p + 1))
        } else {
            Err(p)
        }
    } else if s[pos] is Query {
        spec_parse_query(s, pos)
    } else {
        Err(pos)
    }
}

/// A base expression: a value with its postfix question, a bare value, or a
/// prefix unary operator and a value, tried in that order.
pub open spec fn spec_parse_base_value(s: Seq<SpecToken>, pos: int) -> Result<
    (SpecExpr, int),
    int,
>
    decreases s.len() - pos, 5int,
    when 0 <= pos <= s.len()
{
    match spec_parse_value(s, pos) {
        Ok((v, p)) => if 0 <= p && p < s.len() && s[p] is Question {
            Ok((SpecExpr::Unary { op: UnaryOp::Question, hs: Box::new(v) }, p + 1))
        } else {
            Ok((v, p))
        },
        Err(q1) => if pos < s.len() && unary_op_of(s[pos]) is Some {
            match spec_parse_value(s, pos + 1) {
                Ok((v, p)) => Ok(
                    (SpecExpr::Unary { op: unary_op_of(s[pos])->0, hs: Box::new(v) }, p),
                ),
                Err(q2) => Err(
                    if q1 >= q2 {
                        q1
                    } else {
                        q2
                    },
                ),
            }
        } else {
            Err(q1)
        },
    }
}

/// An expression: a base expression, optionally followed by exactly one of a
/// binary operator with a full expression as right operand (hence right
/// associativity), or an applied tuple (call), array (index), or dict (key).
pub open spec fn spec_parse_expression(s: Seq<SpecToken>, pos: int) -> Result<
    (SpecExpr, int),
    int,
>
    decreases s.len() - pos, 6int,
    when 0 <= pos <= s.len()
{
    match spec_parse_base_value(s, pos) {
        Err(q) => Err(q),
        Ok((hs, p)) => if pos < p <= s.len() {
            if p < s.len() && binary_op_of(s[p]) is Some {
                match spec_parse_expression(s, p + 1) {
                    Ok((rhs, p2)) => Ok(
                        (
                            SpecExpr::Binary {
                                op: binary_op_of(s[p])->0,
                                lhs: Box::new(hs),
                                rhs: Box::new(rhs),
                            },
                            p2,
                        ),
                    ),
                    Err(_) => Ok((hs, p)),
                }
            } else if p < s.len() && s[p] is LeftParen {
                let (items, q) = spec_parse_expr_list(s, p + 1);
                if p + 1 <= q && q < s.len() && s[q] is RightParen {
                    Ok(
                        (
                            SpecExpr::Binary {
                                op: BinaryOp::Call,
                                lhs: Box::new(hs),
                                rhs: Box::new(SpecExpr::Object(SpecObject::Tuple(items))),
                            },
                            q + 1,
                        ),
                    )
                } else {
                    Ok((hs, p))
                }
            } else if p < s.len() && s[p] is LeftBracket {
                let (items, q) = spec_parse_expr_list(s, p + 1);
                if p + 1 <= q && q < s.len() && s[q] is RightBracket {
                    Ok(
                        (
                            SpecExpr::Binary {
                                op: BinaryOp::Index,
                                lhs: Box::new(hs),
                                rhs: Box::new(SpecExpr::Object(SpecObject::Array(items))),
                            },
                            q + 1,
                        ),
                    )
                } else {
                    Ok((hs, p))
                }
            } else if p < s.len() && s[p] is LeftBrace {
                let (items, q) = spec_parse_expr_list(s, p + 1);
                if p + 1 <= q && q < s.len() && s[q] is RightBrace {
                    Ok(
                        (
                            SpecExpr::Binary {
                                op: BinaryOp::Key,
                                lhs: Box::new(hs),
                                rhs: Box::new(SpecExpr::Object(SpecObject::Dict(items))),
                            },
                            q + 1,
                        ),
                    )
                } else {
                    Ok((hs, p))
                }
            } else {
                Ok((hs, p))
            }
        } else {
            Err(pos)
        },
    }
}

/// A comma-separated expression list, possibly empty, with one trailing
/// separator allowed; used for the interior of array, dict and tuple
/// literals. Always succeeds, consuming as much as matches.
pub open spec fn spec_parse_expr_list(s: Seq<SpecToken>, pos: int) -> (Seq<SpecExpr>, int)
    decreases s.len() - pos, 7int,
    when 0 <= pos <= s.len()
{
    match spec_parse_expression(s, pos) {
        Err(_) => (Seq::empty(), pos),
        Ok((e, p)) => if pos < p <= s.len() {
            let (rest, p2) = spec_parse_expr_list_tail(s, p);
            (seq![e] + rest, p2)
        } else {
            (seq![e], p)
        },
    }
}

/// The continuation of an expression list: further `, expression` pairs, and
/// possibly one final comma with nothing after it.
pub open spec fn spec_parse_expr_list_tail(s: Seq<SpecToken>, pos: int) -> (Seq<SpecExpr>, int)
    decreases s.len() - pos, 8int,
    when 0 <= pos <= s.len()
{
    if pos < s.len() && s[pos] is Comma {
        match spec_parse_expression(s, pos + 1) {
            Err(_) => (Seq::empty(), pos + 1),
            Ok((e, p)) => if pos + 1 < p <= s.len() {
                let (rest, p2) = spec_parse_expr_list_tail(s, p);
                (seq![e] + rest, p2)
            } else {
                (seq![e], p)
            },
        }
    } else {
        (Seq::empty(), pos)
    }
}

/// An expression statement: an expression, then one optional line token.
pub open spec fn spec_parse_expr_stmt(s: Seq<SpecToken>, pos: int) -> Result<
    (SpecExpr, int),
    int,
>
    decreases s.len() - pos, 9int,
    when 0 <= pos <= s.len()
{
    match spec_parse_expression(s, pos) {
        Err(q) => Err(q),
        Ok((e, p)) => if 0 <= p && p < s.len() && s[p] is Line {
            Ok((e, p + 1))
        } else {
            Ok((e, p))
        },
    }
}

/// Whether exactly the tokens `pos .. pos + indent` are indentation units.
pub open spec fn tabs_match(s: Seq<SpecToken>, pos: int, indent: nat) -> bool {
    pos + indent <= s.len() && (forall|k: int| 0 <= k < indent ==> (#[trigger] s[pos + k]) is Tab)
}

/// The `elif` clauses after an `if` branch: zero or more, each a condition
/// and a body one unit deeper. A malformed clause is left unconsumed.
pub open spec fn spec_parse_elifs(s: Seq<SpecToken>, pos: int, indent: nat) -> (
    Seq<SpecBranch>,
    int,
)
    decreases s.len() - pos, 10int,
    when 0 <= pos <= s.len()
{
    if pos < s.len() && s[pos] is Elif {
        match spec_parse_expr_stmt(s, pos + 1) {
            Err(_) => (Seq::empty(), pos),
            Ok((cond, p)) => if pos + 1 < p && p + 2 <= s.len() && s[p] is Colon && s[p + 1]
                is Line {
                let (cmds, p2) = spec_parse_block(s, p + 2, (indent + 1) as nat);
                if p + 2 <= p2 <= s.len() {
                    let (rest, p3) = spec_parse_elifs(s, p2, indent);
                    (seq![SpecBranch { condition: cond, commands: cmds }] + rest, p3)
                } else {
                    (Seq::empty(), pos)
                }
            } else {
                (Seq::empty(), pos)
            },
        }
    } else {
        (Seq::empty(), pos)
    }
}

/// An optional `else` clause: `else : line` and a body one unit deeper.
pub open spec fn spec_parse_else(s: Seq<SpecToken>, pos: int, indent: nat) -> Option<
    (Seq<SpecCommand>, int),
>
    decreases s.len() - pos, 10int,
    when 0 <= pos <= s.len()
{
    if pos + 3 <= s.len() && s[pos] is Else && s[pos + 1] is Colon && s[pos + 2] is Line {
        let (cmds, p2) = spec_parse_block(s, pos + 3, (indent + 1) as nat);
        if pos + 3 <= p2 <= s.len() {
            Some((cmds, p2))
        } else {
            None
        }
    } else {
        None
    }
}

/// An `if` statement: `if condition : line`, a body one unit deeper, then
/// any `elif` clauses and an optional `else` clause.
pub open spec fn spec_parse_if(s: Seq<SpecToken>, pos: int, indent: nat) -> Result<
    (SpecCommand, int),
    int,
>
    decreases s.len() - pos, 11int,
    when 0 <= pos <= s.len()
{
    if pos < s.len() && s[pos] is If {
        match spec_parse_expr_stmt(s, pos + 1) {
            Err(q) => Err(q),
            Ok((cond, p)) => if pos + 1 < p && p <= s.len() {
                if p < s.len() && s[p] is Colon {
                    if p + 1 < s.len() && s[p + 1] is Line {
                        let (cmds, p2) = spec_parse_block(s, p + 2, (indent + 1) as nat);
                        if p + 2 <= p2 <= s.len() {
                            let first = SpecBranch { condition: cond, commands: cmds };
                            let (elifs, p3) = spec_parse_elifs(s, p2, indent);
                            if p2 <= p3 <= s.len() {
                                match spec_parse_else(s, p3, indent) {
                                    Some((els, p4)) => Ok(
                                        (
                                            SpecCommand::If {
                                                if_branch: seq![first] + elifs,
                                                else_branch: Some(els),
                                            },
                                            p4,
                                        ),
                                    ),
                                    None => Ok(
                                        (
                                            SpecCommand::If {
                                                if_branch: seq![first] + elifs,
                                                else_branch: None,
                                            },
                                            p3,
                                        ),
                                    ),
                                }
                            } else {
                                Err(pos)
                            }
                        } else {
                            Err(pos)
                        }
                    } else {
                        Err(p + 1)
                    }
                } else {
                    Err(p)
                }
            } else {
                Err(pos)
            },
        }
    } else {
        Err(pos)
    }
}

/// One statement at the given indentation depth: exactly `indent` indentation
/// units, then a blank line, an expression statement, or an `if` statement,
/// tried in that order.
pub open spec fn spec_parse_statement(s: Seq<SpecToken>, pos: int, indent: nat) -> Result<
    (SpecCommand, int),
    int,
>
    decreases s.len() - pos, 12int,
    when 0 <= pos <= s.len()
{
    if !tabs_match(s, pos, indent) {
        Err(pos)
    } else {
        let q = pos + indent;
        if q < s.len() && s[q] is Line {
            Ok((SpecCommand::NewLine, q + 1))
        } else {
            match spec_parse_expr_stmt(s, q) {
                Ok((e, p)) => Ok((SpecCommand::Expression(e), p)),
                Err(q1) => match spec_parse_if(s, q, indent) {
                    Ok((c, p)) => Ok((c, p)),
                    Err(q2) => Err(
                        if q1 >= q2 {
                            q1
                        } else {
                            q2
                        },
                    ),
                },
            }
        }
    }
}

/// A block: statements at the given depth until a line no longer matches it.
/// A line with fewer units than required ends the block at once, so an empty
/// body is valid.
pub open spec fn spec_parse_block(s: Seq<SpecToken>, pos: int, indent: nat) -> (
    Seq<SpecCommand>,
    int,
)
    decreases s.len() - pos, 13int,
    when 0 <= pos <= s.len()
{
    match spec_parse_statement(s, pos, indent) {
        Err(_) => (Seq::empty(), pos),
        Ok((c, p)) => if pos < p <= s.len() {
            let (rest, p2) = spec_parse_block(s, p, indent);
            (seq![c] + rest, p2)
        } else {
            (seq![c], p)
        },
    }
}

/// The position one past the next line token at or after `pos`, where the
/// driver resumes after recording a parse error.
pub open spec fn skip_after_line(s: Seq<SpecToken>, pos: int) -> int
    decreases s.len() - pos,
    when 0 <= pos <= s.len()
{
    if pos >= s.len() {
        pos
    } else if s[pos] is Line {
        pos + 1
    } else {
        skip_after_line(s, pos + 1)
    }
}

/// The span of the token at which a parse failure was found: the token's own
/// span, or an empty span at the end of the source where the failure is that
/// the tokens ran out.
pub open spec fn error_span_at(v: Seq<(SpecToken, Span)>, q: int) -> ParseError {
    if 0 <= q < v.len() {
        ParseError { start: v[q].1.start, end: v[q].1.end }
    } else if v.len() > 0 {
        ParseError { start: v[v.len() - 1].1.end, end: v[v.len() - 1].1.end }
    } else {
        ParseError { start: 0, end: 0 }
    }
}

/// The driver: top-level statements at depth zero over the whole token
/// stream. Where a statement fails, one error with the span of the token at
/// which its alternatives stopped matching is recorded and parsing resumes
/// after the next line token, so one pass reports every structural error.
pub open spec fn spec_drive(v: Seq<(SpecToken, Span)>, pos: int) -> (
    Seq<SpecCommand>,
    Seq<ParseError>,
)
    decreases v.len() - pos,
    when 0 <= pos <= v.len()
{
    if pos >= v.len() {
        (Seq::empty(), Seq::empty())
    } else {
        match spec_parse_statement(tok_seq(v), pos, 0) {
            Ok((c, p)) => if pos < p <= v.len() {
                let (cs, es) = spec_drive(v, p);
                (seq![c] + cs, es)
            } else {
                (seq![c], Seq::empty())
            },
            Err(q) => {
                let err = error_span_at(v, q);
                let sk = skip_after_line(tok_seq(v), pos + 1);
                if pos < sk <= v.len() {
                    let (cs, es) = spec_drive(v, sk);
                    (cs, seq![err] + es)
                } else {
                    (Seq::empty(), seq![err])
                }
            },
        }
    }
}

/// The whole parse: the command list where no statement failed, else every
/// recorded error. A failed parse yields no partial syntax tree.
pub open spec fn spec_build_ast(v: Seq<(SpecToken, Span)>) -> Result<
    Seq<SpecCommand>,
    Seq<ParseError>,
> {
    let (cs, es) = spec_drive(v, 0);
    if es.len() == 0 {
        Ok(cs)
    } else {
        Err(es)
    }
}

// --- the executable parser, verified against the spec grammar ---


/// The token kind facts shared by the executable checks and the model:
/// a token and its model always agree on their variant.
proof fn lemma_token_view_kinds(t: Token)
    ensures
        (t@ is LeftParen) == (t is LeftParen),
        (t@ is RightParen) == (t is RightParen),
        (t@ is LeftBrace) == (t is LeftBrace),
        (t@ is RightBrace) == (t is RightBrace),
        (t@ is LeftBracket) == (t is LeftBracket),
        (t@ is RightBracket) == (t is RightBracket),
        (t@ is Add) == (t is Add),
        (t@ is PlusOne) == (t is PlusOne),
        (t@ is Sub) == (t is Sub),
        (t@ is MinusOne) == (t is MinusOne),
        (t@ is Mul) == (t is Mul),
        (t@ is Div) == (t is Div),
        (t@ is Mod) == (t is Mod),
        (t@ is Pow) == (t is Pow),
        (t@ is Assign) == (t is Assign),
        (t@ is AddAssign) == (t is AddAssign),
        (t@ is SubAssign) == (t is SubAssign),
        (t@ is MulAssign) == (t is MulAssign),
        (t@ is DivAssign) == (t is DivAssign),
        (t@ is ModAssign) == (t is ModAssign),
        (t@ is PowAssign) == (t is PowAssign),
        (t@ is Equal) == (t is Equal),
        (t@ is NotEqual) == (t is NotEqual),
        (t@ is Greater) == (t is Greater),
        (t@ is Less) == (t is Less),
        (t@ is GreaterEqual) == (t is GreaterEqual),
        (t@ is LessEqual) == (t is LessEqual),
        (t@ is And) == (t is And),
        (t@ is Or) == (t is Or),
        (t@ is Not) == (t is Not),
        (t@ is Question) == (t is Question),
        (t@ is Colon) == (t is Colon),
        (t@ is If) == (t is If),
        (t@ is Elif) == (t is Elif),
        (t@ is Else) == (t is Else),
        (t@ is While) == (t is While),
        (t@ is For) == (t is For),
        (t@ is Pub) == (t is Pub),
        (t@ is Fn) == (t is Fn),
        (t@ is Query) == (t is Query),
        (t@ is Comma) == (t is Comma),
        (t@ is Dot) == (t is Dot),
        (t@ is Line) == (t is Line),
        (t@ is Str) == (t is Str),
        (t@ is Number) == (t is Number),
        (t@ is Ident) == (t is Ident),
        (t@ is Comment) == (t is Comment),
        (t@ is Whitespace) == (t is Whitespace),
        (t@ is Tab) == (t is Tab),
{
}

/// The two projections of a spanned token list agree.
proof fn lemma_tok_seq_spanned(ts: Seq<(Token, Span)>)
    ensures
        tok_seq(spanned_view(ts)) == toks_view(ts),
{
    assert(tok_seq(spanned_view(ts)) =~= toks_view(ts));
}

fn tok_is_line(t: &Token) -> (r: bool)
    ensures
        r == (t@ is Line),
{
    proof { lemma_token_view_kinds(*t); }
    matches!(t, Token::Line)
}

fn tok_is_tab(t: &Token) -> (r: bool)
    ensures
        r == (t@ is Tab),
{
    proof { lemma_token_view_kinds(*t); }
    matches!(t, Token::Tab)
}

fn tok_is_colon(t: &Token) -> (r: bool)
    ensures
        r == (t@ is Colon),
{
    proof { lemma_token_view_kinds(*t); }
    matches!(t, Token::Colon)
}

fn tok_is_comma(t: &Token) -> (r: bool)
    ensures
        r == (t@ is Comma),
{
    proof { lemma_token_view_kinds(*t); }
    matches!(t, Token::Comma)
}

fn tok_is_question(t: &Token) -> (r: bool)
    ensures
        r == (t@ is Question),
{
    proof { lemma_token_view_kinds(*t); }
    matches!(t, Token::Question)
}

fn tok_is_greater(t: &Token) -> (r: bool)
    ensures
        r == (t@ is Greater),
{
    proof { lemma_token_view_kinds(*t); }
    matches!(t, Token::Greater)
}

fn tok_is_less(t: &Token) -> (r: bool)
    ensures
        r == (t@ is Less),
{
    proof { lemma_token_view_kinds(*t); }
    matches!(t, Token::Less)
}

fn tok_is_and(t: &Token) -> (r: bool)
    ensures
        r == (t@ is And),
{
    proof { lemma_token_view_kinds(*t); }
    matches!(t, Token::And)
}

fn tok_is_or(t: &Token) -> (r: bool)
    ensures
        r == (t@ is Or),
{
    proof { lemma_token_view_kinds(*t); }
    matches!(t, Token::Or)
}

fn tok_is_ident(t: &Token) -> (r: bool)
    ensures
        r == (t@ is Ident),
{
    proof { lemma_token_view_kinds(*t); }
    matches!(t, Token::Ident(_))
}

fn tok_is_lparen(t: &Token) -> (r: bool)
    ensures
        r == (t@ is LeftParen),
{
    proof { lemma_token_view_kinds(*t); }
    matches!(t, Token::LeftParen)
}

fn tok_is_rparen(t: &Token) -> (r: bool)
    ensures
        r == (t@ is RightParen),
{
    proof { lemma_token_view_kinds(*t); }
    matches!(t, Token::RightParen)
}

fn tok_is_lbracket(t: &Token) -> (r: bool)
    ensures
        r == (t@ is LeftBracket),
{
    proof { lemma_token_view_kinds(*t); }
    matches!(t, Token::LeftBracket)
}

fn tok_is_rbracket(t: &Token) -> (r: bool)
    ensures
        r == (t@ is RightBracket),
{
    proof { lemma_token_view_kinds(*t); }
    matches!(t, Token::RightBracket)
}

fn tok_is_lbrace(t: &Token) -> (r: bool)
    ensures
        r == (t@ is LeftBrace),
{
    proof { lemma_token_view_kinds(*t); }
    matches!(t, Token::LeftBrace)
}

fn tok_is_rbrace(t: &Token) -> (r: bool)
    ensures
        r == (t@ is RightBrace),
{
    proof { lemma_token_view_kinds(*t); }
    matches!(t, Token::RightBrace)
}

fn tok_is_if(t: &Token) -> (r: bool)
    ensures
        r == (t@ is If),
{
    proof { lemma_token_view_kinds(*t); }
    matches!(t, Token::If)
}

fn tok_is_elif(t: &Token) -> (r: bool)
    ensures
        r == (t@ is Elif),
{
    proof { lemma_token_view_kinds(*t); }
    matches!(t, Token::Elif)
}

fn tok_is_else(t: &Token) -> (r: bool)
    ensures
        r == (t@ is Else),
{
    proof { lemma_token_view_kinds(*t); }
    matches!(t, Token::Else)
}

fn tok_is_query(t: &Token) -> (r: bool)
    ensures
        r == (t@ is Query),
{
    proof { lemma_token_view_kinds(*t); }
    matches!(t, Token::Query)
}

fn copy_bytes(v: &Vec<u8>) -> (r: Vec<u8>)
    ensures
        r@ == v@,
{
    let mut out: Vec<u8> = Vec::new();
    let mut i: usize = 0;
    while i < v.len()
        invariant
            i <= v@.len(),
            out@ == v@.subrange(0, i as int),
        decreases v@.len() - i,
    {
        out.push(v[i]);
        i = i + 1;
        proof {
            assert(out@ =~= v@.subrange(0, i as int));
        }
    }
    proof {
        assert(v@.subrange(0, v@.len() as int) =~= v@);
    }
    out
}

fn unary_op_exec(t: &Token) -> (r: Option<UnaryOp>)
    ensures
        r == unary_op_of(t@),
{
    proof { lemma_token_view_kinds(*t); }
    match t {
        Token::Add => Some(UnaryOp::Plus),
        Token::Sub => Some(UnaryOp::Minus),
        Token::Not => Some(UnaryOp::Not),
        _ => None,
    }
}

fn binary_op_exec(t: &Token) -> (r: Option<BinaryOp>)
    ensures
        r == binary_op_of(t@),
{
    proof { lemma_token_view_kinds(*t); }
    match t {
        Token::Add => Some(BinaryOp::Add),
        Token::Sub => Some(BinaryOp::Sub),
        Token::Mul => Some(BinaryOp::Mul),
        Token::Div => Some(BinaryOp::Div),
        Token::Equal => Some(BinaryOp::Equal),
        Token::NotEqual => Some(BinaryOp::NotEqual),
        Token::Greater => Some(BinaryOp::Greater),
        Token::Less => Some(BinaryOp::Less),
        Token::GreaterEqual => Some(BinaryOp::GreaterEqual),
        Token::LessEqual => Some(BinaryOp::LessEqual),
        Token::And => Some(BinaryOp::And),
        Token::Or => Some(BinaryOp::Or),
        Token::Pow => Some(BinaryOp::Pow),
        Token::Mod => Some(BinaryOp::Mod),
        Token::Not => Some(BinaryOp::Not),
        Token::Dot => Some(BinaryOp::Dot),
        Token::Assign => Some(BinaryOp::Assign),
        Token::AddAssign => Some(BinaryOp::AddAssign),
        Token::SubAssign => Some(BinaryOp::SubAssign),
        Token::MulAssign => Some(BinaryOp::MulAssign),
        Token::DivAssign => Some(BinaryOp::DivAssign),
        Token::ModAssign => Some(BinaryOp::ModAssign),
        Token::PowAssign => Some(BinaryOp::PowAssign),
        _ => None,
    }
}

fn base_object_exec(t: &Token) -> (r: Option<Expression>)
    ensures
        (match r {
            Some(e) => base_object_of(t@) == Some(e@),
            None => base_object_of(t@) is None,
        }),
{
    proof { lemma_token_view_kinds(*t); }
    match t {
        Token::Number(d) => {
            let ghost og = Object::Constant(*d);
            let e = Expression::Object(Object::Constant(*d));
            proof {
                assert(og@ == SpecObject::Constant(*d));
                assert(e@ == SpecExpr::Object(og@));
            }
            Some(e)
        },
        Token::Str(s) => {
            let text = copy_bytes(s);
            let ghost og = Object::Str(text);
            let e = Expression::Object(Object::Str(text));
            proof {
                assert(og@ == SpecObject::Str(s@));
                assert(e@ == SpecExpr::Object(og@));
            }
            Some(e)
        },
        Token::Ident(s) => {
            let text = copy_bytes(s);
            let ghost og = Object::Variable(text);
            let e = Expression::Object(Object::Variable(text));
            proof {
                assert(og@ == SpecObject::Variable(s@));
                assert(e@ == SpecExpr::Object(og@));
            }
            Some(e)
        },
        _ => None,
    }
}

fn parse_query_tail(toks: &[(Token, Span)], pos: usize) -> (r: Result<
    (Vec<Vec<u8>>, Vec<Vec<u8>>, usize),
    usize,
>)
    requires
        pos <= toks@.len(),
    ensures
        (match r {
            Ok(t) => spec_parse_query_tail(toks_view(toks@), pos as int) == Ok::<
                (Seq<Seq<u8>>, Seq<Seq<u8>>, int),
                int,
            >((names_view(t.0@), names_view(t.1@), t.2 as int)) && pos < t.2 <= toks@.len(),
            Err(q) => spec_parse_query_tail(toks_view(toks@), pos as int) == Err::<
                (Seq<Seq<u8>>, Seq<Seq<u8>>, int),
                int,
            >(q as int),
        }),
    decreases toks@.len() - pos, 1int,
{
    if pos < toks.len() && tok_is_greater(&toks[pos].0) {
        let w: Vec<Vec<u8>> = Vec::new();
        let wo: Vec<Vec<u8>> = Vec::new();
        proof {
            assert(names_view(w@) =~= Seq::<Seq<u8>>::empty());
            assert(names_view(wo@) =~= Seq::<Seq<u8>>::empty());
        }
        Ok((w, wo, pos + 1))
    } else if pos < toks.len() && (tok_is_and(&toks[pos].0) || tok_is_or(&toks[pos].0)) {
        let is_or = tok_is_or(&toks[pos].0);
        if toks.len() - pos > 1 && tok_is_ident(&toks[pos + 1].0) {
            let name: Vec<u8> = match &toks[pos + 1].0 {
                Token::Ident(n) => copy_bytes(n),
                _ => Vec::new(),
            };
            match parse_query_tail(toks, pos + 2) {
                Ok((mut w, mut wo, p)) => {
                    if is_or {
                        let ghost w0 = w@;
                        w.insert(0, name);
                        proof {
                            assert(names_view(w@) =~= seq![toks_view(toks@)[pos + 1]->Ident_0]
                                + names_view(w0));
                        }
                        Ok((w, wo, p))
                    } else {
                        let ghost wo0 = wo@;
                        wo.insert(0, name);
                        proof {
                            assert(names_view(wo@) =~= seq![toks_view(toks@)[pos + 1]->Ident_0]
                                + names_view(wo0));
                        }
                        Ok((w, wo, p))
                    }
                },
                Err(q) => Err(q),
            }
        } else {
            Err(pos + 1)
        }
    } else {
        Err(pos)
    }
}

fn parse_query(toks: &[(Token, Span)], pos: usize) -> (r: Result<(Expression, usize), usize>)
    requires
        pos <= toks@.len(),
    ensures
        (match r {
            Ok(t) => spec_parse_query(toks_view(toks@), pos as int) == Ok::<
                (SpecExpr, int),
                int,
            >((t.0@, t.1 as int)) && pos < t.1 <= toks@.len(),
            Err(q) => spec_parse_query(toks_view(toks@), pos as int) == Err::<
                (SpecExpr, int),
                int,
            >(q as int),
        }),
    decreases toks@.len() - pos, 2int,
{
    if pos < toks.len() && tok_is_query(&toks[pos].0) {
        if toks.len() - pos > 1 && tok_is_less(&toks[pos + 1].0) {
            if toks.len() - pos > 2 && tok_is_greater(&toks[pos + 2].0) {
                let w: Vec<Vec<u8>> = Vec::new();
                let wo: Vec<Vec<u8>> = Vec::new();
                proof {
                    assert(names_view(w@) =~= Seq::<Seq<u8>>::empty());
                    assert(names_view(wo@) =~= Seq::<Seq<u8>>::empty());
                }
                Ok((Expression::Query { with_compoents: w, without_compoents: wo }, pos + 3))
            } else if toks.len() - pos > 2 && tok_is_ident(&toks[pos + 2].0) {
                let name: Vec<u8> = match &toks[pos + 2].0 {
                    Token::Ident(n) => copy_bytes(n),
                    _ => Vec::new(),
                };
                match parse_query_tail(toks, pos + 3) {
                    Ok((mut w, wo, p)) => {
                        let ghost w0 = w@;
                        w.insert(0, name);
                        proof {
                            assert(names_view(w@) =~= seq![toks_view(toks@)[pos + 2]->Ident_0]
                                + names_view(w0));
                        }
                        Ok((Expression::Query { with_compoents: w, without_compoents: wo }, p))
                    },
                    Err(q) => Err(q),
                }
            } else {
                Err(pos + 2)
            }
        } else {
            let w: Vec<Vec<u8>> = Vec::new();
            let wo: Vec<Vec<u8>> = Vec::new();
            proof {
                assert(names_view(w@) =~= Seq::<Seq<u8>>::empty());
                assert(names_view(wo@) =~= Seq::<Seq<u8>>::empty());
            }
            Ok((Expression::Query { with_compoents: w, without_compoents: wo }, pos + 1))
        }
    } else {
        Err(pos)
    }
}

fn parse_value(toks: &[(Token, Span)], pos: usize) -> (r: Result<(Expression, usize), usize>)
    requires
        pos <= toks@.len(),
    ensures
        (match r {
            Ok(t) => spec_parse_value(toks_view(toks@), pos as int) == Ok::<
                (SpecExpr, int),
                int,
            >((t.0@, t.1 as int)) && pos < t.1 <= toks@.len(),
            Err(q) => spec_parse_value(toks_view(toks@), pos as int) == Err::<
                (SpecExpr, int),
                int,
            >(q as int),
        }),
    decreases toks@.len() - pos, 4int,
{
    if pos >= toks.len() {
        return Err(pos);
    }
    match base_object_exec(&toks[pos].0) {
        Some(k) => {
            if toks.len() - pos > 1 && tok_is_colon(&toks[pos + 1].0) {
                match parse_expression(toks, pos + 2) {
                    Ok((v, p)) => {
                        let ghost kv = k@;
                        let ghost vv = v@;
                        let ghost og = Object::DictItem(Box::new(k), Box::new(v));
                        let e = Expression::Object(Object::DictItem(Box::new(k), Box::new(v)));
                        proof {
                            assert(og@ == SpecObject::DictItem(Box::new(kv), Box::new(vv)));
                            assert(e@ == SpecExpr::Object(og@));
                        }
                        Ok((e, p))
                    },
                    Err(_) => Ok((k, pos + 1)),
                }
            } else {
                Ok((k, pos + 1))
            }
        },
        None => {
            if tok_is_lbracket(&toks[pos].0) {
                let (items, p) = parse_expr_list(toks, pos + 1);
                if p < toks.len() && tok_is_rbracket(&toks[p].0) {
                    let ghost iv = items@;
                    let ghost og = Object::Array(items);
                    let e = Expression::Object(Object::Array(items));
                    proof {
                        assert(og@ == SpecObject::Array(exprs_view(iv)));
                        assert(e@ == SpecExpr::Object(og@));
                    }
                    Ok((e, p + 1))
                } else {
                    Err(p)
                }
            } else if tok_is_lbrace(&toks[pos].0) {
                let (items, p) = parse_expr_list(toks, pos + 1);
                if p < toks.len() && tok_is_rbrace(&toks[p].0) {
                    let ghost iv = items@;
                    let ghost og = Object::Dict(items);
                    let e = Expression::Object(Object::Dict(items));
                    proof {
                        assert(og@ == SpecObject::Dict(exprs_view(iv)));
                        assert(e@ == SpecExpr::Object(og@));
                    }
                    Ok((e, p + 1))
                } else {
                    Err(p)
                }
            } else if tok_is_lparen(&toks[pos].0) {
                let (items, p) = parse_expr_list(toks, pos + 1);
                if p < toks.len() && tok_is_rparen(&toks[p].0) {
                    let ghost iv = items@;
                    let ghost og = Object::Tuple(items);
                    let e = Expression::Object(Object::Tuple(items));
                    proof {
                        assert(og@ == SpecObject::Tuple(exprs_view(iv)));
                        assert(e@ == SpecExpr::Object(og@));
                    }
                    Ok((e, p + 1))
                } else {
                    Err(p)
                }
            } else if tok_is_query(&toks[pos].0) {
                parse_query(toks, pos)
            } else {
                Err(pos)
            }
        },
    }
}

fn parse_base_value(toks: &[(Token, Span)], pos: usize) -> (r: Result<
    (Expression, usize),
    usize,
>)
    requires
        pos <= toks@.len(),
    ensures
        (match r {
            Ok(t) => spec_parse_base_value(toks_view(toks@), pos as int) == Ok::<
                (SpecExpr, int),
                int,
            >((t.0@, t.1 as int)) && pos < t.1 <= toks@.len(),
            Err(q) => spec_parse_base_value(toks_view(toks@), pos as int) == Err::<
                (SpecExpr, int),
                int,
            >(q as int),
        }),
    decreases toks@.len() - pos, 5int,
{
    match parse_value(toks, pos) {
        Ok((v, p)) => {
            if p < toks.len() && tok_is_question(&toks[p].0) {
                Ok((Expression::Unary { op: UnaryOp::Question, hs: Box::new(v) }, p + 1))
            } else {
                Ok((v, p))
            }
        },
        Err(q1) => {
            if pos < toks.len() {
                match unary_op_exec(&toks[pos].0) {
                    Some(op) => match parse_value(toks, pos + 1) {
                        Ok((v, p)) => Ok((Expression::Unary { op, hs: Box::new(v) }, p)),
                        Err(q2) => Err(
                            if q1 >= q2 {
                                q1
                            } else {
                                q2
                            },
                        ),
                    },
                    None => Err(q1),
                }
            } else {
                Err(q1)
            }
        },
    }
}

fn parse_expression(toks: &[(Token, Span)], pos: usize) -> (r: Result<
    (Expression, usize),
    usize,
>)
    requires
        pos <= toks@.len(),
    ensures
        (match r {
            Ok(t) => spec_parse_expression(toks_view(toks@), pos as int) == Ok::<
                (SpecExpr, int),
                int,
            >((t.0@, t.1 as int)) && pos < t.1 <= toks@.len(),
            Err(q) => spec_parse_expression(toks_view(toks@), pos as int) == Err::<
                (SpecExpr, int),
                int,
            >(q as int),
        }),
    decreases toks@.len() - pos, 6int,
{
    match parse_base_value(toks, pos) {
        Err(q) => Err(q),
        Ok((hs, p)) => {
            if p >= toks.len() {
                return Ok((hs, p));
            }
            match binary_op_exec(&toks[p].0) {
                Some(op) => match parse_expression(toks, p + 1) {
                    Ok((rhs, p2)) => Ok(
                        (Expression::Binary { op, lhs: Box::new(hs), rhs: Box::new(rhs) }, p2),
                    ),
                    Err(_) => Ok((hs, p)),
                },
                None => {
                    if tok_is_lparen(&toks[p].0) {
                        let (items, q) = parse_expr_list(toks, p + 1);
                        if q < toks.len() && tok_is_rparen(&toks[q].0) {
                            let ghost iv = items@;
                            let ghost og = Object::Tuple(items);
                            let ghost ig = Expression::Object(Object::Tuple(items));
                            let ghost hv = hs@;
                            let e = Expression::Binary {
                                op: BinaryOp::Call,
                                lhs: Box::new(hs),
                                rhs: Box::new(Expression::Object(Object::Tuple(items))),
                            };
                            proof {
                                assert(og@ == SpecObject::Tuple(exprs_view(iv)));
                                assert(ig@ == SpecExpr::Object(og@));
                                assert(e@ == (SpecExpr::Binary {
                                    op: BinaryOp::Call,
                                    lhs: Box::new(hv),
                                    rhs: Box::new(ig@),
                                }));
                            }
                            Ok((e, q + 1))
                        } else {
                            Ok((hs, p))
                        }
                    } else if tok_is_lbracket(&toks[p].0) {
                        let (items, q) = parse_expr_list(toks, p + 1);
                        if q < toks.len() && tok_is_rbracket(&toks[q].0) {
                            let ghost iv = items@;
                            let ghost og = Object::Array(items);
                            let ghost ig = Expression::Object(Object::Array(items));
                            let ghost hv = hs@;
                            let e = Expression::Binary {
                                op: BinaryOp::Index,
                                lhs: Box::new(hs),
                                rhs: Box::new(Expression::Object(Object::Array(items))),
                            };
                            proof {
                                assert(og@ == SpecObject::Array(exprs_view(iv)));
                                assert(ig@ == SpecExpr::Object(og@));
                                assert(e@ == (SpecExpr::Binary {
                                    op: BinaryOp::Index,
                                    lhs: Box::new(hv),
                                    rhs: Box::new(ig@),
                                }));
                            }
                            Ok((e, q + 1))
                        } else {
                            Ok((hs, p))
                        }
                    } else if tok_is_lbrace(&toks[p].0) {
                        let (items, q) = parse_expr_list(toks, p + 1);
                        if q < toks.len() && tok_is_rbrace(&toks[q].0) {
                            let ghost iv = items@;
                            let ghost og = Object::Dict(items);
                            let ghost ig = Expression::Object(Object::Dict(items));
                            let ghost hv = hs@;
                            let e = Expression::Binary {
                                op: BinaryOp::Key,
                                lhs: Box::new(hs),
                                rhs: Box::new(Expression::Object(Object::Dict(items))),
                            };
                            proof {
                                assert(og@ == SpecObject::Dict(exprs_view(iv)));
                                assert(ig@ == SpecExpr::Object(og@));
                                assert(e@ == (SpecExpr::Binary {
                                    op: BinaryOp::Key,
                                    lhs: Box::new(hv),
                                    rhs: Box::new(ig@),
                                }));
                            }
                            Ok((e, q + 1))
                        } else {
                            Ok((hs, p))
                        }
                    } else {
                        Ok((hs, p))
                    }
                },
            }
        },
    }
}

fn parse_expr_list(toks: &[(Token, Span)], pos: usize) -> (r: (Vec<Expression>, usize))
    requires
        pos <= toks@.len(),
    ensures
        ({
            let (items, p) = spec_parse_expr_list(toks_view(toks@), pos as int);
            items == exprs_view(r.0@) && p == r.1 as int
        }),
        pos <= r.1 <= toks@.len(),
    decreases toks@.len() - pos, 7int,
{
    match parse_expression(toks, pos) {
        Err(_) => {
            let items: Vec<Expression> = Vec::new();
            proof {
                assert(exprs_view(items@) =~= Seq::<SpecExpr>::empty());
            }
            (items, pos)
        },
        Ok((e, p)) => {
            let (mut rest, p2) = parse_expr_list_tail(toks, p);
            let ghost rest0 = rest@;
            let ghost ev = e@;
            rest.insert(0, e);
            proof {
                assert(rest@.drop_first() =~= rest0);
                assert(exprs_view(rest@) == seq![ev] + exprs_view(rest0));
            }
            (rest, p2)
        },
    }
}

fn parse_expr_list_tail(toks: &[(Token, Span)], pos: usize) -> (r: (Vec<Expression>, usize))
    requires
        pos <= toks@.len(),
    ensures
        ({
            let (items, p) = spec_parse_expr_list_tail(toks_view(toks@), pos as int);
            items == exprs_view(r.0@) && p == r.1 as int
        }),
        pos <= r.1 <= toks@.len(),
    decreases toks@.len() - pos, 8int,
{
    if pos < toks.len() && tok_is_comma(&toks[pos].0) {
        match parse_expression(toks, pos + 1) {
            Err(_) => {
                let items: Vec<Expression> = Vec::new();
                proof {
                    assert(exprs_view(items@) =~= Seq::<SpecExpr>::empty());
                }
                (items, pos + 1)
            },
            Ok((e, p)) => {
                let (mut rest, p2) = parse_expr_list_tail(toks, p);
                let ghost rest0 = rest@;
                let ghost ev = e@;
                rest.insert(0, e);
                proof {
                    assert(rest@.drop_first() =~= rest0);
                    assert(exprs_view(rest@) == seq![ev] + exprs_view(rest0));
                }
                (rest, p2)
            },
        }
    } else {
        let items: Vec<Expression> = Vec::new();
        proof {
            assert(exprs_view(items@) =~= Seq::<SpecExpr>::empty());
        }
        (items, pos)
    }
}

fn parse_expr_stmt(toks: &[(Token, Span)], pos: usize) -> (r: Result<
    (Expression, usize),
    usize,
>)
    requires
        pos <= toks@.len(),
    ensures
        (match r {
            Ok(t) => spec_parse_expr_stmt(toks_view(toks@), pos as int) == Ok::<
                (SpecExpr, int),
                int,
            >((t.0@, t.1 as int)) && pos < t.1 <= toks@.len(),
            Err(q) => spec_parse_expr_stmt(toks_view(toks@), pos as int) == Err::<
                (SpecExpr, int),
                int,
            >(q as int),
        }),
    decreases toks@.len() - pos, 9int,
{
    match parse_expression(toks, pos) {
        Err(q) => Err(q),
        Ok((e, p)) => {
            if p < toks.len() && tok_is_line(&toks[p].0) {
                Ok((e, p + 1))
            } else {
                Ok((e, p))
            }
        },
    }
}

fn tabs_match_exec(toks: &[(Token, Span)], pos: usize, indent: usize) -> (r: bool)
    requires
        pos <= toks@.len(),
    ensures
        r == tabs_match(toks_view(toks@), pos as int, indent as nat),
{
    let n: usize = toks.len();
    if indent > n - pos {
        return false;
    }
    let mut k: usize = 0;
    while k < indent
        invariant
            0 <= k <= indent,
            pos + indent <= toks@.len(),
            toks@.len() <= usize::MAX as int,
            forall|j: int| 0 <= j < k ==> (#[trigger] toks_view(toks@)[pos + j]) is Tab,
        decreases indent - k,
    {
        if !tok_is_tab(&toks[pos + k].0) {
            proof {
                assert(!(toks_view(toks@)[pos + k] is Tab));
            }
            return false;
        }
        k = k + 1;
    }
    true
}

fn parse_else(toks: &[(Token, Span)], pos: usize, indent: usize) -> (r: Option<
    (Vec<Command>, usize),
>)
    requires
        pos <= toks@.len(),
        indent <= pos,
    ensures
        (match r {
            Some(t) => spec_parse_else(toks_view(toks@), pos as int, indent as nat) == Some(
                (cmds_view(t.0@), t.1 as int),
            ) && pos < t.1 <= toks@.len(),
            None => spec_parse_else(toks_view(toks@), pos as int, indent as nat) is None,
        }),
    decreases toks@.len() - pos, 10int,
{
    if toks.len() - pos >= 3 && tok_is_else(&toks[pos].0) && tok_is_colon(&toks[pos + 1].0)
        && tok_is_line(&toks[pos + 2].0) {
        let (cmds, p2) = parse_block(toks, pos + 3, indent + 1);
        Some((cmds, p2))
    } else {
        None
    }
}

fn parse_elifs(toks: &[(Token, Span)], pos: usize, indent: usize) -> (r: (Vec<Branch>, usize))
    requires
        pos <= toks@.len(),
        indent <= pos,
    ensures
        ({
            let (bs, p) = spec_parse_elifs(toks_view(toks@), pos as int, indent as nat);
            bs == branches_view(r.0@) && p == r.1 as int
        }),
        pos <= r.1 <= toks@.len(),
    decreases toks@.len() - pos, 10int,
{
    if pos < toks.len() && tok_is_elif(&toks[pos].0) {
        match parse_expr_stmt(toks, pos + 1) {
            Err(_) => {
                let bs: Vec<Branch> = Vec::new();
                proof {
                    assert(branches_view(bs@) =~= Seq::<SpecBranch>::empty());
                }
                (bs, pos)
            },
            Ok((cond, p)) => {
                if toks.len() - p >= 2 && tok_is_colon(&toks[p].0) && tok_is_line(
                    &toks[p + 1].0,
                ) {
                    let (cmds, p2) = parse_block(toks, p + 2, indent + 1);
                    let (mut rest, p3) = parse_elifs(toks, p2, indent);
                    let ghost rest0 = rest@;
                    let b = Branch { condition: cond, commands: cmds };
                    let ghost bv = b@;
                    rest.insert(0, b);
                    proof {
                        assert(rest@.drop_first() =~= rest0);
                        assert(branches_view(rest@) == seq![bv] + branches_view(rest0));
                    }
                    (rest, p3)
                } else {
                    let bs: Vec<Branch> = Vec::new();
                    proof {
                        assert(branches_view(bs@) =~= Seq::<SpecBranch>::empty());
                    }
                    (bs, pos)
                }
            },
        }
    } else {
        let bs: Vec<Branch> = Vec::new();
        proof {
            assert(branches_view(bs@) =~= Seq::<SpecBranch>::empty());
        }
        (bs, pos)
    }
}

fn parse_if(toks: &[(Token, Span)], pos: usize, indent: usize) -> (r: Result<
    (Command, usize),
    usize,
>)
    requires
        pos <= toks@.len(),
        indent <= pos,
    ensures
        (match r {
            Ok(t) => spec_parse_if(toks_view(toks@), pos as int, indent as nat) == Ok::<
                (SpecCommand, int),
                int,
            >((t.0@, t.1 as int)) && pos < t.1 <= toks@.len(),
            Err(q) => spec_parse_if(toks_view(toks@), pos as int, indent as nat) == Err::<
                (SpecCommand, int),
                int,
            >(q as int),
        }),
    decreases toks@.len() - pos, 11int,
{
    if !(pos < toks.len() && tok_is_if(&toks[pos].0)) {
        return Err(pos);
    }
    match parse_expr_stmt(toks, pos + 1) {
        Err(q) => Err(q),
        Ok((cond, p)) => {
            if p < toks.len() && tok_is_colon(&toks[p].0) {
                if p + 1 < toks.len() && tok_is_line(&toks[p + 1].0) {
                    let (cmds, p2) = parse_block(toks, p + 2, indent + 1);
                    let first = Branch { condition: cond, commands: cmds };
                    let ghost fv = first@;
                    let (mut branches, p3) = parse_elifs(toks, p2, indent);
                    let ghost b0 = branches@;
                    branches.insert(0, first);
                    proof {
                        assert(branches@.drop_first() =~= b0);
                        assert(branches_view(branches@) == seq![fv] + branches_view(b0));
                    }
                    match parse_else(toks, p3, indent) {
                        Some((els, p4)) => Ok(
                            (Command::If { if_branch: branches, else_branch: Some(els) }, p4),
                        ),
                        None => Ok(
                            (Command::If { if_branch: branches, else_branch: None }, p3),
                        ),
                    }
                } else {
                    Err(p + 1)
                }
            } else {
                Err(p)
            }
        },
    }
}

fn parse_statement(toks: &[(Token, Span)], pos: usize, indent: usize) -> (r: Result<
    (Command, usize),
    usize,
>)
    requires
        pos <= toks@.len(),
        indent <= pos,
    ensures
        (match r {
            Ok(t) => spec_parse_statement(toks_view(toks@), pos as int, indent as nat) == Ok::<
                (SpecCommand, int),
                int,
            >((t.0@, t.1 as int)) && pos < t.1 <= toks@.len(),
            Err(q) => spec_parse_statement(toks_view(toks@), pos as int, indent as nat)
                == Err::<(SpecCommand, int), int>(q as int),
        }),
    decreases toks@.len() - pos, 12int,
{
    let n: usize = toks.len();
    if !tabs_match_exec(toks, pos, indent) {
        return Err(pos);
    }
    proof {
        assert(toks_view(toks@).len() == toks@.len());
        assert(pos as int + indent as int <= n as int);
    }
    let q = pos + indent;
    if q < toks.len() && tok_is_line(&toks[q].0) {
        return Ok((Command::NewLine, q + 1));
    }
    match parse_expr_stmt(toks, q) {
        Ok((e, p)) => Ok((Command::Expression(e), p)),
        Err(q1) => match parse_if(toks, q, indent) {
            Ok((c, p)) => Ok((c, p)),
            Err(q2) => Err(
                if q1 >= q2 {
                    q1
                } else {
                    q2
                },
            ),
        },
    }
}

fn parse_block(toks: &[(Token, Span)], pos: usize, indent: usize) -> (r: (Vec<Command>, usize))
    requires
        pos <= toks@.len(),
        indent <= pos,
    ensures
        ({
            let (cs, p) = spec_parse_block(toks_view(toks@), pos as int, indent as nat);
            cs == cmds_view(r.0@) && p == r.1 as int
        }),
        pos <= r.1 <= toks@.len(),
    decreases toks@.len() - pos, 13int,
{
    match parse_statement(toks, pos, indent) {
        Err(_) => {
            let cs: Vec<Command> = Vec::new();
            proof {
                assert(cmds_view(cs@) =~= Seq::<SpecCommand>::empty());
            }
            (cs, pos)
        },
        Ok((c, p)) => {
            let (mut rest, p2) = parse_block(toks, p, indent);
            let ghost rest0 = rest@;
            let ghost cv = c@;
            rest.insert(0, c);
            proof {
                assert(rest@.drop_first() =~= rest0);
                assert(cmds_view(rest@) == seq![cv] + cmds_view(rest0));
            }
            (rest, p2)
        },
    }
}

fn skip_line_exec(toks: &[(Token, Span)], pos: usize) -> (r: usize)
    requires
        pos <= toks@.len(),
    ensures
        r as int == skip_after_line(toks_view(toks@), pos as int),
        pos <= r <= toks@.len(),
{
    let mut j: usize = pos;
    while j < toks.len() && !tok_is_line(&toks[j].0)
        invariant
            pos <= j <= toks@.len(),
            skip_after_line(toks_view(toks@), pos as int) == skip_after_line(
                toks_view(toks@),
                j as int,
            ),
        decreases toks@.len() - j,
    {
        j = j + 1;
    }
    if j < toks.len() {
        j + 1
    } else {
        j
    }
}

fn drive(toks: &[(Token, Span)], pos: usize) -> (r: (Vec<Command>, Vec<ParseError>))
    requires
        pos <= toks@.len(),
    ensures
        ({
            let (cs, es) = spec_drive(spanned_view(toks@), pos as int);
            cs == cmds_view(r.0@) && es == r.1@
        }),
    decreases toks@.len() - pos,
{
    proof {
        lemma_tok_seq_spanned(toks@);
    }
    if pos >= toks.len() {
        let cs: Vec<Command> = Vec::new();
        let es: Vec<ParseError> = Vec::new();
        proof {
            assert(cmds_view(cs@) =~= Seq::<SpecCommand>::empty());
            assert(es@ =~= Seq::<ParseError>::empty());
        }
        return (cs, es);
    }
    match parse_statement(toks, pos, 0) {
        Ok((c, p)) => {
            let (mut cs, es) = drive(toks, p);
            let ghost cs0 = cs@;
            let ghost cv = c@;
            cs.insert(0, c);
            proof {
                assert(cs@.drop_first() =~= cs0);
                assert(cmds_view(cs@) == seq![cv] + cmds_view(cs0));
            }
            (cs, es)
        },
        Err(q) => {
            let err = if q < toks.len() {
                ParseError { start: toks[q].1.start, end: toks[q].1.end }
            } else if toks.len() > 0 {
                ParseError {
                    start: toks[toks.len() - 1].1.end,
                    end: toks[toks.len() - 1].1.end,
                }
            } else {
                ParseError { start: 0, end: 0 }
            };
            proof {
                assert(err == error_span_at(spanned_view(toks@), q as int));
            }
            let sk = skip_line_exec(toks, pos + 1);
            let (cs, mut es) = drive(toks, sk);
            let ghost es0 = es@;
            es.insert(0, err);
            proof {
                assert(es@ =~= seq![err] + es0);
            }
            (cs, es)
        },
    }
}

/// Parse a whole token stream into the command list of the program, or into
/// the list of every structural parse error found. Each error carries the
/// span of the token at which the failing statement's alternatives stopped
/// matching (or an empty span at the end of the source where the tokens ran
/// out). A failed parse yields no partial syntax tree.
pub fn build_ast(toks: &[(Token, Span)]) -> (r: Result<Vec<Command>, Vec<ParseError>>)
    ensures
        (match r {
            Ok(cmds) => spec_build_ast(spanned_view(toks@)) == Ok::<
                Seq<SpecCommand>,
                Seq<ParseError>,
            >(cmds_view(cmds@)),
            Err(errs) => spec_build_ast(spanned_view(toks@)) == Err::<
                Seq<SpecCommand>,
                Seq<ParseError>,
            >(errs@) && errs@.len() > 0,
        }),
{
    let (cs, es) = drive(toks, 0);
    if es.len() == 0 {
        Ok(cs)
    } else {
        Err(es)
    }
}


// --- laws of the grammar ---

/// Binary operator chains are right-associative and precedence-free: for any
/// leaf operand tokens and any two binary operator tokens, `a op1 b op2 c`
/// parses as `a op1 (b op2 c)`, consuming all five tokens.
pub proof fn lemma_chain_right_associative(
    a: SpecToken,
    op1: SpecToken,
    b: SpecToken,
    op2: SpecToken,
    c: SpecToken,
    ea: SpecExpr,
    eb: SpecExpr,
    ec: SpecExpr,
    o1: BinaryOp,
    o2: BinaryOp,
)
    requires
        base_object_of(a) == Some(ea),
        base_object_of(b) == Some(eb),
        base_object_of(c) == Some(ec),
        binary_op_of(op1) == Some(o1),
        binary_op_of(op2) == Some(o2),
    ensures
        spec_parse_expression(seq![a, op1, b, op2, c], 0) == Ok::<(SpecExpr, int), int>(
            (
                SpecExpr::Binary {
                    op: o1,
                    lhs: Box::new(ea),
                    rhs: Box::new(
                        SpecExpr::Binary { op: o2, lhs: Box::new(eb), rhs: Box::new(ec) },
                    ),
                },
                5int,
            ),
        ),
{
    let s = seq![a, op1, b, op2, c];
    assert(spec_parse_value(s, 4) == Ok::<(SpecExpr, int), int>((ec, 5int)));
    assert(spec_parse_base_value(s, 4) == Ok::<(SpecExpr, int), int>((ec, 5int)));
    assert(spec_parse_expression(s, 4) == Ok::<(SpecExpr, int), int>((ec, 5int)));
    assert(spec_parse_value(s, 2) == Ok::<(SpecExpr, int), int>((eb, 3int)));
    assert(spec_parse_base_value(s, 2) == Ok::<(SpecExpr, int), int>((eb, 3int)));
    assert(spec_parse_expression(s, 2) == Ok::<(SpecExpr, int), int>(
        (SpecExpr::Binary { op: o2, lhs: Box::new(eb), rhs: Box::new(ec) }, 5int),
    ));
    assert(spec_parse_value(s, 0) == Ok::<(SpecExpr, int), int>((ea, 1int)));
    assert(spec_parse_base_value(s, 0) == Ok::<(SpecExpr, int), int>((ea, 1int)));
}

/// A body line indented with fewer units than its block requires ends the
/// block immediately rather than raising an error: the block is empty and
/// consumes nothing.
pub proof fn lemma_underindented_line_ends_block(
    s: Seq<SpecToken>,
    pos: int,
    indent: nat,
    k: nat,
)
    requires
        0 <= pos,
        pos + k <= s.len(),
        k < indent,
        forall|j: int| 0 <= j < k ==> (#[trigger] s[pos + j]) is Tab,
        pos + k < s.len() ==> !(s[pos + k] is Tab),
    ensures
        spec_parse_block(s, pos, indent) == (Seq::<SpecCommand>::empty(), pos),
{
    assert(!tabs_match(s, pos, indent)) by {
        if pos + indent <= s.len() {
            assert(pos + k < s.len());
            assert(!(s[pos + k as int] is Tab));
        }
    };
    assert(spec_parse_statement(s, pos, indent) is Err);
}

/// A connector token that is neither of the `and` family nor of the `or`
/// family inside a query bracket fails the query form, and with it the value
/// and expression strata: the parse surfaces a structural error carrying the
/// position of the offending connector itself, and it never aborts.
pub proof fn lemma_query_bad_connector_rejected(s: Seq<SpecToken>, pos: int)
    requires
        0 <= pos,
        pos + 3 < s.len(),
        s[pos] is Query,
        s[pos + 1] is Less,
        s[pos + 2] is Ident,
        !(s[pos + 3] is And),
        !(s[pos + 3] is Or),
        !(s[pos + 3] is Greater),
    ensures
        spec_parse_query(s, pos) == Err::<(SpecExpr, int), int>(pos + 3),
        spec_parse_value(s, pos) == Err::<(SpecExpr, int), int>(pos + 3),
        spec_parse_expression(s, pos) == Err::<(SpecExpr, int), int>(pos + 3),
{
    assert(spec_parse_query_tail(s, pos + 3) == Err::<(Seq<Seq<u8>>, Seq<Seq<u8>>, int), int>(
        pos + 3,
    ));
    assert(spec_parse_query(s, pos) == Err::<(SpecExpr, int), int>(pos + 3));
    assert(spec_parse_value(s, pos) == Err::<(SpecExpr, int), int>(pos + 3));
    assert(spec_parse_base_value(s, pos) == Err::<(SpecExpr, int), int>(pos + 3));
}


/// A trailing separator is consumed and ignored: a comma after which no
/// expression starts adds no element to a literal's list, and the parse
/// resumes right after the comma, which is how `[1,2,3,]` and `[1,2,3]`
/// yield one and the same syntax tree.
pub proof fn lemma_trailing_separator_ignored(s: Seq<SpecToken>, pos: int)
    requires
        0 <= pos < s.len(),
        s[pos] is Comma,
        spec_parse_expression(s, pos + 1) is Err,
    ensures
        spec_parse_expr_list_tail(s, pos) == (Seq::<SpecExpr>::empty(), pos + 1),
{
}


/// Whether `n` leaf elements stand at `pos`, one leaf token each, with a
/// comma between every two.
pub open spec fn leaf_run(s: Seq<SpecToken>, pos: int, n: nat) -> bool
    decreases n,
{
    if n == 0 {
        true
    } else if n == 1 {
        0 <= pos < s.len() && base_object_of(s[pos]) is Some
    } else {
        0 <= pos && pos + 1 < s.len() && base_object_of(s[pos]) is Some && s[pos + 1] is Comma
            && leaf_run(s, pos + 2, (n - 1) as nat)
    }
}

/// The expressions of such a run of leaf elements.
pub open spec fn leaf_values(s: Seq<SpecToken>, pos: int, n: nat) -> Seq<SpecExpr>
    decreases n,
{
    if n == 0 {
        Seq::empty()
    } else {
        seq![base_object_of(s[pos])->0] + leaf_values(s, pos + 2, (n - 1) as nat)
    }
}

/// A token after which a parsed leaf element stands alone: it opens neither
/// a key-value pair, a postfix question, a binary application, nor an
/// applied literal. Every closing bracket and the comma are such tokens.
pub open spec fn ends_element(t: SpecToken) -> bool {
    !(t is Colon) && !(t is Question) && binary_op_of(t) is None && !(t is LeftParen) && !(t
        is LeftBracket) && !(t is LeftBrace)
}

/// A token at which no expression can start. Every closing bracket is one.
pub open spec fn starts_no_expression(t: SpecToken) -> bool {
    base_object_of(t) is None && unary_op_of(t) is None && !(t is LeftParen) && !(t
        is LeftBracket) && !(t is LeftBrace) && !(t is Query)
}

proof fn lemma_leaf_expression(s: Seq<SpecToken>, p: int)
    requires
        0 <= p < s.len(),
        base_object_of(s[p]) is Some,
        p + 1 < s.len() ==> ends_element(s[p + 1]),
    ensures
        spec_parse_expression(s, p) == Ok::<(SpecExpr, int), int>((base_object_of(s[p])->0, p + 1)),
{
    assert(spec_parse_value(s, p) == Ok::<(SpecExpr, int), int>((base_object_of(s[p])->0, p + 1)));
    assert(spec_parse_base_value(s, p) == Ok::<(SpecExpr, int), int>(
        (base_object_of(s[p])->0, p + 1),
    ));
}

proof fn lemma_no_expression(s: Seq<SpecToken>, p: int)
    requires
        0 <= p <= s.len(),
        p < s.len() ==> starts_no_expression(s[p]),
    ensures
        spec_parse_expression(s, p) is Err,
{
    assert(spec_parse_value(s, p) is Err);
    assert(spec_parse_base_value(s, p) is Err);
}

proof fn lemma_leaf_tail(s: Seq<SpecToken>, pos: int, n: nat, trailing: bool)
    requires
        0 <= pos < s.len(),
        s[pos] is Comma,
        n >= 1,
        leaf_run(s, pos + 1, n),
        pos + 2 * n <= s.len(),
        trailing ==> pos + 2 * n < s.len() && s[pos + 2 * n] is Comma && (pos + 2 * n + 1
            < s.len() ==> starts_no_expression(s[pos + 2 * n + 1])),
        !trailing ==> (pos + 2 * n < s.len() ==> ends_element(s[pos + 2 * n]) && !(s[pos + 2
            * n] is Comma)),
    ensures
        spec_parse_expr_list_tail(s, pos) == (
            leaf_values(s, pos + 1, n),
            if trailing {
                pos + 2 * n + 1
            } else {
                pos + 2 * n
            },
        ),
    decreases n,
{
    let p1 = pos + 1;
    assert(p1 + 1 < s.len() ==> ends_element(s[p1 + 1]));
    lemma_leaf_expression(s, p1);
    if n == 1 {
        if trailing {
            lemma_no_expression(s, pos + 3);
            assert(spec_parse_expr_list_tail(s, pos + 2) == (
                Seq::<SpecExpr>::empty(),
                pos + 3,
            ));
        } else {
            assert(spec_parse_expr_list_tail(s, pos + 2) == (
                Seq::<SpecExpr>::empty(),
                pos + 2,
            ));
        }
        assert(leaf_values(s, p1 + 2, 0) =~= Seq::<SpecExpr>::empty());
        assert(leaf_values(s, p1, n) =~= seq![base_object_of(s[p1])->0]);
        assert(seq![base_object_of(s[p1])->0] + Seq::<SpecExpr>::empty() =~= seq![
            base_object_of(s[p1])->0,
        ]);
    } else {
        lemma_leaf_tail(s, pos + 2, (n - 1) as nat, trailing);
    }
}

/// Trailing separators are accepted and ignored: a comma-separated list of
/// leaf elements parses to the same element sequence with one trailing comma
/// as without it, so the array, dict and tuple literals around such a list
/// yield one and the same syntax tree either way.
pub proof fn lemma_trailing_separator_same_elements(
    s: Seq<SpecToken>,
    pos: int,
    n: nat,
    trailing: bool,
)
    requires
        n >= 1,
        leaf_run(s, pos, n),
        pos + 2 * n - 1 <= s.len(),
        trailing ==> pos + 2 * n - 1 < s.len() && s[pos + 2 * n - 1] is Comma && (pos + 2 * n
            < s.len() ==> starts_no_expression(s[pos + 2 * n])),
        !trailing ==> (pos + 2 * n - 1 < s.len() ==> ends_element(s[pos + 2 * n - 1]) && !(
        s[pos + 2 * n - 1] is Comma)),
    ensures
        spec_parse_expr_list(s, pos) == (
            leaf_values(s, pos, n),
            if trailing {
                pos + 2 * n
            } else {
                pos + 2 * n - 1
            },
        ),
{
    let e = pos + 2 * n - 1;
    assert(pos + 1 < s.len() ==> ends_element(s[pos + 1]));
    lemma_leaf_expression(s, pos);
    if n == 1 {
        if trailing {
            lemma_no_expression(s, e + 1);
            assert(spec_parse_expr_list_tail(s, e) == (Seq::<SpecExpr>::empty(), e + 1));
        } else {
            assert(spec_parse_expr_list_tail(s, e) == (Seq::<SpecExpr>::empty(), e));
        }
        assert(leaf_values(s, pos + 2, 0) =~= Seq::<SpecExpr>::empty());
        assert(leaf_values(s, pos, n) =~= seq![base_object_of(s[pos])->0]);
        assert(seq![base_object_of(s[pos])->0] + Seq::<SpecExpr>::empty() =~= seq![
            base_object_of(s[pos])->0,
        ]);
    } else {
        lemma_leaf_tail(s, pos + 1, (n - 1) as nat, trailing);
    }
}


} // verus!
