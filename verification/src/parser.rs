//! The Pratt (operator-precedence) parser: recursive descent with an
//! operator-precedence table, one token of lookahead, and an append-only
//! diagnostics list. A failed statement never aborts the parse: the
//! parser records a message, advances one token, and continues, so the
//! caller always gets a `Program` tree and must consult the diagnostics
//! before trusting it.

use vstd::prelude::*;
use vstd::string::StringExecFns;

use crate::ast::{Ast, AstV};
use crate::digits::{spec_parse_i64, str_to_i64};
use crate::lexer::{lexer_wf, spec_next_token, spec_tokens, Lexer};
use crate::token::{spec_kind_name, Token, TokenKind, TokenV};

verus! {

broadcast use vstd::seq::group_seq_axioms;

/// Expression binding strength, weakest first.
#[derive(Clone, Copy, PartialEq, Eq, Structural)]
enum Precedence {
    Lowest,
    Equals,
    LessGreater,
    Sum,
    Product,
    Prefix,
    Call,
    Index,
}

/// The numeric level of a precedence, for comparisons.
spec fn spec_prec_level(p: Precedence) -> nat {
    match p {
        Precedence::Lowest => 0,
        Precedence::Equals => 1,
        Precedence::LessGreater => 2,
        Precedence::Sum => 3,
        Precedence::Product => 4,
        Precedence::Prefix => 5,
        Precedence::Call => 6,
        Precedence::Index => 7,
    }
}

/// The binding strength a token kind has in infix position.
pub open spec fn prec_of_kind(kind: TokenKind) -> nat {
    match kind {
        TokenKind::Eq | TokenKind::NotEq => 1,
        TokenKind::Lt | TokenKind::Gt => 2,
        TokenKind::Plus | TokenKind::Minus => 3,
        TokenKind::Slash | TokenKind::Asterisk => 4,
        TokenKind::Lparen => 6,
        TokenKind::Lbracket => 7,
        _ => 0,
    }
}

/// The precedence a token kind binds with in infix position.
fn precedences(kind: TokenKind) -> (r: Precedence)
    ensures
        spec_prec_level(r) == prec_of_kind(kind),
{
    match kind {
        TokenKind::Eq | TokenKind::NotEq => Precedence::Equals,
        TokenKind::Lt | TokenKind::Gt => Precedence::LessGreater,
        TokenKind::Plus | TokenKind::Minus => Precedence::Sum,
        TokenKind::Slash | TokenKind::Asterisk => Precedence::Product,
        TokenKind::Lparen => Precedence::Call,
        TokenKind::Lbracket => Precedence::Index,
        _ => Precedence::Lowest,
    }
}

/// The numeric level of a precedence.
fn prec_level(p: Precedence) -> (r: u8)
    ensures
        r == spec_prec_level(p),
{
    match p {
        Precedence::Lowest => 0,
        Precedence::Equals => 1,
        Precedence::LessGreater => 2,
        Precedence::Sum => 3,
        Precedence::Product => 4,
        Precedence::Prefix => 5,
        Precedence::Call => 6,
        Precedence::Index => 7,
    }
}

/// The parser over one token stream: the tokens, a cursor into them, and
/// the append-only diagnostics list.
pub struct Parser {
    tokens: Vec<Token>,
    pos: usize,
    pub errors: Vec<String>,
}

/// The mathematical model of a parser state.
pub ghost struct ParserV {
    pub tokens: Seq<TokenV>,
    pub pos: nat,
    pub errors: Seq<Seq<char>>,
}

impl View for Parser {
    type V = ParserV;

    closed spec fn view(&self) -> ParserV {
        ParserV {
            tokens: self.tokens@.map_values(|t: Token| t@),
            pos: self.pos as nat,
            errors: self.errors@.map_values(|e: String| e@),
        }
    }
}

/// Well-formedness of a token stream: nonempty, ending with the
/// end-of-input token.
pub open spec fn toks_wf(toks: Seq<TokenV>) -> bool {
    toks.len() >= 1 && toks.last().kind is Eof
}

/// Well-formedness of a parser state: a well-formed stream and a cursor
/// inside it.
pub open spec fn parser_wf(p: ParserV) -> bool {
    toks_wf(p.tokens) && p.pos < p.tokens.len()
}

/// The token under the cursor, the final end-of-input token once the
/// cursor passes the end.
pub open spec fn cur_of(toks: Seq<TokenV>, pos: nat) -> TokenV {
    if pos < toks.len() {
        toks[pos as int]
    } else {
        toks.last()
    }
}

/// The token one past the cursor.
pub open spec fn peek_of(toks: Seq<TokenV>, pos: nat) -> TokenV {
    cur_of(toks, pos + 1)
}

/// The cursor one token on, saturating at the final token.
pub open spec fn adv_pos(toks: Seq<TokenV>, pos: nat) -> nat {
    if pos + 1 < toks.len() {
        pos + 1
    } else {
        pos
    }
}

/// `p` where it is a sane continuation of `lo` — at least `lo` and
/// inside the stream — else `lo` itself.
pub open spec fn clamp_pos(toks: Seq<TokenV>, lo: nat, p: nat) -> nat {
    if lo <= p && p < toks.len() {
        p
    } else {
        lo
    }
}

/// The number of tokens at or after the cursor.
pub open spec fn spec_rem(toks: Seq<TokenV>, pos: nat) -> nat {
    if pos <= toks.len() {
        (toks.len() - pos) as nat
    } else {
        0
    }
}

/// The diagnostic recorded when a required token is missing.
pub open spec fn peek_err_msg(toks: Seq<TokenV>, pos: nat, kind: TokenKind) -> Seq<char> {
    "expected next token to be "@ + spec_kind_name(kind) + ", got "@ + spec_kind_name(
        peek_of(toks, pos).kind,
    ) + " instead"@
}

/// The diagnostic recorded when no prefix parse rule exists for a token
/// kind.
pub open spec fn no_prefix_msg(kind: TokenKind) -> Seq<char> {
    "no prefix parse function for "@ + spec_kind_name(kind) + " found"@
}

/// The diagnostic recorded for a token no pattern matches.
pub open spec fn no_pattern_msg(literal: Seq<char>) -> Seq<char> {
    "there is no matching pattern for "@ + literal + " found"@
}

/// The outcome of parsing one node: the node if one was built, the
/// cursor afterwards, and the diagnostics this parse appended.
pub ghost struct PRes {
    pub node: Option<AstV>,
    pub pos: nat,
    pub errs: Seq<Seq<char>>,
}

/// The outcome of parsing a node list: the list if it was built, the
/// cursor afterwards, and the diagnostics appended.
pub ghost struct PList {
    pub items: Option<Seq<AstV>>,
    pub pos: nat,
    pub errs: Seq<Seq<char>>,
}

/// The outcome of parsing a whole program: its statements, the cursor
/// afterwards, and the diagnostics appended.
pub ghost struct PProgram {
    pub stmts: Seq<AstV>,
    pub pos: nat,
    pub errs: Seq<Seq<char>>,
}

/// Whether a token kind opens an expression: has a prefix parse rule.
pub open spec fn has_prefix_rule(kind: TokenKind) -> bool {
    match kind {
        TokenKind::Identifier | TokenKind::Integer | TokenKind::True | TokenKind::False
            | TokenKind::String | TokenKind::Bang | TokenKind::Minus | TokenKind::Lparen
            | TokenKind::If | TokenKind::Function | TokenKind::Lbracket => true,
        _ => false,
    }
}

/// Whether a token kind is a binary infix operator.
pub open spec fn is_infix_op(kind: TokenKind) -> bool {
    match kind {
        TokenKind::Plus | TokenKind::Minus | TokenKind::Asterisk | TokenKind::Slash
            | TokenKind::Eq | TokenKind::NotEq | TokenKind::Lt | TokenKind::Gt => true,
        _ => false,
    }
}

/// One statement: a let statement, a return statement, or an expression
/// statement, by the token under the cursor.
pub open spec fn spec_parse_statement(toks: Seq<TokenV>, pos: nat) -> PRes
    decreases spec_rem(toks, pos), 90int,
        when toks_wf(toks) && pos < toks.len()
{
    match cur_of(toks, pos).kind {
        TokenKind::Let => spec_parse_let(toks, pos),
        TokenKind::Return => spec_parse_return(toks, pos),
        _ => spec_parse_expression_statement(toks, pos),
    }
}

/// A let statement: `let`, a required identifier, a required `=`, the
/// value expression, and an optional semicolon. A missing required token
/// records a diagnostic and fails this statement.
pub open spec fn spec_parse_let(toks: Seq<TokenV>, pos: nat) -> PRes
    decreases spec_rem(toks, pos), 80int,
        when toks_wf(toks) && pos < toks.len()
{
    if peek_of(toks, pos).kind != TokenKind::Identifier {
        PRes { node: None, pos, errs: seq![peek_err_msg(toks, pos, TokenKind::Identifier)] }
    } else {
        let p1 = adv_pos(toks, pos);
        let ident = AstV::Identifier { value: cur_of(toks, p1).literal };
        if peek_of(toks, p1).kind != TokenKind::Assign {
            PRes { node: None, pos: p1, errs: seq![peek_err_msg(toks, p1, TokenKind::Assign)] }
        } else {
            let p2 = adv_pos(toks, p1);
            let p3 = adv_pos(toks, p2);
            let v = spec_parse_expression(toks, p3, 0);
            match v.node {
                None => PRes { node: None, pos: v.pos, errs: v.errs },
                Some(value) => {
                    let vp = clamp_pos(toks, p3, v.pos);
                    let p4 = if peek_of(toks, vp).kind is Semicolon {
                        adv_pos(toks, vp)
                    } else {
                        vp
                    };
                    PRes {
                        node: Some(
                            AstV::LetStatement {
                                identifier: Box::new(ident),
                                value: Box::new(value),
                            },
                        ),
                        pos: p4,
                        errs: v.errs,
                    }
                },
            }
        }
    }
}

/// A return statement: `return`, the value expression, and an optional
/// semicolon.
pub open spec fn spec_parse_return(toks: Seq<TokenV>, pos: nat) -> PRes
    decreases spec_rem(toks, pos), 80int,
        when toks_wf(toks) && pos < toks.len()
{
    let p1 = adv_pos(toks, pos);
    let v = spec_parse_expression(toks, p1, 0);
    match v.node {
        None => PRes { node: None, pos: v.pos, errs: v.errs },
        Some(value) => {
            let vp = clamp_pos(toks, p1, v.pos);
            let p2 = if peek_of(toks, vp).kind is Semicolon {
                adv_pos(toks, vp)
            } else {
                vp
            };
            PRes {
                node: Some(AstV::ReturnStatement { return_value: Box::new(value) }),
                pos: p2,
                errs: v.errs,
            }
        },
    }
}

/// An expression statement: one expression at lowest precedence and an
/// optional terminating semicolon.
pub open spec fn spec_parse_expression_statement(toks: Seq<TokenV>, pos: nat) -> PRes
    decreases spec_rem(toks, pos), 80int,
        when toks_wf(toks) && pos < toks.len()
{
    let v = spec_parse_expression(toks, pos, 0);
    match v.node {
        None => PRes { node: None, pos: v.pos, errs: v.errs },
        Some(value) => {
            let vp = clamp_pos(toks, pos, v.pos);
            let p2 = if peek_of(toks, vp).kind is Semicolon {
                adv_pos(toks, vp)
            } else {
                vp
            };
            PRes {
                node: Some(AstV::ExpressionStatement { expression: Box::new(value) }),
                pos: p2,
                errs: v.errs,
            }
        },
    }
}

/// One expression at a binding floor: the prefix rule for the token
/// under the cursor — a missing rule records a diagnostic and yields no
/// expression — then infix folding while the peeked operator binds
/// tighter than the floor.
pub open spec fn spec_parse_expression(toks: Seq<TokenV>, pos: nat, minprec: nat) -> PRes
    decreases spec_rem(toks, pos), 70int,
        when toks_wf(toks) && pos < toks.len()
{
    let kind = cur_of(toks, pos).kind;
    if !has_prefix_rule(kind) {
        PRes { node: None, pos, errs: seq![no_prefix_msg(kind)] }
    } else {
        let h = spec_prefix_value(toks, pos);
        let hp = clamp_pos(toks, pos, h.pos);
        let t = spec_pratt(toks, hp, minprec, h.node);
        PRes { node: t.node, pos: t.pos, errs: h.errs + t.errs }
    }
}

/// The prefix rule for the token under the cursor: a leaf literal, or a
/// nested parse for operators, groups, conditionals, functions and
/// arrays.
pub open spec fn spec_prefix_value(toks: Seq<TokenV>, pos: nat) -> PRes
    decreases spec_rem(toks, pos), 60int,
        when toks_wf(toks) && pos < toks.len()
{
    let cur = cur_of(toks, pos);
    match cur.kind {
        TokenKind::Identifier => PRes {
            node: Some(AstV::Identifier { value: cur.literal }),
            pos,
            errs: Seq::empty(),
        },
        TokenKind::Integer => PRes {
            node: match spec_parse_i64(cur.literal) {
                Some(v) => Some(AstV::Integer { value: v }),
                None => None,
            },
            pos,
            errs: Seq::empty(),
        },
        TokenKind::True => PRes {
            node: Some(AstV::Boolean { value: true }),
            pos,
            errs: Seq::empty(),
        },
        TokenKind::False => PRes {
            node: Some(AstV::Boolean { value: false }),
            pos,
            errs: Seq::empty(),
        },
        TokenKind::String => PRes {
            node: Some(AstV::StringLiteral { value: cur.literal }),
            pos,
            errs: Seq::empty(),
        },
        TokenKind::Bang | TokenKind::Minus => spec_parse_prefix_expr(toks, pos),
        TokenKind::Lparen => spec_parse_grouped(toks, pos),
        TokenKind::If => spec_parse_if(toks, pos),
        TokenKind::Function => spec_parse_function(toks, pos),
        TokenKind::Lbracket => spec_parse_array(toks, pos),
        _ => PRes { node: None, pos, errs: Seq::empty() },
    }
}

/// The infix folding loop: while the peeked token is no statement
/// terminator and binds tighter than the floor, fold the left value into
/// an infix, call or index expression and continue.
pub open spec fn spec_pratt(toks: Seq<TokenV>, pos: nat, minprec: nat, left: Option<AstV>) -> PRes
    decreases spec_rem(toks, pos), 30int,
        when toks_wf(toks) && pos < toks.len()
{
    let pk = peek_of(toks, pos).kind;
    if !(pk is Semicolon) && prec_of_kind(pk) > minprec {
        if is_infix_op(pk) || pk is Lparen || pk is Lbracket {
            let step = if is_infix_op(pk) {
                spec_parse_infix(toks, pos, left)
            } else if pk is Lparen {
                spec_parse_call(toks, pos, left)
            } else {
                spec_parse_index(toks, pos, left)
            };
            let np = clamp_pos(toks, pos + 1, step.pos);
            let rest = spec_pratt(toks, np, minprec, step.node);
            PRes { node: rest.node, pos: rest.pos, errs: step.errs + rest.errs }
        } else {
            PRes { node: left, pos, errs: Seq::empty() }
        }
    } else {
        PRes { node: left, pos, errs: Seq::empty() }
    }
}

/// A prefix operator expression: the operator's literal and its operand,
/// parsed at prefix precedence.
pub open spec fn spec_parse_prefix_expr(toks: Seq<TokenV>, pos: nat) -> PRes
    decreases spec_rem(toks, pos), 50int,
        when toks_wf(toks) && pos < toks.len() && cur_of(toks, pos).kind != TokenKind::Eof
{
    let op = cur_of(toks, pos).literal;
    let p1 = adv_pos(toks, pos);
    let r = spec_parse_expression(toks, p1, 5);
    match r.node {
        None => PRes { node: None, pos: r.pos, errs: r.errs },
        Some(right) => PRes {
            node: Some(AstV::PrefixExpression { operator: op, right: Box::new(right) }),
            pos: r.pos,
            errs: r.errs,
        },
    }
}

/// A parenthesized group: an inner expression at lowest precedence and a
/// required closing parenthesis.
pub open spec fn spec_parse_grouped(toks: Seq<TokenV>, pos: nat) -> PRes
    decreases spec_rem(toks, pos), 50int,
        when toks_wf(toks) && pos < toks.len() && cur_of(toks, pos).kind != TokenKind::Eof
{
    let p1 = adv_pos(toks, pos);
    let r = spec_parse_expression(toks, p1, 0);
    let rp = clamp_pos(toks, p1, r.pos);
    if peek_of(toks, rp).kind is Rparen {
        PRes { node: r.node, pos: adv_pos(toks, rp), errs: r.errs }
    } else {
        PRes { node: None, pos: rp, errs: r.errs + seq![peek_err_msg(toks, rp, TokenKind::Rparen)] }
    }
}

/// A conditional: `if`, a required parenthesized condition, a required
/// braced body, and an optional `else` with another braced block.
pub open spec fn spec_parse_if(toks: Seq<TokenV>, pos: nat) -> PRes
    decreases spec_rem(toks, pos), 50int,
        when toks_wf(toks) && pos < toks.len()
{
    if peek_of(toks, pos).kind != TokenKind::Lparen {
        PRes { node: None, pos, errs: seq![peek_err_msg(toks, pos, TokenKind::Lparen)] }
    } else {
        let p1 = adv_pos(toks, pos);
        let c = spec_parse_grouped(toks, p1);
        match c.node {
            None => PRes { node: None, pos: c.pos, errs: c.errs },
            Some(cond) => {
                let cp = clamp_pos(toks, p1, c.pos);
                if peek_of(toks, cp).kind != TokenKind::Lbrace {
                    PRes {
                        node: None,
                        pos: cp,
                        errs: c.errs + seq![peek_err_msg(toks, cp, TokenKind::Lbrace)],
                    }
                } else {
                    let p2 = adv_pos(toks, cp);
                    let b = spec_parse_block(toks, p2);
                    match b.node {
                        None => PRes { node: None, pos: b.pos, errs: c.errs + b.errs },
                        Some(body) => {
                            let bp = clamp_pos(toks, p2, b.pos);
                            if peek_of(toks, bp).kind is Else {
                                let p3 = adv_pos(toks, bp);
                                if peek_of(toks, p3).kind != TokenKind::Lbrace {
                                    PRes {
                                        node: None,
                                        pos: p3,
                                        errs: c.errs + b.errs + seq![
                                            peek_err_msg(toks, p3, TokenKind::Lbrace),
                                        ],
                                    }
                                } else {
                                    let p4 = adv_pos(toks, p3);
                                    let a = spec_parse_block(toks, p4);
                                    match a.node {
                                        None => PRes {
                                            node: None,
                                            pos: a.pos,
                                            errs: c.errs + b.errs + a.errs,
                                        },
                                        Some(alt) => PRes {
                                            node: Some(
                                                AstV::IfExpression {
                                                    condition: Box::new(cond),
                                                    body: Box::new(body),
                                                    alternative: Some(Box::new(alt)),
                                                },
                                            ),
                                            pos: clamp_pos(toks, p4, a.pos),
                                            errs: c.errs + b.errs + a.errs,
                                        },
                                    }
                                }
                            } else {
                                PRes {
                                    node: Some(
                                        AstV::IfExpression {
                                            condition: Box::new(cond),
                                            body: Box::new(body),
                                            alternative: None,
                                        },
                                    ),
                                    pos: bp,
                                    errs: c.errs + b.errs,
                                }
                            }
                        },
                    }
                }
            },
        }
    }
}

/// A braced block: statements until the closing brace, failing the whole
/// block when any statement fails.
pub open spec fn spec_parse_block(toks: Seq<TokenV>, pos: nat) -> PRes
    decreases spec_rem(toks, pos), 50int,
        when toks_wf(toks) && pos < toks.len() && cur_of(toks, pos).kind != TokenKind::Eof
{
    let p1 = adv_pos(toks, pos);
    let bl = spec_block_items(toks, p1);
    match bl.items {
        None => PRes { node: None, pos: bl.pos, errs: bl.errs },
        Some(stmts) => PRes {
            node: Some(AstV::BlockStatement { statements: stmts }),
            pos: bl.pos,
            errs: bl.errs,
        },
    }
}

/// The statements of a block: one statement and a step per iteration,
/// until the cursor reaches the closing brace or the lookahead reaches
/// end-of-input.
pub open spec fn spec_block_items(toks: Seq<TokenV>, pos: nat) -> PList
    decreases spec_rem(toks, pos), 100int,
        when toks_wf(toks) && pos < toks.len()
{
    if cur_of(toks, pos).kind != TokenKind::Rbrace && peek_of(toks, pos).kind != TokenKind::Eof {
        let s = spec_parse_statement(toks, pos);
        match s.node {
            None => PList { items: None, pos: s.pos, errs: s.errs },
            Some(st) => {
                let np = adv_pos(toks, clamp_pos(toks, pos, s.pos));
                let rest = spec_block_items(toks, np);
                PList {
                    items: match rest.items {
                        None => None,
                        Some(xs) => Some(seq![st] + xs),
                    },
                    pos: rest.pos,
                    errs: s.errs + rest.errs,
                }
            },
        }
    } else {
        PList { items: Some(Seq::empty()), pos, errs: Seq::empty() }
    }
}

/// A function literal: `fn`, a required parenthesized parameter list,
/// and a required braced body.
pub open spec fn spec_parse_function(toks: Seq<TokenV>, pos: nat) -> PRes
    decreases spec_rem(toks, pos), 50int,
        when toks_wf(toks) && pos < toks.len()
{
    if peek_of(toks, pos).kind != TokenKind::Lparen {
        PRes { node: None, pos, errs: seq![peek_err_msg(toks, pos, TokenKind::Lparen)] }
    } else {
        let p1 = adv_pos(toks, pos);
        let ps = spec_parse_parameters(toks, p1);
        match ps.items {
            None => PRes { node: None, pos: ps.pos, errs: ps.errs },
            Some(params) => {
                let pp = clamp_pos(toks, p1, ps.pos);
                if peek_of(toks, pp).kind != TokenKind::Lbrace {
                    PRes {
                        node: None,
                        pos: pp,
                        errs: ps.errs + seq![peek_err_msg(toks, pp, TokenKind::Lbrace)],
                    }
                } else {
                    let p2 = adv_pos(toks, pp);
                    let b = spec_parse_block(toks, p2);
                    match b.node {
                        None => PRes { node: None, pos: b.pos, errs: ps.errs + b.errs },
                        Some(body) => PRes {
                            node: Some(
                                AstV::FunctionLiteral { arguments: params, body: Box::new(body) },
                            ),
                            pos: clamp_pos(toks, p2, b.pos),
                            errs: ps.errs + b.errs,
                        },
                    }
                }
            },
        }
    }
}

/// A comma-separated identifier list, empty permitted, closed by a
/// required parenthesis.
pub open spec fn spec_parse_parameters(toks: Seq<TokenV>, pos: nat) -> PList
    decreases spec_rem(toks, pos), 40int,
        when toks_wf(toks) && pos < toks.len() && cur_of(toks, pos).kind != TokenKind::Eof
{
    if peek_of(toks, pos).kind is Rparen {
        PList { items: Some(Seq::empty()), pos: adv_pos(toks, pos), errs: Seq::empty() }
    } else {
        let p1 = adv_pos(toks, pos);
        let first = AstV::Identifier { value: cur_of(toks, p1).literal };
        let lp = spec_parameters_rest(toks, p1, seq![first]);
        if peek_of(toks, lp.pos).kind is Rparen {
            PList { items: lp.items, pos: adv_pos(toks, lp.pos), errs: Seq::empty() }
        } else {
            PList {
                items: None,
                pos: lp.pos,
                errs: seq![peek_err_msg(toks, lp.pos, TokenKind::Rparen)],
            }
        }
    }
}

/// The remaining identifiers of a parameter list: one more per leading
/// comma.
pub open spec fn spec_parameters_rest(toks: Seq<TokenV>, pos: nat, acc: Seq<AstV>) -> PList
    decreases spec_rem(toks, pos), 10int,
        when toks_wf(toks) && pos < toks.len()
{
    if peek_of(toks, pos).kind is Comma {
        let p1 = adv_pos(toks, pos);
        let p2 = adv_pos(toks, p1);
        let id = AstV::Identifier { value: cur_of(toks, p2).literal };
        spec_parameters_rest(toks, p2, acc.push(id))
    } else {
        PList { items: Some(acc), pos, errs: Seq::empty() }
    }
}

/// An array literal: a bracketed expression list.
pub open spec fn spec_parse_array(toks: Seq<TokenV>, pos: nat) -> PRes
    decreases spec_rem(toks, pos), 50int,
        when toks_wf(toks) && pos < toks.len() && cur_of(toks, pos).kind != TokenKind::Eof
{
    let r = spec_parse_expression_list(toks, pos, TokenKind::Rbracket);
    match r.items {
        None => PRes { node: None, pos: r.pos, errs: r.errs },
        Some(elems) => PRes {
            node: Some(AstV::ArrayLiteral { elements: elems }),
            pos: r.pos,
            errs: r.errs,
        },
    }
}

/// A comma-separated expression list, empty permitted, finished by the
/// required closing token; a missing closer records a diagnostic and
/// fails the list.
pub open spec fn spec_parse_expression_list(toks: Seq<TokenV>, pos: nat, end: TokenKind) -> PList
    decreases spec_rem(toks, pos), 40int,
        when toks_wf(toks) && pos < toks.len() && cur_of(toks, pos).kind != TokenKind::Eof
{
    if peek_of(toks, pos).kind == end {
        PList { items: Some(Seq::empty()), pos: adv_pos(toks, pos), errs: Seq::empty() }
    } else {
        let p1 = adv_pos(toks, pos);
        let r1 = spec_parse_expression(toks, p1, 0);
        match r1.node {
            None => PList { items: None, pos: r1.pos, errs: r1.errs },
            Some(e1) => {
                let np = clamp_pos(toks, p1, r1.pos);
                let lp = spec_expression_list_rest(toks, np, seq![e1], end);
                match lp.items {
                    None => PList { items: None, pos: lp.pos, errs: r1.errs + lp.errs },
                    Some(elems) => {
                        if peek_of(toks, lp.pos).kind == end {
                            PList {
                                items: Some(elems),
                                pos: adv_pos(toks, clamp_pos(toks, np, lp.pos)),
                                errs: r1.errs + lp.errs,
                            }
                        } else {
                            PList {
                                items: None,
                                pos: lp.pos,
                                errs: r1.errs + lp.errs + seq![
                                    peek_err_msg(toks, lp.pos, end),
                                ],
                            }
                        }
                    },
                }
            },
        }
    }
}

/// The remaining expressions of a list: one more per leading comma.
pub open spec fn spec_expression_list_rest(
    toks: Seq<TokenV>,
    pos: nat,
    acc: Seq<AstV>,
    end: TokenKind,
) -> PList
    decreases spec_rem(toks, pos), 10int,
        when toks_wf(toks) && pos < toks.len()
{
    if peek_of(toks, pos).kind is Comma {
        let p1 = adv_pos(toks, pos);
        let p2 = adv_pos(toks, p1);
        let r = spec_parse_expression(toks, p2, 0);
        match r.node {
            None => PList { items: None, pos: r.pos, errs: r.errs },
            Some(e) => {
                let np = clamp_pos(toks, p2, r.pos);
                let rest = spec_expression_list_rest(toks, np, acc.push(e), end);
                PList { items: rest.items, pos: rest.pos, errs: r.errs + rest.errs }
            },
        }
    } else {
        PList { items: Some(acc), pos, errs: Seq::empty() }
    }
}

/// One infix fold: step onto the operator, take its literal and
/// precedence, and parse the right operand with that precedence as the
/// floor.
pub open spec fn spec_parse_infix(toks: Seq<TokenV>, pos: nat, left: Option<AstV>) -> PRes
    decreases spec_rem(toks, pos), 20int,
        when toks_wf(toks) && pos < toks.len() && peek_of(toks, pos).kind != TokenKind::Eof
{
    let p1 = adv_pos(toks, pos);
    match left {
        None => PRes { node: None, pos: p1, errs: Seq::empty() },
        Some(l) => {
            let op = cur_of(toks, p1).literal;
            let prec = prec_of_kind(cur_of(toks, p1).kind);
            let p2 = adv_pos(toks, p1);
            let r = spec_parse_expression(toks, p2, prec);
            match r.node {
                None => PRes { node: None, pos: r.pos, errs: r.errs },
                Some(right) => PRes {
                    node: Some(
                        AstV::InfixExpression {
                            left: Box::new(l),
                            operator: op,
                            right: Box::new(right),
                        },
                    ),
                    pos: r.pos,
                    errs: r.errs,
                },
            }
        },
    }
}

/// A call fold: the callee is the left value, the arguments a
/// parenthesized expression list.
pub open spec fn spec_parse_call(toks: Seq<TokenV>, pos: nat, left: Option<AstV>) -> PRes
    decreases spec_rem(toks, pos), 20int,
        when toks_wf(toks) && pos < toks.len() && peek_of(toks, pos).kind != TokenKind::Eof
{
    let p1 = adv_pos(toks, pos);
    match left {
        None => PRes { node: None, pos: p1, errs: Seq::empty() },
        Some(f) => {
            let r = spec_parse_expression_list(toks, p1, TokenKind::Rparen);
            match r.items {
                None => PRes { node: None, pos: r.pos, errs: r.errs },
                Some(args) => PRes {
                    node: Some(AstV::CallExpression { function: Box::new(f), arguments: args }),
                    pos: r.pos,
                    errs: r.errs,
                },
            }
        },
    }
}

/// An index fold: the collection is the left value, the index an
/// expression at index precedence, closed by a required bracket.
pub open spec fn spec_parse_index(toks: Seq<TokenV>, pos: nat, left: Option<AstV>) -> PRes
    decreases spec_rem(toks, pos), 20int,
        when toks_wf(toks) && pos < toks.len() && peek_of(toks, pos).kind != TokenKind::Eof
{
    let p1 = adv_pos(toks, pos);
    match left {
        None => PRes { node: None, pos: p1, errs: Seq::empty() },
        Some(l) => {
            let p2 = adv_pos(toks, p1);
            let r = spec_parse_expression(toks, p2, 7);
            match r.node {
                None => PRes { node: None, pos: r.pos, errs: r.errs },
                Some(ix) => {
                    let rp = clamp_pos(toks, p2, r.pos);
                    if peek_of(toks, rp).kind is Rbracket {
                        PRes {
                            node: Some(
                                AstV::IndexExpression { left: Box::new(l), index: Box::new(ix) },
                            ),
                            pos: adv_pos(toks, rp),
                            errs: r.errs,
                        }
                    } else {
                        PRes {
                            node: None,
                            pos: rp,
                            errs: r.errs + seq![peek_err_msg(toks, rp, TokenKind::Rbracket)],
                        }
                    }
                },
            }
        },
    }
}

/// The top-level loop: one statement per iteration until end-of-input,
/// skipping one token past a failed statement and keeping every
/// successful one.
pub open spec fn spec_program_items(toks: Seq<TokenV>, pos: nat) -> PProgram
    decreases spec_rem(toks, pos), 100int,
        when toks_wf(toks) && pos < toks.len()
{
    if cur_of(toks, pos).kind != TokenKind::Eof {
        let s = spec_parse_statement(toks, pos);
        let np = adv_pos(toks, clamp_pos(toks, pos, s.pos));
        let rest = spec_program_items(toks, np);
        PProgram {
            stmts: match s.node {
                Some(st) => seq![st] + rest.stmts,
                None => rest.stmts,
            },
            pos: rest.pos,
            errs: s.errs + rest.errs,
        }
    } else {
        PProgram { stmts: Seq::empty(), pos, errs: Seq::empty() }
    }
}

/// The whole parse: always a `Program` node holding every statement that
/// parsed, with the diagnostics the parse accumulated.
pub open spec fn spec_parse_program(toks: Seq<TokenV>, pos: nat) -> PProgram {
    spec_program_items(toks, pos)
}

/// The whole front end on one input text: the program and diagnostics
/// that parsing the input's token stream from the start yields.
pub open spec fn spec_parse_source(input: Seq<char>) -> PProgram {
    spec_parse_program(spec_tokens(crate::lexer::spec_new_lexer(input)), 0)
}

/// Parsing is a function of the input text alone: two parses of equal
/// inputs produce equal trees and equal diagnostics, in the same order.
/// With `Parser::new` and `parse_program`, whose results equal this
/// specification, parsing the same malformed input twice therefore
/// produces the same diagnostic messages in the same order.
pub proof fn lemma_parse_deterministic(a: Seq<char>, b: Seq<char>)
    requires
        a == b,
    ensures
        spec_parse_source(a).stmts == spec_parse_source(b).stmts,
        spec_parse_source(a).errs == spec_parse_source(b).errs,
{
}

/// A malformed let statement is reported and recovered from: whenever
/// the statement under the cursor starts with `let` and one of its two
/// required tokens — the identifier, or the `=` after it — is missing,
/// the parse records exactly one message for it, naming the missing
/// token, contributes no statement for it, and goes on as the parse from
/// one token past the failure; every statement of that continuation — a
/// valid expression statement that follows among them — is kept.
pub proof fn lemma_malformed_let_reported(toks: Seq<TokenV>, pos: nat)
    requires
        toks_wf(toks),
        pos < toks.len(),
        cur_of(toks, pos).kind is Let,
        peek_of(toks, pos).kind != TokenKind::Identifier || peek_of(
            toks,
            adv_pos(toks, pos),
        ).kind != TokenKind::Assign,
    ensures
        spec_parse_program(toks, pos).errs.len() > 0,
        spec_parse_program(toks, pos).errs[0] == (if peek_of(toks, pos).kind
            != TokenKind::Identifier {
            peek_err_msg(toks, pos, TokenKind::Identifier)
        } else {
            peek_err_msg(toks, adv_pos(toks, pos), TokenKind::Assign)
        }),
        ({
            let rec = if peek_of(toks, pos).kind != TokenKind::Identifier {
                adv_pos(toks, pos)
            } else {
                adv_pos(toks, adv_pos(toks, pos))
            };
            spec_parse_program(toks, pos).stmts == spec_parse_program(toks, rec).stmts
                && spec_parse_program(toks, pos).errs == seq![
                spec_parse_program(toks, pos).errs[0],
            ] + spec_parse_program(toks, rec).errs
        }),
{
    let s = spec_parse_statement(toks, pos);
    if peek_of(toks, pos).kind != TokenKind::Identifier {
        assert(s.errs == seq![peek_err_msg(toks, pos, TokenKind::Identifier)]);
        assert(adv_pos(toks, clamp_pos(toks, pos, s.pos)) == adv_pos(toks, pos));
    } else {
        assert(s.errs == seq![peek_err_msg(toks, adv_pos(toks, pos), TokenKind::Assign)]);
        assert(adv_pos(toks, clamp_pos(toks, pos, s.pos)) == adv_pos(toks, adv_pos(toks, pos)));
    }
    let rest = spec_program_items(toks, adv_pos(toks, clamp_pos(toks, pos, s.pos)));
    assert(spec_parse_program(toks, pos).errs == s.errs + rest.errs);
    assert(spec_parse_program(toks, pos).stmts == rest.stmts);
}

/// A two-token stream — one leaf expression token, then end-of-input —
/// parses to the program holding exactly that expression statement, with
/// no diagnostics.
proof fn lemma_program_of_single_leaf(toks: Seq<TokenV>, node: AstV)
    requires
        toks.len() == 2,
        toks[1].kind is Eof,
        toks[0].kind != TokenKind::Eof,
        has_prefix_rule(toks[0].kind),
        spec_prefix_value(toks, 0) == (PRes {
            node: Some(node),
            pos: 0nat,
            errs: Seq::<Seq<char>>::empty(),
        }),
    ensures
        spec_parse_program(toks, 0).stmts == seq![
            AstV::ExpressionStatement { expression: Box::new(node) },
        ],
        spec_parse_program(toks, 0).errs == Seq::<Seq<char>>::empty(),
{
    assert(toks_wf(toks)) by {
        assert(toks.last() == toks[1]);
    };
    assert(cur_of(toks, 0) == toks[0] && peek_of(toks, 0) == toks[1]);
    let pv = spec_prefix_value(toks, 0);
    let pr = spec_pratt(toks, 0, 0, pv.node);
    assert(pr == PRes { node: pv.node, pos: 0nat, errs: Seq::<Seq<char>>::empty() });
    let ex = spec_parse_expression(toks, 0, 0);
    assert(ex.node == Some(node) && ex.pos == 0 && ex.errs == Seq::<Seq<char>>::empty()) by {
        assert(clamp_pos(toks, 0, pv.pos) == 0);
        assert(pv.errs + pr.errs =~= Seq::<Seq<char>>::empty());
    };
    let stmt = AstV::ExpressionStatement { expression: Box::new(node) };
    let es = spec_parse_expression_statement(toks, 0);
    assert(es.node == Some(stmt) && es.pos == 0 && es.errs == Seq::<Seq<char>>::empty()) by {
        assert(clamp_pos(toks, 0, ex.pos) == 0);
        assert(peek_of(toks, 0).kind == TokenKind::Eof);
    };
    let st = spec_parse_statement(toks, 0);
    assert(st == es);
    let rest = spec_program_items(toks, 1);
    assert(cur_of(toks, 1) == toks[1]);
    assert(rest == PProgram {
        stmts: Seq::<AstV>::empty(),
        pos: 1nat,
        errs: Seq::<Seq<char>>::empty(),
    });
    let pi = spec_program_items(toks, 0);
    assert(adv_pos(toks, clamp_pos(toks, 0, st.pos)) == 1);
    assert(pi.stmts =~= seq![stmt] && pi.errs =~= Seq::<Seq<char>>::empty());
}

/// A program of one expression statement renders as that expression.
proof fn lemma_render_single_statement(node: AstV, text: Seq<char>)
    requires
        crate::ast::spec_render(node) == text,
    ensures
        crate::ast::spec_render(
            AstV::Program {
                statements: seq![AstV::ExpressionStatement { expression: Box::new(node) }],
            },
        ) == text,
{
    let stmt = AstV::ExpressionStatement { expression: Box::new(node) };
    assert(crate::ast::spec_render(stmt) == text);
    assert(crate::ast::render_join(seq![stmt], ""@) == crate::ast::spec_render(stmt)) by {
        assert(seq![stmt].len() == 1 && seq![stmt][0] == stmt);
    };
}

/// Round trip on integer-literal programs: rendering any nonnegative
/// 64-bit integer as a program text and parsing that text back yields a
/// program with no diagnostics whose canonical rendering is the same
/// text. (A negative value is excluded: its rendering parses as a prefix
/// negation, whose canonical form carries parentheses.)
pub proof fn lemma_round_trip_integer_literal(v: i64)
    requires
        0 <= v,
    ensures
        spec_parse_source(crate::digits::dec_i64(v)).errs == Seq::<Seq<char>>::empty(),
        crate::ast::spec_render(
            AstV::Program { statements: spec_parse_source(crate::digits::dec_i64(v)).stmts },
        ) == crate::digits::dec_i64(v),
{
    let text = crate::digits::dec_i64(v);
    let n = v as nat;
    assert(text == crate::digits::dec_digits(n));
    crate::digits::lemma_dec_digits_shape(n);
    crate::digits::lemma_dec_digits_len_i64(v);
    crate::digits::lemma_dec_digits_value(n);
    crate::lexer::lemma_tokens_of_digit_run(text);
    let toks = spec_tokens(crate::lexer::spec_new_lexer(text));
    assert(toks == seq![
        TokenV { kind: TokenKind::Integer, literal: text },
        TokenV { kind: TokenKind::Eof, literal: seq!['\0'] },
    ]);

    // The literal reads back as the value it was rendered from.
    assert(crate::digits::unsigned_part(text) == text) by {
        assert(crate::digits::is_dec_digit(text[0]));
    };
    assert(crate::digits::spec_parse_i64(text) == Some(v));
    assert(spec_prefix_value(toks, 0) == (PRes {
        node: Some(AstV::Integer { value: v }),
        pos: 0nat,
        errs: Seq::<Seq<char>>::empty(),
    })) by {
        assert(cur_of(toks, 0) == toks[0]);
    };

    lemma_program_of_single_leaf(toks, AstV::Integer { value: v });
    assert(crate::ast::spec_render(AstV::Integer { value: v }) == text);
    lemma_render_single_statement(AstV::Integer { value: v }, text);
}

/// Round trip on boolean-literal programs: rendering either boolean as a
/// program text and parsing that text back yields a program with no
/// diagnostics whose canonical rendering is the same text.
pub proof fn lemma_round_trip_boolean_literal(b: bool)
    ensures
        ({
            let text = if b {
                "true"@
            } else {
                "false"@
            };
            spec_parse_source(text).errs == Seq::<Seq<char>>::empty()
                && crate::ast::spec_render(
                AstV::Program { statements: spec_parse_source(text).stmts },
            ) == text
        }),
{
    reveal_strlit("let");
    reveal_strlit("fn");
    reveal_strlit("if");
    reveal_strlit("else");
    reveal_strlit("return");
    reveal_strlit("true");
    reveal_strlit("false");
    let text = if b {
        "true"@
    } else {
        "false"@
    };
    assert(forall|i: int|
        0 <= i < text.len() ==> crate::lexer::is_letter_char(#[trigger] text[i]));
    crate::lexer::lemma_tokens_of_letter_run(text);
    let toks = spec_tokens(crate::lexer::spec_new_lexer(text));
    let kind = if b {
        TokenKind::True
    } else {
        TokenKind::False
    };
    assert(crate::lexer::keyword_kind(text) == kind);
    assert(toks == seq![
        TokenV { kind: kind, literal: text },
        TokenV { kind: TokenKind::Eof, literal: seq!['\0'] },
    ]);
    assert(spec_prefix_value(toks, 0) == (PRes {
        node: Some(AstV::Boolean { value: b }),
        pos: 0nat,
        errs: Seq::<Seq<char>>::empty(),
    })) by {
        assert(cur_of(toks, 0) == toks[0]);
    };
    lemma_program_of_single_leaf(toks, AstV::Boolean { value: b });
    assert(crate::ast::spec_render(AstV::Boolean { value: b }) == text);
    lemma_render_single_statement(AstV::Boolean { value: b }, text);
}

/// Round trip on identifier programs: rendering any identifier — a
/// nonempty run of identifier characters that is none of the seven
/// keywords — as a program text and parsing that text back yields a
/// program with no diagnostics whose canonical rendering is the same
/// text.
pub proof fn lemma_round_trip_identifier(name: Seq<char>)
    requires
        1 <= name.len() <= usize::MAX - 2,
        forall|i: int| 0 <= i < name.len() ==> crate::lexer::is_letter_char(#[trigger] name[i]),
        name != "let"@,
        name != "fn"@,
        name != "if"@,
        name != "else"@,
        name != "return"@,
        name != "true"@,
        name != "false"@,
    ensures
        spec_parse_source(name).errs == Seq::<Seq<char>>::empty(),
        crate::ast::spec_render(AstV::Program { statements: spec_parse_source(name).stmts })
            == name,
{
    crate::lexer::lemma_tokens_of_letter_run(name);
    let toks = spec_tokens(crate::lexer::spec_new_lexer(name));
    assert(crate::lexer::keyword_kind(name) == TokenKind::Identifier);
    assert(toks == seq![
        TokenV { kind: TokenKind::Identifier, literal: name },
        TokenV { kind: TokenKind::Eof, literal: seq!['\0'] },
    ]);
    assert(spec_prefix_value(toks, 0) == (PRes {
        node: Some(AstV::Identifier { value: name }),
        pos: 0nat,
        errs: Seq::<Seq<char>>::empty(),
    })) by {
        assert(cur_of(toks, 0) == toks[0]);
    };
    lemma_program_of_single_leaf(toks, AstV::Identifier { value: name });
    assert(crate::ast::spec_render(AstV::Identifier { value: name }) == name);
    lemma_render_single_statement(AstV::Identifier { value: name }, name);
}

/// The model of an optional tree.
pub open spec fn opt_view(o: Option<Ast>) -> Option<AstV> {
    match o {
        Some(a) => Some(a@),
        None => None,
    }
}

impl Parser {
    /// The kind of the token under the cursor.
    fn cur_kind(&self) -> (k: TokenKind)
        requires
            parser_wf(self@),
        ensures
            k == cur_of(self@.tokens, self@.pos).kind,
    {
        self.tokens[self.pos].kind
    }

    /// The kind of the token one past the cursor.
    fn peek_kind(&self) -> (k: TokenKind)
        requires
            parser_wf(self@),
        ensures
            k == peek_of(self@.tokens, self@.pos).kind,
    {
        let n = self.tokens.len();
        if self.pos + 1 < n {
            self.tokens[self.pos + 1].kind
        } else {
            self.tokens[n - 1].kind
        }
    }

    /// A copy of the literal text of the token under the cursor.
    fn cur_literal(&self) -> (s: String)
        requires
            parser_wf(self@),
        ensures
            s@ == cur_of(self@.tokens, self@.pos).literal,
    {
        self.tokens[self.pos].literal.clone()
    }

    /// Whether the token under the cursor has the given kind.
    fn cur_token_is(&self, kind: TokenKind) -> (r: bool)
        requires
            parser_wf(self@),
        ensures
            r == (cur_of(self@.tokens, self@.pos).kind == kind),
    {
        self.cur_kind() == kind
    }

    /// Whether the token one past the cursor has the given kind.
    fn peek_token_is(&self, kind: TokenKind) -> (r: bool)
        requires
            parser_wf(self@),
        ensures
            r == (peek_of(self@.tokens, self@.pos).kind == kind),
    {
        self.peek_kind() == kind
    }

    /// The infix binding strength of the token under the cursor.
    fn cur_precedence(&self) -> (r: Precedence)
        requires
            parser_wf(self@),
        ensures
            spec_prec_level(r) == prec_of_kind(cur_of(self@.tokens, self@.pos).kind),
    {
        precedences(self.cur_kind())
    }

    /// The infix binding strength of the token one past the cursor.
    fn peek_precedence(&self) -> (r: Precedence)
        requires
            parser_wf(self@),
        ensures
            spec_prec_level(r) == prec_of_kind(peek_of(self@.tokens, self@.pos).kind),
    {
        precedences(self.peek_kind())
    }

    /// Steps the cursor one token on, saturating at the final token.
    fn next_token(&mut self)
        requires
            parser_wf(old(self)@),
        ensures
            parser_wf(final(self)@),
            final(self)@.tokens == old(self)@.tokens,
            final(self)@.errors == old(self)@.errors,
            final(self)@.pos == adv_pos(old(self)@.tokens, old(self)@.pos),
    {
        let n = self.tokens.len();
        if self.pos + 1 < n {
            self.pos = self.pos + 1;
        }
    }

    /// Records the diagnostic for a missing required token.
    fn peek_error(&mut self, kind: TokenKind)
        requires
            parser_wf(old(self)@),
        ensures
            parser_wf(final(self)@),
            final(self)@.tokens == old(self)@.tokens,
            final(self)@.pos == old(self)@.pos,
            final(self)@.errors == old(self)@.errors + seq![
                peek_err_msg(old(self)@.tokens, old(self)@.pos, kind),
            ],
    {
        let mut msg = String::new();
        msg.append("expected next token to be ");
        msg.append(kind.literal().as_str());
        msg.append(", got ");
        msg.append(self.peek_kind().literal().as_str());
        msg.append(" instead");
        proof {
            assert(msg@ =~= peek_err_msg(self@.tokens, self@.pos, kind));
        }
        self.errors.push(msg);
        proof {
            assert(self@.errors =~= old(self)@.errors + seq![
                peek_err_msg(old(self)@.tokens, old(self)@.pos, kind),
            ]);
        }
    }

    /// Records the diagnostic for a token no pattern matches.
    #[allow(dead_code)]
    fn parse_error(&mut self)
        requires
            parser_wf(old(self)@),
        ensures
            parser_wf(final(self)@),
            final(self)@.tokens == old(self)@.tokens,
            final(self)@.pos == old(self)@.pos,
            final(self)@.errors == old(self)@.errors + seq![
                no_pattern_msg(cur_of(old(self)@.tokens, old(self)@.pos).literal),
            ],
    {
        let mut msg = String::new();
        msg.append("there is no matching pattern for ");
        msg.append(self.cur_literal().as_str());
        msg.append(" found");
        proof {
            assert(msg@ =~= no_pattern_msg(cur_of(self@.tokens, self@.pos).literal));
        }
        self.errors.push(msg);
        proof {
            assert(self@.errors =~= old(self)@.errors + seq![
                no_pattern_msg(cur_of(old(self)@.tokens, old(self)@.pos).literal),
            ]);
        }
    }

    /// Records the diagnostic for an expression start with no prefix
    /// parse rule.
    fn no_prefix_parse_fn_error(&mut self, kind: TokenKind)
        requires
            parser_wf(old(self)@),
        ensures
            parser_wf(final(self)@),
            final(self)@.tokens == old(self)@.tokens,
            final(self)@.pos == old(self)@.pos,
            final(self)@.errors == old(self)@.errors + seq![no_prefix_msg(kind)],
    {
        let mut msg = String::new();
        msg.append("no prefix parse function for ");
        msg.append(kind.literal().as_str());
        msg.append(" found");
        proof {
            assert(msg@ =~= no_prefix_msg(kind));
        }
        self.errors.push(msg);
        proof {
            assert(self@.errors =~= old(self)@.errors + seq![no_prefix_msg(kind)]);
        }
    }

    /// Steps past the peeked token when it has the required kind; else
    /// records the missing-token diagnostic and stays put.
    fn expect_peek(&mut self, kind: TokenKind) -> (r: bool)
        requires
            parser_wf(old(self)@),
        ensures
            parser_wf(final(self)@),
            final(self)@.tokens == old(self)@.tokens,
            r == (peek_of(old(self)@.tokens, old(self)@.pos).kind == kind),
            r ==> final(self)@.pos == adv_pos(old(self)@.tokens, old(self)@.pos)
                && final(self)@.errors == old(self)@.errors,
            !r ==> final(self)@.pos == old(self)@.pos && final(self)@.errors == old(self)@.errors
                + seq![peek_err_msg(old(self)@.tokens, old(self)@.pos, kind)],
    {
        if self.peek_token_is(kind) {
            self.next_token();
            return true;
        }
        self.peek_error(kind);
        false
    }

    /// An identifier expression from the token under the cursor.
    fn parse_identifier(&self) -> (r: Option<Ast>)
        requires
            parser_wf(self@),
        ensures
            opt_view(r) == Some(
                AstV::Identifier { value: cur_of(self@.tokens, self@.pos).literal },
            ),
    {
        Some(Ast::Identifier { value: Box::new(self.cur_literal()) })
    }

    /// An integer literal from the token under the cursor; no expression
    /// when its text does not read as a 64-bit integer.
    fn parse_integer_literal(&self) -> (r: Option<Ast>)
        requires
            parser_wf(self@),
        ensures
            opt_view(r) == (match spec_parse_i64(cur_of(self@.tokens, self@.pos).literal) {
                Some(v) => Some(AstV::Integer { value: v }),
                None => None::<AstV>,
            }),
    {
        let lit = self.cur_literal();
        let value = match str_to_i64(lit.as_str()) {
            Some(value) => value,
            None => {
                return None;
            },
        };
        Some(Ast::Integer { value })
    }

    /// A boolean literal from the token under the cursor.
    fn parse_boolean_literal(&self) -> (r: Option<Ast>)
        requires
            parser_wf(self@),
        ensures
            opt_view(r) == Some(
                AstV::Boolean { value: cur_of(self@.tokens, self@.pos).kind is True },
            ),
    {
        Some(Ast::Boolean { value: self.cur_token_is(TokenKind::True) })
    }

    /// A string literal from the token under the cursor.
    fn parse_string_literal(&self) -> (r: Option<Ast>)
        requires
            parser_wf(self@),
        ensures
            opt_view(r) == Some(
                AstV::StringLiteral { value: cur_of(self@.tokens, self@.pos).literal },
            ),
    {
        Some(Ast::StringLiteral { value: Box::new(self.cur_literal()) })
    }

    /// Parses one statement, dispatching on the token under the cursor.
    fn parse_statement(&mut self) -> (r: Option<Ast>)
        requires
            parser_wf(old(self)@),
        ensures
            parser_wf(final(self)@),
            final(self)@.tokens == old(self)@.tokens,
            old(self)@.pos <= final(self)@.pos,
            ({
                let s = spec_parse_statement(old(self)@.tokens, old(self)@.pos);
                final(self)@.pos == s.pos && final(self)@.errors == old(self)@.errors + s.errs
                    && opt_view(r) == s.node
            }),
        decreases spec_rem(self@.tokens, self@.pos), 90int,
    {
        let k = self.cur_kind();
        match k {
            TokenKind::Let => self.parse_let_statement(),
            TokenKind::Return => self.parse_return_statement(),
            _ => self.parse_expression_statement(),
        }
    }

    /// Parses a let statement: a required identifier, a required `=`,
    /// the value expression, and an optional semicolon.
    fn parse_let_statement(&mut self) -> (r: Option<Ast>)
        requires
            parser_wf(old(self)@),
        ensures
            parser_wf(final(self)@),
            final(self)@.tokens == old(self)@.tokens,
            old(self)@.pos <= final(self)@.pos,
            ({
                let s = spec_parse_let(old(self)@.tokens, old(self)@.pos);
                final(self)@.pos == s.pos && final(self)@.errors == old(self)@.errors + s.errs
                    && opt_view(r) == s.node
            }),
        decreases spec_rem(self@.tokens, self@.pos), 80int,
    {
        if !self.expect_peek(TokenKind::Identifier) {
            return None;
        }
        let identifier = Box::new(Ast::Identifier { value: Box::new(self.cur_literal()) });
        proof {
            assert((*identifier)@ == AstV::Identifier {
                value: cur_of(self@.tokens, self@.pos).literal,
            });
        }
        if !self.expect_peek(TokenKind::Assign) {
            return None;
        }
        self.next_token();
        let value = match self.parse_expression(Precedence::Lowest) {
            Some(value) => Box::new(value),
            None => {
                return None;
            },
        };
        if self.peek_token_is(TokenKind::Semicolon) {
            self.next_token();
        }
        Some(Ast::LetStatement { identifier: identifier, value: value })
    }

    /// Parses a return statement: the value expression and an optional
    /// semicolon.
    fn parse_return_statement(&mut self) -> (r: Option<Ast>)
        requires
            parser_wf(old(self)@),
        ensures
            parser_wf(final(self)@),
            final(self)@.tokens == old(self)@.tokens,
            old(self)@.pos <= final(self)@.pos,
            ({
                let s = spec_parse_return(old(self)@.tokens, old(self)@.pos);
                final(self)@.pos == s.pos && final(self)@.errors == old(self)@.errors + s.errs
                    && opt_view(r) == s.node
            }),
        decreases spec_rem(self@.tokens, self@.pos), 80int,
    {
        self.next_token();
        let return_value = match self.parse_expression(Precedence::Lowest) {
            Some(value) => Box::new(value),
            None => {
                return None;
            },
        };
        if self.peek_token_is(TokenKind::Semicolon) {
            self.next_token();
        }
        Some(Ast::ReturnStatement { return_value: return_value })
    }

    /// Parses an expression statement: one expression at lowest
    /// precedence and an optional terminating semicolon.
    fn parse_expression_statement(&mut self) -> (r: Option<Ast>)
        requires
            parser_wf(old(self)@),
        ensures
            parser_wf(final(self)@),
            final(self)@.tokens == old(self)@.tokens,
            old(self)@.pos <= final(self)@.pos,
            ({
                let s = spec_parse_expression_statement(old(self)@.tokens, old(self)@.pos);
                final(self)@.pos == s.pos && final(self)@.errors == old(self)@.errors + s.errs
                    && opt_view(r) == s.node
            }),
        decreases spec_rem(self@.tokens, self@.pos), 80int,
    {
        let expression = match self.parse_expression(Precedence::Lowest) {
            Some(value) => Box::new(value),
            None => {
                return None;
            },
        };
        if self.peek_token_is(TokenKind::Semicolon) {
            self.next_token();
        }
        Some(Ast::ExpressionStatement { expression: expression })
    }

    /// Parses one expression at a binding floor: the prefix rule for the
    /// token under the cursor, then infix folding while the peeked
    /// operator binds tighter than the floor.
    #[verifier::loop_isolation(false)]
    #[verifier::rlimit(60)]
    fn parse_expression(&mut self, precedence: Precedence) -> (r: Option<Ast>)
        requires
            parser_wf(old(self)@),
        ensures
            parser_wf(final(self)@),
            final(self)@.tokens == old(self)@.tokens,
            old(self)@.pos <= final(self)@.pos,
            ({
                let s = spec_parse_expression(
                    old(self)@.tokens,
                    old(self)@.pos,
                    spec_prec_level(precedence),
                );
                final(self)@.pos == s.pos && final(self)@.errors == old(self)@.errors + s.errs
                    && opt_view(r) == s.node
            }),
        decreases spec_rem(self@.tokens, self@.pos), 70int,
    {
        let ghost toks = self@.tokens;
        let ghost pos0 = self@.pos;
        let ghost mp = spec_prec_level(precedence);
        let ghost h = spec_prefix_value(toks, pos0);
        let k = self.cur_kind();
        let mut left_exp: Option<Ast>;
        match k {
            TokenKind::Identifier => {
                left_exp = self.parse_identifier();
            },
            TokenKind::Integer => {
                left_exp = self.parse_integer_literal();
            },
            TokenKind::True | TokenKind::False => {
                left_exp = self.parse_boolean_literal();
            },
            TokenKind::String => {
                left_exp = self.parse_string_literal();
            },
            TokenKind::Bang | TokenKind::Minus => {
                left_exp = self.parse_prefix_expression();
            },
            TokenKind::Lparen => {
                left_exp = self.parse_grouped_expression();
            },
            TokenKind::If => {
                left_exp = self.parse_if_expression();
            },
            TokenKind::Function => {
                left_exp = self.parse_function_literal();
            },
            TokenKind::Lbracket => {
                left_exp = self.parse_array_literal();
            },
            _ => {
                self.no_prefix_parse_fn_error(k);
                return None;
            },
        }
        proof {
            assert(self@.pos == h.pos && self@.errors == old(self)@.errors + h.errs && opt_view(
                left_exp,
            ) == h.node) by {
                assert(old(self)@.errors + Seq::<Seq<char>>::empty() =~= old(self)@.errors);
            };
        }
        let ghost hq = self@;
        let ghost target = spec_pratt(toks, hq.pos, mp, h.node);
        while !self.peek_token_is(TokenKind::Semicolon) && prec_level(precedence) < prec_level(
            self.peek_precedence(),
        )
            invariant
                parser_wf(self@),
                self@.tokens == toks,
                hq.pos <= self@.pos,
                ({
                    let rec = spec_pratt(toks, self@.pos, mp, opt_view(left_exp));
                    target.node == rec.node && target.pos == rec.pos && self@.errors + rec.errs
                        == hq.errors + target.errs
                }),
            decreases spec_rem(toks, self@.pos),
        {
            let pk = self.peek_kind();
            let ghost pre = self@;
            let ghost lv = opt_view(left_exp);
            let ghost rec_pre = spec_pratt(toks, pre.pos, mp, lv);
            match pk {
                TokenKind::Plus | TokenKind::Minus | TokenKind::Asterisk | TokenKind::Slash
                    | TokenKind::Eq | TokenKind::NotEq | TokenKind::Lt | TokenKind::Gt => {
                    left_exp = self.parse_infix_expression(left_exp);
                    proof {
                        let step = spec_parse_infix(toks, pre.pos, lv);
                        let rec_now = spec_pratt(toks, self@.pos, mp, opt_view(left_exp));
                        assert(clamp_pos(toks, pre.pos + 1, step.pos) == self@.pos);
                        assert(rec_pre.errs == step.errs + rec_now.errs);
                        assert(self@.errors + rec_now.errs =~= pre.errors + rec_pre.errs);
                        assert(self@.errors + rec_now.errs =~= hq.errors + target.errs);
                    }
                },
                TokenKind::Lparen => {
                    left_exp = self.parse_call_expression(left_exp);
                    proof {
                        let step = spec_parse_call(toks, pre.pos, lv);
                        let rec_now = spec_pratt(toks, self@.pos, mp, opt_view(left_exp));
                        assert(clamp_pos(toks, pre.pos + 1, step.pos) == self@.pos);
                        assert(rec_pre.errs == step.errs + rec_now.errs);
                        assert(self@.errors + rec_now.errs =~= pre.errors + rec_pre.errs);
                        assert(self@.errors + rec_now.errs =~= hq.errors + target.errs);
                    }
                },
                TokenKind::Lbracket => {
                    left_exp = self.parse_index_expression(left_exp);
                    proof {
                        let step = spec_parse_index(toks, pre.pos, lv);
                        let rec_now = spec_pratt(toks, self@.pos, mp, opt_view(left_exp));
                        assert(clamp_pos(toks, pre.pos + 1, step.pos) == self@.pos);
                        assert(rec_pre.errs == step.errs + rec_now.errs);
                        assert(self@.errors + rec_now.errs =~= pre.errors + rec_pre.errs);
                        assert(self@.errors + rec_now.errs =~= hq.errors + target.errs);
                    }
                },
                _ => {
                    proof {
                        assert(rec_pre == PRes {
                            node: lv,
                            pos: pre.pos,
                            errs: Seq::<Seq<char>>::empty(),
                        });
                        assert(self@.errors + rec_pre.errs =~= self@.errors);
                        assert(self@.errors == hq.errors + target.errs);
                        assert(old(self)@.errors + (h.errs + target.errs) =~= (old(self)@.errors
                            + h.errs) + target.errs);
                    }
                    return left_exp;
                },
            }
        }
        proof {
            let rec = spec_pratt(toks, self@.pos, mp, opt_view(left_exp));
            assert(rec == PRes {
                node: opt_view(left_exp),
                pos: self@.pos,
                errs: Seq::<Seq<char>>::empty(),
            });
            assert(self@.errors + rec.errs =~= self@.errors);
            assert(self@.errors == hq.errors + target.errs);
            assert(old(self)@.errors + (h.errs + target.errs) =~= (old(self)@.errors + h.errs)
                + target.errs);
        }
        left_exp
    }

    /// Parses a prefix operator expression: the operator under the
    /// cursor and its operand at prefix precedence.
    fn parse_prefix_expression(&mut self) -> (r: Option<Ast>)
        requires
            parser_wf(old(self)@),
            cur_of(old(self)@.tokens, old(self)@.pos).kind != TokenKind::Eof,
        ensures
            parser_wf(final(self)@),
            final(self)@.tokens == old(self)@.tokens,
            old(self)@.pos <= final(self)@.pos,
            ({
                let s = spec_parse_prefix_expr(old(self)@.tokens, old(self)@.pos);
                final(self)@.pos == s.pos && final(self)@.errors == old(self)@.errors + s.errs
                    && opt_view(r) == s.node
            }),
        decreases spec_rem(self@.tokens, self@.pos), 50int,
    {
        let operator = Box::new(self.cur_literal());
        self.next_token();
        let right = match self.parse_expression(Precedence::Prefix) {
            Some(value) => Box::new(value),
            None => {
                return None;
            },
        };
        Some(Ast::PrefixExpression { operator: operator, right: right })
    }

    /// Parses a parenthesized group: an inner expression at lowest
    /// precedence and a required closing parenthesis.
    fn parse_grouped_expression(&mut self) -> (r: Option<Ast>)
        requires
            parser_wf(old(self)@),
            cur_of(old(self)@.tokens, old(self)@.pos).kind != TokenKind::Eof,
        ensures
            parser_wf(final(self)@),
            final(self)@.tokens == old(self)@.tokens,
            old(self)@.pos <= final(self)@.pos,
            ({
                let s = spec_parse_grouped(old(self)@.tokens, old(self)@.pos);
                final(self)@.pos == s.pos && final(self)@.errors == old(self)@.errors + s.errs
                    && opt_view(r) == s.node
            }),
        decreases spec_rem(self@.tokens, self@.pos), 50int,
    {
        self.next_token();
        let grouped_expression = self.parse_expression(Precedence::Lowest);
        if !self.expect_peek(TokenKind::Rparen) {
            return None;
        }
        grouped_expression
    }

    /// Parses a conditional: a required parenthesized condition, a
    /// required braced body, and an optional `else` block.
    #[verifier::rlimit(60)]
    fn parse_if_expression(&mut self) -> (r: Option<Ast>)
        requires
            parser_wf(old(self)@),
        ensures
            parser_wf(final(self)@),
            final(self)@.tokens == old(self)@.tokens,
            old(self)@.pos <= final(self)@.pos,
            ({
                let s = spec_parse_if(old(self)@.tokens, old(self)@.pos);
                final(self)@.pos == s.pos && final(self)@.errors == old(self)@.errors + s.errs
                    && opt_view(r) == s.node
            }),
        decreases spec_rem(self@.tokens, self@.pos), 50int,
    {
        if !self.expect_peek(TokenKind::Lparen) {
            return None;
        }
        let condition = match self.parse_grouped_expression() {
            Some(value) => Box::new(value),
            None => {
                return None;
            },
        };
        if !self.expect_peek(TokenKind::Lbrace) {
            proof {
                let s = spec_parse_if(old(self)@.tokens, old(self)@.pos);
                assert(final(self)@.errors =~= old(self)@.errors + s.errs);
            }
            return None;
        }
        let body = match self.parse_block_statement() {
            Some(value) => Box::new(value),
            None => {
                proof {
                    let s = spec_parse_if(old(self)@.tokens, old(self)@.pos);
                    assert(final(self)@.errors =~= old(self)@.errors + s.errs);
                }
                return None;
            },
        };
        let mut alternative: Option<Box<Ast>> = None;
        if self.peek_token_is(TokenKind::Else) {
            self.next_token();
            if !self.expect_peek(TokenKind::Lbrace) {
                proof {
                    let s = spec_parse_if(old(self)@.tokens, old(self)@.pos);
                    assert(final(self)@.errors =~= old(self)@.errors + s.errs);
                }
                return None;
            }
            alternative = match self.parse_block_statement() {
                Some(value) => Some(Box::new(value)),
                None => {
                    proof {
                        let s = spec_parse_if(old(self)@.tokens, old(self)@.pos);
                        assert(final(self)@.errors =~= old(self)@.errors + s.errs);
                    }
                    return None;
                },
            };
            proof {
                let s = spec_parse_if(old(self)@.tokens, old(self)@.pos);
                assert(self@.errors =~= old(self)@.errors + s.errs);
            }
        } else {
            proof {
                let s = spec_parse_if(old(self)@.tokens, old(self)@.pos);
                assert(self@.errors =~= old(self)@.errors + s.errs);
            }
        }
        Some(Ast::IfExpression { condition: condition, body: body, alternative: alternative })
    }

    /// Parses a braced block: statements until the closing brace,
    /// failing the whole block when any statement fails.
    #[verifier::rlimit(100)]
    #[verifier::spinoff_prover]
    #[verifier::loop_isolation(false)]
    fn parse_block_statement(&mut self) -> (r: Option<Ast>)
        requires
            parser_wf(old(self)@),
            cur_of(old(self)@.tokens, old(self)@.pos).kind != TokenKind::Eof,
        ensures
            parser_wf(final(self)@),
            final(self)@.tokens == old(self)@.tokens,
            old(self)@.pos <= final(self)@.pos,
            ({
                let s = spec_parse_block(old(self)@.tokens, old(self)@.pos);
                final(self)@.pos == s.pos && final(self)@.errors == old(self)@.errors + s.errs
                    && opt_view(r) == s.node
            }),
        decreases spec_rem(self@.tokens, self@.pos), 50int,
    {
        let ghost toks = self@.tokens;
        self.next_token();
        let ghost start = self@;
        let ghost target = spec_block_items(toks, start.pos);
        let mut statements: Vec<Box<Ast>> = Vec::new();
        while !self.cur_token_is(TokenKind::Rbrace) && !self.peek_token_is(TokenKind::Eof)
            invariant
                parser_wf(self@),
                self@.tokens == toks,
                start.pos <= self@.pos,
                ({
                    let rec = spec_block_items(toks, self@.pos);
                    target.pos == rec.pos && self@.errors + rec.errs == start.errors + target.errs
                        && (match rec.items {
                        Some(xs) => target.items == Some(
                            crate::ast::view_nodes(statements@) + xs,
                        ),
                        None => target.items is None,
                    })
                }),
            decreases spec_rem(toks, self@.pos),
        {
            let ghost pre = self@;
            let ghost rec_pre = spec_block_items(toks, pre.pos);
            let ghost s = spec_parse_statement(toks, pre.pos);
            match self.parse_statement() {
                Some(value) => {
                    let ghost vs_pre = statements@;
                    proof {
                        crate::ast::lemma_view_nodes(vs_pre);
                    }
                    statements.push(Box::new(value));
                    proof {
                        crate::ast::lemma_view_nodes(statements@);
                        assert(statements@.drop_last() =~= vs_pre);
                    }
                    self.next_token();
                    proof {
                        let rec_now = spec_block_items(toks, self@.pos);
                        assert(rec_pre.errs == s.errs + rec_now.errs);
                        assert(self@.errors + rec_now.errs =~= pre.errors + rec_pre.errs);
                        match rec_now.items {
                            Some(xs) => {
                                assert(crate::ast::view_nodes(statements@) =~= crate::ast::view_nodes(
                                    vs_pre,
                                ).push(value@));
                                assert(crate::ast::view_nodes(vs_pre) + (seq![value@] + xs)
                                    =~= crate::ast::view_nodes(statements@) + xs);
                            },
                            None => {},
                        }
                    }
                },
                None => {
                    proof {
                        assert(final(self)@.errors =~= old(self)@.errors + spec_parse_block(
                            old(self)@.tokens,
                            old(self)@.pos,
                        ).errs);
                    }
                    return None;
                },
            }
        }
        proof {
            let rec = spec_block_items(toks, self@.pos);
            assert(rec == PList {
                items: Some(Seq::<AstV>::empty()),
                pos: self@.pos,
                errs: Seq::<Seq<char>>::empty(),
            });
            assert(self@.errors + rec.errs =~= self@.errors);
            assert(crate::ast::view_nodes(statements@) + Seq::<AstV>::empty()
                =~= crate::ast::view_nodes(statements@));
            assert(target.items == Some(crate::ast::view_nodes(statements@)));
        }
        Some(Ast::BlockStatement { statements: Box::new(statements) })
    }

    /// Parses a function literal: a required parenthesized parameter
    /// list and a required braced body.
    fn parse_function_literal(&mut self) -> (r: Option<Ast>)
        requires
            parser_wf(old(self)@),
        ensures
            parser_wf(final(self)@),
            final(self)@.tokens == old(self)@.tokens,
            old(self)@.pos <= final(self)@.pos,
            ({
                let s = spec_parse_function(old(self)@.tokens, old(self)@.pos);
                final(self)@.pos == s.pos && final(self)@.errors == old(self)@.errors + s.errs
                    && opt_view(r) == s.node
            }),
        decreases spec_rem(self@.tokens, self@.pos), 50int,
    {
        if !self.expect_peek(TokenKind::Lparen) {
            return None;
        }
        let parameters = match self.parse_function_parameters() {
            Some(value) => Box::new(value),
            None => {
                return None;
            },
        };
        if !self.expect_peek(TokenKind::Lbrace) {
            proof {
                let s = spec_parse_function(old(self)@.tokens, old(self)@.pos);
                assert(final(self)@.errors =~= old(self)@.errors + s.errs);
            }
            return None;
        }
        let body = match self.parse_block_statement() {
            Some(value) => Box::new(value),
            None => {
                proof {
                    let s = spec_parse_function(old(self)@.tokens, old(self)@.pos);
                    assert(final(self)@.errors =~= old(self)@.errors + s.errs);
                }
                return None;
            },
        };
        proof {
            let s = spec_parse_function(old(self)@.tokens, old(self)@.pos);
            assert(self@.errors =~= old(self)@.errors + s.errs);
        }
        Some(Ast::FunctionLiteral { arguments: parameters, body: body })
    }

    /// Parses a comma-separated identifier list, empty permitted, closed
    /// by a required parenthesis.
    #[verifier::loop_isolation(false)]
    fn parse_function_parameters(&mut self) -> (r: Option<Vec<Box<Ast>>>)
        requires
            parser_wf(old(self)@),
            cur_of(old(self)@.tokens, old(self)@.pos).kind != TokenKind::Eof,
        ensures
            parser_wf(final(self)@),
            final(self)@.tokens == old(self)@.tokens,
            old(self)@.pos <= final(self)@.pos,
            ({
                let s = spec_parse_parameters(old(self)@.tokens, old(self)@.pos);
                final(self)@.pos == s.pos && final(self)@.errors == old(self)@.errors + s.errs
                    && (match r {
                    Some(v) => s.items == Some(crate::ast::view_nodes(v@)),
                    None => s.items is None,
                })
            }),
    {
        let ghost toks = self@.tokens;
        let ghost pos0 = self@.pos;
        let mut parameters: Vec<Box<Ast>> = Vec::new();
        if self.peek_token_is(TokenKind::Rparen) {
            self.next_token();
            proof {
                assert(old(self)@.errors + Seq::<Seq<char>>::empty() =~= old(self)@.errors);
                crate::ast::lemma_view_nodes(parameters@);
                assert(crate::ast::view_nodes(parameters@) =~= Seq::<AstV>::empty());
            }
            return Some(parameters);
        }
        self.next_token();
        match self.parse_identifier() {
            Some(value) => {
                proof {
                    crate::ast::lemma_view_nodes(parameters@);
                }
                parameters.push(Box::new(value));
                proof {
                    crate::ast::lemma_view_nodes(parameters@);
                    assert(parameters@.drop_last() =~= Seq::<Box<Ast>>::empty());
                }
            },
            None => {
                return None;
            },
        }
        let ghost p1 = self@.pos;
        let ghost anchor = spec_parameters_rest(toks, p1, crate::ast::view_nodes(parameters@));
        while self.peek_token_is(TokenKind::Comma)
            invariant
                parser_wf(self@),
                self@.tokens == toks,
                p1 <= self@.pos,
                self@.errors == old(self)@.errors,
                anchor == spec_parameters_rest(
                    toks,
                    self@.pos,
                    crate::ast::view_nodes(parameters@),
                ),
            decreases spec_rem(toks, self@.pos),
        {
            self.next_token();
            self.next_token();
            match self.parse_identifier() {
                Some(value) => {
                    let ghost ps_pre = parameters@;
                    proof {
                        crate::ast::lemma_view_nodes(ps_pre);
                    }
                    parameters.push(Box::new(value));
                    proof {
                        crate::ast::lemma_view_nodes(parameters@);
                        assert(parameters@.drop_last() =~= ps_pre);
                        assert(crate::ast::view_nodes(parameters@) =~= crate::ast::view_nodes(
                            ps_pre,
                        ).push(value@));
                    }
                },
                None => {
                    // parse_identifier always yields a node: this arm is
                    // unreachable, and its contract holds vacuously.
                    proof {
                        assert(false);
                    }
                    return None;
                },
            }
        }
        if !self.expect_peek(TokenKind::Rparen) {
            return None;
        }
        proof {
            assert(old(self)@.errors + Seq::<Seq<char>>::empty() =~= old(self)@.errors);
        }
        Some(parameters)
    }

    /// Parses an array literal: a bracketed expression list.
    fn parse_array_literal(&mut self) -> (r: Option<Ast>)
        requires
            parser_wf(old(self)@),
            cur_of(old(self)@.tokens, old(self)@.pos).kind != TokenKind::Eof,
        ensures
            parser_wf(final(self)@),
            final(self)@.tokens == old(self)@.tokens,
            old(self)@.pos <= final(self)@.pos,
            ({
                let s = spec_parse_array(old(self)@.tokens, old(self)@.pos);
                final(self)@.pos == s.pos && final(self)@.errors == old(self)@.errors + s.errs
                    && opt_view(r) == s.node
            }),
        decreases spec_rem(self@.tokens, self@.pos), 50int,
    {
        let elements = match self.parse_expression_list(TokenKind::Rbracket) {
            Some(value) => Box::new(value),
            None => {
                return None;
            },
        };
        Some(Ast::ArrayLiteral { elements: elements })
    }

    /// Parses a comma-separated expression list, empty permitted,
    /// finished by the required closing token; a missing closer records
    /// a diagnostic and fails the list.
    #[verifier::loop_isolation(false)]
    #[verifier::rlimit(60)]
    fn parse_expression_list(&mut self, end: TokenKind) -> (r: Option<Vec<Box<Ast>>>)
        requires
            parser_wf(old(self)@),
            cur_of(old(self)@.tokens, old(self)@.pos).kind != TokenKind::Eof,
        ensures
            parser_wf(final(self)@),
            final(self)@.tokens == old(self)@.tokens,
            old(self)@.pos <= final(self)@.pos,
            ({
                let s = spec_parse_expression_list(old(self)@.tokens, old(self)@.pos, end);
                final(self)@.pos == s.pos && final(self)@.errors == old(self)@.errors + s.errs
                    && (match r {
                    Some(v) => s.items == Some(crate::ast::view_nodes(v@)),
                    None => s.items is None,
                })
            }),
        decreases spec_rem(self@.tokens, self@.pos), 40int,
    {
        let ghost toks = self@.tokens;
        let ghost pos0 = self@.pos;
        let mut expression_list: Vec<Box<Ast>> = Vec::new();
        if self.peek_token_is(end) {
            self.next_token();
            proof {
                assert(old(self)@.errors + Seq::<Seq<char>>::empty() =~= old(self)@.errors);
                crate::ast::lemma_view_nodes(expression_list@);
                assert(crate::ast::view_nodes(expression_list@) =~= Seq::<AstV>::empty());
            }
            return Some(expression_list);
        }
        self.next_token();
        let ghost sp = spec_parse_expression(toks, self@.pos, 0);
        match self.parse_expression(Precedence::Lowest) {
            Some(value) => {
                proof {
                    crate::ast::lemma_view_nodes(expression_list@);
                }
                expression_list.push(Box::new(value));
                proof {
                    crate::ast::lemma_view_nodes(expression_list@);
                    assert(expression_list@.drop_last() =~= Seq::<Box<Ast>>::empty());
                }
            },
            None => {
                return None;
            },
        }
        let ghost efirst = sp.errs;
        let ghost p1 = self@.pos;
        let ghost anchor = spec_expression_list_rest(
            toks,
            p1,
            crate::ast::view_nodes(expression_list@),
            end,
        );
        while self.peek_token_is(TokenKind::Comma)
            invariant
                parser_wf(self@),
                self@.tokens == toks,
                p1 <= self@.pos,
                ({
                    let rec = spec_expression_list_rest(
                        toks,
                        self@.pos,
                        crate::ast::view_nodes(expression_list@),
                        end,
                    );
                    anchor.items == rec.items && anchor.pos == rec.pos && self@.errors + rec.errs
                        == old(self)@.errors + efirst + anchor.errs
                }),
            decreases spec_rem(toks, self@.pos),
        {
            let ghost pre = self@;
            let ghost acc_pre = crate::ast::view_nodes(expression_list@);
            let ghost rec_pre = spec_expression_list_rest(toks, pre.pos, acc_pre, end);
            self.next_token();
            self.next_token();
            let ghost sstep = spec_parse_expression(toks, self@.pos, 0);
            match self.parse_expression(Precedence::Lowest) {
                Some(value) => {
                    let ghost es_pre = expression_list@;
                    proof {
                        crate::ast::lemma_view_nodes(es_pre);
                    }
                    expression_list.push(Box::new(value));
                    proof {
                        crate::ast::lemma_view_nodes(expression_list@);
                        assert(expression_list@.drop_last() =~= es_pre);
                        assert(crate::ast::view_nodes(expression_list@) =~= acc_pre.push(value@));
                        let rec_now = spec_expression_list_rest(
                            toks,
                            self@.pos,
                            crate::ast::view_nodes(expression_list@),
                            end,
                        );
                        assert(rec_pre.errs == sstep.errs + rec_now.errs);
                        assert(self@.errors + rec_now.errs =~= pre.errors + rec_pre.errs);
                        assert(self@.errors + rec_now.errs =~= old(self)@.errors + efirst
                            + anchor.errs);
                    }
                },
                None => {
                    proof {
                        let s = spec_parse_expression_list(toks, pos0, end);
                        assert(final(self)@.errors =~= old(self)@.errors + s.errs);
                    }
                    return None;
                },
            }
        }
        proof {
            let rec = spec_expression_list_rest(
                toks,
                self@.pos,
                crate::ast::view_nodes(expression_list@),
                end,
            );
            assert(rec == PList {
                items: Some(crate::ast::view_nodes(expression_list@)),
                pos: self@.pos,
                errs: Seq::<Seq<char>>::empty(),
            });
            assert(self@.errors + rec.errs =~= self@.errors);
        }
        if !self.expect_peek(end) {
            proof {
                let s = spec_parse_expression_list(toks, pos0, end);
                assert(final(self)@.errors =~= old(self)@.errors + s.errs);
            }
            return None;
        }
        proof {
            let s = spec_parse_expression_list(toks, pos0, end);
            assert(final(self)@.errors =~= old(self)@.errors + s.errs);
        }
        Some(expression_list)
    }

    /// Folds the left value into an infix expression: steps onto the
    /// operator and parses the right operand with the operator's
    /// precedence as the floor.
    fn parse_infix_expression(&mut self, left_exp: Option<Ast>) -> (r: Option<Ast>)
        requires
            parser_wf(old(self)@),
            peek_of(old(self)@.tokens, old(self)@.pos).kind != TokenKind::Eof,
        ensures
            parser_wf(final(self)@),
            final(self)@.tokens == old(self)@.tokens,
            old(self)@.pos < final(self)@.pos,
            ({
                let s = spec_parse_infix(old(self)@.tokens, old(self)@.pos, opt_view(left_exp));
                final(self)@.pos == s.pos && final(self)@.errors == old(self)@.errors + s.errs
                    && opt_view(r) == s.node
            }),
        decreases spec_rem(self@.tokens, self@.pos), 20int,
    {
        self.next_token();
        let left = match left_exp {
            Some(value) => Box::new(value),
            None => {
                proof {
                    assert(old(self)@.errors + Seq::<Seq<char>>::empty() =~= old(self)@.errors);
                }
                return None;
            },
        };
        let operator = Box::new(self.cur_literal());
        let precedence = self.cur_precedence();
        self.next_token();
        let right = match self.parse_expression(precedence) {
            Some(value) => Box::new(value),
            None => {
                return None;
            },
        };
        Some(Ast::InfixExpression { left: left, operator: operator, right: right })
    }

    /// Folds the left value into a call expression: the arguments are a
    /// parenthesized expression list.
    fn parse_call_expression(&mut self, function: Option<Ast>) -> (r: Option<Ast>)
        requires
            parser_wf(old(self)@),
            peek_of(old(self)@.tokens, old(self)@.pos).kind != TokenKind::Eof,
        ensures
            parser_wf(final(self)@),
            final(self)@.tokens == old(self)@.tokens,
            old(self)@.pos < final(self)@.pos,
            ({
                let s = spec_parse_call(old(self)@.tokens, old(self)@.pos, opt_view(function));
                final(self)@.pos == s.pos && final(self)@.errors == old(self)@.errors + s.errs
                    && opt_view(r) == s.node
            }),
        decreases spec_rem(self@.tokens, self@.pos), 20int,
    {
        self.next_token();
        let function = match function {
            Some(value) => Box::new(value),
            None => {
                proof {
                    assert(old(self)@.errors + Seq::<Seq<char>>::empty() =~= old(self)@.errors);
                }
                return None;
            },
        };
        let arguments = match self.parse_expression_list(TokenKind::Rparen) {
            Some(value) => Box::new(value),
            None => {
                return None;
            },
        };
        Some(Ast::CallExpression { function: function, arguments: arguments })
    }

    /// Folds the left value into an index expression: the index is an
    /// expression at index precedence, closed by a required bracket.
    fn parse_index_expression(&mut self, left: Option<Ast>) -> (r: Option<Ast>)
        requires
            parser_wf(old(self)@),
            peek_of(old(self)@.tokens, old(self)@.pos).kind != TokenKind::Eof,
        ensures
            parser_wf(final(self)@),
            final(self)@.tokens == old(self)@.tokens,
            old(self)@.pos < final(self)@.pos,
            ({
                let s = spec_parse_index(old(self)@.tokens, old(self)@.pos, opt_view(left));
                final(self)@.pos == s.pos && final(self)@.errors == old(self)@.errors + s.errs
                    && opt_view(r) == s.node
            }),
        decreases spec_rem(self@.tokens, self@.pos), 20int,
    {
        self.next_token();
        let left = match left {
            Some(value) => Box::new(value),
            None => {
                proof {
                    assert(old(self)@.errors + Seq::<Seq<char>>::empty() =~= old(self)@.errors);
                }
                return None;
            },
        };
        self.next_token();
        let index = match self.parse_expression(Precedence::Index) {
            Some(value) => Box::new(value),
            None => {
                return None;
            },
        };
        if !self.expect_peek(TokenKind::Rbracket) {
            return None;
        }
        Some(Ast::IndexExpression { left: left, index: index })
    }

    /// A parser over the token source's whole stream, its cursor on the
    /// first token and its diagnostics list empty.
    pub fn new(lexer: Lexer) -> (parser: Parser)
        requires
            lexer_wf(lexer@),
        ensures
            parser_wf(parser@),
            parser@.tokens == spec_tokens(lexer@),
            parser@.pos == 0,
            parser@.errors == Seq::<Seq<char>>::empty(),
    {
        proof {
            crate::lexer::lemma_spec_tokens_shape(lexer@);
        }
        let ghost entry = lexer@;
        let mut lexer = lexer;
        let mut tokens: Vec<Token> = Vec::new();
        let mut done = false;
        while !done
            invariant
                lexer_wf(lexer@),
                !done ==> tokens@.map_values(|t: Token| t@) + spec_tokens(lexer@) == spec_tokens(
                    entry,
                ),
                done ==> tokens@.map_values(|t: Token| t@) == spec_tokens(entry),
            decreases (if done {
                0int
            } else {
                lexer@.input.len() - lexer@.position + 1
            }),
        {
            proof {
                crate::lexer::lemma_next_token_props(lexer@);
            }
            let ghost pre = lexer@;
            let token = lexer.next_token();
            let is_eof = token.kind == TokenKind::Eof;
            let ghost ts_pre = tokens@;
            tokens.push(token);
            if is_eof {
                done = true;
            }
            proof {
                assert(tokens@.map_values(|t: Token| t@) =~= ts_pre.map_values(|t: Token| t@)
                    + seq![spec_next_token(pre).0]);
                if !is_eof {
                    assert(ts_pre.map_values(|t: Token| t@) + (seq![spec_next_token(pre).0]
                        + spec_tokens(spec_next_token(pre).1)) =~= tokens@.map_values(
                        |t: Token| t@,
                    ) + spec_tokens(spec_next_token(pre).1));
                }
            }
        }
        let parser = Parser { tokens: tokens, pos: 0, errors: Vec::new() };
        proof {
            assert(parser@.errors =~= Seq::<Seq<char>>::empty());
        }
        parser
    }

    /// Parses the whole token stream: one statement per iteration until
    /// end-of-input. On a failed statement the parser records its
    /// diagnostics, steps past one token and continues, so the result is
    /// always a `Program` tree holding every statement that parsed; the
    /// caller must consult `errors` before trusting it.
    #[verifier::rlimit(100)]
    #[verifier::spinoff_prover]
    #[verifier::loop_isolation(false)]
    pub fn parse_program(&mut self) -> (r: Option<Ast>)
        requires
            parser_wf(old(self)@),
        ensures
            parser_wf(final(self)@),
            final(self)@.tokens == old(self)@.tokens,
            old(self)@.pos <= final(self)@.pos,
            ({
                let p = spec_parse_program(old(self)@.tokens, old(self)@.pos);
                final(self)@.pos == p.pos && final(self)@.errors == old(self)@.errors + p.errs
                    && (match r {
                    Some(a) => a@ == AstV::Program { statements: p.stmts },
                    None => false,
                })
            }),
    {
        let ghost toks = self@.tokens;
        let ghost pos0 = self@.pos;
        let ghost target = spec_program_items(toks, pos0);
        let mut statements: Vec<Box<Ast>> = Vec::new();
        while !self.cur_token_is(TokenKind::Eof)
            invariant
                parser_wf(self@),
                self@.tokens == toks,
                pos0 <= self@.pos,
                ({
                    let rec = spec_program_items(toks, self@.pos);
                    target.pos == rec.pos && self@.errors + rec.errs == old(self)@.errors
                        + target.errs && target.stmts == crate::ast::view_nodes(statements@)
                        + rec.stmts
                }),
            decreases spec_rem(toks, self@.pos),
        {
            let ghost pre = self@;
            let ghost rec_pre = spec_program_items(toks, pre.pos);
            let ghost s = spec_parse_statement(toks, pre.pos);
            match self.parse_statement() {
                Some(value) => {
                    let ghost vs_pre = statements@;
                    proof {
                        crate::ast::lemma_view_nodes(vs_pre);
                    }
                    statements.push(Box::new(value));
                    proof {
                        crate::ast::lemma_view_nodes(statements@);
                        assert(statements@.drop_last() =~= vs_pre);
                    }
                    self.next_token();
                    proof {
                        let rec_now = spec_program_items(toks, self@.pos);
                        assert(rec_pre.errs == s.errs + rec_now.errs);
                        assert(self@.errors + rec_now.errs =~= pre.errors + rec_pre.errs);
                        assert(crate::ast::view_nodes(statements@) =~= crate::ast::view_nodes(
                            vs_pre,
                        ).push(value@));
                        assert(crate::ast::view_nodes(vs_pre) + (seq![value@] + rec_now.stmts)
                            =~= crate::ast::view_nodes(statements@) + rec_now.stmts);
                    }
                },
                None => {
                    self.next_token();
                    proof {
                        let rec_now = spec_program_items(toks, self@.pos);
                        assert(rec_pre.errs == s.errs + rec_now.errs);
                        assert(self@.errors + rec_now.errs =~= pre.errors + rec_pre.errs);
                    }
                },
            }
        }
        proof {
            let rec = spec_program_items(toks, self@.pos);
            assert(rec == PProgram {
                stmts: Seq::<AstV>::empty(),
                pos: self@.pos,
                errs: Seq::<Seq<char>>::empty(),
            });
            assert(self@.errors + rec.errs =~= self@.errors);
            assert(crate::ast::view_nodes(statements@) + Seq::<AstV>::empty()
                =~= crate::ast::view_nodes(statements@));
        }
        let program = Ast::Program { statements: Box::new(statements) };
        Some(program)
    }
}



} // verus!
