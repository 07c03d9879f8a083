//! The syntax-tree data model: a closed set of node variants for programs,
//! statements and expressions, each owning its children exclusively, with a
//! kind tag for diagnostics and a canonical renderer (`inspect`) exact
//! enough for round-trip testing.

use vstd::prelude::*;

use crate::digits::{dec_i64, i64_to_string};

verus! {

broadcast use vstd::seq::group_seq_axioms;

/// A syntax-tree node.
pub enum Ast {
    Program { statements: Box<Vec<Box<Ast>>> },
    ExpressionStatement { expression: Box<Ast> },
    LetStatement { identifier: Box<Ast>, value: Box<Ast> },
    ReturnStatement { return_value: Box<Ast> },
    Identifier { value: Box<String> },
    IfExpression { condition: Box<Ast>, body: Box<Ast>, alternative: Option<Box<Ast>> },
    BlockStatement { statements: Box<Vec<Box<Ast>>> },
    FunctionLiteral { arguments: Box<Vec<Box<Ast>>>, body: Box<Ast> },
    ArrayLiteral { elements: Box<Vec<Box<Ast>>> },
    PrefixExpression { operator: Box<String>, right: Box<Ast> },
    InfixExpression { left: Box<Ast>, operator: Box<String>, right: Box<Ast> },
    CallExpression { function: Box<Ast>, arguments: Box<Vec<Box<Ast>>> },
    IndexExpression { left: Box<Ast>, index: Box<Ast> },
    Integer { value: i64 },
    Boolean { value: bool },
    StringLiteral { value: Box<String> },
}

/// The mathematical model of a syntax-tree node: the same variants over
/// sequences and character sequences.
pub ghost enum AstV {
    Program { statements: Seq<AstV> },
    ExpressionStatement { expression: Box<AstV> },
    LetStatement { identifier: Box<AstV>, value: Box<AstV> },
    ReturnStatement { return_value: Box<AstV> },
    Identifier { value: Seq<char> },
    IfExpression { condition: Box<AstV>, body: Box<AstV>, alternative: Option<Box<AstV>> },
    BlockStatement { statements: Seq<AstV> },
    FunctionLiteral { arguments: Seq<AstV>, body: Box<AstV> },
    ArrayLiteral { elements: Seq<AstV> },
    PrefixExpression { operator: Seq<char>, right: Box<AstV> },
    InfixExpression { left: Box<AstV>, operator: Seq<char>, right: Box<AstV> },
    CallExpression { function: Box<AstV>, arguments: Seq<AstV> },
    IndexExpression { left: Box<AstV>, index: Box<AstV> },
    Integer { value: i64 },
    Boolean { value: bool },
    StringLiteral { value: Seq<char> },
}

/// The model of a node, mapping every child list to a sequence of models.
pub open spec fn view_ast(a: Ast) -> AstV
    decreases a,
{
    match a {
        Ast::Program { statements } => AstV::Program { statements: view_nodes(statements@) },
        Ast::ExpressionStatement { expression } => AstV::ExpressionStatement {
            expression: Box::new(view_ast(*expression)),
        },
        Ast::LetStatement { identifier, value } => AstV::LetStatement {
            identifier: Box::new(view_ast(*identifier)),
            value: Box::new(view_ast(*value)),
        },
        Ast::ReturnStatement { return_value } => AstV::ReturnStatement {
            return_value: Box::new(view_ast(*return_value)),
        },
        Ast::Identifier { value } => AstV::Identifier { value: value@ },
        Ast::IfExpression { condition, body, alternative } => AstV::IfExpression {
            condition: Box::new(view_ast(*condition)),
            body: Box::new(view_ast(*body)),
            alternative: match alternative {
                Some(alt) => Some(Box::new(view_ast(*alt))),
                None => None,
            },
        },
        Ast::BlockStatement { statements } => AstV::BlockStatement {
            statements: view_nodes(statements@),
        },
        Ast::FunctionLiteral { arguments, body } => AstV::FunctionLiteral {
            arguments: view_nodes(arguments@),
            body: Box::new(view_ast(*body)),
        },
        Ast::ArrayLiteral { elements } => AstV::ArrayLiteral { elements: view_nodes(elements@) },
        Ast::PrefixExpression { operator, right } => AstV::PrefixExpression {
            operator: operator@,
            right: Box::new(view_ast(*right)),
        },
        Ast::InfixExpression { left, operator, right } => AstV::InfixExpression {
            left: Box::new(view_ast(*left)),
            operator: operator@,
            right: Box::new(view_ast(*right)),
        },
        Ast::CallExpression { function, arguments } => AstV::CallExpression {
            function: Box::new(view_ast(*function)),
            arguments: view_nodes(arguments@),
        },
        Ast::IndexExpression { left, index } => AstV::IndexExpression {
            left: Box::new(view_ast(*left)),
            index: Box::new(view_ast(*index)),
        },
        Ast::Integer { value } => AstV::Integer { value },
        Ast::Boolean { value } => AstV::Boolean { value },
        Ast::StringLiteral { value } => AstV::StringLiteral { value: value@ },
    }
}

/// The models of a list of child nodes, in order.
pub open spec fn view_nodes(s: Seq<Box<Ast>>) -> Seq<AstV>
    decreases s,
{
    if s.len() == 0 {
        Seq::empty()
    } else {
        view_nodes(s.drop_last()).push(view_ast(*s.last()))
    }
}

impl View for Ast {
    type V = AstV;

    open spec fn view(&self) -> AstV {
        view_ast(*self)
    }
}

/// Child-list models are pointwise node models.
pub proof fn lemma_view_nodes(s: Seq<Box<Ast>>)
    ensures
        view_nodes(s).len() == s.len(),
        forall|i: int| 0 <= i < s.len() ==> view_nodes(s)[i] == view_ast(*s[i]),
    decreases s,
{
    if s.len() > 0 {
        lemma_view_nodes(s.drop_last());
    }
}

/// The canonical textual rendering of a node, in the language's concrete
/// syntax: every prefix and infix expression parenthesized, blocks as
/// `{ ... }`, functions as `fn(a,b){ ... }`, arrays as `[a,b]`, calls as
/// `f(a,b)`, index as `left[index]`.
pub open spec fn spec_render(a: AstV) -> Seq<char>
    decreases a,
{
    match a {
        AstV::Program { statements } => render_join(statements, ""@),
        AstV::ExpressionStatement { expression } => spec_render(*expression),
        AstV::LetStatement { identifier, value } => "let "@ + spec_render(*identifier) + " = "@
            + spec_render(*value) + ";"@,
        AstV::ReturnStatement { return_value } => "return "@ + spec_render(*return_value) + ";"@,
        AstV::Identifier { value } => value,
        AstV::IfExpression { condition, body, alternative } => "if("@ + spec_render(*condition)
            + "){ "@ + spec_render(*body) + " }"@ + (match alternative {
            Some(alt) => " else{ "@ + spec_render(*alt) + " }"@,
            None => Seq::empty(),
        }),
        AstV::BlockStatement { statements } => render_join(statements, ""@),
        AstV::FunctionLiteral { arguments, body } => "fn("@ + render_join(arguments, ","@) + "){ "@
            + spec_render(*body) + " }"@,
        AstV::ArrayLiteral { elements } => "["@ + render_join(elements, ","@) + "]"@,
        AstV::PrefixExpression { operator, right } => "("@ + operator + spec_render(*right) + ")"@,
        AstV::InfixExpression { left, operator, right } => "("@ + spec_render(*left) + " "@
            + operator + " "@ + spec_render(*right) + ")"@,
        AstV::CallExpression { function, arguments } => spec_render(*function) + "("@ + render_join(
            arguments,
            ","@,
        ) + ")"@,
        AstV::IndexExpression { left, index } => spec_render(*left) + "["@ + spec_render(*index)
            + "]"@,
        AstV::Integer { value } => dec_i64(value),
        AstV::Boolean { value } => if value {
            "true"@
        } else {
            "false"@
        },
        AstV::StringLiteral { value } => value,
    }
}

/// The renderings of a node list, joined by `sep`.
pub open spec fn render_join(s: Seq<AstV>, sep: Seq<char>) -> Seq<char>
    decreases s,
{
    if s.len() == 0 {
        Seq::empty()
    } else if s.len() == 1 {
        spec_render(s[0])
    } else {
        render_join(s.drop_last(), sep) + sep + spec_render(s.last())
    }
}

/// The kind tag of a node, as `kind` reports it.
pub open spec fn spec_node_kind(a: AstV) -> Seq<char> {
    match a {
        AstV::Program { .. } => "Program"@,
        AstV::ExpressionStatement { .. } => "ExpressionStatement"@,
        AstV::LetStatement { .. } => "LetStatement"@,
        AstV::ReturnStatement { .. } => "ReturnStatement"@,
        AstV::Identifier { .. } => "Identifier"@,
        AstV::IfExpression { .. } => "IfExpression"@,
        AstV::BlockStatement { .. } => "BlockStatement"@,
        AstV::FunctionLiteral { .. } => "FunctionLiteral"@,
        AstV::ArrayLiteral { .. } => "ArrayLiteral"@,
        AstV::PrefixExpression { .. } => "PrefixExpression"@,
        AstV::InfixExpression { .. } => "InfixExpression"@,
        AstV::CallExpression { .. } => "CallExpression"@,
        AstV::IndexExpression { .. } => "IndexExpression"@,
        AstV::Integer { .. } => "Integer"@,
        AstV::Boolean { .. } => "Boolean"@,
        AstV::StringLiteral { .. } => "StringLiteral"@,
    }
}

/// Appends the joined renderings of `nodes` to `out`, separating
/// consecutive elements with `sep`.
fn inspect_join(nodes: &Vec<Box<Ast>>, sep: &str, out: &mut String)
    ensures
        final(out)@ == old(out)@ + render_join(view_nodes(nodes@), sep@),
    decreases nodes@,
{
    proof {
        lemma_view_nodes(nodes@);
    }
    let ghost views = view_nodes(nodes@);
    let n = nodes.len();
    let mut i: usize = 0;
    while i < n
        invariant
            n == nodes@.len(),
            views == view_nodes(nodes@),
            views.len() == n,
            forall|j: int| 0 <= j < n ==> views[j] == view_ast(*nodes@[j]),
            0 <= i <= n,
            out@ == old(out)@ + render_join(views.subrange(0, i as int), sep@),
        decreases n - i,
    {
        proof {
            assert(decreases_to!(nodes@ => *nodes@[i as int]));
        }
        let piece = nodes[i].inspect();
        if i == 0 {
            out.append(piece.as_str());
        } else {
            out.append(sep);
            out.append(piece.as_str());
        }
        i = i + 1;
        proof {
            let pre = views.subrange(0, i - 1);
            let ext = views.subrange(0, i as int);
            assert(ext.drop_last() =~= pre);
            assert(ext.last() == views[i - 1]);
            if i == 1 {
                assert(ext =~= seq![views[0]]);
            }
            assert(out@ =~= old(out)@ + render_join(ext, sep@));
        }
    }
    proof {
        assert(views.subrange(0, n as int) =~= views);
    }
}

/// A deep copy of a list of child nodes, preserving each node's model.
fn clone_nodes(nodes: &Vec<Box<Ast>>) -> (r: Vec<Box<Ast>>)
    ensures
        view_nodes(r@) == view_nodes(nodes@),
    decreases nodes@,
{
    let mut r: Vec<Box<Ast>> = Vec::new();
    let n = nodes.len();
    let mut i: usize = 0;
    while i < n
        invariant
            n == nodes@.len(),
            0 <= i <= n,
            r@.len() == i,
            forall|j: int| 0 <= j < i ==> view_ast(*r@[j]) == view_ast(*nodes@[j]),
        decreases n - i,
    {
        proof {
            assert(decreases_to!(nodes@ => *nodes@[i as int]));
        }
        let copy = (*nodes[i]).clone();
        r.push(Box::new(copy));
        i = i + 1;
    }
    proof {
        lemma_view_nodes(r@);
        lemma_view_nodes(nodes@);
        assert(view_nodes(r@) =~= view_nodes(nodes@));
    }
    r
}

impl Clone for Ast {
    /// A deep copy with the same model.
    fn clone(&self) -> (r: Self)
        ensures
            r@ == self@,
        decreases *self,
    {
        match self {
            Ast::Program { statements } => Ast::Program {
                statements: Box::new(clone_nodes(statements)),
            },
            Ast::ExpressionStatement { expression } => Ast::ExpressionStatement {
                expression: Box::new((**expression).clone()),
            },
            Ast::LetStatement { identifier, value } => Ast::LetStatement {
                identifier: Box::new((**identifier).clone()),
                value: Box::new((**value).clone()),
            },
            Ast::ReturnStatement { return_value } => Ast::ReturnStatement {
                return_value: Box::new((**return_value).clone()),
            },
            Ast::Identifier { value } => Ast::Identifier {
                value: Box::new((**value).clone()),
            },
            Ast::IfExpression { condition, body, alternative } => Ast::IfExpression {
                condition: Box::new((**condition).clone()),
                body: Box::new((**body).clone()),
                alternative: match alternative {
                    Some(alt) => Some(Box::new((**alt).clone())),
                    None => None,
                },
            },
            Ast::BlockStatement { statements } => Ast::BlockStatement {
                statements: Box::new(clone_nodes(statements)),
            },
            Ast::FunctionLiteral { arguments, body } => Ast::FunctionLiteral {
                arguments: Box::new(clone_nodes(arguments)),
                body: Box::new((**body).clone()),
            },
            Ast::ArrayLiteral { elements } => Ast::ArrayLiteral {
                elements: Box::new(clone_nodes(elements)),
            },
            Ast::PrefixExpression { operator, right } => Ast::PrefixExpression {
                operator: Box::new((**operator).clone()),
                right: Box::new((**right).clone()),
            },
            Ast::InfixExpression { left, operator, right } => Ast::InfixExpression {
                left: Box::new((**left).clone()),
                operator: Box::new((**operator).clone()),
                right: Box::new((**right).clone()),
            },
            Ast::CallExpression { function, arguments } => Ast::CallExpression {
                function: Box::new((**function).clone()),
                arguments: Box::new(clone_nodes(arguments)),
            },
            Ast::IndexExpression { left, index } => Ast::IndexExpression {
                left: Box::new((**left).clone()),
                index: Box::new((**index).clone()),
            },
            Ast::Integer { value } => Ast::Integer { value: *value },
            Ast::Boolean { value } => Ast::Boolean { value: *value },
            Ast::StringLiteral { value } => Ast::StringLiteral {
                value: Box::new((**value).clone()),
            },
        }
    }
}

impl Ast {
    /// Serializes the node back to its canonical textual form.
    pub fn inspect(&self) -> (r: String)
        ensures
            r@ == spec_render(self@),
        decreases *self,
    {
        let mut out = String::new();
        match self {
            Ast::Program { statements } => {
                inspect_join(statements, "", &mut out);
                proof {
                    assert(out@ =~= spec_render(self@));
                }
            },
            Ast::ExpressionStatement { expression } => {
                out.append(expression.inspect().as_str());
                proof {
                    assert(out@ =~= spec_render(self@));
                }
            },
            Ast::LetStatement { identifier, value } => {
                out.append("let ");
                out.append(identifier.inspect().as_str());
                out.append(" = ");
                out.append(value.inspect().as_str());
                out.append(";");
                proof {
                    assert(out@ =~= spec_render(self@));
                }
            },
            Ast::ReturnStatement { return_value } => {
                out.append("return ");
                out.append(return_value.inspect().as_str());
                out.append(";");
                proof {
                    assert(out@ =~= spec_render(self@));
                }
            },
            Ast::Identifier { value } => {
                out.append(value.as_str());
                proof {
                    assert(out@ =~= spec_render(self@));
                }
            },
            Ast::IfExpression { condition, body, alternative } => {
                out.append("if(");
                out.append(condition.inspect().as_str());
                out.append("){ ");
                out.append(body.inspect().as_str());
                out.append(" }");
                if let Some(alt) = alternative {
                    out.append(" else{ ");
                    out.append(alt.inspect().as_str());
                    out.append(" }");
                    proof {
                        assert(out@ =~= spec_render(self@));
                    }
                } else {
                    proof {
                        assert(out@ =~= spec_render(self@));
                    }
                }
            },
            Ast::BlockStatement { statements } => {
                inspect_join(statements, "", &mut out);
                proof {
                    assert(out@ =~= spec_render(self@));
                }
            },
            Ast::FunctionLiteral { arguments, body } => {
                out.append("fn(");
                inspect_join(arguments, ",", &mut out);
                out.append("){ ");
                out.append(body.inspect().as_str());
                out.append(" }");
                proof {
                    assert(out@ =~= spec_render(self@));
                }
            },
            Ast::ArrayLiteral { elements } => {
                out.append("[");
                inspect_join(elements, ",", &mut out);
                out.append("]");
                proof {
                    assert(out@ =~= spec_render(self@));
                }
            },
            Ast::PrefixExpression { operator, right } => {
                out.append("(");
                out.append(operator.as_str());
                out.append(right.inspect().as_str());
                out.append(")");
                proof {
                    assert(out@ =~= spec_render(self@));
                }
            },
            Ast::InfixExpression { left, operator, right } => {
                out.append("(");
                out.append(left.inspect().as_str());
                out.append(" ");
                out.append(operator.as_str());
                out.append(" ");
                out.append(right.inspect().as_str());
                out.append(")");
                proof {
                    assert(out@ =~= spec_render(self@));
                }
            },
            Ast::CallExpression { function, arguments } => {
                out.append(function.inspect().as_str());
                out.append("(");
                inspect_join(arguments, ",", &mut out);
                out.append(")");
                proof {
                    assert(out@ =~= spec_render(self@));
                }
            },
            Ast::IndexExpression { left, index } => {
                out.append(left.inspect().as_str());
                out.append("[");
                out.append(index.inspect().as_str());
                out.append("]");
                proof {
                    assert(out@ =~= spec_render(self@));
                }
            },
            Ast::Integer { value } => {
                out.append(i64_to_string(*value).as_str());
                proof {
                    assert(out@ =~= spec_render(self@));
                }
            },
            Ast::Boolean { value } => {
                if *value {
                    out.append("true");
                } else {
                    out.append("false");
                }
                proof {
                    assert(out@ =~= spec_render(self@));
                }
            },
            Ast::StringLiteral { value } => {
                out.append(value.as_str());
                proof {
                    assert(out@ =~= spec_render(self@));
                }
            },
        }
        out
    }

    /// The node's kind tag, usable for diagnostics and pattern dispatch.
    pub fn kind(&self) -> (r: String)
        ensures
            r@ == spec_node_kind(self@),
    {
        let s: &str = match self {
            Ast::Program { .. } => "Program",
            Ast::ExpressionStatement { .. } => "ExpressionStatement",
            Ast::LetStatement { .. } => "LetStatement",
            Ast::ReturnStatement { .. } => "ReturnStatement",
            Ast::Identifier { .. } => "Identifier",
            Ast::IfExpression { .. } => "IfExpression",
            Ast::BlockStatement { .. } => "BlockStatement",
            Ast::FunctionLiteral { .. } => "FunctionLiteral",
            Ast::ArrayLiteral { .. } => "ArrayLiteral",
            Ast::PrefixExpression { .. } => "PrefixExpression",
            Ast::InfixExpression { .. } => "InfixExpression",
            Ast::CallExpression { .. } => "CallExpression",
            Ast::IndexExpression { .. } => "IndexExpression",
            Ast::Integer { .. } => "Integer",
            Ast::Boolean { .. } => "Boolean",
            Ast::StringLiteral { .. } => "StringLiteral",
        };
        s.to_owned()
    }
}

} // verus!
