use vstd::prelude::*;

use crate::token::{Token, TokenKindV, TokenV};

verus! {

/// A syntax-tree node. Every non-leaf node owns its children: the tree has
/// no sharing and no cycles.
#[derive(Debug)]
pub enum Node {
    Atom { value: Token },
    List { values: Vec<Box<Node>> },
    BinaryOp { left: Box<Node>, operator: Token, right: Box<Node> },
    UnaryOp { operator: Token, value: Box<Node> },
    FuncDeclaration { identifier: Token, arguments: Vec<Token>, body: Box<Node> },
    FuncCall { identifier: Token, parameters: Vec<Box<Node>> },
    Assignment { identifier: Token, value: Box<Node>, is_declaration: bool },
    ListAssignment { identifier: Token, index: Box<Node>, value: Box<Node> },
    Access { identifier: Token },
    Index { identifier: Token, index: Box<Node> },
    If { condition: Box<Node>, block: Box<Node>, else_block: Option<Box<Node>> },
    While { condition: Box<Node>, block: Box<Node> },
    Return { value: Box<Node> },
    Program { statements: Vec<Box<Node>> },
}

/// The mathematical model of a syntax tree: children become sequences and
/// tokens become their models.
pub enum NodeV {
    Atom { value: TokenV },
    List { values: Seq<NodeV> },
    BinaryOp { left: Box<NodeV>, operator: TokenV, right: Box<NodeV> },
    UnaryOp { operator: TokenV, value: Box<NodeV> },
    FuncDeclaration { identifier: TokenV, arguments: Seq<TokenV>, body: Box<NodeV> },
    FuncCall { identifier: TokenV, parameters: Seq<NodeV> },
    Assignment { identifier: TokenV, value: Box<NodeV>, is_declaration: bool },
    ListAssignment { identifier: TokenV, index: Box<NodeV>, value: Box<NodeV> },
    Access { identifier: TokenV },
    Index { identifier: TokenV, index: Box<NodeV> },
    If { condition: Box<NodeV>, block: Box<NodeV>, else_block: Option<Box<NodeV>> },
    While { condition: Box<NodeV>, block: Box<NodeV> },
    Return { value: Box<NodeV> },
    Program { statements: Seq<NodeV> },
}

/// The model of a node.
pub open spec fn node_view(n: Node) -> NodeV
    decreases n,
{
    match n {
        Node::Atom { value } => NodeV::Atom { value: value@ },
        Node::List { values } => NodeV::List { values: nodes_view(values@) },
        Node::BinaryOp { left, operator, right } => NodeV::BinaryOp {
            left: Box::new(node_view(*left)),
            operator: operator@,
            right: Box::new(node_view(*right)),
        },
        Node::UnaryOp { operator, value } => NodeV::UnaryOp {
            operator: operator@,
            value: Box::new(node_view(*value)),
        },
        Node::FuncDeclaration { identifier, arguments, body } => NodeV::FuncDeclaration {
            identifier: identifier@,
            arguments: arguments@.map_values(|t: Token| t@),
            body: Box::new(node_view(*body)),
        },
        Node::FuncCall { identifier, parameters } => NodeV::FuncCall {
            identifier: identifier@,
            parameters: nodes_view(parameters@),
        },
        Node::Assignment { identifier, value, is_declaration } => NodeV::Assignment {
            identifier: identifier@,
            value: Box::new(node_view(*value)),
            is_declaration,
        },
        Node::ListAssignment { identifier, index, value } => NodeV::ListAssignment {
            identifier: identifier@,
            index: Box::new(node_view(*index)),
            value: Box::new(node_view(*value)),
        },
        Node::Access { identifier } => NodeV::Access { identifier: identifier@ },
        Node::Index { identifier, index } => NodeV::Index {
            identifier: identifier@,
            index: Box::new(node_view(*index)),
        },
        Node::If { condition, block, else_block } => NodeV::If {
            condition: Box::new(node_view(*condition)),
            block: Box::new(node_view(*block)),
            else_block: match else_block {
                Some(e) => Some(Box::new(node_view(*e))),
                None => None,
            },
        },
        Node::While { condition, block } => NodeV::While {
            condition: Box::new(node_view(*condition)),
            block: Box::new(node_view(*block)),
        },
        Node::Return { value } => NodeV::Return { value: Box::new(node_view(*value)) },
        Node::Program { statements } => NodeV::Program { statements: nodes_view(statements@) },
    }
}

/// The models of a sequence of child nodes.
pub open spec fn nodes_view(s: Seq<Box<Node>>) -> Seq<NodeV>
    decreases s,
{
    if s.len() == 0 {
        Seq::empty()
    } else {
        seq![node_view(*s[0])] + nodes_view(s.subrange(1, s.len() as int))
    }
}

impl View for Node {
    type V = NodeV;

    open spec fn view(&self) -> NodeV {
        node_view(*self)
    }
}

/// `nodes_view` maps the sequence element by element.
pub proof fn lemma_nodes_view(s: Seq<Box<Node>>)
    ensures
        nodes_view(s).len() == s.len(),
        forall|i: int| 0 <= i < s.len() ==> nodes_view(s)[i] == node_view(*#[trigger] s[i]),
    decreases s.len(),
{
    if s.len() > 0 {
        let t = s.subrange(1, s.len() as int);
        lemma_nodes_view(t);
        assert forall|i: int| 0 <= i < s.len() implies nodes_view(s)[i] == node_view(
            *#[trigger] s[i],
        ) by {
            if i > 0 {
                assert(t[i - 1] == s[i]);
                assert(nodes_view(s)[i] == nodes_view(t)[i - 1]);
            }
        }
    }
}

/// A vector of well-formed children models a well-formed child sequence.
pub proof fn lemma_wf_nodes_from_vec(s: Seq<Box<Node>>)
    requires
        forall|j: int| 0 <= j < s.len() ==> wf_node(node_view(*#[trigger] s[j])),
    ensures
        wf_nodes(nodes_view(s)),
        nodes_view(s).len() == s.len(),
{
    lemma_nodes_view(s);
    assert forall|i: int| 0 <= i < nodes_view(s).len() implies wf_node(
        #[trigger] nodes_view(s)[i],
    ) by {
        assert(nodes_view(s)[i] == node_view(*s[i]));
    }
}

/// Whether a token is an identifier token.
pub open spec fn is_identifier(t: TokenV) -> bool {
    t.kind is Identifier
}

/// The name carried by an identifier token.
pub open spec fn ident_name(t: TokenV) -> Seq<char> {
    t.kind->Identifier_0
}

/// Whether a token can stand as a literal atom.
pub open spec fn is_literal(t: TokenV) -> bool {
    match t.kind {
        TokenKindV::Integer(_) => true,
        TokenKindV::Float(_) => true,
        TokenKindV::Boolean(_) => true,
        TokenKindV::Character(_) => true,
        TokenKindV::String(_) => true,
        TokenKindV::NoneLiteral => true,
        _ => false,
    }
}

/// Whether a token is one of the binary operators the evaluator accepts.
pub open spec fn is_binary_operator(t: TokenV) -> bool {
    match t.kind {
        TokenKindV::Addition => true,
        TokenKindV::Subtraction => true,
        TokenKindV::Multiplication => true,
        TokenKindV::Division => true,
        TokenKindV::Modulo => true,
        TokenKindV::Power => true,
        TokenKindV::And => true,
        TokenKindV::Or => true,
        TokenKindV::Equals => true,
        TokenKindV::NotEquals => true,
        TokenKindV::Greater => true,
        TokenKindV::GreaterEq => true,
        TokenKindV::LessThan => true,
        TokenKindV::LessThanEq => true,
        _ => false,
    }
}

/// Whether a token is one of the prefix operators the evaluator accepts.
pub open spec fn is_unary_operator(t: TokenV) -> bool {
    match t.kind {
        TokenKindV::Addition => true,
        TokenKindV::Subtraction => true,
        TokenKindV::Not => true,
        _ => false,
    }
}

/// Well-formedness of a tree: every token sits where the grammar puts it,
/// so the evaluator can destructure without failing. The parser only ever
/// builds well-formed trees.
pub open spec fn wf_node(n: NodeV) -> bool
    decreases n,
{
    match n {
        NodeV::Atom { value } => is_literal(value),
        NodeV::List { values } => wf_nodes(values),
        NodeV::BinaryOp { left, operator, right } => is_binary_operator(operator) && wf_node(
            *left,
        ) && wf_node(*right),
        NodeV::UnaryOp { operator, value } => is_unary_operator(operator) && wf_node(*value),
        NodeV::FuncDeclaration { identifier, arguments, body } => is_identifier(identifier) && (
        forall|i: int| 0 <= i < arguments.len() ==> is_identifier(#[trigger] arguments[i]))
            && wf_node(*body),
        NodeV::FuncCall { identifier, parameters } => is_identifier(identifier) && wf_nodes(
            parameters,
        ),
        NodeV::Assignment { identifier, value, is_declaration } => is_identifier(identifier)
            && wf_node(*value),
        NodeV::ListAssignment { identifier, index, value } => is_identifier(identifier) && wf_node(
            *index,
        ) && wf_node(*value),
        NodeV::Access { identifier } => is_identifier(identifier),
        NodeV::Index { identifier, index } => is_identifier(identifier) && wf_node(*index),
        NodeV::If { condition, block, else_block } => wf_node(*condition) && wf_node(*block)
            && match else_block {
            Some(e) => wf_node(*e),
            None => true,
        },
        NodeV::While { condition, block } => wf_node(*condition) && wf_node(*block),
        NodeV::Return { value } => wf_node(*value),
        NodeV::Program { statements } => wf_nodes(statements),
    }
}

/// Well-formedness of a sequence of trees.
pub open spec fn wf_nodes(s: Seq<NodeV>) -> bool
    decreases s,
{
    forall|i: int| 0 <= i < s.len() ==> wf_node(#[trigger] s[i])
}

impl Node {
    /// Rebuilds this tree, payloads included.
    pub fn duplicate(&self) -> (r: Box<Node>)
        ensures
            r@ == self@,
        decreases self,
    {
        match self {
            Node::Atom { value } => Box::new(Node::Atom { value: value.duplicate() }),
            Node::List { values } => {
                let r = Box::new(Node::List { values: duplicate_nodes(values) });
                proof {
                    lemma_nodes_view_congruent(r->List_values@, values@);
                }
                r
            },
            Node::BinaryOp { left, operator, right } => Box::new(
                Node::BinaryOp {
                    left: left.duplicate(),
                    operator: operator.duplicate(),
                    right: right.duplicate(),
                },
            ),
            Node::UnaryOp { operator, value } => Box::new(
                Node::UnaryOp { operator: operator.duplicate(), value: value.duplicate() },
            ),
            Node::FuncDeclaration { identifier, arguments, body } => {
                let args = duplicate_tokens(arguments);
                proof {
                    assert(args@.map_values(|t: Token| t@) =~= arguments@.map_values(
                        |t: Token| t@,
                    ));
                }
                Box::new(
                    Node::FuncDeclaration {
                        identifier: identifier.duplicate(),
                        arguments: args,
                        body: body.duplicate(),
                    },
                )
            },
            Node::FuncCall { identifier, parameters } => {
                let ps = duplicate_nodes(parameters);
                proof {
                    lemma_nodes_view_congruent(ps@, parameters@);
                }
                Box::new(Node::FuncCall { identifier: identifier.duplicate(), parameters: ps })
            },
            Node::Assignment { identifier, value, is_declaration } => Box::new(
                Node::Assignment {
                    identifier: identifier.duplicate(),
                    value: value.duplicate(),
                    is_declaration: *is_declaration,
                },
            ),
            Node::ListAssignment { identifier, index, value } => Box::new(
                Node::ListAssignment {
                    identifier: identifier.duplicate(),
                    index: index.duplicate(),
                    value: value.duplicate(),
                },
            ),
            Node::Access { identifier } => Box::new(
                Node::Access { identifier: identifier.duplicate() },
            ),
            Node::Index { identifier, index } => Box::new(
                Node::Index { identifier: identifier.duplicate(), index: index.duplicate() },
            ),
            Node::If { condition, block, else_block } => {
                let e = match else_block {
                    Some(b) => Some(b.duplicate()),
                    None => None,
                };
                Box::new(
                    Node::If {
                        condition: condition.duplicate(),
                        block: block.duplicate(),
                        else_block: e,
                    },
                )
            },
            Node::While { condition, block } => Box::new(
                Node::While { condition: condition.duplicate(), block: block.duplicate() },
            ),
            Node::Return { value } => Box::new(Node::Return { value: value.duplicate() }),
            Node::Program { statements } => {
                let r = Box::new(Node::Program { statements: duplicate_nodes(statements) });
                proof {
                    lemma_nodes_view_congruent(r->Program_statements@, statements@);
                }
                r
            },
        }
    }
}

/// Two child vectors whose members have equal models have equal models.
proof fn lemma_nodes_view_congruent(a: Seq<Box<Node>>, b: Seq<Box<Node>>)
    requires
        a.len() == b.len(),
        forall|i: int| 0 <= i < a.len() ==> node_view(*#[trigger] a[i]) == node_view(*b[i]),
    ensures
        nodes_view(a) == nodes_view(b),
    decreases a.len(),
{
    if a.len() > 0 {
        let ta = a.subrange(1, a.len() as int);
        let tb = b.subrange(1, b.len() as int);
        assert(forall|i: int| 0 <= i < ta.len() ==> ta[i] == a[i + 1] && tb[i] == b[i + 1]);
        lemma_nodes_view_congruent(ta, tb);
    }
}

/// Rebuilds a vector of child nodes.
fn duplicate_nodes(v: &Vec<Box<Node>>) -> (r: Vec<Box<Node>>)
    ensures
        r@.len() == v@.len(),
        forall|j: int| 0 <= j < v@.len() ==> node_view(*#[trigger] r@[j]) == node_view(*v@[j]),
    decreases v,
{
    let mut r: Vec<Box<Node>> = Vec::new();
    let mut i: usize = 0;
    while i < v.len()
        invariant
            i <= v@.len(),
            r@.len() == i,
            forall|j: int| 0 <= j < i ==> node_view(*#[trigger] r@[j]) == node_view(*v@[j]),
        decreases v@.len() - i,
    {
        let d = v[i].duplicate();
        r.push(d);
        i = i + 1;
    }
    r
}

/// Rebuilds a vector of tokens.
fn duplicate_tokens(v: &Vec<Token>) -> (r: Vec<Token>)
    ensures
        r@.len() == v@.len(),
        forall|j: int| 0 <= j < v@.len() ==> #[trigger] r@[j] == v@[j],
{
    let mut r: Vec<Token> = Vec::new();
    let mut i: usize = 0;
    while i < v.len()
        invariant
            i <= v@.len(),
            r@.len() == i,
            forall|j: int| 0 <= j < i ==> #[trigger] r@[j] == v@[j],
        decreases v@.len() - i,
    {
        let d = v[i].duplicate();
        r.push(d);
        i = i + 1;
    }
    r
}

} // verus!
