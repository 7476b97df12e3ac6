//! A small syntax tree for module bodies, and its mathematical view.

use vstd::prelude::*;

verus! {

/// The key of a scoped identifier: its name and the site that declared it.
pub type Id = (Seq<char>, u32);

/// An identifier together with the syntax context that resolves it.
#[derive(Debug, PartialEq, Eq)]
pub struct Ident {
    pub sym: String,
    pub ctxt: u32,
}

impl View for Ident {
    type V = Id;

    open spec fn view(&self) -> Id {
        (self.sym@, self.ctxt)
    }
}

impl Clone for Ident {
    fn clone(&self) -> (r: Self)
        ensures
            r@ == self@,
    {
        Ident { sym: self.sym.clone(), ctxt: self.ctxt }
    }
}

impl Ident {
    /// An identifier with the given name and syntax context.
    pub fn new(sym: &str, ctxt: u32) -> (r: Ident)
        ensures
            r@ == (sym@, ctxt),
    {
        Ident { sym: sym.to_owned(), ctxt }
    }
}

/// The node kinds that the pass walks through without looking at them.
#[derive(Clone, Copy, Debug, PartialEq, Eq, Structural)]
pub enum Kind {
    /// A comma expression; its value is that of the last child.
    Comma,
    /// `obj[prop]`: children are the object and the property expression.
    Index,
    /// An object literal; children are its properties.
    Object,
    /// A function expression; children are its parameters, then its body.
    Function,
    /// A block of statements.
    Block,
    /// `if (test) cons`.
    If,
    /// `return`, with at most one child.
    Return,
    /// An expression used as a statement.
    ExprStmt,
    /// `target = value`.
    Assign,
    /// A declaration; children are the binding and the initialiser.
    VarDecl,
    /// `left === right`.
    StrictEq,
    /// `left || right`.
    LogicalOr,
    /// `left && right`.
    LogicalAnd,
    /// `left in right`.
    In,
}

/// A node of the syntax tree.
#[derive(Debug, PartialEq, Eq)]
pub enum Node {
    /// An identifier in expression position: a read of a binding.
    Ident(Ident),
    /// An identifier in declaration position: a parameter, a declared name
    /// or a plain assignment target.
    Binding(Ident),
    /// The shorthand property `{x}`.
    Shorthand(Ident),
    /// The property `key: value`.
    KeyValue { key: String, value: Box<Node> },
    /// `obj.prop`.
    Member { obj: Box<Node>, prop: String },
    /// `callee(args)`.
    Call { callee: Box<Node>, args: Vec<Node> },
    /// The optional call `callee?.(args)`.
    OptCall { callee: Box<Node>, args: Vec<Node> },
    /// A tagged template: the tag, the pieces of text and the interpolated
    /// expressions.
    TaggedTpl { tag: Box<Node>, quasis: Vec<String>, exprs: Vec<Node> },
    /// A string literal.
    Str(String),
    /// A number literal.
    Num(u32),
    /// Any other node, given by its kind and children.
    Other { kind: Kind, children: Vec<Node> },
}

/// The mathematical value of a `Node`.
pub enum Tree {
    Ident(Id),
    Binding(Id),
    Shorthand(Id),
    KeyValue { key: Seq<char>, value: Box<Tree> },
    Member { obj: Box<Tree>, prop: Seq<char> },
    Call { callee: Box<Tree>, args: Seq<Tree> },
    OptCall { callee: Box<Tree>, args: Seq<Tree> },
    TaggedTpl { tag: Box<Tree>, quasis: Seq<Seq<char>>, exprs: Seq<Tree> },
    Str(Seq<char>),
    Num(u32),
    Other { kind: Kind, children: Seq<Tree> },
}

impl Node {
    /// The mathematical value of this node.
    pub open spec fn tree(&self) -> Tree
        decreases self,
    {
        match self {
            Node::Ident(i) => Tree::Ident(i@),
            Node::Binding(i) => Tree::Binding(i@),
            Node::Shorthand(i) => Tree::Shorthand(i@),
            Node::KeyValue { key, value } => Tree::KeyValue {
                key: key@,
                value: Box::new(value.tree()),
            },
            Node::Member { obj, prop } => Tree::Member { obj: Box::new(obj.tree()), prop: prop@ },
            Node::Call { callee, args } => Tree::Call {
                callee: Box::new(callee.tree()),
                args: views(args@),
            },
            Node::OptCall { callee, args } => Tree::OptCall {
                callee: Box::new(callee.tree()),
                args: views(args@),
            },
            Node::TaggedTpl { tag, quasis, exprs } => Tree::TaggedTpl {
                tag: Box::new(tag.tree()),
                quasis: texts(quasis@),
                exprs: views(exprs@),
            },
            Node::Str(s) => Tree::Str(s@),
            Node::Num(n) => Tree::Num(*n),
            Node::Other { kind, children } => Tree::Other {
                kind: *kind,
                children: views(children@),
            },
        }
    }
}

impl View for Node {
    type V = Tree;

    open spec fn view(&self) -> Tree {
        self.tree()
    }
}

/// The texts of a list of strings, in order.
pub open spec fn texts(strings: Seq<String>) -> Seq<Seq<char>> {
    Seq::new(strings.len(), |i: int| strings[i]@)
}

/// The views of a list of nodes, in order.
pub open spec fn views(nodes: Seq<Node>) -> Seq<Tree>
    decreases nodes,
{
    Seq::new(
        nodes.len(),
        |i: int|
            if 0 <= i < nodes.len() {
                nodes[i].tree()
            } else {
                Tree::Num(0)
            },
    )
}

} // verus!
