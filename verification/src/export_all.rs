//! The merge block that copies a module namespace into the exports object,
//! and what running it does.

use vstd::prelude::*;
use crate::ast::{views, Id, Ident, Kind, Node, Tree};
use crate::rewrite::TransformVisitor;

verus! {

/// A node of kind `kind` without children.
pub open spec fn leaf(kind: Kind) -> Tree {
    Tree::Other { kind, children: Seq::empty() }
}

/// A node of kind `kind` with one child.
pub open spec fn unary(kind: Kind, a: Tree) -> Tree {
    Tree::Other { kind, children: seq![a] }
}

/// A node of kind `kind` with two children.
pub open spec fn binary(kind: Kind, a: Tree, b: Tree) -> Tree {
    Tree::Other { kind, children: seq![a, b] }
}

/// A node of kind `kind` with three children.
pub open spec fn ternary(kind: Kind, a: Tree, b: Tree, c: Tree) -> Tree {
    Tree::Other { kind, children: seq![a, b, c] }
}

/// `obj.prop(arg)`.
pub open spec fn method_call(obj: Tree, prop: Seq<char>, arg: Tree) -> Tree {
    Tree::Call { callee: Box::new(Tree::Member { obj: Box::new(obj), prop }), args: seq![arg] }
}

/// `obj[key]`, where `key` is the parameter of the callback.
pub open spec fn lookup(obj: Id, key: Id) -> Tree {
    binary(Kind::Index, Tree::Ident(obj), Tree::Ident(key))
}

/// `if (test) return;`.
pub open spec fn return_if(test: Tree) -> Tree {
    binary(Kind::If, test, leaf(Kind::Return))
}

/// `key === "text"`.
pub open spec fn key_is(key: Id, text: Seq<char>) -> Tree {
    binary(Kind::StrictEq, Tree::Ident(key), Tree::Str(text))
}

/// The statement
///
/// ```text
/// Object.keys(module).forEach(function (key) {
///     if (key === "default" || key === "__esModule") return;
///     if (key in exports && exports[key] === module[key]) return;
///     exports[key] = module[key];
/// });
/// ```
///
/// where `exports` is `handle`, and every `key` is the parameter `key`
/// itself, with its name and its syntax context. `Object` is written in the
/// empty context.
pub open spec fn merge_block(handle: Id, module: Id, key: Id) -> Tree {
    let skip_reserved = return_if(
        binary(Kind::LogicalOr, key_is(key, "default"@), key_is(key, "__esModule"@)),
    );
    let skip_same = return_if(
        binary(
            Kind::LogicalAnd,
            binary(Kind::In, Tree::Ident(key), Tree::Ident(handle)),
            binary(Kind::StrictEq, lookup(handle, key), lookup(module, key)),
        ),
    );
    let copy = unary(
        Kind::ExprStmt,
        binary(Kind::Assign, lookup(handle, key), lookup(module, key)),
    );
    let callback = binary(
        Kind::Function,
        Tree::Binding(key),
        ternary(Kind::Block, skip_reserved, skip_same, copy),
    );
    unary(
        Kind::ExprStmt,
        method_call(
            method_call(Tree::Ident(("Object"@, 0u32)), "keys"@, Tree::Ident(module)),
            "forEach"@,
            callback,
        ),
    )
}

fn make_leaf(kind: Kind) -> (r: Node)
    ensures
        r@ == leaf(kind),
{
    let children: Vec<Node> = Vec::new();
    assert(views(children@) =~= Seq::<Tree>::empty());
    Node::Other { kind, children }
}

fn make_unary(kind: Kind, a: Node) -> (r: Node)
    ensures
        r@ == unary(kind, a@),
{
    let mut children: Vec<Node> = Vec::new();
    children.push(a);
    assert(views(children@) =~= seq![a@]);
    Node::Other { kind, children }
}

fn make_binary(kind: Kind, a: Node, b: Node) -> (r: Node)
    ensures
        r@ == binary(kind, a@, b@),
{
    let mut children: Vec<Node> = Vec::new();
    children.push(a);
    children.push(b);
    assert(views(children@) =~= seq![a@, b@]);
    Node::Other { kind, children }
}

fn make_ternary(kind: Kind, a: Node, b: Node, c: Node) -> (r: Node)
    ensures
        r@ == ternary(kind, a@, b@, c@),
{
    let mut children: Vec<Node> = Vec::new();
    children.push(a);
    children.push(b);
    children.push(c);
    assert(views(children@) =~= seq![a@, b@, c@]);
    Node::Other { kind, children }
}

fn make_method_call(obj: Node, prop: &str, arg: Node) -> (r: Node)
    ensures
        r@ == method_call(obj@, prop@, arg@),
{
    let mut args: Vec<Node> = Vec::new();
    args.push(arg);
    assert(views(args@) =~= seq![arg@]);
    let callee = Node::Member { obj: Box::new(obj), prop: prop.to_owned() };
    assert(callee@ == Tree::Member { obj: Box::new(obj@), prop: prop@ });
    Node::Call { callee: Box::new(callee), args }
}

fn make_read(id: &Ident) -> (r: Node)
    ensures
        r@ == Tree::Ident(id@),
{
    Node::Ident(id.clone())
}

fn make_lookup(obj: &Ident, key: &Ident) -> (r: Node)
    ensures
        r@ == lookup(obj@, key@),
{
    make_binary(Kind::Index, make_read(obj), make_read(key))
}

fn make_return_if(test: Node) -> (r: Node)
    ensures
        r@ == return_if(test@),
{
    make_binary(Kind::If, test, make_leaf(Kind::Return))
}

fn make_key_is(key: &Ident, text: &str) -> (r: Node)
    ensures
        r@ == key_is(key@, text@),
{
    make_binary(Kind::StrictEq, make_read(key), Node::Str(text.to_owned()))
}

impl TransformVisitor {
    /// The merge block for the module namespace `id`. `key_ctxt` is a
    /// syntax context that nothing else uses; the parameter of the callback
    /// is declared in it.
    pub fn export_all(&self, id: Ident, key_ctxt: u32) -> (r: Node)
        ensures
            r@ == merge_block(self.handle(), id@, ("key"@, key_ctxt)),
    {
        let mod_name = id;
        let key = Ident::new("key", key_ctxt);
        let exports = self.exports();
        let skip_reserved = make_return_if(
            make_binary(
                Kind::LogicalOr,
                make_key_is(&key, "default"),
                make_key_is(&key, "__esModule"),
            ),
        );
        let skip_same = make_return_if(
            make_binary(
                Kind::LogicalAnd,
                make_binary(Kind::In, make_read(&key), make_read(&exports)),
                make_binary(
                    Kind::StrictEq,
                    make_lookup(&exports, &key),
                    make_lookup(&mod_name, &key),
                ),
            ),
        );
        let copy = make_unary(
            Kind::ExprStmt,
            make_binary(
                Kind::Assign,
                make_lookup(&exports, &key),
                make_lookup(&mod_name, &key),
            ),
        );
        let callback = make_binary(
            Kind::Function,
            Node::Binding(key),
            make_ternary(Kind::Block, skip_reserved, skip_same, copy),
        );
        make_unary(
            Kind::ExprStmt,
            make_method_call(
                make_method_call(
                    Node::Ident(Ident::new("Object", 0)),
                    "keys",
                    make_read(&mod_name),
                ),
                "forEach",
                callback,
            ),
        )
    }
}

/// The two keys that a merge never copies.
pub open spec fn reserved_key(k: Seq<char>) -> bool {
    k == "default"@ || k == "__esModule"@
}

/// Whether running the merge block writes the key `k` of `dest`: `source`
/// has it, it is not reserved, and `dest` does not hold the same value
/// under it. An object is the map from its own enumerable keys to their
/// values.
pub open spec fn writes<V>(
    dest: Map<Seq<char>, V>,
    source: Map<Seq<char>, V>,
    k: Seq<char>,
) -> bool {
    source.dom().contains(k) && !reserved_key(k) && !(dest.dom().contains(k) && dest[k]
        == source[k])
}

/// The exports object after the merge block ran on `dest` and `source`.
pub open spec fn merged<V>(
    dest: Map<Seq<char>, V>,
    source: Map<Seq<char>, V>,
) -> Map<Seq<char>, V> {
    Map::new(
        |k: Seq<char>| dest.dom().contains(k) || writes(dest, source, k),
        |k: Seq<char>|
            if writes(dest, source, k) {
                source[k]
            } else {
                dest[k]
            },
    )
}

/// The exports object after the merge blocks of `sources` ran in order.
pub open spec fn merged_all<V>(
    dest: Map<Seq<char>, V>,
    sources: Seq<Map<Seq<char>, V>>,
) -> Map<Seq<char>, V>
    decreases sources.len(),
{
    if sources.len() == 0 {
        dest
    } else {
        merged(merged_all(dest, sources.drop_last()), sources.last())
    }
}

/// A merge copies every key of the source but the reserved ones, and keeps
/// the rest of the destination.
pub proof fn lemma_merged_values<V>(
    dest: Map<Seq<char>, V>,
    source: Map<Seq<char>, V>,
    k: Seq<char>,
)
    ensures
        source.dom().contains(k) && !reserved_key(k) ==> merged(dest, source).dom().contains(k)
            && merged(dest, source)[k] == source[k],
        !source.dom().contains(k) || reserved_key(k) ==> (merged(dest, source).dom().contains(k)
            <==> dest.dom().contains(k)),
        (!source.dom().contains(k) || reserved_key(k)) && dest.dom().contains(k) ==> merged(
            dest,
            source,
        )[k] == dest[k],
{
}

/// Running a merge block a second time on the same source writes no key
/// and leaves the exports object as it is.
pub proof fn lemma_merge_idempotent<V>(dest: Map<Seq<char>, V>, source: Map<Seq<char>, V>)
    ensures
        forall|k: Seq<char>| !writes(merged(dest, source), source, k),
        merged(merged(dest, source), source) == merged(dest, source),
{
    assert(merged(merged(dest, source), source) =~= merged(dest, source));
}

/// Of several merges, the last one that writes a key decides its value.
pub proof fn lemma_last_write_wins<V>(
    dest: Map<Seq<char>, V>,
    sources: Seq<Map<Seq<char>, V>>,
    i: int,
    k: Seq<char>,
)
    requires
        0 <= i < sources.len(),
        writes(merged_all(dest, sources.take(i)), sources[i], k),
        forall|j: int|
            i < j < sources.len() ==> !writes(
                merged_all(dest, #[trigger] sources.take(j)),
                sources[j],
                k,
            ),
    ensures
        merged_all(dest, sources).dom().contains(k),
        merged_all(dest, sources)[k] == sources[i][k],
    decreases sources.len(),
{
    let n = sources.len() as int;
    let front = sources.drop_last();
    assert(front =~= sources.take(n - 1));
    if i < n - 1 {
        assert(front.take(i) =~= sources.take(i));
        assert forall|j: int| i < j < front.len() implies !writes(
            merged_all(dest, #[trigger] front.take(j)),
            front[j],
            k,
        ) by {
            assert(front.take(j) =~= sources.take(j));
        }
        lemma_last_write_wins(dest, front, i, k);
        assert(!writes(merged_all(dest, sources.take(n - 1)), sources[n - 1], k));
    }
}

/// Where the module that is re-exported last has a key, and the key is not
/// reserved, the exports object ends with that module's value under it.
pub proof fn lemma_last_source_wins<V>(
    dest: Map<Seq<char>, V>,
    sources: Seq<Map<Seq<char>, V>>,
    k: Seq<char>,
)
    requires
        sources.len() > 0,
        sources.last().dom().contains(k),
        !reserved_key(k),
    ensures
        merged_all(dest, sources).dom().contains(k),
        merged_all(dest, sources)[k] == sources.last()[k],
{
}

} // verus!
