//! The reference rewriter: every read of an exported binding becomes a
//! property access on the exports object.

use vstd::prelude::*;
use crate::ast::{views, Id, Ident, Kind, Node, Tree};
use crate::ident_set::IdentSet;

verus! {

/// The identifier of the exports object in the given syntax context.
pub open spec fn exports_handle(ctxt: u32) -> Id {
    ("exports"@, ctxt)
}

/// `handle.name`: a property of the exports object.
pub open spec fn member_of(handle: Id, name: Seq<char>) -> Tree {
    Tree::Member { obj: Box::new(Tree::Ident(handle)), prop: name }
}

/// The comma expression `(0, t)`, which has the value of `t` and hands no
/// receiver to a call.
pub open spec fn indirect(t: Tree) -> Tree {
    Tree::Other { kind: Kind::Comma, children: seq![Tree::Num(0), t] }
}

/// Whether `t` is a plain read of an identifier in `ids`.
pub open spec fn is_exported_read(ids: Set<Id>, t: Tree) -> bool {
    t is Ident && ids.contains(t->Ident_0)
}

/// A callee or a tag after the pass: rewritten like any expression, and
/// called indirectly where it was a plain read of an identifier in `ids`.
pub open spec fn rewrite_callee(ids: Set<Id>, handle: Id, t: Tree) -> Tree
    decreases t, 1int,
{
    if is_exported_read(ids, t) {
        indirect(rewrite(ids, handle, t))
    } else {
        rewrite(ids, handle, t)
    }
}

/// A list of trees after the pass.
pub open spec fn rewrite_all(ids: Set<Id>, handle: Id, s: Seq<Tree>) -> Seq<Tree>
    decreases s, 0int,
{
    Seq::new(
        s.len(),
        |i: int|
            if 0 <= i < s.len() {
                rewrite(ids, handle, s[i])
            } else {
                Tree::Num(0)
            },
    )
}

/// A tree after the pass.
pub open spec fn rewrite(ids: Set<Id>, handle: Id, t: Tree) -> Tree
    decreases t, 0int,
{
    match t {
        Tree::Ident(id) => if ids.contains(id) {
            member_of(handle, id.0)
        } else {
            t
        },
        Tree::Shorthand(id) => if ids.contains(id) {
            Tree::KeyValue { key: id.0, value: Box::new(member_of(handle, id.0)) }
        } else {
            t
        },
        Tree::KeyValue { key, value } => Tree::KeyValue {
            key,
            value: Box::new(rewrite(ids, handle, *value)),
        },
        Tree::Member { obj, prop } => Tree::Member {
            obj: Box::new(rewrite(ids, handle, *obj)),
            prop,
        },
        Tree::Call { callee, args } => Tree::Call {
            callee: Box::new(rewrite_callee(ids, handle, *callee)),
            args: rewrite_all(ids, handle, args),
        },
        Tree::OptCall { callee, args } => Tree::OptCall {
            callee: Box::new(rewrite_callee(ids, handle, *callee)),
            args: rewrite_all(ids, handle, args),
        },
        Tree::TaggedTpl { tag, quasis, exprs } => Tree::TaggedTpl {
            tag: Box::new(rewrite_callee(ids, handle, *tag)),
            quasis,
            exprs: rewrite_all(ids, handle, exprs),
        },
        Tree::Other { kind, children } => Tree::Other {
            kind,
            children: rewrite_all(ids, handle, children),
        },
        Tree::Binding(_) | Tree::Str(_) | Tree::Num(_) => t,
    }
}

/// Whether no identifier of `ids` is read by a plain identifier or by a
/// shorthand property anywhere in `t`. Identifiers in declaration position
/// do not count.
pub open spec fn reads_none(ids: Set<Id>, t: Tree) -> bool
    decreases t,
{
    match t {
        Tree::Ident(id) => !ids.contains(id),
        Tree::Shorthand(id) => !ids.contains(id),
        Tree::KeyValue { key, value } => reads_none(ids, *value),
        Tree::Member { obj, prop } => reads_none(ids, *obj),
        Tree::Call { callee, args } => reads_none(ids, *callee) && forall|i: int|
            0 <= i < args.len() ==> reads_none(ids, #[trigger] args[i]),
        Tree::OptCall { callee, args } => reads_none(ids, *callee) && forall|i: int|
            0 <= i < args.len() ==> reads_none(ids, #[trigger] args[i]),
        Tree::TaggedTpl { tag, quasis, exprs } => reads_none(ids, *tag) && forall|i: int|
            0 <= i < exprs.len() ==> reads_none(ids, #[trigger] exprs[i]),
        Tree::Other { kind, children } => forall|i: int|
            0 <= i < children.len() ==> reads_none(ids, #[trigger] children[i]),
        Tree::Binding(_) | Tree::Str(_) | Tree::Num(_) => true,
    }
}

/// The object that a call of `callee` hands to the function as its
/// receiver: the object of a property access, and nothing for any other
/// expression.
pub open spec fn implicit_receiver(callee: Tree) -> Option<Tree> {
    match callee {
        Tree::Member { obj, prop } => Some(*obj),
        Tree::Other { kind: Kind::Index, children } => if children.len() == 2 {
            Some(children[0])
        } else {
            None
        },
        _ => None,
    }
}

/// The expression whose value a call of `callee` invokes: the last operand
/// of a comma expression, and the callee itself otherwise.
pub open spec fn invoked(callee: Tree) -> Tree {
    match callee {
        Tree::Other { kind: Kind::Comma, children } => if children.len() > 0 {
            children.last()
        } else {
            callee
        },
        _ => callee,
    }
}

/// A read of an identifier in `ids` becomes the property of the exports
/// object with the same name, and a shorthand property of it keeps its key
/// and gets that property as its value.
pub proof fn lemma_read_becomes_property(ids: Set<Id>, handle: Id, id: Id)
    requires
        ids.contains(id),
    ensures
        rewrite(ids, handle, Tree::Ident(id)) == member_of(handle, id.0),
        rewrite(ids, handle, Tree::Shorthand(id)) == (Tree::KeyValue {
            key: id.0,
            value: Box::new(member_of(handle, id.0)),
        }),
        rewrite_callee(ids, handle, Tree::Ident(id)) == indirect(member_of(handle, id.0)),
{
}

/// A call, an optional call and a tagged template whose callee or tag read
/// an identifier in `ids` invoke `(0, exports.name)` after the pass: the
/// value of the property, with no receiver. Their arguments and
/// expressions keep their number and order, each rewritten, and the text
/// of a template stays.
pub proof fn lemma_indirect_call_forms(
    ids: Set<Id>,
    handle: Id,
    id: Id,
    quasis: Seq<Seq<char>>,
    args: Seq<Tree>,
)
    requires
        ids.contains(id),
    ensures
        rewrite(ids, handle, Tree::Call { callee: Box::new(Tree::Ident(id)), args })
            == (Tree::Call {
            callee: Box::new(indirect(member_of(handle, id.0))),
            args: rewrite_all(ids, handle, args),
        }),
        rewrite(ids, handle, Tree::OptCall { callee: Box::new(Tree::Ident(id)), args })
            == (Tree::OptCall {
            callee: Box::new(indirect(member_of(handle, id.0))),
            args: rewrite_all(ids, handle, args),
        }),
        rewrite(
            ids,
            handle,
            Tree::TaggedTpl { tag: Box::new(Tree::Ident(id)), quasis, exprs: args },
        ) == (Tree::TaggedTpl {
            tag: Box::new(indirect(member_of(handle, id.0))),
            quasis,
            exprs: rewrite_all(ids, handle, args),
        }),
        implicit_receiver(indirect(member_of(handle, id.0))) == None::<Tree>,
        invoked(indirect(member_of(handle, id.0))) == member_of(handle, id.0),
        rewrite_all(ids, handle, args).len() == args.len(),
        forall|i: int|
            0 <= i < args.len() ==> #[trigger] rewrite_all(ids, handle, args)[i] == rewrite(
                ids,
                handle,
                args[i],
            ),
{
    let w = indirect(member_of(handle, id.0));
    assert(w->children.last() == member_of(handle, id.0));
    assert(rewrite(ids, handle, Tree::Ident(id)) == member_of(handle, id.0));
    assert(rewrite_callee(ids, handle, Tree::Ident(id)) == w);
}

/// After the pass no read of an identifier in `ids` is left as a plain
/// identifier, provided that the exports object itself is not in `ids`.
pub proof fn lemma_no_plain_read_remains(ids: Set<Id>, handle: Id, t: Tree)
    requires
        !ids.contains(handle),
    ensures
        reads_none(ids, rewrite(ids, handle, t)),
        reads_none(ids, rewrite_callee(ids, handle, t)),
    decreases t,
{
    let r = rewrite(ids, handle, t);
    assert(reads_none(ids, Tree::Ident(handle)));
    match t {
        Tree::Shorthand(id) => {
            assert(reads_none(ids, member_of(handle, id.0)));
        },
        Tree::KeyValue { key, value } => {
            lemma_no_plain_read_remains(ids, handle, *value);
        },
        Tree::Member { obj, prop } => {
            lemma_no_plain_read_remains(ids, handle, *obj);
        },
        Tree::Call { callee, args } => {
            lemma_no_plain_read_remains(ids, handle, *callee);
            lemma_no_plain_read_remains_all(ids, handle, args);
        },
        Tree::OptCall { callee, args } => {
            lemma_no_plain_read_remains(ids, handle, *callee);
            lemma_no_plain_read_remains_all(ids, handle, args);
        },
        Tree::TaggedTpl { tag, quasis, exprs } => {
            lemma_no_plain_read_remains(ids, handle, *tag);
            lemma_no_plain_read_remains_all(ids, handle, exprs);
        },
        Tree::Other { kind, children } => {
            lemma_no_plain_read_remains_all(ids, handle, children);
        },
        Tree::Ident(_) | Tree::Binding(_) | Tree::Str(_) | Tree::Num(_) => {},
    }
    assert(reads_none(ids, r));
    if is_exported_read(ids, t) {
        let w = indirect(r);
        assert(w->children[0] == Tree::Num(0));
        assert(w->children[1] == r);
        assert(reads_none(ids, Tree::Num(0)));
    }
}

/// The same for each tree of a list.
pub proof fn lemma_no_plain_read_remains_all(ids: Set<Id>, handle: Id, s: Seq<Tree>)
    requires
        !ids.contains(handle),
    ensures
        rewrite_all(ids, handle, s).len() == s.len(),
        forall|i: int|
            0 <= i < s.len() ==> reads_none(ids, #[trigger] rewrite_all(ids, handle, s)[i]),
    decreases s,
{
    assert forall|i: int| 0 <= i < s.len() implies reads_none(
        ids,
        #[trigger] rewrite_all(ids, handle, s)[i],
    ) by {
        lemma_no_plain_read_remains(ids, handle, s[i]);
    }
}

/// No tree reads an identifier of the empty set.
pub proof fn lemma_reads_none_of_empty(t: Tree)
    ensures
        reads_none(Set::<Id>::empty(), t),
    decreases t,
{
    match t {
        Tree::KeyValue { key, value } => {
            lemma_reads_none_of_empty(*value);
        },
        Tree::Member { obj, prop } => {
            lemma_reads_none_of_empty(*obj);
        },
        Tree::Call { callee, args } => {
            lemma_reads_none_of_empty(*callee);
            assert forall|i: int| 0 <= i < args.len() implies reads_none(
                Set::<Id>::empty(),
                #[trigger] args[i],
            ) by {
                lemma_reads_none_of_empty(args[i]);
            }
        },
        Tree::OptCall { callee, args } => {
            lemma_reads_none_of_empty(*callee);
            assert forall|i: int| 0 <= i < args.len() implies reads_none(
                Set::<Id>::empty(),
                #[trigger] args[i],
            ) by {
                lemma_reads_none_of_empty(args[i]);
            }
        },
        Tree::TaggedTpl { tag, quasis, exprs } => {
            lemma_reads_none_of_empty(*tag);
            assert forall|i: int| 0 <= i < exprs.len() implies reads_none(
                Set::<Id>::empty(),
                #[trigger] exprs[i],
            ) by {
                lemma_reads_none_of_empty(exprs[i]);
            }
        },
        Tree::Other { kind, children } => {
            assert forall|i: int| 0 <= i < children.len() implies reads_none(
                Set::<Id>::empty(),
                #[trigger] children[i],
            ) by {
                lemma_reads_none_of_empty(children[i]);
            }
        },
        _ => {},
    }
}

/// A tree without reads of identifiers in `ids` is left as it is, so one
/// pass is enough: where the exports object is not in `ids`, a second pass
/// changes nothing.
pub proof fn lemma_one_pass_suffices(ids: Set<Id>, handle: Id, t: Tree)
    ensures
        reads_none(ids, t) ==> rewrite(ids, handle, t) == t && rewrite_callee(ids, handle, t)
            == t,
        !ids.contains(handle) ==> rewrite(ids, handle, rewrite(ids, handle, t)) == rewrite(
            ids,
            handle,
            t,
        ),
{
    if reads_none(ids, t) {
        lemma_fixed(ids, handle, t);
    }
    if !ids.contains(handle) {
        lemma_no_plain_read_remains(ids, handle, t);
        lemma_fixed(ids, handle, rewrite(ids, handle, t));
    }
}

/// A tree without reads of identifiers in `ids` is left as it is.
proof fn lemma_fixed(ids: Set<Id>, handle: Id, t: Tree)
    requires
        reads_none(ids, t),
    ensures
        rewrite(ids, handle, t) == t,
        rewrite_callee(ids, handle, t) == t,
    decreases t,
{
    match t {
        Tree::KeyValue { key, value } => {
            lemma_fixed(ids, handle, *value);
        },
        Tree::Member { obj, prop } => {
            lemma_fixed(ids, handle, *obj);
        },
        Tree::Call { callee, args } => {
            lemma_fixed(ids, handle, *callee);
            lemma_fixed_all(ids, handle, args);
        },
        Tree::OptCall { callee, args } => {
            lemma_fixed(ids, handle, *callee);
            lemma_fixed_all(ids, handle, args);
        },
        Tree::TaggedTpl { tag, quasis, exprs } => {
            lemma_fixed(ids, handle, *tag);
            lemma_fixed_all(ids, handle, exprs);
        },
        Tree::Other { kind, children } => {
            lemma_fixed_all(ids, handle, children);
        },
        _ => {},
    }
}

/// The same for each tree of a list.
proof fn lemma_fixed_all(ids: Set<Id>, handle: Id, s: Seq<Tree>)
    requires
        forall|i: int| 0 <= i < s.len() ==> reads_none(ids, #[trigger] s[i]),
    ensures
        rewrite_all(ids, handle, s) == s,
    decreases s,
{
    assert forall|i: int| 0 <= i < s.len() implies rewrite_all(ids, handle, s)[i] == s[i] by {
        lemma_fixed(ids, handle, s[i]);
    }
    assert(rewrite_all(ids, handle, s) =~= s);
}

/// Whether `id` stands in declaration position somewhere in `t`.
pub open spec fn declares(t: Tree, id: Id) -> bool
    decreases t,
{
    match t {
        Tree::Binding(b) => b == id,
        Tree::KeyValue { key, value } => declares(*value, id),
        Tree::Member { obj, prop } => declares(*obj, id),
        Tree::Call { callee, args } => declares(*callee, id) || exists|i: int|
            0 <= i < args.len() && declares(#[trigger] args[i], id),
        Tree::OptCall { callee, args } => declares(*callee, id) || exists|i: int|
            0 <= i < args.len() && declares(#[trigger] args[i], id),
        Tree::TaggedTpl { tag, quasis, exprs } => declares(*tag, id) || exists|i: int|
            0 <= i < exprs.len() && declares(#[trigger] exprs[i], id),
        Tree::Other { kind, children } => exists|i: int|
            0 <= i < children.len() && declares(#[trigger] children[i], id),
        Tree::Ident(_) | Tree::Shorthand(_) | Tree::Str(_) | Tree::Num(_) => false,
    }
}

/// An identifier in declaration position is never rewritten, whether or
/// not it is in `ids`: the pass keeps such a node as it is, and a tree
/// declares the same identifiers after the pass as before it.
pub proof fn lemma_binding_untouched(ids: Set<Id>, handle: Id, t: Tree, id: Id)
    ensures
        t is Binding ==> rewrite(ids, handle, t) == t,
        declares(rewrite(ids, handle, t), id) == declares(t, id),
        declares(rewrite_callee(ids, handle, t), id) == declares(t, id),
    decreases t,
{
    let r = rewrite(ids, handle, t);
    match t {
        Tree::Ident(x) => {
            assert(!declares(Tree::Ident(handle), id));
        },
        Tree::Shorthand(x) => {
            assert(!declares(Tree::Ident(handle), id));
            assert(!declares(member_of(handle, x.0), id));
        },
        Tree::KeyValue { key, value } => {
            lemma_binding_untouched(ids, handle, *value, id);
        },
        Tree::Member { obj, prop } => {
            lemma_binding_untouched(ids, handle, *obj, id);
        },
        Tree::Call { callee, args } => {
            lemma_binding_untouched(ids, handle, *callee, id);
            lemma_binding_untouched_all(ids, handle, args, id);
            assert(r->Call_args == rewrite_all(ids, handle, args));
        },
        Tree::OptCall { callee, args } => {
            lemma_binding_untouched(ids, handle, *callee, id);
            lemma_binding_untouched_all(ids, handle, args, id);
            assert(r->OptCall_args == rewrite_all(ids, handle, args));
        },
        Tree::TaggedTpl { tag, quasis, exprs } => {
            lemma_binding_untouched(ids, handle, *tag, id);
            lemma_binding_untouched_all(ids, handle, exprs, id);
            assert(r->exprs == rewrite_all(ids, handle, exprs));
        },
        Tree::Other { kind, children } => {
            lemma_binding_untouched_all(ids, handle, children, id);
            assert(r->children == rewrite_all(ids, handle, children));
        },
        Tree::Binding(_) | Tree::Str(_) | Tree::Num(_) => {},
    }
    assert(declares(r, id) == declares(t, id));
    if is_exported_read(ids, t) {
        let w = indirect(r);
        assert(w->children[1] == r);
        assert(!declares(w->children[0], id));
        assert(!declares(r, id));
        assert(!declares(w, id)) by {
            if declares(w, id) {
                let i = choose|i: int| 0 <= i < w->children.len() && declares(
                    #[trigger] w->children[i],
                    id,
                );
                assert(i == 0 || i == 1);
            }
        }
    }
}

/// The same for each tree of a list.
pub proof fn lemma_binding_untouched_all(ids: Set<Id>, handle: Id, s: Seq<Tree>, id: Id)
    ensures
        rewrite_all(ids, handle, s).len() == s.len(),
        forall|i: int|
            0 <= i < s.len() ==> declares(#[trigger] rewrite_all(ids, handle, s)[i], id)
                == declares(s[i], id),
        (exists|i: int|
            0 <= i < s.len() && declares(#[trigger] rewrite_all(ids, handle, s)[i], id)) == (
        exists|i: int| 0 <= i < s.len() && declares(#[trigger] s[i], id)),
    decreases s,
{
    let r = rewrite_all(ids, handle, s);
    assert forall|i: int| 0 <= i < s.len() implies declares(#[trigger] r[i], id) == declares(
        s[i],
        id,
    ) by {
        lemma_binding_untouched(ids, handle, s[i], id);
    }
    if exists|i: int| 0 <= i < s.len() && declares(#[trigger] r[i], id) {
        let i = choose|i: int| 0 <= i < s.len() && declares(#[trigger] r[i], id);
        assert(declares(s[i], id));
    }
    if exists|i: int| 0 <= i < s.len() && declares(#[trigger] s[i], id) {
        let i = choose|i: int| 0 <= i < s.len() && declares(#[trigger] s[i], id);
        assert(declares(r[i], id));
    }
}

/// A callee or tag that was a plain identifier hands over the same
/// receiver after the pass as before it, namely none, and where it read an
/// identifier of `ids` the function invoked is the property of the exports
/// object.
pub proof fn lemma_receiver_preserved(ids: Set<Id>, handle: Id, t: Tree)
    requires
        t is Ident,
    ensures
        implicit_receiver(rewrite_callee(ids, handle, t)) == implicit_receiver(t),
        implicit_receiver(t) == None::<Tree>,
        ids.contains(t->Ident_0) ==> invoked(rewrite_callee(ids, handle, t)) == member_of(
            handle,
            (t->Ident_0).0,
        ),
        !ids.contains(t->Ident_0) ==> rewrite_callee(ids, handle, t) == t,
{
    if ids.contains(t->Ident_0) {
        let w = indirect(rewrite(ids, handle, t));
        assert(w->children.last() == rewrite(ids, handle, t));
    }
}

/// The order in which the three functions that rewrite a node hand it to
/// one another: each call on the same node goes to a lower rank.
pub open spec fn expr_rank(n: Node) -> int {
    if n is Shorthand || n is KeyValue || n is TaggedTpl {
        1
    } else {
        0
    }
}

/// See `expr_rank`.
pub open spec fn prop_rank(n: Node) -> int {
    if n is Shorthand || n is KeyValue {
        0
    } else {
        2
    }
}

/// See `expr_rank`.
pub open spec fn tagged_tpl_rank(n: Node) -> int {
    if n is TaggedTpl {
        0
    } else {
        2
    }
}

/// Turns an expression into the comma expression `(0, n)`.
pub fn into_indirect(n: Node) -> (r: Node)
    ensures
        r@ == indirect(n@),
{
    let mut children: Vec<Node> = Vec::new();
    children.push(Node::Num(0));
    children.push(n);
    assert(views(children@) =~= seq![Tree::Num(0), n@]);
    Node::Other { kind: Kind::Comma, children }
}

/// Moves a node out of its place and leaves the number `0` there.
pub fn take(n: &mut Node) -> (r: Node)
    ensures
        r == *old(n),
        *final(n) == Node::Num(0),
{
    let mut taken = Node::Num(0);
    std::mem::swap(n, &mut taken);
    taken
}

/// The pass over a module: the syntax context of unbound names, and the
/// identifiers whose reads are redirected.
#[derive(Debug)]
pub struct TransformVisitor {
    pub unresolved_mark: u32,
    pub export_decl_id: IdentSet,
}

impl TransformVisitor {
    /// A pass that resolves the exports object in the context
    /// `unresolved_mark` and redirects nothing yet.
    pub fn new(unresolved_mark: u32) -> (r: TransformVisitor)
        ensures
            r.unresolved_mark == unresolved_mark,
            r.export_decl_id@ == Set::<Id>::empty(),
    {
        TransformVisitor { unresolved_mark, export_decl_id: IdentSet::new() }
    }

    /// The key of the exports object.
    pub open spec fn handle(&self) -> Id {
        exports_handle(self.unresolved_mark)
    }

    /// The identifier of the exports object.
    pub fn exports(&self) -> (r: Ident)
        ensures
            r@ == self.handle(),
    {
        Ident::new("exports", self.unresolved_mark)
    }

    /// `exports.name`, for the name of `ident`.
    pub fn make_member(&self, ident: &Ident) -> (r: Node)
        ensures
            r@ == member_of(self.handle(), ident@.0),
    {
        let obj = Node::Ident(self.exports());
        assert(obj@ == Tree::Ident(self.handle()));
        Node::Member { obj: Box::new(obj), prop: ident.sym.clone() }
    }

    /// Rewrites each node of a list in place.
    pub fn visit_mut_children(&self, nodes: &mut Vec<Node>)
        ensures
            views(final(nodes)@) == rewrite_all(
                self.export_decl_id@,
                self.handle(),
                views(old(nodes)@),
            ),
        decreases *old(nodes), 0int,
    {
        let ghost before = nodes@;
        let mut i: usize = 0;
        while i < nodes.len()
            invariant
                i <= nodes@.len(),
                nodes@.len() == before.len(),
                old(nodes)@ == before,
                forall|j: int|
                    0 <= j < i ==> (#[trigger] nodes@[j])@ == rewrite(
                        self.export_decl_id@,
                        self.handle(),
                        before[j]@,
                    ),
                forall|j: int| i <= j < nodes@.len() ==> #[trigger] nodes@[j] == before[j],
            decreases nodes@.len() - i,
        {
            assert(decreases_to!(*old(nodes) => old(nodes)@));
            assert(decreases_to!(old(nodes)@ => old(nodes)@[i as int]));
            self.visit_mut_expr(&mut nodes[i]);
            i += 1;
        }
        assert(views(nodes@) =~= rewrite_all(
            self.export_decl_id@,
            self.handle(),
            views(before),
        ));
    }

    /// Rewrites a property of an object literal. A shorthand `{x}` of a
    /// redirected `x` becomes `x: exports.x`; of another property, and of
    /// any other node, what stands below it is rewritten.
    pub fn visit_mut_prop(&self, n: &mut Node)
        ensures
            final(n)@ == rewrite(self.export_decl_id@, self.handle(), old(n)@),
        decreases *old(n), prop_rank(*old(n)),
    {
        match n {
            Node::Shorthand(ref_ident) => {
                if self.export_decl_id.contains(ref_ident) {
                    let pair = Node::KeyValue {
                        key: ref_ident.sym.clone(),
                        value: Box::new(self.make_member(ref_ident)),
                    };
                    *n = pair;
                }
            },
            Node::KeyValue { key, value } => {
                self.visit_mut_expr(value);
            },
            _ => {
                self.visit_mut_expr(n);
            },
        }
    }

    /// Rewrites a tagged template: its tag as a callee, so that a tag that
    /// read a redirected identifier is called indirectly, and its
    /// expressions in order; its text stays. Any other node is rewritten as
    /// it stands.
    pub fn visit_mut_tagged_tpl(&self, n: &mut Node)
        ensures
            final(n)@ == rewrite(self.export_decl_id@, self.handle(), old(n)@),
        decreases *old(n), tagged_tpl_rank(*old(n)),
    {
        match n {
            Node::TaggedTpl { tag, quasis, exprs } => {
                self.visit_mut_callee(tag);
                self.visit_mut_children(exprs);
            },
            _ => {
                self.visit_mut_expr(n);
            },
        }
    }

    /// Rewrites a node and everything below it.
    pub fn visit_mut_expr(&self, n: &mut Node)
        ensures
            final(n)@ == rewrite(self.export_decl_id@, self.handle(), old(n)@),
        decreases *old(n), expr_rank(*old(n)),
    {
        match n {
            Node::Ident(ref_ident) => {
                if self.export_decl_id.contains(ref_ident) {
                    let member = self.make_member(ref_ident);
                    *n = member;
                }
            },
            Node::Shorthand(_) | Node::KeyValue { .. } => {
                self.visit_mut_prop(n);
            },
            Node::TaggedTpl { .. } => {
                self.visit_mut_tagged_tpl(n);
            },
            Node::Member { obj, prop } => {
                self.visit_mut_expr(obj);
            },
            Node::Call { callee, args } => {
                self.visit_mut_callee(callee);
                self.visit_mut_children(args);
            },
            Node::OptCall { callee, args } => {
                self.visit_mut_callee(callee);
                self.visit_mut_children(args);
            },
            Node::Other { kind, children } => {
                self.visit_mut_children(children);
            },
            Node::Binding(_) | Node::Str(_) | Node::Num(_) => {},
        }
    }

    /// Rewrites a callee. One that read a redirected identifier is called
    /// indirectly, so that the call hands over no receiver.
    pub fn visit_mut_callee(&self, n: &mut Node)
        ensures
            final(n)@ == rewrite_callee(self.export_decl_id@, self.handle(), old(n)@),
        decreases *old(n), 3int,
    {
        let is_indirect_callee = match n {
            Node::Ident(ident) => self.export_decl_id.contains(ident),
            _ => false,
        };

        self.visit_mut_expr(n);

        if is_indirect_callee {
            let callee = take(n);
            *n = into_indirect(callee);
        }
    }
}

} // verus!
