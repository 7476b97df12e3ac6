//! What the merge block does when it runs, for the part of the language
//! that it is written in.

use vstd::prelude::*;
use crate::ast::{Id, Kind, Tree};
use crate::export_all::{
    lemma_last_source_wins, lemma_last_write_wins, lemma_merge_idempotent, merge_block, merged,
    merged_all, reserved_key, writes,
};
use crate::rewrite::exports_handle;

verus! {

/// A value at run time. `Other` stands for every value that is no boolean,
/// string or `undefined`; equal numbers are the same value. Every value is
/// identical to itself: the one number that is not is left out.
pub enum Value {
    Undefined,
    Bool(bool),
    Str(Seq<char>),
    Other(int),
}

/// An object: the map from its own enumerable keys to their values.
pub type Object = Map<Seq<char>, Value>;

/// The objects in scope, by the identifier of the variable that holds each:
/// its name and the site that declared it.
pub type Scope = Map<Id, Object>;

/// Whether a condition on `v` holds.
pub open spec fn truthy(v: Value) -> bool {
    match v {
        Value::Undefined => false,
        Value::Bool(b) => b,
        Value::Str(s) => s.len() > 0,
        Value::Other(_) => true,
    }
}

/// The object that the expression `t` names inside a function whose
/// parameter is `param`, if it names one.
pub open spec fn object_named(t: Tree, scope: Scope, param: Id) -> Option<Id> {
    match t {
        Tree::Ident(id) => if id != param && scope.dom().contains(id) {
            Some(id)
        } else {
            None
        },
        _ => None,
    }
}

/// The value of the expression `t` inside a function that was called with
/// the string `arg` for its parameter `param`. An identifier is resolved by
/// its name and its declaration site together: only the parameter itself
/// reads the argument. An object is no value here: it is reached by its
/// identifier in `in` and in a property lookup.
pub open spec fn eval(t: Tree, scope: Scope, param: Id, arg: Seq<char>) -> Value
    decreases t,
{
    match t {
        Tree::Ident(id) => if id == param {
            Value::Str(arg)
        } else {
            Value::Undefined
        },
        Tree::Str(s) => Value::Str(s),
        Tree::Other { kind, children } => if children.len() == 2 {
            let left = eval(children[0], scope, param, arg);
            match kind {
                Kind::StrictEq => Value::Bool(left == eval(children[1], scope, param, arg)),
                Kind::LogicalOr => if truthy(left) {
                    left
                } else {
                    eval(children[1], scope, param, arg)
                },
                Kind::LogicalAnd => if truthy(left) {
                    eval(children[1], scope, param, arg)
                } else {
                    left
                },
                Kind::In => match (left, object_named(children[1], scope, param)) {
                    (Value::Str(k), Some(o)) => Value::Bool(scope[o].dom().contains(k)),
                    _ => Value::Bool(false),
                },
                Kind::Index => match (
                    object_named(children[0], scope, param),
                    eval(children[1], scope, param, arg),
                ) {
                    (Some(o), Value::Str(k)) => if scope[o].dom().contains(k) {
                        scope[o][k]
                    } else {
                        Value::Undefined
                    },
                    _ => Value::Undefined,
                },
                _ => Value::Undefined,
            }
        } else {
            Value::Undefined
        },
        _ => Value::Undefined,
    }
}

/// The scope after the assignment `target = value`, where the target is a
/// property lookup on an object in scope.
pub open spec fn assign(
    target: Tree,
    value: Value,
    scope: Scope,
    param: Id,
    arg: Seq<char>,
) -> Scope {
    match target {
        Tree::Other { kind: Kind::Index, children } => if children.len() == 2 {
            match (object_named(children[0], scope, param), eval(children[1], scope, param, arg)) {
                (Some(o), Value::Str(k)) => scope.insert(o, scope[o].insert(k, value)),
                _ => scope,
            }
        } else {
            scope
        },
        _ => scope,
    }
}

/// The scope after the statement `t` ran, and whether it returned.
pub open spec fn run(t: Tree, scope: Scope, param: Id, arg: Seq<char>) -> (Scope, bool)
    decreases t, 0int,
{
    match t {
        Tree::Other { kind: Kind::Block, children } => run_all(children, scope, param, arg),
        Tree::Other { kind: Kind::Return, children } => (scope, true),
        Tree::Other { kind: Kind::If, children } => if children.len() == 2 && truthy(
            eval(children[0], scope, param, arg),
        ) {
            run(children[1], scope, param, arg)
        } else {
            (scope, false)
        },
        Tree::Other { kind: Kind::ExprStmt, children } => if children.len() == 1 {
            match children[0] {
                Tree::Other { kind: Kind::Assign, children: sides } => if sides.len() == 2 {
                    (
                        assign(sides[0], eval(sides[1], scope, param, arg), scope, param, arg),
                        false,
                    )
                } else {
                    (scope, false)
                },
                _ => (scope, false),
            }
        } else {
            (scope, false)
        },
        _ => (scope, false),
    }
}

/// The scope after the statements `stmts` ran in order, up to the first
/// that returned.
pub open spec fn run_all(stmts: Seq<Tree>, scope: Scope, param: Id, arg: Seq<char>) -> (
    Scope,
    bool,
)
    decreases stmts, 1int,
{
    if stmts.len() == 0 {
        (scope, false)
    } else {
        let first = run(stmts[0], scope, param, arg);
        if first.1 {
            first
        } else {
            run_all(stmts.subrange(1, stmts.len() as int), first.0, param, arg)
        }
    }
}

/// The scope after a call of the function expression `f` with the string
/// `arg`.
pub open spec fn call(f: Tree, scope: Scope, arg: Seq<char>) -> Scope {
    match f {
        Tree::Other { kind: Kind::Function, children } => if children.len() == 2
            && children[0] is Binding {
            run(children[1], scope, children[0]->Binding_0, arg).0
        } else {
            scope
        },
        _ => scope,
    }
}

/// The scope after `f` was called with each of `keys` in turn.
pub open spec fn for_each(f: Tree, scope: Scope, keys: Seq<Seq<char>>) -> Scope
    decreases keys.len(),
{
    if keys.len() == 0 {
        scope
    } else {
        call(f, for_each(f, scope, keys.drop_last()), keys.last())
    }
}

/// Takes the statement `Object.keys(m).forEach(f);` apart: the variable `m`
/// and the function `f`.
pub open spec fn for_each_own_key(t: Tree) -> Option<(Id, Tree)> {
    match t {
        Tree::Other { kind: Kind::ExprStmt, children } => if children.len() == 1 {
            match children[0] {
                Tree::Call { callee, args } => match *callee {
                    Tree::Member { obj, prop } => match *obj {
                        Tree::Call { callee: inner, args: inner_args } => if prop == "forEach"@
                            && args.len() == 1 && inner_args.len() == 1 && inner_args[0] is Ident
                            && *inner == (Tree::Member {
                            obj: Box::new(Tree::Ident(("Object"@, 0u32))),
                            prop: "keys"@,
                        }) {
                            Some((inner_args[0]->Ident_0, args[0]))
                        } else {
                            None
                        },
                        _ => None,
                    },
                    _ => None,
                },
                _ => None,
            }
        } else {
            None
        },
        _ => None,
    }
}

/// The exports object after the callback of a merge block ran for the key
/// `k`.
pub open spec fn merged_key(dest: Object, source: Object, k: Seq<char>) -> Object {
    if writes(dest, source, k) {
        dest.insert(k, source[k])
    } else {
        dest
    }
}

/// The callback of the merge block, the second part of what
/// `for_each_own_key` finds in it.
pub open spec fn callback_of(handle: Id, module: Id, key: Id) -> Tree {
    for_each_own_key(merge_block(handle, module, key))->Some_0.1
}

/// The exports object is not named like the loop variable of a merge
/// block.
pub proof fn lemma_exports_is_not_key(ctxt: u32)
    ensures
        exports_handle(ctxt).0 != "key"@,
{
    reveal_strlit("exports");
    reveal_strlit("key");
    assert("exports"@.len() == 7);
    assert("key"@.len() == 3);
}

/// The merge block is a loop over the own keys of the module namespace.
pub proof fn lemma_merge_block_is_loop(handle: Id, module: Id, key: Id)
    ensures
        for_each_own_key(merge_block(handle, module, key)) is Some,
        for_each_own_key(merge_block(handle, module, key))->Some_0.0 == module,
{
    let t = merge_block(handle, module, key);
    let c = t->children[0];
    assert(t->children.len() == 1);
    assert(c is Call);
    assert(c->Call_args.len() == 1);
    let m = *c->Call_callee;
    assert(m is Member);
    let inner = *m->obj;
    assert(inner is Call);
    assert(inner->Call_args.len() == 1);
    assert(inner->Call_args[0] == Tree::Ident(module));
}

/// One call of the callback of a merge block, for a key of the source,
/// copies that key where the merge writes it and changes nothing else.
pub proof fn lemma_callback_copies_key(
    handle: Id,
    module: Id,
    key: Id,
    scope: Scope,
    k: Seq<char>,
)
    requires
        handle != key,
        module != key,
        scope.dom().contains(handle),
        scope.dom().contains(module),
        scope[module].dom().contains(k),
    ensures
        call(callback_of(handle, module, key), scope, k) == scope.insert(
            handle,
            merged_key(scope[handle], scope[module], k),
        ),
{
    lemma_merge_block_is_loop(handle, module, key);
    let f = callback_of(handle, module, key);
    let dest = scope[handle];
    let source = scope[module];
    let p = key;
    assert(f is Other && f->kind == Kind::Function && f->children.len() == 2);
    assert(f->children[0] == Tree::Binding(key));
    let block = f->children[1];
    let stmts = block->children;
    assert(stmts.len() == 3);
    let s0 = stmts[0];
    let s1 = stmts[1];
    let s2 = stmts[2];
    let rest1 = stmts.subrange(1, 3);
    let rest2 = rest1.subrange(1, 2);
    let rest3 = rest2.subrange(1, 1);
    assert(rest1[0] == s1);
    assert(rest2[0] == s2);
    assert(rest3.len() == 0);

    // if (key === "default" || key === "__esModule") return;
    let t0 = s0->children[0];
    assert(s0->children.len() == 2 && t0->children.len() == 2);
    let a = t0->children[0];
    let b = t0->children[1];
    assert(a->children.len() == 2 && b->children.len() == 2);
    assert(eval(a->children[0], scope, p, k) == Value::Str(k));
    assert(eval(a->children[1], scope, p, k) == Value::Str("default"@));
    assert(eval(a, scope, p, k) == Value::Bool(Value::Str(k) == Value::Str("default"@)));
    assert(eval(b->children[0], scope, p, k) == Value::Str(k));
    assert(eval(b->children[1], scope, p, k) == Value::Str("__esModule"@));
    assert(eval(b, scope, p, k) == Value::Bool(Value::Str(k) == Value::Str("__esModule"@)));
    assert(truthy(eval(t0, scope, p, k)) == reserved_key(k));
    assert(s0->children[1] == Tree::Other { kind: Kind::Return, children: Seq::empty() });
    assert(run(s0->children[1], scope, p, k) == (scope, true));
    assert(run(s0, scope, p, k) == (scope, reserved_key(k)));

    // if (key in exports && exports[key] === module[key]) return;
    let t1 = s1->children[0];
    assert(s1->children.len() == 2 && t1->children.len() == 2);
    let has = t1->children[0];
    let same = t1->children[1];
    assert(has->children.len() == 2 && same->children.len() == 2);
    assert(eval(has->children[0], scope, p, k) == Value::Str(k));
    assert(object_named(has->children[1], scope, p) == Some(handle));
    assert(eval(has, scope, p, k) == Value::Bool(dest.dom().contains(k)));
    let left = same->children[0];
    let right = same->children[1];
    assert(left->children.len() == 2 && right->children.len() == 2);
    assert(object_named(left->children[0], scope, p) == Some(handle));
    assert(object_named(right->children[0], scope, p) == Some(module));
    assert(eval(left->children[1], scope, p, k) == Value::Str(k));
    assert(eval(right->children[1], scope, p, k) == Value::Str(k));
    assert(eval(right, scope, p, k) == source[k]);
    if dest.dom().contains(k) {
        assert(eval(left, scope, p, k) == dest[k]);
        assert(eval(same, scope, p, k) == Value::Bool(dest[k] == source[k]));
    }
    assert(truthy(eval(t1, scope, p, k)) == (dest.dom().contains(k) && dest[k] == source[k]));
    assert(s1->children[1] == Tree::Other { kind: Kind::Return, children: Seq::empty() });
    assert(run(s1->children[1], scope, p, k) == (scope, true));
    assert(run(s1, scope, p, k) == (scope, dest.dom().contains(k) && dest[k] == source[k]));

    // exports[key] = module[key];
    assert(s2->children.len() == 1);
    let asg = s2->children[0];
    assert(asg->children.len() == 2);
    assert(asg->children[0] == left);
    assert(asg->children[1] == right);
    assert(assign(left, source[k], scope, p, k) == scope.insert(
        handle,
        dest.insert(k, source[k]),
    ));
    assert(run(s2, scope, p, k) == (scope.insert(handle, dest.insert(k, source[k])), false));

    assert(run_all(rest3, scope.insert(handle, dest.insert(k, source[k])), p, k).1 == false);
    assert(run_all(rest2, scope, p, k).0 == scope.insert(handle, dest.insert(k, source[k])));
    if reserved_key(k) {
        assert(run_all(stmts, scope, p, k).0 == scope);
        assert(scope.insert(handle, dest) =~= scope);
    } else if dest.dom().contains(k) && dest[k] == source[k] {
        assert(run_all(rest1, scope, p, k).0 == scope);
        assert(run_all(stmts, scope, p, k).0 == scope);
        assert(scope.insert(handle, dest) =~= scope);
    } else {
        assert(run_all(rest1, scope, p, k).0 == scope.insert(
            handle,
            dest.insert(k, source[k]),
        ));
        assert(run_all(stmts, scope, p, k).0 == scope.insert(
            handle,
            dest.insert(k, source[k]),
        ));
    }
}

/// Running the callback of a merge block for some keys of the source
/// merges the part of the source under those keys.
pub proof fn lemma_for_each_merges_keys(
    handle: Id,
    module: Id,
    key: Id,
    scope: Scope,
    keys: Seq<Seq<char>>,
)
    requires
        handle != key,
        module != key,
        scope.dom().contains(handle),
        scope.dom().contains(module),
        forall|i: int| 0 <= i < keys.len() ==> scope[module].dom().contains(#[trigger] keys[i]),
    ensures
        for_each(callback_of(handle, module, key), scope, keys) == scope.insert(
            handle,
            merged(scope[handle], scope[module].restrict(keys.to_set())),
        ),
    decreases keys.len(),
{
    let f = callback_of(handle, module, key);
    let dest = scope[handle];
    let source = scope[module];
    if keys.len() == 0 {
        assert(merged(dest, source.restrict(keys.to_set())) =~= dest);
        assert(scope.insert(handle, dest) =~= scope);
    } else {
        let front = keys.drop_last();
        let k = keys.last();
        lemma_for_each_merges_keys(handle, module, key, scope, front);
        let before = merged(dest, source.restrict(front.to_set()));
        let mid = scope.insert(handle, before);
        assert(mid[module] == source);
        lemma_callback_copies_key(handle, module, key, mid, k);
        let after = merged_key(before, source, k);
        assert forall|x: Seq<char>| keys.to_set().contains(x) <==> (front.to_set().contains(x) || x
            == k) by {
            if keys.to_set().contains(x) {
                let i = choose|i: int| 0 <= i < keys.len() && keys[i] == x;
                if i < keys.len() - 1 {
                    assert(front[i] == x);
                }
            }
            if front.to_set().contains(x) {
                let i = choose|i: int| 0 <= i < front.len() && front[i] == x;
                assert(keys[i] == x);
            }
            if x == k {
                assert(keys[keys.len() - 1] == x);
            }
        }
        assert(after =~= merged(dest, source.restrict(keys.to_set())));
        assert(mid.insert(handle, after) =~= scope.insert(handle, after));
    }
}

/// Running a merge block merges the module namespace into the exports
/// object, whatever the order of the keys, and changes no other object.
/// The module namespace is not the parameter of the callback, and `keys`
/// are the own keys of the namespace.
pub proof fn lemma_merge_block_merges(
    ctxt: u32,
    module: Id,
    key_ctxt: u32,
    scope: Scope,
    keys: Seq<Seq<char>>,
)
    requires
        module != ("key"@, key_ctxt),
        scope.dom().contains(exports_handle(ctxt)),
        scope.dom().contains(module),
        forall|x: Seq<char>| keys.contains(x) <==> scope[module].dom().contains(x),
    ensures
        for_each(
            callback_of(exports_handle(ctxt), module, ("key"@, key_ctxt)),
            scope,
            keys,
        ) == scope.insert(
            exports_handle(ctxt),
            merged(scope[exports_handle(ctxt)], scope[module]),
        ),
{
    lemma_exports_is_not_key(ctxt);
    assert forall|i: int| 0 <= i < keys.len() implies scope[module].dom().contains(
        #[trigger] keys[i],
    ) by {
        assert(keys.contains(keys[i]));
    }
    lemma_for_each_merges_keys(exports_handle(ctxt), module, ("key"@, key_ctxt), scope, keys);
    assert(scope[module].restrict(keys.to_set()) =~= scope[module]);
}

/// Running a merge block a second time, while the module namespace is
/// unchanged, changes nothing: the scope stays as the first run left it.
pub proof fn lemma_merge_block_idempotent(
    ctxt: u32,
    module: Id,
    key_ctxt: u32,
    scope: Scope,
    first: Seq<Seq<char>>,
    second: Seq<Seq<char>>,
)
    requires
        module != ("key"@, key_ctxt),
        scope.dom().contains(exports_handle(ctxt)),
        scope.dom().contains(module),
        forall|x: Seq<char>| first.contains(x) <==> scope[module].dom().contains(x),
        forall|x: Seq<char>| second.contains(x) <==> scope[module].dom().contains(x),
    ensures
        ({
            let f = callback_of(exports_handle(ctxt), module, ("key"@, key_ctxt));
            for_each(f, for_each(f, scope, first), second) == for_each(f, scope, first)
        }),
{
    let f = callback_of(exports_handle(ctxt), module, ("key"@, key_ctxt));
    let dest = scope[exports_handle(ctxt)];
    let source = scope[module];
    lemma_merge_block_merges(ctxt, module, key_ctxt, scope, first);
    let once = for_each(f, scope, first);
    assert(once[module] == source);
    lemma_merge_block_merges(ctxt, module, key_ctxt, once, second);
    lemma_merge_idempotent(dest, source);
    assert(once.insert(exports_handle(ctxt), merged(dest, source)) =~= once);
}

/// After a merge block ran, the exports object holds under every key of
/// the module namespace that is not reserved the namespace's value: an
/// earlier value under that key, equal or different, is gone.
pub proof fn lemma_merge_block_overwrites(
    ctxt: u32,
    module: Id,
    key_ctxt: u32,
    scope: Scope,
    keys: Seq<Seq<char>>,
    k: Seq<char>,
)
    requires
        module != ("key"@, key_ctxt),
        scope.dom().contains(exports_handle(ctxt)),
        scope.dom().contains(module),
        forall|x: Seq<char>| keys.contains(x) <==> scope[module].dom().contains(x),
        scope[module].dom().contains(k),
        !reserved_key(k),
    ensures
        ({
            let f = callback_of(exports_handle(ctxt), module, ("key"@, key_ctxt));
            let exports = for_each(f, scope, keys)[exports_handle(ctxt)];
            exports.dom().contains(k) && exports[k] == scope[module][k]
        }),
{
    lemma_merge_block_merges(ctxt, module, key_ctxt, scope, keys);
}

/// After a merge block ran, and while the module namespace is unchanged,
/// a further call of its callback for any key of the namespace returns
/// before the assignment: it writes nothing.
pub proof fn lemma_second_run_writes_nothing(
    ctxt: u32,
    module: Id,
    key_ctxt: u32,
    scope: Scope,
    keys: Seq<Seq<char>>,
    k: Seq<char>,
)
    requires
        module != ("key"@, key_ctxt),
        scope.dom().contains(exports_handle(ctxt)),
        scope.dom().contains(module),
        forall|x: Seq<char>| keys.contains(x) <==> scope[module].dom().contains(x),
        scope[module].dom().contains(k),
    ensures
        ({
            let f = callback_of(exports_handle(ctxt), module, ("key"@, key_ctxt));
            let once = for_each(f, scope, keys);
            &&& !writes(once[exports_handle(ctxt)], once[module], k)
            &&& call(f, once, k) == once
        }),
{
    let handle = exports_handle(ctxt);
    let f = callback_of(handle, module, ("key"@, key_ctxt));
    lemma_exports_is_not_key(ctxt);
    lemma_merge_block_merges(ctxt, module, key_ctxt, scope, keys);
    lemma_merge_idempotent(scope[handle], scope[module]);
    let once = for_each(f, scope, keys);
    assert(once[module] =~= scope[module]);
    lemma_callback_copies_key(handle, module, ("key"@, key_ctxt), once, k);
    assert(once.insert(handle, once[handle]) =~= once);
}

/// The module namespaces of the wildcard re-exports, in their order.
pub open spec fn namespaces(scope: Scope, wildcards: Seq<(Id, u32)>) -> Seq<Object> {
    Seq::new(wildcards.len(), |i: int| scope[wildcards[i].0])
}

/// The scope after the merge blocks of `wildcards` ran in order, where the
/// keys of the `i`-th namespace come in the order `keys[i]`.
pub open spec fn run_merge_blocks(
    ctxt: u32,
    wildcards: Seq<(Id, u32)>,
    scope: Scope,
    keys: Seq<Seq<Seq<char>>>,
) -> Scope
    decreases wildcards.len(),
{
    if wildcards.len() == 0 || keys.len() == 0 {
        scope
    } else {
        for_each(
            callback_of(exports_handle(ctxt), wildcards.last().0, ("key"@, wildcards.last().1)),
            run_merge_blocks(ctxt, wildcards.drop_last(), scope, keys.drop_last()),
            keys.last(),
        )
    }
}

/// Whether the variable of each module namespace is in scope and is
/// neither the exports object nor the parameter of its own merge block.
pub open spec fn namespaces_in_scope(ctxt: u32, scope: Scope, wildcards: Seq<(Id, u32)>) -> bool {
    forall|i: int|
        0 <= i < wildcards.len() ==> {
            let w = #[trigger] wildcards[i];
            &&& w.0 != exports_handle(ctxt)
            &&& w.0 != ("key"@, w.1)
            &&& scope.dom().contains(w.0)
        }
}

/// Whether `keys[i]` are the own keys of the `i`-th module namespace.
pub open spec fn own_keys(
    scope: Scope,
    wildcards: Seq<(Id, u32)>,
    keys: Seq<Seq<Seq<char>>>,
) -> bool {
    &&& keys.len() == wildcards.len()
    &&& forall|i: int, x: Seq<char>|
        0 <= i < wildcards.len() ==> (keys[i].contains(x) <==> #[trigger] scope[wildcards[i].0]
            .dom().contains(x))
}

/// Running the merge blocks of several wildcard re-exports in order merges
/// their namespaces into the exports object one after the other, and
/// changes no other object.
pub proof fn lemma_merge_blocks_merge_in_order(
    ctxt: u32,
    wildcards: Seq<(Id, u32)>,
    scope: Scope,
    keys: Seq<Seq<Seq<char>>>,
)
    requires
        scope.dom().contains(exports_handle(ctxt)),
        namespaces_in_scope(ctxt, scope, wildcards),
        own_keys(scope, wildcards, keys),
    ensures
        run_merge_blocks(ctxt, wildcards, scope, keys) == scope.insert(
            exports_handle(ctxt),
            merged_all(scope[exports_handle(ctxt)], namespaces(scope, wildcards)),
        ),
    decreases wildcards.len(),
{
    let dest = scope[exports_handle(ctxt)];
    if wildcards.len() == 0 {
        assert(scope.insert(exports_handle(ctxt), dest) =~= scope);
    } else {
        let front = wildcards.drop_last();
        let last = wildcards.last();
        assert(namespaces_in_scope(ctxt, scope, front)) by {
            assert forall|i: int| 0 <= i < front.len() implies {
                let w = #[trigger] front[i];
                &&& w.0 != exports_handle(ctxt)
                &&& w.0 != ("key"@, w.1)
                &&& scope.dom().contains(w.0)
            } by {
                assert(front[i] == wildcards[i]);
            }
        }
        assert(own_keys(scope, front, keys.drop_last())) by {
            assert forall|i: int, x: Seq<char>| 0 <= i < front.len() implies (keys.drop_last()[i]
                .contains(x) <==> #[trigger] scope[front[i].0].dom().contains(x)) by {
                assert(front[i] == wildcards[i]);
                assert(keys.drop_last()[i] == keys[i]);
            }
        }
        lemma_merge_blocks_merge_in_order(ctxt, front, scope, keys.drop_last());
        let prev = run_merge_blocks(ctxt, front, scope, keys.drop_last());
        let n = wildcards.len() - 1;
        assert(last == wildcards[n]);
        assert(prev[last.0] == scope[last.0]);
        assert forall|x: Seq<char>| keys.last().contains(x) <==> prev[last.0].dom().contains(
            x,
        ) by {
            assert(keys.last() == keys[n]);
            assert(keys[n].contains(x) <==> scope[wildcards[n].0].dom().contains(x));
        }
        lemma_merge_block_merges(ctxt, last.0, last.1, prev, keys.last());
        assert(namespaces(scope, wildcards).drop_last() =~= namespaces(scope, front));
        assert(namespaces(scope, wildcards).last() == scope[last.0]);
        assert(prev.insert(
            exports_handle(ctxt),
            merged(merged_all(dest, namespaces(scope, front)), scope[last.0]),
        ) =~= scope.insert(exports_handle(ctxt), merged_all(dest, namespaces(scope, wildcards))));
    }
}

/// Of several wildcard re-exports, the last whose merge block writes a key
/// decides the value that the exports object ends with under that key.
pub proof fn lemma_last_differing_export_wins(
    ctxt: u32,
    wildcards: Seq<(Id, u32)>,
    scope: Scope,
    keys: Seq<Seq<Seq<char>>>,
    i: int,
    k: Seq<char>,
)
    requires
        scope.dom().contains(exports_handle(ctxt)),
        namespaces_in_scope(ctxt, scope, wildcards),
        own_keys(scope, wildcards, keys),
        0 <= i < wildcards.len(),
        writes(
            merged_all(scope[exports_handle(ctxt)], namespaces(scope, wildcards).take(i)),
            scope[wildcards[i].0],
            k,
        ),
        forall|j: int|
            i < j < wildcards.len() ==> !writes(
                merged_all(
                    scope[exports_handle(ctxt)],
                    #[trigger] namespaces(scope, wildcards).take(j),
                ),
                scope[wildcards[j].0],
                k,
            ),
    ensures
        run_merge_blocks(ctxt, wildcards, scope, keys)[exports_handle(ctxt)].dom().contains(k),
        run_merge_blocks(ctxt, wildcards, scope, keys)[exports_handle(ctxt)][k]
            == scope[wildcards[i].0][k],
{
    lemma_merge_blocks_merge_in_order(ctxt, wildcards, scope, keys);
    lemma_last_write_wins(scope[exports_handle(ctxt)], namespaces(scope, wildcards), i, k);
}

/// Where the module that is re-exported last has a key that is not
/// reserved, the exports object ends with that module's value under it,
/// whatever the earlier modules hold there.
pub proof fn lemma_last_export_with_key_wins(
    ctxt: u32,
    wildcards: Seq<(Id, u32)>,
    scope: Scope,
    keys: Seq<Seq<Seq<char>>>,
    k: Seq<char>,
)
    requires
        scope.dom().contains(exports_handle(ctxt)),
        namespaces_in_scope(ctxt, scope, wildcards),
        own_keys(scope, wildcards, keys),
        wildcards.len() > 0,
        scope[wildcards.last().0].dom().contains(k),
        !reserved_key(k),
    ensures
        run_merge_blocks(ctxt, wildcards, scope, keys)[exports_handle(ctxt)].dom().contains(k),
        run_merge_blocks(ctxt, wildcards, scope, keys)[exports_handle(ctxt)][k]
            == scope[wildcards.last().0][k],
{
    lemma_merge_blocks_merge_in_order(ctxt, wildcards, scope, keys);
    lemma_last_source_wins(scope[exports_handle(ctxt)], namespaces(scope, wildcards), k);
}

} // verus!
