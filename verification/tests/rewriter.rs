use mut_cjs_exports::ast::{Ident, Kind, Node};
use mut_cjs_exports::ident_set::IdentSet;
use mut_cjs_exports::rewrite::{into_indirect, take, TransformVisitor};

const TOP: u32 = 2;
const UNRESOLVED: u32 = 1;

fn read(name: &str) -> Node {
    Node::Ident(Ident::new(name, TOP))
}

fn exports_member(name: &str) -> Node {
    Node::Member {
        obj: Box::new(Node::Ident(Ident::new("exports", UNRESOLVED))),
        prop: name.to_string(),
    }
}

fn other(kind: Kind, children: Vec<Node>) -> Node {
    Node::Other { kind, children }
}

fn rewritten(v: &TransformVisitor, mut n: Node) -> Node {
    v.visit_mut_expr(&mut n);
    n
}

fn rewritten_callee(v: &TransformVisitor, mut n: Node) -> Node {
    v.visit_mut_callee(&mut n);
    n
}

fn visitor_for(names: &[&str]) -> TransformVisitor {
    let mut v = TransformVisitor::new(UNRESOLVED);
    for n in names {
        v.export_decl_id.insert(Ident::new(n, TOP));
    }
    v
}

#[test]
fn ident_set_starts_empty() {
    let s = IdentSet::new();
    assert!(s.is_empty());
    assert!(!s.contains(&Ident::new("x", TOP)));
}

#[test]
fn ident_set_finds_by_name_and_site() {
    let mut s = IdentSet::new();
    s.insert(Ident::new("x", TOP));
    assert!(!s.is_empty());
    assert!(s.contains(&Ident::new("x", TOP)));
    assert!(!s.contains(&Ident::new("x", TOP + 1)));
    assert!(!s.contains(&Ident::new("y", TOP)));
}

#[test]
fn ident_set_insert_twice_is_one_member() {
    let mut s = IdentSet::new();
    s.insert(Ident::new("x", TOP));
    s.insert(Ident::new("x", TOP));
    assert!(s.contains(&Ident::new("x", TOP)));
}

#[test]
fn new_visitor_redirects_nothing() {
    let v = TransformVisitor::new(UNRESOLVED);
    assert_eq!(v.unresolved_mark, UNRESOLVED);
    assert!(v.export_decl_id.is_empty());
    assert_eq!(rewritten(&v, read("x")), read("x"));
}

#[test]
fn exports_handle_is_named_exports_in_the_unresolved_context() {
    let v = TransformVisitor::new(7);
    assert_eq!(v.exports(), Ident::new("exports", 7));
}

#[test]
fn make_member_reads_a_property_of_exports() {
    let v = TransformVisitor::new(UNRESOLVED);
    assert_eq!(v.make_member(&Ident::new("a", TOP)), exports_member("a"));
}

#[test]
fn exported_read_becomes_property_access() {
    let v = visitor_for(&["x"]);
    assert_eq!(rewritten(&v, read("x")), exports_member("x"));
}

#[test]
fn other_read_stays() {
    let v = visitor_for(&["x"]);
    assert_eq!(rewritten(&v, read("y")), read("y"));
}

#[test]
fn same_name_of_another_scope_stays() {
    let v = visitor_for(&["x"]);
    let inner = Node::Ident(Ident::new("x", TOP + 5));
    assert_eq!(rewritten(&v, inner), Node::Ident(Ident::new("x", TOP + 5)));
}

#[test]
fn binding_is_never_rewritten() {
    let v = visitor_for(&["x"]);
    let decl = other(
        Kind::VarDecl,
        vec![Node::Binding(Ident::new("x", TOP)), Node::Num(1)],
    );
    let same = other(
        Kind::VarDecl,
        vec![Node::Binding(Ident::new("x", TOP)), Node::Num(1)],
    );
    assert_eq!(rewritten(&v, decl), same);
}

#[test]
fn shorthand_of_exported_binding_is_expanded() {
    let v = visitor_for(&["x"]);
    let obj = other(
        Kind::Object,
        vec![
            Node::Shorthand(Ident::new("x", TOP)),
            Node::Shorthand(Ident::new("y", TOP)),
        ],
    );
    let want = other(
        Kind::Object,
        vec![
            Node::KeyValue { key: "x".to_string(), value: Box::new(exports_member("x")) },
            Node::Shorthand(Ident::new("y", TOP)),
        ],
    );
    assert_eq!(rewritten(&v, obj), want);
}

#[test]
fn key_value_rewrites_the_value_only() {
    let v = visitor_for(&["x"]);
    let prop = Node::KeyValue { key: "x".to_string(), value: Box::new(read("x")) };
    let want = Node::KeyValue { key: "x".to_string(), value: Box::new(exports_member("x")) };
    assert_eq!(rewritten(&v, prop), want);
}

#[test]
fn member_rewrites_the_object_only() {
    let v = visitor_for(&["x"]);
    let m = Node::Member { obj: Box::new(read("x")), prop: "x".to_string() };
    let want = Node::Member { obj: Box::new(exports_member("x")), prop: "x".to_string() };
    assert_eq!(rewritten(&v, m), want);
}

#[test]
fn take_moves_the_node_out() {
    let mut n = exports_member("f");
    assert_eq!(take(&mut n), exports_member("f"));
    assert_eq!(n, Node::Num(0));
}

#[test]
fn into_indirect_wraps_in_a_comma_expression() {
    assert_eq!(
        into_indirect(exports_member("f")),
        other(Kind::Comma, vec![Node::Num(0), exports_member("f")])
    );
}

#[test]
fn call_of_exported_function_keeps_its_receiver() {
    // function f() { return this; } f();
    let v = visitor_for(&["f"]);
    let call = other(
        Kind::ExprStmt,
        vec![Node::Call { callee: Box::new(read("f")), args: vec![read("f"), read("g")] }],
    );
    let want = other(
        Kind::ExprStmt,
        vec![Node::Call {
            callee: Box::new(other(Kind::Comma, vec![Node::Num(0), exports_member("f")])),
            args: vec![exports_member("f"), read("g")],
        }],
    );
    assert_eq!(rewritten(&v, call), want);
}

#[test]
fn call_of_other_function_is_direct() {
    let v = visitor_for(&["f"]);
    let call = Node::Call { callee: Box::new(read("g")), args: vec![] };
    assert_eq!(
        rewritten(&v, call),
        Node::Call { callee: Box::new(read("g")), args: vec![] }
    );
}

#[test]
fn method_call_on_exported_object_is_not_indirect() {
    let v = visitor_for(&["o"]);
    let call = Node::Call {
        callee: Box::new(Node::Member { obj: Box::new(read("o")), prop: "m".to_string() }),
        args: vec![],
    };
    let want = Node::Call {
        callee: Box::new(Node::Member {
            obj: Box::new(exports_member("o")),
            prop: "m".to_string(),
        }),
        args: vec![],
    };
    assert_eq!(rewritten(&v, call), want);
}

#[test]
fn callee_alone_is_rewritten_and_wrapped() {
    let v = visitor_for(&["f"]);
    assert_eq!(
        rewritten_callee(&v, read("f")),
        other(Kind::Comma, vec![Node::Num(0), exports_member("f")])
    );
    assert_eq!(rewritten_callee(&v, read("g")), read("g"));
}

#[test]
fn tag_of_exported_function_is_called_indirectly() {
    let v = visitor_for(&["t"]);
    let tpl = Node::TaggedTpl {
        tag: Box::new(read("t")),
        quasis: vec!["a".to_string(), "b".to_string(), "".to_string()],
        exprs: vec![read("t"), Node::Num(3)],
    };
    let want = Node::TaggedTpl {
        tag: Box::new(other(Kind::Comma, vec![Node::Num(0), exports_member("t")])),
        quasis: vec!["a".to_string(), "b".to_string(), "".to_string()],
        exprs: vec![exports_member("t"), Node::Num(3)],
    };
    assert_eq!(rewritten(&v, tpl), want);
}

#[test]
fn reads_inside_functions_are_rewritten() {
    let v = visitor_for(&["x"]);
    let f = other(
        Kind::Function,
        vec![
            Node::Binding(Ident::new("a", TOP + 1)),
            other(Kind::Block, vec![other(Kind::Return, vec![read("x")])]),
        ],
    );
    let want = other(
        Kind::Function,
        vec![
            Node::Binding(Ident::new("a", TOP + 1)),
            other(Kind::Block, vec![other(Kind::Return, vec![exports_member("x")])]),
        ],
    );
    assert_eq!(rewritten(&v, f), want);
}

#[test]
fn literals_stay() {
    let v = visitor_for(&["x"]);
    assert_eq!(rewritten(&v, Node::Str("x".to_string())), Node::Str("x".to_string()));
    assert_eq!(rewritten(&v, Node::Num(9)), Node::Num(9));
}

#[test]
fn children_are_rewritten_in_order() {
    let v = visitor_for(&["x"]);
    let mut got = vec![read("x"), read("y"), read("x")];
    v.visit_mut_children(&mut got);
    assert_eq!(got, vec![exports_member("x"), read("y"), exports_member("x")]);
}

#[test]
fn rewriting_twice_changes_nothing_more() {
    let v = visitor_for(&["x"]);
    let mut n = other(Kind::ExprStmt, vec![read("x")]);
    v.visit_mut_expr(&mut n);
    assert_eq!(n, other(Kind::ExprStmt, vec![exports_member("x")]));
    v.visit_mut_expr(&mut n);
    assert_eq!(n, other(Kind::ExprStmt, vec![exports_member("x")]));
}

#[test]
fn ident_clone_keeps_name_and_context() {
    let a = Ident::new("x", TOP);
    let b = a.clone();
    assert_eq!(a, b);
    assert_eq!(b.sym, "x");
    assert_eq!(b.ctxt, TOP);
}

#[test]
fn nested_call_of_exported_function_inside_arguments() {
    // g(f())
    let v = visitor_for(&["f"]);
    let inner = || Node::Call { callee: Box::new(read("f")), args: vec![] };
    let call = Node::Call { callee: Box::new(read("g")), args: vec![inner()] };
    let want = Node::Call {
        callee: Box::new(read("g")),
        args: vec![Node::Call {
            callee: Box::new(other(Kind::Comma, vec![Node::Num(0), exports_member("f")])),
            args: vec![],
        }],
    };
    assert_eq!(rewritten(&v, call), want);
}

#[test]
fn assignment_target_binding_stays_while_value_is_rewritten() {
    // x = x + ... modelled as x = x
    let v = visitor_for(&["x"]);
    let assign = other(Kind::Assign, vec![Node::Binding(Ident::new("x", TOP)), read("x")]);
    let want = other(
        Kind::Assign,
        vec![Node::Binding(Ident::new("x", TOP)), exports_member("x")],
    );
    assert_eq!(rewritten(&v, assign), want);
}

#[test]
fn optional_call_of_exported_function_keeps_its_receiver() {
    // f?.(f)
    let v = visitor_for(&["f"]);
    let call = Node::OptCall { callee: Box::new(read("f")), args: vec![read("f")] };
    let want = Node::OptCall {
        callee: Box::new(other(Kind::Comma, vec![Node::Num(0), exports_member("f")])),
        args: vec![exports_member("f")],
    };
    assert_eq!(rewritten(&v, call), want);
}

#[test]
fn optional_call_of_other_function_is_direct() {
    let v = visitor_for(&["f"]);
    let call = Node::OptCall { callee: Box::new(read("g")), args: vec![] };
    assert_eq!(
        rewritten(&v, call),
        Node::OptCall { callee: Box::new(read("g")), args: vec![] }
    );
}

#[test]
fn visit_mut_prop_expands_a_redirected_shorthand() {
    let v = visitor_for(&["x"]);
    let mut p = Node::Shorthand(Ident::new("x", TOP));
    v.visit_mut_prop(&mut p);
    assert_eq!(p, Node::KeyValue { key: "x".to_string(), value: Box::new(exports_member("x")) });
    let mut q = Node::Shorthand(Ident::new("y", TOP));
    v.visit_mut_prop(&mut q);
    assert_eq!(q, Node::Shorthand(Ident::new("y", TOP)));
}

#[test]
fn visit_mut_prop_rewrites_below_other_nodes() {
    let v = visitor_for(&["x"]);
    let mut p = Node::KeyValue { key: "k".to_string(), value: Box::new(read("x")) };
    v.visit_mut_prop(&mut p);
    assert_eq!(p, Node::KeyValue { key: "k".to_string(), value: Box::new(exports_member("x")) });
    let mut n = other(Kind::Return, vec![read("x")]);
    v.visit_mut_prop(&mut n);
    assert_eq!(n, other(Kind::Return, vec![exports_member("x")]));
}

#[test]
fn visit_mut_tagged_tpl_wraps_a_redirected_tag() {
    let v = visitor_for(&["t"]);
    let mut tpl = Node::TaggedTpl {
        tag: Box::new(read("t")),
        quasis: vec!["x".to_string(), "t".to_string(), "z".to_string()],
        exprs: vec![read("a"), read("t")],
    };
    v.visit_mut_tagged_tpl(&mut tpl);
    let want = Node::TaggedTpl {
        tag: Box::new(other(Kind::Comma, vec![Node::Num(0), exports_member("t")])),
        quasis: vec!["x".to_string(), "t".to_string(), "z".to_string()],
        exprs: vec![read("a"), exports_member("t")],
    };
    assert_eq!(tpl, want);
}

#[test]
fn visit_mut_tagged_tpl_leaves_another_tag_bare() {
    let v = visitor_for(&["t"]);
    let mut tpl = Node::TaggedTpl { tag: Box::new(read("u")), quasis: vec!["t".to_string()], exprs: vec![] };
    v.visit_mut_tagged_tpl(&mut tpl);
    assert_eq!(tpl, Node::TaggedTpl { tag: Box::new(read("u")), quasis: vec!["t".to_string()], exprs: vec![] });
    let mut n = read("t");
    v.visit_mut_tagged_tpl(&mut n);
    assert_eq!(n, exports_member("t"));
}
