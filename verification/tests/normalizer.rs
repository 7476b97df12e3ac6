use mut_cjs_exports::ast::{Ident, Kind, Node};
use mut_cjs_exports::ident_set::IdentSet;
use mut_cjs_exports::module::{
    process_transform, LocalExportStrip, Module, ModuleItem, NamedExport, Program, WildcardExport,
};
use mut_cjs_exports::rewrite::TransformVisitor;

const TOP: u32 = 2;
const UNRESOLVED: u32 = 1;

fn id(name: &str, ctxt: u32) -> Node {
    Node::Ident(Ident::new(name, ctxt))
}

fn other(kind: Kind, children: Vec<Node>) -> Node {
    Node::Other { kind, children }
}

fn method_call(obj: Node, prop: &str, arg: Node) -> Node {
    Node::Call {
        callee: Box::new(Node::Member { obj: Box::new(obj), prop: prop.to_string() }),
        args: vec![arg],
    }
}

fn lookup(obj: Node, key: Node) -> Node {
    other(Kind::Index, vec![obj, key])
}

fn return_if(test: Node) -> Node {
    other(Kind::If, vec![test, other(Kind::Return, vec![])])
}

fn expected_merge_block(module: &str, module_ctxt: u32, key_ctxt: u32) -> Node {
    let key = || id("key", key_ctxt);
    let exports = || id("exports", UNRESOLVED);
    let source = || id(module, module_ctxt);
    let skip_reserved = return_if(other(
        Kind::LogicalOr,
        vec![
            other(Kind::StrictEq, vec![key(), Node::Str("default".to_string())]),
            other(Kind::StrictEq, vec![key(), Node::Str("__esModule".to_string())]),
        ],
    ));
    let skip_same = return_if(other(
        Kind::LogicalAnd,
        vec![
            other(Kind::In, vec![key(), exports()]),
            other(Kind::StrictEq, vec![lookup(exports(), key()), lookup(source(), key())]),
        ],
    ));
    let copy = other(
        Kind::ExprStmt,
        vec![other(Kind::Assign, vec![lookup(exports(), key()), lookup(source(), key())])],
    );
    let callback = other(
        Kind::Function,
        vec![
            Node::Binding(Ident::new("key", key_ctxt)),
            other(Kind::Block, vec![skip_reserved, skip_same, copy]),
        ],
    );
    other(
        Kind::ExprStmt,
        vec![method_call(
            method_call(id("Object", 0), "keys", source()),
            "forEach",
            callback,
        )],
    )
}

fn strip(
    has_export_assign: bool,
    named: &[(&str, &str)],
    wildcards: &[(&str, u32)],
    ids: &[&str],
) -> LocalExportStrip {
    let mut export_decl_id = IdentSet::new();
    for n in ids {
        export_decl_id.insert(Ident::new(n, TOP));
    }
    LocalExportStrip {
        has_export_assign,
        export: named
            .iter()
            .map(|(l, e)| NamedExport { local: l.to_string(), exported: e.to_string() })
            .collect(),
        export_all: wildcards
            .iter()
            .map(|(m, k)| WildcardExport { module: Ident::new(m, TOP), key_ctxt: *k })
            .collect(),
        export_decl_id,
    }
}

fn prop(exported: &str, local: &str) -> ModuleItem {
    ModuleItem::ExportProperty {
        handle: Ident::new("exports", UNRESOLVED),
        exported: exported.to_string(),
        local: local.to_string(),
    }
}

fn call_f() -> ModuleItem {
    ModuleItem::Stmt(other(
        Kind::ExprStmt,
        vec![Node::Call { callee: Box::new(id("f", TOP)), args: vec![] }],
    ))
}

fn let_x_1() -> ModuleItem {
    ModuleItem::Stmt(other(
        Kind::VarDecl,
        vec![Node::Binding(Ident::new("x", TOP)), Node::Num(1)],
    ))
}

fn set_x_2() -> ModuleItem {
    ModuleItem::Stmt(other(
        Kind::ExprStmt,
        vec![other(Kind::Assign, vec![Node::Binding(Ident::new("x", TOP)), Node::Num(2)])],
    ))
}

fn read_x() -> ModuleItem {
    ModuleItem::Stmt(other(Kind::ExprStmt, vec![id("x", TOP)]))
}

#[test]
fn export_all_builds_the_merge_block() {
    let v = TransformVisitor::new(UNRESOLVED);
    assert_eq!(v.export_all(Ident::new("_mod", TOP), 9), expected_merge_block("_mod", TOP, 9));
}

#[test]
fn export_all_declares_the_loop_variable_in_its_own_context() {
    let v = TransformVisitor::new(UNRESOLVED);
    assert_ne!(v.export_all(Ident::new("_mod", TOP), 9), v.export_all(Ident::new("_mod", TOP), 10));
}

#[test]
fn emit_export_stmts_gives_one_property_per_export() {
    let v = TransformVisitor::new(UNRESOLVED);
    let got = v.emit_export_stmts(vec![
        NamedExport { local: "a".to_string(), exported: "b".to_string() },
        NamedExport { local: "c".to_string(), exported: "c".to_string() },
    ]);
    assert_eq!(got, vec![prop("b", "a"), prop("c", "c")]);
}

#[test]
fn exported_function_called_in_module_keeps_receiver() {
    // export function f() { return this; } f();
    let mut v = TransformVisitor::new(UNRESOLVED);
    let mut m = Module { body: vec![call_f()] };
    v.visit_mut_module(&mut m, strip(false, &[("f", "f")], &[], &["f"]));
    let want_call = ModuleItem::Stmt(other(
        Kind::ExprStmt,
        vec![Node::Call {
            callee: Box::new(other(
                Kind::Comma,
                vec![
                    Node::Num(0),
                    Node::Member {
                        obj: Box::new(id("exports", UNRESOLVED)),
                        prop: "f".to_string(),
                    },
                ],
            )),
            args: vec![],
        }],
    ));
    assert_eq!(m.body, vec![ModuleItem::EmptyExport, prop("f", "f"), want_call]);
    assert!(v.export_decl_id.contains(&Ident::new("f", TOP)));
}

#[test]
fn exported_variable_stays_live_after_assignment() {
    // export let x = 1; x = 2; x;
    let mut v = TransformVisitor::new(UNRESOLVED);
    let mut m = Module { body: vec![let_x_1(), set_x_2(), read_x()] };
    v.visit_mut_module(&mut m, strip(false, &[("x", "x")], &[], &["x"]));
    let read_through_exports = ModuleItem::Stmt(other(
        Kind::ExprStmt,
        vec![Node::Member {
            obj: Box::new(id("exports", UNRESOLVED)),
            prop: "x".to_string(),
        }],
    ));
    assert_eq!(
        m.body,
        vec![ModuleItem::EmptyExport, prop("x", "x"), let_x_1(), set_x_2(), read_through_exports]
    );
}

#[test]
fn two_wildcards_merge_in_declaration_order() {
    // export * from "a"; export * from "b";
    let mut v = TransformVisitor::new(UNRESOLVED);
    let mut m = Module { body: vec![read_x()] };
    v.visit_mut_module(&mut m, strip(false, &[], &[("_a", 11), ("_b", 12)], &[]));
    assert_eq!(
        m.body,
        vec![
            ModuleItem::Stmt(expected_merge_block("_a", TOP, 11)),
            ModuleItem::Stmt(expected_merge_block("_b", TOP, 12)),
            read_x(),
        ]
    );
}

#[test]
fn module_without_named_exports_passes_through() {
    // export default foo;
    let mut v = TransformVisitor::new(UNRESOLVED);
    let mut m = Module { body: vec![let_x_1(), read_x()] };
    v.visit_mut_module(&mut m, strip(false, &[], &[], &[]));
    assert_eq!(m.body, vec![let_x_1(), read_x()]);
}

#[test]
fn assignment_export_wins_over_named_exports() {
    let mut v = TransformVisitor::new(UNRESOLVED);
    let mut m = Module { body: vec![read_x()] };
    v.visit_mut_module(&mut m, strip(true, &[("x", "x")], &[("_a", 11)], &["x"]));
    assert_eq!(m.body, vec![ModuleItem::Stmt(expected_merge_block("_a", TOP, 11)), read_x()]);
}

#[test]
fn named_exports_without_redirected_identifiers_leave_the_body() {
    let mut v = TransformVisitor::new(UNRESOLVED);
    let mut m = Module { body: vec![read_x()] };
    v.visit_mut_module(&mut m, strip(false, &[("y", "z")], &[], &[]));
    assert_eq!(m.body, vec![ModuleItem::EmptyExport, prop("z", "y"), read_x()]);
}

#[test]
fn properties_then_merge_blocks_then_body() {
    let mut v = TransformVisitor::new(UNRESOLVED);
    let mut m = Module { body: vec![read_x(), call_f()] };
    v.visit_mut_module(&mut m, strip(false, &[("x", "x"), ("g", "h")], &[("_a", 11)], &["x"]));
    let read_through_exports = ModuleItem::Stmt(other(
        Kind::ExprStmt,
        vec![Node::Member {
            obj: Box::new(id("exports", UNRESOLVED)),
            prop: "x".to_string(),
        }],
    ));
    assert_eq!(
        m.body,
        vec![
            ModuleItem::EmptyExport,
            prop("x", "x"),
            prop("h", "g"),
            ModuleItem::Stmt(expected_merge_block("_a", TOP, 11)),
            read_through_exports,
            call_f(),
        ]
    );
}

#[test]
fn merge_blocks_are_not_rewritten() {
    // the namespace identifier is itself exported by name
    let mut v = TransformVisitor::new(UNRESOLVED);
    let mut m = Module { body: vec![] };
    v.visit_mut_module(&mut m, strip(false, &[("_a", "a")], &[("_a", 11)], &["_a"]));
    assert_eq!(
        m.body,
        vec![
            ModuleItem::EmptyExport,
            prop("a", "_a"),
            ModuleItem::Stmt(expected_merge_block("_a", TOP, 11)),
        ]
    );
}

#[test]
fn items_that_are_no_statements_stay() {
    let mut v = TransformVisitor::new(UNRESOLVED);
    v.export_decl_id.insert(Ident::new("x", TOP));
    let mut got = vec![ModuleItem::EmptyExport, prop("x", "x"), read_x()];
    v.visit_mut_module_items(&mut got);
    let read_through_exports = ModuleItem::Stmt(other(
        Kind::ExprStmt,
        vec![Node::Member {
            obj: Box::new(id("exports", UNRESOLVED)),
            prop: "x".to_string(),
        }],
    ));
    assert_eq!(got, vec![ModuleItem::EmptyExport, prop("x", "x"), read_through_exports]);
}

#[test]
fn process_transform_skips_scripts() {
    let got = process_transform(
        Program::Script(vec![other(Kind::ExprStmt, vec![id("x", TOP)])]),
        strip(false, &[("x", "x")], &[], &["x"]),
        UNRESOLVED,
    );
    assert_eq!(got, Program::Script(vec![other(Kind::ExprStmt, vec![id("x", TOP)])]));
}

#[test]
fn process_transform_normalizes_modules() {
    let got = process_transform(
        Program::Module(Module { body: vec![read_x()] }),
        strip(false, &[("x", "x")], &[], &["x"]),
        UNRESOLVED,
    );
    let read_through_exports = ModuleItem::Stmt(other(
        Kind::ExprStmt,
        vec![Node::Member {
            obj: Box::new(id("exports", UNRESOLVED)),
            prop: "x".to_string(),
        }],
    ));
    assert_eq!(
        got,
        Program::Module(Module {
            body: vec![ModuleItem::EmptyExport, prop("x", "x"), read_through_exports],
        })
    );
}

#[test]
fn properties_are_emitted_only_without_assignment_export() {
    assert!(strip(false, &[("x", "x")], &[], &[]).emits_properties());
    assert!(!strip(true, &[("x", "x")], &[], &[]).emits_properties());
    assert!(!strip(false, &[], &[("_a", 11)], &["x"]).emits_properties());
}

#[test]
fn body_is_rewritten_only_with_properties_and_redirected_identifiers() {
    assert!(strip(false, &[("x", "x")], &[], &["x"]).rewrites_body());
    assert!(!strip(false, &[("x", "x")], &[], &[]).rewrites_body());
    assert!(!strip(true, &[("x", "x")], &[], &["x"]).rewrites_body());
    assert!(!strip(false, &[], &[], &["x"]).rewrites_body());
}

#[test]
fn assignment_export_leaves_reads_in_the_body() {
    let mut v = TransformVisitor::new(UNRESOLVED);
    let mut m = Module { body: vec![read_x(), call_f()] };
    v.visit_mut_module(&mut m, strip(true, &[("x", "x"), ("f", "f")], &[], &["x", "f"]));
    assert_eq!(m.body, vec![read_x(), call_f()]);
    assert!(v.export_decl_id.contains(&Ident::new("x", TOP)));
}

#[test]
fn empty_module_with_exports_gets_marker_and_properties() {
    let mut v = TransformVisitor::new(UNRESOLVED);
    let mut m = Module { body: vec![] };
    v.visit_mut_module(&mut m, strip(false, &[("a", "b")], &[], &["a"]));
    assert_eq!(m.body, vec![ModuleItem::EmptyExport, prop("b", "a")]);
}

#[test]
fn merge_block_reads_its_own_parameter() {
    // every `key` in the callback is the parameter, in its own context
    let v = TransformVisitor::new(UNRESOLVED);
    let block = v.export_all(Ident::new("_mod", TOP), 9);
    let text = format!("{:?}", block);
    assert!(text.contains("ctxt: 9"));
    assert!(!text.contains("sym: \"key\", ctxt: 0"));
}
