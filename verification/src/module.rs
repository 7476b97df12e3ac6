//! The module export normalizer: lays out the statements that establish the
//! exports, the merge blocks and the rewritten body.

use vstd::prelude::*;
use crate::ast::{Id, Ident, Node, Tree};
use crate::export_all::merge_block;
use crate::ident_set::IdentSet;
use crate::rewrite::{
    exports_handle, lemma_no_plain_read_remains, lemma_reads_none_of_empty, reads_none, rewrite,
    TransformVisitor,
};

verus! {

/// A binding that the module exports by name.
#[derive(Debug, PartialEq, Eq)]
pub struct NamedExport {
    /// The name of the local binding.
    pub local: String,
    /// The name under which it is exported.
    pub exported: String,
}

/// A wildcard re-export.
#[derive(Debug, PartialEq, Eq)]
pub struct WildcardExport {
    /// The identifier bound to the namespace of the re-exported module.
    pub module: Ident,
    /// A syntax context of its own for the loop variable of the merge block.
    pub key_ctxt: u32,
}

/// What the analysis of a module's export declarations found.
#[derive(Debug)]
pub struct LocalExportStrip {
    /// Whether the module assigns its exports in bulk.
    pub has_export_assign: bool,
    /// The named exports, in order.
    pub export: Vec<NamedExport>,
    /// The wildcard re-exports, in the order of their declarations.
    pub export_all: Vec<WildcardExport>,
    /// The exported local bindings, whose reads are redirected.
    pub export_decl_id: IdentSet,
}

/// A top-level item of a module.
#[derive(Debug, PartialEq, Eq)]
pub enum ModuleItem {
    /// The empty export declaration `export {}`, which does nothing and
    /// keeps the file a module.
    EmptyExport,
    /// The statement that establishes `exported` as a property of the
    /// exports object `handle` which reflects the current value of `local`.
    ExportProperty { handle: Ident, exported: String, local: String },
    /// An ordinary statement.
    Stmt(Node),
}

/// The mathematical value of a `ModuleItem`.
pub enum Item {
    EmptyExport,
    ExportProperty { handle: Id, exported: Seq<char>, local: Seq<char> },
    Stmt(Tree),
}

impl View for ModuleItem {
    type V = Item;

    open spec fn view(&self) -> Item {
        match self {
            ModuleItem::EmptyExport => Item::EmptyExport,
            ModuleItem::ExportProperty { handle, exported, local } => Item::ExportProperty {
                handle: handle@,
                exported: exported@,
                local: local@,
            },
            ModuleItem::Stmt(n) => Item::Stmt(n@),
        }
    }
}

/// A module: its top-level items in order.
#[derive(Debug, PartialEq, Eq)]
pub struct Module {
    pub body: Vec<ModuleItem>,
}

impl View for Module {
    type V = Seq<Item>;

    open spec fn view(&self) -> Seq<Item> {
        Seq::new(self.body@.len(), |i: int| self.body@[i]@)
    }
}

/// A program: a module, or a script, which has no exports.
#[derive(Debug, PartialEq, Eq)]
pub enum Program {
    Module(Module),
    Script(Vec<Node>),
}

impl LocalExportStrip {
    /// The named exports as pairs of local and exported name.
    pub open spec fn named(&self) -> Seq<(Seq<char>, Seq<char>)> {
        Seq::new(self.export@.len(), |i: int| (self.export@[i].local@, self.export@[i].exported@))
    }

    /// Whether each named export gets a property of its own.
    pub fn emits_properties(&self) -> (b: bool)
        ensures
            b == per_binding(self.has_export_assign, self.named()),
    {
        !self.has_export_assign && self.export.len() > 0
    }

    /// Whether the reference rewriter runs over the body.
    pub fn rewrites_body(&self) -> (b: bool)
        ensures
            b == (per_binding(self.has_export_assign, self.named()) && self.export_decl_id@
                != Set::<Id>::empty()),
    {
        self.emits_properties() && !self.export_decl_id.is_empty()
    }

    /// The wildcard re-exports as pairs of module identifier and loop
    /// variable context.
    pub open spec fn wildcards(&self) -> Seq<(Id, u32)> {
        Seq::new(
            self.export_all@.len(),
            |i: int| (self.export_all@[i].module@, self.export_all@[i].key_ctxt),
        )
    }
}

/// Whether each named export gets a property of its own: there is one, and
/// no bulk assignment overrides it.
pub open spec fn per_binding(has_export_assign: bool, named: Seq<(Seq<char>, Seq<char>)>) -> bool {
    !has_export_assign && named.len() > 0
}

/// The statements that establish the named exports, one for each.
pub open spec fn export_props(handle: Id, named: Seq<(Seq<char>, Seq<char>)>) -> Seq<Item> {
    Seq::new(
        named.len(),
        |i: int| Item::ExportProperty { handle, exported: named[i].1, local: named[i].0 },
    )
}

/// The merge blocks of the wildcard re-exports, one for each.
pub open spec fn merge_blocks(handle: Id, wildcards: Seq<(Id, u32)>) -> Seq<Item> {
    Seq::new(
        wildcards.len(),
        |i: int| Item::Stmt(merge_block(handle, wildcards[i].0, ("key"@, wildcards[i].1))),
    )
}

/// An item of the body after the reference rewriter ran over it.
pub open spec fn rewrite_item(ids: Set<Id>, handle: Id, item: Item) -> Item {
    match item {
        Item::Stmt(t) => Item::Stmt(rewrite(ids, handle, t)),
        _ => item,
    }
}

/// The body as it is appended: rewritten where each named export gets a
/// property and some identifier is redirected, unchanged otherwise.
pub open spec fn tail(
    has_export_assign: bool,
    named: Seq<(Seq<char>, Seq<char>)>,
    ids: Set<Id>,
    handle: Id,
    body: Seq<Item>,
) -> Seq<Item> {
    if per_binding(has_export_assign, named) && ids != Set::<Id>::empty() {
        Seq::new(body.len(), |i: int| rewrite_item(ids, handle, body[i]))
    } else {
        body
    }
}

/// The statements put in front of the body: the marker and the export
/// properties where each named export gets one, then the merge blocks.
pub open spec fn head(
    has_export_assign: bool,
    named: Seq<(Seq<char>, Seq<char>)>,
    wildcards: Seq<(Id, u32)>,
    handle: Id,
) -> Seq<Item> {
    if per_binding(has_export_assign, named) {
        seq![Item::EmptyExport] + export_props(handle, named) + merge_blocks(handle, wildcards)
    } else {
        merge_blocks(handle, wildcards)
    }
}

/// The module after the pass.
pub open spec fn normalized(
    has_export_assign: bool,
    named: Seq<(Seq<char>, Seq<char>)>,
    wildcards: Seq<(Id, u32)>,
    ids: Set<Id>,
    handle: Id,
    body: Seq<Item>,
) -> Seq<Item> {
    head(has_export_assign, named, wildcards, handle) + tail(
        has_export_assign,
        named,
        ids,
        handle,
        body,
    )
}

/// Where each named export gets a property, the output starts with the
/// marker, the property of the `i`-th export comes right after it at
/// position `1 + i`, and every item of the body comes after all of them,
/// in its old order.
pub proof fn lemma_exports_precede_body(
    has_export_assign: bool,
    named: Seq<(Seq<char>, Seq<char>)>,
    wildcards: Seq<(Id, u32)>,
    ids: Set<Id>,
    handle: Id,
    body: Seq<Item>,
)
    requires
        !has_export_assign,
        named.len() > 0,
    ensures
        ({
            let out = normalized(has_export_assign, named, wildcards, ids, handle, body);
            let start = 1 + named.len() + wildcards.len();
            &&& out.len() == start + body.len()
            &&& out[0] == Item::EmptyExport
            &&& forall|i: int|
                0 <= i < named.len() ==> #[trigger] out[1 + i] == (Item::ExportProperty {
                    handle,
                    exported: named[i].1,
                    local: named[i].0,
                })
            &&& forall|j: int|
                0 <= j < body.len() ==> #[trigger] out[start + j] == tail(
                    has_export_assign,
                    named,
                    ids,
                    handle,
                    body,
                )[j]
        }),
{
}

/// Where each named export gets a property, no statement of the body reads
/// a redirected identifier by a plain identifier any more, provided that
/// the exports object itself is not redirected.
pub proof fn lemma_body_reads_through_exports(
    has_export_assign: bool,
    named: Seq<(Seq<char>, Seq<char>)>,
    ids: Set<Id>,
    handle: Id,
    body: Seq<Item>,
)
    requires
        !has_export_assign,
        named.len() > 0,
        !ids.contains(handle),
    ensures
        ({
            let rest = tail(has_export_assign, named, ids, handle, body);
            &&& rest.len() == body.len()
            &&& forall|j: int|
                0 <= j < rest.len() && #[trigger] rest[j] is Stmt ==> reads_none(
                    ids,
                    rest[j]->Stmt_0,
                )
        }),
{
    let rest = tail(has_export_assign, named, ids, handle, body);
    assert forall|j: int| 0 <= j < rest.len() && #[trigger] rest[j] is Stmt implies reads_none(
        ids,
        rest[j]->Stmt_0,
    ) by {
        if ids == Set::<Id>::empty() {
            lemma_reads_none_of_empty(rest[j]->Stmt_0);
        } else {
            lemma_no_plain_read_remains(ids, handle, body[j]->Stmt_0);
        }
    }
}

/// The merge blocks stand in the order of the re-exports, after the export
/// properties and before the body.
pub proof fn lemma_merge_blocks_in_order(
    has_export_assign: bool,
    named: Seq<(Seq<char>, Seq<char>)>,
    wildcards: Seq<(Id, u32)>,
    ids: Set<Id>,
    handle: Id,
    body: Seq<Item>,
)
    ensures
        ({
            let out = normalized(has_export_assign, named, wildcards, ids, handle, body);
            let first = if per_binding(has_export_assign, named) {
                1 + named.len()
            } else {
                0
            };
            &&& out.len() == first + wildcards.len() + body.len()
            &&& forall|i: int|
                0 <= i < wildcards.len() ==> #[trigger] out[first + i] == Item::Stmt(
                    merge_block(handle, wildcards[i].0, ("key"@, wildcards[i].1)),
                )
        }),
{
}

/// Where the body holds statements only, the output holds nothing but
/// statements and export properties, except for the marker at its start
/// where each named export gets a property.
pub proof fn lemma_marker_only_at_start(
    has_export_assign: bool,
    named: Seq<(Seq<char>, Seq<char>)>,
    wildcards: Seq<(Id, u32)>,
    ids: Set<Id>,
    handle: Id,
    body: Seq<Item>,
)
    requires
        forall|j: int| 0 <= j < body.len() ==> #[trigger] body[j] is Stmt,
    ensures
        ({
            let out = normalized(has_export_assign, named, wildcards, ids, handle, body);
            forall|j: int|
                0 <= j < out.len() && #[trigger] out[j] is EmptyExport ==> j == 0 && per_binding(
                    has_export_assign,
                    named,
                )
        }),
{
    let out = normalized(has_export_assign, named, wildcards, ids, handle, body);
    let rest = tail(has_export_assign, named, ids, handle, body);
    assert forall|j: int| 0 <= j < out.len() && #[trigger] out[j] is EmptyExport implies j == 0
        && per_binding(has_export_assign, named) by {
        let first = out.len() - body.len();
        if j >= first {
            assert(out[j] == rest[j - first]);
            assert(body[j - first] is Stmt);
        }
    }
}

/// A module without named and without wildcard exports passes through
/// unchanged, and so does one with a bulk assignment and no wildcard.
pub proof fn lemma_pass_through(
    has_export_assign: bool,
    named: Seq<(Seq<char>, Seq<char>)>,
    ids: Set<Id>,
    handle: Id,
    body: Seq<Item>,
)
    requires
        has_export_assign || named.len() == 0,
    ensures
        normalized(has_export_assign, named, Seq::empty(), ids, handle, body) == body,
{
    assert(normalized(has_export_assign, named, Seq::empty(), ids, handle, body) =~= body);
}

impl TransformVisitor {
    /// The statements that establish the named exports on the exports
    /// object, one for each export and in their order.
    pub fn emit_export_stmts(&self, export: Vec<NamedExport>) -> (r: Vec<ModuleItem>)
        ensures
            r@.len() == export@.len(),
            forall|i: int|
                0 <= i < r@.len() ==> (#[trigger] r@[i])@ == (Item::ExportProperty {
                    handle: self.handle(),
                    exported: export@[i].exported@,
                    local: export@[i].local@,
                }),
    {
        let mut out: Vec<ModuleItem> = Vec::new();
        let mut i: usize = 0;
        while i < export.len()
            invariant
                i <= export@.len(),
                out@.len() == i,
                forall|j: int|
                    0 <= j < i ==> (#[trigger] out@[j])@ == (Item::ExportProperty {
                        handle: self.handle(),
                        exported: export@[j].exported@,
                        local: export@[j].local@,
                    }),
            decreases export@.len() - i,
        {
            out.push(
                ModuleItem::ExportProperty {
                    handle: self.exports(),
                    exported: export[i].exported.clone(),
                    local: export[i].local.clone(),
                },
            );
            i += 1;
        }
        out
    }

    /// Rewrites the statements of a module body in place; other items
    /// stay.
    pub fn visit_mut_module_items(&self, body: &mut Vec<ModuleItem>)
        ensures
            final(body)@.len() == old(body)@.len(),
            forall|i: int|
                0 <= i < old(body)@.len() ==> (#[trigger] final(body)@[i])@ == rewrite_item(
                    self.export_decl_id@,
                    self.handle(),
                    old(body)@[i]@,
                ),
    {
        let ghost before = body@;
        let mut i: usize = 0;
        while i < body.len()
            invariant
                i <= body@.len(),
                body@.len() == before.len(),
                forall|j: int|
                    0 <= j < i ==> (#[trigger] body@[j])@ == rewrite_item(
                        self.export_decl_id@,
                        self.handle(),
                        before[j]@,
                    ),
                forall|j: int| i <= j < body@.len() ==> #[trigger] body@[j] == before[j],
            decreases body@.len() - i,
        {
            match &mut body[i] {
                ModuleItem::Stmt(n) => {
                    self.visit_mut_expr(n);
                },
                _ => {},
            }
            i += 1;
        }
    }

    /// Normalizes a module whose export declarations were analysed and
    /// removed: `strip` is what the analysis found, `n` the module without
    /// them. Afterwards the pass redirects the identifiers of `strip`.
    pub fn visit_mut_module(&mut self, n: &mut Module, strip: LocalExportStrip)
        ensures
            final(self).unresolved_mark == old(self).unresolved_mark,
            final(self).export_decl_id@ == strip.export_decl_id@,
            final(n)@ == normalized(
                strip.has_export_assign,
                strip.named(),
                strip.wildcards(),
                strip.export_decl_id@,
                old(self).handle(),
                old(n)@,
            ),
    {
        let ghost named = strip.named();
        let ghost wildcards = strip.wildcards();
        let ghost before = n@;
        let ghost handle = self.handle();
        let emits_properties = strip.emits_properties();
        let rewrites_body = strip.rewrites_body();
        let LocalExportStrip { has_export_assign, export, export_all, export_decl_id } = strip;
        self.export_decl_id = export_decl_id;
        let ghost ids = self.export_decl_id@;

        let mut body: Vec<ModuleItem> = Vec::new();
        std::mem::swap(&mut body, &mut n.body);
        let mut stmts: Vec<ModuleItem> = Vec::new();

        if emits_properties {
            stmts.push(ModuleItem::EmptyExport);
            let mut props = self.emit_export_stmts(export);
            stmts.append(&mut props);
            if rewrites_body {
                self.visit_mut_module_items(&mut body);
            }
        }
        let ghost front = stmts@;

        let mut i: usize = 0;
        while i < export_all.len()
            invariant
                i <= export_all@.len(),
                self.handle() == handle,
                wildcards.len() == export_all@.len(),
                forall|j: int|
                    0 <= j < wildcards.len() ==> #[trigger] wildcards[j] == (
                        export_all@[j].module@,
                        export_all@[j].key_ctxt,
                    ),
                stmts@.len() == front.len() + i,
                forall|j: int| 0 <= j < front.len() ==> #[trigger] stmts@[j] == front[j],
                forall|j: int|
                    0 <= j < i ==> (#[trigger] stmts@[front.len() + j])@ == merge_blocks(
                        handle,
                        wildcards,
                    )[j],
            decreases export_all@.len() - i,
        {
            let block = self.export_all(export_all[i].module.clone(), export_all[i].key_ctxt);
            stmts.push(ModuleItem::Stmt(block));
            i += 1;
        }
        let ghost lead = stmts@;
        let ghost rest = body@;
        stmts.append(&mut body);
        n.body = stmts;
        proof {
            let out = normalized(has_export_assign, named, wildcards, ids, handle, before);
            assert(n.body@ =~= lead + rest);
            assert(n@.len() == out.len());
            assert forall|j: int| 0 <= j < out.len() implies n@[j] == out[j] by {
                if j < front.len() {
                    assert(lead[j] == front[j]);
                } else if j < lead.len() {
                    assert(lead[front.len() + (j - front.len())]@ == merge_blocks(
                        handle,
                        wildcards,
                    )[j - front.len()]);
                } else {
                    assert(n.body@[j] == rest[j - lead.len()]);
                }
            }
            assert(n@ =~= out);
        }
    }
}

/// Runs the pass over a program. A script is left as it is; a module is
/// normalized with what the analysis of its exports found.
pub fn process_transform(program: Program, strip: LocalExportStrip, unresolved_mark: u32) -> (r:
    Program)
    ensures
        program is Script ==> r == program,
        program is Module ==> r is Module && (r->Module_0)@ == normalized(
            strip.has_export_assign,
            strip.named(),
            strip.wildcards(),
            strip.export_decl_id@,
            exports_handle(unresolved_mark),
            (program->Module_0)@,
        ),
{
    match program {
        Program::Script(s) => Program::Script(s),
        Program::Module(m) => {
            let mut visitor = TransformVisitor::new(unresolved_mark);
            let mut module = m;
            visitor.visit_mut_module(&mut module, strip);
            Program::Module(module)
        },
    }
}

} // verus!
