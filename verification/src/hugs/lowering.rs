//! What lowering gives, as functions on the models of the trees, and the
//! laws of the identities that it hands out.

use vstd::prelude::*;
use crate::hugs::hir::{prelude, resolve, HirView, Id, LowerErrorView, ScopesView};
use crate::parser::{
    BlockExprView, ExprView, FunctionCallExprView, FunctionOutputView, FunctionView,
    ModuleItemView, ModuleView, StatementView,
};

verus! {

/// An expression with its names resolved in `scopes`, or the first name, in
/// the order of the text, that no scope binds.
pub open spec fn lower_expr(scopes: Seq<Map<Seq<char>, Id>>, e: ExprView<Seq<char>>) -> Result<
    ExprView<Id>,
    LowerErrorView,
>
    decreases e, 0nat,
{
    match e {
        ExprView::StringLiteral(text) => Ok(ExprView::StringLiteral(text)),
        ExprView::FunctionCall(call) => match resolve(scopes, call.name) {
            None => Err(LowerErrorView::UndefinedSymbol(call.name)),
            Some(name) => match lower_exprs(scopes, call.args) {
                Err(e) => Err(e),
                Ok(args) => match lower_exprs(scopes, call.children) {
                    Err(e) => Err(e),
                    Ok(children) => Ok(
                        ExprView::FunctionCall(FunctionCallExprView { name, args, children }),
                    ),
                },
            },
        },
    }
}

/// The same for a list of expressions, from first to last.
pub open spec fn lower_exprs(
    scopes: Seq<Map<Seq<char>, Id>>,
    list: Seq<ExprView<Seq<char>>>,
) -> Result<Seq<ExprView<Id>>, LowerErrorView>
    decreases list, 1nat,
{
    if list.len() == 0 {
        Ok(Seq::empty())
    } else {
        match lower_exprs(scopes, list.drop_last()) {
            Err(e) => Err(e),
            Ok(front) => match lower_expr(scopes, list.last()) {
                Err(e) => Err(e),
                Ok(last) => Ok(front.push(last)),
            },
        }
    }
}

/// The same for a list of statements.
pub open spec fn lower_statements(
    scopes: Seq<Map<Seq<char>, Id>>,
    list: Seq<StatementView<Seq<char>>>,
) -> Result<Seq<StatementView<Id>>, LowerErrorView>
    decreases list.len(),
{
    if list.len() == 0 {
        Ok(Seq::empty())
    } else {
        match lower_statements(scopes, list.drop_last()) {
            Err(e) => Err(e),
            Ok(front) => match lower_expr(scopes, list.last()->ExprStatement_0) {
                Err(e) => Err(e),
                Ok(last) => Ok(front.push(StatementView::ExprStatement(last))),
            },
        }
    }
}

/// A block, resolved in a scope of its own inside `scopes`: its statements,
/// then its tail expression.
pub open spec fn lower_block(
    scopes: Seq<Map<Seq<char>, Id>>,
    block: BlockExprView<Seq<char>>,
) -> Result<BlockExprView<Id>, LowerErrorView> {
    let inner = scopes.push(Map::empty());
    match lower_statements(inner, block.statements) {
        Err(e) => Err(e),
        Ok(statements) => match block.return_expression {
            None => Ok(BlockExprView { statements, return_expression: None }),
            Some(tail) => match lower_expr(inner, tail) {
                Err(e) => Err(e),
                Ok(tail) => Ok(BlockExprView { statements, return_expression: Some(tail) }),
            },
        },
    }
}

/// What a function gives: its type, then its effect.
pub open spec fn lower_output(
    scopes: Seq<Map<Seq<char>, Id>>,
    output: FunctionOutputView<Seq<char>>,
) -> Result<FunctionOutputView<Id>, LowerErrorView> {
    match resolve(scopes, output.ty) {
        None => Err(LowerErrorView::UndefinedSymbol(output.ty)),
        Some(ty) => match output.eff {
            None => Ok(FunctionOutputView { ty, eff: None }),
            Some(name) => match resolve(scopes, name) {
                None => Err(LowerErrorView::UndefinedSymbol(name)),
                Some(eff) => Ok(FunctionOutputView { ty, eff: Some(eff) }),
            },
        },
    }
}

/// A declaration: what the function gives, then its body.
pub open spec fn lower_item(
    scopes: Seq<Map<Seq<char>, Id>>,
    item: ModuleItemView<Seq<char>>,
) -> Result<ModuleItemView<Id>, LowerErrorView> {
    let function = item->Function_0;
    match lower_output(scopes, function.output) {
        Err(e) => Err(e),
        Ok(output) => match lower_block(scopes, function.body) {
            Err(e) => Err(e),
            Ok(body) => Ok(
                ModuleItemView::Function(
                    FunctionView { name: function.name, inputs: function.inputs, output, body },
                ),
            ),
        },
    }
}

/// The state of lowering between two declarations.
pub struct Lowered {
    pub scopes: ScopesView,
    pub module: Seq<(Id, ModuleItemView<Id>)>,
}

/// One more declaration: its name is bound to `id` in the innermost scope,
/// then the declaration is lowered, so that it may refer to itself.
pub open spec fn lower_entry(
    state: Lowered,
    name: Seq<char>,
    item: ModuleItemView<Seq<char>>,
    id: Id,
) -> Result<Lowered, LowerErrorView> {
    match state.scopes.bind(name, id) {
        Err(e) => Err(e),
        Ok(scopes) => match lower_item(scopes.inner, item) {
            Err(e) => Err(e),
            Ok(item) => Ok(Lowered { scopes, module: state.module.push((id, item)) }),
        },
    }
}

/// The declarations of a module from first to last, the one at position
/// `i` under the identity `ids[i]`, starting from the prelude; they cannot be
/// lowered where there are fewer identities than declarations.
pub open spec fn lower_entries(
    entries: Seq<(Seq<char>, ModuleItemView<Seq<char>>)>,
    ids: Seq<u64>,
) -> Result<Lowered, LowerErrorView>
    decreases entries.len(),
{
    if entries.len() == 0 {
        Ok(Lowered { scopes: prelude(), module: Seq::empty() })
    } else {
        match lower_entries(entries.drop_last(), ids) {
            Err(e) => Err(e),
            Ok(state) => if ids.len() < entries.len() {
                Err(LowerErrorView::MissingId)
            } else {
                lower_entry(state, entries.last().0, entries.last().1, Id(ids[entries.len() - 1]))
            },
        }
    }
}

/// The declarations of a lowered module, each under the number of its
/// identity.
pub open spec fn declarations(module: Seq<(Id, ModuleItemView<Id>)>) -> Map<
    u64,
    ModuleItemView<Id>,
>
    decreases module.len(),
{
    if module.len() == 0 {
        Map::empty()
    } else {
        declarations(module.drop_last()).insert(module.last().0.0, module.last().1)
    }
}

/// The lowered module, with the name of every identity that was bound.
pub open spec fn lower(module: ModuleView<Seq<char>, Seq<char>>, ids: Seq<u64>) -> Result<
    HirView,
    LowerErrorView,
> {
    match lower_entries(module.entries, ids) {
        Err(e) => Err(e),
        Ok(state) => Ok(
            HirView {
                module: declarations(state.module),
                id_map: state.scopes.reverse_map,
            },
        ),
    }
}

/// The expression calls `id`, itself or in an argument or child at any depth.
pub open spec fn expr_calls(e: ExprView<Id>, id: Id) -> bool
    decreases e,
{
    match e {
        ExprView::StringLiteral(_) => false,
        ExprView::FunctionCall(call) => {
            ||| call.name == id
            ||| exists|i: int| 0 <= i < call.args.len() && expr_calls(#[trigger] call.args[i], id)
            ||| exists|i: int|
                0 <= i < call.children.len() && expr_calls(#[trigger] call.children[i], id)
        },
    }
}

/// A statement of the block or its tail expression calls `id`.
pub open spec fn block_calls(block: BlockExprView<Id>, id: Id) -> bool {
    ||| exists|i: int|
        0 <= i < block.statements.len() && expr_calls(
            (#[trigger] block.statements[i])->ExprStatement_0,
            id,
        )
    ||| block.return_expression is Some && expr_calls(block.return_expression->Some_0, id)
}

/// The declaration under `key` holds `id`: as its own identity, as its type
/// or effect, or as the target of a call.
pub open spec fn item_uses(key: Id, item: ModuleItemView<Id>, id: Id) -> bool {
    let function = item->Function_0;
    ||| key == id
    ||| function.output.ty == id
    ||| function.output.eff == Some(id)
    ||| block_calls(function.body, id)
}

impl HirView {
    /// The identity stands somewhere in the module.
    pub open spec fn uses(self, id: Id) -> bool {
        exists|k: u64| #[trigger]
            self.module.contains_key(k) && item_uses(Id(k), self.module[k], id)
    }

    /// Every identity that stands in the module has its name on record.
    pub open spec fn wf(self) -> bool {
        forall|id: Id| self.uses(id) ==> self.id_map.contains_key(id.0)
    }
}

/// An identity that a name resolves to has its name on record.
pub proof fn lemma_resolved_is_named(scopes: ScopesView, name: Seq<char>)
    requires
        scopes.wf(),
        resolve(scopes.inner, name) is Some,
    ensures
        scopes.reverse_map.contains_key(resolve(scopes.inner, name)->Some_0.0),
    decreases scopes.inner.len(),
{
    if scopes.inner.last().contains_key(name) {
        assert(scopes.inner[scopes.inner.len() - 1].contains_key(name));
    } else {
        let outer = ScopesView { inner: scopes.inner.drop_last(), reverse_map: scopes.reverse_map };
        assert forall|i: int, n: Seq<char>|
            0 <= i < outer.inner.len() && #[trigger] outer.inner[i].contains_key(
                n,
            ) implies outer.reverse_map.contains_key(outer.inner[i][n].0) by {
            assert(scopes.inner[i].contains_key(n));
        }
        lemma_resolved_is_named(outer, name);
    }
}

/// Every identity that a lowered expression calls has its name on record.
pub proof fn lemma_lowered_expr_is_named(scopes: ScopesView, e: ExprView<Seq<char>>, id: Id)
    requires
        scopes.wf(),
        lower_expr(scopes.inner, e) is Ok,
        expr_calls(lower_expr(scopes.inner, e)->Ok_0, id),
    ensures
        scopes.reverse_map.contains_key(id.0),
    decreases e, 0nat,
{
    let call = e->FunctionCall_0;
    let lowered = lower_expr(scopes.inner, e)->Ok_0->FunctionCall_0;
    if lowered.name == id {
        lemma_resolved_is_named(scopes, call.name);
    } else if exists|i: int|
        0 <= i < lowered.args.len() && expr_calls(#[trigger] lowered.args[i], id) {
        let i = choose|i: int|
            0 <= i < lowered.args.len() && expr_calls(#[trigger] lowered.args[i], id);
        lemma_lowered_exprs_are_named(scopes, call.args, i, id);
    } else {
        let i = choose|i: int|
            0 <= i < lowered.children.len() && expr_calls(#[trigger] lowered.children[i], id);
        lemma_lowered_exprs_are_named(scopes, call.children, i, id);
    }
}

/// The same for the expression at position `i` of a lowered list.
pub proof fn lemma_lowered_exprs_are_named(
    scopes: ScopesView,
    list: Seq<ExprView<Seq<char>>>,
    i: int,
    id: Id,
)
    requires
        scopes.wf(),
        lower_exprs(scopes.inner, list) is Ok,
        0 <= i < lower_exprs(scopes.inner, list)->Ok_0.len(),
        expr_calls(lower_exprs(scopes.inner, list)->Ok_0[i], id),
    ensures
        scopes.reverse_map.contains_key(id.0),
    decreases list, 1nat,
{
    if list.len() > 0 {
        let front = lower_exprs(scopes.inner, list.drop_last())->Ok_0;
        if i < front.len() {
            lemma_lowered_exprs_are_named(scopes, list.drop_last(), i, id);
        } else {
            lemma_lowered_expr_is_named(scopes, list.last(), id);
        }
    }
}

/// The same for the statement at position `i` of a lowered list.
pub proof fn lemma_lowered_statements_are_named(
    scopes: ScopesView,
    list: Seq<StatementView<Seq<char>>>,
    i: int,
    id: Id,
)
    requires
        scopes.wf(),
        lower_statements(scopes.inner, list) is Ok,
        0 <= i < lower_statements(scopes.inner, list)->Ok_0.len(),
        expr_calls(lower_statements(scopes.inner, list)->Ok_0[i]->ExprStatement_0, id),
    ensures
        scopes.reverse_map.contains_key(id.0),
    decreases list.len(),
{
    if list.len() > 0 {
        let front = lower_statements(scopes.inner, list.drop_last())->Ok_0;
        if i < front.len() {
            lemma_lowered_statements_are_named(scopes, list.drop_last(), i, id);
        } else {
            lemma_lowered_expr_is_named(scopes, list.last()->ExprStatement_0, id);
        }
    }
}

/// Every identity that a lowered declaration holds, but for its own, has its
/// name on record.
pub proof fn lemma_lowered_item_is_named(
    scopes: ScopesView,
    item: ModuleItemView<Seq<char>>,
    key: Id,
    id: Id,
)
    requires
        scopes.wf(),
        lower_item(scopes.inner, item) is Ok,
        item_uses(key, lower_item(scopes.inner, item)->Ok_0, id),
        key != id,
    ensures
        scopes.reverse_map.contains_key(id.0),
{
    let function = item->Function_0;
    let lowered = lower_item(scopes.inner, item)->Ok_0->Function_0;
    if lowered.output.ty == id {
        lemma_resolved_is_named(scopes, function.output.ty);
    } else if lowered.output.eff == Some(id) {
        lemma_resolved_is_named(scopes, function.output.eff->Some_0);
    } else {
        let inner = ScopesView {
            inner: scopes.inner.push(Map::empty()),
            reverse_map: scopes.reverse_map,
        };
        crate::hugs::hir::lemma_scoped_wf(scopes);
        if exists|i: int|
            0 <= i < lowered.body.statements.len() && expr_calls(
                (#[trigger] lowered.body.statements[i])->ExprStatement_0,
                id,
            ) {
            let i = choose|i: int|
                0 <= i < lowered.body.statements.len() && expr_calls(
                    (#[trigger] lowered.body.statements[i])->ExprStatement_0,
                    id,
                );
            lemma_lowered_statements_are_named(inner, function.body.statements, i, id);
        } else {
            lemma_lowered_expr_is_named(inner, function.body.return_expression->Some_0, id);
        }
    }
}

/// What holds between two declarations: the scope of the prelude is the
/// only one open, every bound identity has its name on record, so has every
/// identity in the module so far, the built-in identities have theirs, and
/// no declaration has the identity of another or of a built-in name.
pub open spec fn lowered_inv(state: Lowered) -> bool {
    &&& state.scopes.inner.len() == 1
    &&& state.scopes.wf()
    &&& forall|k: u64| #[trigger]
        prelude().reverse_map.contains_key(k) ==> state.scopes.reverse_map.contains_key(k)
    &&& forall|i: int, id: Id|
        0 <= i < state.module.len() && #[trigger] item_uses(
            state.module[i].0,
            state.module[i].1,
            id,
        ) ==> state.scopes.reverse_map.contains_key(id.0)
    &&& forall|i: int|
        0 <= i < state.module.len() ==> !prelude().reverse_map.contains_key(
            (#[trigger] state.module[i]).0.0,
        )
    &&& forall|i: int, j: int|
        0 <= i < j < state.module.len() ==> (#[trigger] state.module[i]).0 != (
        #[trigger] state.module[j]).0
}

pub proof fn lemma_prelude_wf()
    ensures
        prelude().wf(),
        prelude().inner.len() == 1,
{
    let p = prelude();
    assert forall|i: int, name: Seq<char>|
        0 <= i < p.inner.len() && #[trigger] p.inner[i].contains_key(
            name,
        ) implies p.reverse_map.contains_key(p.inner[i][name].0) by {
        let id = p.inner[0][name];
        assert(id == Id(crate::hugs::hir::HTML) || id == Id(crate::hugs::hir::BODY) || id == Id(
            crate::hugs::hir::PARAGRAPH,
        ) || id == Id(crate::hugs::hir::CONSOLE));
    }
}

pub proof fn lemma_lower_entries_inv(
    entries: Seq<(Seq<char>, ModuleItemView<Seq<char>>)>,
    ids: Seq<u64>,
)
    requires
        lower_entries(entries, ids) is Ok,
    ensures
        lowered_inv(lower_entries(entries, ids)->Ok_0),
    decreases entries.len(),
{
    if entries.len() == 0 {
        lemma_prelude_wf();
    } else {
        lemma_lower_entries_inv(entries.drop_last(), ids);
        let before = lower_entries(entries.drop_last(), ids)->Ok_0;
        let after = lower_entries(entries, ids)->Ok_0;
        let name = entries.last().0;
        let id = Id(ids[entries.len() - 1]);
        let scopes = before.scopes.bound(name, id);
        assert(after.scopes == scopes);
        crate::hugs::hir::lemma_bound_wf(before.scopes, name, id);
        assert forall|i: int, used: Id|
            0 <= i < after.module.len() && #[trigger] item_uses(
                after.module[i].0,
                after.module[i].1,
                used,
            ) implies after.scopes.reverse_map.contains_key(used.0) by {
            if i < before.module.len() {
                assert(after.module[i] == before.module[i]);
            } else if used != id {
                lemma_lowered_item_is_named(scopes, entries.last().1, id, used);
            }
        }
        assert forall|i: int, j: int| 0 <= i < j < after.module.len() implies (
        #[trigger] after.module[i]).0 != (#[trigger] after.module[j]).0 by {
            if j < before.module.len() {
                assert(after.module[i] == before.module[i]);
                assert(after.module[j] == before.module[j]);
            } else {
                assert(after.module[i] == before.module[i]);
                assert(item_uses(before.module[i].0, before.module[i].1, before.module[i].0));
            }
        }
    }
}

/// What the record of names holds between two declarations: the module has
/// one declaration for each one read, under the identity given for it, and
/// the record has the built-in names and, for each declaration read, its name
/// under its identity, and nothing else.
pub open spec fn lowered_names(
    state: Lowered,
    entries: Seq<(Seq<char>, ModuleItemView<Seq<char>>)>,
    ids: Seq<u64>,
) -> bool {
    &&& entries.len() <= ids.len()
    &&& state.module.len() == entries.len()
    &&& forall|i: int| 0 <= i < entries.len() ==> (#[trigger] state.module[i]).0 == Id(ids[i])
    &&& forall|k: u64| #[trigger]
        state.scopes.reverse_map.contains_key(k) <==> prelude().reverse_map.contains_key(k) || (
        exists|i: int| 0 <= i < entries.len() && #[trigger] ids[i] == k)
    &&& forall|k: u64| #[trigger]
        prelude().reverse_map.contains_key(k) ==> state.scopes.reverse_map[k]
            == prelude().reverse_map[k]
    &&& forall|i: int|
        0 <= i < entries.len() ==> state.scopes.reverse_map[#[trigger] ids[i]] == entries[i].0
}

pub proof fn lemma_lower_entries_names(
    entries: Seq<(Seq<char>, ModuleItemView<Seq<char>>)>,
    ids: Seq<u64>,
)
    requires
        lower_entries(entries, ids) is Ok,
    ensures
        lowered_names(lower_entries(entries, ids)->Ok_0, entries, ids),
    decreases entries.len(),
{
    if entries.len() > 0 {
        let front = entries.drop_last();
        lemma_lower_entries_names(front, ids);
        let before = lower_entries(front, ids)->Ok_0;
        let after = lower_entries(entries, ids)->Ok_0;
        let last = entries.len() - 1;
        let id = ids[last];
        assert(!before.scopes.reverse_map.contains_key(id));
        assert(after.scopes.reverse_map == before.scopes.reverse_map.insert(id, entries.last().0));
        assert forall|i: int| 0 <= i < entries.len() implies (#[trigger] after.module[i]).0 == Id(
            ids[i],
        ) by {
            if i < last {
                assert(after.module[i] == before.module[i]);
            }
        }
        assert forall|k: u64| #[trigger]
            after.scopes.reverse_map.contains_key(k) <==> prelude().reverse_map.contains_key(k)
                || (exists|i: int| 0 <= i < entries.len() && #[trigger] ids[i] == k) by {
            if exists|i: int| 0 <= i < entries.len() && #[trigger] ids[i] == k {
                let i = choose|i: int| 0 <= i < entries.len() && #[trigger] ids[i] == k;
                if i < last {
                    assert(0 <= i < front.len() && ids[i] == k);
                }
            }
            if before.scopes.reverse_map.contains_key(k) && !prelude().reverse_map.contains_key(k) {
                let i = choose|i: int| 0 <= i < front.len() && #[trigger] ids[i] == k;
                assert(0 <= i < entries.len() && ids[i] == k);
            }
            if k == id {
                assert(0 <= last < entries.len() && ids[last] == k);
            }
        }
        assert forall|i: int| 0 <= i < entries.len() implies {
            after.scopes.reverse_map[#[trigger] ids[i]] == entries[i].0
        } by {
            if i < last {
                assert(0 <= i < front.len() && ids[i] == ids[i]);
                assert(before.scopes.reverse_map.contains_key(ids[i]));
                assert(front[i] == entries[i]);
            }
        }
    }
}

/// Declarations with identities of their own stand in a lowered module
/// just as they stand in the list: each under its identity, and no other.
pub proof fn lemma_declarations(module: Seq<(Id, ModuleItemView<Id>)>)
    requires
        forall|i: int, j: int|
            0 <= i < j < module.len() ==> (#[trigger] module[i]).0 != (#[trigger] module[j]).0,
    ensures
        forall|k: u64| #[trigger]
            declarations(module).contains_key(k) <==> exists|i: int|
                0 <= i < module.len() && (#[trigger] module[i]).0.0 == k,
        forall|i: int|
            0 <= i < module.len() ==> declarations(module)[(#[trigger] module[i]).0.0]
                == module[i].1,
    decreases module.len(),
{
    if module.len() > 0 {
        let front = module.drop_last();
        let last = module.len() - 1;
        assert forall|i: int, j: int| 0 <= i < j < front.len() implies (#[trigger] front[i]).0 != (
        #[trigger] front[j]).0 by {
            assert(front[i] == module[i]);
            assert(front[j] == module[j]);
        }
        lemma_declarations(front);
        assert forall|k: u64| #[trigger]
            declarations(module).contains_key(k) <==> exists|i: int|
                0 <= i < module.len() && (#[trigger] module[i]).0.0 == k by {
            if declarations(front).contains_key(k) {
                let i = choose|i: int| 0 <= i < front.len() && (#[trigger] front[i]).0.0 == k;
                assert(module[i].0.0 == k);
            }
            if k == module[last].0.0 {
                assert(module[last].0.0 == k);
            }
            if exists|i: int| 0 <= i < module.len() && (#[trigger] module[i]).0.0 == k {
                let i = choose|i: int| 0 <= i < module.len() && (#[trigger] module[i]).0.0 == k;
                if i < last {
                    assert(front[i].0.0 == k);
                }
            }
        }
        assert forall|i: int| 0 <= i < module.len() implies declarations(module)[(
        #[trigger] module[i]).0.0] == module[i].1 by {
            if i < last {
                assert(front[i] == module[i]);
                assert(module[i].0 != module[last].0);
            }
        }
    }
}

/// Lowering names what it declares and nothing else: a lowered module has
/// one declaration for each declaration of the module, under the identity
/// given for it, and the record of names holds the built-in names under
/// their fixed identities and the name of each declaration under its
/// identity, and no other entry.
pub proof fn lemma_lowered_names(module: ModuleView<Seq<char>, Seq<char>>, ids: Seq<u64>)
    requires
        lower(module, ids) is Ok,
    ensures
        ({
            let hir = lower(module, ids)->Ok_0;
            &&& forall|k: u64| #[trigger]
                hir.module.contains_key(k) <==> exists|i: int|
                    0 <= i < module.entries.len() && #[trigger] ids[i] == k
            &&& forall|i: int|
                0 <= i < module.entries.len() ==> hir.id_map[#[trigger] ids[i]]
                    == module.entries[i].0
            &&& forall|k: u64| #[trigger]
                hir.id_map.contains_key(k) <==> prelude().reverse_map.contains_key(k) || (
                exists|i: int| 0 <= i < module.entries.len() && #[trigger] ids[i] == k)
            &&& forall|k: u64| #[trigger]
                prelude().reverse_map.contains_key(k) ==> hir.id_map[k] == prelude().reverse_map[k]
        }),
{
    lemma_lower_entries_names(module.entries, ids);
    lemma_lower_entries_inv(module.entries, ids);
    let state = lower_entries(module.entries, ids)->Ok_0;
    lemma_declarations(state.module);
    let hir = lower(module, ids)->Ok_0;
    assert forall|k: u64| #[trigger]
        hir.module.contains_key(k) <==> exists|i: int|
            0 <= i < module.entries.len() && #[trigger] ids[i] == k by {
        if hir.module.contains_key(k) {
            let i = choose|i: int|
                0 <= i < state.module.len() && (#[trigger] state.module[i]).0.0 == k;
            assert(ids[i] == k);
        }
        if exists|i: int| 0 <= i < module.entries.len() && #[trigger] ids[i] == k {
            let i = choose|i: int| 0 <= i < module.entries.len() && #[trigger] ids[i] == k;
            assert(state.module[i].0.0 == k);
        }
    }
}

/// Lowering leaves no identity without a name: every identity that stands
/// in a lowered module, as that of a declaration, as a type or effect, or as
/// the target of a call, has its name on record. No declaration has the
/// identity of a built-in name.
pub proof fn lemma_lowered_wf(module: ModuleView<Seq<char>, Seq<char>>, ids: Seq<u64>)
    requires
        lower(module, ids) is Ok,
    ensures
        lower(module, ids)->Ok_0.wf(),
        forall|k: u64| #[trigger]
            lower(module, ids)->Ok_0.module.contains_key(k) ==> !prelude().reverse_map.contains_key(
                k,
            ),
{
    lemma_lower_entries_inv(module.entries, ids);
    let state = lower_entries(module.entries, ids)->Ok_0;
    let hir = lower(module, ids)->Ok_0;
    lemma_declarations(state.module);
    assert forall|id: Id| hir.uses(id) implies hir.id_map.contains_key(id.0) by {
        let k = choose|k: u64| #[trigger]
            hir.module.contains_key(k) && item_uses(Id(k), hir.module[k], id);
        let i = choose|i: int|
            0 <= i < state.module.len() && (#[trigger] state.module[i]).0.0 == k;
        assert(item_uses(state.module[i].0, state.module[i].1, id));
    }
    assert forall|k: u64| #[trigger] hir.module.contains_key(k) implies {
        !prelude().reverse_map.contains_key(k)
    } by {
        let i = choose|i: int|
            0 <= i < state.module.len() && (#[trigger] state.module[i]).0.0 == k;
        assert(!prelude().reverse_map.contains_key(state.module[i].0.0));
    }
}

} // verus!
