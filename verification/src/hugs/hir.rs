//! The intermediate representation: the surface tree with every name
//! replaced by an identity, and the scopes that resolve the names.

use std::collections::{BTreeMap, HashMap};
use vstd::prelude::*;
use vstd::string::*;
use crate::hugs::lowering;
use crate::parser;
use crate::text::same;
use crate::parser::{
    BlockExprView, ExprView, FunctionCallExprView, FunctionOutputView, FunctionView,
    ModuleItemView, StatementView, AST,
};

verus! {

/// The identity of a declaration.
#[derive(Debug, PartialEq, Eq, PartialOrd, Ord, Hash, Clone, Copy, Structural)]
pub struct Id(pub u64);

pub const HTML: u64 = 0xa624256d78ea27e8;

pub const BODY: u64 = 0xf65ea75ed430d7aa;

pub const PARAGRAPH: u64 = 0x829569a9b2c10679;

pub const CONSOLE: u64 = 0x6f21a62dd1571f6e;

/// Why a module could not be lowered.
#[derive(Debug, PartialEq)]
pub enum LowerError {
    /// A name is used that no enclosing scope binds.
    UndefinedSymbol(String),
    /// A fresh identity was drawn that a name already has.
    IdCollision(Id),
    /// No identity is left for a declaration.
    MissingId,
}

pub enum LowerErrorView {
    UndefinedSymbol(Seq<char>),
    IdCollision(Id),
    MissingId,
}

impl View for LowerError {
    type V = LowerErrorView;

    open spec fn view(&self) -> LowerErrorView {
        match self {
            LowerError::UndefinedSymbol(name) => LowerErrorView::UndefinedSymbol(name@),
            LowerError::IdCollision(id) => LowerErrorView::IdCollision(*id),
            LowerError::MissingId => LowerErrorView::MissingId,
        }
    }
}

/// The model of a lowered module: its declarations, each under its
/// identity, and the name of every identity.
pub struct HirView {
    pub module: Map<u64, ModuleItemView<Id>>,
    pub id_map: Map<u64, Seq<char>>,
}

/// The model of the scopes: the bindings of each open scope, innermost last,
/// and the name of every identity ever bound.
pub struct ScopesView {
    pub inner: Seq<Map<Seq<char>, Id>>,
    pub reverse_map: Map<u64, Seq<char>>,
}

/// The identity that `name` resolves to: that of the innermost scope that
/// binds it.
pub open spec fn resolve(scopes: Seq<Map<Seq<char>, Id>>, name: Seq<char>) -> Option<Id>
    decreases scopes.len(),
{
    if scopes.len() == 0 {
        None
    } else if scopes.last().contains_key(name) {
        Some(scopes.last()[name])
    } else {
        resolve(scopes.drop_last(), name)
    }
}

/// The scopes before any lowering: one scope, which binds the built-in names
/// to their fixed identities.
pub open spec fn prelude() -> ScopesView {
    ScopesView {
        inner: seq![
            Map::empty().insert("Html"@, Id(HTML)).insert("Body"@, Id(BODY)).insert(
                "Paragraph"@,
                Id(PARAGRAPH),
            ).insert("Console"@, Id(CONSOLE)),
        ],
        reverse_map: Map::empty().insert(HTML, "Html"@).insert(BODY, "Body"@).insert(
            PARAGRAPH,
            "Paragraph"@,
        ).insert(CONSOLE, "Console"@),
    }
}

impl ScopesView {
    /// Every identity that a scope binds has its name on record.
    pub open spec fn wf(self) -> bool {
        forall|i: int, name: Seq<char>|
            0 <= i < self.inner.len() && #[trigger] self.inner[i].contains_key(name)
                ==> self.reverse_map.contains_key(self.inner[i][name].0)
    }

    /// The scopes after `name` was bound to `id` in the innermost scope.
    pub open spec fn bound(self, name: Seq<char>, id: Id) -> ScopesView {
        ScopesView {
            inner: self.inner.drop_last().push(self.inner.last().insert(name, id)),
            reverse_map: self.reverse_map.insert(id.0, name),
        }
    }

    /// Binding `name` to `id`: refused where `id` already has a name.
    pub open spec fn bind(self, name: Seq<char>, id: Id) -> Result<ScopesView, LowerErrorView> {
        if self.reverse_map.contains_key(id.0) {
            Err(LowerErrorView::IdCollision(id))
        } else {
            Ok(self.bound(name, id))
        }
    }
}

/// Binding keeps the names on record and adds one: no name that was on
/// record is lost or changed.
pub proof fn lemma_bind_keeps_names(scopes: ScopesView, name: Seq<char>, id: Id)
    requires
        scopes.bind(name, id) is Ok,
    ensures
        forall|k: u64| #[trigger]
            scopes.reverse_map.contains_key(k) ==> scopes.bind(
                name,
                id,
            )->Ok_0.reverse_map.contains_key(k) && scopes.bind(name, id)->Ok_0.reverse_map[k]
                == scopes.reverse_map[k],
        scopes.bind(name, id)->Ok_0.reverse_map.contains_key(id.0),
        scopes.bind(name, id)->Ok_0.reverse_map[id.0] == name,
{
}

/// Binding keeps the scopes well formed.
pub proof fn lemma_bound_wf(scopes: ScopesView, name: Seq<char>, id: Id)
    requires
        scopes.wf(),
        scopes.inner.len() > 0,
    ensures
        scopes.bound(name, id).wf(),
{
    let bound = scopes.bound(name, id);
    assert forall|i: int, n: Seq<char>|
        0 <= i < bound.inner.len() && #[trigger] bound.inner[i].contains_key(
            n,
        ) implies bound.reverse_map.contains_key(bound.inner[i][n].0) by {
        if i < bound.inner.len() - 1 || n != name {
            assert(scopes.inner[i].contains_key(n));
        }
    }
}

/// Opening and closing a scope keeps the scopes well formed.
pub proof fn lemma_scoped_wf(scopes: ScopesView)
    requires
        scopes.wf(),
    ensures
        (ScopesView {
            inner: scopes.inner.push(Map::empty()),
            reverse_map: scopes.reverse_map,
        }).wf(),
        scopes.inner.len() > 0 ==> (ScopesView {
            inner: scopes.inner.drop_last(),
            reverse_map: scopes.reverse_map,
        }).wf(),
{
    let opened = ScopesView {
        inner: scopes.inner.push(Map::empty()),
        reverse_map: scopes.reverse_map,
    };
    assert forall|i: int, n: Seq<char>|
        0 <= i < opened.inner.len() && #[trigger] opened.inner[i].contains_key(
            n,
        ) implies opened.reverse_map.contains_key(opened.inner[i][n].0) by {
        if i < scopes.inner.len() {
            assert(scopes.inner[i].contains_key(n));
        }
    }
    if scopes.inner.len() > 0 {
        let closed = ScopesView {
            inner: scopes.inner.drop_last(),
            reverse_map: scopes.reverse_map,
        };
        assert forall|i: int, n: Seq<char>|
            0 <= i < closed.inner.len() && #[trigger] closed.inner[i].contains_key(
                n,
            ) implies closed.reverse_map.contains_key(closed.inner[i][n].0) by {
            assert(scopes.inner[i].contains_key(n));
        }
    }
}

/// The bindings that a scope holds: of two for one name, the later one.
pub open spec fn bindings(scope: Seq<(String, Id)>) -> Map<Seq<char>, Id>
    decreases scope.len(),
{
    if scope.len() == 0 {
        Map::empty()
    } else {
        bindings(scope.drop_last()).insert(scope.last().0@, scope.last().1)
    }
}

/// The stack of scopes that resolves names during lowering.
pub struct Scopes {
    inner: Vec<Vec<(String, Id)>>,
    reverse_map: BTreeMap<u64, String>,
}

impl View for Scopes {
    type V = ScopesView;

    closed spec fn view(&self) -> ScopesView {
        ScopesView {
            inner: Seq::new(self.inner@.len(), |i: int| bindings(self.inner@[i]@)),
            reverse_map: self.reverse_map@.map_values(|name: String| name@),
        }
    }
}

/// The keys of the record of names are ordered as the numbers they are.
proof fn lemma_keys_ordered()
    ensures
        vstd::laws_cmp::obeys_cmp::<u64>(),
{
    broadcast use vstd::laws_cmp::group_laws_cmp;
}

/// `rand::random`: a number drawn from the generator of the running thread.
/// Nothing is known of it.
#[verifier::external_body]
fn random_u64() -> u64 {
    rand::random()
}

/// The binding of `name` in one scope.
fn lookup(scope: &Vec<(String, Id)>, name: &str) -> (r: Option<Id>)
    ensures
        r == if bindings(scope@).contains_key(name@) {
            Some(bindings(scope@)[name@])
        } else {
            None
        },
{
    let mut i = scope.len();
    assert(scope@.take(i as int) =~= scope@);
    while i > 0
        invariant
            i <= scope.len(),
            bindings(scope@).contains_key(name@) <==> bindings(scope@.take(i as int)).contains_key(
                name@,
            ),
            bindings(scope@).contains_key(name@) ==> bindings(scope@)[name@] == bindings(
                scope@.take(i as int),
            )[name@],
        decreases i,
    {
        proof {
            assert(scope@.take(i as int).drop_last() =~= scope@.take(i - 1));
        }
        i = i - 1;
        if same(scope[i].0.as_str(), name) {
            return Some(scope[i].1);
        }
    }
    proof {
        assert(scope@.take(0).len() == 0);
    }
    None
}

impl Scopes {
    /// The scopes before any lowering.
    pub fn with_prelude() -> (scopes: Scopes)
        ensures
            scopes@ == prelude(),
            scopes@.wf(),
    {
        let scope = vec![
            (String::from_str("Html"), Id(HTML)),
            (String::from_str("Body"), Id(BODY)),
            (String::from_str("Paragraph"), Id(PARAGRAPH)),
            (String::from_str("Console"), Id(CONSOLE)),
        ];
        let mut reverse_map: BTreeMap<u64, String> = BTreeMap::new();
        proof {
            lemma_keys_ordered();
        }
        reverse_map.insert(HTML, String::from_str("Html"));
        reverse_map.insert(BODY, String::from_str("Body"));
        reverse_map.insert(PARAGRAPH, String::from_str("Paragraph"));
        reverse_map.insert(CONSOLE, String::from_str("Console"));
        let scopes = Scopes { inner: vec![scope], reverse_map };
        proof {
            let s = scope@;
            assert(s.drop_last().drop_last().drop_last().drop_last() =~= Seq::empty());
            reveal_with_fuel(bindings, 5);
            assert(scopes@.inner =~= prelude().inner);
            assert(scopes@.reverse_map =~= prelude().reverse_map);
        }
        scopes
    }

    /// Binds `ident` to `id` in the innermost scope, unless `id` already has
    /// a name: then nothing changes.
    pub fn bind(&mut self, ident: &str, id: Id) -> (r: Result<(), LowerError>)
        requires
            old(self)@.inner.len() > 0,
        ensures
            match old(self)@.bind(ident@, id) {
                Ok(scopes) => r is Ok && final(self)@ == scopes,
                Err(e) => r is Err && r->Err_0@ == e && final(self)@ == old(self)@,
            },
            old(self)@.wf() ==> final(self)@.wf(),
    {
        proof {
            lemma_keys_ordered();
            if old(self)@.wf() {
                lemma_bound_wf(old(self)@, ident@, id);
            }
        }
        if self.reverse_map.contains_key(&id.0) {
            return Err(LowerError::IdCollision(id));
        }
        let ghost before = self@;
        let ghost scope = self.inner@.last()@;
        let innermost = self.inner.len() - 1;
        self.inner[innermost].push((String::from_str(ident), id));
        self.reverse_map.insert(id.0, String::from_str(ident));
        proof {
            assert(self.inner@.last()@.drop_last() =~= scope);
            assert(self@.inner =~= before.bound(ident@, id).inner);
            assert(self@.reverse_map =~= before.bound(ident@, id).reverse_map);
        }
        Ok(())
    }

    /// Binds `ident` to a fresh identity. Whatever number is drawn, it is
    /// bound only where no name has it yet.
    pub fn new_id(&mut self, ident: &str) -> (r: Result<Id, LowerError>)
        requires
            old(self)@.inner.len() > 0,
        ensures
            match r {
                Ok(id) => old(self)@.bind(ident@, id) == Ok::<ScopesView, LowerErrorView>(
                    final(self)@,
                ),
                Err(e) => final(self)@ == old(self)@ && e@ is IdCollision && old(
                    self,
                )@.reverse_map.contains_key(e@->IdCollision_0.0),
            },
            old(self)@.wf() ==> final(self)@.wf(),
    {
        let id = Id(random_u64());
        match self.bind(ident, id) {
            Ok(()) => Ok(id),
            Err(e) => Err(e),
        }
    }

    /// The identity that `ident` resolves to.
    pub fn get_id(&self, ident: &str) -> (r: Option<Id>)
        ensures
            r == resolve(self@.inner, ident@),
    {
        let mut i = self.inner.len();
        assert(self@.inner.take(i as int) =~= self@.inner);
        while i > 0
            invariant
                i <= self.inner.len(),
                resolve(self@.inner, ident@) == resolve(self@.inner.take(i as int), ident@),
            decreases i,
        {
            proof {
                assert(self@.inner.take(i as int).drop_last() =~= self@.inner.take(i - 1));
            }
            i = i - 1;
            match lookup(&self.inner[i], ident) {
                Some(id) => {
                    return Some(id);
                },
                None => {},
            }
        }
        None
    }

    /// The number of open scopes. A name can be bound while it is not zero.
    pub fn depth(&self) -> (n: usize)
        ensures
            n == self@.inner.len(),
    {
        self.inner.len()
    }

    /// Opens a scope that binds nothing yet.
    pub fn new_scope(&mut self)
        ensures
            final(self)@.inner == old(self)@.inner.push(Map::empty()),
            final(self)@.reverse_map == old(self)@.reverse_map,
            old(self)@.wf() ==> final(self)@.wf(),
    {
        self.inner.push(Vec::new());
        proof {
            if old(self)@.wf() {
                lemma_scoped_wf(old(self)@);
            }
            assert(self@.inner =~= old(self)@.inner.push(Map::empty()));
        }
    }

    /// Closes the innermost scope, if there is one.
    pub fn pop_scope(&mut self)
        ensures
            final(self)@.inner == if old(self)@.inner.len() > 0 {
                old(self)@.inner.drop_last()
            } else {
                old(self)@.inner
            },
            final(self)@.reverse_map == old(self)@.reverse_map,
            old(self)@.wf() ==> final(self)@.wf(),
    {
        self.inner.pop();
        proof {
            if old(self)@.wf() {
                lemma_scoped_wf(old(self)@);
            }
            if old(self)@.inner.len() > 0 {
                assert(self@.inner =~= old(self)@.inner.drop_last());
            } else {
                assert(self@.inner =~= old(self)@.inner);
            }
        }
    }

    /// The name of every identity ever bound.
    pub fn into_id_map(self) -> (id_map: BTreeMap<u64, String>)
        ensures
            id_map@.map_values(|name: String| name@) == self@.reverse_map,
    {
        self.reverse_map
    }
}

/// A lowered module: its declarations, each under the number of its
/// identity, and the name of every identity that lowering bound.
#[derive(Debug, PartialEq)]
pub struct Hir {
    pub module: HashMap<u64, ModuleItem>,
    pub id_map: BTreeMap<u64, String>,
}

#[derive(Debug, PartialEq)]
pub struct FunctionCallExpr {
    pub name: Id,
    pub args: Vec<Expr>,
    pub children: Vec<Expr>,
}

#[derive(Debug, PartialEq)]
pub struct BlockExpr {
    pub statements: Vec<Statement>,
    pub return_expression: Option<Expr>,
}

#[derive(Debug, PartialEq)]
pub enum Expr {
    StringLiteral(String),
    FunctionCall(FunctionCallExpr),
}

#[derive(Debug, PartialEq)]
pub enum Statement {
    ExprStatement(Expr),
}

#[derive(Debug, PartialEq)]
pub struct FunctionOutput {
    pub ty: Id,
    pub eff: Option<Id>,
}

#[derive(Debug, PartialEq)]
pub struct Function {
    pub name: String,
    pub inputs: (),
    pub output: FunctionOutput,
    pub body: BlockExpr,
}

#[derive(Debug, PartialEq)]
pub enum ModuleItem {
    Function(Function),
}

/// The model of an expression.
pub open spec fn expr_view(expr: Expr) -> ExprView<Id>
    decreases expr,
{
    match expr {
        Expr::StringLiteral(text) => ExprView::StringLiteral(text@),
        Expr::FunctionCall(call) => ExprView::FunctionCall(
            FunctionCallExprView {
                name: call.name,
                args: Seq::new(
                    call.args@.len(),
                    |i: int|
                        if 0 <= i < call.args@.len() {
                            expr_view(call.args@[i])
                        } else {
                            arbitrary()
                        },
                ),
                children: Seq::new(
                    call.children@.len(),
                    |i: int|
                        if 0 <= i < call.children@.len() {
                            expr_view(call.children@[i])
                        } else {
                            arbitrary()
                        },
                ),
            },
        ),
    }
}

impl View for Expr {
    type V = ExprView<Id>;

    open spec fn view(&self) -> Self::V {
        expr_view(*self)
    }
}

/// The models of a sequence of expressions, in order.
pub open spec fn expr_views(exprs: Seq<Expr>) -> Seq<ExprView<Id>> {
    Seq::new(exprs.len(), |i: int| exprs[i]@)
}

/// The models of a sequence of statements, in order.
pub open spec fn statement_views(statements: Seq<Statement>) -> Seq<StatementView<Id>> {
    Seq::new(statements.len(), |i: int| statements[i]@)
}

impl View for FunctionCallExpr {
    type V = FunctionCallExprView<Id>;

    open spec fn view(&self) -> Self::V {
        FunctionCallExprView {
            name: self.name,
            args: expr_views(self.args@),
            children: expr_views(self.children@),
        }
    }
}

impl View for Statement {
    type V = StatementView<Id>;

    open spec fn view(&self) -> Self::V {
        match self {
            Statement::ExprStatement(expr) => StatementView::ExprStatement(expr@),
        }
    }
}

impl View for BlockExpr {
    type V = BlockExprView<Id>;

    open spec fn view(&self) -> Self::V {
        BlockExprView {
            statements: statement_views(self.statements@),
            return_expression: match self.return_expression {
                Some(expr) => Some(expr@),
                None => None,
            },
        }
    }
}

impl View for FunctionOutput {
    type V = FunctionOutputView<Id>;

    open spec fn view(&self) -> Self::V {
        FunctionOutputView { ty: self.ty, eff: self.eff }
    }
}

impl View for Function {
    type V = FunctionView<Id>;

    open spec fn view(&self) -> Self::V {
        FunctionView {
            name: self.name@,
            inputs: self.inputs,
            output: self.output@,
            body: self.body@,
        }
    }
}

impl View for ModuleItem {
    type V = ModuleItemView<Id>;

    open spec fn view(&self) -> Self::V {
        match self {
            ModuleItem::Function(function) => ModuleItemView::Function(function@),
        }
    }
}

/// The models of the declarations of a module, each under its key.
pub open spec fn item_views(module: Map<u64, ModuleItem>) -> Map<u64, ModuleItemView<Id>> {
    module.map_values(|item: ModuleItem| item@)
}

impl View for Hir {
    type V = HirView;

    open spec fn view(&self) -> Self::V {
        HirView {
            module: item_views(self.module@),
            id_map: self.id_map@.map_values(|name: String| name@),
        }
    }
}

/// The model of a call expression is the model of the call it holds.
pub proof fn lemma_call_view(call: FunctionCallExpr)
    ensures
        Expr::FunctionCall(call)@ == ExprView::FunctionCall(call@),
{
    reveal_with_fuel(expr_view, 2);
    let e = Expr::FunctionCall(call);
    assert(e@->FunctionCall_0.args =~= call@.args);
    assert(e@->FunctionCall_0.children =~= call@.children);
}

/// The result `r` of lowering is what the model of lowering gives.
pub open spec fn agrees<T: View>(
    r: Result<T, LowerError>,
    model: Result<T::V, LowerErrorView>,
) -> bool {
    match model {
        Ok(v) => r is Ok && r->Ok_0@ == v,
        Err(e) => r is Err && r->Err_0@ == e,
    }
}

/// Lowers the expressions of a list, from first to last.
fn lower_list(scopes: &mut Scopes, list: &Vec<parser::Expr>) -> (r: Result<Vec<Expr>, LowerError>)
    ensures
        final(scopes)@ == old(scopes)@,
        match lowering::lower_exprs(old(scopes)@.inner, parser::expr_views(list@)) {
            Ok(v) => r is Ok && expr_views(r->Ok_0@) == v,
            Err(e) => r is Err && r->Err_0@ == e,
        },
    decreases list, 1nat,
{
    let mut lowered: Vec<Expr> = Vec::new();
    let ghost source = parser::expr_views(list@);
    assert(source.take(0) =~= Seq::empty());
    assert(expr_views(lowered@) =~= Seq::empty());
    let mut i: usize = 0;
    while i < list.len()
        invariant
            i <= list.len(),
            scopes@ == old(scopes)@,
            source == parser::expr_views(list@),
            lowering::lower_exprs(scopes@.inner, source.take(i as int)) == Ok::<
                Seq<ExprView<Id>>,
                LowerErrorView,
            >(expr_views(lowered@)),
        decreases list.len() - i,
    {
        let ghost front = expr_views(lowered@);
        proof {
            assert(source.take(i + 1).drop_last() =~= source.take(i as int));
        }
        match Expr::lower(scopes, &list[i]) {
            Ok(e) => {
                lowered.push(e);
                assert(expr_views(lowered@) =~= front.push(e@));
            },
            Err(e) => {
                proof {
                    lemma_lower_exprs_fails(scopes@.inner, source, i + 1);
                }
                return Err(e);
            },
        }
        i = i + 1;
    }
    assert(source.take(i as int) =~= source);
    Ok(lowered)
}

/// A list whose front cannot be lowered cannot be lowered, for the same
/// reason.
proof fn lemma_lower_exprs_fails(
    scopes: Seq<Map<Seq<char>, Id>>,
    list: Seq<ExprView<Seq<char>>>,
    n: int,
)
    requires
        0 <= n <= list.len(),
        lowering::lower_exprs(scopes, list.take(n)) is Err,
    ensures
        lowering::lower_exprs(scopes, list) == lowering::lower_exprs(scopes, list.take(n)),
    decreases list.len() - n,
{
    if n < list.len() {
        assert(list.take(n + 1).drop_last() =~= list.take(n));
        lemma_lower_exprs_fails(scopes, list, n + 1);
    } else {
        assert(list.take(n) =~= list);
    }
}

proof fn lemma_lower_statements_fails(
    scopes: Seq<Map<Seq<char>, Id>>,
    list: Seq<StatementView<Seq<char>>>,
    n: int,
)
    requires
        0 <= n <= list.len(),
        lowering::lower_statements(scopes, list.take(n)) is Err,
    ensures
        lowering::lower_statements(scopes, list) == lowering::lower_statements(
            scopes,
            list.take(n),
        ),
    decreases list.len() - n,
{
    if n < list.len() {
        assert(list.take(n + 1).drop_last() =~= list.take(n));
        lemma_lower_statements_fails(scopes, list, n + 1);
    } else {
        assert(list.take(n) =~= list);
    }
}

impl FunctionCallExpr {
    /// Resolves the name of a call, then lowers its arguments and children.
    pub fn lower(scopes: &mut Scopes, call: &parser::FunctionCallExpr) -> (r: Result<
        Self,
        LowerError,
    >)
        ensures
            final(scopes)@ == old(scopes)@,
            agrees(
                r,
                match lowering::lower_expr(
                    old(scopes)@.inner,
                    ExprView::FunctionCall(call@),
                ) {
                    Ok(e) => Ok(e->FunctionCall_0),
                    Err(e) => Err(e),
                },
            ),
        decreases call, 2nat,
    {
        let name = match scopes.get_id(call.name.as_str()) {
            Some(id) => id,
            None => {
                return Err(LowerError::UndefinedSymbol(call.name.clone()));
            },
        };
        let args = match lower_list(scopes, &call.args) {
            Ok(args) => args,
            Err(e) => {
                return Err(e);
            },
        };
        let children = match lower_list(scopes, &call.children) {
            Ok(children) => children,
            Err(e) => {
                return Err(e);
            },
        };
        Ok(FunctionCallExpr { name, args, children })
    }
}

impl Expr {
    /// Lowers an expression: the names of its calls are resolved.
    pub fn lower(scopes: &mut Scopes, expr: &parser::Expr) -> (r: Result<Self, LowerError>)
        ensures
            final(scopes)@ == old(scopes)@,
            agrees(r, lowering::lower_expr(old(scopes)@.inner, expr@)),
        decreases expr, 3nat,
    {
        match expr {
            parser::Expr::StringLiteral(string) => Ok(Expr::StringLiteral(string.clone())),
            parser::Expr::FunctionCall(call) => {
                proof {
                    parser::lemma_call_view(*call);
                }
                match FunctionCallExpr::lower(scopes, call) {
                    Ok(call) => {
                        proof {
                            lemma_call_view(call);
                        }
                        Ok(Expr::FunctionCall(call))
                    },
                    Err(e) => Err(e),
                }
            },
        }
    }
}

impl Statement {
    pub fn lower(scopes: &mut Scopes, statement: &parser::Statement) -> (r: Result<
        Self,
        LowerError,
    >)
        ensures
            final(scopes)@ == old(scopes)@,
            agrees(
                r,
                match lowering::lower_expr(old(scopes)@.inner, statement@->ExprStatement_0) {
                    Ok(e) => Ok(StatementView::ExprStatement(e)),
                    Err(e) => Err(e),
                },
            ),
    {
        match statement {
            parser::Statement::ExprStatement(expr) => match Expr::lower(scopes, expr) {
                Ok(expr) => Ok(Statement::ExprStatement(expr)),
                Err(e) => Err(e),
            },
        }
    }
}

impl BlockExpr {
    /// Lowers a block in a scope of its own: its statements, then its tail
    /// expression.
    pub fn lower(scopes: &mut Scopes, block: &parser::BlockExpr) -> (r: Result<Self, LowerError>)
        ensures
            final(scopes)@ == old(scopes)@,
            agrees(r, lowering::lower_block(old(scopes)@.inner, block@)),
    {
        scopes.new_scope();
        let ghost inner = scopes@.inner;
        let ghost source = block@.statements;
        let mut statements: Vec<Statement> = Vec::new();
        assert(source.take(0) =~= Seq::empty());
        assert(statement_views(statements@) =~= Seq::empty());
        assert(inner.drop_last() =~= old(scopes)@.inner);
        let mut i: usize = 0;
        while i < block.statements.len()
            invariant
                i <= block.statements.len(),
                source == block@.statements,
                scopes@.inner == inner,
                scopes@.reverse_map == old(scopes)@.reverse_map,
                inner == old(scopes)@.inner.push(Map::empty()),
                lowering::lower_statements(inner, source.take(i as int)) == Ok::<
                    Seq<StatementView<Id>>,
                    LowerErrorView,
                >(statement_views(statements@)),
            decreases block.statements.len() - i,
        {
            let ghost front = statement_views(statements@);
            proof {
                assert(source.take(i + 1).drop_last() =~= source.take(i as int));
                assert(source[i as int] == block.statements@[i as int]@);
            }
            match Statement::lower(scopes, &block.statements[i]) {
                Ok(statement) => {
                    statements.push(statement);
                    assert(statement_views(statements@) =~= front.push(statement@));
                },
                Err(e) => {
                    proof {
                        lemma_lower_statements_fails(inner, source, i + 1);
                        assert(inner.drop_last() =~= old(scopes)@.inner);
                    }
                    scopes.pop_scope();
                    return Err(e);
                },
            }
            i = i + 1;
        }
        assert(source.take(i as int) =~= source);
        let return_expression = match &block.return_expression {
            None => None,
            Some(expr) => match Expr::lower(scopes, expr) {
                Ok(expr) => Some(expr),
                Err(e) => {
                    proof {
                        assert(inner.drop_last() =~= old(scopes)@.inner);
                    }
                    scopes.pop_scope();
                    return Err(e);
                },
            },
        };
        proof {
            assert(inner.drop_last() =~= old(scopes)@.inner);
        }
        scopes.pop_scope();
        Ok(BlockExpr { statements, return_expression })
    }
}

impl FunctionOutput {
    /// Resolves the type of a function, then its effect.
    pub fn lower(scopes: &Scopes, output: &parser::FunctionOutput) -> (r: Result<
        Self,
        LowerError,
    >)
        ensures
            agrees(r, lowering::lower_output(scopes@.inner, output@)),
    {
        let ty = match &output.ty {
            parser::Ty::Simple(ty) => match scopes.get_id(ty.as_str()) {
                Some(id) => id,
                None => {
                    return Err(LowerError::UndefinedSymbol(ty.clone()));
                },
            },
        };
        let eff = match &output.eff {
            None => None,
            Some(parser::Eff::Simple(eff)) => match scopes.get_id(eff.as_str()) {
                Some(id) => Some(id),
                None => {
                    return Err(LowerError::UndefinedSymbol(eff.clone()));
                },
            },
        };
        Ok(FunctionOutput { ty, eff })
    }
}

/// Lowers a declaration: what the function gives, then its body.
fn lower_item(scopes: &mut Scopes, item: &parser::ModuleItem) -> (r: Result<ModuleItem, LowerError>)
    ensures
        final(scopes)@ == old(scopes)@,
        agrees(r, lowering::lower_item(old(scopes)@.inner, item@)),
{
    match item {
        parser::ModuleItem::Function(function) => {
            let output = match FunctionOutput::lower(scopes, &function.output) {
                Ok(output) => output,
                Err(e) => {
                    return Err(e);
                },
            };
            let body = match BlockExpr::lower(scopes, &function.body) {
                Ok(body) => body,
                Err(e) => {
                    return Err(e);
                },
            };
            Ok(
                ModuleItem::Function(
                    Function { name: function.name.clone(), inputs: function.inputs, output, body },
                ),
            )
        },
    }
}

proof fn lemma_lower_entries_fails(
    entries: Seq<(Seq<char>, ModuleItemView<Seq<char>>)>,
    ids: Seq<u64>,
    n: int,
)
    requires
        0 <= n <= entries.len(),
        lowering::lower_entries(entries.take(n), ids) is Err,
    ensures
        lowering::lower_entries(entries, ids) == lowering::lower_entries(entries.take(n), ids),
    decreases entries.len() - n,
{
    if n < entries.len() {
        assert(entries.take(n + 1).drop_last() =~= entries.take(n));
        lemma_lower_entries_fails(entries, ids, n + 1);
    } else {
        assert(entries.take(n) =~= entries);
    }
}

impl Hir {
    /// Lowers a module with the identities `ids`, one for each declaration
    /// in order: the declaration's name is bound to its identity in the
    /// scope of the prelude, then the declaration is lowered. Identities
    /// beyond the number of declarations are not used.
    pub fn lower_with_ids(ast: &AST, ids: &Vec<u64>) -> (r: Result<Self, LowerError>)
        ensures
            agrees(r, lowering::lower(ast@, ids@)),
            r is Ok ==> r->Ok_0@.wf(),
            r is Ok ==> forall|k: u64| #[trigger]
                r->Ok_0@.module.contains_key(k) ==> !prelude().reverse_map.contains_key(k),
    {
        broadcast use vstd::std_specs::hash::group_hash_axioms;

        let mut scopes = Scopes::with_prelude();
        let mut module: HashMap<u64, ModuleItem> = HashMap::new();
        let ghost entries = ast@.entries;
        let ghost mut lowered: Seq<(Id, ModuleItemView<Id>)> = Seq::empty();
        assert(entries.take(0) =~= Seq::empty());
        assert(item_views(module@) =~= lowering::declarations(lowered));
        let mut i: usize = 0;
        while i < ast.module.len()
            invariant
                i <= ast.module.len(),
                entries == ast@.entries,
                lowering::lower_entries(entries.take(i as int), ids@) == Ok::<
                    lowering::Lowered,
                    LowerErrorView,
                >(lowering::Lowered { scopes: scopes@, module: lowered }),
                item_views(module@) == lowering::declarations(lowered),
                scopes@.inner.len() == 1,
            decreases ast.module.len() - i,
        {
            proof {
                assert(entries.take(i + 1).drop_last() =~= entries.take(i as int));
                assert(entries[i as int] == (ast.module@[i as int].0@, ast.module@[i as int].1@));
            }
            if i >= ids.len() {
                proof {
                    lemma_lower_entries_fails(entries, ids@, i + 1);
                }
                return Err(LowerError::MissingId);
            }
            let id = Id(ids[i]);
            match scopes.bind(ast.module[i].0.as_str(), id) {
                Ok(()) => {},
                Err(e) => {
                    proof {
                        lemma_lower_entries_fails(entries, ids@, i + 1);
                    }
                    return Err(e);
                },
            }
            match lower_item(&mut scopes, &ast.module[i].1) {
                Ok(item) => {
                    let ghost front = lowered;
                    proof {
                        lowered = front.push((id, item@));
                        assert(lowered.drop_last() =~= front);
                    }
                    module.insert(id.0, item);
                    assert(item_views(module@) =~= lowering::declarations(lowered));
                },
                Err(e) => {
                    proof {
                        lemma_lower_entries_fails(entries, ids@, i + 1);
                    }
                    return Err(e);
                },
            }
            i = i + 1;
        }
        assert(entries.take(i as int) =~= entries);
        proof {
            lowering::lemma_lowered_wf(ast@, ids@);
        }
        Ok(Hir { module, id_map: scopes.into_id_map() })
    }

    /// Lowers a module with freshly drawn identities. Whatever numbers are
    /// drawn, the result is that of [`Hir::lower_with_ids`] on them.
    pub fn lower(ast: &AST) -> (r: Result<Self, LowerError>)
        ensures
            exists|ids: Seq<u64>|
                ids.len() == ast.module@.len() && agrees(r, #[trigger] lowering::lower(ast@, ids)),
            r is Ok ==> r->Ok_0@.wf(),
            r is Ok ==> forall|k: u64| #[trigger]
                r->Ok_0@.module.contains_key(k) ==> !prelude().reverse_map.contains_key(k),
    {
        let mut ids: Vec<u64> = Vec::new();
        while ids.len() < ast.module.len()
            invariant
                ids.len() <= ast.module.len(),
            decreases ast.module.len() - ids.len(),
        {
            ids.push(random_u64());
        }
        Hir::lower_with_ids(ast, &ids)
    }
}

} // verus!
