use vstd::prelude::*;

use rustc_hash::FxHashMap;

use crate::semantic::ast::Symbol;
use crate::semantic::fxmap::{fx_get, fx_insert};
use crate::semantic::nameres::ty::{copy_ty, Ty, TyView};

use super::{FnId, VarId};

verus! {

#[derive(Debug, Clone, Copy, PartialEq, Eq, Structural)]
pub enum ScopeKind {
    Function,
    Block,
}

// note: due to the symbol table being confined to a single scope,
// we can think about replacing it with a Vec<(Symbol, VarId)> as that might actually be faster,
// specially if we guarantee that it is sorted, in which case we just do a binary search.
// (test and benchmark later on)
pub struct SymTable {
    vars: FxHashMap<Symbol, VarId>,
    fns: FxHashMap<Symbol, FnId>,
    tys: FxHashMap<Symbol, Ty>,
}

/// The bindings of one scope: variables, functions and types by name.
pub struct TableView {
    pub vars: Map<Symbol, VarId>,
    pub fns: Map<Symbol, FnId>,
    pub tys: Map<Symbol, TyView>,
}

impl TableView {
    pub open spec fn empty() -> TableView {
        TableView { vars: Map::empty(), fns: Map::empty(), tys: Map::empty() }
    }
}

pub open spec fn tys_map_view(m: Map<Symbol, Ty>) -> Map<Symbol, TyView> {
    m.map_values(|t: Ty| t@)
}

impl View for SymTable {
    type V = TableView;

    closed spec fn view(&self) -> TableView {
        TableView { vars: self.vars@, fns: self.fns@, tys: tys_map_view(self.tys@) }
    }
}

impl Default for SymTable {
    fn default() -> (r: Self)
        ensures
            r@ == TableView::empty(),
    {
        Self::new()
    }
}

impl SymTable {
    pub fn new() -> (r: Self)
        ensures
            r@ == TableView::empty(),
    {
        let r = Self {
            vars: FxHashMap::default(),
            fns: FxHashMap::default(),
            tys: FxHashMap::default(),
        };
        assert(r@.tys =~= Map::<Symbol, TyView>::empty());
        r
    }

    pub fn with(
        vars: FxHashMap<Symbol, VarId>,
        fns: FxHashMap<Symbol, FnId>,
        tys: FxHashMap<Symbol, Ty>,
    ) -> (r: Self)
        ensures
            r@ == (TableView { vars: vars@, fns: fns@, tys: tys_map_view(tys@) }),
    {
        Self { vars, fns, tys }
    }

    pub fn lookup_var(&self, name: &Symbol) -> (r: Option<VarId>)
        ensures
            r == self@.vars.get(*name),
    {
        match fx_get(&self.vars, name) {
            Some(id) => Some(*id),
            None => None,
        }
    }

    pub fn lookup_type(&self, name: &Symbol) -> (r: Option<Ty>)
        ensures
            match r {
                Some(t) => self@.tys.contains_key(*name) && t@ == self@.tys[*name],
                None => !self@.tys.contains_key(*name),
            },
    {
        match fx_get(&self.tys, name) {
            Some(t) => Some(copy_ty(t)),
            None => None,
        }
    }

    pub fn lookup_fn(&self, name: &Symbol) -> (r: Option<FnId>)
        ensures
            r == self@.fns.get(*name),
    {
        match fx_get(&self.fns, name) {
            Some(id) => Some(*id),
            None => None,
        }
    }

    /// Bind `name` to `id`, allowing it to shadow an existing binding.
    ///
    /// - `None` — the name was free; `id` is now bound.
    /// - `Some(previous)` — the old binding was replaced and is returned.
    pub fn define_var(&mut self, name: Symbol, id: VarId) -> (r: Option<VarId>)
        ensures
            final(self)@ == (TableView { vars: old(self)@.vars.insert(name, id), ..old(self)@ }),
            r == old(self)@.vars.get(name),
    {
        fx_insert(&mut self.vars, name, id)
    }

    /// Bind `name` to `id`, refusing to overwrite an existing binding.
    ///
    /// - `Ok(())` — the name was free; `id` is now bound.
    /// - `Err(existing)` — the name was already bound; the map is unchanged
    ///   and `id` was *not* inserted.
    pub fn define_fn(&mut self, name: Symbol, id: FnId) -> (r: Result<(), FnId>)
        ensures
            old(self)@.fns.contains_key(name) ==> final(self)@ == old(self)@ && r == Err::<
                (),
                FnId,
            >(old(self)@.fns[name]),
            !old(self)@.fns.contains_key(name) ==> final(self)@ == (TableView {
                fns: old(self)@.fns.insert(name, id),
                ..old(self)@
            }) && r == Ok::<(), FnId>(()),
    {
        match fx_get(&self.fns, &name) {
            Some(existing) => Err(*existing),
            None => {
                fx_insert(&mut self.fns, name, id);
                Ok(())
            },
        }
    }

    /// Bind `name` to `id`, refusing to overwrite an existing binding.
    ///
    /// Same contract as [`Self::define_fn`].
    pub fn define_ty(&mut self, name: Symbol, id: Ty) -> (r: Result<(), Ty>)
        ensures
            old(self)@.tys.contains_key(name) ==> final(self)@ == old(self)@ && r is Err && r->Err_0@
                == old(self)@.tys[name],
            !old(self)@.tys.contains_key(name) ==> final(self)@ == (TableView {
                tys: old(self)@.tys.insert(name, id@),
                ..old(self)@
            }) && r is Ok,
    {
        match fx_get(&self.tys, &name) {
            Some(existing) => Err(copy_ty(existing)),
            None => {
                let ghost old_tys = self.tys@;
                fx_insert(&mut self.tys, name, id);
                proof {
                    assert(tys_map_view(self.tys@) =~= tys_map_view(old_tys).insert(name, id@));
                }
                Ok(())
            },
        }
    }
}

pub struct Scope {
    kind: ScopeKind,
    table: SymTable,
}

pub struct ScopeView {
    pub kind: ScopeKind,
    pub table: TableView,
}

impl View for Scope {
    type V = ScopeView;

    closed spec fn view(&self) -> ScopeView {
        ScopeView { kind: self.kind, table: self.table@ }
    }
}

impl Scope {
    pub fn new(kind: ScopeKind) -> (r: Self)
        ensures
            r@ == (ScopeView { kind, table: TableView::empty() }),
    {
        Self { kind, table: SymTable::default() }
    }

    pub fn lookup_var(&self, name: &Symbol) -> (r: Option<VarId>)
        ensures
            r == self@.table.vars.get(*name),
    {
        self.table.lookup_var(name)
    }

    pub fn lookup_type(&self, name: &Symbol) -> (r: Option<Ty>)
        ensures
            match r {
                Some(t) => self@.table.tys.contains_key(*name) && t@ == self@.table.tys[*name],
                None => !self@.table.tys.contains_key(*name),
            },
    {
        self.table.lookup_type(name)
    }

    pub fn lookup_fn(&self, name: &Symbol) -> (r: Option<FnId>)
        ensures
            r == self@.table.fns.get(*name),
    {
        self.table.lookup_fn(name)
    }
}

/// The stack of scopes: the root table of the program, then the open scopes
/// from the outermost to the innermost.
pub struct ScopesView {
    pub root: TableView,
    pub scopes: Seq<ScopeView>,
}

/// The variable that `name` denotes: the binding in the innermost scope that
/// binds it, where the search does not go past a function scope.
pub open spec fn lookup_var_in(root: TableView, scopes: Seq<ScopeView>, name: Symbol) -> Option<VarId>
    decreases scopes.len(),
{
    if scopes.len() == 0 {
        root.vars.get(name)
    } else if scopes.last().table.vars.contains_key(name) {
        Some(scopes.last().table.vars[name])
    } else if scopes.last().kind == ScopeKind::Function {
        None
    } else {
        lookup_var_in(root, scopes.drop_last(), name)
    }
}

/// The type that `name` denotes: the binding in the innermost scope, or the
/// root, that binds it.
pub open spec fn lookup_type_in(root: TableView, scopes: Seq<ScopeView>, name: Symbol) -> Option<TyView>
    decreases scopes.len(),
{
    if scopes.len() == 0 {
        root.tys.get(name)
    } else if scopes.last().table.tys.contains_key(name) {
        Some(scopes.last().table.tys[name])
    } else {
        lookup_type_in(root, scopes.drop_last(), name)
    }
}

/// The function that `name` denotes: the binding in the innermost scope, or
/// the root, that binds it.
pub open spec fn lookup_fn_in(root: TableView, scopes: Seq<ScopeView>, name: Symbol) -> Option<FnId>
    decreases scopes.len(),
{
    if scopes.len() == 0 {
        root.fns.get(name)
    } else if scopes.last().table.fns.contains_key(name) {
        Some(scopes.last().table.fns[name])
    } else {
        lookup_fn_in(root, scopes.drop_last(), name)
    }
}

impl ScopesView {
    pub open spec fn lookup_var(self, name: Symbol) -> Option<VarId> {
        lookup_var_in(self.root, self.scopes, name)
    }

    pub open spec fn lookup_type(self, name: Symbol) -> Option<TyView> {
        lookup_type_in(self.root, self.scopes, name)
    }

    pub open spec fn lookup_fn(self, name: Symbol) -> Option<FnId> {
        lookup_fn_in(self.root, self.scopes, name)
    }

    /// The table of the innermost scope, or the root when no scope is open.
    pub open spec fn current(self) -> TableView {
        if self.scopes.len() == 0 {
            self.root
        } else {
            self.scopes.last().table
        }
    }

    /// The same stack with the innermost table replaced by `t`.
    pub open spec fn with_current(self, t: TableView) -> ScopesView {
        if self.scopes.len() == 0 {
            ScopesView { root: t, scopes: self.scopes }
        } else {
            ScopesView {
                root: self.root,
                scopes: self.scopes.update(
                    self.scopes.len() - 1,
                    ScopeView { kind: self.scopes.last().kind, table: t },
                ),
            }
        }
    }

    pub open spec fn enter(self, kind: ScopeKind) -> ScopesView {
        ScopesView {
            root: self.root,
            scopes: self.scopes.push(ScopeView { kind, table: TableView::empty() }),
        }
    }

    pub open spec fn exit(self) -> ScopesView {
        if self.scopes.len() == 0 {
            self
        } else {
            ScopesView { root: self.root, scopes: self.scopes.drop_last() }
        }
    }
}

proof fn lemma_update_scope_view(s: Seq<Scope>, i: int)
    requires
        0 <= i < s.len(),
    ensures
        forall|x: Scope| #[trigger] scopes_view(s.update(i, x)) == scopes_view(s).update(i, x@),
{
    assert forall|x: Scope| #[trigger] scopes_view(s.update(i, x)) == scopes_view(s).update(i, x@) by {
        assert(scopes_view(s.update(i, x)) =~= scopes_view(s).update(i, x@));
    }
}

pub open spec fn scopes_view(s: Seq<Scope>) -> Seq<ScopeView> {
    s.map_values(|s: Scope| s@)
}

pub struct Scopes {
    root: SymTable,
    scopes: Vec<Scope>,
}

impl View for Scopes {
    type V = ScopesView;

    closed spec fn view(&self) -> ScopesView {
        ScopesView { root: self.root@, scopes: scopes_view(self.scopes@) }
    }
}

impl Default for Scopes {
    fn default() -> (r: Self)
        ensures
            r@ == (ScopesView { root: TableView::empty(), scopes: Seq::empty() }),
    {
        Self::new()
    }
}

impl Scopes {
    pub fn new() -> (r: Self)
        ensures
            r@ == (ScopesView { root: TableView::empty(), scopes: Seq::empty() }),
    {
        Self::with(SymTable::default())
    }

    pub fn with(root: SymTable) -> (r: Self)
        ensures
            r@ == (ScopesView { root: root@, scopes: Seq::empty() }),
    {
        let r = Self { root, scopes: Vec::new() };
        assert(r@.scopes =~= Seq::<ScopeView>::empty());
        r
    }

    pub fn lookup_var(&self, name: &Symbol) -> (r: Option<VarId>)
        ensures
            r == self@.lookup_var(*name),
    {
        let mut i = self.scopes.len();
        assert(self@.scopes.take(i as int) =~= self@.scopes);
        loop
            invariant
                i <= self.scopes@.len(),
                lookup_var_in(self@.root, self@.scopes, *name) == lookup_var_in(
                    self@.root,
                    self@.scopes.take(i as int),
                    *name,
                ),
            decreases i,
        {
            if i == 0 {
                return self.root.lookup_var(name);
            }
            let ghost pre = self@.scopes.take(i as int);
            assert(pre.drop_last() =~= self@.scopes.take(i - 1));
            assert(pre.last() == self.scopes@[i - 1]@);
            let scope = &self.scopes[i - 1];
            match scope.lookup_var(name) {
                // name found in this scope, return its id
                Some(id) => return Some(id),
                // name not found in this scope, try the parent one depending on the kind of the current one
                None => match scope.kind {
                    // If the current scope is a function, we cannot look up variables
                    // in the parent scope, since variables declared in the parent scope are not visible in the current scope
                    ScopeKind::Function => return None,
                    // If the current scope is a block, we can look up variables in the parent scope
                    ScopeKind::Block => {
                        i = i - 1;
                    },
                },
            }
        }
    }

    pub fn lookup_type(&self, name: &Symbol) -> (r: Option<Ty>)
        ensures
            match r {
                Some(t) => self@.lookup_type(*name) == Some(t@),
                None => self@.lookup_type(*name) is None,
            },
    {
        let mut i = self.scopes.len();
        assert(self@.scopes.take(i as int) =~= self@.scopes);
        loop
            invariant
                i <= self.scopes@.len(),
                lookup_type_in(self@.root, self@.scopes, *name) == lookup_type_in(
                    self@.root,
                    self@.scopes.take(i as int),
                    *name,
                ),
            decreases i,
        {
            if i == 0 {
                return self.root.lookup_type(name);
            }
            let ghost pre = self@.scopes.take(i as int);
            assert(pre.drop_last() =~= self@.scopes.take(i - 1));
            assert(pre.last() == self.scopes@[i - 1]@);
            match self.scopes[i - 1].lookup_type(name) {
                // type found in this scope, return its id
                Some(id) => return Some(id),
                // type not found in this scope, try the parent one
                None => {
                    i = i - 1;
                },
            }
        }
    }

    pub fn lookup_fn(&self, name: &Symbol) -> (r: Option<FnId>)
        ensures
            r == self@.lookup_fn(*name),
    {
        let mut i = self.scopes.len();
        assert(self@.scopes.take(i as int) =~= self@.scopes);
        loop
            invariant
                i <= self.scopes@.len(),
                lookup_fn_in(self@.root, self@.scopes, *name) == lookup_fn_in(
                    self@.root,
                    self@.scopes.take(i as int),
                    *name,
                ),
            decreases i,
        {
            if i == 0 {
                return self.root.lookup_fn(name);
            }
            let ghost pre = self@.scopes.take(i as int);
            assert(pre.drop_last() =~= self@.scopes.take(i - 1));
            assert(pre.last() == self.scopes@[i - 1]@);
            match self.scopes[i - 1].lookup_fn(name) {
                // function found in this scope, return its id
                Some(id) => return Some(id),
                // function not found in this scope, try the parent one
                None => {
                    i = i - 1;
                },
            }
        }
    }

    pub fn current_scope(&mut self) -> (r: &mut SymTable)
        ensures
            r@ == old(self)@.current(),
            final(self)@ == old(self)@.with_current(final(r)@),
    {
        let n = self.scopes.len();
        if n == 0 {
            &mut self.root
        } else {
            proof {
                lemma_update_scope_view(self.scopes@, n - 1);
            }
            &mut self.scopes[n - 1].table
        }
    }

    pub fn enter(&mut self, kind: ScopeKind)
        ensures
            final(self)@ == old(self)@.enter(kind),
    {
        self.scopes.push(Scope { kind, table: SymTable::default() });
        assert(self@.scopes =~= old(self)@.enter(kind).scopes);
    }

    pub fn exit(&mut self)
        ensures
            final(self)@ == old(self)@.exit(),
    {
        self.scopes.pop();
        assert(self@.scopes =~= old(self)@.exit().scopes);
    }
}

} // verus!
