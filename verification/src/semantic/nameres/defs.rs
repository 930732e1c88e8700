use vstd::prelude::*;

use crate::semantic::ast::Symbol;
use crate::semantic::nameres::ty::{copy_ty, lemma_tys_view, tys_view, Ty, TyView};
use crate::semantic::node::{Span, Spanned};

verus! {

/// Index of a type definition.
#[derive(Debug, Clone, Copy, PartialEq, Eq, Hash, Structural)]
pub struct TyId(pub usize);

/// Index of a variable definition.
#[derive(Debug, Clone, Copy, PartialEq, Eq, Hash, Structural)]
pub struct VarId(pub usize);

/// Index of a function definition.
#[derive(Debug, Clone, Copy, PartialEq, Eq, Hash, Structural)]
pub struct FnId(pub usize);

pub enum TyDef {
    Enum { variants: Box<[Symbol]> },
    Struct { fields: Vec<(Symbol, Ty)> },
    Alias(Ty),
}

pub enum TyDefView {
    Enum { variants: Seq<Symbol> },
    Struct { fields: Seq<(Symbol, TyView)> },
    Alias(TyView),
}

pub open spec fn fields_view(fields: Seq<(Symbol, Ty)>) -> Seq<(Symbol, TyView)> {
    fields.map_values(|f: (Symbol, Ty)| (f.0, f.1@))
}

impl View for TyDef {
    type V = TyDefView;

    open spec fn view(&self) -> TyDefView {
        match self {
            TyDef::Enum { variants } => TyDefView::Enum { variants: variants@ },
            TyDef::Struct { fields } => TyDefView::Struct { fields: fields_view(fields@) },
            TyDef::Alias(t) => TyDefView::Alias(t@),
        }
    }
}

#[derive(Debug, Clone, Copy, PartialEq, Eq, Structural)]
pub enum VarDef {
    Arg,
    Local,
}

pub struct FnDef {
    pub args: Box<[(Symbol, Ty)]>,
    pub ret: Ty,
}

pub struct FnDefView {
    pub args: Seq<(Symbol, TyView)>,
    pub ret: TyView,
}

impl FnDefView {
    /// The type of the function: its return type and the types of its
    /// arguments.
    pub open spec fn signature(self) -> TyView {
        TyView::Fn(Box::new(self.ret), self.args.map_values(|a: (Symbol, TyView)| a.1))
    }
}

impl View for FnDef {
    type V = FnDefView;

    open spec fn view(&self) -> FnDefView {
        FnDefView { args: fields_view(self.args@), ret: self.ret@ }
    }
}

impl FnDef {
    pub fn signature(&self) -> (r: Ty)
        ensures
            r@ == self@.signature(),
    {
        let ret = copy_ty(&self.ret);
        let mut params: Vec<Ty> = Vec::new();
        let mut i: usize = 0;
        while i < self.args.len()
            invariant
                i <= self.args@.len(),
                params@.len() == i,
                forall|j: int| 0 <= j < i ==> (#[trigger] params@[j])@ == self.args@[j].1@,
            decreases self.args@.len() - i,
        {
            params.push(copy_ty(&self.args[i].1));
            i = i + 1;
        }
        proof {
            lemma_tys_view(params@);
            assert(tys_view(params@) =~= self@.args.map_values(|a: (Symbol, TyView)| a.1));
        }
        Ty::Fn(Box::new(ret), params)
    }
}

/// Calls `Vec::into_boxed_slice`: the same elements, as a boxed slice.
#[verifier::external_body]
pub(crate) fn into_boxed_slice<T>(v: Vec<T>) -> (r: Box<[T]>)
    ensures
        r@ == v@,
{
    v.into_boxed_slice()
}

/// What is known of each id: where it was declared and, once it has been
/// defined, its definition.
pub struct DefsView {
    pub tys: Seq<(Span, Option<TyDefView>)>,
    pub vars: Seq<(Span, Option<VarDef>)>,
    pub fns: Seq<(Span, Option<FnDefView>)>,
}

pub open spec fn ty_slots_view(s: Seq<Spanned<Option<TyDef>>>) -> Seq<(Span, Option<TyDefView>)> {
    s.map_values(
        |x: Spanned<Option<TyDef>>|
            (
                x.span,
                match x.value {
                    Some(d) => Some(d@),
                    None => None,
                },
            ),
    )
}

pub open spec fn fn_slots_view(s: Seq<Spanned<Option<FnDef>>>) -> Seq<(Span, Option<FnDefView>)> {
    s.map_values(
        |x: Spanned<Option<FnDef>>|
            (
                x.span,
                match x.value {
                    Some(d) => Some(d@),
                    None => None,
                },
            ),
    )
}

pub open spec fn var_slots_view(s: Seq<Spanned<Option<VarDef>>>) -> Seq<(Span, Option<VarDef>)> {
    s.map_values(|x: Spanned<Option<VarDef>>| (x.span, x.value))
}

pub struct Definitions {
    tys: Vec<Spanned<Option<TyDef>>>,
    vars: Vec<Spanned<Option<VarDef>>>,
    fns: Vec<Spanned<Option<FnDef>>>,
}

impl View for Definitions {
    type V = DefsView;

    closed spec fn view(&self) -> DefsView {
        DefsView {
            tys: ty_slots_view(self.tys@),
            vars: var_slots_view(self.vars@),
            fns: fn_slots_view(self.fns@),
        }
    }
}

impl DefsView {
    pub open spec fn empty() -> DefsView {
        DefsView { tys: Seq::empty(), vars: Seq::empty(), fns: Seq::empty() }
    }

    pub open spec fn ty_defined(self, id: TyId) -> bool {
        id.0 < self.tys.len() && self.tys[id.0 as int].1 is Some
    }

    pub open spec fn var_defined(self, id: VarId) -> bool {
        id.0 < self.vars.len() && self.vars[id.0 as int].1 is Some
    }

    pub open spec fn fn_defined(self, id: FnId) -> bool {
        id.0 < self.fns.len() && self.fns[id.0 as int].1 is Some
    }

    pub open spec fn ty(self, id: TyId) -> TyDefView {
        self.tys[id.0 as int].1->Some_0
    }

    pub open spec fn var(self, id: VarId) -> VarDef {
        self.vars[id.0 as int].1->Some_0
    }

    pub open spec fn func(self, id: FnId) -> FnDefView {
        self.fns[id.0 as int].1->Some_0
    }
}

impl Default for Definitions {
    fn default() -> (r: Self)
        ensures
            r@ == DefsView::empty(),
    {
        let r = Definitions { tys: Vec::new(), vars: Vec::new(), fns: Vec::new() };
        assert(r@.tys =~= Seq::<(Span, Option<TyDefView>)>::empty());
        assert(r@.vars =~= Seq::<(Span, Option<VarDef>)>::empty());
        assert(r@.fns =~= Seq::<(Span, Option<FnDefView>)>::empty());
        r
    }
}

impl Definitions {
    // --- allocate an id now, define it later ------------------------------
    pub fn alloc_ty(&mut self, span: Span) -> (r: TyId)
        ensures
            final(self)@ == (DefsView { tys: old(self)@.tys.push((span, None)), ..old(self)@ }),
            r.0 == old(self)@.tys.len(),
    {
        let id = self.tys.len();
        self.tys.push(Spanned { span, value: None });
        assert(self@.tys =~= old(self)@.tys.push((span, None)));
        TyId(id)
    }

    pub fn alloc_var(&mut self, span: Span) -> (r: VarId)
        ensures
            final(self)@ == (DefsView { vars: old(self)@.vars.push((span, None)), ..old(self)@ }),
            r.0 == old(self)@.vars.len(),
    {
        let id = self.vars.len();
        self.vars.push(Spanned { span, value: None });
        assert(self@.vars =~= old(self)@.vars.push((span, None)));
        VarId(id)
    }

    pub fn alloc_fn(&mut self, span: Span) -> (r: FnId)
        ensures
            final(self)@ == (DefsView { fns: old(self)@.fns.push((span, None)), ..old(self)@ }),
            r.0 == old(self)@.fns.len(),
    {
        let id = self.fns.len();
        self.fns.push(Spanned { span, value: None });
        assert(self@.fns =~= old(self)@.fns.push((span, None)));
        FnId(id)
    }

    // --- fill a previously allocated id -----------------------------------
    pub fn define_ty(&mut self, id: TyId, def: TyDef)
        requires
            id.0 < old(self)@.tys.len(),
            old(self)@.tys[id.0 as int].1 is None,
        ensures
            final(self)@ == (DefsView {
                tys: old(self)@.tys.update(id.0 as int, (old(self)@.tys[id.0 as int].0, Some(def@))),
                ..old(self)@
            }),
    {
        let span = self.tys[id.0].span;
        let ghost d = def@;
        self.tys.set(id.0, Spanned { span, value: Some(def) });
        assert(self@.tys =~= old(self)@.tys.update(id.0 as int, (span, Some(d))));
    }

    pub fn define_var(&mut self, id: VarId, def: VarDef)
        requires
            id.0 < old(self)@.vars.len(),
            old(self)@.vars[id.0 as int].1 is None,
        ensures
            final(self)@ == (DefsView {
                vars: old(self)@.vars.update(id.0 as int, (old(self)@.vars[id.0 as int].0, Some(def))),
                ..old(self)@
            }),
    {
        let span = self.vars[id.0].span;
        self.vars.set(id.0, Spanned { span, value: Some(def) });
        assert(self@.vars =~= old(self)@.vars.update(id.0 as int, (span, Some(def))));
    }

    pub fn define_fn(&mut self, id: FnId, def: FnDef)
        requires
            id.0 < old(self)@.fns.len(),
            old(self)@.fns[id.0 as int].1 is None,
        ensures
            final(self)@ == (DefsView {
                fns: old(self)@.fns.update(id.0 as int, (old(self)@.fns[id.0 as int].0, Some(def@))),
                ..old(self)@
            }),
    {
        let span = self.fns[id.0].span;
        let ghost d = def@;
        self.fns.set(id.0, Spanned { span, value: Some(def) });
        assert(self@.fns =~= old(self)@.fns.update(id.0 as int, (span, Some(d))));
    }

    // -- allocate and id and define a new variable/type/fn -----------------
    pub fn insert_ty(&mut self, span: Span, def: TyDef) -> (r: TyId)
        ensures
            final(self)@ == (DefsView { tys: old(self)@.tys.push((span, Some(def@))), ..old(self)@ }),
            r.0 == old(self)@.tys.len(),
    {
        let id = self.tys.len();
        let ghost d = def@;
        self.tys.push(Spanned { span, value: Some(def) });
        assert(self@.tys =~= old(self)@.tys.push((span, Some(d))));
        TyId(id)
    }

    pub fn insert_var(&mut self, span: Span, def: VarDef) -> (r: VarId)
        ensures
            final(self)@ == (DefsView { vars: old(self)@.vars.push((span, Some(def))), ..old(self)@ }),
            r.0 == old(self)@.vars.len(),
    {
        let id = self.vars.len();
        self.vars.push(Spanned { span, value: Some(def) });
        assert(self@.vars =~= old(self)@.vars.push((span, Some(def))));
        VarId(id)
    }

    pub fn insert_fn(&mut self, span: Span, def: FnDef) -> (r: FnId)
        ensures
            final(self)@ == (DefsView { fns: old(self)@.fns.push((span, Some(def@))), ..old(self)@ }),
            r.0 == old(self)@.fns.len(),
    {
        let id = self.fns.len();
        let ghost d = def@;
        self.fns.push(Spanned { span, value: Some(def) });
        assert(self@.fns =~= old(self)@.fns.push((span, Some(d))));
        FnId(id)
    }

    // --- definition locations ---------------------------------------------
    pub fn ty_span(&self, id: TyId) -> (r: Span)
        requires
            id.0 < self@.tys.len(),
        ensures
            r == self@.tys[id.0 as int].0,
    {
        self.tys[id.0].span
    }

    pub fn var_span(&self, id: VarId) -> (r: Span)
        requires
            id.0 < self@.vars.len(),
        ensures
            r == self@.vars[id.0 as int].0,
    {
        self.vars[id.0].span
    }

    pub fn fn_span(&self, id: FnId) -> (r: Span)
        requires
            id.0 < self@.fns.len(),
        ensures
            r == self@.fns[id.0 as int].0,
    {
        self.fns[id.0].span
    }

    // --- accessors ---------------------------------------------------------
    /// The definition of a type id, which must have been defined.
    pub fn tys(&self, id: TyId) -> (r: &TyDef)
        requires
            self@.ty_defined(id),
        ensures
            r@ == self@.ty(id),
    {
        Self::defined(&self.tys[id.0].value)
    }

    /// The definition of a variable id, which must have been defined.
    pub fn vars(&self, id: VarId) -> (r: &VarDef)
        requires
            self@.var_defined(id),
        ensures
            *r == self@.var(id),
    {
        Self::defined(&self.vars[id.0].value)
    }

    /// The definition of a function id, which must have been defined.
    pub fn fns(&self, id: FnId) -> (r: &FnDef)
        requires
            self@.fn_defined(id),
        ensures
            r@ == self@.func(id),
    {
        Self::defined(&self.fns[id.0].value)
    }

    /// Fetches a definition that is expected to already have been filled in.
    fn defined<T>(slot: &Option<T>) -> (r: &T)
        requires
            slot is Some,
        ensures
            *r == slot->Some_0,
    {
        slot.as_ref().unwrap()
    }
}

} // verus!
