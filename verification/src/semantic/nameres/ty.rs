use vstd::prelude::*;

use super::defs::TyId;

verus! {

#[derive(Debug, Clone, Copy, PartialEq, Eq, Hash, Structural)]
pub enum BuiltinTy {
    I8,
    I16,
    I32,
    I64,
    U8,
    U16,
    U32,
    U64,
    F32,
    F64,
    Bool,
    Char,
    String,
}

/// A resolved type.
#[derive(Debug, PartialEq, Eq, Hash)]
pub enum Ty {
    Builtin(BuiltinTy),
    Pointer(Box<Ty>),
    Array(Box<Ty>),
    Fn(Box<Ty>, Vec<Ty>),
    Custom(TyId),
    Unit,
    Never,
    Unknown,
}

/// The mathematical value of a [`Ty`]: the same tree, with the parameter
/// list of a function type as a sequence.
pub enum TyView {
    Builtin(BuiltinTy),
    Pointer(Box<TyView>),
    Array(Box<TyView>),
    Fn(Box<TyView>, Seq<TyView>),
    Custom(TyId),
    Unit,
    Never,
    Unknown,
}

pub open spec fn ty_view(t: Ty) -> TyView
    decreases t, 0nat,
{
    match t {
        Ty::Builtin(b) => TyView::Builtin(b),
        Ty::Pointer(p) => TyView::Pointer(Box::new(ty_view(*p))),
        Ty::Array(p) => TyView::Array(Box::new(ty_view(*p))),
        Ty::Fn(r, ps) => TyView::Fn(Box::new(ty_view(*r)), tys_view(ps@)),
        Ty::Custom(id) => TyView::Custom(id),
        Ty::Unit => TyView::Unit,
        Ty::Never => TyView::Never,
        Ty::Unknown => TyView::Unknown,
    }
}

/// The views of a sequence of types, element by element.
pub open spec fn tys_view(s: Seq<Ty>) -> Seq<TyView>
    decreases s, 1nat,
{
    if s.len() == 0 {
        Seq::empty()
    } else {
        tys_view(s.drop_last()).push(ty_view(s.last()))
    }
}

impl View for Ty {
    type V = TyView;

    open spec fn view(&self) -> TyView {
        ty_view(*self)
    }
}

pub proof fn lemma_tys_view(s: Seq<Ty>)
    ensures
        tys_view(s).len() == s.len(),
        forall|i: int| 0 <= i < s.len() ==> #[trigger] tys_view(s)[i] == ty_view(s[i]),
    decreases s.len(),
{
    if s.len() > 0 {
        lemma_tys_view(s.drop_last());
    }
}

/// Structural comparison of two types.
pub fn ty_eq(a: &Ty, b: &Ty) -> (r: bool)
    ensures
        r == (a@ == b@),
    decreases a,
{
    match (a, b) {
        (Ty::Builtin(x), Ty::Builtin(y)) => *x == *y,
        (Ty::Pointer(x), Ty::Pointer(y)) => ty_eq(x, y),
        (Ty::Array(x), Ty::Array(y)) => ty_eq(x, y),
        (Ty::Fn(r1, p1), Ty::Fn(r2, p2)) => {
            if !ty_eq(r1, r2) {
                return false;
            }
            if p1.len() != p2.len() {
                proof {
                    lemma_tys_view(p1@);
                    lemma_tys_view(p2@);
                }
                return false;
            }
            let mut i: usize = 0;
            while i < p1.len()
                invariant
                    *a == Ty::Fn(*r1, *p1),
                    *b == Ty::Fn(*r2, *p2),
                    ty_view(**r1) == ty_view(**r2),
                    p1.len() == p2.len(),
                    i <= p1.len(),
                    forall|j: int| 0 <= j < i ==> ty_view(#[trigger] p1@[j]) == ty_view(p2@[j]),
                decreases p1.len() - i,
            {
                proof {
                    assert(decreases_to!(*a => (*a)->Fn_1));
                    assert(decreases_to!(*p1 => p1[i as int]));
                    assert(decreases_to!(*a => p1[i as int]));
                }
                if !ty_eq(&p1[i], &p2[i]) {
                    proof {
                        lemma_tys_view(p1@);
                        lemma_tys_view(p2@);
                        assert(tys_view(p1@)[i as int] != tys_view(p2@)[i as int]);
                    }
                    return false;
                }
                i = i + 1;
            }
            proof {
                lemma_tys_view(p1@);
                lemma_tys_view(p2@);
                assert(tys_view(p1@) =~= tys_view(p2@));
            }
            true
        },
        (Ty::Custom(x), Ty::Custom(y)) => x.0 == y.0,
        (Ty::Unit, Ty::Unit) => true,
        (Ty::Never, Ty::Never) => true,
        (Ty::Unknown, Ty::Unknown) => true,
        _ => false,
    }
}

/// A copy of a type.
pub fn copy_ty(t: &Ty) -> (r: Ty)
    ensures
        r@ == t@,
    decreases t,
{
    match t {
        Ty::Builtin(b) => Ty::Builtin(*b),
        Ty::Pointer(p) => Ty::Pointer(Box::new(copy_ty(p))),
        Ty::Array(p) => Ty::Array(Box::new(copy_ty(p))),
        Ty::Fn(r, ps) => {
            let ret = copy_ty(r);
            let params = copy_tys(ps);
            Ty::Fn(Box::new(ret), params)
        },
        Ty::Custom(id) => Ty::Custom(*id),
        Ty::Unit => Ty::Unit,
        Ty::Never => Ty::Never,
        Ty::Unknown => Ty::Unknown,
    }
}

/// A copy of a list of types.
pub fn copy_tys(ts: &Vec<Ty>) -> (r: Vec<Ty>)
    ensures
        tys_view(r@) == tys_view(ts@),
    decreases ts, 0nat,
{
    let mut out: Vec<Ty> = Vec::new();
    let mut i: usize = 0;
    while i < ts.len()
        invariant
            i <= ts.len(),
            out@.len() == i,
            forall|j: int| 0 <= j < i ==> ty_view(#[trigger] out@[j]) == ty_view(ts@[j]),
        decreases ts.len() - i,
    {
        let t = copy_ty(&ts[i]);
        out.push(t);
        i = i + 1;
    }
    proof {
        lemma_tys_view(out@);
        lemma_tys_view(ts@);
        assert(tys_view(out@) =~= tys_view(ts@));
    }
    out
}

} // verus!
