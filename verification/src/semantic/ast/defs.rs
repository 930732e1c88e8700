use vstd::prelude::*;

use rustc_hash::FxHashMap;

use crate::semantic::fxmap::{fx_get, fx_insert};

use super::{copy_ident, Ident, RBlock, RDataDef, REnumDef, RType, Symbol, Visibility};

verus! {

pub enum TypeDef {
    Enum(REnumDef),
    Data(RDataDef),
}

impl TypeDef {
    pub open spec fn spec_vis(&self) -> Visibility {
        match self {
            TypeDef::Enum(e) => e.value.vis,
            TypeDef::Data(d) => d.value.vis,
        }
    }

    pub open spec fn spec_name(&self) -> Ident {
        match self {
            TypeDef::Enum(e) => e.value.name,
            TypeDef::Data(d) => d.value.name,
        }
    }

    pub fn vis(&self) -> (r: Visibility)
        ensures
            r == self.spec_vis(),
    {
        match self {
            TypeDef::Enum(enum_def) => enum_def.value.vis,
            TypeDef::Data(data_def) => data_def.value.vis,
        }
    }

    pub fn name(&self) -> (r: &Ident)
        ensures
            *r == self.spec_name(),
    {
        match self {
            TypeDef::Enum(enum_def) => &enum_def.value.name,
            TypeDef::Data(data_def) => &data_def.value.name,
        }
    }
}

pub struct Alias {
    pub vis: Visibility,
    pub name: Ident,
    pub ty: RType,
}

// We will keep structs as simple structs for now
pub struct DataDef {
    pub vis: Visibility,
    pub name: Ident,
    pub fields: Vec<(Ident, RType)>,
}

// We will keep enums as simple enums for now
pub struct EnumDef {
    pub vis: Visibility,
    pub name: Ident,
    pub variants: Vec<Ident>,
}

pub struct Function {
    pub vis: Visibility,
    pub name: Ident,
    // generics: Vec<Generic>
    pub args: Vec<(Ident, RType)>,
    pub ret: RType,
    pub body: RBlock,
}

/// The position of the first occurrence of `k` in `keys`, or -1.
pub open spec fn first_pos(keys: Seq<Symbol>, k: Symbol) -> int
    decreases keys.len(),
{
    if keys.len() == 0 {
        -1
    } else if keys.drop_last().contains(k) {
        first_pos(keys.drop_last(), k)
    } else if keys.last() == k {
        keys.len() - 1
    } else {
        -1
    }
}

/// The positions, in increasing order, of the keys that do not occur earlier.
pub open spec fn uniq_positions(keys: Seq<Symbol>) -> Seq<int>
    decreases keys.len(),
{
    if keys.len() == 0 {
        Seq::empty()
    } else if keys.drop_last().contains(keys.last()) {
        uniq_positions(keys.drop_last())
    } else {
        uniq_positions(keys.drop_last()).push(keys.len() - 1)
    }
}

/// For each key that occurs earlier, in increasing order of its position `j`:
/// the pair of the position of its first occurrence and `j`.
pub open spec fn dup_pairs(keys: Seq<Symbol>) -> Seq<(int, int)>
    decreases keys.len(),
{
    if keys.len() == 0 {
        Seq::empty()
    } else if keys.drop_last().contains(keys.last()) {
        dup_pairs(keys.drop_last()).push((first_pos(keys.drop_last(), keys.last()), keys.len() - 1))
    } else {
        dup_pairs(keys.drop_last())
    }
}

pub proof fn lemma_first_pos(keys: Seq<Symbol>, k: Symbol)
    ensures
        keys.contains(k) ==> 0 <= first_pos(keys, k) < keys.len() && keys[first_pos(keys, k)] == k,
        keys.contains(k) ==> forall|q: int| 0 <= q < first_pos(keys, k) ==> keys[q] != k,
        !keys.contains(k) ==> first_pos(keys, k) == -1,
    decreases keys.len(),
{
    if keys.len() > 0 {
        lemma_first_pos(keys.drop_last(), k);
        assert forall|q: int| 0 <= q < keys.len() - 1 implies keys[q] == #[trigger] keys.drop_last()[q] by {}
        if keys.contains(k) && !keys.drop_last().contains(k) {
            let j = choose|j: int| 0 <= j < keys.len() && keys[j] == k;
            if j < keys.len() - 1 {
                assert(keys.drop_last()[j] == k);
            }
        }
        if keys.drop_last().contains(k) {
            let j = choose|j: int| 0 <= j < keys.drop_last().len() && keys.drop_last()[j] == k;
            assert(keys[j] == k);
        }
        if keys.contains(k) {
            if keys.drop_last().contains(k) {
                assert forall|q: int| 0 <= q < first_pos(keys, k) implies keys[q] != k by {
                    assert(keys[q] == keys.drop_last()[q]);
                }
            } else {
                assert forall|q: int| 0 <= q < first_pos(keys, k) implies keys[q] != k by {
                    assert(keys[q] == keys.drop_last()[q]);
                    if keys[q] == k {
                        assert(keys.drop_last().contains(k));
                    }
                }
            }
        }
    }
}

/// The positions of the first occurrences of the keys, and, for each later
/// occurrence, the pair of the first occurrence and that one.
pub fn first_occurrences(keys: &Vec<Symbol>) -> (r: (Vec<usize>, Vec<(usize, usize)>))
    ensures
        r.0@.len() == uniq_positions(keys@).len(),
        forall|i: int| 0 <= i < r.0@.len() ==> r.0@[i] as int == #[trigger] uniq_positions(keys@)[i],
        r.1@.len() == dup_pairs(keys@).len(),
        forall|i: int|
            0 <= i < r.1@.len() ==> (r.1@[i].0 as int, r.1@[i].1 as int) == #[trigger] dup_pairs(
                keys@,
            )[i],
{
    let mut seen: FxHashMap<Symbol, usize> = FxHashMap::default();
    let mut kept: Vec<usize> = Vec::new();
    let mut dups: Vec<(usize, usize)> = Vec::new();
    let n = keys.len();
    let mut i: usize = 0;
    while i < n
        invariant
            n == keys@.len(),
            i <= n,
            forall|k: Symbol| #[trigger] seen@.contains_key(k) <==> keys@.take(i as int).contains(k),
            forall|k: Symbol|
                #[trigger] seen@.contains_key(k) ==> seen@[k] as int == first_pos(
                    keys@.take(i as int),
                    k,
                ),
            kept@.len() == uniq_positions(keys@.take(i as int)).len(),
            forall|j: int|
                0 <= j < kept@.len() ==> kept@[j] as int == #[trigger] uniq_positions(
                    keys@.take(i as int),
                )[j],
            dups@.len() == dup_pairs(keys@.take(i as int)).len(),
            forall|j: int|
                0 <= j < dups@.len() ==> (dups@[j].0 as int, dups@[j].1 as int)
                    == #[trigger] dup_pairs(keys@.take(i as int))[j],
        decreases n - i,
    {
        let ghost pre = keys@.take(i as int);
        let ghost cur = keys@.take(i + 1);
        assert(cur.drop_last() =~= pre);
        assert(cur.last() == keys@[i as int]);
        let k = keys[i];
        match fx_get(&seen, &k) {
            Some(j) => {
                dups.push((*j, i));
            },
            None => {
                fx_insert(&mut seen, k, i);
                kept.push(i);
            },
        }
        proof {
            assert forall|k2: Symbol| #[trigger] seen@.contains_key(k2) <==> cur.contains(k2) by {
                if cur.contains(k2) && !pre.contains(k2) {
                    let j = choose|j: int| 0 <= j < cur.len() && cur[j] == k2;
                    if j < pre.len() {
                        assert(pre[j] == k2);
                    }
                }
                if pre.contains(k2) {
                    let j = choose|j: int| 0 <= j < pre.len() && pre[j] == k2;
                    assert(cur[j] == k2);
                }
            }
        }
        i = i + 1;
    }
    assert(keys@.take(n as int) =~= keys@);
    (kept, dups)
}

pub open spec fn named_keys(items: Seq<(Ident, RType)>) -> Seq<Symbol> {
    items.map_values(|f: (Ident, RType)| f.0.value)
}

pub open spec fn unique_named_spec(items: Seq<(Ident, RType)>, r: (Seq<(Ident, &RType)>, Seq<(Ident, Ident)>)) -> bool {
    let keys = named_keys(items);
    &&& r.0.len() == uniq_positions(keys).len()
    &&& forall|i: int|
        0 <= i < r.0.len() ==> {
            let p = #[trigger] uniq_positions(keys)[i];
            r.0[i].0 == items[p].0 && *r.0[i].1 == items[p].1
        }
    &&& r.1.len() == dup_pairs(keys).len()
    &&& forall|i: int|
        0 <= i < r.1.len() ==> {
            let d = #[trigger] dup_pairs(keys)[i];
            r.1[i].0 == items[d.0].0 && r.1[i].1 == items[d.1].0
        }
}

impl DataDef {
    /// The fields with distinct names, each at its first occurrence and in
    /// order, and the pairs of a first occurrence and a later field of the same
    /// name, in the order of the later field.
    pub fn unique_fields(&self) -> (r: (Vec<(Ident, &RType)>, Vec<(Ident, Ident)>))
        ensures
            unique_named_spec(self.fields@, (r.0@, r.1@)),
    {
        unique_named(&self.fields)
    }
}

impl Function {
    /// The arguments with distinct names, each at its first occurrence and in
    /// order, and the pairs of a first occurrence and a later argument of the
    /// same name, in the order of the later argument.
    pub fn unique_args(&self) -> (r: (Vec<(Ident, &RType)>, Vec<(Ident, Ident)>))
        ensures
            unique_named_spec(self.args@, (r.0@, r.1@)),
    {
        unique_named(&self.args)
    }
}

impl EnumDef {
    /// The distinct variant names in the order of their first occurrence, and
    /// the pairs of a first occurrence and a later variant of the same name, in
    /// the order of the later variant.
    pub fn unique_variants(&self) -> (r: (Vec<Symbol>, Vec<(Ident, Ident)>))
        ensures
            ({
                let keys = self.variants@.map_values(|v: Ident| v.value);
                &&& r.0@.len() == uniq_positions(keys).len()
                &&& forall|i: int|
                    0 <= i < r.0@.len() ==> r.0@[i] == keys[#[trigger] uniq_positions(keys)[i]]
                &&& r.1@.len() == dup_pairs(keys).len()
                &&& forall|i: int|
                    0 <= i < r.1@.len() ==> {
                        let d = #[trigger] dup_pairs(keys)[i];
                        r.1@[i].0 == self.variants@[d.0] && r.1@[i].1 == self.variants@[d.1]
                    }
            }),
    {
        let ghost keys_spec = self.variants@.map_values(|v: Ident| v.value);
        let mut keys: Vec<Symbol> = Vec::new();
        let mut i: usize = 0;
        while i < self.variants.len()
            invariant
                i <= self.variants@.len(),
                keys_spec == self.variants@.map_values(|v: Ident| v.value),
                keys@ =~= keys_spec.take(i as int),
            decreases self.variants@.len() - i,
        {
            keys.push(self.variants[i].value);
            assert(keys_spec.take(i + 1) =~= keys_spec.take(i as int).push(keys_spec[i as int]));
            i = i + 1;
        }
        assert(keys_spec.take(self.variants@.len() as int) =~= keys_spec);
        let (kept, dups) = first_occurrences(&keys);
        proof {
            assert forall|j: int| 0 <= j < uniq_positions(keys@).len() implies 0 <= #[trigger] uniq_positions(keys@)[j] < keys@.len() by {
                lemma_uniq_in_range(keys@, j);
            }
            assert forall|j: int| 0 <= j < dup_pairs(keys@).len() implies 0 <= #[trigger] dup_pairs(keys@)[j].0 < keys@.len() && 0 <= dup_pairs(keys@)[j].1 < keys@.len() by {
                lemma_dups_in_range(keys@, j);
            }
        }
        let mut out: Vec<Symbol> = Vec::new();
        let mut j: usize = 0;
        while j < kept.len()
            invariant
                j <= kept@.len(),
                keys@ == keys_spec,
                keys@.len() == self.variants@.len(),
                kept@.len() == uniq_positions(keys@).len(),
                forall|q: int| 0 <= q < kept@.len() ==> kept@[q] as int == #[trigger] uniq_positions(keys@)[q],
                forall|q: int| 0 <= q < uniq_positions(keys@).len() ==> 0 <= #[trigger] uniq_positions(keys@)[q] < keys@.len(),
                out@.len() == j,
                forall|q: int| 0 <= q < j ==> #[trigger] out@[q] == keys@[uniq_positions(keys@)[q]],
            decreases kept@.len() - j,
        {
            let p = kept[j];
            assert(uniq_positions(keys@)[j as int] == kept@[j as int] as int);
            out.push(keys[p]);
            j = j + 1;
        }
        let mut dup_out: Vec<(Ident, Ident)> = Vec::new();
        let mut j: usize = 0;
        while j < dups.len()
            invariant
                j <= dups@.len(),
                keys@ == keys_spec,
                keys@.len() == self.variants@.len(),
                dups@.len() == dup_pairs(keys@).len(),
                forall|q: int| 0 <= q < dups@.len() ==> (dups@[q].0 as int, dups@[q].1 as int) == #[trigger] dup_pairs(keys@)[q],
                forall|q: int| 0 <= q < dup_pairs(keys@).len() ==> 0 <= #[trigger] dup_pairs(keys@)[q].0 < keys@.len() && 0 <= dup_pairs(keys@)[q].1 < keys@.len(),
                dup_out@.len() == j,
                forall|q: int|
                    0 <= q < j ==> {
                        let d = dup_pairs(keys@)[q];
                        (#[trigger] dup_out@[q]).0 == self.variants@[d.0] && dup_out@[q].1 == self.variants@[d.1]
                    },
            decreases dups@.len() - j,
        {
            let (a, b) = dups[j];
            assert(dup_pairs(keys@)[j as int] == (a as int, b as int));
            dup_out.push((copy_ident(&self.variants[a]), copy_ident(&self.variants[b])));
            j = j + 1;
        }
        (out, dup_out)
    }
}


/// The entries with distinct names, each at its first occurrence and in
/// order, and the pairs of a first occurrence and a later entry of the same
/// name, in the order of the later entry.
pub fn unique_named(fields: &Vec<(Ident, RType)>) -> (r: (Vec<(Ident, &RType)>, Vec<(Ident, Ident)>))
    ensures
        unique_named_spec(fields@, (r.0@, r.1@)),
{
    let ghost keys_spec = fields@.map_values(|f: (Ident, RType)| f.0.value);
    let mut keys: Vec<Symbol> = Vec::new();
    let mut i: usize = 0;
    while i < fields.len()
        invariant
            i <= fields@.len(),
            keys_spec == fields@.map_values(|f: (Ident, RType)| f.0.value),
            keys@ =~= keys_spec.take(i as int),
        decreases fields@.len() - i,
    {
        keys.push(fields[i].0.value);
        assert(keys_spec.take(i + 1) =~= keys_spec.take(i as int).push(keys_spec[i as int]));
        i = i + 1;
    }
    assert(keys_spec.take(fields@.len() as int) =~= keys_spec);
    let (kept, dups) = first_occurrences(&keys);
    proof {
        assert forall|j: int| 0 <= j < uniq_positions(keys@).len() implies 0 <= #[trigger] uniq_positions(keys@)[j] < keys@.len() by {
            lemma_uniq_in_range(keys@, j);
        }
        assert forall|j: int| 0 <= j < dup_pairs(keys@).len() implies 0 <= #[trigger] dup_pairs(keys@)[j].0 < keys@.len() && 0 <= dup_pairs(keys@)[j].1 < keys@.len() by {
            lemma_dups_in_range(keys@, j);
        }
    }
    let mut out: Vec<(Ident, &RType)> = Vec::new();
    let mut j: usize = 0;
    while j < kept.len()
        invariant
            j <= kept@.len(),
            keys@ == keys_spec,
            keys@.len() == fields@.len(),
            kept@.len() == uniq_positions(keys@).len(),
            forall|q: int| 0 <= q < kept@.len() ==> kept@[q] as int == #[trigger] uniq_positions(keys@)[q],
            forall|q: int| 0 <= q < uniq_positions(keys@).len() ==> 0 <= #[trigger] uniq_positions(keys@)[q] < keys@.len(),
            out@.len() == j,
            forall|q: int|
                0 <= q < j ==> {
                    let p = uniq_positions(keys@)[q];
                    (#[trigger] out@[q]).0 == fields@[p].0 && *out@[q].1 == fields@[p].1
                },
        decreases kept@.len() - j,
    {
        let p = kept[j];
        assert(uniq_positions(keys@)[j as int] == kept@[j as int] as int);
        let f = &fields[p];
        out.push((copy_ident(&f.0), &f.1));
        j = j + 1;
    }
    let mut dup_out: Vec<(Ident, Ident)> = Vec::new();
    let mut j: usize = 0;
    while j < dups.len()
        invariant
            j <= dups@.len(),
            keys@ == keys_spec,
            keys@.len() == fields@.len(),
            dups@.len() == dup_pairs(keys@).len(),
            forall|q: int| 0 <= q < dups@.len() ==> (dups@[q].0 as int, dups@[q].1 as int) == #[trigger] dup_pairs(keys@)[q],
            forall|q: int| 0 <= q < dup_pairs(keys@).len() ==> 0 <= #[trigger] dup_pairs(keys@)[q].0 < keys@.len() && 0 <= dup_pairs(keys@)[q].1 < keys@.len(),
            dup_out@.len() == j,
            forall|q: int|
                0 <= q < j ==> {
                    let d = dup_pairs(keys@)[q];
                    (#[trigger] dup_out@[q]).0 == fields@[d.0].0 && dup_out@[q].1 == fields@[d.1].0
                },
        decreases dups@.len() - j,
    {
        let (a, b) = dups[j];
        assert(dup_pairs(keys@)[j as int] == (a as int, b as int));
        dup_out.push((copy_ident(&fields[a].0), copy_ident(&fields[b].0)));
        j = j + 1;
    }
    (out, dup_out)
}


pub proof fn lemma_uniq_in_range(keys: Seq<Symbol>, j: int)
    requires
        0 <= j < uniq_positions(keys).len(),
    ensures
        0 <= uniq_positions(keys)[j] < keys.len(),
    decreases keys.len(),
{
    if keys.len() > 0 {
        if j < uniq_positions(keys.drop_last()).len() {
            lemma_uniq_in_range(keys.drop_last(), j);
        }
    }
}

proof fn lemma_dups_in_range(keys: Seq<Symbol>, j: int)
    requires
        0 <= j < dup_pairs(keys).len(),
    ensures
        0 <= dup_pairs(keys)[j].0 < keys.len(),
        0 <= dup_pairs(keys)[j].1 < keys.len(),
    decreases keys.len(),
{
    if keys.len() > 0 {
        if j < dup_pairs(keys.drop_last()).len() {
            lemma_dups_in_range(keys.drop_last(), j);
        } else {
            lemma_first_pos(keys.drop_last(), keys.last());
        }
    }
}

/// The positions that `uniq_positions` keeps are increasing and in range,
/// no two of them hold the same key, and every key is held by one of them:
/// they are the keys without repetition, in the order of their first
/// occurrence.
#[verifier::spinoff_prover]
#[verifier::rlimit(50)]
pub proof fn law_uniq_positions(keys: Seq<Symbol>)
    ensures
        forall|i: int, j: int|
            #![trigger uniq_positions(keys)[i], uniq_positions(keys)[j]]
            0 <= i < j < uniq_positions(keys).len() ==> 0 <= uniq_positions(keys)[i] < uniq_positions(keys)[j]
                < keys.len(),
        forall|i: int, j: int|
            0 <= i < j < uniq_positions(keys).len() ==> keys[#[trigger] uniq_positions(keys)[i]]
                != keys[#[trigger] uniq_positions(keys)[j]],
        forall|p: int|
            #![trigger keys[p]]
            0 <= p < keys.len() ==> exists|i: int|
                0 <= i < uniq_positions(keys).len() && keys[#[trigger] uniq_positions(keys)[i]] == keys[p],
    decreases keys.len(),
{
    if keys.len() > 0 {
        let init = keys.drop_last();
        law_uniq_positions(init);
        let u0 = uniq_positions(init);
        let u = uniq_positions(keys);
        assert forall|i: int| 0 <= i < u0.len() implies 0 <= #[trigger] u0[i] < init.len() by {
            lemma_uniq_in_range(init, i);
        }
        assert forall|q: int| 0 <= q < init.len() implies keys[q] == #[trigger] init[q] by {}
        if init.contains(keys.last()) {
            assert(u == u0);
            assert forall|p: int| #![trigger keys[p]] 0 <= p < keys.len() implies exists|i: int| 0 <= i < u.len() && keys[#[trigger] u[i]] == keys[p] by {
                let q = if p < init.len() {
                    p
                } else {
                    choose|q: int| 0 <= q < init.len() && init[q] == keys.last()
                };
                let i = choose|i: int| 0 <= i < u0.len() && init[#[trigger] u0[i]] == init[q];
                assert(keys[u[i]] == keys[p]);
            }
        } else {
            assert(u == u0.push(keys.len() - 1));
            assert forall|i: int, j: int| 0 <= i < j < u.len() implies 0 <= #[trigger] u[i] && u[i] < #[trigger] u[j] && u[j] < keys.len() by {
                assert(u[i] == u0[i]);
                if j < u.len() - 1 {
                    assert(u[j] == u0[j]);
                }
            }
            assert forall|i: int, j: int| 0 <= i < j < u.len() implies keys[#[trigger] u[i]] != keys[#[trigger] u[j]] by {
                if j == u.len() - 1 {
                    assert(u[i] == u0[i]);
                    assert(init[u0[i]] == keys[u[i]]);
                    assert(init.contains(keys[u[i]]));
                } else {
                    assert(u[i] == u0[i] && u[j] == u0[j]);
                }
            }
            assert forall|p: int| #![trigger keys[p]] 0 <= p < keys.len() implies exists|i: int| 0 <= i < u.len() && keys[#[trigger] u[i]] == keys[p] by {
                if p < init.len() {
                    let i = choose|i: int| 0 <= i < u0.len() && init[#[trigger] u0[i]] == init[p];
                    assert(u[i] == u0[i]);
                    assert(keys[u[i]] == keys[p]);
                } else {
                    assert(keys[u[u.len() - 1]] == keys[p]);
                }
            }
        }
    }
}

/// Each pair that `dup_pairs` gives is a first occurrence and a later
/// position holding the same key; the later positions increase; and every
/// position is either kept by `uniq_positions` or the later one of a pair.
pub proof fn law_dup_pairs(keys: Seq<Symbol>)
    ensures
        ({
            let d = dup_pairs(keys);
            &&& forall|i: int|
                0 <= i < d.len() ==> {
                    let (o, p) = #[trigger] d[i];
                    &&& 0 <= o < p < keys.len()
                    &&& keys[o] == keys[p]
                    &&& forall|q: int| 0 <= q < o ==> keys[q] != keys[p]
                }
            &&& forall|i: int, j: int| 0 <= i < j < d.len() ==> (#[trigger] d[i]).1 < (#[trigger] d[j]).1
            &&& d.len() + uniq_positions(keys).len() == keys.len()
        }),
    decreases keys.len(),
{
    if keys.len() > 0 {
        let init = keys.drop_last();
        law_dup_pairs(init);
        assert forall|q: int| 0 <= q < init.len() implies keys[q] == #[trigger] init[q] by {}
        lemma_first_pos(init, keys.last());
        let d0 = dup_pairs(init);
        let d = dup_pairs(keys);
        if init.contains(keys.last()) {
            let fp = first_pos(init, keys.last());
            assert(d == d0.push((fp, keys.len() - 1)));
            assert forall|i: int| 0 <= i < d.len() implies ({
                let (o, p) = #[trigger] d[i];
                &&& 0 <= o < p < keys.len()
                &&& keys[o] == keys[p]
                &&& forall|q: int| 0 <= q < o ==> keys[q] != keys[p]
            }) by {
                if i < d0.len() {
                    assert(d[i] == d0[i]);
                    let (o, p) = d0[i];
                    assert forall|q: int| 0 <= q < o implies keys[q] != keys[p] by {
                        assert(keys[q] == init[q]);
                    }
                } else {
                    assert forall|q: int| 0 <= q < fp implies #[trigger] keys[q] != keys[keys.len() - 1] by {
                        assert(keys[q] == init[q]);
                    }
                }
            }
            assert forall|i: int, j: int| 0 <= i < j < d.len() implies (#[trigger] d[i]).1 < (#[trigger] d[j]).1 by {
                assert(d[i] == d0[i]);
                if j < d0.len() {
                    assert(d[j] == d0[j]);
                }
            }
        } else {
            assert(d == d0);
            assert forall|i: int| 0 <= i < d.len() implies ({
                let (o, p) = #[trigger] d[i];
                &&& 0 <= o < p < keys.len()
                &&& keys[o] == keys[p]
                &&& forall|q: int| 0 <= q < o ==> keys[q] != keys[p]
            }) by {
                let (o, p) = d0[i];
                assert forall|q: int| 0 <= q < o implies keys[q] != keys[p] by {
                    assert(keys[q] == init[q]);
                }
            }
        }
    }
}

} // verus!
