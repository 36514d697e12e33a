use vstd::prelude::*;
use crate::model::{
    DataType, DataTypeV, Layer, LayerDesc, LayerDescV, LayerType, LayerV, PyLayer, UserLayerV,
};
use crate::pack::{
    ceil_log2, lemma_clog2_from_bounds, lemma_typed_link_pack_unpack, pack_typed_link,
    spec_ceil_log2, spec_pack, spec_unpack_target, spec_unpack_ty, unpack_typed_link,
};
use crate::error::{TeangaError, TeangaResult};

verus! {

// ---------------------------------------------------------------------------
// Closed-vocabulary lookup: the index of the first occurrence of a value.
// ---------------------------------------------------------------------------

/// Index of the first occurrence of `v` in `vals`, if any.
pub open spec fn spec_first_index(vals: Seq<Seq<char>>, v: Seq<char>) -> Option<int>
    decreases vals.len(),
{
    if vals.len() == 0 {
        None
    } else if vals[0] == v {
        Some(0)
    } else {
        match spec_first_index(vals.drop_first(), v) {
            Some(i) => Some(i + 1),
            None => None,
        }
    }
}

pub proof fn lemma_first_index_found(vals: Seq<Seq<char>>, v: Seq<char>, i: int)
    requires
        0 <= i < vals.len(),
        vals[i] == v,
        forall|j: int| 0 <= j < i ==> vals[j] != v,
    ensures
        spec_first_index(vals, v) == Some(i),
    decreases vals.len(),
{
    if vals[0] == v {
        assert(i == 0);
    } else {
        lemma_first_index_found(vals.drop_first(), v, i - 1);
    }
}

pub proof fn lemma_first_index_none(vals: Seq<Seq<char>>, v: Seq<char>)
    requires
        forall|j: int| 0 <= j < vals.len() ==> vals[j] != v,
    ensures
        spec_first_index(vals, v) is None,
    decreases vals.len(),
{
    if vals.len() > 0 {
        lemma_first_index_none(vals.drop_first(), v);
    }
}

pub proof fn lemma_first_index_some(vals: Seq<Seq<char>>, v: Seq<char>)
    requires
        spec_first_index(vals, v) is Some,
    ensures
        0 <= spec_first_index(vals, v)->Some_0 < vals.len(),
        vals[spec_first_index(vals, v)->Some_0] == v,
    decreases vals.len(),
{
    if vals.len() > 0 && vals[0] != v {
        lemma_first_index_some(vals.drop_first(), v);
    }
}

/// First index of `v` in `vals`, as a `u32` code, or `None` when absent
/// or when the vocabulary is too large to index with 32 bits.
pub fn find_value(vals: &Vec<String>, v: &String) -> (r: Option<u32>)
    ensures
        r matches Some(i) ==> spec_first_index(vals.deep_view(), v@) == Some(i as int),
        r is None ==> spec_first_index(vals.deep_view(), v@) is None || vals.deep_view().len()
            > u32::MAX as nat,
{
    let mut i: usize = 0;
    while i < vals.len()
        invariant
            i <= vals@.len(),
            vals.deep_view().len() == vals@.len(),
            forall|j: int| 0 <= j < i ==> vals.deep_view()[j] != v@,
        decreases vals@.len() - i,
    {
        assert(vals.deep_view()[i as int] == vals@[i as int]@);
        if vals[i] == *v {
            if i <= u32::MAX as usize {
                proof {
                    lemma_first_index_found(vals.deep_view(), v@, i as int);
                }
                return Some(i as u32);
            } else {
                return None;
            }
        }
        i = i + 1;
    }
    proof {
        lemma_first_index_none(vals.deep_view(), v@);
    }
    None
}

// ---------------------------------------------------------------------------
// Typed-link element codec over a closed type list.
// ---------------------------------------------------------------------------

/// Tag bits reserved by a type list of length `k`.
pub open spec fn tl_bits(vals: Seq<Seq<char>>) -> u32 {
    spec_ceil_log2(vals.len() as u32)
}

/// A typed link (target, type name) can be packed against `vals`: the
/// name is in the list and the target fits in the remaining high bits.
pub open spec fn tl_enc_ok(vals: Seq<Seq<char>>, targ: u32, ty: Seq<char>) -> bool {
    &&& vals.len() <= u32::MAX as nat
    &&& spec_first_index(vals, ty) is Some
    &&& (targ as u64) < (1u64 << ((32 - tl_bits(vals)) as u64))
}

/// The packed code of a typed link.
pub open spec fn tl_enc(vals: Seq<Seq<char>>, targ: u32, ty: Seq<char>) -> u32 {
    spec_pack(targ, spec_first_index(vals, ty)->Some_0 as u32, tl_bits(vals)) as u32
}

/// A packed code's type index is within the type list.
pub open spec fn tl_dec_ok(vals: Seq<Seq<char>>, code: u32) -> bool {
    &&& vals.len() <= u32::MAX as nat
    &&& spec_unpack_ty(code, tl_bits(vals)) < vals.len() as u64
}

/// The target a packed code points at.
pub open spec fn tl_dec_targ(vals: Seq<Seq<char>>, code: u32) -> u32 {
    spec_unpack_target(code, tl_bits(vals)) as u32
}

/// The type name a packed code carries.
pub open spec fn tl_dec_ty(vals: Seq<Seq<char>>, code: u32) -> Seq<char> {
    vals[spec_unpack_ty(code, tl_bits(vals)) as int]
}

/// Packing a typed link and unpacking it gives back the target and the
/// type name.
pub proof fn lemma_tl_round_trip(vals: Seq<Seq<char>>, targ: u32, ty: Seq<char>)
    requires
        tl_enc_ok(vals, targ, ty),
    ensures
        tl_dec_ok(vals, tl_enc(vals, targ, ty)),
        tl_dec_targ(vals, tl_enc(vals, targ, ty)) == targ,
        tl_dec_ty(vals, tl_enc(vals, targ, ty)) == ty,
{
    let b = tl_bits(vals);
    let k = vals.len() as u32;
    lemma_clog2_from_bounds(k as u64, 0);
    lemma_first_index_some(vals, ty);
    let i = spec_first_index(vals, ty)->Some_0;
    assert(((i as u32) as u64) < (1u64 << (b as u64)));
    lemma_typed_link_pack_unpack(targ, i as u32, b);
}


// ---------------------------------------------------------------------------
// Layer-level codec model: what encoding accepts and produces, and what
// decoding accepts and produces, given the layer's schema. Interned-string
// codes and resolved strings are passed alongside, so the model is exact
// whatever the interning table holds.
// ---------------------------------------------------------------------------

/// The text values a layer hands to the string-interning table when its
/// schema's value kind is free text, in layer order.
pub open spec fn enc_strings(u: UserLayerV, d: LayerDescV) -> Seq<Seq<char>> {
    if d.data == Some(DataTypeV::StringV) {
        match u {
            UserLayerV::LSV(items) => items,
            UserLayerV::L1SV(items) => Seq::new(items.len(), |j: int| items[j].1),
            UserLayerV::L2SV(items) => Seq::new(items.len(), |j: int| items[j].2),
            _ => Seq::empty(),
        }
    } else {
        Seq::empty()
    }
}

/// Every value occurs in the closed vocabulary, which is small enough to
/// index with 32 bits.
pub open spec fn enum_list_ok(vals: Seq<Seq<char>>, items: Seq<Seq<char>>) -> bool {
    forall|j: int|
        0 <= j < items.len() ==> (vals.len() <= u32::MAX as nat && spec_first_index(
            vals,
            #[trigger] items[j],
        ) is Some)
}

/// The enum index a vocabulary value encodes to.
pub open spec fn enum_code(vals: Seq<Seq<char>>, v: Seq<char>) -> u32 {
    spec_first_index(vals, v)->Some_0 as u32
}

/// Whether `from_user` accepts the pair of a user-facing layer and a
/// schema: the shape must match the schema's structural type and value
/// kind, closed-vocabulary values must be declared, and typed-link
/// targets must fit beside their type tag.
pub open spec fn enc_ok(u: UserLayerV, d: LayerDescV) -> bool {
    match u {
        UserLayerV::CharacterLayerV(_) => d.layer_type == LayerType::characters,
        UserLayerV::L1V(_) => (d.layer_type == LayerType::seq && d.data == Some(
            DataTypeV::LinkV,
        )) || ((d.layer_type == LayerType::div || d.layer_type == LayerType::element)
            && d.data is None),
        UserLayerV::L2V(_) => ((d.layer_type == LayerType::div || d.layer_type
            == LayerType::element) && d.data == Some(DataTypeV::LinkV)) || (d.layer_type
            == LayerType::span && d.data is None),
        UserLayerV::L3V(_) => d.layer_type == LayerType::span && d.data == Some(DataTypeV::LinkV),
        UserLayerV::LSV(items) => d.layer_type == LayerType::seq && match d.data {
            Some(DataTypeV::StringV) => true,
            Some(DataTypeV::EnumV(vals)) => enum_list_ok(vals, items),
            _ => false,
        },
        UserLayerV::L1SV(items) => match d.data {
            Some(DataTypeV::TypedLinkV(vals)) => d.layer_type == LayerType::seq && forall|j: int|
                0 <= j < items.len() ==> tl_enc_ok(vals, (#[trigger] items[j]).0, items[j].1),
            Some(DataTypeV::StringV) => d.layer_type == LayerType::div || d.layer_type
                == LayerType::element,
            Some(DataTypeV::EnumV(vals)) => (d.layer_type == LayerType::div || d.layer_type
                == LayerType::element) && enum_list_ok(
                vals,
                Seq::new(items.len(), |j: int| items[j].1),
            ),
            _ => false,
        },
        UserLayerV::L2SV(items) => match d.data {
            Some(DataTypeV::TypedLinkV(vals)) => (d.layer_type == LayerType::div || d.layer_type
                == LayerType::element) && forall|j: int|
                0 <= j < items.len() ==> tl_enc_ok(vals, (#[trigger] items[j]).1, items[j].2),
            Some(DataTypeV::StringV) => d.layer_type == LayerType::span,
            Some(DataTypeV::EnumV(vals)) => d.layer_type == LayerType::span && enum_list_ok(
                vals,
                Seq::new(items.len(), |j: int| items[j].2),
            ),
            _ => false,
        },
        UserLayerV::L3SV(items) => d.layer_type == LayerType::span && match d.data {
            Some(DataTypeV::TypedLinkV(vals)) => forall|j: int|
                0 <= j < items.len() ==> tl_enc_ok(vals, (#[trigger] items[j]).2, items[j].3),
            _ => false,
        },
    }
}

/// The stored layer `from_user` produces on an accepted pair, where
/// `codes` are the interned codes of `enc_strings(u, d)`, position by
/// position.
pub open spec fn enc_val(u: UserLayerV, d: LayerDescV, codes: Seq<u32>) -> LayerV {
    match u {
        UserLayerV::CharacterLayerV(s) => LayerV::CharactersV(s),
        UserLayerV::L1V(v) => if d.layer_type == LayerType::seq {
            LayerV::SeqV(v)
        } else if d.layer_type == LayerType::div {
            LayerV::DivNoDataV(v)
        } else {
            LayerV::ElementNoDataV(v)
        },
        UserLayerV::L2V(v) => if d.layer_type == LayerType::div {
            LayerV::DivV(v)
        } else if d.layer_type == LayerType::element {
            LayerV::ElementV(v)
        } else {
            LayerV::SpanNoDataV(v)
        },
        UserLayerV::L3V(v) => LayerV::SpanV(v),
        UserLayerV::LSV(items) => match d.data {
            Some(DataTypeV::StringV) => LayerV::SeqV(codes),
            Some(DataTypeV::EnumV(vals)) => LayerV::SeqV(
                Seq::new(items.len(), |j: int| enum_code(vals, items[j])),
            ),
            _ => arbitrary(),
        },
        UserLayerV::L1SV(items) => match d.data {
            Some(DataTypeV::TypedLinkV(vals)) => LayerV::SeqV(
                Seq::new(items.len(), |j: int| tl_enc(vals, items[j].0, items[j].1)),
            ),
            Some(DataTypeV::StringV) => {
                let pairs = Seq::new(items.len(), |j: int| (items[j].0, codes[j]));
                if d.layer_type == LayerType::div {
                    LayerV::DivV(pairs)
                } else {
                    LayerV::ElementV(pairs)
                }
            },
            Some(DataTypeV::EnumV(vals)) => {
                let pairs = Seq::new(
                    items.len(),
                    |j: int| (items[j].0, enum_code(vals, items[j].1)),
                );
                if d.layer_type == LayerType::div {
                    LayerV::DivV(pairs)
                } else {
                    LayerV::ElementV(pairs)
                }
            },
            _ => arbitrary(),
        },
        UserLayerV::L2SV(items) => match d.data {
            Some(DataTypeV::TypedLinkV(vals)) => {
                let pairs = Seq::new(
                    items.len(),
                    |j: int| (items[j].0, tl_enc(vals, items[j].1, items[j].2)),
                );
                if d.layer_type == LayerType::div {
                    LayerV::DivV(pairs)
                } else {
                    LayerV::ElementV(pairs)
                }
            },
            Some(DataTypeV::StringV) => LayerV::SpanV(
                Seq::new(items.len(), |j: int| (items[j].0, items[j].1, codes[j])),
            ),
            Some(DataTypeV::EnumV(vals)) => LayerV::SpanV(
                Seq::new(
                    items.len(),
                    |j: int| (items[j].0, items[j].1, enum_code(vals, items[j].2)),
                ),
            ),
            _ => arbitrary(),
        },
        UserLayerV::L3SV(items) => match d.data {
            Some(DataTypeV::TypedLinkV(vals)) => LayerV::SpanV(
                Seq::new(
                    items.len(),
                    |j: int| (items[j].0, items[j].1, tl_enc(vals, items[j].2, items[j].3)),
                ),
            ),
            _ => arbitrary(),
        },
    }
}

/// The interned-string codes a stored layer asks the table to resolve
/// when its schema's value kind is free text, in layer order.
pub open spec fn dec_codes(l: LayerV, d: LayerDescV) -> Seq<u32> {
    if d.data == Some(DataTypeV::StringV) {
        match l {
            LayerV::SeqV(v) => v,
            LayerV::DivV(v) => Seq::new(v.len(), |j: int| v[j].1),
            LayerV::ElementV(v) => Seq::new(v.len(), |j: int| v[j].1),
            LayerV::SpanV(v) => Seq::new(v.len(), |j: int| v[j].2),
            _ => Seq::empty(),
        }
    } else {
        Seq::empty()
    }
}

/// Every code is an index into the closed vocabulary.
pub open spec fn enum_codes_ok(vals: Seq<Seq<char>>, codes: Seq<u32>) -> bool {
    forall|j: int| 0 <= j < codes.len() ==> (#[trigger] codes[j]) < vals.len()
}

/// Every packed code carries a type index within the type list.
pub open spec fn tl_codes_ok(vals: Seq<Seq<char>>, codes: Seq<u32>) -> bool {
    forall|j: int| 0 <= j < codes.len() ==> tl_dec_ok(vals, #[trigger] codes[j])
}

/// Whether decoding accepts a populated division or element layer, which
/// share their shape: enum indices and typed-link type tags in range, a
/// value kind declared.
pub open spec fn pairs_ok(v: Seq<(u32, u32)>, d: LayerDescV) -> bool {
    match d.data {
        Some(DataTypeV::StringV) => true,
        Some(DataTypeV::EnumV(vals)) => enum_codes_ok(vals, Seq::new(v.len(), |j: int| v[j].1)),
        Some(DataTypeV::LinkV) => true,
        Some(DataTypeV::TypedLinkV(vals)) => tl_codes_ok(vals, Seq::new(v.len(), |j: int| v[j].1)),
        None => false,
    }
}

/// Whether `into_user` accepts the pair of a stored layer and a schema:
/// populated shapes need a declared value kind, enum indices and
/// typed-link type tags must be in range.
pub open spec fn dec_ok(l: LayerV, d: LayerDescV) -> bool {
    match l {
        LayerV::CharactersV(_) => true,
        LayerV::SeqV(v) => match d.data {
            Some(DataTypeV::StringV) => true,
            Some(DataTypeV::EnumV(vals)) => enum_codes_ok(vals, v),
            Some(DataTypeV::LinkV) => true,
            Some(DataTypeV::TypedLinkV(vals)) => tl_codes_ok(vals, v),
            None => false,
        },
        LayerV::DivV(v) => pairs_ok(v, d),
        LayerV::ElementV(v) => pairs_ok(v, d),
        LayerV::SpanV(v) => match d.data {
            Some(DataTypeV::StringV) => true,
            Some(DataTypeV::EnumV(vals)) => enum_codes_ok(vals, Seq::new(v.len(), |j: int| v[j].2)),
            Some(DataTypeV::LinkV) => true,
            Some(DataTypeV::TypedLinkV(vals)) => tl_codes_ok(
                vals,
                Seq::new(v.len(), |j: int| v[j].2),
            ),
            None => false,
        },
        LayerV::DivNoDataV(_) => true,
        LayerV::ElementNoDataV(_) => true,
        LayerV::SpanNoDataV(_) => true,
    }
}

/// The user-facing layer `into_user` produces on an accepted pair, where
/// `strs` are the resolutions of `dec_codes(l, d)`, position by position.
pub open spec fn dec_val(l: LayerV, d: LayerDescV, strs: Seq<Seq<char>>) -> UserLayerV {
    match l {
        LayerV::CharactersV(s) => UserLayerV::CharacterLayerV(s),
        LayerV::SeqV(v) => match d.data {
            Some(DataTypeV::StringV) => UserLayerV::LSV(strs),
            Some(DataTypeV::EnumV(vals)) => UserLayerV::LSV(
                Seq::new(v.len(), |j: int| vals[v[j] as int]),
            ),
            Some(DataTypeV::LinkV) => UserLayerV::L1V(v),
            Some(DataTypeV::TypedLinkV(vals)) => UserLayerV::L1SV(
                Seq::new(v.len(), |j: int| (tl_dec_targ(vals, v[j]), tl_dec_ty(vals, v[j]))),
            ),
            None => arbitrary(),
        },
        LayerV::DivV(v) => dec_val_pairs(v, d, strs),
        LayerV::ElementV(v) => dec_val_pairs(v, d, strs),
        LayerV::SpanV(v) => match d.data {
            Some(DataTypeV::StringV) => UserLayerV::L2SV(
                Seq::new(v.len(), |j: int| (v[j].0, v[j].1, strs[j])),
            ),
            Some(DataTypeV::EnumV(vals)) => UserLayerV::L2SV(
                Seq::new(v.len(), |j: int| (v[j].0, v[j].1, vals[v[j].2 as int])),
            ),
            Some(DataTypeV::LinkV) => UserLayerV::L3V(v),
            Some(DataTypeV::TypedLinkV(vals)) => UserLayerV::L3SV(
                Seq::new(
                    v.len(),
                    |j: int| (v[j].0, v[j].1, tl_dec_targ(vals, v[j].2), tl_dec_ty(vals, v[j].2)),
                ),
            ),
            None => arbitrary(),
        },
        LayerV::DivNoDataV(v) => UserLayerV::L1V(v),
        LayerV::ElementNoDataV(v) => UserLayerV::L1V(v),
        LayerV::SpanNoDataV(v) => UserLayerV::L2V(v),
    }
}

/// Decoding of populated division and element layers, which share their
/// shape.
pub open spec fn dec_val_pairs(v: Seq<(u32, u32)>, d: LayerDescV, strs: Seq<Seq<char>>) -> UserLayerV {
    match d.data {
        Some(DataTypeV::StringV) => UserLayerV::L1SV(Seq::new(v.len(), |j: int| (v[j].0, strs[j]))),
        Some(DataTypeV::EnumV(vals)) => UserLayerV::L1SV(
            Seq::new(v.len(), |j: int| (v[j].0, vals[v[j].1 as int])),
        ),
        Some(DataTypeV::LinkV) => UserLayerV::L2V(v),
        Some(DataTypeV::TypedLinkV(vals)) => UserLayerV::L2SV(
            Seq::new(
                v.len(),
                |j: int| (v[j].0, tl_dec_targ(vals, v[j].1), tl_dec_ty(vals, v[j].1)),
            ),
        ),
        None => arbitrary(),
    }
}


// ---------------------------------------------------------------------------
// Round trip: decoding an encoded layer gives the user-facing layer back.
// ---------------------------------------------------------------------------

/// For every schema/user-facing-layer pair that `from_user` accepts, and
/// any codes the interning table assigned to the layer's text values,
/// `into_user` accepts the encoded layer, asks the table for exactly
/// those codes, and — when the table resolves each code back to the text
/// it was assigned for — returns the original layer.
pub proof fn lemma_layer_round_trip(u: UserLayerV, d: LayerDescV, codes: Seq<u32>)
    requires
        enc_ok(u, d),
        codes.len() == enc_strings(u, d).len(),
    ensures
        dec_ok(enc_val(u, d, codes), d),
        dec_codes(enc_val(u, d, codes), d) == codes,
        dec_val(enc_val(u, d, codes), d, enc_strings(u, d)) == u,
{
    let l = enc_val(u, d, codes);
    let strs = enc_strings(u, d);
    match u {
        UserLayerV::CharacterLayerV(_) => {
            assert(dec_codes(l, d) =~= codes);
        },
        UserLayerV::L1V(v) => {
            assert(dec_codes(l, d) =~= codes);
        },
        UserLayerV::L2V(v) => {
            assert(dec_codes(l, d) =~= codes);
        },
        UserLayerV::L3V(v) => {
            assert(dec_codes(l, d) =~= codes);
        },
        UserLayerV::LSV(items) => match d.data {
            Some(DataTypeV::StringV) => {
                assert(dec_codes(l, d) =~= codes);
                assert(dec_val(l, d, strs) == u);
            },
            Some(DataTypeV::EnumV(vals)) => {
                let enc = Seq::new(items.len(), |j: int| enum_code(vals, items[j]));
                assert forall|j: int| 0 <= j < enc.len() implies (#[trigger] enc[j])
                    < vals.len() by {
                    lemma_first_index_some(vals, items[j]);
                }
                assert(dec_codes(l, d) =~= codes);
                assert(Seq::new(enc.len(), |j: int| vals[enc[j] as int]) =~= items) by {
                    assert forall|j: int| 0 <= j < enc.len() implies vals[enc[j] as int]
                        == items[j] by {
                        lemma_first_index_some(vals, items[j]);
                    }
                }
            },
            _ => {},
        },
        UserLayerV::L1SV(items) => match d.data {
            Some(DataTypeV::TypedLinkV(vals)) => {
                let enc = Seq::new(items.len(), |j: int| tl_enc(vals, items[j].0, items[j].1));
                assert forall|j: int| 0 <= j < enc.len() implies tl_dec_ok(
                    vals,
                    #[trigger] enc[j],
                ) by {
                    lemma_tl_round_trip(vals, items[j].0, items[j].1);
                }
                assert(dec_codes(l, d) =~= codes);
                assert(Seq::new(
                    enc.len(),
                    |j: int| (tl_dec_targ(vals, enc[j]), tl_dec_ty(vals, enc[j])),
                ) =~= items) by {
                    assert forall|j: int| 0 <= j < enc.len() implies (
                    tl_dec_targ(vals, enc[j]),
                    tl_dec_ty(vals, enc[j]),
                    ) == items[j] by {
                        lemma_tl_round_trip(vals, items[j].0, items[j].1);
                    }
                }
            },
            Some(DataTypeV::StringV) => {
                let pairs = Seq::new(items.len(), |j: int| (items[j].0, codes[j]));
                assert(dec_codes(l, d) =~= codes);
                assert(Seq::new(pairs.len(), |j: int| (pairs[j].0, strs[j])) =~= items);
            },
            Some(DataTypeV::EnumV(vals)) => {
                let vs = Seq::new(items.len(), |j: int| items[j].1);
                let pairs = Seq::new(items.len(), |j: int| (items[j].0, enum_code(vals, items[j].1)));
                assert forall|j: int| 0 <= j < pairs.len() implies (#[trigger] pairs[j]).1
                    < vals.len() by {
                    assert(vs[j] == items[j].1);
                    lemma_first_index_some(vals, items[j].1);
                }
                assert(enum_codes_ok(vals, Seq::new(pairs.len(), |j: int| pairs[j].1)));
                assert(dec_codes(l, d) =~= codes);
                assert(Seq::new(pairs.len(), |j: int| (pairs[j].0, vals[pairs[j].1 as int]))
                    =~= items) by {
                    assert forall|j: int| 0 <= j < pairs.len() implies vals[(
                    #[trigger] pairs[j]).1 as int] == items[j].1 by {
                        assert(vs[j] == items[j].1);
                        lemma_first_index_some(vals, items[j].1);
                    }
                }
            },
            _ => {},
        },
        UserLayerV::L2SV(items) => match d.data {
            Some(DataTypeV::TypedLinkV(vals)) => {
                let pairs = Seq::new(
                    items.len(),
                    |j: int| (items[j].0, tl_enc(vals, items[j].1, items[j].2)),
                );
                assert forall|j: int| 0 <= j < pairs.len() implies tl_dec_ok(
                    vals,
                    (#[trigger] pairs[j]).1,
                ) by {
                    lemma_tl_round_trip(vals, items[j].1, items[j].2);
                }
                assert(tl_codes_ok(vals, Seq::new(pairs.len(), |j: int| pairs[j].1)));
                assert(dec_codes(l, d) =~= codes);
                assert(Seq::new(
                    pairs.len(),
                    |j: int| (pairs[j].0, tl_dec_targ(vals, pairs[j].1), tl_dec_ty(vals, pairs[j].1)),
                ) =~= items) by {
                    assert forall|j: int| 0 <= j < pairs.len() implies (
                    (#[trigger] pairs[j]).0,
                    tl_dec_targ(vals, pairs[j].1),
                    tl_dec_ty(vals, pairs[j].1),
                    ) == items[j] by {
                        lemma_tl_round_trip(vals, items[j].1, items[j].2);
                    }
                }
            },
            Some(DataTypeV::StringV) => {
                let trips = Seq::new(items.len(), |j: int| (items[j].0, items[j].1, codes[j]));
                assert(dec_codes(l, d) =~= codes);
                assert(Seq::new(trips.len(), |j: int| (trips[j].0, trips[j].1, strs[j]))
                    =~= items);
            },
            Some(DataTypeV::EnumV(vals)) => {
                let vs = Seq::new(items.len(), |j: int| items[j].2);
                let trips = Seq::new(
                    items.len(),
                    |j: int| (items[j].0, items[j].1, enum_code(vals, items[j].2)),
                );
                assert forall|j: int| 0 <= j < trips.len() implies (#[trigger] trips[j]).2
                    < vals.len() by {
                    assert(vs[j] == items[j].2);
                    lemma_first_index_some(vals, items[j].2);
                }
                assert(enum_codes_ok(vals, Seq::new(trips.len(), |j: int| trips[j].2)));
                assert(dec_codes(l, d) =~= codes);
                assert(Seq::new(
                    trips.len(),
                    |j: int| (trips[j].0, trips[j].1, vals[trips[j].2 as int]),
                ) =~= items) by {
                    assert forall|j: int| 0 <= j < trips.len() implies vals[(
                    #[trigger] trips[j]).2 as int] == items[j].2 by {
                        assert(vs[j] == items[j].2);
                        lemma_first_index_some(vals, items[j].2);
                    }
                }
            },
            _ => {},
        },
        UserLayerV::L3SV(items) => match d.data {
            Some(DataTypeV::TypedLinkV(vals)) => {
                let trips = Seq::new(
                    items.len(),
                    |j: int| (items[j].0, items[j].1, tl_enc(vals, items[j].2, items[j].3)),
                );
                assert forall|j: int| 0 <= j < trips.len() implies tl_dec_ok(
                    vals,
                    (#[trigger] trips[j]).2,
                ) by {
                    lemma_tl_round_trip(vals, items[j].2, items[j].3);
                }
                assert(tl_codes_ok(vals, Seq::new(trips.len(), |j: int| trips[j].2)));
                assert(dec_codes(l, d) =~= codes);
                assert(Seq::new(
                    trips.len(),
                    |j: int| (trips[j].0, trips[j].1, tl_dec_targ(vals, trips[j].2), tl_dec_ty(vals, trips[j].2)),
                ) =~= items) by {
                    assert forall|j: int| 0 <= j < trips.len() implies (
                    (#[trigger] trips[j]).0,
                    trips[j].1,
                    tl_dec_targ(vals, trips[j].2),
                    tl_dec_ty(vals, trips[j].2),
                    ) == items[j] by {
                        lemma_tl_round_trip(vals, items[j].2, items[j].3);
                    }
                }
            },
            _ => {},
        },
    }
}


// ---------------------------------------------------------------------------
// Executable codec.
// ---------------------------------------------------------------------------

fn model_err(msg: &str) -> (e: TeangaError)
    ensures
        e is ModelError,
{
    TeangaError::ModelError(String::from_str(msg))
}

fn copy_u32s(v: &Vec<u32>) -> (r: Vec<u32>)
    ensures
        r@ == v@,
{
    let mut r: Vec<u32> = Vec::new();
    let mut i: usize = 0;
    while i < v.len()
        invariant
            i <= v@.len(),
            r@ == v@.subrange(0, i as int),
        decreases v@.len() - i,
    {
        r.push(v[i]);
        i = i + 1;
        proof {
            assert(r@ =~= v@.subrange(0, i as int));
        }
    }
    proof {
        assert(v@.subrange(0, v@.len() as int) =~= v@);
    }
    r
}

fn copy_pairs(v: &Vec<(u32, u32)>) -> (r: Vec<(u32, u32)>)
    ensures
        r@ == v@,
{
    let mut r: Vec<(u32, u32)> = Vec::new();
    let mut i: usize = 0;
    while i < v.len()
        invariant
            i <= v@.len(),
            r@ == v@.subrange(0, i as int),
        decreases v@.len() - i,
    {
        r.push(v[i]);
        i = i + 1;
        proof {
            assert(r@ =~= v@.subrange(0, i as int));
        }
    }
    proof {
        assert(v@.subrange(0, v@.len() as int) =~= v@);
    }
    r
}

fn copy_trips(v: &Vec<(u32, u32, u32)>) -> (r: Vec<(u32, u32, u32)>)
    ensures
        r@ == v@,
{
    let mut r: Vec<(u32, u32, u32)> = Vec::new();
    let mut i: usize = 0;
    while i < v.len()
        invariant
            i <= v@.len(),
            r@ == v@.subrange(0, i as int),
        decreases v@.len() - i,
    {
        r.push(v[i]);
        i = i + 1;
        proof {
            assert(r@ =~= v@.subrange(0, i as int));
        }
    }
    proof {
        assert(v@.subrange(0, v@.len() as int) =~= v@);
    }
    r
}

pub(crate) fn copy_string_vec(v: &Vec<String>) -> (r: Vec<String>)
    ensures
        r@ == v@,
        r.deep_view() == v.deep_view(),
{
    let mut r: Vec<String> = Vec::new();
    let mut i: usize = 0;
    while i < v.len()
        invariant
            i <= v@.len(),
            r@ == v@.subrange(0, i as int),
        decreases v@.len() - i,
    {
        r.push(v[i].clone());
        i = i + 1;
        proof {
            assert(r@ =~= v@.subrange(0, i as int));
        }
    }
    proof {
        assert(v@.subrange(0, v@.len() as int) =~= v@);
        assert(r.deep_view() =~= v.deep_view());
    }
    r
}

/// The text values this layer hands to the interning table under this
/// schema, in layer order.
pub fn collect_enc_strings(u: &PyLayer, d: &LayerDesc) -> (r: Vec<String>)
    ensures
        r.deep_view() == enc_strings(u@, d@),
{
    let is_string_data = match &d.data {
        Some(DataType::String) => true,
        _ => false,
    };
    if !is_string_data {
        let r: Vec<String> = Vec::new();
        proof {
            assert(r.deep_view() =~= enc_strings(u@, d@));
        }
        return r;
    }
    match u {
        PyLayer::LS(items) => {
            let r = copy_string_vec(items);
            proof {
                assert(r.deep_view() =~= enc_strings(u@, d@));
            }
            r
        },
        PyLayer::L1S(items) => {
            let mut r: Vec<String> = Vec::new();
            let mut i: usize = 0;
            while i < items.len()
                invariant
                    i <= items@.len(),
                    r@.len() == i,
                    forall|j: int| 0 <= j < i ==> r@[j] == items@[j].1,
                decreases items@.len() - i,
            {
                r.push(items[i].1.clone());
                i = i + 1;
            }
            proof {
                assert(r.deep_view() =~= enc_strings(u@, d@)) by {
                    assert forall|j: int| 0 <= j < items@.len() implies r.deep_view()[j]
                        == items.deep_view()[j].1 by {
                        assert(r@[j] == items@[j].1);
                        assert(items.deep_view()[j] == items@[j].deep_view());
                    }
                }
            }
            r
        },
        PyLayer::L2S(items) => {
            let mut r: Vec<String> = Vec::new();
            let mut i: usize = 0;
            while i < items.len()
                invariant
                    i <= items@.len(),
                    r@.len() == i,
                    forall|j: int| 0 <= j < i ==> r@[j] == items@[j].2,
                decreases items@.len() - i,
            {
                r.push(items[i].2.clone());
                i = i + 1;
            }
            proof {
                assert(r.deep_view() =~= enc_strings(u@, d@)) by {
                    assert forall|j: int| 0 <= j < items@.len() implies r.deep_view()[j]
                        == items.deep_view()[j].2 by {
                        assert(r@[j] == items@[j].2);
                        assert(items.deep_view()[j] == items@[j].deep_view());
                    }
                }
            }
            r
        },
        _ => {
            let r: Vec<String> = Vec::new();
            proof {
                assert(r.deep_view() =~= enc_strings(u@, d@));
            }
            r
        },
    }
}

/// The interned codes this stored layer asks the table to resolve under
/// this schema, in layer order.
pub fn collect_dec_codes(l: &Layer, d: &LayerDesc) -> (r: Vec<u32>)
    ensures
        r@ == dec_codes(l@, d@),
{
    let is_string_data = match &d.data {
        Some(DataType::String) => true,
        _ => false,
    };
    if !is_string_data {
        let r: Vec<u32> = Vec::new();
        proof {
            assert(r@ =~= dec_codes(l@, d@));
        }
        return r;
    }
    match l {
        Layer::SeqData(v) => {
            let r = copy_u32s(v);
            proof {
                assert(r@ =~= dec_codes(l@, d@));
            }
            r
        },
        Layer::Div(v) => {
            let r = second_of_pairs(v);
            proof {
                assert(r@ =~= dec_codes(l@, d@));
            }
            r
        },
        Layer::Element(v) => {
            let r = second_of_pairs(v);
            proof {
                assert(r@ =~= dec_codes(l@, d@));
            }
            r
        },
        Layer::Span(v) => {
            let mut r: Vec<u32> = Vec::new();
            let mut i: usize = 0;
            while i < v.len()
                invariant
                    i <= v@.len(),
                    r@ =~= Seq::new(v@.len(), |j: int| v@[j].2).subrange(0, i as int),
                decreases v@.len() - i,
            {
                r.push(v[i].2);
                i = i + 1;
                proof {
                    assert(r@ =~= Seq::new(v@.len(), |j: int| v@[j].2).subrange(0, i as int));
                }
            }
            proof {
                assert(r@ =~= dec_codes(l@, d@));
            }
            r
        },
        _ => {
            let r: Vec<u32> = Vec::new();
            proof {
                assert(r@ =~= dec_codes(l@, d@));
            }
            r
        },
    }
}

fn second_of_pairs(v: &Vec<(u32, u32)>) -> (r: Vec<u32>)
    ensures
        r@ == Seq::new(v@.len(), |j: int| v@[j].1),
{
    let mut r: Vec<u32> = Vec::new();
    let mut i: usize = 0;
    while i < v.len()
        invariant
            i <= v@.len(),
            r@ =~= Seq::new(v@.len(), |j: int| v@[j].1).subrange(0, i as int),
        decreases v@.len() - i,
    {
        r.push(v[i].1);
        i = i + 1;
        proof {
            assert(r@ =~= Seq::new(v@.len(), |j: int| v@[j].1).subrange(0, i as int));
        }
    }
    proof {
        assert(r@ =~= Seq::new(v@.len(), |j: int| v@[j].1));
    }
    r
}


/// Encode a user-facing layer to its stored form under a schema. `codes`
/// are the interned codes of the layer's text values
/// (`collect_enc_strings`), position by position. Accepts exactly the
/// pairs `enc_ok` describes; every rejection is a model error.
#[verifier::loop_isolation(false)]
pub fn from_user(u: &PyLayer, d: &LayerDesc, codes: &Vec<u32>) -> (r: TeangaResult<Layer>)
    requires
        codes@.len() == enc_strings(u@, d@).len(),
    ensures
        r is Ok <==> enc_ok(u@, d@),
        r matches Ok(l) ==> l@ == enc_val(u@, d@, codes@),
        r matches Err(e) ==> e is ModelError,
{
    match u {
        PyLayer::CharacterLayer(s) => {
            if d.layer_type == LayerType::characters {
                Ok(Layer::Characters(s.clone()))
            } else {
                Err(model_err("character content on a non-characters layer"))
            }
        },
        PyLayer::L1(v) => {
            let has_data = match &d.data {
                Some(_) => true,
                None => false,
            };
            if d.layer_type == LayerType::seq {
                match &d.data {
                    Some(DataType::Link) => Ok(Layer::SeqData(copy_u32s(v))),
                    _ => Err(model_err("offset list does not fit the layer's value kind")),
                }
            } else if d.layer_type == LayerType::div && !has_data {
                Ok(Layer::DivNoData(copy_u32s(v)))
            } else if d.layer_type == LayerType::element && !has_data {
                Ok(Layer::ElementNoData(copy_u32s(v)))
            } else {
                Err(model_err("offset list does not fit the layer's schema"))
            }
        },
        PyLayer::L2(v) => {
            let is_link = match &d.data {
                Some(DataType::Link) => true,
                _ => false,
            };
            let has_data = match &d.data {
                Some(_) => true,
                None => false,
            };
            if d.layer_type == LayerType::div && is_link {
                Ok(Layer::Div(copy_pairs(v)))
            } else if d.layer_type == LayerType::element && is_link {
                Ok(Layer::Element(copy_pairs(v)))
            } else if d.layer_type == LayerType::span && !has_data {
                Ok(Layer::SpanNoData(copy_pairs(v)))
            } else {
                Err(model_err("offset pairs do not fit the layer's schema"))
            }
        },
        PyLayer::L3(v) => {
            let is_link = match &d.data {
                Some(DataType::Link) => true,
                _ => false,
            };
            if d.layer_type == LayerType::span && is_link {
                Ok(Layer::Span(copy_trips(v)))
            } else {
                Err(model_err("offset triples do not fit the layer's schema"))
            }
        },
        PyLayer::LS(items) => {
            if d.layer_type != LayerType::seq {
                return Err(model_err("plain values belong to a seq layer"));
            }
            match &d.data {
                Some(DataType::String) => Ok(Layer::SeqData(copy_u32s(codes))),
                Some(DataType::Enum(vals)) => {
                    if items.len() > 0 && vals.len() > u32::MAX as usize {
                        assert(!enum_list_ok(vals.deep_view(), items.deep_view())) by {
                            assert(items.deep_view()[0] == items@[0]@);
                        }
                        return Err(model_err("enum vocabulary too large"));
                    }
                    let mut out: Vec<u32> = Vec::new();
                    let mut i: usize = 0;
                    while i < items.len()
                        invariant
                            i <= items@.len(),
                            out@.len() == i,
                            items@.len() > 0 ==> vals.deep_view().len() <= u32::MAX as nat,
                            forall|j: int|
                                0 <= j < i ==> spec_first_index(
                                    vals.deep_view(),
                                    #[trigger] items.deep_view()[j],
                                ) is Some,
                            forall|j: int|
                                0 <= j < i ==> out@[j] == enum_code(
                                    vals.deep_view(),
                                    #[trigger] items.deep_view()[j],
                                ),
                        decreases items@.len() - i,
                    {
                        assert(items.deep_view()[i as int] == items@[i as int]@);
                        match find_value(vals, &items[i]) {
                            Some(c) => {
                                out.push(c);
                            },
                            None => {
                                return Err(model_err("value not in the enum vocabulary"));
                            },
                        }
                        i = i + 1;
                    }
                    proof {
                        assert(out@ =~= Seq::new(
                            items.deep_view().len(),
                            |j: int| enum_code(vals.deep_view(), items.deep_view()[j]),
                        ));
                    }
                    Ok(Layer::SeqData(out))
                },
                _ => Err(model_err("plain values need a string or enum value kind")),
            }
        },
        PyLayer::L1S(items) => {
            match &d.data {
                Some(DataType::TypedLink(vals)) => {
                    if d.layer_type != LayerType::seq {
                        return Err(model_err("typed links without offsets belong to a seq layer"));
                    }
                    let mut out: Vec<u32> = Vec::new();
                    if items.len() > 0 {
                        if vals.len() > u32::MAX as usize {
                            assert(!tl_enc_ok(
                                vals.deep_view(),
                                items.deep_view()[0].0,
                                items.deep_view()[0].1,
                            ));
                            return Err(model_err("typed-link type list too large"));
                        }
                        let b: u32 = ceil_log2(vals.len() as u32);
                        let mut i: usize = 0;
                        while i < items.len()
                            invariant
                                i <= items@.len(),
                                out@.len() == i,
                                b == tl_bits(vals.deep_view()),
                                b <= 32,
                                vals.deep_view().len() <= u32::MAX as nat,
                                (vals@.len() as u64) <= (1u64 << (b as u64)),
                                forall|j: int|
                                    0 <= j < i ==> tl_enc_ok(
                                        vals.deep_view(),
                                        (#[trigger] items.deep_view()[j]).0,
                                        items.deep_view()[j].1,
                                    ),
                                forall|j: int|
                                    0 <= j < i ==> out@[j] == tl_enc(
                                        vals.deep_view(),
                                        (#[trigger] items.deep_view()[j]).0,
                                        items.deep_view()[j].1,
                                    ),
                            decreases items@.len() - i,
                        {
                            assert(items.deep_view()[i as int] == (
                                items@[i as int].0,
                                items@[i as int].1@,
                            ));
                            let targ: u32 = items[i].0;
                            match find_value(vals, &items[i].1) {
                                None => {
                                    return Err(model_err("typed-link type not declared"));
                                },
                                Some(ty) => {
                                    proof {
                                        lemma_first_index_some(
                                            vals.deep_view(),
                                            items.deep_view()[i as int].1,
                                        );
                                    }
                                    match pack_typed_link(targ, ty, b) {
                                        None => {
                                            return Err(model_err("typed-link target out of range"));
                                        },
                                        Some(c) => {
                                            out.push(c);
                                        },
                                    }
                                },
                            }
                            i = i + 1;
                        }
                    }
                    proof {
                        assert(out@ =~= Seq::new(
                            items.deep_view().len(),
                            |j: int| tl_enc(
                                vals.deep_view(),
                                items.deep_view()[j].0,
                                items.deep_view()[j].1,
                            ),
                        ));
                    }
                    Ok(Layer::SeqData(out))
                },
                Some(DataType::String) => {
                    if d.layer_type != LayerType::div && d.layer_type != LayerType::element {
                        return Err(model_err("offset-and-value pairs do not fit this layer type"));
                    }
                    assert(enc_strings(u@, d@).len() == items.deep_view().len());
                    let mut out: Vec<(u32, u32)> = Vec::new();
                    let mut i: usize = 0;
                    while i < items.len()
                        invariant
                            i <= items@.len(),
                            out@.len() == i,
                            codes@.len() == items@.len(),
                            forall|j: int|
                                0 <= j < i ==> out@[j] == ((#[trigger] items.deep_view()[j]).0,
                                codes@[j]),
                        decreases items@.len() - i,
                    {
                        assert(items.deep_view()[i as int] == (
                            items@[i as int].0,
                            items@[i as int].1@,
                        ));
                        out.push((items[i].0, codes[i]));
                        i = i + 1;
                    }
                    proof {
                        assert(out@ =~= Seq::new(
                            items.deep_view().len(),
                            |j: int| (items.deep_view()[j].0, codes@[j]),
                        ));
                    }
                    if d.layer_type == LayerType::div {
                        Ok(Layer::Div(out))
                    } else {
                        Ok(Layer::Element(out))
                    }
                },
                Some(DataType::Enum(vals)) => {
                    if d.layer_type != LayerType::div && d.layer_type != LayerType::element {
                        return Err(model_err("offset-and-value pairs do not fit this layer type"));
                    }
                    let ghost vs = Seq::new(
                        items.deep_view().len(),
                        |j: int| items.deep_view()[j].1,
                    );
                    if items.len() > 0 && vals.len() > u32::MAX as usize {
                        assert(!enum_list_ok(vals.deep_view(), vs)) by {
                            assert(vs.len() > 0);
                            assert(vs[0] == vs[0]);
                        }
                        return Err(model_err("enum vocabulary too large"));
                    }
                    let mut out: Vec<(u32, u32)> = Vec::new();
                    let mut i: usize = 0;
                    while i < items.len()
                        invariant
                            i <= items@.len(),
                            out@.len() == i,
                            vs == Seq::new(
                                items.deep_view().len(),
                                |j: int| items.deep_view()[j].1,
                            ),
                            items@.len() > 0 ==> vals.deep_view().len() <= u32::MAX as nat,
                            forall|j: int|
                                0 <= j < i ==> spec_first_index(
                                    vals.deep_view(),
                                    #[trigger] vs[j],
                                ) is Some,
                            forall|j: int|
                                0 <= j < i ==> out@[j] == ((#[trigger] items.deep_view()[j]).0,
                                enum_code(vals.deep_view(), items.deep_view()[j].1)),
                        decreases items@.len() - i,
                    {
                        assert(items.deep_view()[i as int] == (
                            items@[i as int].0,
                            items@[i as int].1@,
                        ));
                        assert(vs[i as int] == items.deep_view()[i as int].1);
                        match find_value(vals, &items[i].1) {
                            Some(c) => {
                                out.push((items[i].0, c));
                            },
                            None => {
                                return Err(model_err("value not in the enum vocabulary"));
                            },
                        }
                        i = i + 1;
                    }
                    proof {
                        assert(out@ =~= Seq::new(
                            items.deep_view().len(),
                            |j: int| (
                                items.deep_view()[j].0,
                                enum_code(vals.deep_view(), items.deep_view()[j].1),
                            ),
                        ));
                    }
                    if d.layer_type == LayerType::div {
                        Ok(Layer::Div(out))
                    } else {
                        Ok(Layer::Element(out))
                    }
                },
                Some(DataType::Link) => Err(
                    model_err("offset-and-value pairs do not fit a link value kind"),
                ),
                None => Err(model_err("string values on a layer with no declared value kind")),
            }
        },
        PyLayer::L2S(items) => {
            match &d.data {
                Some(DataType::TypedLink(vals)) => {
                    if d.layer_type != LayerType::div && d.layer_type != LayerType::element {
                        return Err(model_err("offset typed links do not fit this layer type"));
                    }
                    let mut out: Vec<(u32, u32)> = Vec::new();
                    if items.len() > 0 {
                        if vals.len() > u32::MAX as usize {
                            assert(!tl_enc_ok(
                                vals.deep_view(),
                                items.deep_view()[0].1,
                                items.deep_view()[0].2,
                            ));
                            return Err(model_err("typed-link type list too large"));
                        }
                        let b: u32 = ceil_log2(vals.len() as u32);
                        let mut i: usize = 0;
                        while i < items.len()
                            invariant
                                i <= items@.len(),
                                out@.len() == i,
                                b == tl_bits(vals.deep_view()),
                                b <= 32,
                                vals.deep_view().len() <= u32::MAX as nat,
                                (vals@.len() as u64) <= (1u64 << (b as u64)),
                                forall|j: int|
                                    0 <= j < i ==> tl_enc_ok(
                                        vals.deep_view(),
                                        (#[trigger] items.deep_view()[j]).1,
                                        items.deep_view()[j].2,
                                    ),
                                forall|j: int|
                                    0 <= j < i ==> out@[j] == ((#[trigger] items.deep_view()[j]).0,
                                    tl_enc(
                                        vals.deep_view(),
                                        items.deep_view()[j].1,
                                        items.deep_view()[j].2,
                                    )),
                            decreases items@.len() - i,
                        {
                            assert(items.deep_view()[i as int] == (
                                items@[i as int].0,
                                items@[i as int].1,
                                items@[i as int].2@,
                            ));
                            match find_value(vals, &items[i].2) {
                                None => {
                                    return Err(model_err("typed-link type not declared"));
                                },
                                Some(ty) => {
                                    proof {
                                        lemma_first_index_some(
                                            vals.deep_view(),
                                            items.deep_view()[i as int].2,
                                        );
                                    }
                                    match pack_typed_link(items[i].1, ty, b) {
                                        None => {
                                            return Err(model_err("typed-link target out of range"));
                                        },
                                        Some(c) => {
                                            out.push((items[i].0, c));
                                        },
                                    }
                                },
                            }
                            i = i + 1;
                        }
                    }
                    proof {
                        assert(out@ =~= Seq::new(
                            items.deep_view().len(),
                            |j: int| (
                                items.deep_view()[j].0,
                                tl_enc(
                                    vals.deep_view(),
                                    items.deep_view()[j].1,
                                    items.deep_view()[j].2,
                                ),
                            ),
                        ));
                    }
                    if d.layer_type == LayerType::div {
                        Ok(Layer::Div(out))
                    } else {
                        Ok(Layer::Element(out))
                    }
                },
                Some(DataType::String) => {
                    if d.layer_type != LayerType::span {
                        return Err(model_err("span values belong to a span layer"));
                    }
                    assert(enc_strings(u@, d@).len() == items.deep_view().len());
                    let mut out: Vec<(u32, u32, u32)> = Vec::new();
                    let mut i: usize = 0;
                    while i < items.len()
                        invariant
                            i <= items@.len(),
                            out@.len() == i,
                            codes@.len() == items@.len(),
                            forall|j: int|
                                0 <= j < i ==> out@[j] == ((#[trigger] items.deep_view()[j]).0,
                                items.deep_view()[j].1, codes@[j]),
                        decreases items@.len() - i,
                    {
                        assert(items.deep_view()[i as int] == (
                            items@[i as int].0,
                            items@[i as int].1,
                            items@[i as int].2@,
                        ));
                        out.push((items[i].0, items[i].1, codes[i]));
                        i = i + 1;
                    }
                    proof {
                        assert(out@ =~= Seq::new(
                            items.deep_view().len(),
                            |j: int| (items.deep_view()[j].0, items.deep_view()[j].1, codes@[j]),
                        ));
                    }
                    Ok(Layer::Span(out))
                },
                Some(DataType::Enum(vals)) => {
                    if d.layer_type != LayerType::span {
                        return Err(model_err("span values belong to a span layer"));
                    }
                    let ghost vs = Seq::new(
                        items.deep_view().len(),
                        |j: int| items.deep_view()[j].2,
                    );
                    if items.len() > 0 && vals.len() > u32::MAX as usize {
                        assert(!enum_list_ok(vals.deep_view(), vs)) by {
                            assert(vs.len() > 0);
                            assert(vs[0] == vs[0]);
                        }
                        return Err(model_err("enum vocabulary too large"));
                    }
                    let mut out: Vec<(u32, u32, u32)> = Vec::new();
                    let mut i: usize = 0;
                    while i < items.len()
                        invariant
                            i <= items@.len(),
                            out@.len() == i,
                            vs == Seq::new(
                                items.deep_view().len(),
                                |j: int| items.deep_view()[j].2,
                            ),
                            items@.len() > 0 ==> vals.deep_view().len() <= u32::MAX as nat,
                            forall|j: int|
                                0 <= j < i ==> spec_first_index(
                                    vals.deep_view(),
                                    #[trigger] vs[j],
                                ) is Some,
                            forall|j: int|
                                0 <= j < i ==> out@[j] == ((#[trigger] items.deep_view()[j]).0,
                                items.deep_view()[j].1, enum_code(
                                    vals.deep_view(),
                                    items.deep_view()[j].2,
                                )),
                        decreases items@.len() - i,
                    {
                        assert(items.deep_view()[i as int] == (
                            items@[i as int].0,
                            items@[i as int].1,
                            items@[i as int].2@,
                        ));
                        assert(vs[i as int] == items.deep_view()[i as int].2);
                        match find_value(vals, &items[i].2) {
                            Some(c) => {
                                out.push((items[i].0, items[i].1, c));
                            },
                            None => {
                                return Err(model_err("value not in the enum vocabulary"));
                            },
                        }
                        i = i + 1;
                    }
                    proof {
                        assert(out@ =~= Seq::new(
                            items.deep_view().len(),
                            |j: int| (
                                items.deep_view()[j].0,
                                items.deep_view()[j].1,
                                enum_code(vals.deep_view(), items.deep_view()[j].2),
                            ),
                        ));
                    }
                    Ok(Layer::Span(out))
                },
                Some(DataType::Link) => Err(
                    model_err("span values do not fit a link value kind"),
                ),
                None => Err(model_err("string values on a layer with no declared value kind")),
            }
        },
        PyLayer::L3S(items) => {
            match &d.data {
                Some(DataType::TypedLink(vals)) => {
                    if d.layer_type != LayerType::span {
                        return Err(model_err("span typed links belong to a span layer"));
                    }
                    let mut out: Vec<(u32, u32, u32)> = Vec::new();
                    if items.len() > 0 {
                        if vals.len() > u32::MAX as usize {
                            assert(!tl_enc_ok(
                                vals.deep_view(),
                                items.deep_view()[0].2,
                                items.deep_view()[0].3,
                            ));
                            return Err(model_err("typed-link type list too large"));
                        }
                        let b: u32 = ceil_log2(vals.len() as u32);
                        let mut i: usize = 0;
                        while i < items.len()
                            invariant
                                i <= items@.len(),
                                out@.len() == i,
                                b == tl_bits(vals.deep_view()),
                                b <= 32,
                                vals.deep_view().len() <= u32::MAX as nat,
                                (vals@.len() as u64) <= (1u64 << (b as u64)),
                                forall|j: int|
                                    0 <= j < i ==> tl_enc_ok(
                                        vals.deep_view(),
                                        (#[trigger] items.deep_view()[j]).2,
                                        items.deep_view()[j].3,
                                    ),
                                forall|j: int|
                                    0 <= j < i ==> out@[j] == ((#[trigger] items.deep_view()[j]).0,
                                    items.deep_view()[j].1, tl_enc(
                                        vals.deep_view(),
                                        items.deep_view()[j].2,
                                        items.deep_view()[j].3,
                                    )),
                            decreases items@.len() - i,
                        {
                            assert(items.deep_view()[i as int] == (
                                items@[i as int].0,
                                items@[i as int].1,
                                items@[i as int].2,
                                items@[i as int].3@,
                            ));
                            match find_value(vals, &items[i].3) {
                                None => {
                                    return Err(model_err("typed-link type not declared"));
                                },
                                Some(ty) => {
                                    proof {
                                        lemma_first_index_some(
                                            vals.deep_view(),
                                            items.deep_view()[i as int].3,
                                        );
                                    }
                                    match pack_typed_link(items[i].2, ty, b) {
                                        None => {
                                            return Err(model_err("typed-link target out of range"));
                                        },
                                        Some(c) => {
                                            out.push((items[i].0, items[i].1, c));
                                        },
                                    }
                                },
                            }
                            i = i + 1;
                        }
                    }
                    proof {
                        assert(out@ =~= Seq::new(
                            items.deep_view().len(),
                            |j: int| (
                                items.deep_view()[j].0,
                                items.deep_view()[j].1,
                                tl_enc(
                                    vals.deep_view(),
                                    items.deep_view()[j].2,
                                    items.deep_view()[j].3,
                                ),
                            ),
                        ));
                    }
                    Ok(Layer::Span(out))
                },
                _ => Err(model_err("span typed links need a typed-link value kind")),
            }
        },
    }
}


/// Decode a populated division or element layer under a schema, with
/// `strs` the resolved texts of its interned codes.
#[verifier::loop_isolation(false)]
fn decode_pairs(v: &Vec<(u32, u32)>, d: &LayerDesc, strs: &Vec<String>) -> (r: TeangaResult<
    PyLayer,
>)
    requires
        d@.data == Some(DataTypeV::StringV) ==> strs@.len() == v@.len(),
    ensures
        r is Ok <==> pairs_ok(v@, d@),
        r matches Ok(u) ==> u@ == dec_val_pairs(v@, d@, strs.deep_view()),
        r matches Err(e) ==> e is ModelError,
{
    match &d.data {
        None => Err(model_err("stored layer carries values but the schema declares none")),
        Some(DataType::Link) => Ok(PyLayer::L2(copy_pairs(v))),
        Some(DataType::String) => {
            let mut out: Vec<(u32, String)> = Vec::new();
            let mut i: usize = 0;
            while i < v.len()
                invariant
                    i <= v@.len(),
                    out@.len() == i,
                    forall|j: int|
                        0 <= j < i ==> #[trigger] out@[j].0 == v@[j].0 && out@[j].1 == strs@[j],
                decreases v@.len() - i,
            {
                out.push((v[i].0, strs[i].clone()));
                i = i + 1;
            }
            proof {
                assert(out.deep_view() =~= Seq::new(
                    v@.len(),
                    |j: int| (v@[j].0, strs.deep_view()[j]),
                )) by {
                    assert forall|j: int| 0 <= j < v@.len() implies out.deep_view()[j] == (
                    v@[j].0,
                    strs.deep_view()[j],
                    ) by {
                        assert(out.deep_view()[j] == out@[j].deep_view());
                        assert(strs.deep_view()[j] == strs@[j]@);
                    }
                }
            }
            Ok(PyLayer::L1S(out))
        },
        Some(DataType::Enum(vals)) => {
            let ghost codes = Seq::new(v@.len(), |j: int| v@[j].1);
            let mut out: Vec<(u32, String)> = Vec::new();
            let mut i: usize = 0;
            while i < v.len()
                invariant
                    i <= v@.len(),
                    out@.len() == i,
                    forall|j: int| 0 <= j < i ==> (#[trigger] codes[j]) < vals.deep_view().len(),
                    forall|j: int|
                        0 <= j < i ==> #[trigger] out@[j].0 == v@[j].0 && out@[j].1@
                            == vals.deep_view()[v@[j].1 as int],
                decreases v@.len() - i,
            {
                let code: u32 = v[i].1;
                assert(codes[i as int] == code);
                if (code as usize) < vals.len() {
                    assert(vals.deep_view()[code as int] == vals@[code as int]@);
                    out.push((v[i].0, vals[code as usize].clone()));
                } else {
                    return Err(model_err("enum index out of range of the vocabulary"));
                }
                i = i + 1;
            }
            proof {
                assert(out.deep_view() =~= Seq::new(
                    v@.len(),
                    |j: int| (v@[j].0, vals.deep_view()[v@[j].1 as int]),
                )) by {
                    assert forall|j: int| 0 <= j < v@.len() implies out.deep_view()[j] == (
                    v@[j].0,
                    vals.deep_view()[v@[j].1 as int],
                    ) by {
                        assert(out.deep_view()[j] == out@[j].deep_view());
                    }
                }
            }
            Ok(PyLayer::L1S(out))
        },
        Some(DataType::TypedLink(vals)) => {
            let ghost codes = Seq::new(v@.len(), |j: int| v@[j].1);
            let mut out: Vec<(u32, u32, String)> = Vec::new();
            if v.len() > 0 {
                if vals.len() > u32::MAX as usize {
                    assert(!tl_dec_ok(vals.deep_view(), codes[0]));
                    return Err(model_err("typed-link type list too large"));
                }
                let b: u32 = ceil_log2(vals.len() as u32);
                let mut i: usize = 0;
                while i < v.len()
                    invariant
                        i <= v@.len(),
                        out@.len() == i,
                        b == tl_bits(vals.deep_view()),
                        b <= 32,
                        vals.deep_view().len() <= u32::MAX as nat,
                        forall|j: int| 0 <= j < i ==> tl_dec_ok(vals.deep_view(), #[trigger] codes[j]),
                        forall|j: int|
                            0 <= j < i ==> #[trigger] out@[j].0 == v@[j].0 && out@[j].1
                                == tl_dec_targ(vals.deep_view(), v@[j].1) && out@[j].2@
                                == tl_dec_ty(vals.deep_view(), v@[j].1),
                    decreases v@.len() - i,
                {
                    let code: u32 = v[i].1;
                    assert(codes[i as int] == code);
                    let (targ, ty) = unpack_typed_link(code, b);
                    if (ty as usize) < vals.len() {
                        assert(vals.deep_view()[ty as int] == vals@[ty as int]@);
                        out.push((v[i].0, targ, vals[ty as usize].clone()));
                    } else {
                        return Err(model_err("typed-link type index out of range"));
                    }
                    i = i + 1;
                }
            }
            proof {
                assert(out.deep_view() =~= Seq::new(
                    v@.len(),
                    |j: int| (
                        v@[j].0,
                        tl_dec_targ(vals.deep_view(), v@[j].1),
                        tl_dec_ty(vals.deep_view(), v@[j].1),
                    ),
                )) by {
                    assert forall|j: int| 0 <= j < v@.len() implies out.deep_view()[j] == (
                    v@[j].0,
                    tl_dec_targ(vals.deep_view(), v@[j].1),
                    tl_dec_ty(vals.deep_view(), v@[j].1),
                    ) by {
                        assert(out.deep_view()[j] == out@[j].deep_view());
                    }
                }
            }
            Ok(PyLayer::L2S(out))
        },
    }
}

/// Decode a stored layer to its user-facing form under a schema. `strs`
/// are the resolved texts of the layer's interned codes
/// (`collect_dec_codes`), position by position. Accepts exactly the pairs
/// `dec_ok` describes; every rejection is a model error.
#[verifier::loop_isolation(false)]
pub fn into_user(l: &Layer, d: &LayerDesc, strs: &Vec<String>) -> (r: TeangaResult<PyLayer>)
    requires
        strs@.len() == dec_codes(l@, d@).len(),
    ensures
        r is Ok <==> dec_ok(l@, d@),
        r matches Ok(u) ==> u@ == dec_val(l@, d@, strs.deep_view()),
        r matches Err(e) ==> e is ModelError,
{
    match l {
        Layer::Characters(s) => Ok(PyLayer::CharacterLayer(s.clone())),
        Layer::DivNoData(v) => Ok(PyLayer::L1(copy_u32s(v))),
        Layer::ElementNoData(v) => Ok(PyLayer::L1(copy_u32s(v))),
        Layer::SpanNoData(v) => Ok(PyLayer::L2(copy_pairs(v))),
        Layer::Div(v) => decode_pairs(v, d, strs),
        Layer::Element(v) => decode_pairs(v, d, strs),
        Layer::SeqData(v) => {
            match &d.data {
                None => Err(model_err("stored layer carries values but the schema declares none")),
                Some(DataType::Link) => Ok(PyLayer::L1(copy_u32s(v))),
                Some(DataType::String) => Ok(PyLayer::LS(copy_string_vec(strs))),
                Some(DataType::Enum(vals)) => {
                    let mut out: Vec<String> = Vec::new();
                    let mut i: usize = 0;
                    while i < v.len()
                        invariant
                            i <= v@.len(),
                            out@.len() == i,
                            forall|j: int| 0 <= j < i ==> (#[trigger] v@[j]) < vals.deep_view().len(),
                            forall|j: int|
                                0 <= j < i ==> (#[trigger] out@[j])@ == vals.deep_view()[v@[j] as int],
                        decreases v@.len() - i,
                    {
                        let code: u32 = v[i];
                        if (code as usize) < vals.len() {
                            assert(vals.deep_view()[code as int] == vals@[code as int]@);
                            out.push(vals[code as usize].clone());
                        } else {
                            return Err(model_err("enum index out of range of the vocabulary"));
                        }
                        i = i + 1;
                    }
                    proof {
                        assert(out.deep_view() =~= Seq::new(
                            v@.len(),
                            |j: int| vals.deep_view()[v@[j] as int],
                        )) by {
                            assert forall|j: int| 0 <= j < v@.len() implies out.deep_view()[j]
                                == vals.deep_view()[v@[j] as int] by {
                                assert(out.deep_view()[j] == out@[j]@);
                            }
                        }
                    }
                    Ok(PyLayer::LS(out))
                },
                Some(DataType::TypedLink(vals)) => {
                    let mut out: Vec<(u32, String)> = Vec::new();
                    if v.len() > 0 {
                        if vals.len() > u32::MAX as usize {
                            assert(!tl_dec_ok(vals.deep_view(), v@[0]));
                            return Err(model_err("typed-link type list too large"));
                        }
                        let b: u32 = ceil_log2(vals.len() as u32);
                        let mut i: usize = 0;
                        while i < v.len()
                            invariant
                                i <= v@.len(),
                                out@.len() == i,
                                b == tl_bits(vals.deep_view()),
                                b <= 32,
                                vals.deep_view().len() <= u32::MAX as nat,
                                forall|j: int|
                                    0 <= j < i ==> tl_dec_ok(vals.deep_view(), #[trigger] v@[j]),
                                forall|j: int|
                                    0 <= j < i ==> #[trigger] out@[j].0 == tl_dec_targ(
                                        vals.deep_view(),
                                        v@[j],
                                    ) && out@[j].1@ == tl_dec_ty(vals.deep_view(), v@[j]),
                            decreases v@.len() - i,
                        {
                            let code: u32 = v[i];
                            let (targ, ty) = unpack_typed_link(code, b);
                            if (ty as usize) < vals.len() {
                                assert(vals.deep_view()[ty as int] == vals@[ty as int]@);
                                out.push((targ, vals[ty as usize].clone()));
                            } else {
                                return Err(model_err("typed-link type index out of range"));
                            }
                            i = i + 1;
                        }
                    }
                    proof {
                        assert(out.deep_view() =~= Seq::new(
                            v@.len(),
                            |j: int| (
                                tl_dec_targ(vals.deep_view(), v@[j]),
                                tl_dec_ty(vals.deep_view(), v@[j]),
                            ),
                        )) by {
                            assert forall|j: int| 0 <= j < v@.len() implies out.deep_view()[j] == (
                            tl_dec_targ(vals.deep_view(), v@[j]),
                            tl_dec_ty(vals.deep_view(), v@[j]),
                            ) by {
                                assert(out.deep_view()[j] == out@[j].deep_view());
                            }
                        }
                    }
                    Ok(PyLayer::L1S(out))
                },
            }
        },
        Layer::Span(v) => {
            match &d.data {
                None => Err(model_err("stored layer carries values but the schema declares none")),
                Some(DataType::Link) => Ok(PyLayer::L3(copy_trips(v))),
                Some(DataType::String) => {
                    let mut out: Vec<(u32, u32, String)> = Vec::new();
                    let mut i: usize = 0;
                    while i < v.len()
                        invariant
                            i <= v@.len(),
                            out@.len() == i,
                            forall|j: int|
                                0 <= j < i ==> #[trigger] out@[j].0 == v@[j].0 && out@[j].1
                                    == v@[j].1 && out@[j].2 == strs@[j],
                        decreases v@.len() - i,
                    {
                        out.push((v[i].0, v[i].1, strs[i].clone()));
                        i = i + 1;
                    }
                    proof {
                        assert(out.deep_view() =~= Seq::new(
                            v@.len(),
                            |j: int| (v@[j].0, v@[j].1, strs.deep_view()[j]),
                        )) by {
                            assert forall|j: int| 0 <= j < v@.len() implies out.deep_view()[j] == (
                            v@[j].0,
                            v@[j].1,
                            strs.deep_view()[j],
                            ) by {
                                assert(out.deep_view()[j] == out@[j].deep_view());
                                assert(strs.deep_view()[j] == strs@[j]@);
                            }
                        }
                    }
                    Ok(PyLayer::L2S(out))
                },
                Some(DataType::Enum(vals)) => {
                    let ghost codes = Seq::new(v@.len(), |j: int| v@[j].2);
                    let mut out: Vec<(u32, u32, String)> = Vec::new();
                    let mut i: usize = 0;
                    while i < v.len()
                        invariant
                            i <= v@.len(),
                            out@.len() == i,
                            forall|j: int| 0 <= j < i ==> (#[trigger] codes[j]) < vals.deep_view().len(),
                            forall|j: int|
                                0 <= j < i ==> #[trigger] out@[j].0 == v@[j].0 && out@[j].1
                                    == v@[j].1 && out@[j].2@ == vals.deep_view()[v@[j].2 as int],
                        decreases v@.len() - i,
                    {
                        let code: u32 = v[i].2;
                        assert(codes[i as int] == code);
                        if (code as usize) < vals.len() {
                            assert(vals.deep_view()[code as int] == vals@[code as int]@);
                            out.push((v[i].0, v[i].1, vals[code as usize].clone()));
                        } else {
                            return Err(model_err("enum index out of range of the vocabulary"));
                        }
                        i = i + 1;
                    }
                    proof {
                        assert(out.deep_view() =~= Seq::new(
                            v@.len(),
                            |j: int| (v@[j].0, v@[j].1, vals.deep_view()[v@[j].2 as int]),
                        )) by {
                            assert forall|j: int| 0 <= j < v@.len() implies out.deep_view()[j] == (
                            v@[j].0,
                            v@[j].1,
                            vals.deep_view()[v@[j].2 as int],
                            ) by {
                                assert(out.deep_view()[j] == out@[j].deep_view());
                            }
                        }
                    }
                    Ok(PyLayer::L2S(out))
                },
                Some(DataType::TypedLink(vals)) => {
                    let ghost codes = Seq::new(v@.len(), |j: int| v@[j].2);
                    let mut out: Vec<(u32, u32, u32, String)> = Vec::new();
                    if v.len() > 0 {
                        if vals.len() > u32::MAX as usize {
                            assert(!tl_dec_ok(vals.deep_view(), codes[0]));
                            return Err(model_err("typed-link type list too large"));
                        }
                        let b: u32 = ceil_log2(vals.len() as u32);
                        let mut i: usize = 0;
                        while i < v.len()
                            invariant
                                i <= v@.len(),
                                out@.len() == i,
                                b == tl_bits(vals.deep_view()),
                                b <= 32,
                                vals.deep_view().len() <= u32::MAX as nat,
                                forall|j: int|
                                    0 <= j < i ==> tl_dec_ok(vals.deep_view(), #[trigger] codes[j]),
                                forall|j: int|
                                    0 <= j < i ==> #[trigger] out@[j].0 == v@[j].0 && out@[j].1
                                        == v@[j].1 && out@[j].2 == tl_dec_targ(
                                        vals.deep_view(),
                                        v@[j].2,
                                    ) && out@[j].3@ == tl_dec_ty(vals.deep_view(), v@[j].2),
                            decreases v@.len() - i,
                        {
                            let code: u32 = v[i].2;
                            assert(codes[i as int] == code);
                            let (targ, ty) = unpack_typed_link(code, b);
                            if (ty as usize) < vals.len() {
                                assert(vals.deep_view()[ty as int] == vals@[ty as int]@);
                                out.push((v[i].0, v[i].1, targ, vals[ty as usize].clone()));
                            } else {
                                return Err(model_err("typed-link type index out of range"));
                            }
                            i = i + 1;
                        }
                    }
                    proof {
                        assert(out.deep_view() =~= Seq::new(
                            v@.len(),
                            |j: int| (
                                v@[j].0,
                                v@[j].1,
                                tl_dec_targ(vals.deep_view(), v@[j].2),
                                tl_dec_ty(vals.deep_view(), v@[j].2),
                            ),
                        )) by {
                            assert forall|j: int| 0 <= j < v@.len() implies out.deep_view()[j] == (
                            v@[j].0,
                            v@[j].1,
                            tl_dec_targ(vals.deep_view(), v@[j].2),
                            tl_dec_ty(vals.deep_view(), v@[j].2),
                            ) by {
                                assert(out.deep_view()[j] == out@[j].deep_view());
                            }
                        }
                    }
                    Ok(PyLayer::L3S(out))
                },
            }
        },
    }
}


/// An accepted encoding stores character content exactly for character
/// layers and never produces character content for any other shape.
pub proof fn lemma_enc_val_characters(u: UserLayerV, d: LayerDescV, codes: Seq<u32>)
    requires
        enc_ok(u, d),
    ensures
        u matches UserLayerV::CharacterLayerV(s) ==> enc_val(u, d, codes) == LayerV::CharactersV(s),
        !(u is CharacterLayerV) ==> !(enc_val(u, d, codes) is CharactersV),
{
    match u {
        UserLayerV::CharacterLayerV(_) => {},
        UserLayerV::L1V(_) => {},
        UserLayerV::L2V(_) => {},
        UserLayerV::L3V(_) => {},
        UserLayerV::LSV(_) => {
            match d.data {
                Some(DataTypeV::StringV) => {},
                Some(DataTypeV::EnumV(_)) => {},
                _ => {},
            }
        },
        UserLayerV::L1SV(_) => {
            match d.data {
                Some(DataTypeV::TypedLinkV(_)) => {},
                Some(DataTypeV::StringV) => {},
                Some(DataTypeV::EnumV(_)) => {},
                _ => {},
            }
        },
        UserLayerV::L2SV(_) => {
            match d.data {
                Some(DataTypeV::TypedLinkV(_)) => {},
                Some(DataTypeV::StringV) => {},
                Some(DataTypeV::EnumV(_)) => {},
                _ => {},
            }
        },
        UserLayerV::L3SV(_) => {
            match d.data {
                Some(DataTypeV::TypedLinkV(_)) => {},
                _ => {},
            }
        },
    }
}

} // verus!
