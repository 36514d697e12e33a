use vstd::prelude::*;

verus! {

/// Number of bits reserved for a typed link's type tag when the closed
/// type list has `k` names: the least `b` with `k <= 2^b`, found from `b0`
/// upward (capped at 32, enough for any `u32` count).
pub open spec fn clog2_from(k: u64, b0: u32) -> u32
    decreases 32 - b0,
{
    if b0 >= 32 || k <= (1u64 << b0) {
        b0
    } else {
        clog2_from(k, (b0 + 1) as u32)
    }
}

/// The least `b` with `k <= 2^b` (0 for `k <= 1`), as the typed-link
/// scheme reserves it.
pub open spec fn spec_ceil_log2(k: u32) -> u32 {
    clog2_from(k as u64, 0)
}

pub proof fn lemma_clog2_from_bounds(k: u64, b0: u32)
    requires
        b0 <= 32,
        k <= u32::MAX as u64,
    ensures
        b0 <= clog2_from(k, b0) <= 32,
        k <= (1u64 << clog2_from(k, b0)),
    decreases 32 - b0,
{
    if b0 >= 32 || k <= (1u64 << b0) {
        if b0 >= 32 {
            assert(k <= (1u64 << 32u64)) by (bit_vector)
                requires
                    k <= u32::MAX as u64,
            ;
        }
    } else {
        lemma_clog2_from_bounds(k, (b0 + 1) as u32);
    }
}

/// The number of tag bits for a type list of length `k`.
pub fn ceil_log2(k: u32) -> (b: u32)
    ensures
        b == spec_ceil_log2(k),
        b <= 32,
        k as u64 <= (1u64 << b),
{
    let mut b: u32 = 0;
    while b < 32 && (1u64 << b) < k as u64
        invariant
            b <= 32,
            spec_ceil_log2(k) == clog2_from(k as u64, b),
        decreases 32 - b,
    {
        b = b + 1;
    }
    proof {
        lemma_clog2_from_bounds(k as u64, b);
    }
    b
}

/// The packed form of a typed link: the target in the high bits, the type
/// index in the low `b` bits.
pub open spec fn spec_pack(target: u32, ty: u32, b: u32) -> u64 {
    ((target as u64) << (b as u64)) | (ty as u64)
}

/// The target a packed typed link points at: its high bits.
pub open spec fn spec_unpack_target(code: u32, b: u32) -> u64 {
    (code as u64) >> (b as u64)
}

/// The type index a packed typed link carries: its low `b` bits.
pub open spec fn spec_unpack_ty(code: u32, b: u32) -> u64 {
    (code as u64) & !(u64::MAX << (b as u64))
}

/// Pack a typed link. Returns `None` when the target does not fit in the
/// `32 - b` high bits, where the packing would lose information.
pub fn pack_typed_link(target: u32, ty: u32, b: u32) -> (r: Option<u32>)
    requires
        b <= 32,
        (ty as u64) < (1u64 << (b as u64)),
    ensures
        r is Some <==> (target as u64) < (1u64 << ((32 - b) as u64)),
        r matches Some(c) ==> c as u64 == spec_pack(target, ty, b),
{
    let limit: u64 = 1u64 << ((32 - b) as u64);
    if (target as u64) < limit {
        let packed: u64 = ((target as u64) << (b as u64)) | (ty as u64);
        proof {
            let t = target as u64;
            let ty64 = ty as u64;
            let b64 = b as u64;
            assert((t << b64 | ty64) <= u32::MAX as u64) by (bit_vector)
                requires
                    b64 <= 32,
                    ty64 < (1u64 << b64),
                    t < (1u64 << ((32 - b64) as u64)),
            ;
        }
        Some(packed as u32)
    } else {
        None
    }
}

/// Unpack a typed link into its target and type index.
pub fn unpack_typed_link(code: u32, b: u32) -> (r: (u32, u32))
    requires
        b <= 32,
    ensures
        r.0 as u64 == spec_unpack_target(code, b),
        r.1 as u64 == spec_unpack_ty(code, b),
{
    let target: u64 = (code as u64) >> (b as u64);
    let mask: u64 = !(u64::MAX << (b as u64));
    let ty: u64 = (code as u64) & mask;
    proof {
        let c = code as u64;
        let b64 = b as u64;
        assert((c >> b64) <= u32::MAX as u64 && (c & !(u64::MAX << b64)) <= u32::MAX as u64)
            by (bit_vector)
            requires
                b64 <= 32,
                c <= u32::MAX as u64,
        ;
    }
    (target as u32, ty as u32)
}

/// Packing then unpacking a typed link gives back the target and the type
/// index, whenever the target fits in the high `32 - b` bits and the type
/// index in the low `b` bits.
pub proof fn lemma_typed_link_pack_unpack(target: u32, ty: u32, b: u32)
    requires
        b <= 32,
        (ty as u64) < (1u64 << (b as u64)),
        (target as u64) < (1u64 << ((32 - b) as u64)),
    ensures
        spec_unpack_target((spec_pack(target, ty, b) as u32), b) == target as u64,
        spec_unpack_ty((spec_pack(target, ty, b) as u32), b) == ty as u64,
{
    let t = target as u64;
    let ty64 = ty as u64;
    let b64 = b as u64;
    assert(((t << b64 | ty64) as u32) as u64 == (t << b64 | ty64)) by (bit_vector)
        requires
            b64 <= 32,
            ty64 < (1u64 << b64),
            t < (1u64 << ((32 - b64) as u64)),
    ;
    assert(((t << b64 | ty64) >> b64) == t && ((t << b64 | ty64) & !(u64::MAX << b64)) == ty64)
        by (bit_vector)
        requires
            b64 <= 32,
            ty64 < (1u64 << b64),
            t < (1u64 << ((32 - b64) as u64)),
    ;
}

} // verus!
