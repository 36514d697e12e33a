use vstd::prelude::*;
use vstd::string::StrSliceExecFns;
use crate::model::{DataType, DataTypeV, Layer, LayerDesc, LayerDescV, LayerType, LayerV, Document};
use crate::error::{TeangaError, TeangaResult};

verus! {

broadcast use vstd::seq_lib::group_seq_lib_default;

// ---------------------------------------------------------------------------
// Stored records are framed with big-endian fixed-width integers: 8-byte
// counts and byte lengths, 4-byte layer offsets and codes.
// ---------------------------------------------------------------------------

/// The four big-endian bytes of a 32-bit integer.
pub open spec fn be32(x: u32) -> Seq<u8> {
    seq![(x >> 24) as u8, (x >> 16) as u8, (x >> 8) as u8, x as u8]
}

/// The eight big-endian bytes of a 64-bit integer.
pub open spec fn be64(x: u64) -> Seq<u8> {
    seq![
        (x >> 56) as u8,
        (x >> 48) as u8,
        (x >> 40) as u8,
        (x >> 32) as u8,
        (x >> 24) as u8,
        (x >> 16) as u8,
        (x >> 8) as u8,
        x as u8,
    ]
}

pub fn push_be32(out: &mut Vec<u8>, x: u32)
    ensures
        final(out)@ == old(out)@ + be32(x),
{
    out.push((x >> 24) as u8);
    out.push((x >> 16) as u8);
    out.push((x >> 8) as u8);
    out.push(x as u8);
    proof {
        assert(out@ =~= old(out)@ + be32(x));
    }
}

pub fn push_be64(out: &mut Vec<u8>, x: u64)
    ensures
        final(out)@ == old(out)@ + be64(x),
{
    out.push((x >> 56) as u8);
    out.push((x >> 48) as u8);
    out.push((x >> 40) as u8);
    out.push((x >> 32) as u8);
    out.push((x >> 24) as u8);
    out.push((x >> 16) as u8);
    out.push((x >> 8) as u8);
    out.push(x as u8);
    proof {
        assert(out@ =~= old(out)@ + be64(x));
    }
}

/// Read a big-endian 32-bit integer at `pos`.
pub fn read_be32(b: &Vec<u8>, pos: usize) -> (r: TeangaResult<u32>)
    ensures
        r is Ok <==> pos + 4 <= b@.len(),
        r matches Ok(x) ==> be32(x) == b@.subrange(pos as int, pos + 4),
        r matches Err(e) ==> e is EncodingError,
{
    if pos < b.len() && b.len() - pos >= 4 {
        let x: u32 = (b[pos] as u32) << 24 | (b[pos + 1] as u32) << 16 | (b[pos + 2] as u32) << 8
            | (b[pos + 3] as u32);
        proof {
            let b0 = b@[pos as int];
            let b1 = b@[pos as int + 1];
            let b2 = b@[pos as int + 2];
            let b3 = b@[pos as int + 3];
            let y = ((b0 as u32) << 24 | (b1 as u32) << 16 | (b2 as u32) << 8 | (b3 as u32)) as u32;
            assert(((y >> 24) as u8) == b0 && ((y >> 16) as u8) == b1 && ((y >> 8) as u8) == b2 && (
            y as u8) == b3) by (bit_vector)
                requires
                    y == ((b0 as u32) << 24 | (b1 as u32) << 16 | (b2 as u32) << 8 | (b3 as u32)),
            ;
            assert(be32(x) =~= b@.subrange(pos as int, pos + 4));
        }
        Ok(x)
    } else {
        Err(TeangaError::EncodingError)
    }
}

/// Read a big-endian 64-bit integer at `pos`.
pub fn read_be64(b: &Vec<u8>, pos: usize) -> (r: TeangaResult<u64>)
    ensures
        r is Ok <==> pos + 8 <= b@.len(),
        r matches Ok(x) ==> be64(x) == b@.subrange(pos as int, pos + 8),
        r matches Err(e) ==> e is EncodingError,
{
    if pos < b.len() && b.len() - pos >= 8 {
        let x: u64 = (b[pos] as u64) << 56 | (b[pos + 1] as u64) << 48 | (b[pos + 2] as u64) << 40
            | (b[pos + 3] as u64) << 32 | (b[pos + 4] as u64) << 24 | (b[pos + 5] as u64) << 16 | (
        b[pos + 6] as u64) << 8 | (b[pos + 7] as u64);
        proof {
            let b0 = b@[pos as int];
            let b1 = b@[pos as int + 1];
            let b2 = b@[pos as int + 2];
            let b3 = b@[pos as int + 3];
            let b4 = b@[pos as int + 4];
            let b5 = b@[pos as int + 5];
            let b6 = b@[pos as int + 6];
            let b7 = b@[pos as int + 7];
            let y = ((b0 as u64) << 56 | (b1 as u64) << 48 | (b2 as u64) << 40 | (b3 as u64) << 32
                | (b4 as u64) << 24 | (b5 as u64) << 16 | (b6 as u64) << 8 | (b7 as u64)) as u64;
            assert(((y >> 56) as u8) == b0 && ((y >> 48) as u8) == b1 && ((y >> 40) as u8) == b2
                && ((y >> 32) as u8) == b3 && ((y >> 24) as u8) == b4 && ((y >> 16) as u8) == b5
                && ((y >> 8) as u8) == b6 && (y as u8) == b7) by (bit_vector)
                requires
                    y == ((b0 as u64) << 56 | (b1 as u64) << 48 | (b2 as u64) << 40 | (b3
                        as u64) << 32 | (b4 as u64) << 24 | (b5 as u64) << 16 | (b6 as u64) << 8 | (
                    b7 as u64)),
            ;
            assert(be64(x) =~= b@.subrange(pos as int, pos + 8));
        }
        Ok(x)
    } else {
        Err(TeangaError::EncodingError)
    }
}


// ---------------------------------------------------------------------------
// Record encodings. Lists carry an 8-byte element count; text carries an
// 8-byte byte length and its UTF-8 bytes; a stored layer opens with a tag
// byte naming its shape.
// ---------------------------------------------------------------------------

/// The encoding of a text value.
pub open spec fn enc_str(s: Seq<char>) -> Seq<u8> {
    be64(vstd::utf8::encode_utf8(s).len() as u64) + vstd::utf8::encode_utf8(s)
}

pub open spec fn enc_u32s(v: Seq<u32>) -> Seq<u8>
    decreases v.len(),
{
    if v.len() == 0 {
        Seq::empty()
    } else {
        enc_u32s(v.drop_last()) + be32(v.last())
    }
}

pub open spec fn enc_pairs(v: Seq<(u32, u32)>) -> Seq<u8>
    decreases v.len(),
{
    if v.len() == 0 {
        Seq::empty()
    } else {
        enc_pairs(v.drop_last()) + be32(v.last().0) + be32(v.last().1)
    }
}

pub open spec fn enc_trips(v: Seq<(u32, u32, u32)>) -> Seq<u8>
    decreases v.len(),
{
    if v.len() == 0 {
        Seq::empty()
    } else {
        enc_trips(v.drop_last()) + be32(v.last().0) + be32(v.last().1) + be32(v.last().2)
    }
}

pub open spec fn enc_strs(v: Seq<Seq<char>>) -> Seq<u8>
    decreases v.len(),
{
    if v.len() == 0 {
        Seq::empty()
    } else {
        enc_strs(v.drop_last()) + enc_str(v.last())
    }
}

pub open spec fn enc_u32list(v: Seq<u32>) -> Seq<u8> {
    be64(v.len() as u64) + enc_u32s(v)
}

pub open spec fn enc_pairlist(v: Seq<(u32, u32)>) -> Seq<u8> {
    be64(v.len() as u64) + enc_pairs(v)
}

pub open spec fn enc_triplist(v: Seq<(u32, u32, u32)>) -> Seq<u8> {
    be64(v.len() as u64) + enc_trips(v)
}

pub open spec fn enc_strlist(v: Seq<Seq<char>>) -> Seq<u8> {
    be64(v.len() as u64) + enc_strs(v)
}

/// The encoding of a stored layer: a shape tag, then its list.
pub open spec fn enc_layer(l: LayerV) -> Seq<u8> {
    match l {
        LayerV::CharactersV(s) => seq![0u8] + enc_str(s),
        LayerV::SeqV(v) => seq![1u8] + enc_u32list(v),
        LayerV::DivV(v) => seq![2u8] + enc_pairlist(v),
        LayerV::DivNoDataV(v) => seq![3u8] + enc_u32list(v),
        LayerV::ElementV(v) => seq![4u8] + enc_pairlist(v),
        LayerV::ElementNoDataV(v) => seq![5u8] + enc_u32list(v),
        LayerV::SpanV(v) => seq![6u8] + enc_triplist(v),
        LayerV::SpanNoDataV(v) => seq![7u8] + enc_pairlist(v),
    }
}

pub open spec fn enc_doc_entries(content: Seq<(Seq<char>, LayerV)>) -> Seq<u8>
    decreases content.len(),
{
    if content.len() == 0 {
        Seq::empty()
    } else {
        enc_doc_entries(content.drop_last()) + enc_str(content.last().0) + enc_layer(
            content.last().1,
        )
    }
}

/// The encoding of a document: its entry count, then each named layer.
pub open spec fn enc_doc(content: Seq<(Seq<char>, LayerV)>) -> Seq<u8> {
    be64(content.len() as u64) + enc_doc_entries(content)
}

pub open spec fn lt_tag(t: LayerType) -> u8 {
    match t {
        LayerType::characters => 0u8,
        LayerType::seq => 1u8,
        LayerType::div => 2u8,
        LayerType::element => 3u8,
        LayerType::span => 4u8,
    }
}

pub open spec fn enc_datatype(dt: DataTypeV) -> Seq<u8> {
    match dt {
        DataTypeV::StringV => seq![0u8],
        DataTypeV::EnumV(vals) => seq![1u8] + enc_strlist(vals),
        DataTypeV::LinkV => seq![2u8],
        DataTypeV::TypedLinkV(vals) => seq![3u8] + enc_strlist(vals),
    }
}

pub open spec fn enc_opt_datatype(o: Option<DataTypeV>) -> Seq<u8> {
    match o {
        None => seq![0u8],
        Some(dt) => seq![1u8] + enc_datatype(dt),
    }
}

pub open spec fn enc_opt_str(o: Option<Seq<char>>) -> Seq<u8> {
    match o {
        None => seq![0u8],
        Some(s) => seq![1u8] + enc_str(s),
    }
}

pub open spec fn enc_opt_strlist(o: Option<Seq<Seq<char>>>) -> Seq<u8> {
    match o {
        None => seq![0u8],
        Some(v) => seq![1u8] + enc_strlist(v),
    }
}

/// The encoding of a layer schema record.
pub open spec fn enc_desc(d: LayerDescV) -> Seq<u8> {
    seq![lt_tag(d.layer_type)] + enc_str(d.on) + enc_opt_datatype(d.data) + enc_opt_strlist(
        d.values,
    ) + enc_opt_str(d.target) + enc_opt_strlist(d.default)
}

// ---------------------------------------------------------------------------
// Executable encoders.
// ---------------------------------------------------------------------------

fn push_bytes(out: &mut Vec<u8>, b: &Vec<u8>)
    ensures
        final(out)@ == old(out)@ + b@,
{
    let mut i: usize = 0;
    while i < b.len()
        invariant
            i <= b@.len(),
            out@ == old(out)@ + b@.subrange(0, i as int),
        decreases b@.len() - i,
    {
        out.push(b[i]);
        i = i + 1;
        proof {
            assert(out@ =~= old(out)@ + b@.subrange(0, i as int));
        }
    }
    proof {
        assert(old(out)@ + b@.subrange(0, b@.len() as int) =~= old(out)@ + b@);
    }
}

fn push_str(out: &mut Vec<u8>, s: &String)
    ensures
        final(out)@ == old(out)@ + enc_str(s@),
{
    let bytes = s.as_str().as_bytes_vec();
    push_be64(out, bytes.len() as u64);
    push_bytes(out, &bytes);
    proof {
        assert(out@ =~= old(out)@ + enc_str(s@));
    }
}

fn push_u32list(out: &mut Vec<u8>, v: &Vec<u32>)
    ensures
        final(out)@ == old(out)@ + enc_u32list(v@),
{
    push_be64(out, v.len() as u64);
    let ghost base = out@;
    let mut i: usize = 0;
    while i < v.len()
        invariant
            i <= v@.len(),
            out@ == base + enc_u32s(v@.subrange(0, i as int)),
        decreases v@.len() - i,
    {
        push_be32(out, v[i]);
        i = i + 1;
        proof {
            assert(v@.subrange(0, i as int).drop_last() =~= v@.subrange(0, i - 1));
            assert(out@ =~= base + enc_u32s(v@.subrange(0, i as int)));
        }
    }
    proof {
        assert(v@.subrange(0, v@.len() as int) =~= v@);
        assert(out@ =~= old(out)@ + enc_u32list(v@));
    }
}

fn push_pairlist(out: &mut Vec<u8>, v: &Vec<(u32, u32)>)
    ensures
        final(out)@ == old(out)@ + enc_pairlist(v@),
{
    push_be64(out, v.len() as u64);
    let ghost base = out@;
    let mut i: usize = 0;
    while i < v.len()
        invariant
            i <= v@.len(),
            out@ == base + enc_pairs(v@.subrange(0, i as int)),
        decreases v@.len() - i,
    {
        push_be32(out, v[i].0);
        push_be32(out, v[i].1);
        i = i + 1;
        proof {
            assert(v@.subrange(0, i as int).drop_last() =~= v@.subrange(0, i - 1));
            assert(out@ =~= base + enc_pairs(v@.subrange(0, i as int)));
        }
    }
    proof {
        assert(v@.subrange(0, v@.len() as int) =~= v@);
        assert(out@ =~= old(out)@ + enc_pairlist(v@));
    }
}

fn push_triplist(out: &mut Vec<u8>, v: &Vec<(u32, u32, u32)>)
    ensures
        final(out)@ == old(out)@ + enc_triplist(v@),
{
    push_be64(out, v.len() as u64);
    let ghost base = out@;
    let mut i: usize = 0;
    while i < v.len()
        invariant
            i <= v@.len(),
            out@ == base + enc_trips(v@.subrange(0, i as int)),
        decreases v@.len() - i,
    {
        push_be32(out, v[i].0);
        push_be32(out, v[i].1);
        push_be32(out, v[i].2);
        i = i + 1;
        proof {
            assert(v@.subrange(0, i as int).drop_last() =~= v@.subrange(0, i - 1));
            assert(out@ =~= base + enc_trips(v@.subrange(0, i as int)));
        }
    }
    proof {
        assert(v@.subrange(0, v@.len() as int) =~= v@);
        assert(out@ =~= old(out)@ + enc_triplist(v@));
    }
}

fn push_strlist(out: &mut Vec<u8>, v: &Vec<String>)
    ensures
        final(out)@ == old(out)@ + enc_strlist(v.deep_view()),
{
    push_be64(out, v.len() as u64);
    let ghost base = out@;
    let mut i: usize = 0;
    while i < v.len()
        invariant
            i <= v@.len(),
            v.deep_view().len() == v@.len(),
            out@ == base + enc_strs(v.deep_view().subrange(0, i as int)),
        decreases v@.len() - i,
    {
        proof {
            assert(v.deep_view()[i as int] == v@[i as int]@);
        }
        push_str(out, &v[i]);
        i = i + 1;
        proof {
            assert(v.deep_view().subrange(0, i as int).drop_last() =~= v.deep_view().subrange(
                0,
                i - 1,
            ));
            assert(out@ =~= base + enc_strs(v.deep_view().subrange(0, i as int)));
        }
    }
    proof {
        assert(v.deep_view().subrange(0, v@.len() as int) =~= v.deep_view());
        assert(out@ =~= old(out)@ + enc_strlist(v.deep_view()));
    }
}

/// Append a stored layer's encoding.
fn push_layer(out: &mut Vec<u8>, l: &Layer)
    ensures
        final(out)@ == old(out)@ + enc_layer(l@),
{
    match l {
        Layer::Characters(s) => {
            out.push(0u8);
            push_str(out, s);
        },
        Layer::SeqData(v) => {
            out.push(1u8);
            push_u32list(out, v);
        },
        Layer::Div(v) => {
            out.push(2u8);
            push_pairlist(out, v);
        },
        Layer::DivNoData(v) => {
            out.push(3u8);
            push_u32list(out, v);
        },
        Layer::Element(v) => {
            out.push(4u8);
            push_pairlist(out, v);
        },
        Layer::ElementNoData(v) => {
            out.push(5u8);
            push_u32list(out, v);
        },
        Layer::Span(v) => {
            out.push(6u8);
            push_triplist(out, v);
        },
        Layer::SpanNoData(v) => {
            out.push(7u8);
            push_pairlist(out, v);
        },
    }
    proof {
        assert(out@ =~= old(out)@ + enc_layer(l@));
    }
}

/// Encode a document for storage.
pub fn encode_doc(doc: &Document) -> (r: Vec<u8>)
    ensures
        r@ == enc_doc(doc@),
{
    let mut out: Vec<u8> = Vec::new();
    push_be64(&mut out, doc.content.len() as u64);
    let ghost base = out@;
    let mut i: usize = 0;
    while i < doc.content.len()
        invariant
            i <= doc.content@.len(),
            doc@.len() == doc.content@.len(),
            out@ == base + enc_doc_entries(doc@.subrange(0, i as int)),
        decreases doc.content@.len() - i,
    {
        proof {
            assert(doc@[i as int] == (doc.content@[i as int].0@, doc.content@[i as int].1@));
        }
        push_str(&mut out, &doc.content[i].0);
        push_layer(&mut out, &doc.content[i].1);
        i = i + 1;
        proof {
            assert(doc@.subrange(0, i as int).drop_last() =~= doc@.subrange(0, i - 1));
            assert(out@ =~= base + enc_doc_entries(doc@.subrange(0, i as int)));
        }
    }
    proof {
        assert(doc@.subrange(0, doc@.len() as int) =~= doc@);
        assert(out@ =~= enc_doc(doc@));
    }
    out
}

/// Encode the document-order list for storage.
pub fn encode_order(ids: &Vec<String>) -> (r: Vec<u8>)
    ensures
        r@ == enc_strlist(ids.deep_view()),
{
    let mut out: Vec<u8> = Vec::new();
    push_strlist(&mut out, ids);
    proof {
        assert(out@ =~= enc_strlist(ids.deep_view()));
    }
    out
}

/// Encode a layer schema record for storage.
#[verifier::rlimit(100)]
pub fn encode_desc(d: &LayerDesc) -> (r: Vec<u8>)
    ensures
        r@ == enc_desc(d@),
{
    let mut out: Vec<u8> = Vec::new();
    let tag: u8 = match d.layer_type {
        LayerType::characters => 0u8,
        LayerType::seq => 1u8,
        LayerType::div => 2u8,
        LayerType::element => 3u8,
        LayerType::span => 4u8,
    };
    out.push(tag);
    push_str(&mut out, &d.on);
    let ghost p1 = seq![lt_tag(d@.layer_type)] + enc_str(d@.on);
    proof {
        assert(out@ =~= p1);
    }
    match &d.data {
        None => {
            out.push(0u8);
        },
        Some(dt) => {
            out.push(1u8);
            match dt {
                DataType::String => {
                    out.push(0u8);
                },
                DataType::Enum(vals) => {
                    out.push(1u8);
                    push_strlist(&mut out, vals);
                },
                DataType::Link => {
                    out.push(2u8);
                },
                DataType::TypedLink(vals) => {
                    out.push(3u8);
                    push_strlist(&mut out, vals);
                },
            }
        },
    }
    let ghost p2 = p1 + enc_opt_datatype(d@.data);
    proof {
        assert(out@ =~= p2);
    }
    match &d.values {
        None => {
            out.push(0u8);
        },
        Some(v) => {
            out.push(1u8);
            push_strlist(&mut out, v);
        },
    }
    let ghost p3 = p2 + enc_opt_strlist(d@.values);
    proof {
        assert(out@ =~= p3);
    }
    match &d.target {
        None => {
            out.push(0u8);
        },
        Some(t) => {
            out.push(1u8);
            push_str(&mut out, t);
        },
    }
    let ghost p4 = p3 + enc_opt_str(d@.target);
    proof {
        assert(out@ =~= p4);
    }
    match &d.default {
        None => {
            out.push(0u8);
        },
        Some(v) => {
            out.push(1u8);
            push_strlist(&mut out, v);
        },
    }
    proof {
        assert(out@ =~= p4 + enc_opt_strlist(d@.default));
        assert(out@ =~= enc_desc(d@));
    }
    out
}


// ---------------------------------------------------------------------------
// Decoders. Each accepts only bytes it can account for: a successful
// parse re-encodes to exactly the bytes consumed.
// ---------------------------------------------------------------------------

/// Relies on String::from_utf8: returns the string whose UTF-8 bytes are
/// exactly the given ones, or an error when they are not valid UTF-8.
#[verifier::external_body]
pub(crate) fn bytes_to_string(v: Vec<u8>) -> (r: TeangaResult<String>)
    ensures
        r matches Ok(s) ==> vstd::utf8::encode_utf8(s@) == v@,
        r matches Err(e) ==> e is EncodingTextError,
{
    match String::from_utf8(v) {
        Ok(s) => Ok(s),
        Err(_) => Err(TeangaError::EncodingTextError),
    }
}

pub(crate) fn copy_range(b: &Vec<u8>, start: usize, end: usize) -> (r: Vec<u8>)
    requires
        start <= end <= b@.len(),
    ensures
        r@ == b@.subrange(start as int, end as int),
{
    let mut r: Vec<u8> = Vec::new();
    let mut i: usize = start;
    while i < end
        invariant
            start <= i <= end <= b@.len(),
            r@ == b@.subrange(start as int, i as int),
        decreases end - i,
    {
        r.push(b[i]);
        i = i + 1;
        proof {
            assert(r@ =~= b@.subrange(start as int, i as int));
        }
    }
    r
}

/// Read a text value at `pos`.
#[verifier::loop_isolation(false)]
fn dec_str(b: &Vec<u8>, pos: usize) -> (r: TeangaResult<(String, usize)>)
    ensures
        r matches Ok(t) ==> pos <= t.1 <= b@.len() && b@.subrange(pos as int, t.1 as int)
            == enc_str(t.0@),
        r matches Err(e) ==> e is EncodingError || e is EncodingTextError,
{
    let blen: usize = b.len();
    let n = match read_be64(b, pos) {
        Ok(x) => x,
        Err(e) => {
            return Err(e);
        },
    };
    let body = pos + 8;
    if n > (b.len() - body) as u64 {
        return Err(TeangaError::EncodingError);
    }
    let end = body + (n as usize);
    let bytes = copy_range(b, body, end);
    let s = match bytes_to_string(bytes) {
        Ok(x) => x,
        Err(e) => {
            return Err(e);
        },
    };
    proof {
        assert(b@.subrange(pos as int, end as int) =~= b@.subrange(pos as int, body as int)
            + b@.subrange(body as int, end as int));
        assert(b@.subrange(pos as int, end as int) =~= enc_str(s@));
    }
    Ok((s, end))
}

/// Read a list of 32-bit values at `pos`.
#[verifier::loop_isolation(false)]
fn dec_u32list(b: &Vec<u8>, pos: usize) -> (r: TeangaResult<(Vec<u32>, usize)>)
    ensures
        r matches Ok(t) ==> pos <= t.1 <= b@.len() && b@.subrange(pos as int, t.1 as int)
            == enc_u32list(t.0@),
        r matches Err(e) ==> e is EncodingError || e is EncodingTextError,
{
    let blen: usize = b.len();
    let n = match read_be64(b, pos) {
        Ok(x) => x,
        Err(e) => {
            return Err(e);
        },
    };
    let mut cur: usize = pos + 8;
    let mut acc: Vec<u32> = Vec::new();
    let mut count: u64 = 0;
    while count < n
        invariant
            pos + 8 <= cur <= b@.len(),
            count <= n,
            acc@.len() == count,
            b@.subrange(pos + 8, cur as int) == enc_u32s(acc@),
        decreases n - count,
    {
        let x = match read_be32(b, cur) {
            Ok(x) => x,
            Err(e) => {
                return Err(e);
            },
        };
        let ghost prev = acc@;
        acc.push(x);
        proof {
            assert(acc@.drop_last() =~= prev);
            assert(b@.subrange(pos + 8, cur + 4) =~= b@.subrange(pos + 8, cur as int)
                + b@.subrange(cur as int, cur + 4));
        }
        cur = cur + 4;
        count = count + 1;
    }
    proof {
        assert(b@.subrange(pos as int, cur as int) =~= b@.subrange(pos as int, pos + 8)
            + b@.subrange(pos + 8, cur as int));
        assert(b@.subrange(pos as int, cur as int) =~= enc_u32list(acc@));
    }
    Ok((acc, cur))
}

/// Read a list of 32-bit pairs at `pos`.
#[verifier::loop_isolation(false)]
fn dec_pairlist(b: &Vec<u8>, pos: usize) -> (r: TeangaResult<(Vec<(u32, u32)>, usize)>)
    ensures
        r matches Ok(t) ==> pos <= t.1 <= b@.len() && b@.subrange(pos as int, t.1 as int)
            == enc_pairlist(t.0@),
        r matches Err(e) ==> e is EncodingError || e is EncodingTextError,
{
    let blen: usize = b.len();
    let n = match read_be64(b, pos) {
        Ok(x) => x,
        Err(e) => {
            return Err(e);
        },
    };
    let mut cur: usize = pos + 8;
    let mut acc: Vec<(u32, u32)> = Vec::new();
    let mut count: u64 = 0;
    while count < n
        invariant
            pos + 8 <= cur <= b@.len(),
            count <= n,
            acc@.len() == count,
            b@.subrange(pos + 8, cur as int) == enc_pairs(acc@),
        decreases n - count,
    {
        let x = match read_be32(b, cur) {
            Ok(x) => x,
            Err(e) => {
                return Err(e);
            },
        };
        let y = match read_be32(b, cur + 4) {
            Ok(x) => x,
            Err(e) => {
                return Err(e);
            },
        };
        let ghost prev = acc@;
        acc.push((x, y));
        proof {
            assert(acc@.drop_last() =~= prev);
            assert(b@.subrange(pos + 8, cur + 8) =~= b@.subrange(pos + 8, cur as int)
                + b@.subrange(cur as int, cur + 4) + b@.subrange(cur + 4, cur + 8));
        }
        cur = cur + 8;
        count = count + 1;
    }
    proof {
        assert(b@.subrange(pos as int, cur as int) =~= b@.subrange(pos as int, pos + 8)
            + b@.subrange(pos + 8, cur as int));
        assert(b@.subrange(pos as int, cur as int) =~= enc_pairlist(acc@));
    }
    Ok((acc, cur))
}

/// Read a list of 32-bit triples at `pos`.
#[verifier::loop_isolation(false)]
fn dec_triplist(b: &Vec<u8>, pos: usize) -> (r: TeangaResult<(Vec<(u32, u32, u32)>, usize)>)
    ensures
        r matches Ok(t) ==> pos <= t.1 <= b@.len() && b@.subrange(pos as int, t.1 as int)
            == enc_triplist(t.0@),
        r matches Err(e) ==> e is EncodingError || e is EncodingTextError,
{
    let blen: usize = b.len();
    let n = match read_be64(b, pos) {
        Ok(x) => x,
        Err(e) => {
            return Err(e);
        },
    };
    let mut cur: usize = pos + 8;
    let mut acc: Vec<(u32, u32, u32)> = Vec::new();
    let mut count: u64 = 0;
    while count < n
        invariant
            pos + 8 <= cur <= b@.len(),
            count <= n,
            acc@.len() == count,
            b@.subrange(pos + 8, cur as int) == enc_trips(acc@),
        decreases n - count,
    {
        let x = match read_be32(b, cur) {
            Ok(x) => x,
            Err(e) => {
                return Err(e);
            },
        };
        let y = match read_be32(b, cur + 4) {
            Ok(x) => x,
            Err(e) => {
                return Err(e);
            },
        };
        let z = match read_be32(b, cur + 8) {
            Ok(x) => x,
            Err(e) => {
                return Err(e);
            },
        };
        let ghost prev = acc@;
        acc.push((x, y, z));
        proof {
            assert(acc@.drop_last() =~= prev);
            assert(b@.subrange(pos + 8, cur + 12) =~= b@.subrange(pos + 8, cur as int)
                + b@.subrange(cur as int, cur + 4) + b@.subrange(cur + 4, cur + 8) + b@.subrange(
                cur + 8,
                cur + 12,
            ));
        }
        cur = cur + 12;
        count = count + 1;
    }
    proof {
        assert(b@.subrange(pos as int, cur as int) =~= b@.subrange(pos as int, pos + 8)
            + b@.subrange(pos + 8, cur as int));
        assert(b@.subrange(pos as int, cur as int) =~= enc_triplist(acc@));
    }
    Ok((acc, cur))
}

/// Read a list of text values at `pos`.
#[verifier::loop_isolation(false)]
fn dec_strlist(b: &Vec<u8>, pos: usize) -> (r: TeangaResult<(Vec<String>, usize)>)
    ensures
        r matches Ok(t) ==> pos <= t.1 <= b@.len() && b@.subrange(pos as int, t.1 as int)
            == enc_strlist(t.0.deep_view()),
        r matches Err(e) ==> e is EncodingError || e is EncodingTextError,
{
    let blen: usize = b.len();
    let n = match read_be64(b, pos) {
        Ok(x) => x,
        Err(e) => {
            return Err(e);
        },
    };
    let mut cur: usize = pos + 8;
    let mut acc: Vec<String> = Vec::new();
    let mut count: u64 = 0;
    while count < n
        invariant
            pos + 8 <= cur <= b@.len(),
            count <= n,
            acc@.len() == count,
            b@.subrange(pos + 8, cur as int) == enc_strs(acc.deep_view()),
        decreases n - count,
    {
        let (s, next) = match dec_str(b, cur) {
            Ok(x) => x,
            Err(e) => {
                return Err(e);
            },
        };
        if next == cur {
            return Err(TeangaError::EncodingError);
        }
        let ghost prev = acc.deep_view();
        acc.push(s);
        proof {
            assert(acc.deep_view().drop_last() =~= prev);
            assert(acc.deep_view().last() == s@);
            assert(b@.subrange(pos + 8, next as int) =~= b@.subrange(pos + 8, cur as int)
                + b@.subrange(cur as int, next as int));
        }
        cur = next;
        count = count + 1;
    }
    proof {
        assert(b@.subrange(pos as int, cur as int) =~= b@.subrange(pos as int, pos + 8)
            + b@.subrange(pos + 8, cur as int));
        assert(b@.subrange(pos as int, cur as int) =~= enc_strlist(acc.deep_view()));
    }
    Ok((acc, cur))
}

/// Read a stored layer at `pos`.
#[verifier::loop_isolation(false)]
fn dec_layer(b: &Vec<u8>, pos: usize) -> (r: TeangaResult<(Layer, usize)>)
    ensures
        r matches Ok(t) ==> pos <= t.1 <= b@.len() && b@.subrange(pos as int, t.1 as int)
            == enc_layer(t.0@),
        r matches Err(e) ==> e is EncodingError || e is EncodingTextError,
{
    if pos >= b.len() {
        return Err(TeangaError::EncodingError);
    }
    let tag = b[pos];
    let body = pos + 1;
    proof {
        assert(b@.subrange(pos as int, pos + 1) =~= seq![b@[pos as int]]);
    }
    if tag == 0 {
        let (s, next) = match dec_str(b, body) {
            Ok(x) => x,
            Err(e) => {
                return Err(e);
            },
        };
        proof {
            assert(b@.subrange(pos as int, next as int) =~= b@.subrange(pos as int, body as int)
                + b@.subrange(body as int, next as int));
        }
        Ok((Layer::Characters(s), next))
    } else if tag == 1 {
        let (v, next) = match dec_u32list(b, body) {
            Ok(x) => x,
            Err(e) => {
                return Err(e);
            },
        };
        proof {
            assert(b@.subrange(pos as int, next as int) =~= b@.subrange(pos as int, body as int)
                + b@.subrange(body as int, next as int));
        }
        Ok((Layer::SeqData(v), next))
    } else if tag == 2 {
        let (v, next) = match dec_pairlist(b, body) {
            Ok(x) => x,
            Err(e) => {
                return Err(e);
            },
        };
        proof {
            assert(b@.subrange(pos as int, next as int) =~= b@.subrange(pos as int, body as int)
                + b@.subrange(body as int, next as int));
        }
        Ok((Layer::Div(v), next))
    } else if tag == 3 {
        let (v, next) = match dec_u32list(b, body) {
            Ok(x) => x,
            Err(e) => {
                return Err(e);
            },
        };
        proof {
            assert(b@.subrange(pos as int, next as int) =~= b@.subrange(pos as int, body as int)
                + b@.subrange(body as int, next as int));
        }
        Ok((Layer::DivNoData(v), next))
    } else if tag == 4 {
        let (v, next) = match dec_pairlist(b, body) {
            Ok(x) => x,
            Err(e) => {
                return Err(e);
            },
        };
        proof {
            assert(b@.subrange(pos as int, next as int) =~= b@.subrange(pos as int, body as int)
                + b@.subrange(body as int, next as int));
        }
        Ok((Layer::Element(v), next))
    } else if tag == 5 {
        let (v, next) = match dec_u32list(b, body) {
            Ok(x) => x,
            Err(e) => {
                return Err(e);
            },
        };
        proof {
            assert(b@.subrange(pos as int, next as int) =~= b@.subrange(pos as int, body as int)
                + b@.subrange(body as int, next as int));
        }
        Ok((Layer::ElementNoData(v), next))
    } else if tag == 6 {
        let (v, next) = match dec_triplist(b, body) {
            Ok(x) => x,
            Err(e) => {
                return Err(e);
            },
        };
        proof {
            assert(b@.subrange(pos as int, next as int) =~= b@.subrange(pos as int, body as int)
                + b@.subrange(body as int, next as int));
        }
        Ok((Layer::Span(v), next))
    } else if tag == 7 {
        let (v, next) = match dec_pairlist(b, body) {
            Ok(x) => x,
            Err(e) => {
                return Err(e);
            },
        };
        proof {
            assert(b@.subrange(pos as int, next as int) =~= b@.subrange(pos as int, body as int)
                + b@.subrange(body as int, next as int));
        }
        Ok((Layer::SpanNoData(v), next))
    } else {
        Err(TeangaError::EncodingError)
    }
}

/// Decode a stored document record: the whole buffer must be accounted
/// for, and a successful parse re-encodes to exactly these bytes.
#[verifier::loop_isolation(false)]
pub fn decode_doc(b: &Vec<u8>) -> (r: TeangaResult<Document>)
    ensures
        r matches Ok(doc) ==> enc_doc(doc@) == b@,
        r matches Err(e) ==> e is EncodingError || e is EncodingTextError,
{
    let n = read_be64(b, 0)?;
    let mut cur: usize = 8;
    let mut acc: Vec<(String, Layer)> = Vec::new();
    let mut count: u64 = 0;
    let ghost accv = Seq::<(Seq<char>, LayerV)>::empty();
    while count < n
        invariant
            8 <= cur <= b@.len(),
            count <= n,
            acc@.len() == count,
            accv == Seq::new(acc@.len(), |i: int| (acc@[i].0@, acc@[i].1@)),
            b@.subrange(8, cur as int) == enc_doc_entries(accv),
        decreases n - count,
    {
        let (name, next1) = match dec_str(b, cur) {
            Ok(x) => x,
            Err(e) => {
                return Err(e);
            },
        };
        let (layer, next) = match dec_layer(b, next1) {
            Ok(x) => x,
            Err(e) => {
                return Err(e);
            },
        };
        acc.push((name, layer));
        proof {
            let accv2 = Seq::new(acc@.len(), |i: int| (acc@[i].0@, acc@[i].1@));
            assert(accv2.drop_last() =~= accv);
            assert(accv2.last() == (name@, layer@));
            assert(b@.subrange(8, next as int) =~= b@.subrange(8, cur as int) + b@.subrange(
                cur as int,
                next1 as int,
            ) + b@.subrange(next1 as int, next as int));
            accv = accv2;
        }
        cur = next;
        count = count + 1;
    }
    if cur != b.len() {
        return Err(TeangaError::EncodingError);
    }
    let doc = Document { content: acc };
    proof {
        assert(doc@ == accv);
        assert(b@.subrange(0, b@.len() as int) =~= b@.subrange(0, 8) + b@.subrange(
            8,
            b@.len() as int,
        ));
        assert(b@.subrange(0, b@.len() as int) =~= b@);
        assert(enc_doc(doc@) =~= b@);
    }
    Ok(doc)
}

/// Decode the stored document-order list; the whole buffer must be
/// accounted for.
pub fn decode_order(b: &Vec<u8>) -> (r: TeangaResult<Vec<String>>)
    ensures
        r matches Ok(ids) ==> enc_strlist(ids.deep_view()) == b@,
        r matches Err(e) ==> e is EncodingError || e is EncodingTextError,
{
    let (ids, next) = match dec_strlist(b, 0) {
        Ok(x) => x,
        Err(e) => {
            return Err(e);
        },
    };
    if next != b.len() {
        return Err(TeangaError::EncodingError);
    }
    proof {
        assert(b@.subrange(0, b@.len() as int) =~= b@);
    }
    Ok(ids)
}

fn dec_opt_strlist(b: &Vec<u8>, pos: usize) -> (r: TeangaResult<(Option<Vec<String>>, usize)>)
    ensures
        r matches Ok(t) ==> pos <= t.1 <= b@.len() && b@.subrange(pos as int, t.1 as int)
            == enc_opt_strlist(
            match t.0 {
                Some(v) => Some(v.deep_view()),
                None => None,
            },
        ),
        r matches Err(e) ==> e is EncodingError || e is EncodingTextError,
{
    if pos >= b.len() {
        return Err(TeangaError::EncodingError);
    }
    let tag = b[pos];
    proof {
        assert(b@.subrange(pos as int, pos + 1) =~= seq![b@[pos as int]]);
    }
    if tag == 0 {
        Ok((None, pos + 1))
    } else if tag == 1 {
        let (v, next) = match dec_strlist(b, pos + 1) {
            Ok(x) => x,
            Err(e) => {
                return Err(e);
            },
        };
        proof {
            assert(b@.subrange(pos as int, next as int) =~= b@.subrange(pos as int, pos + 1)
                + b@.subrange(pos + 1, next as int));
        }
        Ok((Some(v), next))
    } else {
        Err(TeangaError::EncodingError)
    }
}

fn dec_opt_datatype(b: &Vec<u8>, pos: usize) -> (r: TeangaResult<(Option<DataType>, usize)>)
    ensures
        r matches Ok(t) ==> pos <= t.1 <= b@.len() && b@.subrange(pos as int, t.1 as int)
            == enc_opt_datatype(
            match t.0 {
                Some(dt) => Some(dt@),
                None => None,
            },
        ),
        r matches Err(e) ==> e is EncodingError || e is EncodingTextError,
{
    if pos >= b.len() {
        return Err(TeangaError::EncodingError);
    }
    let dtag = b[pos];
    proof {
        assert(b@.subrange(pos as int, pos + 1) =~= seq![b@[pos as int]]);
    }
    if dtag == 0 {
        return Ok((None, pos + 1));
    }
    if dtag != 1 {
        return Err(TeangaError::EncodingError);
    }
    if pos + 1 >= b.len() {
        return Err(TeangaError::EncodingError);
    }
    let ktag = b[pos + 1];
    proof {
        assert(b@.subrange(pos as int, pos + 2) =~= seq![b@[pos as int], b@[pos as int + 1]]);
    }
    if ktag == 0 {
        Ok((Some(DataType::String), pos + 2))
    } else if ktag == 1 {
        let (vals, next) = match dec_strlist(b, pos + 2) {
            Ok(x) => x,
            Err(e) => {
                return Err(e);
            },
        };
        proof {
            assert(b@.subrange(pos as int, next as int) =~= b@.subrange(pos as int, pos + 2)
                + b@.subrange(pos + 2, next as int));
        }
        Ok((Some(DataType::Enum(vals)), next))
    } else if ktag == 2 {
        Ok((Some(DataType::Link), pos + 2))
    } else if ktag == 3 {
        let (vals, next) = match dec_strlist(b, pos + 2) {
            Ok(x) => x,
            Err(e) => {
                return Err(e);
            },
        };
        proof {
            assert(b@.subrange(pos as int, next as int) =~= b@.subrange(pos as int, pos + 2)
                + b@.subrange(pos + 2, next as int));
        }
        Ok((Some(DataType::TypedLink(vals)), next))
    } else {
        Err(TeangaError::EncodingError)
    }
}

fn dec_opt_str(b: &Vec<u8>, pos: usize) -> (r: TeangaResult<(Option<String>, usize)>)
    ensures
        r matches Ok(t) ==> pos <= t.1 <= b@.len() && b@.subrange(pos as int, t.1 as int)
            == enc_opt_str(
            match t.0 {
                Some(s) => Some(s@),
                None => None,
            },
        ),
        r matches Err(e) ==> e is EncodingError || e is EncodingTextError,
{
    if pos >= b.len() {
        return Err(TeangaError::EncodingError);
    }
    let tag = b[pos];
    proof {
        assert(b@.subrange(pos as int, pos + 1) =~= seq![b@[pos as int]]);
    }
    if tag == 0 {
        Ok((None, pos + 1))
    } else if tag == 1 {
        let (s, next) = match dec_str(b, pos + 1) {
            Ok(x) => x,
            Err(e) => {
                return Err(e);
            },
        };
        proof {
            assert(b@.subrange(pos as int, next as int) =~= b@.subrange(pos as int, pos + 1)
                + b@.subrange(pos + 1, next as int));
        }
        Ok((Some(s), next))
    } else {
        Err(TeangaError::EncodingError)
    }
}

/// Decode a stored layer schema record; the whole buffer must be
/// accounted for.
#[verifier::rlimit(100)]
pub fn decode_desc(b: &Vec<u8>) -> (r: TeangaResult<LayerDesc>)
    ensures
        r matches Ok(d) ==> enc_desc(d@) == b@,
        r matches Err(e) ==> e is EncodingError || e is EncodingTextError,
{
    if b.len() == 0 {
        return Err(TeangaError::EncodingError);
    }
    let tag = b[0];
    let layer_type = if tag == 0 {
        LayerType::characters
    } else if tag == 1 {
        LayerType::seq
    } else if tag == 2 {
        LayerType::div
    } else if tag == 3 {
        LayerType::element
    } else if tag == 4 {
        LayerType::span
    } else {
        return Err(TeangaError::EncodingError);
    };
    proof {
        assert(b@.subrange(0, 1) =~= seq![b@[0]]);
        assert(seq![b@[0]] == seq![lt_tag(layer_type)]);
    }
    let (on, p1) = match dec_str(b, 1) {
        Ok(x) => x,
        Err(e) => {
            return Err(e);
        },
    };
    let (data, p2) = match dec_opt_datatype(b, p1) {
        Ok(x) => x,
        Err(e) => {
            return Err(e);
        },
    };
    let (values, p3) = match dec_opt_strlist(b, p2) {
        Ok(x) => x,
        Err(e) => {
            return Err(e);
        },
    };
    let (target, p4) = match dec_opt_str(b, p3) {
        Ok(x) => x,
        Err(e) => {
            return Err(e);
        },
    };
    let (default, p5) = match dec_opt_strlist(b, p4) {
        Ok(x) => x,
        Err(e) => {
            return Err(e);
        },
    };
    if p5 != b.len() {
        return Err(TeangaError::EncodingError);
    }
    let d = LayerDesc { layer_type, on, data, values, target, default };
    proof {
        assert(b@.subrange(0, b@.len() as int) =~= b@.subrange(0, 1) + b@.subrange(1, p1 as int)
            + b@.subrange(p1 as int, p2 as int) + b@.subrange(p2 as int, p3 as int) + b@.subrange(
            p3 as int,
            p4 as int,
        ) + b@.subrange(p4 as int, p5 as int));
        assert(b@.subrange(0, b@.len() as int) =~= b@);
        assert(enc_desc(d@) =~= b@);
    }
    Ok(d)
}

} // verus!
