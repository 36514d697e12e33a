use vstd::prelude::*;
use vstd::string::{StrSliceExecFns, StringExecFns};
use vstd::utf8::encode_utf8;
use crate::model::{
    desc_wf, DataType, DataTypeV, Document, Layer, LayerDesc, LayerDescV, LayerType, LayerV,
    PyLayer, UserLayerV,
};
use crate::error::{TeangaError, TeangaResult};
use crate::store::{open_store, StoreConn};
use crate::storage::{
    be32, decode_desc, decode_doc, decode_order, encode_desc, encode_doc, encode_order, push_be32,
    read_be32,
};
use crate::codec::{
    collect_dec_codes, collect_enc_strings, enc_ok, enc_strings, enc_val, from_user, into_user,
    lemma_enc_val_characters,
};
use crate::id::{char_entries, id_code, teanga_id, teanga_id_spec};

verus! {

// One-byte key prefixes partitioning the store's namespace: document
// records, code-to-text and text-to-code interning entries, layer schema
// records, the document-order list, and the interning counter.
pub const DOCUMENT_PREFIX: u8 = 0x00;
pub const ID2STR_PREFIX: u8 = 0x01;
pub const STR2ID_PREFIX: u8 = 0x02;
pub const META_PREFIX: u8 = 0x03;
pub const ORDER_KEY: u8 = 0x04;
pub const STRIDX_SIZE_KEY: u8 = 0x05;

/// A key of one prefix byte and a text's UTF-8 bytes.
pub open spec fn spec_text_key(prefix: u8, s: Seq<char>) -> Seq<u8> {
    seq![prefix] + encode_utf8(s)
}

fn text_key(prefix: u8, s: &str) -> (r: Vec<u8>)
    ensures
        r@ == spec_text_key(prefix, s@),
{
    let mut out: Vec<u8> = Vec::new();
    out.push(prefix);
    let bytes = s.as_bytes_vec();
    let mut i: usize = 0;
    while i < bytes.len()
        invariant
            i <= bytes@.len(),
            out@ == seq![prefix] + bytes@.subrange(0, i as int),
        decreases bytes@.len() - i,
    {
        out.push(bytes[i]);
        i = i + 1;
        proof {
            assert(out@ =~= seq![prefix] + bytes@.subrange(0, i as int));
        }
    }
    proof {
        assert(seq![prefix] + bytes@.subrange(0, bytes@.len() as int) =~= spec_text_key(
            prefix,
            s@,
        ));
    }
    out
}

/// A key of one prefix byte and a code's big-endian bytes.
pub open spec fn spec_code_key(prefix: u8, code: u32) -> Seq<u8> {
    seq![prefix] + be32(code)
}

fn code_key(prefix: u8, code: u32) -> (r: Vec<u8>)
    ensures
        r@ == spec_code_key(prefix, code),
{
    let mut out: Vec<u8> = Vec::new();
    out.push(prefix);
    push_be32(&mut out, code);
    proof {
        assert(out@ =~= spec_code_key(prefix, code));
    }
    out
}

fn single_key(b: u8) -> (r: Vec<u8>)
    ensures
        r@ == seq![b],
{
    let mut out: Vec<u8> = Vec::new();
    out.push(b);
    proof {
        assert(out@ =~= seq![b]);
    }
    out
}

fn be32_vec(x: u32) -> (r: Vec<u8>)
    ensures
        r@ == be32(x),
{
    let mut out: Vec<u8> = Vec::new();
    push_be32(&mut out, x);
    proof {
        assert(out@ =~= be32(x));
    }
    out
}

// ---------------------------------------------------------------------------
// The string-interning table.
// ---------------------------------------------------------------------------

/// The interning counter's current value: 0 when unset, else its four
/// stored bytes.
fn read_counter(conn: &StoreConn) -> (r: TeangaResult<u32>)
    ensures
        r matches Err(e) ==> e is StoreError || e is EncodingError,
{
    let key = single_key(STRIDX_SIZE_KEY);
    match conn.get(&key) {
        Err(e) => Err(e),
        Ok(None) => Ok(0),
        Ok(Some(b)) => {
            if b.len() == 4 {
                read_be32(&b, 0)
            } else {
                Err(TeangaError::EncodingError)
            }
        },
    }
}

/// How many times the allocator re-reads the counter before giving up
/// under contention.
pub const ALLOC_RETRY_CAP: u64 = 1000000;

/// Allocate a fresh interning code for `text`: advance the durable
/// counter by an atomic compare-and-swap (retrying while other writers
/// race), then record the text under its new code in both directions.
/// Codes start at 1; 0 is never allocated.
#[verifier::loop_isolation(false)]
pub fn gen_next_id(conn: &StoreConn, text: &String) -> (r: TeangaResult<u32>)
    ensures
        r matches Ok(c) ==> c >= 1,
{
    let counter_key = single_key(STRIDX_SIZE_KEY);
    let mut n = match read_counter(conn) {
        Ok(x) => x,
        Err(e) => {
            return Err(e);
        },
    };
    let mut attempts: u64 = 0;
    let code: u32;
    loop
        invariant
            attempts <= ALLOC_RETRY_CAP,
        decreases ALLOC_RETRY_CAP - attempts,
    {
        if n == u32::MAX {
            return Err(
                TeangaError::ModelError(String::from_str("string index is exhausted")),
            );
        }
        let old_bytes = be32_vec(n);
        let new_bytes = be32_vec(n + 1);
        let old_val = if n == 0 {
            None
        } else {
            Some(&old_bytes)
        };
        let swapped = match conn.compare_and_swap(&counter_key, old_val, &new_bytes) {
            Ok(b) => b,
            Err(e) => {
                return Err(e);
            },
        };
        if swapped {
            code = n + 1;
            break;
        }
        if attempts >= ALLOC_RETRY_CAP {
            return Err(
                TeangaError::StoreError(
                    String::from_str("string index counter is under contention"),
                ),
            );
        }
        attempts = attempts + 1;
        n = match read_counter(conn) {
            Ok(x) => x,
            Err(e) => {
                return Err(e);
            },
        };
    }
    let code_bytes = be32_vec(code);
    let str_key = text_key(STR2ID_PREFIX, text.as_str());
    match conn.insert(&str_key, &code_bytes) {
        Ok(()) => {},
        Err(e) => {
            return Err(e);
        },
    }
    let id_key = code_key(ID2STR_PREFIX, code);
    let text_bytes = text.as_str().as_bytes_vec();
    match conn.insert(&id_key, &text_bytes) {
        Ok(()) => {},
        Err(e) => {
            return Err(e);
        },
    }
    Ok(code)
}

/// The code of an already-interned text, or `None` when it was never
/// interned.
fn lookup_code(conn: &StoreConn, text: &String) -> (r: TeangaResult<Option<u32>>)
    ensures
        r matches Err(e) ==> e is StoreError || e is EncodingError,
{
    let key = text_key(STR2ID_PREFIX, text.as_str());
    match conn.get(&key) {
        Err(e) => Err(e),
        Ok(None) => Ok(None),
        Ok(Some(b)) => {
            if b.len() == 4 {
                match read_be32(&b, 0) {
                    Ok(c) => Ok(Some(c)),
                    Err(e) => Err(e),
                }
            } else {
                Err(TeangaError::EncodingError)
            }
        },
    }
}

/// The text an interning code stands for; an error when the code was
/// never allocated.
fn resolve_code(conn: &StoreConn, code: u32) -> (r: TeangaResult<String>)
{
    let key = code_key(ID2STR_PREFIX, code);
    match conn.get(&key) {
        Err(e) => Err(e),
        Ok(None) => Err(
            TeangaError::ModelError(String::from_str("string index entry not found")),
        ),
        Ok(Some(b)) => crate::storage::bytes_to_string(b),
    }
}


// ---------------------------------------------------------------------------
// The corpus: the in-memory mirror of schema and document order, and the
// CRUD operations, each against a fresh store connection.
// ---------------------------------------------------------------------------

/// A corpus: its layer schema (`meta`), the canonical document order,
/// and the path of its backing store. `meta` and `order` mirror the
/// durable state; every mutation writes through to the store before the
/// mirror changes.
#[derive(Debug, Clone)]
pub struct Corpus {
    pub meta: Vec<(String, LayerDesc)>,
    pub order: Vec<String>,
    pub path: String,
}

/// The schema mirror as a mathematical map-like list.
pub open spec fn meta_view(meta: Seq<(String, LayerDesc)>) -> Seq<(Seq<char>, LayerDescV)> {
    Seq::new(meta.len(), |i: int| (meta[i].0@, meta[i].1@))
}

/// The user-facing content of a document as a mathematical list.
pub open spec fn content_view(content: Seq<(String, PyLayer)>) -> Seq<(Seq<char>, UserLayerV)> {
    Seq::new(content.len(), |i: int| (content[i].0@, content[i].1@))
}

/// The (name, text) pairs of the character layers of user-facing
/// content, in content order.
pub open spec fn content_char_entries(content: Seq<(Seq<char>, UserLayerV)>) -> Seq<
    (Seq<char>, Seq<char>),
>
    decreases content.len(),
{
    if content.len() == 0 {
        Seq::empty()
    } else {
        let rest = content_char_entries(content.drop_last());
        match content.last().1 {
            UserLayerV::CharacterLayerV(text) => rest + seq![(content.last().0, text)],
            _ => rest,
        }
    }
}

/// What a document operation accepts of its content under a schema:
/// pairwise distinct layer names, each declared, and each layer's shape
/// accepted by the declared record.
pub open spec fn content_accepted(
    mv: Seq<(Seq<char>, LayerDescV)>,
    cv: Seq<(Seq<char>, UserLayerV)>,
) -> bool {
    &&& forall|i: int, j: int|
        0 <= i < j < cv.len() ==> (#[trigger] cv[i]).0 != (#[trigger] cv[j]).0
    &&& forall|i: int| 0 <= i < cv.len() ==> spec_meta_index(mv, (#[trigger] cv[i]).0) is Some
    &&& forall|i: int|
        0 <= i < cv.len() ==> enc_ok(
            (#[trigger] cv[i]).1,
            mv[spec_meta_index(mv, cv[i].0)->Some_0].1,
        )
}

/// The stored document content encodes to: the content's names in order,
/// each layer the encoding of its user layer under its declared record,
/// for some interned codes of the right length (which codes, the
/// interning table decides).
pub open spec fn doc_encodes(
    mv: Seq<(Seq<char>, LayerDescV)>,
    cv: Seq<(Seq<char>, UserLayerV)>,
    dv: Seq<(Seq<char>, LayerV)>,
) -> bool {
    &&& dv.len() == cv.len()
    &&& forall|i: int| 0 <= i < cv.len() ==> (#[trigger] dv[i]).0 == cv[i].0
    &&& forall|i: int|
        0 <= i < cv.len() ==> {
            let d = mv[spec_meta_index(mv, (#[trigger] cv[i]).0)->Some_0].1;
            exists|codes: Seq<u32>|
                codes.len() == enc_strings(cv[i].1, d).len() && dv[i].1 == #[trigger] enc_val(
                    cv[i].1,
                    d,
                    codes,
                )
        }
}

/// First index of a layer name in the schema mirror.
pub open spec fn spec_meta_index(mv: Seq<(Seq<char>, LayerDescV)>, name: Seq<char>) -> Option<int>
    decreases mv.len(),
{
    if mv.len() == 0 {
        None
    } else if mv[0].0 == name {
        Some(0)
    } else {
        match spec_meta_index(mv.drop_first(), name) {
            Some(i) => Some(i + 1),
            None => None,
        }
    }
}

pub proof fn lemma_meta_index_found(mv: Seq<(Seq<char>, LayerDescV)>, name: Seq<char>, i: int)
    requires
        0 <= i < mv.len(),
        mv[i].0 == name,
        forall|j: int| 0 <= j < i ==> (#[trigger] mv[j]).0 != name,
    ensures
        spec_meta_index(mv, name) == Some(i),
    decreases mv.len(),
{
    if mv[0].0 != name {
        lemma_meta_index_found(mv.drop_first(), name, i - 1);
    }
}

pub proof fn lemma_meta_index_some(mv: Seq<(Seq<char>, LayerDescV)>, name: Seq<char>)
    requires
        spec_meta_index(mv, name) is Some,
    ensures
        0 <= spec_meta_index(mv, name)->Some_0 < mv.len(),
        mv[spec_meta_index(mv, name)->Some_0].0 == name,
    decreases mv.len(),
{
    if mv.len() > 0 && mv[0].0 != name {
        lemma_meta_index_some(mv.drop_first(), name);
    }
}

pub proof fn lemma_meta_index_none(mv: Seq<(Seq<char>, LayerDescV)>, name: Seq<char>)
    requires
        forall|j: int| 0 <= j < mv.len() ==> (#[trigger] mv[j]).0 != name,
    ensures
        spec_meta_index(mv, name) is None,
    decreases mv.len(),
{
    if mv.len() > 0 {
        lemma_meta_index_none(mv.drop_first(), name);
    }
}

/// The schema mirror after setting a layer's record: the first entry of
/// that name replaced, or a new entry appended.
pub open spec fn meta_set(
    mv: Seq<(Seq<char>, LayerDescV)>,
    name: Seq<char>,
    d: LayerDescV,
) -> Seq<(Seq<char>, LayerDescV)> {
    match spec_meta_index(mv, name) {
        Some(i) => mv.update(i, (name, d)),
        None => mv.push((name, d)),
    }
}

/// Bare string or link kinds with an explicit value list normalize to
/// the closed-vocabulary kinds over that list.
pub open spec fn normalize_data(
    data: Option<DataTypeV>,
    values: Option<Seq<Seq<char>>>,
) -> Option<DataTypeV> {
    match data {
        Some(DataTypeV::StringV) => match values {
            Some(v) => Some(DataTypeV::EnumV(v)),
            None => Some(DataTypeV::StringV),
        },
        Some(DataTypeV::LinkV) => match values {
            Some(v) => Some(DataTypeV::TypedLinkV(v)),
            None => Some(DataTypeV::LinkV),
        },
        other => other,
    }
}

/// The order list after an update that renames one document: the first
/// occurrence of `a` replaced by `b`.
pub open spec fn replace_first(order: Seq<Seq<char>>, a: Seq<char>, b: Seq<char>) -> Seq<Seq<char>>
    decreases order.len(),
{
    if order.len() == 0 {
        order
    } else if order[0] == a {
        order.update(0, b)
    } else {
        seq![order[0]] + replace_first(order.drop_first(), a, b)
    }
}

/// The order list after a removal: every occurrence of `a` dropped.
pub open spec fn remove_all(order: Seq<Seq<char>>, a: Seq<char>) -> Seq<Seq<char>>
    decreases order.len(),
{
    if order.len() == 0 {
        order
    } else {
        let rest = remove_all(order.drop_last(), a);
        if order.last() == a {
            rest
        } else {
            rest + seq![order.last()]
        }
    }
}

fn meta_index(meta: &Vec<(String, LayerDesc)>, name: &String) -> (r: Option<usize>)
    ensures
        r matches Some(i) ==> spec_meta_index(meta_view(meta@), name@) == Some(i as int),
        r is None ==> spec_meta_index(meta_view(meta@), name@) is None,
{
    let mut i: usize = 0;
    while i < meta.len()
        invariant
            i <= meta@.len(),
            forall|j: int| 0 <= j < i ==> (#[trigger] meta_view(meta@)[j]).0 != name@,
        decreases meta@.len() - i,
    {
        assert(meta_view(meta@)[i as int].0 == meta@[i as int].0@);
        if meta[i].0 == *name {
            proof {
                lemma_meta_index_found(meta_view(meta@), name@, i as int);
            }
            return Some(i);
        }
        i = i + 1;
    }
    proof {
        lemma_meta_index_none(meta_view(meta@), name@);
    }
    None
}

impl Corpus {
    /// The corpus's schema mirror.
    pub open spec fn meta_v(&self) -> Seq<(Seq<char>, LayerDescV)> {
        meta_view(self.meta@)
    }

    /// The corpus's document order.
    pub open spec fn order_v(&self) -> Seq<Seq<char>> {
        self.order.deep_view()
    }

    /// Open the corpus stored at `path`, loading its schema records and
    /// document order into the mirror.
    #[verifier::loop_isolation(false)]
    pub fn new(path: &str) -> (r: TeangaResult<Corpus>)
        ensures
            r matches Ok(c) ==> c.path@ == path@,
    {
        let conn = match open_store(path) {
            Ok(c) => c,
            Err(e) => {
                return Err(e);
            },
        };
        let prefix = single_key(META_PREFIX);
        let entries = match conn.scan_prefix_all(&prefix) {
            Ok(es) => es,
            Err(e) => {
                return Err(e);
            },
        };
        let mut meta: Vec<(String, LayerDesc)> = Vec::new();
        let mut i: usize = 0;
        while i < entries.len()
            invariant
                i <= entries@.len(),
                forall|j: int|
                    0 <= j < entries@.len() ==> (#[trigger] entries@[j]).0@.len() >= 1,
            decreases entries@.len() - i,
        {
            let key = &entries[i].0;
            let name_bytes = crate::storage::copy_range(key, 1, key.len());
            let name = match crate::storage::bytes_to_string(name_bytes) {
                Ok(s) => s,
                Err(e) => {
                    return Err(e);
                },
            };
            let desc = match decode_desc(&entries[i].1) {
                Ok(d) => d,
                Err(e) => {
                    return Err(e);
                },
            };
            meta.push((name, desc));
            i = i + 1;
        }
        let order_key = single_key(ORDER_KEY);
        let order = match conn.get(&order_key) {
            Err(e) => {
                return Err(e);
            },
            Ok(Some(bytes)) => {
                match decode_order(&bytes) {
                    Ok(o) => o,
                    Err(e) => {
                        return Err(e);
                    },
                }
            },
            Ok(None) => Vec::new(),
        };
        Ok(Corpus { meta, order, path: String::from_str(path) })
    }

    /// Declare or redeclare a layer. A characters layer must stand on
    /// nothing; every other layer must stand on some base layer; a bare
    /// string or link kind with a value list becomes the closed kind
    /// over it. On success the schema record is stored and the mirror
    /// holds the normalized record under the name; on any error the
    /// mirror is unchanged.
    #[verifier::loop_isolation(false)]
    pub fn add_layer_meta(
        &mut self,
        name: String,
        layer_type: LayerType,
        on: String,
        data: Option<DataType>,
        values: Option<Vec<String>>,
        target: Option<String>,
        default: Option<Vec<String>>,
    ) -> (r: TeangaResult<()>)
        ensures
            ({
                let nd = LayerDescV {
                    layer_type,
                    on: on@,
                    data: normalize_data(
                        match data {
                            Some(d) => Some(d@),
                            None => None,
                        },
                        match values {
                            Some(v) => Some(v.deep_view()),
                            None => None,
                        },
                    ),
                    values: match values {
                        Some(v) => Some(v.deep_view()),
                        None => None,
                    },
                    target: match target {
                        Some(t) => Some(t@),
                        None => None,
                    },
                    default: match default {
                        Some(v) => Some(v.deep_view()),
                        None => None,
                    },
                };
                &&& (r is Err && r->Err_0 is ModelError <==> !desc_wf(nd))
                &&& r is Err ==> *final(self) == *old(self)
                &&& r matches Ok(()) ==> {
                    &&& final(self).meta_v() == meta_set(old(self).meta_v(), name@, nd)
                    &&& final(self).order == old(self).order
                    &&& final(self).path == old(self).path
                }
            }),
    {
        if layer_type == LayerType::characters && !on.as_str().is_empty() {
            return Err(
                TeangaError::ModelError(
                    String::from_str("a characters layer cannot be based on another layer"),
                ),
            );
        }
        if layer_type != LayerType::characters && on.as_str().is_empty() {
            return Err(
                TeangaError::ModelError(
                    String::from_str("a non-characters layer must be based on another layer"),
                ),
            );
        }
        let norm_data: Option<DataType> = match data {
            None => None,
            Some(DataType::String) => match &values {
                Some(v) => Some(DataType::Enum(crate::codec::copy_string_vec(v))),
                None => Some(DataType::String),
            },
            Some(DataType::Link) => match &values {
                Some(v) => Some(DataType::TypedLink(crate::codec::copy_string_vec(v))),
                None => Some(DataType::Link),
            },
            Some(other) => Some(other),
        };
        let desc = LayerDesc { layer_type, on, data: norm_data, values, target, default };
        let conn = match open_store(self.path.as_str()) {
            Ok(c) => c,
            Err(e) => {
                return Err(e);
            },
        };
        let key = text_key(META_PREFIX, name.as_str());
        let bytes = encode_desc(&desc);
        match conn.insert(&key, &bytes) {
            Ok(()) => {},
            Err(e) => {
                return Err(e);
            },
        }
        let ghost old_mv = self.meta_v();
        match meta_index(&self.meta, &name) {
            Some(i) => {
                proof {
                    lemma_meta_index_some(self.meta_v(), name@);
                }
                self.meta.set(i, (name, desc));
                proof {
                    assert(self.meta_v() =~= meta_set(
                        old_mv,
                        self.meta@[i as int].0@,
                        self.meta@[i as int].1@,
                    ));
                }
            },
            None => {
                self.meta.push((name, desc));
                proof {
                    assert(self.meta_v() =~= meta_set(
                        old_mv,
                        self.meta@.last().0@,
                        self.meta@.last().1@,
                    ));
                }
            },
        }
        Ok(())
    }

    /// The document identifiers, in canonical order.
    pub fn get_docs(&self) -> (r: Vec<String>)
        ensures
            r.deep_view() == self.order_v(),
    {
        crate::codec::copy_string_vec(&self.order)
    }
}


/// Encode user-facing content into a stored document: every layer name
/// must be declared (fail fast, before any interning) and pairwise
/// distinct; text values are interned strictly, or freshly when
/// `allow_new` holds. The document's character layers are exactly the
/// content's.
#[verifier::loop_isolation(false)]
fn encode_content(
    conn: &StoreConn,
    meta: &Vec<(String, LayerDesc)>,
    content: &Vec<(String, PyLayer)>,
    allow_new: bool,
) -> (r: TeangaResult<Document>)
    ensures
        r matches Ok(doc) ==> ({
            &&& content_accepted(meta_view(meta@), content_view(content@))
            &&& doc_encodes(meta_view(meta@), content_view(content@), doc@)
            &&& char_entries(doc@) == content_char_entries(content_view(content@))
        }),
{
    let ghost cv = content_view(content@);
    let mut i: usize = 0;
    while i < content.len()
        invariant
            i <= content@.len(),
            forall|k: int| 0 <= k < i ==> spec_meta_index(meta_view(meta@), (#[trigger] cv[k]).0) is Some,
            forall|k: int, l: int| 0 <= k < i && k < l < cv.len() ==> (#[trigger] cv[k]).0 != (#[trigger] cv[l]).0,
        decreases content@.len() - i,
    {
        proof {
            assert(cv[i as int].0 == content@[i as int].0@);
        }
        if meta_index(meta, &content[i].0).is_none() {
            let mut m = String::from_str("layer does not exist: ");
            m.append(content[i].0.as_str());
            return Err(TeangaError::ModelError(m));
        }
        let mut j: usize = i + 1;
        while j < content.len()
            invariant
                i < j <= content@.len(),
                forall|l: int| i < l < j ==> cv[i as int].0 != (#[trigger] cv[l]).0,
            decreases content@.len() - j,
        {
            proof {
                assert(cv[j as int].0 == content@[j as int].0@);
            }
            if content[i].0 == content[j].0 {
                let mut m = String::from_str("duplicate layer in document: ");
                m.append(content[i].0.as_str());
                return Err(TeangaError::ModelError(m));
            }
            j = j + 1;
        }
        i = i + 1;
    }
    let mut doc_content: Vec<(String, Layer)> = Vec::new();
    let ghost dv = Seq::<(Seq<char>, LayerV)>::empty();
    let mut i: usize = 0;
    while i < content.len()
        invariant
            i <= content@.len(),
            doc_content@.len() == i,
            dv == Seq::new(doc_content@.len(), |k: int| (doc_content@[k].0@, doc_content@[k].1@)),
            char_entries(dv) == content_char_entries(cv.subrange(0, i as int)),
            forall|k: int| 0 <= k < i ==> (#[trigger] dv[k]).0 == cv[k].0,
            forall|k: int|
                0 <= k < i ==> enc_ok(
                    (#[trigger] cv[k]).1,
                    meta_view(meta@)[spec_meta_index(meta_view(meta@), cv[k].0)->Some_0].1,
                ),
            forall|k: int|
                0 <= k < i ==> {
                    let d = meta_view(meta@)[spec_meta_index(
                        meta_view(meta@),
                        (#[trigger] cv[k]).0,
                    )->Some_0].1;
                    exists|codes: Seq<u32>|
                        codes.len() == enc_strings(cv[k].1, d).len() && dv[k].1 == #[trigger] enc_val(
                            cv[k].1,
                            d,
                            codes,
                        )
                },
        decreases content@.len() - i,
    {
        let idx = match meta_index(meta, &content[i].0) {
            Some(k) => k,
            None => {
                return Err(
                    TeangaError::ModelError(String::from_str("layer does not exist")),
                );
            },
        };
        proof {
            lemma_meta_index_some(meta_view(meta@), content@[i as int].0@);
        }
        let desc = &meta[idx].1;
        let strs = collect_enc_strings(&content[i].1, desc);
        let mut codes: Vec<u32> = Vec::new();
        let mut j: usize = 0;
        while j < strs.len()
            invariant
                j <= strs@.len(),
                codes@.len() == j,
            decreases strs@.len() - j,
        {
            let code = match lookup_code(conn, &strs[j]) {
                Err(e) => {
                    return Err(e);
                },
                Ok(Some(c)) => c,
                Ok(None) => {
                    if allow_new {
                        match gen_next_id(conn, &strs[j]) {
                            Ok(c) => c,
                            Err(e) => {
                                return Err(e);
                            },
                        }
                    } else {
                        let mut m = String::from_str("string is not in the index: ");
                        m.append(strs[j].as_str());
                        return Err(TeangaError::ModelError(m));
                    }
                },
            };
            codes.push(code);
            j = j + 1;
        }
        let layer = match from_user(&content[i].1, desc, &codes) {
            Ok(l) => l,
            Err(e) => {
                return Err(e);
            },
        };
        let ghost prev = dv;
        doc_content.push((content[i].0.clone(), layer));
        i = i + 1;
        proof {
            lemma_enc_val_characters(content@[i - 1].1@, meta@[idx as int].1@, codes@);
            dv = Seq::new(
                doc_content@.len(),
                |k: int| (doc_content@[k].0@, doc_content@[k].1@),
            );
            assert(cv[i - 1] == (content@[i - 1].0@, content@[i - 1].1@));
            assert(spec_meta_index(meta_view(meta@), cv[i - 1].0) == Some(idx as int));
            assert(meta_view(meta@)[idx as int].1 == meta@[idx as int].1@);
            assert(dv[i - 1].1 == enc_val(cv[i - 1].1, meta_view(meta@)[idx as int].1, codes@));
            assert(codes@.len() == enc_strings(cv[i - 1].1, meta_view(meta@)[idx as int].1).len());
            assert(dv.drop_last() =~= prev);
            assert(dv.last() == (content@[i - 1].0@, layer@));
            assert(cv.subrange(0, i as int).drop_last() =~= cv.subrange(0, i - 1));
            assert(cv.subrange(0, i as int).last() == cv[i - 1]);
            if content@[i - 1].1@ is CharacterLayerV {
                assert(char_entries(dv) =~= content_char_entries(cv.subrange(0, i as int)));
            } else {
                assert(char_entries(dv) =~= content_char_entries(cv.subrange(0, i as int)));
            }
        }
    }
    proof {
        assert(cv.subrange(0, cv.len() as int) =~= cv);
    }
    let doc = Document { content: doc_content };
    proof {
        assert(doc@ == dv);
        assert(content_accepted(meta_view(meta@), cv));
        assert(doc_encodes(meta_view(meta@), cv, doc@));
    }
    Ok(doc)
}

impl Corpus {
    /// Add a document: encode its layers against the schema (interning
    /// strictly: every text value must already be in the index), compute
    /// its content-addressed identifier against the current order,
    /// append it to the order, and store both. On any error the mirror
    /// is unchanged.
    #[verifier::loop_isolation(false)]
    pub fn add_doc(&mut self, content: Vec<(String, PyLayer)>) -> (r: TeangaResult<String>)
        ensures
            r matches Ok(id) ==> ({
                &&& final(self).order_v() == old(self).order_v().push(id@)
                &&& final(self).meta == old(self).meta
                &&& final(self).path == old(self).path
                &&& content_accepted(old(self).meta_v(), content_view(content@))
                &&& id@ == teanga_id_spec(
                    old(self).order_v(),
                    content_char_entries(content_view(content@)),
                )
                &&& id_code(content_char_entries(content_view(content@))).len() == 44
                &&& 4 <= id@.len() <= 44
            }),
            r is Err ==> *final(self) == *old(self),
    {
        let conn = match open_store(self.path.as_str()) {
            Ok(c) => c,
            Err(e) => {
                return Err(e);
            },
        };
        let doc = match encode_content(&conn, &self.meta, &content, false) {
            Ok(d) => d,
            Err(e) => {
                return Err(e);
            },
        };
        let id = teanga_id(&self.order, &doc);
        let mut new_order = crate::codec::copy_string_vec(&self.order);
        new_order.push(id.clone());
        proof {
            assert(new_order.deep_view() =~= old(self).order_v().push(id@));
        }
        let order_key = single_key(ORDER_KEY);
        let order_bytes = encode_order(&new_order);
        match conn.insert(&order_key, &order_bytes) {
            Ok(()) => {},
            Err(e) => {
                return Err(e);
            },
        }
        let dkey = text_key(DOCUMENT_PREFIX, id.as_str());
        let doc_bytes = encode_doc(&doc);
        match conn.insert(&dkey, &doc_bytes) {
            Ok(()) => {},
            Err(e) => {
                return Err(e);
            },
        }
        self.order = new_order;
        Ok(id)
    }

    /// Update the document stored under `id`: encode the new content
    /// (interning freshly when a text value is new), recompute the
    /// identifier, and — when it changed — move the document to the new
    /// identifier, keeping its position in the order. Returns the new
    /// identifier. On any error the mirror is unchanged.
    #[verifier::loop_isolation(false)]
    pub fn update_doc(&mut self, id: &str, content: Vec<(String, PyLayer)>) -> (r: TeangaResult<
        String,
    >)
        ensures
            r matches Ok(nid) ==> ({
                &&& final(self).meta == old(self).meta
                &&& final(self).path == old(self).path
                &&& content_accepted(old(self).meta_v(), content_view(content@))
                &&& nid@ == teanga_id_spec(
                    old(self).order_v(),
                    content_char_entries(content_view(content@)),
                )
                &&& id_code(content_char_entries(content_view(content@))).len() == 44
                &&& 4 <= nid@.len() <= 44
                &&& nid@ == id@ ==> final(self).order == old(self).order
                &&& nid@ != id@ ==> ({
                    &&& old(self).order_v().contains(id@)
                    &&& final(self).order_v() == replace_first(old(self).order_v(), id@, nid@)
                })
            }),
            r is Err ==> *final(self) == *old(self),
    {
        let conn = match open_store(self.path.as_str()) {
            Ok(c) => c,
            Err(e) => {
                return Err(e);
            },
        };
        let doc = match encode_content(&conn, &self.meta, &content, true) {
            Ok(d) => d,
            Err(e) => {
                return Err(e);
            },
        };
        let new_id = teanga_id(&self.order, &doc);
        let id_string = String::from_str(id);
        if !(new_id == id_string) {
            let mut pos: usize = 0;
            let mut found: bool = false;
            let mut k: usize = 0;
            while k < self.order.len()
                invariant
                    k <= self.order@.len(),
                    !found ==> forall|j: int| 0 <= j < k ==> self.order.deep_view()[j] != id@,
                    found ==> pos < k && self.order.deep_view()[pos as int] == id@ && forall|
                        j: int,
                    | 0 <= j < pos ==> self.order.deep_view()[j] != id@,
                decreases self.order@.len() - k,
            {
                if !found {
                    if self.order[k] == id_string {
                        proof {
                            assert(self.order.deep_view()[k as int] == self.order@[k as int]@);
                        }
                        pos = k;
                        found = true;
                    } else {
                        proof {
                            assert(self.order.deep_view()[k as int] == self.order@[k as int]@);
                        }
                    }
                }
                k = k + 1;
            }
            if !found {
                return Err(
                    TeangaError::ModelError(
                        String::from_str("cannot find the document in the order list"),
                    ),
                );
            }
            let mut new_order = crate::codec::copy_string_vec(&self.order);
            new_order.set(pos, new_id.clone());
            proof {
                assert(old(self).order_v()[pos as int] == id@);
                assert(old(self).order_v().contains(id@));
                lemma_replace_first_at(old(self).order_v(), id@, new_id@, pos as int);
                assert(new_order.deep_view() =~= old(self).order_v().update(pos as int, new_id@));
            }
            let order_key = single_key(ORDER_KEY);
            let order_bytes = encode_order(&new_order);
            match conn.insert(&order_key, &order_bytes) {
                Ok(()) => {},
                Err(e) => {
                    return Err(e);
                },
            }
            let old_key = text_key(DOCUMENT_PREFIX, id);
            match conn.remove(&old_key) {
                Ok(()) => {},
                Err(e) => {
                    return Err(e);
                },
            }
            let dkey = text_key(DOCUMENT_PREFIX, new_id.as_str());
            let doc_bytes = encode_doc(&doc);
            match conn.insert(&dkey, &doc_bytes) {
                Ok(()) => {},
                Err(e) => {
                    return Err(e);
                },
            }
            self.order = new_order;
            Ok(new_id)
        } else {
            let dkey = text_key(DOCUMENT_PREFIX, new_id.as_str());
            let doc_bytes = encode_doc(&doc);
            match conn.insert(&dkey, &doc_bytes) {
                Ok(()) => {},
                Err(e) => {
                    return Err(e);
                },
            }
            Ok(new_id)
        }
    }

    /// Remove the document stored under `id`: delete its record and drop
    /// it from the order. On any error the mirror is unchanged.
    #[verifier::loop_isolation(false)]
    pub fn remove_doc(&mut self, id: &str) -> (r: TeangaResult<()>)
        ensures
            r matches Ok(()) ==> ({
                &&& final(self).meta == old(self).meta
                &&& final(self).path == old(self).path
                &&& final(self).order_v() == remove_all(old(self).order_v(), id@)
            }),
            r is Err ==> *final(self) == *old(self),
    {
        let conn = match open_store(self.path.as_str()) {
            Ok(c) => c,
            Err(e) => {
                return Err(e);
            },
        };
        let dkey = text_key(DOCUMENT_PREFIX, id);
        match conn.remove(&dkey) {
            Ok(()) => {},
            Err(e) => {
                return Err(e);
            },
        }
        let id_string = String::from_str(id);
        let mut kept: Vec<String> = Vec::new();
        let mut k: usize = 0;
        while k < self.order.len()
            invariant
                k <= self.order@.len(),
                kept.deep_view() == remove_all(self.order.deep_view().subrange(0, k as int), id@),
            decreases self.order@.len() - k,
        {
            let ghost prev = kept.deep_view();
            proof {
                assert(self.order.deep_view()[k as int] == self.order@[k as int]@);
            }
            if !(self.order[k] == id_string) {
                kept.push(self.order[k].clone());
                proof {
                    assert(kept.deep_view().drop_last() =~= prev);
                    assert(kept.deep_view().last() == self.order.deep_view()[k as int]);
                }
            } else {
                proof {
                    assert(self.order.deep_view()[k as int] == id@);
                }
            }
            k = k + 1;
            proof {
                let pfx = self.order.deep_view().subrange(0, k as int);
                assert(pfx.drop_last() =~= self.order.deep_view().subrange(0, k - 1));
                assert(pfx.last() == self.order.deep_view()[k - 1]);
                assert(kept.deep_view() =~= remove_all(pfx, id@));
            }
        }
        proof {
            assert(self.order.deep_view().subrange(0, self.order@.len() as int)
                =~= self.order.deep_view());
        }
        let order_key = single_key(ORDER_KEY);
        let order_bytes = encode_order(&kept);
        match conn.insert(&order_key, &order_bytes) {
            Ok(()) => {},
            Err(e) => {
                return Err(e);
            },
        }
        self.order = kept;
        Ok(())
    }

    /// Read the document stored under `id` and decode each of its layers
    /// to its user-facing form under the mirror's schema; every returned
    /// layer name is declared in the schema.
    #[verifier::loop_isolation(false)]
    pub fn get_doc_by_id(&self, id: &str) -> (r: TeangaResult<Vec<(String, PyLayer)>>)
        ensures
            r matches Ok(res) ==> forall|i: int|
                0 <= i < res@.len() ==> spec_meta_index(
                    self.meta_v(),
                    (#[trigger] res@[i]).0@,
                ) is Some,
    {
        let conn = match open_store(self.path.as_str()) {
            Ok(c) => c,
            Err(e) => {
                return Err(e);
            },
        };
        let dkey = text_key(DOCUMENT_PREFIX, id);
        let bytes = match conn.get(&dkey) {
            Err(e) => {
                return Err(e);
            },
            Ok(Some(b)) => b,
            Ok(None) => {
                return Err(TeangaError::ModelError(String::from_str("document not found")));
            },
        };
        let doc = match decode_doc(&bytes) {
            Ok(d) => d,
            Err(e) => {
                return Err(e);
            },
        };
        let mut res: Vec<(String, PyLayer)> = Vec::new();
        let mut i: usize = 0;
        while i < doc.content.len()
            invariant
                i <= doc.content@.len(),
                forall|j: int|
                    0 <= j < res@.len() ==> spec_meta_index(
                        self.meta_v(),
                        (#[trigger] res@[j]).0@,
                    ) is Some,
            decreases doc.content@.len() - i,
        {
            let idx = match meta_index(&self.meta, &doc.content[i].0) {
                Some(k) => k,
                None => {
                    let mut m = String::from_str(
                        "stored document contains an undeclared layer: ",
                    );
                    m.append(doc.content[i].0.as_str());
                    return Err(TeangaError::ModelError(m));
                },
            };
            proof {
                lemma_meta_index_some(self.meta_v(), doc.content@[i as int].0@);
            }
            let desc = &self.meta[idx].1;
            let codes = collect_dec_codes(&doc.content[i].1, desc);
            let mut strs: Vec<String> = Vec::new();
            let mut j: usize = 0;
            while j < codes.len()
                invariant
                    j <= codes@.len(),
                    strs@.len() == j,
                decreases codes@.len() - j,
            {
                let s = match resolve_code(&conn, codes[j]) {
                    Ok(s) => s,
                    Err(e) => {
                        return Err(e);
                    },
                };
                strs.push(s);
                j = j + 1;
            }
            let user = match into_user(&doc.content[i].1, desc, &strs) {
                Ok(u) => u,
                Err(e) => {
                    return Err(e);
                },
            };
            res.push((doc.content[i].0.clone(), user));
            i = i + 1;
        }
        Ok(res)
    }

    /// Bulk-load a schema: store every record and replace the mirror.
    #[verifier::loop_isolation(false)]
    pub fn set_meta(&mut self, meta: Vec<(String, LayerDesc)>) -> (r: TeangaResult<()>)
        ensures
            r matches Ok(()) ==> final(self).meta == meta && final(self).order == old(self).order
                && final(self).path == old(self).path,
            r is Err ==> *final(self) == *old(self),
    {
        let conn = match open_store(self.path.as_str()) {
            Ok(c) => c,
            Err(e) => {
                return Err(e);
            },
        };
        let mut i: usize = 0;
        while i < meta.len()
            invariant
                i <= meta@.len(),
            decreases meta@.len() - i,
        {
            let key = text_key(META_PREFIX, meta[i].0.as_str());
            let bytes = encode_desc(&meta[i].1);
            match conn.insert(&key, &bytes) {
                Ok(()) => {},
                Err(e) => {
                    return Err(e);
                },
            }
            i = i + 1;
        }
        self.meta = meta;
        Ok(())
    }

    /// Bulk-load a document order: store it and replace the mirror.
    #[verifier::loop_isolation(false)]
    pub fn set_order(&mut self, order: Vec<String>) -> (r: TeangaResult<()>)
        ensures
            r matches Ok(()) ==> final(self).order == order && final(self).meta == old(self).meta
                && final(self).path == old(self).path,
            r is Err ==> *final(self) == *old(self),
    {
        let conn = match open_store(self.path.as_str()) {
            Ok(c) => c,
            Err(e) => {
                return Err(e);
            },
        };
        let order_key = single_key(ORDER_KEY);
        let order_bytes = encode_order(&order);
        match conn.insert(&order_key, &order_bytes) {
            Ok(()) => {},
            Err(e) => {
                return Err(e);
            },
        }
        self.order = order;
        Ok(())
    }
}

/// Replacing the first occurrence, found at `i`, is the pointwise update
/// at `i`.
pub proof fn lemma_replace_first_at(order: Seq<Seq<char>>, a: Seq<char>, b: Seq<char>, i: int)
    requires
        0 <= i < order.len(),
        order[i] == a,
        forall|j: int| 0 <= j < i ==> order[j] != a,
    ensures
        replace_first(order, a, b) == order.update(i, b),
    decreases order.len(),
{
    if order[0] == a {
        assert(i == 0);
        assert(replace_first(order, a, b) =~= order.update(0, b));
    } else {
        lemma_replace_first_at(order.drop_first(), a, b, i - 1);
        assert(replace_first(order, a, b) =~= order.update(i, b)) by {
            assert(replace_first(order, a, b) == seq![order[0]] + replace_first(
                order.drop_first(),
                a,
                b,
            ));
            assert(seq![order[0]] + order.drop_first().update(i - 1, b) =~= order.update(i, b));
        }
    }
}

} // verus!
