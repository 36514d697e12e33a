use vstd::prelude::*;
use vstd::relations::{sorted_by, total_ordering};
use vstd::seq_lib::lemma_sorted_unique;
use vstd::multiset::Multiset;
use vstd::string::{StrSliceExecFns, StringExecFns};
use crate::model::{Document, Layer, LayerV};
use crate::error::TeangaResult;
use base64::Engine;
use sha2::Digest;

verus! {

broadcast use vstd::seq_lib::group_to_multiset_ensures, vstd::multiset::group_multiset_axioms;

// ---------------------------------------------------------------------------
// Trusted digests.
// ---------------------------------------------------------------------------

/// The SHA-256 digest of a byte sequence: a function of the bytes alone.
pub uninterp spec fn sha256_of(data: Seq<u8>) -> Seq<u8>;

/// Relies on sha2's Sha256: a 32-byte digest that depends on the input
/// bytes alone.
#[verifier::external_body]
fn sha256(data: &Vec<u8>) -> (r: Vec<u8>)
    ensures
        r@ == sha256_of(data@),
        r@.len() == 32,
{
    sha2::Sha256::digest(data.as_slice()).to_vec()
}

/// The padded standard-alphabet base64 rendering of a byte sequence: a
/// function of the bytes alone.
pub uninterp spec fn base64_of(data: Seq<u8>) -> Seq<char>;

/// Relies on base64's STANDARD engine: padded encoding over the standard
/// alphabet, four characters for every started group of three bytes,
/// depending on the input alone.
#[verifier::external_body]
fn base64_encode(data: &Vec<u8>) -> (r: String)
    ensures
        r@ == base64_of(data@),
        r@.len() == 4 * ((data@.len() + 2) / 3),
{
    base64::engine::general_purpose::STANDARD.encode(data.as_slice())
}

// ---------------------------------------------------------------------------
// Lexicographic order on character sequences, and on (name, text) pairs.
// ---------------------------------------------------------------------------

/// `a` comes no later than `b` in lexicographic order of scalar values.
pub open spec fn lex_leq(a: Seq<char>, b: Seq<char>) -> bool
    decreases a.len(),
{
    if a.len() == 0 {
        true
    } else if b.len() == 0 {
        false
    } else if a[0] != b[0] {
        (a[0] as u32) < (b[0] as u32)
    } else {
        lex_leq(a.drop_first(), b.drop_first())
    }
}

pub proof fn lemma_lex_leq_connected(a: Seq<char>, b: Seq<char>)
    ensures
        lex_leq(a, b) || lex_leq(b, a),
    decreases a.len(),
{
    if a.len() > 0 && b.len() > 0 {
        if a[0] == b[0] {
            lemma_lex_leq_connected(a.drop_first(), b.drop_first());
        } else {
            vstd::utf8::char_u32_cast(a[0], a[0] as u32);
            vstd::utf8::char_u32_cast(b[0], b[0] as u32);
            assert((a[0] as u32) != (b[0] as u32));
        }
    }
}

pub proof fn lemma_lex_leq_antisymmetric(a: Seq<char>, b: Seq<char>)
    requires
        lex_leq(a, b),
        lex_leq(b, a),
    ensures
        a == b,
    decreases a.len(),
{
    if a.len() == 0 {
        assert(b.len() == 0);
        assert(a =~= b);
    } else {
        assert(a[0] == b[0]);
        lemma_lex_leq_antisymmetric(a.drop_first(), b.drop_first());
        assert(a =~= seq![a[0]] + a.drop_first());
        assert(b =~= seq![b[0]] + b.drop_first());
    }
}

pub proof fn lemma_lex_leq_transitive(a: Seq<char>, b: Seq<char>, c: Seq<char>)
    requires
        lex_leq(a, b),
        lex_leq(b, c),
    ensures
        lex_leq(a, c),
    decreases a.len(),
{
    if a.len() > 0 && b.len() > 0 && c.len() > 0 && a[0] == b[0] && b[0] == c[0] {
        lemma_lex_leq_transitive(a.drop_first(), b.drop_first(), c.drop_first());
    }
}

/// Order on (layer name, text) pairs: by name, ties broken by text.
pub open spec fn entry_leq(x: (Seq<char>, Seq<char>), y: (Seq<char>, Seq<char>)) -> bool {
    if x.0 != y.0 {
        lex_leq(x.0, y.0)
    } else {
        lex_leq(x.1, y.1)
    }
}

/// The pair order as one closure value, shared by every use.
pub open spec fn entry_order() -> spec_fn((Seq<char>, Seq<char>), (Seq<char>, Seq<char>)) -> bool {
    |x: (Seq<char>, Seq<char>), y: (Seq<char>, Seq<char>)| entry_leq(x, y)
}

pub proof fn lemma_entry_leq_refl(x: (Seq<char>, Seq<char>))
    ensures
        entry_leq(x, x),
{
    lemma_lex_leq_connected(x.1, x.1);
}

pub proof fn lemma_entry_leq_connected(x: (Seq<char>, Seq<char>), y: (Seq<char>, Seq<char>))
    ensures
        entry_leq(x, y) || entry_leq(y, x),
{
    lemma_lex_leq_connected(x.0, y.0);
    lemma_lex_leq_connected(x.1, y.1);
}

pub proof fn lemma_entry_leq_antisymmetric(x: (Seq<char>, Seq<char>), y: (Seq<char>, Seq<char>))
    requires
        entry_leq(x, y),
        entry_leq(y, x),
    ensures
        x == y,
{
    if x.0 != y.0 {
        lemma_lex_leq_antisymmetric(x.0, y.0);
    } else {
        lemma_lex_leq_antisymmetric(x.1, y.1);
    }
}

pub proof fn lemma_entry_leq_transitive(
    x: (Seq<char>, Seq<char>),
    y: (Seq<char>, Seq<char>),
    z: (Seq<char>, Seq<char>),
)
    requires
        entry_leq(x, y),
        entry_leq(y, z),
    ensures
        entry_leq(x, z),
{
    if x.0 == y.0 && y.0 == z.0 {
        lemma_lex_leq_transitive(x.1, y.1, z.1);
    } else if x.0 == y.0 {
    } else if y.0 == z.0 {
    } else {
        lemma_lex_leq_transitive(x.0, y.0, z.0);
        if x.0 == z.0 {
            lemma_lex_leq_antisymmetric(x.0, y.0);
        }
    }
}

/// The pair order is a total order, so a list of pairs has exactly one
/// sorted arrangement.
pub proof fn lemma_entry_leq_total_ordering()
    ensures
        total_ordering(entry_order()),
{
    let leq = entry_order();
    assert forall|x: (Seq<char>, Seq<char>)| #[trigger] leq(x, x) by {
        lemma_entry_leq_refl(x);
    }
    assert forall|x: (Seq<char>, Seq<char>), y: (Seq<char>, Seq<char>)|
        #[trigger] leq(x, y) && #[trigger] leq(y, x) implies x == y by {
        lemma_entry_leq_antisymmetric(x, y);
    }
    assert forall|x: (Seq<char>, Seq<char>), y: (Seq<char>, Seq<char>), z: (Seq<char>, Seq<char>)|
        #[trigger] leq(x, y) && #[trigger] leq(y, z) implies leq(x, z) by {
        lemma_entry_leq_transitive(x, y, z);
    }
    assert forall|x: (Seq<char>, Seq<char>), y: (Seq<char>, Seq<char>)| #[trigger] leq(x, y) || #[trigger] leq(
        y,
        x,
    ) by {
        lemma_entry_leq_connected(x, y);
    }
}

/// Whether `a` comes no later than `b`, decided character by character.
fn lex_le_str(a: &str, b: &str) -> (r: bool)
    ensures
        r == lex_leq(a@, b@),
{
    let alen = a.unicode_len();
    let blen = b.unicode_len();
    let mut i: usize = 0;
    proof {
        assert(a@.skip(0) =~= a@);
        assert(b@.skip(0) =~= b@);
    }
    while i < alen && i < blen
        invariant
            i <= alen,
            i <= blen,
            alen == a@.len(),
            blen == b@.len(),
            forall|j: int| 0 <= j < i ==> a@[j] == b@[j],
            lex_leq(a@, b@) == lex_leq(a@.skip(i as int), b@.skip(i as int)),
        decreases alen - i,
    {
        let ca = a.get_char(i);
        let cb = b.get_char(i);
        if ca != cb {
            proof {
                assert(a@.skip(i as int)[0] == ca);
                assert(b@.skip(i as int)[0] == cb);
            }
            return (ca as u32) < (cb as u32);
        }
        i = i + 1;
        proof {
            assert(a@.skip(i - 1).drop_first() =~= a@.skip(i as int));
            assert(b@.skip(i - 1).drop_first() =~= b@.skip(i as int));
        }
    }
    proof {
        if i >= alen {
            assert(a@.skip(i as int).len() == 0);
        } else {
            assert(b@.skip(i as int).len() == 0);
            assert(a@.skip(i as int).len() > 0);
        }
    }
    alen <= blen
}

/// Whether entry `x` comes no later than entry `y`.
fn entry_le(x: &(String, String), y: &(String, String)) -> (r: bool)
    ensures
        r == entry_leq(x.deep_view(), y.deep_view()),
{
    if x.0 == y.0 {
        lex_le_str(x.1.as_str(), y.1.as_str())
    } else {
        lex_le_str(x.0.as_str(), y.0.as_str())
    }
}

/// Sort entries by name, ties broken by text: repeatedly move the least
/// remaining entry to the output.
#[verifier::loop_isolation(false)]
fn sort_entries(input: Vec<(String, String)>) -> (r: Vec<(String, String)>)
    ensures
        sorted_by(r.deep_view(), entry_order()),
        r.deep_view().to_multiset() == input.deep_view().to_multiset(),
{
    let ghost leq = entry_order();
    let mut rest = input;
    let mut out: Vec<(String, String)> = Vec::new();
    proof {
        assert(out.deep_view().to_multiset().add(rest.deep_view().to_multiset())
            =~= input.deep_view().to_multiset());
    }
    while rest.len() > 0
        invariant
            out.deep_view().to_multiset().add(rest.deep_view().to_multiset())
                == input.deep_view().to_multiset(),
            sorted_by(out.deep_view(), leq),
            forall|i: int, j: int|
                0 <= i < out.deep_view().len() && 0 <= j < rest.deep_view().len() ==> leq(
                    #[trigger] out.deep_view()[i],
                    #[trigger] rest.deep_view()[j],
                ),
        decreases rest@.len(),
    {
        let mut m: usize = 0;
        let mut k: usize = 1;
        proof {
            lemma_entry_leq_refl(rest.deep_view()[0]);
        }
        while k < rest.len()
            invariant
                m < k <= rest@.len(),
                rest@.len() > 0,
                forall|j: int|
                    0 <= j < k ==> leq(rest.deep_view()[m as int], #[trigger] rest.deep_view()[j]),
            decreases rest@.len() - k,
        {
            if entry_le(&rest[k], &rest[m]) {
                proof {
                    assert forall|j: int| 0 <= j < k + 1 implies leq(
                        rest.deep_view()[k as int],
                        #[trigger] rest.deep_view()[j],
                    ) by {
                        if j == k {
                            lemma_entry_leq_refl(rest.deep_view()[k as int]);
                        } else {
                            lemma_entry_leq_transitive(
                                rest.deep_view()[k as int],
                                rest.deep_view()[m as int],
                                rest.deep_view()[j],
                            );
                        }
                    }
                }
                m = k;
            } else {
                proof {
                    lemma_entry_leq_connected(
                        rest.deep_view()[m as int],
                        rest.deep_view()[k as int],
                    );
                }
            }
            k = k + 1;
        }
        let ghost old_out = out.deep_view();
        let ghost old_rest = rest.deep_view();
        proof {
            assert forall|i: int, j: int|
                0 <= i < old_out.len() && 0 <= j < old_rest.len() implies leq(
                #[trigger] old_out[i],
                #[trigger] old_rest[j],
            ) by {
                assert(leq(out.deep_view()[i], rest.deep_view()[j]));
            }
            assert(sorted_by(old_out, leq));
        }
        let e = rest.remove(m);
        out.push(e);
        proof {
            assert(e.deep_view() == old_rest[m as int]);
            assert(out.deep_view() =~= old_out.push(e.deep_view()));
            assert(rest.deep_view() =~= old_rest.remove(m as int));
            assert(out.deep_view().to_multiset() =~= old_out.to_multiset().insert(e.deep_view()));
            assert(rest.deep_view().to_multiset() =~= old_rest.to_multiset().remove(e.deep_view()));
            assert(old_rest.to_multiset().contains(e.deep_view()));
            assert(out.deep_view().to_multiset().add(rest.deep_view().to_multiset())
                =~= input.deep_view().to_multiset());
            assert forall|i: int, j: int|
                0 <= i < out.deep_view().len() && 0 <= j < rest.deep_view().len() implies leq(
                #[trigger] out.deep_view()[i],
                #[trigger] rest.deep_view()[j],
            ) by {
                if j < m {
                    assert(rest.deep_view()[j] == old_rest[j]);
                } else {
                    assert(rest.deep_view()[j] == old_rest[j + 1]);
                }
                if i < old_out.len() {
                    lemma_entry_leq_transitive(
                        out.deep_view()[i],
                        e.deep_view(),
                        rest.deep_view()[j],
                    );
                } else {
                    assert(out.deep_view()[i] == e.deep_view());
                }
            }
            assert forall|i: int, j: int|
                0 <= i <= j < out.deep_view().len() implies leq(
                #[trigger] out.deep_view()[i],
                #[trigger] out.deep_view()[j],
            ) by {
                if j < old_out.len() {
                    if i == j {
                        lemma_entry_leq_refl(old_out[i]);
                    } else {
                        assert(leq(old_out[i], old_out[j]));
                    }
                } else if i < j {
                    assert(leq(old_out[i], old_rest[m as int]));
                } else {
                    lemma_entry_leq_refl(out.deep_view()[i]);
                }
            }
        }
    }
    proof {
        assert(rest.deep_view().to_multiset() =~= Multiset::<(Seq<char>, Seq<char>)>::empty());
        assert(out.deep_view().to_multiset().add(Multiset::empty()) =~= out.deep_view().to_multiset());
    }
    out
}


// ---------------------------------------------------------------------------
// The content-addressed identifier.
// ---------------------------------------------------------------------------

/// The (name, text) pairs of a document's character layers, in document
/// order.
pub open spec fn char_entries(content: Seq<(Seq<char>, LayerV)>) -> Seq<(Seq<char>, Seq<char>)>
    decreases content.len(),
{
    if content.len() == 0 {
        Seq::empty()
    } else {
        let rest = char_entries(content.drop_last());
        match content.last().1 {
            LayerV::CharactersV(text) => rest + seq![(content.last().0, text)],
            _ => rest,
        }
    }
}

/// The bytes hashed for a document: for each character layer, its name's
/// bytes, a zero, its text's bytes, a zero.
pub open spec fn hash_input(entries: Seq<(Seq<char>, Seq<char>)>) -> Seq<u8>
    decreases entries.len(),
{
    if entries.len() == 0 {
        Seq::empty()
    } else {
        hash_input(entries.drop_last()) + vstd::utf8::encode_utf8(entries.last().0) + seq![0u8]
            + vstd::utf8::encode_utf8(entries.last().1) + seq![0u8]
    }
}

/// The full base64 code of a document's character entries, sorted,
/// hashed and rendered.
pub open spec fn id_code(entries: Seq<(Seq<char>, Seq<char>)>) -> Seq<char> {
    base64_of(sha256_of(hash_input(entries.sort_by(entry_order()))))
}

/// The length of the identifier: the first prefix length from `n` up at
/// which the code's prefix is absent from the existing identifiers, or
/// the code's full length when every prefix collides.
pub open spec fn shortest_free_len(existing: Seq<Seq<char>>, code: Seq<char>, n: nat) -> nat
    decreases code.len() - n,
{
    if n >= code.len() {
        code.len()
    } else if !existing.contains(code.subrange(0, n as int)) {
        n
    } else {
        shortest_free_len(existing, code, n + 1)
    }
}

/// The identifier of a document against a set of existing identifiers:
/// the shortest non-colliding prefix of its code, at least four
/// characters.
pub open spec fn teanga_id_spec(
    existing: Seq<Seq<char>>,
    entries: Seq<(Seq<char>, Seq<char>)>,
) -> Seq<char> {
    let code = id_code(entries);
    code.subrange(0, shortest_free_len(existing, code, 4) as int)
}

pub proof fn lemma_shortest_free_len_props(existing: Seq<Seq<char>>, code: Seq<char>, n: nat)
    requires
        n <= code.len(),
    ensures
        n <= shortest_free_len(existing, code, n) <= code.len(),
        shortest_free_len(existing, code, n) < code.len() ==> !existing.contains(
            code.subrange(0, shortest_free_len(existing, code, n) as int),
        ),
        forall|m: nat|
            n <= m < shortest_free_len(existing, code, n) ==> existing.contains(
                #[trigger] code.subrange(0, m as int),
            ),
    decreases code.len() - n,
{
    if n < code.len() && existing.contains(code.subrange(0, n as int)) {
        lemma_shortest_free_len_props(existing, code, n + 1);
    }
}

fn contains_string(v: &Vec<String>, s: &String) -> (r: bool)
    ensures
        r == v.deep_view().contains(s@),
{
    let mut i: usize = 0;
    while i < v.len()
        invariant
            i <= v@.len(),
            v.deep_view().len() == v@.len(),
            forall|j: int| 0 <= j < i ==> v.deep_view()[j] != s@,
        decreases v@.len() - i,
    {
        if v[i] == *s {
            proof {
                assert(v.deep_view()[i as int] == s@);
            }
            return true;
        }
        i = i + 1;
    }
    false
}

/// The content-addressed identifier of a document: hash its character
/// layers in sorted order, render the digest as base64, and take the
/// shortest prefix of at least four characters that is absent from
/// `existing` (the full code if every prefix collides).
#[verifier::loop_isolation(false)]
pub fn teanga_id(existing: &Vec<String>, doc: &Document) -> (r: String)
    ensures
        r@ == teanga_id_spec(existing.deep_view(), char_entries(doc@)),
        id_code(char_entries(doc@)).len() == 44,
        4 <= r@.len() <= 44,
{
    let mut entries: Vec<(String, String)> = Vec::new();
    let mut i: usize = 0;
    while i < doc.content.len()
        invariant
            i <= doc.content@.len(),
            doc@.len() == doc.content@.len(),
            entries.deep_view() == char_entries(doc@.subrange(0, i as int)),
        decreases doc.content@.len() - i,
    {
        let ghost prev = entries.deep_view();
        proof {
            assert(doc@[i as int] == (doc.content@[i as int].0@, doc.content@[i as int].1@));
        }
        match &doc.content[i].1 {
            Layer::Characters(text) => {
                entries.push((doc.content[i].0.clone(), text.clone()));
                proof {
                    assert(entries.deep_view().drop_last() =~= prev);
                    assert(entries.deep_view() =~= prev + seq![
                        (doc@[i as int].0, doc@[i as int].1->CharactersV_0),
                    ]);
                }
            },
            _ => {},
        }
        i = i + 1;
        proof {
            assert(doc@.subrange(0, i as int).drop_last() =~= doc@.subrange(0, i - 1));
            assert(doc@.subrange(0, i as int).last() == doc@[i - 1]);
            assert(entries.deep_view() =~= char_entries(doc@.subrange(0, i as int)));
        }
    }
    proof {
        assert(doc@.subrange(0, doc@.len() as int) =~= doc@);
    }
    let sorted = sort_entries(entries);
    proof {
        lemma_entry_leq_total_ordering();
        char_entries(doc@).lemma_sort_by_ensures(entry_order());
        lemma_sorted_unique(
            sorted.deep_view(),
            char_entries(doc@).sort_by(entry_order()),
            entry_order(),
        );
    }
    let mut bytes: Vec<u8> = Vec::new();
    let mut i: usize = 0;
    while i < sorted.len()
        invariant
            i <= sorted@.len(),
            sorted.deep_view().len() == sorted@.len(),
            bytes@ == hash_input(sorted.deep_view().subrange(0, i as int)),
        decreases sorted@.len() - i,
    {
        proof {
            assert(sorted.deep_view()[i as int] == (sorted@[i as int].0@, sorted@[i as int].1@));
        }
        let name_bytes = sorted[i].0.as_str().as_bytes_vec();
        push_bytes_local(&mut bytes, &name_bytes);
        bytes.push(0u8);
        let text_bytes = sorted[i].1.as_str().as_bytes_vec();
        push_bytes_local(&mut bytes, &text_bytes);
        bytes.push(0u8);
        i = i + 1;
        proof {
            assert(sorted.deep_view().subrange(0, i as int).drop_last() =~= sorted.deep_view()
                .subrange(0, i - 1));
            assert(bytes@ =~= hash_input(sorted.deep_view().subrange(0, i as int)));
        }
    }
    proof {
        assert(sorted.deep_view().subrange(0, sorted@.len() as int) =~= sorted.deep_view());
    }
    let digest = sha256(&bytes);
    let code = base64_encode(&digest);
    proof {
        assert(code@ == id_code(char_entries(doc@)));
    }
    let clen = code.as_str().unicode_len();
    let mut n: usize = 4;
    proof {
        assert(clen == 44);
    }
    loop
        invariant
            4 <= n <= clen,
            clen == code@.len(),
            code@ == id_code(char_entries(doc@)),
            shortest_free_len(existing.deep_view(), code@, 4) == shortest_free_len(
                existing.deep_view(),
                code@,
                n as nat,
            ),
        decreases clen - n,
    {
        if n >= clen {
            let r = String::from_str(code.as_str());
            proof {
                assert(shortest_free_len(existing.deep_view(), code@, n as nat) == code@.len());
                assert(code@.subrange(0, code@.len() as int) =~= code@);
            }
            return r;
        }
        let pre = String::from_str(code.as_str().substring_char(0, n));
        if !contains_string(existing, &pre) {
            proof {
                assert(shortest_free_len(existing.deep_view(), code@, n as nat) == n);
            }
            return pre;
        }
        n = n + 1;
    }
}

fn push_bytes_local(out: &mut Vec<u8>, b: &Vec<u8>)
    ensures
        final(out)@ == old(out)@ + b@,
{
    let mut i: usize = 0;
    while i < b.len()
        invariant
            i <= b@.len(),
            out@ == old(out)@ + b@.subrange(0, i as int),
        decreases b@.len() - i,
    {
        out.push(b[i]);
        i = i + 1;
        proof {
            assert(out@ =~= old(out)@ + b@.subrange(0, i as int));
        }
    }
    proof {
        assert(old(out)@ + b@.subrange(0, b@.len() as int) =~= old(out)@ + b@);
    }
}

/// The identifier is a pure function of the document's character layers:
/// two documents whose character layers agree as a collection get the
/// same identifier, whatever their other layers and their order.
pub proof fn lemma_id_of_char_layers(
    existing: Seq<Seq<char>>,
    e1: Seq<(Seq<char>, Seq<char>)>,
    e2: Seq<(Seq<char>, Seq<char>)>,
)
    requires
        e1.to_multiset() == e2.to_multiset(),
    ensures
        teanga_id_spec(existing, e1) == teanga_id_spec(existing, e2),
{
    lemma_entry_leq_total_ordering();
    e1.lemma_sort_by_ensures(entry_order());
    e2.lemma_sort_by_ensures(entry_order());
    lemma_sorted_unique(e1.sort_by(entry_order()), e2.sort_by(entry_order()), entry_order());
}

/// Collision growth: when the four-character prefix of a document's code
/// already names another document, the identifier is longer, and — short
/// of exhausting the code — absent from the existing identifiers.
pub proof fn lemma_id_collision_growth(
    existing: Seq<Seq<char>>,
    entries: Seq<(Seq<char>, Seq<char>)>,
)
    requires
        id_code(entries).len() >= 5,
        existing.contains(id_code(entries).subrange(0, 4)),
    ensures
        teanga_id_spec(existing, entries).len() >= 5,
        teanga_id_spec(existing, entries).len() < id_code(entries).len() ==> !existing.contains(
            teanga_id_spec(existing, entries),
        ),
{
    let code = id_code(entries);
    lemma_shortest_free_len_props(existing, code, 4);
    assert(shortest_free_len(existing, code, 4) == shortest_free_len(existing, code, 5));
}

} // verus!
