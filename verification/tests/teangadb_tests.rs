use teangadb::codec::{from_user, into_user};
use teangadb::corpus::gen_next_id;
use teangadb::model::{DataType, Document, Layer, LayerDesc, LayerType, PyLayer};
use teangadb::pack::{ceil_log2, pack_typed_link, unpack_typed_link};
use teangadb::id::teanga_id;
use teangadb::storage::{decode_desc, decode_doc, encode_desc, encode_doc};
use teangadb::store::StoreConn;
use teangadb::{Corpus, TeangaError};

fn temp_conn() -> StoreConn {
    StoreConn {
        db: sled::Config::new().temporary(true).open().unwrap(),
    }
}

/// A corpus at `path` with any documents of earlier runs removed.
fn fresh_corpus(path: &str) -> Corpus {
    let mut corpus = Corpus::new(path).unwrap();
    let ids = corpus.get_docs();
    for id in ids {
        corpus.remove_doc(&id).unwrap();
    }
    corpus
}

#[test]
fn test_teanga_id_1() {
    let existing_keys = Vec::new();
    let doc = Document {
        content: vec![(
            "text".to_string(),
            Layer::Characters("This is a document.".to_string()),
        )],
    };
    let expected = "Kjco";
    assert_eq!(teanga_id(&existing_keys, &doc), expected);
}

#[test]
fn test_gen_next_id() {
    let conn = temp_conn();
    assert_eq!(1, gen_next_id(&conn, &"A".to_string()).unwrap());
    assert_eq!(2, gen_next_id(&conn, &"B".to_string()).unwrap());
}

#[test]
fn interning_gives_distinct_codes_and_counts_them() {
    let conn = temp_conn();
    let a = gen_next_id(&conn, &"alpha".to_string()).unwrap();
    let b = gen_next_id(&conn, &"beta".to_string()).unwrap();
    let c = gen_next_id(&conn, &"gamma".to_string()).unwrap();
    assert_eq!(a, 1);
    assert_eq!(b, 2);
    assert_eq!(c, 3);
    assert!(a != b && b != c && a != c);
    // the durable counter ends at the number of interned strings
    let counter = conn.get(&vec![0x05u8]).unwrap().unwrap();
    assert_eq!(counter, vec![0u8, 0, 0, 3]);
    // both directions of the mapping are stored
    let mut str_key = vec![0x02u8];
    str_key.extend("beta".as_bytes());
    assert_eq!(conn.get(&str_key).unwrap().unwrap(), vec![0u8, 0, 0, 2]);
    let id_key = vec![0x01u8, 0, 0, 0, 2];
    assert_eq!(conn.get(&id_key).unwrap().unwrap(), "beta".as_bytes().to_vec());
}

#[test]
fn schema_validation_rejects_bad_on() {
    let mut corpus = fresh_corpus("/tmp/teangadb_test_schema");
    let err = corpus
        .add_layer_meta(
            "tok".to_string(),
            LayerType::seq,
            String::new(),
            None,
            None,
            None,
            None,
        )
        .unwrap_err();
    assert!(err.is_model_error());
    let err = corpus
        .add_layer_meta(
            "text".to_string(),
            LayerType::characters,
            "text".to_string(),
            None,
            None,
            None,
            None,
        )
        .unwrap_err();
    assert!(err.is_model_error());
}

#[test]
fn end_to_end_scenario() {
    let mut corpus = fresh_corpus("/tmp/teangadb_test_e2e");
    corpus
        .add_layer_meta(
            "text".to_string(),
            LayerType::characters,
            String::new(),
            None,
            None,
            None,
            None,
        )
        .unwrap();
    let id = corpus
        .add_doc(vec![("text".to_string(), PyLayer::CharacterLayer("hi".to_string()))])
        .unwrap();
    assert_eq!(id.chars().count(), 4);
    assert_eq!(corpus.get_docs(), vec![id.clone()]);
    let doc = corpus.get_doc_by_id(&id).unwrap();
    assert_eq!(
        doc,
        vec![("text".to_string(), PyLayer::CharacterLayer("hi".to_string()))]
    );
    corpus.remove_doc(&id).unwrap();
    assert_eq!(corpus.get_docs(), Vec::<String>::new());
}

#[test]
fn update_migrates_the_identifier() {
    let mut corpus = fresh_corpus("/tmp/teangadb_test_update");
    corpus
        .add_layer_meta(
            "text".to_string(),
            LayerType::characters,
            String::new(),
            None,
            None,
            None,
            None,
        )
        .unwrap();
    let x = corpus
        .add_doc(vec![("text".to_string(), PyLayer::CharacterLayer("a".to_string()))])
        .unwrap();
    assert_eq!(corpus.get_docs(), vec![x.clone()]);
    let y = corpus
        .update_doc(&x, vec![("text".to_string(), PyLayer::CharacterLayer("b".to_string()))])
        .unwrap();
    assert_ne!(x, y);
    // the new identifier stands where the old one stood
    assert_eq!(corpus.get_docs(), vec![y.clone()]);
    let doc = corpus.get_doc_by_id(&y).unwrap();
    assert_eq!(
        doc,
        vec![("text".to_string(), PyLayer::CharacterLayer("b".to_string()))]
    );
    assert!(corpus.get_doc_by_id(&x).unwrap_err().is_model_error());
    corpus.remove_doc(&y).unwrap();
}

#[test]
fn identifier_ignores_non_character_layers() {
    let doc1 = Document {
        content: vec![
            ("text".to_string(), Layer::Characters("abc".to_string())),
            ("tok".to_string(), Layer::SeqData(vec![1, 2, 3])),
        ],
    };
    let doc2 = Document {
        content: vec![
            ("tok".to_string(), Layer::SeqData(vec![9])),
            ("text".to_string(), Layer::Characters("abc".to_string())),
        ],
    };
    let none: Vec<String> = Vec::new();
    assert_eq!(teanga_id(&none, &doc1), teanga_id(&none, &doc2));
}

#[test]
fn identifier_lengthens_on_collision() {
    let doc = Document {
        content: vec![(
            "text".to_string(),
            Layer::Characters("This is a document.".to_string()),
        )],
    };
    let none: Vec<String> = Vec::new();
    let four = teanga_id(&none, &doc);
    assert_eq!(four, "Kjco");
    let existing = vec!["Kjco".to_string()];
    let five = teanga_id(&existing, &doc);
    assert_eq!(five.chars().count(), 5);
    assert!(five.starts_with("Kjco"));
    assert!(!existing.contains(&five));
}

#[test]
fn typed_link_packing_round_trips() {
    let b = ceil_log2(3);
    assert_eq!(b, 2);
    let code = pack_typed_link(5, 2, b).unwrap();
    assert_eq!(code, (5 << 2) | 2);
    assert_eq!(unpack_typed_link(code, b), (5, 2));
    // a target too wide for the remaining bits is refused
    assert_eq!(pack_typed_link(u32::MAX, 2, b), None);
    assert_eq!(ceil_log2(1), 0);
    assert_eq!(ceil_log2(2), 1);
    assert_eq!(ceil_log2(4), 2);
    assert_eq!(ceil_log2(5), 3);
}

#[test]
fn enum_layer_round_trips() {
    let desc = LayerDesc {
        layer_type: LayerType::seq,
        on: "text".to_string(),
        data: Some(DataType::Enum(vec!["N".to_string(), "V".to_string()])),
        values: None,
        target: None,
        default: None,
    };
    let user = PyLayer::LS(vec!["V".to_string(), "N".to_string(), "V".to_string()]);
    let stored = from_user(&user, &desc, &Vec::new()).unwrap();
    match &stored {
        Layer::SeqData(v) => assert_eq!(v, &vec![1, 0, 1]),
        other => panic!("unexpected stored shape: {:?}", other),
    }
    let back = into_user(&stored, &desc, &Vec::new()).unwrap();
    assert_eq!(back, user);
    // a value outside the vocabulary is refused
    let bad = PyLayer::LS(vec!["ADJ".to_string()]);
    assert!(from_user(&bad, &desc, &Vec::new()).unwrap_err().is_model_error());
    // an index outside the vocabulary is refused on decode
    let corrupt = Layer::SeqData(vec![7]);
    assert!(into_user(&corrupt, &desc, &Vec::new()).unwrap_err().is_model_error());
}

#[test]
fn typed_link_layer_round_trips() {
    let desc = LayerDesc {
        layer_type: LayerType::div,
        on: "text".to_string(),
        data: Some(DataType::TypedLink(vec![
            "nsubj".to_string(),
            "obj".to_string(),
            "root".to_string(),
        ])),
        values: None,
        target: None,
        default: None,
    };
    let user = PyLayer::L2S(vec![(1, 7, "root".to_string()), (4, 0, "nsubj".to_string())]);
    let stored = from_user(&user, &desc, &Vec::new()).unwrap();
    match &stored {
        Layer::Div(v) => assert_eq!(v, &vec![(1, (7 << 2) | 2), (4, 0)]),
        other => panic!("unexpected stored shape: {:?}", other),
    }
    let back = into_user(&stored, &desc, &Vec::new()).unwrap();
    assert_eq!(back, user);
}

#[test]
fn string_layers_intern_and_resolve() {
    let path = "/tmp/teangadb_test_intern";
    {
        // interned strings are permanent by design: clear the two this
        // test relies on being unknown, in case of an earlier run
        let conn = StoreConn { db: sled::open(path).unwrap() };
        let mut ka = vec![0x02u8];
        ka.extend("a".as_bytes());
        conn.remove(&ka).unwrap();
        let mut kb = vec![0x02u8];
        kb.extend("b".as_bytes());
        conn.remove(&kb).unwrap();
    }
    let mut corpus = fresh_corpus(path);
    corpus
        .add_layer_meta(
            "text".to_string(),
            LayerType::characters,
            String::new(),
            None,
            None,
            None,
            None,
        )
        .unwrap();
    corpus
        .add_layer_meta(
            "words".to_string(),
            LayerType::seq,
            "text".to_string(),
            Some(DataType::String),
            None,
            None,
            None,
        )
        .unwrap();
    // a fresh document may not name unknown vocabulary
    let err = corpus
        .add_doc(vec![
            ("text".to_string(), PyLayer::CharacterLayer("a b".to_string())),
            (
                "words".to_string(),
                PyLayer::LS(vec!["a".to_string(), "b".to_string()]),
            ),
        ])
        .unwrap_err();
    assert!(err.is_model_error());
    // the update path may introduce new vocabulary
    let id = corpus
        .add_doc(vec![("text".to_string(), PyLayer::CharacterLayer("a b".to_string()))])
        .unwrap();
    let new_id = corpus
        .update_doc(
            &id,
            vec![
                ("text".to_string(), PyLayer::CharacterLayer("a b".to_string())),
                (
                    "words".to_string(),
                    PyLayer::LS(vec!["a".to_string(), "b".to_string()]),
                ),
            ],
        )
        .unwrap();
    // the old identifier still stands in the order while the new one is
    // computed, so the unchanged content gets a one-longer prefix
    assert_ne!(id, new_id);
    assert!(new_id.starts_with(&id));
    assert_eq!(corpus.get_docs(), vec![new_id.clone()]);
    let doc = corpus.get_doc_by_id(&new_id).unwrap();
    assert!(doc.contains(&(
        "words".to_string(),
        PyLayer::LS(vec!["a".to_string(), "b".to_string()])
    )));
    corpus.remove_doc(&new_id).unwrap();
}

#[test]
fn unknown_layer_is_rejected_before_any_write() {
    let mut corpus = fresh_corpus("/tmp/teangadb_test_unknown");
    let err = corpus
        .add_doc(vec![("nope".to_string(), PyLayer::L1(vec![1]))])
        .unwrap_err();
    assert!(err.is_model_error());
    assert_eq!(corpus.get_docs(), Vec::<String>::new());
}

#[test]
fn normalization_turns_string_with_values_into_enum() {
    let mut corpus = fresh_corpus("/tmp/teangadb_test_norm");
    corpus
        .add_layer_meta(
            "text".to_string(),
            LayerType::characters,
            String::new(),
            None,
            None,
            None,
            None,
        )
        .unwrap();
    corpus
        .add_layer_meta(
            "pos".to_string(),
            LayerType::seq,
            "text".to_string(),
            Some(DataType::String),
            Some(vec!["N".to_string(), "V".to_string()]),
            None,
            None,
        )
        .unwrap();
    // the layer now behaves as a closed vocabulary: indices, not interned codes
    let id = corpus
        .add_doc(vec![
            ("text".to_string(), PyLayer::CharacterLayer("x y".to_string())),
            ("pos".to_string(), PyLayer::LS(vec!["V".to_string(), "N".to_string()])),
        ])
        .unwrap();
    let doc = corpus.get_doc_by_id(&id).unwrap();
    assert!(doc.contains(&(
        "pos".to_string(),
        PyLayer::LS(vec!["V".to_string(), "N".to_string()])
    )));
    corpus.remove_doc(&id).unwrap();
}

#[test]
fn stored_records_survive_their_encoding() {
    let doc = Document {
        content: vec![
            ("text".to_string(), Layer::Characters("héllo".to_string())),
            ("spans".to_string(), Layer::Span(vec![(0, 2, 9), (3, 5, 1)])),
            ("marks".to_string(), Layer::DivNoData(vec![0, 3])),
        ],
    };
    let bytes = encode_doc(&doc);
    let back = decode_doc(&bytes).unwrap();
    assert_eq!(back.content.len(), 3);
    match &back.content[1].1 {
        Layer::Span(v) => assert_eq!(v, &vec![(0, 2, 9), (3, 5, 1)]),
        other => panic!("unexpected layer: {:?}", other),
    }
    let desc = LayerDesc {
        layer_type: LayerType::span,
        on: "text".to_string(),
        data: Some(DataType::TypedLink(vec!["x".to_string()])),
        values: Some(vec!["x".to_string()]),
        target: Some("text".to_string()),
        default: None,
    };
    let dbytes = encode_desc(&desc);
    let dback = decode_desc(&dbytes).unwrap();
    assert_eq!(dback.on, "text");
    assert_eq!(dback.target, Some("text".to_string()));
    // corrupt records are refused, never trusted
    assert!(matches!(
        decode_desc(&vec![9u8]).unwrap_err(),
        TeangaError::EncodingError
    ));
    let bad_text = vec![0u8, 0, 0, 0, 0, 0, 0, 1, 0, 0, 0, 0, 0, 0, 0, 1, 0xFF];
    assert!(matches!(
        decode_doc(&bad_text).unwrap_err(),
        TeangaError::EncodingTextError
    ));
}

#[test]
fn reopening_finds_schema_and_order() {
    let path = "/tmp/teangadb_test_reopen";
    let id = {
        let mut corpus = fresh_corpus(path);
        corpus
            .add_layer_meta(
                "text".to_string(),
                LayerType::characters,
                String::new(),
                None,
                None,
                None,
                None,
            )
            .unwrap();
        corpus
            .add_doc(vec![("text".to_string(), PyLayer::CharacterLayer("persist".to_string()))])
            .unwrap()
    };
    let corpus = Corpus::new(path).unwrap();
    assert_eq!(corpus.get_docs(), vec![id.clone()]);
    let doc = corpus.get_doc_by_id(&id).unwrap();
    assert_eq!(
        doc,
        vec![("text".to_string(), PyLayer::CharacterLayer("persist".to_string()))]
    );
}

#[test]
fn store_error_is_reported() {
    let err = Corpus::new("/dev/null/not_a_directory").unwrap_err();
    assert!(matches!(err, TeangaError::StoreError(_)));
}
