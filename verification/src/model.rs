use vstd::prelude::*;

verus! {

/// The structural type of a layer: character data, a sequence aligned
/// one-to-one with its base layer, divisions, elements, or spans.
#[allow(non_camel_case_types)]
#[derive(Debug, Clone, Copy, PartialEq, Eq, Structural)]
pub enum LayerType {
    characters,
    seq,
    div,
    element,
    span,
}

/// The kind of value a layer attaches to each annotation: free text
/// (interned), a closed vocabulary, a raw link target, or a typed link
/// over a closed list of type names.
#[derive(Debug, Clone)]
pub enum DataType {
    String,
    Enum(Vec<String>),
    Link,
    TypedLink(Vec<String>),
}

/// Mathematical mirror of `DataType`, over sequences of characters.
pub enum DataTypeV {
    StringV,
    EnumV(Seq<Seq<char>>),
    LinkV,
    TypedLinkV(Seq<Seq<char>>),
}

impl View for DataType {
    type V = DataTypeV;

    open spec fn view(&self) -> DataTypeV {
        match self {
            DataType::String => DataTypeV::StringV,
            DataType::Enum(vals) => DataTypeV::EnumV(vals.deep_view()),
            DataType::Link => DataTypeV::LinkV,
            DataType::TypedLink(vals) => DataTypeV::TypedLinkV(vals.deep_view()),
        }
    }
}

/// Schema record for one layer: its structural type, the layer it is
/// positioned on (`on`, empty only for character layers), and its value
/// kind with auxiliary metadata.
#[derive(Debug, Clone)]
pub struct LayerDesc {
    pub layer_type: LayerType,
    pub on: String,
    pub data: Option<DataType>,
    pub values: Option<Vec<String>>,
    pub target: Option<String>,
    pub default: Option<Vec<String>>,
}

/// Mathematical mirror of `LayerDesc`.
pub struct LayerDescV {
    pub layer_type: LayerType,
    pub on: Seq<char>,
    pub data: Option<DataTypeV>,
    pub values: Option<Seq<Seq<char>>>,
    pub target: Option<Seq<char>>,
    pub default: Option<Seq<Seq<char>>>,
}

impl View for LayerDesc {
    type V = LayerDescV;

    open spec fn view(&self) -> LayerDescV {
        LayerDescV {
            layer_type: self.layer_type,
            on: self.on@,
            data: match self.data {
                Some(d) => Some(d@),
                None => None,
            },
            values: match self.values {
                Some(v) => Some(v.deep_view()),
                None => None,
            },
            target: match self.target {
                Some(t) => Some(t@),
                None => None,
            },
            default: match self.default {
                Some(d) => Some(d.deep_view()),
                None => None,
            },
        }
    }
}

/// A layer's schema is well formed when a characters layer stands on
/// nothing and every other layer stands on some base layer.
pub open spec fn desc_wf(d: LayerDescV) -> bool {
    if d.layer_type == LayerType::characters {
        d.on.len() == 0
    } else {
        d.on.len() != 0
    }
}

/// The compact stored form of a layer: text, or lists of offsets whose
/// trailing integer (when present) is an interned-string code, an enum
/// index or a packed typed link, as the layer's schema says. The
/// `NoData` variants carry offsets only.
#[derive(Debug, Clone)]
pub enum Layer {
    Characters(String),
    SeqData(Vec<u32>),
    Div(Vec<(u32, u32)>),
    DivNoData(Vec<u32>),
    Element(Vec<(u32, u32)>),
    ElementNoData(Vec<u32>),
    Span(Vec<(u32, u32, u32)>),
    SpanNoData(Vec<(u32, u32)>),
}

/// Mathematical mirror of `Layer`.
pub enum LayerV {
    CharactersV(Seq<char>),
    SeqV(Seq<u32>),
    DivV(Seq<(u32, u32)>),
    DivNoDataV(Seq<u32>),
    ElementV(Seq<(u32, u32)>),
    ElementNoDataV(Seq<u32>),
    SpanV(Seq<(u32, u32, u32)>),
    SpanNoDataV(Seq<(u32, u32)>),
}

impl View for Layer {
    type V = LayerV;

    open spec fn view(&self) -> LayerV {
        match self {
            Layer::Characters(s) => LayerV::CharactersV(s@),
            Layer::SeqData(v) => LayerV::SeqV(v@),
            Layer::Div(v) => LayerV::DivV(v@),
            Layer::DivNoData(v) => LayerV::DivNoDataV(v@),
            Layer::Element(v) => LayerV::ElementV(v@),
            Layer::ElementNoData(v) => LayerV::ElementNoDataV(v@),
            Layer::Span(v) => LayerV::SpanV(v@),
            Layer::SpanNoData(v) => LayerV::SpanNoDataV(v@),
        }
    }
}

/// The user-facing form of a layer: shapes are structural only (text, or
/// tuples of one to three integers with or without a trailing string);
/// what the trailing value means depends on the layer's schema.
#[derive(Debug, Clone, PartialEq)]
pub enum PyLayer {
    CharacterLayer(String),
    L1(Vec<u32>),
    L2(Vec<(u32, u32)>),
    L3(Vec<(u32, u32, u32)>),
    LS(Vec<String>),
    L1S(Vec<(u32, String)>),
    L2S(Vec<(u32, u32, String)>),
    L3S(Vec<(u32, u32, u32, String)>),
}

/// Mathematical mirror of `PyLayer`.
pub enum UserLayerV {
    CharacterLayerV(Seq<char>),
    L1V(Seq<u32>),
    L2V(Seq<(u32, u32)>),
    L3V(Seq<(u32, u32, u32)>),
    LSV(Seq<Seq<char>>),
    L1SV(Seq<(u32, Seq<char>)>),
    L2SV(Seq<(u32, u32, Seq<char>)>),
    L3SV(Seq<(u32, u32, u32, Seq<char>)>),
}

impl View for PyLayer {
    type V = UserLayerV;

    open spec fn view(&self) -> UserLayerV {
        match self {
            PyLayer::CharacterLayer(s) => UserLayerV::CharacterLayerV(s@),
            PyLayer::L1(v) => UserLayerV::L1V(v@),
            PyLayer::L2(v) => UserLayerV::L2V(v@),
            PyLayer::L3(v) => UserLayerV::L3V(v@),
            PyLayer::LS(v) => UserLayerV::LSV(v.deep_view()),
            PyLayer::L1S(v) => UserLayerV::L1SV(v.deep_view()),
            PyLayer::L2S(v) => UserLayerV::L2SV(v.deep_view()),
            PyLayer::L3S(v) => UserLayerV::L3SV(v.deep_view()),
        }
    }
}

/// A document: a mapping from layer name to stored layer, kept as a list
/// of pairs with pairwise distinct names.
#[derive(Debug, Clone)]
pub struct Document {
    pub content: Vec<(String, Layer)>,
}

/// The names of a document's entries are pairwise distinct.
pub open spec fn doc_names_unique(content: Seq<(Seq<char>, LayerV)>) -> bool {
    forall|i: int, j: int|
        0 <= i < j < content.len() ==> #[trigger] content[i].0 != #[trigger] content[j].0
}

impl View for Document {
    type V = Seq<(Seq<char>, LayerV)>;

    open spec fn view(&self) -> Seq<(Seq<char>, LayerV)> {
        Seq::new(self.content@.len(), |i: int| (self.content@[i].0@, self.content@[i].1@))
    }
}

impl Document {
    pub open spec fn wf(&self) -> bool {
        doc_names_unique(self@)
    }

    /// Wrap a list of named layers as a document.
    pub fn new(content: Vec<(String, Layer)>) -> (r: Document)
        ensures
            r.content == content,
    {
        Document { content }
    }
}

} // verus!
