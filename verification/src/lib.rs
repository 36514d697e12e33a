pub mod error;
pub mod model;
pub mod pack;
pub mod codec;
pub mod storage;
pub mod id;
pub mod store;
pub mod corpus;

pub use corpus::Corpus;
pub use error::{TeangaError, TeangaResult};
pub use model::{DataType, Document, Layer, LayerDesc, LayerType, PyLayer};
