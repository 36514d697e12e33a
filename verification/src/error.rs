use vstd::prelude::*;
use vstd::string::StringExecFns;

verus! {

/// The error taxonomy of the engine.
///
/// `StoreError` carries the backing store's own message; `EncodingError`
/// means a stored record's bytes could not be decoded; `EncodingTextError`
/// means stored bytes were not valid text where text was expected;
/// `ModelError` is a schema or shape violation, with a message naming the
/// offending layer or value.
#[derive(Debug, Clone)]
pub enum TeangaError {
    StoreError(String),
    EncodingError,
    EncodingTextError,
    ModelError(String),
}

pub type TeangaResult<T> = Result<T, TeangaError>;

impl TeangaError {
    /// A human-readable rendering of the error.
    pub fn message(&self) -> String {
        match self {
            TeangaError::StoreError(m) => {
                let mut s = String::from_str("DB read error: ");
                s.append(m.as_str());
                s
            },
            TeangaError::EncodingError => String::from_str(
                "Data read error: stored record could not be decoded",
            ),
            TeangaError::EncodingTextError => String::from_str(
                "Data read error: UTF-8 String could not be decoded",
            ),
            TeangaError::ModelError(m) => {
                let mut s = String::from_str("Teanga model error: ");
                s.append(m.as_str());
                s
            },
        }
    }

    /// True of the schema/shape violation variant.
    pub fn is_model_error(&self) -> (r: bool)
        ensures
            r == (self is ModelError),
    {
        match self {
            TeangaError::ModelError(_) => true,
            _ => false,
        }
    }
}

} // verus!
