//! The errors of the library. Errors that outside crates report are carried
//! as they are.
use vstd::prelude::*;
use oxigraph::model::{BlankNodeIdParseError, IriParseError};
use oxigraph::sparql::{QueryEvaluationError, SparqlSyntaxError, UpdateEvaluationError};
use oxigraph::store::StorageError;

verus! {

/// `std::io::Error`, carried opaque.
#[verifier::external_type_specification]
#[verifier::external_body]
pub struct ExIoError(std::io::Error);

/// `serde_json::Error`, carried opaque.
#[verifier::external_type_specification]
#[verifier::external_body]
pub struct ExJsonError(serde_json::Error);

/// `serde_yaml_ng::Error`, carried opaque.
#[verifier::external_type_specification]
#[verifier::external_body]
pub struct ExYamlError(serde_yaml_ng::Error);

/// `oxigraph::sparql::SparqlSyntaxError`, carried opaque.
#[verifier::external_type_specification]
#[verifier::external_body]
pub struct ExSparqlSyntaxError(SparqlSyntaxError);

/// `oxigraph::sparql::QueryEvaluationError`, carried opaque.
#[verifier::external_type_specification]
#[verifier::external_body]
pub struct ExQueryEvaluationError(QueryEvaluationError);

/// `oxigraph::sparql::UpdateEvaluationError`, carried opaque.
#[verifier::external_type_specification]
#[verifier::external_body]
pub struct ExUpdateEvaluationError(UpdateEvaluationError);

/// `oxigraph::model::IriParseError`, carried opaque.
#[verifier::external_type_specification]
#[verifier::external_body]
pub struct ExIriParseError(IriParseError);

/// `oxigraph::model::BlankNodeIdParseError`, carried opaque.
#[verifier::external_type_specification]
#[verifier::external_body]
pub struct ExBlankNodeIdParseError(BlankNodeIdParseError);

/// `oxigraph::store::StorageError`, carried opaque.
#[verifier::external_type_specification]
#[verifier::external_body]
pub struct ExStorageError(StorageError);

/// Failure to read a description file.
#[derive(Debug)]
pub enum ConversionError {
    IOError(std::io::Error),
    UnsupportedExtensionError(String),
    JSONError(serde_json::Error),
    YAMLError(serde_yaml_ng::Error),
}

pub type ConversionResult<T> = Result<T, ConversionError>;

/// Failure to run a stored query.
#[derive(Debug)]
pub enum ExecuteQueryError {
    QueryNotFound(String),
    SyntaxError(SparqlSyntaxError),
    QueryEvaluationError(QueryEvaluationError),
    UpdateEvaluationError(UpdateEvaluationError),
    WrongQueryType(String, String),
}

/// Failure to turn a value into an IRI.
#[derive(Debug)]
pub enum IRIConversionError {
    PrefixNotFoundError(String),
    IRIParseError(IriParseError),
    BlankNodeParseError(BlankNodeIdParseError),
    UnparseableObjectError,
}

/// Failure to load data into the database.
#[derive(Debug)]
pub enum DatabaseLoadError {
    PrefixNotFoundError(String),
    IRIParseError(IriParseError),
    BlankNodeParseError(BlankNodeIdParseError),
    UnparseableObjectError,
    StorageError(StorageError),
}

/// Failure to load a description file into the database.
#[derive(Debug)]
pub enum DataLoadError {
    ConversionError(ConversionError),
    IOError(std::io::Error),
    DatabaseError(DatabaseLoadError),
    FileWithNoExtensionError(String),
    FileExtensionHasNoPrefixError(String),
    PrefixHasNoURI(String),
}

/// The failures of loading, as the contracts speak of them.
pub enum LoadFailure {
    PrefixNotFound(Seq<char>),
    InvalidIri(Seq<char>),
    Unparseable,
}

/// `e` is the error that `f` describes.
pub open spec fn load_error_is(e: DatabaseLoadError, f: LoadFailure) -> bool {
    match (e, f) {
        (DatabaseLoadError::PrefixNotFoundError(s), LoadFailure::PrefixNotFound(p)) => s@ == p,
        (DatabaseLoadError::IRIParseError(_), LoadFailure::InvalidIri(_)) => true,
        (DatabaseLoadError::UnparseableObjectError, LoadFailure::Unparseable) => true,
        _ => false,
    }
}

} // verus!
