//! Streams the records of a delimited text into typed JSON documents and
//! frames them for a search service's bulk-ingestion protocol.

pub mod batch;
pub mod document;
pub mod driver;
pub mod json;
pub mod record;
pub mod text;
pub mod tokenizer;
pub mod transport;

pub use batch::{bulk_payload, BatchAssembler};
pub use document::dict_to_json;
pub use driver::{Action, Driver, Event, Failure, Phase};
pub use json::{infer_type, json_escape, parse_integer};
pub use record::CsvIter;
pub use tokenizer::CsvReader;
pub use transport::{
    address, basic_token, bulk_path, bulk_request, has_bulk_errors, parse_http_target,
    ping_succeeded, probe_request, HttpTarget,
};
