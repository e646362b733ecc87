pub mod encode;
pub mod format;
pub mod ident;
pub mod laws;
pub mod parse;
pub mod pipeline;
pub mod record;
mod text;

pub use encode::encode_aircraft_json;
pub use ident::to_documents;
pub use ident::AircraftDocument;
pub use parse::parse_aircraft_json;
pub use pipeline::collection_name;
pub use pipeline::database_name;
pub use pipeline::resolve_connection_string;
pub use pipeline::start;
pub use pipeline::step;
pub use pipeline::RunAction;
pub use pipeline::RunError;
pub use pipeline::RunEvent;
pub use pipeline::RunState;
pub use record::Aircraft;
pub use record::AircraftView;
pub use record::ParseError;
