pub mod app_ctx;
pub mod builders;
pub mod coerce;
pub mod db_type;
pub mod decoder;
pub mod error;
pub mod field;
pub mod filter;
pub mod ident;
pub mod inflect;
pub mod install;
pub mod object;
pub mod outline;
pub mod output;
pub mod query;
pub mod schema;
pub mod store;
pub mod text;
pub mod unique;
pub mod url;
pub mod value;
