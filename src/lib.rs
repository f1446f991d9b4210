pub mod value;
pub mod error;
pub mod args;
pub mod eval;
pub mod flow;
pub mod db;
pub mod routes;
