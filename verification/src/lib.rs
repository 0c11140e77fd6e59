pub mod cache;
pub mod chunk_id;
pub mod chunker;
pub mod chunks;
pub mod decimal;
pub mod errors;
pub mod formats;
pub mod hashing;
pub mod indexer;
pub mod models;
pub mod multipart;
pub mod paths;
pub mod registry;
pub mod remote;
pub mod session;
pub mod syncer;
pub mod text;
