pub mod cleaner;
pub mod error;
pub mod handler;
pub mod laws;
pub mod misc;
pub mod options;
pub mod redirection;
pub mod store;
