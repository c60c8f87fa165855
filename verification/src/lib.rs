pub mod text;
pub mod model;
pub mod formatting;
pub mod mapping;
pub mod auth;
pub mod hltb;
pub mod request;
pub mod retrieval;
pub mod lambda;
pub mod telegram;
pub mod cli;
