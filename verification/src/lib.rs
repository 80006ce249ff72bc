pub mod error;
pub mod models;
pub mod database;
pub mod text;
pub mod parser;
pub mod engine;
pub mod stats;
pub mod paging;
pub mod web;
pub mod cli;
pub mod ranking;

