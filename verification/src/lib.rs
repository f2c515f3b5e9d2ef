//! A verified store and query engine for captured dev-server logs.
pub mod text;
pub mod fold;
pub mod instant;
pub mod number;
pub mod since;
pub mod model;
pub mod db;
pub mod laws;
pub mod paths;
pub mod git;
pub mod collector;
pub mod service;
pub mod display;
