//! mido: Markdown In, Document Out. The parsing, outline, badge, key and layout rules of a
//! terminal Markdown reader, each with its contract.
pub mod app;
pub mod cli;
pub mod config;
pub mod markdown;
pub mod outline;
pub mod project;
pub mod render;
pub mod text;
