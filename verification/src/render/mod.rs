pub mod badge;
pub mod code;
pub mod fit;
pub mod glyphs;
pub mod layout;
pub mod mermaid;
pub mod pieces;
pub mod styles;
pub mod table;
pub mod theme;
pub mod wrap;
