pub mod document;
pub mod front_matter;
pub mod parse;
pub mod slug;
