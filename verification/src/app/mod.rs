pub mod finder;
pub mod images;
pub mod search;
pub mod source;
pub mod view;
pub mod keys;
pub mod outline_view;
pub mod panels;
pub mod viewer;
pub mod cards;
pub mod frame;
