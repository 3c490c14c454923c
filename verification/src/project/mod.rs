pub mod scan;
pub mod tree;
