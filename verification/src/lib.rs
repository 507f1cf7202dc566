pub mod parser;
pub mod parser3;
pub mod parsertidy;
pub mod sax;
pub mod tree;
