pub mod cif;
pub mod error;
pub mod lexer;
pub mod mmcif;
pub mod position;
pub mod value;
