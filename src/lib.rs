//! Recognition and layout of expression chains: member-access / call spines
//! (`a.b().c(d)`) and runs of binary operators of equal precedence
//! (`a + b - c`), laid out either on one line or broken at every link.
pub mod doc;
pub mod laws;
pub mod printer;
pub mod render;
pub mod resolve;
pub mod style;
pub mod syntax;
