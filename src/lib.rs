//! Small string utilities that hand out borrowed and owned text: picking the
//! longer of two strings, cutting a prefix at a character, and a tokenizer
//! that splits a string at each occurrence of a delimiter.
pub mod borrowing;
pub mod tokenizer;
