//! From raw text to n-grams: lines are split into word tokens (maximal runs
//! of alphanumeric-or-apostrophe characters), and the token sequence is
//! turned into one comma-joined n-gram string per token position, with
//! component indices wrapping modulo the n-gram size.

pub mod ngram;
pub mod pipeline;
pub mod tokenizer;

mod strbuf;
