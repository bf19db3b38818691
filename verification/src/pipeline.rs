//! The validation decisions that surround the pipeline: checking the
//! command-line arguments, and checking the n-gram size against the token
//! count before any n-gram is built.

use vstd::prelude::*;

use crate::ngram::{create_ngrams, ngrams_seq};

verus! {

/// Why a run produced no n-grams: the requested size exceeds the number of
/// tokens. Both numbers are carried so the caller can report them.
#[derive(Debug, PartialEq, Eq, Structural, Clone, Copy)]
pub enum NgramError {
    SizeTooLarge { size: i32, data_size: i32 },
}

/// Decides whether the command-line arguments are usable: the path must be
/// non-empty and the size positive. This check precedes any file reading.
pub fn args_valid(path: &String, size: i32) -> (ok: bool)
    ensures
        ok == (path@.len() > 0 && size > 0),
{
    !path.as_str().is_empty() && size > 0
}

/// Checks the size against the token count, then builds the n-grams: `Ok`
/// exactly when `size` fits within `data_size`, and otherwise the error that
/// names both numbers.
pub fn build_ngrams_checked(data: Vec<String>, data_size: i32, size: i32) -> (r: Result<
    Vec<String>,
    NgramError,
>)
    requires
        data_size as int == data@.len(),
        size > 0,
    ensures
        r is Ok <==> (size as int) <= (data_size as int),
        r is Ok ==> r->Ok_0.deep_view() == ngrams_seq(data.deep_view(), size as int),
        r is Err ==> r->Err_0 == (NgramError::SizeTooLarge { size, data_size }),
{
    if data_size < size {
        Err(NgramError::SizeTooLarge { size, data_size })
    } else {
        Ok(create_ngrams(data, data_size, size))
    }
}

} // verus!
