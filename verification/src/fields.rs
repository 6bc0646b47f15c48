//! Filling the fields of a record.

use vstd::prelude::*;

use crate::english::{english_free_value, remove_english_scores};
use crate::schema::NA;
use crate::text::{optional, same_text, trim, trimmed};

verus! {

/// A field after a value was offered for it: a field that is `NA` takes the
/// trimmed value, unless that is empty or `NA`.
pub open spec fn fill(field: Seq<char>, value: Option<Seq<char>>) -> Seq<char> {
    match value {
        Some(t) => if field == NA@ && trimmed(t).len() > 0 {
            trimmed(t)
        } else {
            field
        },
        None => field,
    }
}

/// A field of another subject than English after a value was offered for it: it takes
/// the sentences of the value that hold no score of an English test.
pub open spec fn fill_other(field: Seq<char>, value: Option<Seq<char>>) -> Seq<char> {
    fill(field, english_free_value(value))
}

/// Whether a field is `NA`.
pub fn is_na(field: &String) -> (result: bool)
    ensures
        result == (field@ == NA@),
{
    same_text(field.as_str(), NA)
}

/// Sets a field only if it is currently `NA`, to the trimmed value if there is one.
pub fn set_if_na(field: &mut String, value: Option<String>)
    ensures
        final(field)@ == fill(old(field)@, optional(value)),
{
    if is_na(field) {
        match value {
            Some(t) => {
                let t: String = trim(t.as_str());
                if !t.as_str().is_empty() && !same_text(t.as_str(), NA) {
                    *field = t;
                }
            },
            None => {},
        }
    }
}

/// Sets a field of another subject than English only if it is currently `NA`, to the
/// sentences of the value that hold no score of an English test.
pub fn set_other_if_na(field: &mut String, value: Option<String>)
    ensures
        final(field)@ == fill_other(old(field)@, optional(value)),
{
    let value: Option<String> = match value {
        Some(t) => Some(remove_english_scores(t.as_str())),
        None => None,
    };
    set_if_na(field, value);
}

} // verus!
