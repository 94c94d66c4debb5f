use vstd::prelude::*;

use crate::comparer;
use crate::errors::{owned, ConverterError};
use crate::text::str_is;
use crate::types::Format;

verus! {

/// The format that a name on the command line stands for (see
/// `comparer::format_of_name`).
pub fn map_format(format: &str) -> (r: Result<Format, ConverterError>)
    ensures
        match comparer::format_of_name(format@) {
            Some(f) => r == Ok::<Format, ConverterError>(f),
            None => r is Err && match r {
                Err(ConverterError::UnknownFormat(m)) => m@ == comparer::unknown_format_text(),
                _ => false,
            },
        },
{
    if str_is(format, "csv") {
        Ok(Format::Csv)
    } else if str_is(format, "bin") || str_is(format, "binary") {
        Ok(Format::Binary)
    } else if str_is(format, "txt") || str_is(format, "text") {
        Ok(Format::Text)
    } else {
        Err(ConverterError::UnknownFormat(owned("указанный формат не поддерживается")))
    }
}

} // verus!
