//! Structural validation errors of JSON input, reported with the failing path.

use vstd::prelude::*;
use crate::text::{join, decimal, usize_to_decimal};

verus! {

#[derive(Debug, Clone, PartialEq, Eq)]
pub struct ValidationError {
    pub path: String,
    pub message: String,
}

/// The line for the `i`-th error (counting from 0): `{i+1}. {path}: {message}`.
pub open spec fn error_line(i: int, e: ValidationError) -> Seq<char> {
    decimal((i + 1) as nat) + ". "@ + e.path@ + ": "@ + e.message@
}

/// One numbered line per error, joined with newlines.
pub open spec fn error_lines(es: Seq<ValidationError>) -> Seq<Seq<char>> {
    Seq::new(es.len(), |i: int| error_line(i, es[i]))
}

/// The errors as numbered lines (`1. path: message`), one per error.
pub fn format_validation_errors(errors: &[ValidationError]) -> (r: String)
    ensures
        r@ == join(error_lines(errors@), "\n"@),
{
    let ghost ls = error_lines(errors@);
    let mut out = String::new();
    let mut i: usize = 0;
    while i < errors.len()
        invariant
            i <= errors.len(),
            ls == error_lines(errors@),
            out@ == join(ls.take(i as int), "\n"@),
        decreases errors.len() - i,
    {
        proof {
            assert(ls.take(i + 1).drop_last() =~= ls.take(i as int));
            assert(ls.take(i + 1).last() == ls[i as int]);
        }
        if i > 0 {
            out.append("\n");
        } else {
            assert(ls.take(1)[0] == ls[0]);
        }
        let n = usize_to_decimal(i + 1);
        out.append(n.as_str());
        out.append(". ");
        out.append(errors[i].path.as_str());
        out.append(": ");
        out.append(errors[i].message.as_str());
        i = i + 1;
        assert(out@ =~= join(ls.take(i as int), "\n"@));
    }
    assert(ls.take(errors.len() as int) =~= ls);
    out
}

} // verus!
