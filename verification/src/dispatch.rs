//! What the print dispatcher is asked for, and what is made of the answer
//! of an outside program.

use vstd::prelude::*;
use vstd::string::*;
use crate::geometry::LayoutVariant;

verus! {

/// How many sheets give `copies` copies: a sheet of the twin layout is cut
/// into two strips and so gives two copies, a sheet of any other layout
/// gives one.
pub open spec fn sheets_for(layout: LayoutVariant, copies: usize) -> usize {
    match layout {
        LayoutVariant::C => copies / 2,
        _ => copies,
    }
}

/// How many sheets to print for `copies` copies of `layout`. For the twin
/// layout an odd copy is not printed.
pub fn sheets_to_print(layout: LayoutVariant, copies: usize) -> (out: usize)
    ensures
        out == sheets_for(layout, copies),
{
    match layout {
        LayoutVariant::C => copies / 2,
        _ => copies,
    }
}

/// What is reported of a run of an outside program: `value` where the
/// program succeeded, and else a failure that says `complaint` followed by
/// the program's own diagnostic output. A program that ran and failed is
/// never reported as a success.
pub fn report(succeeded: bool, value: &str, complaint: &str, diagnostic: &str) -> (out: Result<
    String,
    String,
>)
    ensures
        out is Ok <==> succeeded,
        out matches Ok(v) ==> v@ == value@,
        out matches Err(e) ==> e@ == complaint@ + diagnostic@,
{
    if succeeded {
        Ok(value.to_owned())
    } else {
        let mut message = complaint.to_owned();
        message.append(diagnostic);
        Err(message)
    }
}

} // verus!
