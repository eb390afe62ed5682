//! The calls that the parser makes into nom and into std's UTF-8 check.
//! Their contracts are taken on trust from the code they call.

use crate::text::{run_len, ByteClass};
use vstd::prelude::*;
use vstd::string::StringSliceAdditionalSpecFns;
use vstd::utf8::valid_utf8;

verus! {

/// What a recognizer of one or more bytes of `class` makes of `input`: the
/// rest and the run, in that order, where the run is not empty, and nothing
/// where it is.
pub open spec fn splits_run(
    input: Seq<u8>,
    class: ByteClass,
    r: Option<(&[u8], &[u8])>,
) -> bool {
    let n = run_len(input, class) as int;
    match r {
        Some((rest, run)) => n > 0 && run@ == input.take(n) && rest@ == input.skip(n),
        None => n == 0,
    }
}

/// `nom::alpha` on bytes. It walks the input up to the first byte that is
/// not an ASCII letter and hands back what follows and what it walked over.
/// On empty input it reports that more is needed, and on input that starts
/// with another byte an error: both come out as `None`.
#[verifier::external_body]
pub(crate) fn alpha_prefix<'a>(input: &'a [u8]) -> (r: Option<(&'a [u8], &'a [u8])>)
    ensures
        splits_run(input@, ByteClass::Alpha, r),
{
    match nom::alpha(input) {
        nom::IResult::Done(rest, run) => Some((rest, run)),
        nom::IResult::Error(_) => None,
        nom::IResult::Incomplete(_) => None,
    }
}

/// `nom::alphanumeric` on bytes: as `alpha_prefix`, for ASCII letters and
/// decimal digits.
#[verifier::external_body]
pub(crate) fn alphanumeric_prefix<'a>(input: &'a [u8]) -> (r: Option<(&'a [u8], &'a [u8])>)
    ensures
        splits_run(input@, ByteClass::Alphanumeric, r),
{
    match nom::alphanumeric(input) {
        nom::IResult::Done(rest, run) => Some((rest, run)),
        nom::IResult::Error(_) => None,
        nom::IResult::Incomplete(_) => None,
    }
}

/// `nom::digit` on bytes: as `alpha_prefix`, for ASCII decimal digits.
#[verifier::external_body]
pub(crate) fn digit_prefix<'a>(input: &'a [u8]) -> (r: Option<(&'a [u8], &'a [u8])>)
    ensures
        splits_run(input@, ByteClass::Digit, r),
{
    match nom::digit(input) {
        nom::IResult::Done(rest, run) => Some((rest, run)),
        nom::IResult::Error(_) => None,
        nom::IResult::Incomplete(_) => None,
    }
}

/// `core::str::from_utf8`: the same bytes as text where they are valid
/// UTF-8, and nothing where they are not.
#[verifier::external_body]
pub(crate) fn utf8_text<'a>(bytes: &'a [u8]) -> (r: Option<&'a str>)
    ensures
        r is Some <==> valid_utf8(bytes@),
        r matches Some(s) ==> s.spec_bytes() == bytes@,
{
    match core::str::from_utf8(bytes) {
        Ok(s) => Some(s),
        Err(_) => None,
    }
}

} // verus!
