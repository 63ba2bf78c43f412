use vstd::prelude::*;

verus! {

broadcast use vstd::string::group_string_axioms;

/// Relies on `str::parse`: whether `input` reads as a value of `T`.
#[verifier::external_body]
fn parses_as<T: core::str::FromStr>(input: &str) -> (r: bool) {
    input.parse::<T>().is_ok()
}

/// `Ok` where the value was read, else `error` as the message.
pub fn validation(parsed: bool, error: &str) -> (r: Result<(), String>)
    ensures
        r is Ok <==> parsed,
        r matches Err(e) ==> e@ == error@,
{
    if parsed {
        Ok(())
    } else {
        Err(error.to_string())
    }
}

/// Checks that `input` reads as a value of `T`; where it does not, the error
/// carries `error` as its message.
pub fn validate<T: core::str::FromStr>(input: String, error: &str) -> (r: Result<(), String>)
    ensures
        r matches Err(e) ==> e@ == error@,
{
    let parsed = parses_as::<T>(input.as_str());
    validation(parsed, error)
}

} // verus!
