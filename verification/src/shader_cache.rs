//! Reuse of compiled shaders. Beside each output stands the effective compiler
//! input it was made of, including injected headers.
use crate::text::same_text;
use vstd::prelude::*;
use vstd::string::*;

verus! {

/// A compiled shader is current: it exists, and was made of this input.
pub open spec fn current(output_exists: bool, recorded: Option<Seq<char>>, input: Seq<char>) -> bool {
    output_exists && recorded == Some(input)
}

/// Whether an output can be reused. `recorded` is the input that stands beside
/// it, where that can be read.
pub fn is_current(output_exists: bool, recorded: Option<&str>, input: &str) -> (r: bool)
    ensures
        r == current(
            output_exists,
            match recorded {
                Some(text) => Some(text@),
                None => None,
            },
            input@,
        ),
{
    output_exists && match recorded {
        Some(text) => same_text(text, input),
        None => false,
    }
}

/// What to write beside an output made of this input.
pub fn record(input: &str) -> (r: String)
    ensures
        r@ == input@,
{
    input.to_owned()
}

/// An output is reused for the input that was recorded, and for no other.
pub proof fn only_the_recorded_input_is_current(recorded: Seq<char>, input: Seq<char>)
    ensures
        current(true, Some(recorded), input) <==> recorded == input,
        !current(false, Some(recorded), input),
        !current(true, None, input),
{
}

} // verus!
