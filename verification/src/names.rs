use vstd::prelude::*;

verus! {

/// The mark that sets the library's own arrays apart from the user's.
pub open spec fn system_mark() -> Seq<char> {
    "_SYSTEM"@
}

/// The name under which a layer keeps its weights.
pub open spec fn weights_name() -> Seq<char> {
    "_SYSTEM_WEIGHTS"@
}

/// The name under which a layer keeps its biases.
pub open spec fn biases_name() -> Seq<char> {
    "_SYSTEM_BIASES"@
}

/// The name under which a node keeps its packed value buffer.
pub open spec fn values_name() -> Seq<char> {
    "_SYSTEM_VALUES"@
}

/// Whether `pattern` occurs in `text` as a run of consecutive characters.
pub open spec fn occurs_in(pattern: Seq<char>, text: Seq<char>) -> bool {
    exists|at: int| 0 <= at && at + pattern.len() <= text.len()
        && #[trigger] text.subrange(at, at + pattern.len()) == pattern
}

/// Whether a name belongs to the library: it holds the system mark
/// somewhere. Such arrays are no part of a layer's logical width.
pub open spec fn reserved(name: Seq<char>) -> bool {
    occurs_in(system_mark(), name)
}

/// `str::contains` with a string as the pattern: whether the pattern matches
/// a sub-slice of the text.
#[verifier::external_body]
fn text_contains(text: &str, pattern: &str) -> (found: bool)
    ensures
        found == occurs_in(pattern@, text@),
{
    text.contains(pattern)
}

/// Whether `name` is one of the library's own names.
pub fn is_reserved(name: &str) -> (answer: bool)
    ensures
        answer == reserved(name@),
{
    text_contains(name, "_SYSTEM")
}

} // verus!
