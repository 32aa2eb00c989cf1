//! The text of what the native utilities print.
use vstd::prelude::*;
use vstd::utf8::{decode_utf8, valid_utf8};
use crate::text::{append_chars, chars_of, string_from_chars, trim, trim_chars};

verus! {

/// What `String::from_utf8_lossy` makes of a byte string: the bytes read as
/// UTF-8, each ill-formed sequence replaced by U+FFFD.
pub uninterp spec fn utf8_lossy(bytes: Seq<u8>) -> Seq<char>;

/// Output bytes read as text by `String::from_utf8_lossy(..).into_owned()`.
///
/// Trusted: the contract claims that the text depends on the bytes alone
/// (`utf8_lossy`) and that well-formed UTF-8 reads as exactly the characters
/// it encodes. Which replacement characters stand for ill-formed bytes is left
/// unsaid.
#[verifier::external_body]
pub fn decode(bytes: &[u8]) -> (r: String)
    ensures
        r@ == utf8_lossy(bytes@),
        valid_utf8(bytes@) ==> r@ == decode_utf8(bytes@),
{
    String::from_utf8_lossy(bytes).into_owned()
}

/// What a command that exited unsuccessfully is reported as: its trimmed
/// error output, else its trimmed standard output, else that the program
/// exited with the given status.
pub open spec fn failure_message(
    program: Seq<char>,
    status: Seq<char>,
    stdout: Seq<char>,
    stderr: Seq<char>,
) -> Seq<char> {
    if trim(stderr).len() > 0 {
        trim(stderr)
    } else if trim(stdout).len() > 0 {
        trim(stdout)
    } else {
        program + " exited with status "@ + status
    }
}

/// The message for a command that exited unsuccessfully; `status` is how its
/// exit status prints.
pub fn command_failure_message(program: &str, status: &str, stdout: &str, stderr: &str) -> (r:
    String)
    ensures
        r@ == failure_message(program@, status@, stdout@, stderr@),
{
    let err = trim_chars(&chars_of(stderr));
    if err.len() > 0 {
        return string_from_chars(err);
    }
    let out = trim_chars(&chars_of(stdout));
    if out.len() > 0 {
        return string_from_chars(out);
    }
    let mut message = chars_of(program);
    append_chars(&mut message, &chars_of(" exited with status "));
    append_chars(&mut message, &chars_of(status));
    string_from_chars(message)
}

} // verus!
