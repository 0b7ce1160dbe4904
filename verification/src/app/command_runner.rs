use vstd::prelude::*;
use vstd::utf8::{decode_utf8, valid_utf8};

verus! {

/// The text of a byte string, as `String::from_utf8_lossy` gives it.
pub uninterp spec fn spec_utf8_lossy(bytes: Seq<u8>) -> Seq<char>;

/// The text of `bytes`, by `String::from_utf8_lossy`: the decoded text where
/// the bytes are valid UTF-8 (as its documentation states); otherwise the
/// text with each invalid sequence replaced, which is named and not written
/// out here.
#[verifier::external_body]
pub fn utf8_lossy(bytes: &[u8]) -> (s: String)
    ensures
        s@ == spec_utf8_lossy(bytes@),
        valid_utf8(bytes@) ==> s@ == decode_utf8(bytes@),
{
    String::from_utf8_lossy(bytes).into_owned()
}

/// Runs external commands and reports their output.
#[derive(Debug, Clone, Copy, PartialEq, Eq)]
pub struct CommandRunner;

impl CommandRunner {
    /// What a finished command reports: its error output as the error where
    /// there is any, else its standard output.
    pub fn interpret_output(stdout: &[u8], stderr: &[u8]) -> (r: Result<String, String>)
        ensures
            match r {
                Ok(out) => stderr@.len() == 0 && out@ == spec_utf8_lossy(stdout@),
                Err(err) => stderr@.len() > 0 && err@ == spec_utf8_lossy(stderr@),
            },
            valid_utf8(stdout@) && stderr@.len() == 0 ==> (r matches Ok(out) && out@ == decode_utf8(stdout@)),
    {
        if stderr.len() > 0 {
            Err(utf8_lossy(stderr))
        } else {
            Ok(utf8_lossy(stdout))
        }
    }
}

} // verus!
