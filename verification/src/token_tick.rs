//! Token ticks compared without regard to case.
use vstd::prelude::*;

verus! {

/// What `String::from_utf8_lossy` makes of the bytes: valid UTF-8 decoded, each invalid
/// sequence replaced by U+FFFD.
pub uninterp spec fn utf8_lossy(bytes: Seq<u8>) -> Seq<char>;

/// What `str::to_lowercase` makes of the characters (Unicode lowercase mapping).
pub uninterp spec fn lowercase(chars: Seq<char>) -> Seq<char>;

/// Calls `String::from_utf8_lossy` and takes ownership of the result. Claimed: the result's
/// characters are `utf8_lossy` of the bytes; nothing more is said of them.
#[verifier::external_body]
fn from_utf8_lossy(v: &[u8]) -> (r: String)
    ensures
        r@ == utf8_lossy(v@),
{
    String::from_utf8_lossy(v).into_owned()
}

/// Calls `str::to_lowercase`. Claimed: the result's characters are `lowercase` of the input's;
/// nothing more is said of them.
#[verifier::external_body]
pub(crate) fn to_lowercase(s: &str) -> (r: String)
    ensures
        r@ == lowercase(s@),
{
    s.to_lowercase()
}

/// A token tick in lower case, as UTF-8 bytes.
#[derive(Clone, Eq, PartialEq, Hash, PartialOrd, Ord, Debug)]
pub struct LowerCaseTokenTick(pub Vec<u8>);

impl View for LowerCaseTokenTick {
    type V = Seq<u8>;

    open spec fn view(&self) -> Seq<u8> {
        self.0@
    }
}

impl LowerCaseTokenTick {
    /// The tick of `value`: its bytes read as UTF-8 (invalid sequences replaced), put in lower
    /// case, and encoded as UTF-8 again.
    pub fn from(value: &[u8]) -> (r: Self)
        ensures
            r@ == vstd::utf8::encode_utf8(lowercase(utf8_lossy(value@))),
    {
        let text = from_utf8_lossy(value);
        let lower = to_lowercase(text.as_str());
        Self::from_lowercase(lower.as_str())
    }

    /// The tick whose text is `text`, taken as already in lower case.
    pub fn from_lowercase(text: &str) -> (r: Self)
        ensures
            r@ == vstd::utf8::encode_utf8(text@),
    {
        LowerCaseTokenTick(vstd::slice::slice_to_vec(text.as_bytes()))
    }

}

impl core::ops::Deref for LowerCaseTokenTick {
    type Target = Vec<u8>;

    /// The tick's bytes.
    fn deref(&self) -> (r: &Vec<u8>)
        ensures
            r@ == self@,
    {
        &self.0
    }
}

} // verus!
