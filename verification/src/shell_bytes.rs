use vstd::prelude::*;

use crate::encoding::{bytes_to_str, spec_bytes_to_str, spec_str_to_bytes, str_to_bytes};
use vstd::string::StringSliceAdditionalSpecFns;

verus! {

/// Byte-preserving shell data.
///
/// Shell values are byte sequences, not UTF-8 strings. This type keeps the
/// raw bytes and converts explicitly at shell-string boundaries.
#[derive(Debug, Clone, Default, PartialEq, Eq, Hash)]
pub struct ShellBytes(Vec<u8>);

impl View for ShellBytes {
    type V = Seq<u8>;

    closed spec fn view(&self) -> Seq<u8> {
        self.0@
    }
}

impl ShellBytes {
    pub fn new() -> (r: Self)
        ensures
            r@ == Seq::<u8>::empty(),
    {
        ShellBytes(Vec::new())
    }

    pub fn from_vec(bytes: Vec<u8>) -> (r: Self)
        ensures
            r@ == bytes@,
    {
        ShellBytes(bytes)
    }

    pub fn into_vec(self) -> (r: Vec<u8>)
        ensures
            r@ == self@,
    {
        self.0
    }

    pub fn as_bytes(&self) -> (r: &[u8])
        ensures
            r@ == self@,
    {
        self.0.as_slice()
    }

    /// A copy of the bytes.
    pub fn duplicate(&self) -> (r: Self)
        ensures
            r@ == self@,
    {
        ShellBytes(crate::encoding::slice_bytes(&self.0, 0, self.0.len()))
    }

    pub fn is_empty(&self) -> (r: bool)
        ensures
            r == (self@.len() == 0),
    {
        self.0.len() == 0
    }

    pub fn len(&self) -> (r: usize)
        ensures
            r == self@.len(),
    {
        self.0.len()
    }

    /// The bytes a shell string stands for (byte characters back to bytes).
    pub fn from_str_lossless(s: &str) -> (r: Self)
        ensures
            r@ == spec_str_to_bytes(s@),
    {
        ShellBytes(str_to_bytes(s))
    }

    /// The bytes as text, when they are valid UTF-8.
    pub fn as_utf8_str(&self) -> (r: Option<&str>)
        ensures
            r matches Some(t) ==> vstd::utf8::valid_utf8(self@) && t.spec_bytes() == self@,
            r is None ==> !vstd::utf8::valid_utf8(self@),
    {
        utf8_view(self.0.as_slice())
    }

    /// The bytes as text; invalid UTF-8 sequences become U+FFFD.
    pub fn to_string_lossy(&self) -> (r: String)
        ensures
            r@ == lossy_text(self@),
            vstd::utf8::valid_utf8(self@) ==> r@ == vstd::utf8::decode_utf8(self@),
    {
        utf8_lossy(self.0.as_slice())
    }

    /// The shell string for these bytes (invalid UTF-8 as byte characters).
    pub fn to_shell_string(&self) -> (r: String)
        ensures
            r@ == spec_bytes_to_str(self@),
    {
        bytes_to_str(self.0.as_slice())
    }
}

/// The text that valid UTF-8 bytes encode (std's `str::from_utf8`).
#[verifier::external_body]
fn utf8_view(b: &[u8]) -> (r: Option<&str>)
    ensures
        r matches Some(t) ==> vstd::utf8::valid_utf8(b@) && t.spec_bytes() == b@,
        r is None ==> !vstd::utf8::valid_utf8(b@),
{
    std::str::from_utf8(b).ok()
}

/// The text that std's `String::from_utf8_lossy` makes of some bytes.
pub uninterp spec fn lossy_text(b: Seq<u8>) -> Seq<char>;

/// Text from bytes with invalid sequences replaced (std's
/// `String::from_utf8_lossy`): the result depends on the bytes alone, and
/// valid UTF-8 decodes unchanged.
#[verifier::external_body]
fn utf8_lossy(b: &[u8]) -> (r: String)
    ensures
        r@ == lossy_text(b@),
        vstd::utf8::valid_utf8(b@) ==> r@ == vstd::utf8::decode_utf8(b@),
{
    String::from_utf8_lossy(b).into_owned()
}

impl<'a> From<&'a str> for ShellBytes {
    fn from(s: &'a str) -> (r: ShellBytes) {
        ShellBytes::from_str_lossless(s)
    }
}

impl<'a> vstd::std_specs::convert::FromSpecImpl<&'a str> for ShellBytes {
    open spec fn obeys_from_spec() -> bool {
        false
    }

    open spec fn from_spec(s: &'a str) -> ShellBytes {
        vstd::pervasive::arbitrary()
    }
}

} // verus!
