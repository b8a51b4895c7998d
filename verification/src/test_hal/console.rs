//! A fake console that captures every byte written.
use vstd::prelude::*;

use vstd::utf8::{decode_utf8, valid_utf8};

verus! {

/// Calls `String::from_utf8` and keeps the string on success. Claimed of
/// it: it succeeds exactly on valid UTF-8, the string holds the decoded
/// characters, and bytes that are all ASCII decode to the characters with
/// the same codes.
#[verifier::external_body]
fn string_from_utf8(bytes: Vec<u8>) -> (r: Option<String>)
    ensures
        r is Some <==> valid_utf8(bytes@),
        r matches Some(t) ==> t@ == decode_utf8(bytes@),
        r is Some <== forall|i: int| 0 <= i < bytes@.len() ==> #[trigger] bytes@[i] < 128,
        r matches Some(t) ==> (forall|i: int| 0 <= i < bytes@.len() ==> #[trigger] bytes@[i] < 128)
            ==> t@ == bytes@.map_values(|b: u8| b as char),
{
    String::from_utf8(bytes).ok()
}

/// A console that captures every byte written into a buffer.
pub struct FakeConsole {
    captured: Vec<u8>,
}

impl View for FakeConsole {
    type V = Seq<u8>;

    /// Every byte written so far, in order.
    closed spec fn view(&self) -> Seq<u8> {
        self.captured@
    }
}

impl FakeConsole {
    /// An empty console.
    pub fn new() -> (r: FakeConsole)
        ensures
            r@ == Seq::<u8>::empty(),
    {
        FakeConsole { captured: Vec::new() }
    }

    /// Append `bytes` to the captured output.
    pub fn write_bytes(&mut self, bytes: &[u8])
        ensures
            final(self)@ == old(self)@ + bytes@,
    {
        let mut i: usize = 0;
        while i < bytes.len()
            invariant
                i <= bytes@.len(),
                self.captured@ == old(self)@ + bytes@.subrange(0, i as int),
            decreases bytes@.len() - i,
        {
            self.captured.push(bytes[i]);
            i = i + 1;
            assert(bytes@.subrange(0, i as int) =~= bytes@.subrange(0, i - 1).push(bytes@[i - 1]));
        }
        assert(bytes@.subrange(0, bytes@.len() as int) =~= bytes@);
    }

    /// A copy of every byte captured so far.
    pub fn captured(&self) -> (r: Vec<u8>)
        ensures
            r@ == self@,
    {
        let mut out: Vec<u8> = Vec::new();
        let mut i: usize = 0;
        while i < self.captured.len()
            invariant
                i <= self.captured@.len(),
                out@ == self.captured@.subrange(0, i as int),
            decreases self.captured@.len() - i,
        {
            out.push(self.captured[i]);
            i = i + 1;
            assert(self.captured@.subrange(0, i as int) =~= self.captured@.subrange(0, i - 1).push(
                self.captured@[i - 1],
            ));
        }
        assert(self.captured@.subrange(0, self.captured@.len() as int) =~= self.captured@);
        out
    }

    /// The captured output as a string; the output must be valid UTF-8.
    pub fn captured_str(&self) -> (r: String)
        requires
            valid_utf8(self@),
        ensures
            r@ == decode_utf8(self@),
    {
        string_from_utf8(self.captured()).unwrap()
    }

    /// The captured output as a string, or `None` when it is not valid
    /// UTF-8.
    pub fn try_captured_str(&self) -> (r: Option<String>)
        ensures
            r is Some <==> valid_utf8(self@),
            r matches Some(s) ==> s@ == decode_utf8(self@),
    {
        match string_from_utf8(self.captured()) {
            Some(_) => Some(self.captured_str()),
            None => None,
        }
    }
}

impl Default for FakeConsole {
    fn default() -> (r: FakeConsole)
        ensures
            r@ == Seq::<u8>::empty(),
    {
        FakeConsole::new()
    }
}

} // verus!
