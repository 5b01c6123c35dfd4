//! The two byte buffers that every command writes into, so that what it
//! printed can be sent to files or to the terminal afterwards.

use vstd::prelude::*;
use vstd::utf8::encode_utf8;

verus! {

/// The buffers of a command: what it wrote as output and what as errors.
pub struct Output {
    pub out: Vec<u8>,
    pub err: Vec<u8>,
}

/// The contents of the two buffers.
#[verifier::ext_equal]
pub struct OutputModel {
    pub out: Seq<u8>,
    pub err: Seq<u8>,
}

impl View for Output {
    type V = OutputModel;

    open spec fn view(&self) -> OutputModel {
        OutputModel { out: self.out@, err: self.err@ }
    }
}

/// The bytes of one line of text: its UTF-8 encoding and a line feed.
pub open spec fn line_bytes(text: Seq<char>) -> Seq<u8> {
    encode_utf8(text) + seq![0x0Au8]
}

impl Output {
    /// Puts two buffers together; what they hold already is kept.
    pub fn new(out: Vec<u8>, err: Vec<u8>) -> (r: Self)
        ensures
            r@ == (OutputModel { out: out@, err: err@ }),
    {
        Self { out, err }
    }

    /// Adds what a child process wrote to its two streams, byte for byte.
    pub fn capture(&mut self, stdout: &[u8], stderr: &[u8])
        ensures
            final(self)@ == (OutputModel {
                out: old(self)@.out + stdout@,
                err: old(self)@.err + stderr@,
            }),
    {
        append_bytes(&mut self.out, stdout);
        append_bytes(&mut self.err, stderr);
    }
}

/// Adds `bytes` to the end of `w`.
pub fn append_bytes(w: &mut Vec<u8>, bytes: &[u8])
    ensures
        final(w)@ == old(w)@ + bytes@,
{
    let n = bytes.len();
    for i in 0..n
        invariant
            n == bytes@.len(),
            w@ == old(w)@ + bytes@.take(i as int),
    {
        w.push(bytes[i]);
        assert(bytes@.take(i + 1) == bytes@.take(i as int).push(bytes@[i as int]));
    }
    assert(bytes@.take(n as int) == bytes@);
}

/// Writes `buf` and a line feed to `w`.
pub fn write_and_flush_buf(w: &mut Vec<u8>, buf: &[u8])
    ensures
        final(w)@ == old(w)@ + buf@ + seq![0x0Au8],
{
    append_bytes(w, buf);
    w.push(0x0Au8);
}

/// Writes `s` as one line to `w`.
pub fn write_and_flush_str(w: &mut Vec<u8>, s: &str)
    ensures
        final(w)@ == old(w)@ + line_bytes(s@),
{
    write_and_flush_buf(w, s.as_bytes());
    assert(old(w)@ + encode_utf8(s@) + seq![0x0Au8] =~= old(w)@ + line_bytes(s@));
}

} // verus!
