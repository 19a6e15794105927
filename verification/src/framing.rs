//! Length-prefixed frames of the input protocol: a big-endian `u16` length, then
//! that many bytes. The decoder keeps partial frames and gives out only whole ones,
//! so stopping a read half-way never loses or reorders bytes.

use vstd::prelude::*;

verus! {

/// The wire form of one frame.
pub open spec fn framed(data: Seq<u8>) -> Seq<u8> {
    seq![(data.len() / 256) as u8, (data.len() % 256) as u8] + data
}

/// The length a buffer's first two bytes announce.
pub open spec fn announced(buf: Seq<u8>) -> int {
    buf[0] * 256 + buf[1]
}

/// Whether a buffer starts with a whole frame.
pub open spec fn has_frame(buf: Seq<u8>) -> bool {
    buf.len() >= 2 && buf.len() >= 2 + announced(buf)
}

/// Writes one frame; payloads longer than `u16::MAX` are refused.
pub fn encode_frame(data: &[u8]) -> (r: Result<Vec<u8>, String>)
    ensures
        data@.len() > 0xffff ==> (r is Err && r->Err_0@ == "Data too large"@),
        data@.len() <= 0xffff ==> (r is Ok && r->Ok_0@ == framed(data@)),
{
    let n = data.len();
    if n > 0xffff {
        return Err("Data too large".to_owned());
    }
    let mut out: Vec<u8> = Vec::new();
    out.push((n / 256) as u8);
    out.push((n % 256) as u8);
    let mut i: usize = 0;
    while i < n
        invariant
            n == data@.len(),
            n <= 0xffff,
            i <= n,
            out@ == seq![(n / 256) as u8, (n % 256) as u8] + data@.subrange(0, i as int),
        decreases n - i,
    {
        out.push(data[i]);
        i = i + 1;
        assert(out@ =~= seq![(n / 256) as u8, (n % 256) as u8] + data@.subrange(0, i as int));
    }
    assert(data@.subrange(0, n as int) =~= data@);
    Ok(out)
}

/// Buffer of received bytes not yet taken as frames.
#[derive(Debug)]
pub struct FrameDecoder {
    buf: Vec<u8>,
}

impl View for FrameDecoder {
    type V = Seq<u8>;

    /// The buffered bytes, oldest first.
    closed spec fn view(&self) -> Seq<u8> {
        self.buf@
    }
}

impl FrameDecoder {
    /// An empty decoder.
    pub fn new() -> (d: FrameDecoder)
        ensures
            d@ == Seq::<u8>::empty(),
    {
        FrameDecoder { buf: Vec::new() }
    }

    /// Appends bytes read from the stream.
    pub fn extend(&mut self, bytes: &[u8])
        ensures
            final(self)@ == old(self)@ + bytes@,
    {
        let ghost before = self.buf@;
        let mut i: usize = 0;
        while i < bytes.len()
            invariant
                i <= bytes@.len(),
                self.buf@ == before + bytes@.subrange(0, i as int),
            decreases bytes@.len() - i,
        {
            self.buf.push(bytes[i]);
            i = i + 1;
            assert(self.buf@ =~= before + bytes@.subrange(0, i as int));
        }
        assert(bytes@.subrange(0, bytes@.len() as int) =~= bytes@);
    }

    /// The payload of the first frame, when the buffer holds it whole.
    pub fn complete_frame(&self) -> (r: Option<Vec<u8>>)
        ensures
            r is Some <==> has_frame(self@),
            r is Some ==> r->0@ == self@.subrange(2, 2 + announced(self@)),
    {
        if self.buf.len() < 2 {
            return None;
        }
        let length: usize = (self.buf[0] as usize) * 256 + (self.buf[1] as usize);
        if self.buf.len() < 2 + length {
            return None;
        }
        let mut out: Vec<u8> = Vec::new();
        let mut i: usize = 2;
        while i < 2 + length
            invariant
                2 <= i <= 2 + length,
                2 + length <= self.buf@.len(),
                length == announced(self.buf@),
                out@ == self.buf@.subrange(2, i as int),
            decreases 2 + length - i,
        {
            out.push(self.buf[i]);
            i = i + 1;
            assert(out@ =~= self.buf@.subrange(2, i as int));
        }
        Some(out)
    }

    /// Drops the first frame once it has been taken.
    pub fn consume_frame(&mut self)
        requires
            has_frame(old(self)@),
        ensures
            final(self)@ == old(self)@.skip(2 + announced(old(self)@)),
    {
        let length: usize = (self.buf[0] as usize) * 256 + (self.buf[1] as usize);
        let total: usize = 2 + length;
        let mut rest: Vec<u8> = Vec::new();
        let mut i: usize = total;
        while i < self.buf.len()
            invariant
                total <= i <= self.buf@.len(),
                rest@ == self.buf@.subrange(total as int, i as int),
            decreases self.buf@.len() - i,
        {
            rest.push(self.buf[i]);
            i = i + 1;
            assert(rest@ =~= self.buf@.subrange(total as int, i as int));
        }
        assert(rest@ =~= self.buf@.skip(total as int));
        self.buf = rest;
    }
}

impl Default for FrameDecoder {
    fn default() -> (d: FrameDecoder)
        ensures
            d@ == Seq::<u8>::empty(),
    {
        FrameDecoder::new()
    }
}

/// Frames written one after another are read back one by one, in order: the first
/// frame of the stream is the first payload, and taking it leaves the rest untouched.
pub proof fn law_frames_read_back_in_order(data: Seq<u8>, rest: Seq<u8>)
    requires
        data.len() <= 0xffff,
    ensures
        has_frame(framed(data) + rest),
        (framed(data) + rest).subrange(2, 2 + announced(framed(data) + rest)) == data,
        (framed(data) + rest).skip(2 + announced(framed(data) + rest)) == rest,
{
    let s = framed(data) + rest;
    let n = data.len() as int;
    assert(s[0] == (n / 256) as u8);
    assert(s[1] == (n % 256) as u8);
    assert(announced(s) == n);
    assert(s.subrange(2, 2 + n) =~= data);
    assert(s.skip(2 + n) =~= rest);
}

} // verus!
