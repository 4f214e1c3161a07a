use vstd::bytes::{
    lemma_auto_spec_u32_to_from_le_bytes, lemma_auto_spec_u64_to_from_le_bytes,
    spec_u32_from_le_bytes, spec_u32_to_le_bytes, spec_u64_from_le_bytes, spec_u64_to_le_bytes,
    u32_from_le_bytes, u32_to_le_bytes, u64_from_le_bytes, u64_to_le_bytes,
};
use vstd::prelude::*;
use vstd::slice::slice_subrange;

verus! {

/// Size in bytes of a page payload.
pub const PAGE_SIZE: usize = 4096;

/// Size in bytes of the encoded frame header: page_no, size_after, frame_no.
pub const HEADER_SIZE: usize = 16;

/// Size in bytes of one encoded frame: header followed by the page payload.
pub const FRAME_SIZE: usize = 4112;

/// Position of a frame in the log.
pub type FrameNo = u64;

/// Header of a log frame. A nonzero `size_after` marks a commit boundary.
#[derive(Clone, Copy, Debug, PartialEq, Eq, Structural)]
pub struct FrameHeader {
    pub frame_no: u64,
    pub page_no: u32,
    pub size_after: u32,
}

/// One log record: a header and the page it carries.
#[derive(Clone, Debug)]
pub struct Frame {
    pub header: FrameHeader,
    pub data: Vec<u8>,
}

/// Errors of the frame codec.
#[derive(Clone, Copy, Debug, PartialEq, Eq, Structural)]
pub enum FrameError {
    /// The buffer is not exactly `FRAME_SIZE` bytes long.
    InvalidFrameSize,
}

impl View for Frame {
    type V = (FrameHeader, Seq<u8>);

    open spec fn view(&self) -> (FrameHeader, Seq<u8>) {
        (self.header, self.data@)
    }
}

impl Frame {
    /// A frame is well formed when it carries exactly one page.
    pub open spec fn wf(&self) -> bool {
        self.data@.len() == PAGE_SIZE
    }

    /// Builds a frame from its header and payload.
    pub fn new(header: FrameHeader, data: Vec<u8>) -> (r: Frame)
        ensures
            r@ == (header, data@),
    {
        Frame { header, data }
    }

    pub fn frame_no(&self) -> (r: u64)
        ensures
            r == self.header.frame_no,
    {
        self.header.frame_no
    }

    pub fn page_no(&self) -> (r: u32)
        ensures
            r == self.header.page_no,
    {
        self.header.page_no
    }

    pub fn size_after(&self) -> (r: u32)
        ensures
            r == self.header.size_after,
    {
        self.header.size_after
    }

    /// Whether this frame closes a transaction.
    pub fn is_commit(&self) -> (r: bool)
        ensures
            r == (self.header.size_after != 0),
    {
        self.header.size_after != 0
    }
}

/// The wire bytes of a header.
pub open spec fn header_bytes(h: FrameHeader) -> Seq<u8> {
    spec_u32_to_le_bytes(h.page_no) + spec_u32_to_le_bytes(h.size_after) + spec_u64_to_le_bytes(
        h.frame_no,
    )
}

/// The wire bytes of a frame: header, then payload.
pub open spec fn frame_bytes(f: (FrameHeader, Seq<u8>)) -> Seq<u8> {
    header_bytes(f.0) + f.1
}

/// The header read from the first `HEADER_SIZE` bytes of a buffer.
pub open spec fn header_of(b: Seq<u8>) -> FrameHeader {
    FrameHeader {
        page_no: spec_u32_from_le_bytes(b.subrange(0, 4)),
        size_after: spec_u32_from_le_bytes(b.subrange(4, 8)),
        frame_no: spec_u64_from_le_bytes(b.subrange(8, 16)),
    }
}

/// The frame that a buffer of `FRAME_SIZE` bytes holds.
pub open spec fn frame_of(b: Seq<u8>) -> (FrameHeader, Seq<u8>) {
    (header_of(b), b.subrange(HEADER_SIZE as int, b.len() as int))
}

/// Encodes a frame into its fixed wire layout.
pub fn encode(f: &Frame) -> (r: Vec<u8>)
    ensures
        r@ == frame_bytes(f@),
        f.wf() ==> r@.len() == FRAME_SIZE,
{
    proof {
        lemma_auto_spec_u32_to_from_le_bytes();
        lemma_auto_spec_u64_to_from_le_bytes();
    }
    let mut out = u32_to_le_bytes(f.header.page_no);
    let mut size_after = u32_to_le_bytes(f.header.size_after);
    let mut frame_no = u64_to_le_bytes(f.header.frame_no);
    out.append(&mut size_after);
    out.append(&mut frame_no);
    out.extend_from_slice(f.data.as_slice());
    out
}

/// Decodes one frame from a buffer, which must be exactly `FRAME_SIZE` bytes.
/// The bytes are copied, so the buffer needs no particular alignment.
pub fn decode(bytes: &[u8]) -> (r: Result<Frame, FrameError>)
    ensures
        bytes@.len() == FRAME_SIZE <==> r is Ok,
        r is Err ==> r == Err::<Frame, FrameError>(FrameError::InvalidFrameSize),
        r matches Ok(f) ==> f@ == frame_of(bytes@) && f.wf(),
{
    if bytes.len() != FRAME_SIZE {
        return Err(FrameError::InvalidFrameSize);
    }
    let page_no = u32_from_le_bytes(slice_subrange(bytes, 0, 4));
    let size_after = u32_from_le_bytes(slice_subrange(bytes, 4, 8));
    let frame_no = u64_from_le_bytes(slice_subrange(bytes, 8, 16));
    let mut data: Vec<u8> = Vec::with_capacity(PAGE_SIZE);
    data.extend_from_slice(slice_subrange(bytes, HEADER_SIZE, FRAME_SIZE));
    Ok(Frame { header: FrameHeader { frame_no, page_no, size_after }, data })
}

/// Decoding the encoding of a well-formed frame gives that frame back, and
/// encoding what a buffer of the fixed size decodes to gives the buffer back.
pub proof fn lemma_codec_round_trip(f: (FrameHeader, Seq<u8>), b: Seq<u8>)
    requires
        f.1.len() == PAGE_SIZE,
        b.len() == FRAME_SIZE,
    ensures
        frame_bytes(f).len() == FRAME_SIZE,
        frame_of(frame_bytes(f)) == f,
        frame_bytes(frame_of(b)) == b,
{
    lemma_auto_spec_u32_to_from_le_bytes();
    lemma_auto_spec_u64_to_from_le_bytes();
    let e = frame_bytes(f);
    let h = f.0;
    assert(e.subrange(0, 4) =~= spec_u32_to_le_bytes(h.page_no));
    assert(e.subrange(4, 8) =~= spec_u32_to_le_bytes(h.size_after));
    assert(e.subrange(8, 16) =~= spec_u64_to_le_bytes(h.frame_no));
    assert(e.subrange(HEADER_SIZE as int, e.len() as int) =~= f.1);
    assert(frame_of(e) == f);
    let g = frame_of(b);
    assert(spec_u32_to_le_bytes(spec_u32_from_le_bytes(b.subrange(0, 4))) == b.subrange(0, 4));
    assert(spec_u32_to_le_bytes(spec_u32_from_le_bytes(b.subrange(4, 8))) == b.subrange(4, 8));
    assert(spec_u64_to_le_bytes(spec_u64_from_le_bytes(b.subrange(8, 16))) == b.subrange(8, 16));
    assert(frame_bytes(g) =~= b);
}

} // verus!
