//! The binary container codec.
//!
//! A stream is laid out as:
//! - a container header of exactly 72 bytes: an 8-byte magic constant, a
//!   4-byte little-endian format version, a 4-byte little-endian
//!   frames-per-second value, a 4-byte source identifier, and 52 reserved
//!   zero bytes;
//! - zero or more frame records, each: a 4-byte little-endian
//!   record-header length (at least 12), a 4-byte little-endian compressed
//!   length, a 4-byte little-endian raw length, any reserved record-header
//!   bytes beyond the first 12 (consumed and discarded on read), and then
//!   the compressed payload bytes.
//!
//! `Saver` appends records to an in-memory stream; `Loader` walks a stream
//! strictly sequentially.  There is no random access and no index.

use vstd::prelude::*;

verus! {

use vstd::bytes::{spec_u32_from_le_bytes, spec_u32_to_le_bytes};

use crate::compress::{unzlib_of, zlib_compress, zlib_decompress, zlib_of};
use crate::encoding::{
    lemma_i32_le_bytes_round_trip, lemma_u32_le_bytes_round_trip, push_bytes, push_i32_le,
    push_repeated, push_u32_le, read_i32_le, read_u32_le, spec_i32_from_le_bytes,
    spec_i32_to_le_bytes,
};
use vstd::slice::slice_subrange;

/// The newest stream format version this implementation understands.
pub const CURRENT_VERSION: i32 = 1;

/// Total size of the container header, independent of its field values.
pub const CONTAINER_HEADER_SIZE: usize = 72;

/// Size of the known part of a frame-record header: the record-header
/// length itself, the compressed length and the raw length.
pub const FRAME_HEADER_SIZE: u32 = 12;

/// The number of reserved bytes that pad the container header to 72.
pub const CONTAINER_PADDING_SIZE: usize = 52;

#[derive(Debug)]
pub enum IOError {
    /// The stream declares a format version newer than `CURRENT_VERSION`.
    UnsupportedVersion(i32),
    /// A frame record declares a header shorter than the 12 known bytes.
    InvalidHeaderSize(i32),
    /// The stream does not begin with the magic constant.
    InvalidMagic,
    /// A frame's compressed payload is not a well-formed zlib stream.
    DecompressionFailed,
    /// The stream ends in the middle of a header or a frame record.
    Io,
}

/// The 8-byte magic constant that opens every stream: the bytes of
/// "RECROCKS".
pub open spec fn spec_magic() -> Seq<u8> {
    seq![82u8, 69u8, 67u8, 82u8, 79u8, 67u8, 75u8, 83u8]
}

/// The container header for a given frame rate and source identifier.
pub open spec fn spec_container_header(fps: i32, id: Seq<u8>) -> Seq<u8> {
    spec_magic() + spec_i32_to_le_bytes(CURRENT_VERSION) + spec_i32_to_le_bytes(fps) + id
        + Seq::new(CONTAINER_PADDING_SIZE as nat, |i: int| 0u8)
}

/// The frame record a `Saver` writes for the raw payload `p`.
pub open spec fn spec_frame_record(p: Seq<u8>) -> Seq<u8> {
    spec_u32_to_le_bytes(FRAME_HEADER_SIZE) + spec_u32_to_le_bytes(zlib_of(p).len() as u32)
        + spec_u32_to_le_bytes(p.len() as u32) + zlib_of(p)
}

/// Both length fields of the frame record for `p` fit in 32 bits.
pub open spec fn frame_fits(p: Seq<u8>) -> bool {
    p.len() <= u32::MAX && zlib_of(p).len() <= u32::MAX
}

/// Decompressing the compressed form of `p` gives `p` back.  This holds
/// of every payload; it becomes *known* for a payload once the compressor
/// has run on it, and `Saver` records it for each saved frame.
pub open spec fn frame_invertible(p: Seq<u8>) -> bool {
    unzlib_of(zlib_of(p)) == Some(p)
}

/// The concatenation of the frame records for `frames`, in order.
pub open spec fn spec_frame_records(frames: Seq<Seq<u8>>) -> Seq<u8>
    decreases frames.len(),
{
    if frames.len() == 0 {
        Seq::empty()
    } else {
        spec_frame_record(frames[0]) + spec_frame_records(frames.drop_first())
    }
}

/// Every saved frame fits the record format and is known to decompress
/// back to itself.
pub open spec fn saved_frames_wf(frames: Seq<Seq<u8>>) -> bool {
    forall|i: int|
        0 <= i < frames.len() ==> frame_fits(#[trigger] frames[i]) && frame_invertible(frames[i])
}

/// The complete stream for a header and a sequence of raw frame payloads.
pub open spec fn spec_stream(fps: i32, id: Seq<u8>, frames: Seq<Seq<u8>>) -> Seq<u8> {
    spec_container_header(fps, id) + spec_frame_records(frames)
}

/// Appends the magic constant to `out`.
fn push_magic(out: &mut Vec<u8>)
    ensures
        final(out)@ == old(out)@ + spec_magic(),
{
    out.push(82);
    out.push(69);
    out.push(67);
    out.push(82);
    out.push(79);
    out.push(67);
    out.push(75);
    out.push(83);
    proof {
        assert(out@ =~= old(out)@ + spec_magic());
    }
}

/// True exactly when the first 8 bytes of `data` are the magic constant.
fn check_magic(data: &[u8]) -> (r: bool)
    requires
        data@.len() >= 8,
    ensures
        r == (data@.subrange(0, 8) == spec_magic()),
{
    let r = data[0] == 82 && data[1] == 69 && data[2] == 67 && data[3] == 82 && data[4] == 79
        && data[5] == 67 && data[6] == 75 && data[7] == 83;
    proof {
        let sub = data@.subrange(0, 8);
        assert(forall|i: int| 0 <= i < 8 ==> sub[i] == data@[i]);
        if r {
            assert(sub =~= spec_magic());
        } else {
            assert(sub != spec_magic());
        }
    }
    r
}

/// Streams compressed frame records into an in-memory container stream.
///
/// The stream grows append-only; `data` exposes it so a caller can hand
/// the bytes to whatever sink it manages.
pub struct Saver {
    out: Vec<u8>,
    fps: i32,
    id: [u8; 4],
    frames: Ghost<Seq<Seq<u8>>>,
}

impl Saver {
    /// The bytes of the stream written so far.
    pub closed spec fn stream(self) -> Seq<u8> {
        self.out@
    }

    /// The frame rate the header was written with.
    pub closed spec fn fps_val(self) -> i32 {
        self.fps
    }

    /// The source identifier the header was written with.
    pub closed spec fn id_val(self) -> Seq<u8> {
        self.id@
    }

    /// The raw payloads of the frames saved so far, in order.
    pub closed spec fn frames(self) -> Seq<Seq<u8>> {
        self.frames@
    }

    /// The stream is exactly the header followed by one record per saved
    /// frame, and each saved frame is known to round-trip through the
    /// compressor.
    pub open spec fn wf(self) -> bool {
        &&& self.stream() == spec_stream(self.fps_val(), self.id_val(), self.frames())
        &&& saved_frames_wf(self.frames())
    }

    /// Starts a stream by writing the 72-byte container header.
    pub fn new(fps: i32, id: [u8; 4]) -> (s: Saver)
        ensures
            s.wf(),
            s.fps_val() == fps,
            s.id_val() == id@,
            s.frames() == Seq::<Seq<u8>>::empty(),
            s.stream() == spec_container_header(fps, id@),
            s.stream().len() == CONTAINER_HEADER_SIZE,
    {
        let mut out: Vec<u8> = Vec::new();
        push_magic(&mut out);
        push_i32_le(&mut out, CURRENT_VERSION);
        push_i32_le(&mut out, fps);
        push_bytes(&mut out, id.as_slice());
        push_repeated(&mut out, 0, CONTAINER_PADDING_SIZE);
        proof {
            lemma_i32_le_bytes_round_trip();
            assert(out@ =~= spec_container_header(fps, id@));
            assert(spec_container_header(fps, id@) + spec_frame_records(Seq::empty())
                =~= spec_container_header(fps, id@));
            assert(out@.len() == 72);
        }
        Saver { out, fps, id, frames: Ghost(Seq::empty()) }
    }

    /// Compresses `data` and appends one frame record for it.
    ///
    /// Fails only where a length field would not fit in 32 bits; the
    /// stream is left untouched in that case.
    pub fn save(&mut self, data: &[u8]) -> (r: Result<(), IOError>)
        ensures
            final(self).fps_val() == old(self).fps_val(),
            final(self).id_val() == old(self).id_val(),
            r is Ok <==> frame_fits(data@),
            r matches Ok(()) ==> {
                &&& frame_invertible(data@)
                &&& final(self).frames() == old(self).frames().push(data@)
                &&& final(self).stream() == old(self).stream() + spec_frame_record(data@)
                &&& old(self).wf() ==> final(self).wf()
            },
            r matches Err(e) ==> e matches IOError::Io && *final(self) == *old(self),
    {
        if data.len() > u32::MAX as usize {
            return Err(IOError::Io);
        }
        let compressed = zlib_compress(data);
        if compressed.len() > u32::MAX as usize {
            return Err(IOError::Io);
        }
        let ghost prefix = self.out@;
        push_u32_le(&mut self.out, FRAME_HEADER_SIZE);
        push_u32_le(&mut self.out, compressed.len() as u32);
        push_u32_le(&mut self.out, data.len() as u32);
        push_bytes(&mut self.out, compressed.as_slice());
        proof {
            assert(self.out@ =~= prefix + spec_frame_record(data@));
            let newframes = old(self).frames@.push(data@);
            if old(self).wf() {
                lemma_frame_records_push(old(self).frames@, data@);
                assert(prefix + spec_frame_record(data@) =~= spec_container_header(
                    self.fps,
                    self.id@,
                ) + spec_frame_records(newframes));
                assert forall|i: int| 0 <= i < newframes.len() implies frame_fits(
                    #[trigger] newframes[i],
                ) && frame_invertible(newframes[i]) by {
                    if i < old(self).frames@.len() {
                        assert(newframes[i] == old(self).frames@[i]);
                    } else {
                        assert(newframes[i] == data@);
                    }
                }
            }
        }
        self.frames = Ghost(self.frames@.push(data@));
        Ok(())
    }

    /// Forces buffered bytes out.  The in-memory stream already holds
    /// every byte written, so there is nothing left to move.
    pub fn flush(&mut self) -> (r: Result<(), IOError>)
        ensures
            r is Ok,
            *final(self) == *old(self),
    {
        Ok(())
    }

    /// The stream written so far, for the caller's sink.
    pub fn data(&self) -> (r: &Vec<u8>)
        ensures
            r@ == self.stream(),
    {
        &self.out
    }
}

/// Appending one frame's record extends the concatenation of records at
/// the end.
pub proof fn lemma_frame_records_push(frames: Seq<Seq<u8>>, p: Seq<u8>)
    ensures
        spec_frame_records(frames.push(p)) == spec_frame_records(frames) + spec_frame_record(p),
    decreases frames.len(),
{
    if frames.len() == 0 {
        assert(frames.push(p)[0] == p);
        assert(frames.push(p).drop_first() =~= Seq::<Seq<u8>>::empty());
        assert(spec_frame_record(p) + spec_frame_records(Seq::empty()) =~= spec_frame_record(p));
        assert(spec_frame_records(frames) + spec_frame_record(p) =~= spec_frame_record(p));
    } else {
        lemma_frame_records_push(frames.drop_first(), p);
        assert(frames.push(p)[0] == frames[0]);
        assert(frames.push(p).drop_first() =~= frames.drop_first().push(p));
        assert(spec_frame_record(frames[0]) + (spec_frame_records(frames.drop_first())
            + spec_frame_record(p)) =~= (spec_frame_record(frames[0]) + spec_frame_records(
            frames.drop_first(),
        )) + spec_frame_record(p));
    }
}

/// The outcome of reading the container header from the front of a
/// stream.
pub enum ContainerHeader {
    /// The stream ends inside the header.
    TooShort,
    /// The first 8 bytes are not the magic constant.
    BadMagic,
    /// The declared format version is newer than `CURRENT_VERSION`.
    BadVersion(i32),
    /// A well-formed header with its version, frame rate and identifier.
    Valid { version: i32, fps: i32, id: Seq<u8> },
}

/// Reads the container header from the front of `s`.
pub open spec fn spec_parse_container(s: Seq<u8>) -> ContainerHeader {
    if s.len() < 8 {
        ContainerHeader::TooShort
    } else if s.subrange(0, 8) != spec_magic() {
        ContainerHeader::BadMagic
    } else if s.len() < 12 {
        ContainerHeader::TooShort
    } else {
        let version = spec_i32_from_le_bytes(s.subrange(8, 12));
        if version > CURRENT_VERSION {
            ContainerHeader::BadVersion(version)
        } else if s.len() < 72 {
            ContainerHeader::TooShort
        } else {
            ContainerHeader::Valid {
                version,
                fps: spec_i32_from_le_bytes(s.subrange(12, 16)),
                id: s.subrange(16, 20),
            }
        }
    }
}

/// The outcome of reading one frame record at position `pos` of a stream.
pub enum FrameStep {
    /// The stream ends cleanly at a frame boundary.
    End,
    /// The record declares a header shorter than the 12 known bytes.
    BadHeader(i32),
    /// The stream ends inside the record.
    Truncated,
    /// The compressed payload is not a well-formed zlib stream.
    Corrupt,
    /// A complete record: the decompressed payload and the position of
    /// the next record.
    Frame { payload: Seq<u8>, next: int },
}

/// Reads one frame record of `s` starting at `pos`.
///
/// Running out of bytes inside the first 8 — before the raw-length field
/// — counts as a clean end of stream; running out later is truncation.
pub open spec fn spec_parse_frame(s: Seq<u8>, pos: int) -> FrameStep {
    let n = s.len() as int;
    if n - pos < 4 {
        FrameStep::End
    } else {
        let h = spec_i32_from_le_bytes(s.subrange(pos, pos + 4));
        if h < 12 {
            FrameStep::BadHeader(h)
        } else if n - pos < 8 {
            FrameStep::End
        } else {
            let c = spec_u32_from_le_bytes(s.subrange(pos + 4, pos + 8)) as int;
            if n - pos < 12 {
                FrameStep::Truncated
            } else if n - pos < 12 + (h - 12) + c {
                FrameStep::Truncated
            } else {
                let body = pos + 12 + (h - 12);
                match unzlib_of(s.subrange(body, body + c)) {
                    Option::None => FrameStep::Corrupt,
                    Option::Some(p) => FrameStep::Frame { payload: p, next: body + c },
                }
            }
        }
    }
}

/// Reads frame records from `pos` to the end of `s`: the payloads in
/// order on a clean end of stream, `None` on any malformed record.
pub open spec fn spec_parse_frames(s: Seq<u8>, pos: int) -> Option<Seq<Seq<u8>>>
    decreases s.len() - pos
    when 0 <= pos <= s.len()
{
    match spec_parse_frame(s, pos) {
        FrameStep::End => Some(Seq::empty()),
        FrameStep::Frame { payload, next } => match spec_parse_frames(s, next) {
            Some(rest) => Some(seq![payload] + rest),
            None => None,
        },
        _ => None,
    }
}

/// A stream that begins with a container header parses back to that
/// header, whatever follows it.
proof fn lemma_parse_container_of_stream(fps: i32, id: Seq<u8>, tail: Seq<u8>)
    requires
        id.len() == 4,
    ensures
        spec_parse_container(spec_container_header(fps, id) + tail) == (ContainerHeader::Valid {
            version: CURRENT_VERSION,
            fps,
            id,
        }),
{
    lemma_i32_le_bytes_round_trip();
    let s = spec_container_header(fps, id) + tail;
    assert(spec_container_header(fps, id).len() == 72);
    assert(s.subrange(0, 8) =~= spec_magic());
    assert(s.subrange(8, 12) =~= spec_i32_to_le_bytes(CURRENT_VERSION));
    assert(s.subrange(12, 16) =~= spec_i32_to_le_bytes(fps));
    assert(s.subrange(16, 20) =~= id);
}

/// Frame records laid end to end from `pos` to the end of the stream
/// parse back to exactly the payloads they were written from.
proof fn lemma_parse_frames_of_records(s: Seq<u8>, pos: int, frames: Seq<Seq<u8>>)
    requires
        0 <= pos <= s.len(),
        s.subrange(pos, s.len() as int) == spec_frame_records(frames),
        saved_frames_wf(frames),
    ensures
        spec_parse_frames(s, pos) == Some(frames),
    decreases frames.len(),
{
    lemma_u32_le_bytes_round_trip();
    lemma_i32_le_bytes_round_trip();
    let n = s.len() as int;
    let tail = s.subrange(pos, n);
    if frames.len() == 0 {
        assert(tail.len() == 0);
        assert(spec_parse_frame(s, pos) == FrameStep::End);
    } else {
        let f0 = frames[0];
        let rest = frames.drop_first();
        let record = spec_frame_record(f0);
        let clen = zlib_of(f0).len() as int;
        let a = spec_u32_to_le_bytes(FRAME_HEADER_SIZE);
        let b = spec_u32_to_le_bytes(zlib_of(f0).len() as u32);
        let d = spec_u32_to_le_bytes(f0.len() as u32);
        let z = zlib_of(f0);
        assert(frame_fits(f0) && frame_invertible(f0));
        assert(record == a + b + d + z);
        assert(a.len() == 4 && b.len() == 4 && d.len() == 4);
        assert(record.len() == 12 + clen);
        assert(tail == record + spec_frame_records(rest));
        assert(n - pos == record.len() + spec_frame_records(rest).len());

        assert(s.subrange(pos, pos + 4) =~= tail.subrange(0, 4));
        assert(tail.subrange(0, 4) =~= record.subrange(0, 4));
        assert(record.subrange(0, 4) =~= a);
        let h = spec_i32_from_le_bytes(s.subrange(pos, pos + 4));
        assert(spec_u32_from_le_bytes(spec_u32_to_le_bytes(FRAME_HEADER_SIZE))
            == FRAME_HEADER_SIZE);
        assert(h == 12);

        assert(s.subrange(pos + 4, pos + 8) =~= tail.subrange(4, 8));
        assert(tail.subrange(4, 8) =~= record.subrange(4, 8));
        assert(record.subrange(4, 8) =~= b);
        let c = spec_u32_from_le_bytes(s.subrange(pos + 4, pos + 8)) as int;
        assert(c == clen);

        let body = pos + 12;
        assert(s.subrange(body, body + c) =~= tail.subrange(12, 12 + clen));
        assert(tail.subrange(12, 12 + clen) =~= record.subrange(12, 12 + clen));
        assert(record.subrange(12, 12 + clen) =~= z);
        assert(unzlib_of(s.subrange(body, body + c)) == Some(f0));
        assert(spec_parse_frame(s, pos) == (FrameStep::Frame { payload: f0, next: body + c }));
        let next = body + c;
        assert(s.subrange(next, n) =~= tail.subrange(12 + clen, tail.len() as int));
        assert(tail.subrange(12 + clen, tail.len() as int) =~= spec_frame_records(rest));
        assert(saved_frames_wf(rest)) by {
            assert forall|i: int| 0 <= i < rest.len() implies frame_fits(#[trigger] rest[i])
                && frame_invertible(rest[i]) by {
                assert(rest[i] == frames[i + 1]);
            }
        }
        lemma_parse_frames_of_records(s, next, rest);
        assert(seq![f0] + rest =~= frames);
    }
}

/// Law: a well-formed `Saver` stream — the container header followed by
/// one record per saved payload — reads back exactly.  The header parses
/// as valid with the written frame rate and identifier, and the records
/// parse to the saved payloads in order, ending cleanly after the last.
pub proof fn lemma_saver_round_trip(s: Saver)
    requires
        s.wf(),
    ensures
        spec_parse_container(s.stream()) == (ContainerHeader::Valid {
            version: CURRENT_VERSION,
            fps: s.fps_val(),
            id: s.id_val(),
        }),
        spec_parse_frames(s.stream(), CONTAINER_HEADER_SIZE as int) == Some(s.frames()),
{
    lemma_parse_container_of_stream(s.fps_val(), s.id_val(), spec_frame_records(s.frames()));
    assert(spec_container_header(s.fps_val(), s.id_val()).len() == 72) by {
        lemma_i32_le_bytes_round_trip();
    }
    assert(s.stream().subrange(72, s.stream().len() as int) =~= spec_frame_records(s.frames()));
    lemma_parse_frames_of_records(s.stream(), 72, s.frames());
}

/// Reconstructs raw frame payloads from a recorded container stream.
pub struct Loader {
    data: Vec<u8>,
    pos: usize,
    version: i32,
    fps: i32,
    id: [u8; 4],
}

impl Loader {
    /// The whole stream being read.
    pub closed spec fn bytes(self) -> Seq<u8> {
        self.data@
    }

    /// The position of the next unread byte.
    pub closed spec fn cursor(self) -> int {
        self.pos as int
    }

    pub closed spec fn version_val(self) -> i32 {
        self.version
    }

    pub closed spec fn fps_val(self) -> i32 {
        self.fps
    }

    pub closed spec fn id_val(self) -> Seq<u8> {
        self.id@
    }

    /// The cursor never runs past the end of the stream.
    pub open spec fn inv(self) -> bool {
        0 <= self.cursor() <= self.bytes().len()
    }

    /// Validates the container header of `data` and positions the cursor
    /// on the first frame record.
    pub fn new(data: Vec<u8>) -> (r: Result<Loader, IOError>)
        ensures
            match spec_parse_container(data@) {
                ContainerHeader::TooShort => r matches Err(IOError::Io),
                ContainerHeader::BadMagic => r matches Err(IOError::InvalidMagic),
                ContainerHeader::BadVersion(v) => r matches Err(IOError::UnsupportedVersion(w))
                    && w == v,
                ContainerHeader::Valid { version, fps, id } => r matches Ok(l) && {
                    &&& l.inv()
                    &&& l.bytes() == data@
                    &&& l.cursor() == CONTAINER_HEADER_SIZE
                    &&& l.version_val() == version
                    &&& l.fps_val() == fps
                    &&& l.id_val() == id
                },
            },
    {
        if data.len() < 8 {
            return Err(IOError::Io);
        }
        if !check_magic(data.as_slice()) {
            return Err(IOError::InvalidMagic);
        }
        if data.len() < 12 {
            return Err(IOError::Io);
        }
        let version = read_i32_le(data.as_slice(), 8);
        if version > CURRENT_VERSION {
            return Err(IOError::UnsupportedVersion(version));
        }
        if data.len() < CONTAINER_HEADER_SIZE {
            return Err(IOError::Io);
        }
        let fps = read_i32_le(data.as_slice(), 12);
        let id: [u8; 4] = [data[16], data[17], data[18], data[19]];
        proof {
            assert(id@ =~= data@.subrange(16, 20));
        }
        Ok(Loader { data, pos: CONTAINER_HEADER_SIZE, version, fps, id })
    }

    /// The format version the stream declares; at most `CURRENT_VERSION`.
    pub fn version(&self) -> (r: i32)
        ensures
            r == self.version_val(),
    {
        self.version
    }

    /// The frame rate the stream was recorded at.
    pub fn fps(&self) -> (r: i32)
        ensures
            r == self.fps_val(),
    {
        self.fps
    }

    /// The 4-byte identifier of the source the stream was recorded from.
    pub fn id(&self) -> (r: [u8; 4])
        ensures
            r@ == self.id_val(),
    {
        self.id
    }

    /// Reads the next frame record and returns its decompressed payload.
    ///
    /// Returns `Ok(None)` on a clean end of stream; since the cursor does
    /// not move in that case, every later call keeps returning
    /// `Ok(None)`.  The cursor does not move on errors either.
    pub fn load(&mut self) -> (r: Result<Option<Vec<u8>>, IOError>)
        requires
            old(self).inv(),
        ensures
            final(self).inv(),
            final(self).bytes() == old(self).bytes(),
            final(self).version_val() == old(self).version_val(),
            final(self).fps_val() == old(self).fps_val(),
            final(self).id_val() == old(self).id_val(),
            match spec_parse_frame(old(self).bytes(), old(self).cursor()) {
                FrameStep::End => r matches Ok(None) && final(self).cursor() == old(self).cursor(),
                FrameStep::BadHeader(h) => r matches Err(IOError::InvalidHeaderSize(g)) && g == h
                    && final(self).cursor() == old(self).cursor(),
                FrameStep::Truncated => r matches Err(IOError::Io)
                    && final(self).cursor() == old(self).cursor(),
                FrameStep::Corrupt => r matches Err(IOError::DecompressionFailed)
                    && final(self).cursor() == old(self).cursor(),
                FrameStep::Frame { payload, next } => r matches Ok(Some(v)) && v@ == payload
                    && final(self).cursor() == next,
            },
    {
        let n = self.data.len();
        let rem = n - self.pos;
        if rem < 4 {
            return Ok(None);
        }
        let h = read_i32_le(self.data.as_slice(), self.pos);
        if h < 12 {
            return Err(IOError::InvalidHeaderSize(h));
        }
        if rem < 8 {
            return Ok(None);
        }
        let c = read_u32_le(self.data.as_slice(), self.pos + 4);
        if rem < 12 {
            return Err(IOError::Io);
        }
        let raw = read_u32_le(self.data.as_slice(), self.pos + 8);
        // any record-header bytes beyond the known 12 are reserved:
        // consumed, never interpreted
        let extra = (h - 12) as usize;
        let rem2 = rem - 12;
        if extra > rem2 {
            return Err(IOError::Io);
        }
        let clen = c as usize;
        if clen > rem2 - extra {
            return Err(IOError::Io);
        }
        let body = self.pos + 12 + extra;
        let compressed = slice_subrange(self.data.as_slice(), body, body + clen);
        match zlib_decompress(compressed, raw as usize) {
            Ok(v) => {
                self.pos = body + clen;
                Ok(Some(v))
            },
            Err(_) => Err(IOError::DecompressionFailed),
        }
    }
}

} // verus!
