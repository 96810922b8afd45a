//! The variable-channel telemetry layout.
//!
//! The simulator exposes one large named shared-memory region: a fixed
//! 112-byte header, an array of 144-byte per-channel descriptors, an
//! optional session-info text blob, and up to four buffered sample
//! buffers of which the one with the highest tick count is current.  A
//! snapshot packs the header, the descriptors, a length-prefixed
//! session-info blob (zero length when it has not changed) and a
//! length-prefixed copy of the freshest sample buffer.  Every multi-byte
//! field is stored little-endian.

use vstd::prelude::*;

verus! {

use crate::encoding::{
    copy_range, lemma_i32_le_bytes_round_trip, lemma_u64_le_bytes_round_trip, push_bytes,
    push_i32_le, push_u64_le, read_i32_le, read_u64_le, spec_i32_from_le_bytes,
    spec_i32_to_le_bytes, zero_bytes,
};
use crate::sims::{LayoutError, WriteOp};
use vstd::string::StrSliceExecFns;
use vstd::bytes::{spec_u64_from_le_bytes, spec_u64_to_le_bytes};
use vstd::slice::slice_subrange;
use vstd::utf8::{
    decode_utf8, encode_utf8, encode_utf8_decode_utf8, encode_utf8_valid_utf8, valid_utf8,
};

/// Number of buffered sample buffers the header describes.
pub const IRSDK_MAX_BUFS: usize = 4;

/// Size of a channel's name and unit strings, padding included.
pub const IRSDK_MAX_STRING: usize = 32;

/// Size of a channel's description string, padding included.
pub const IRSDK_MAX_DESC: usize = 64;

/// Serialized size of the fixed header.
pub const HEADER_SIZE: usize = 112;

/// Serialized size of one channel descriptor.
pub const VAR_HEADER_SIZE: usize = 144;

/// Serialized size of one sample-buffer descriptor.
pub const VAR_BUF_SIZE: usize = 16;

/// Flags of the header's status field.
#[derive(Debug, Clone, Copy, PartialEq, Eq, Structural)]
pub enum StatusField {
    /// The simulator is running and the region holds live data.
    Connected,
}

impl StatusField {
    /// The bit this flag occupies in the status field.
    pub open spec fn spec_mask(self) -> i32 {
        1
    }

    pub fn mask(self) -> (r: i32)
        ensures
            r == self.spec_mask(),
    {
        1
    }
}

/// Describes one of the buffered sample buffers.
#[derive(Debug, Clone)]
pub struct VarBuf {
    pub tick_count: i32,
    pub buf_offset: i32,
    pub pad: Vec<i32>,
}

pub struct VarBufView {
    pub tick_count: i32,
    pub buf_offset: i32,
    pub pad: Seq<i32>,
}

impl View for VarBuf {
    type V = VarBufView;

    open spec fn view(&self) -> VarBufView {
        VarBufView { tick_count: self.tick_count, buf_offset: self.buf_offset, pad: self.pad@ }
    }
}

impl VarBufView {
    pub open spec fn wf(self) -> bool {
        self.pad.len() == 2
    }
}

impl VarBuf {
    pub open spec fn wf(self) -> bool {
        self@.wf()
    }
}

impl Default for VarBuf {
    fn default() -> (r: VarBuf)
        ensures
            r.wf(),
            r@.tick_count == 0,
            r@.buf_offset == 0,
            r@.pad == Seq::new(2, |i: int| 0i32),
    {
        let mut pad: Vec<i32> = Vec::new();
        pad.push(0);
        pad.push(0);
        proof {
            assert(pad@ =~= Seq::new(2, |i: int| 0i32));
        }
        VarBuf { tick_count: 0, buf_offset: 0, pad }
    }
}

/// The serialized form of a sample-buffer descriptor.
pub open spec fn spec_var_buf_bytes(v: VarBufView) -> Seq<u8>
    recommends
        v.wf(),
{
    spec_i32_to_le_bytes(v.tick_count) + spec_i32_to_le_bytes(v.buf_offset) + spec_i32_to_le_bytes(
        v.pad[0],
    ) + spec_i32_to_le_bytes(v.pad[1])
}

/// The sample-buffer descriptor stored at the front of `s`.
pub open spec fn spec_parse_var_buf(s: Seq<u8>) -> VarBufView
    recommends
        s.len() == VAR_BUF_SIZE,
{
    VarBufView {
        tick_count: spec_i32_from_le_bytes(s.subrange(0, 4)),
        buf_offset: spec_i32_from_le_bytes(s.subrange(4, 8)),
        pad: seq![
            spec_i32_from_le_bytes(s.subrange(8, 12)),
            spec_i32_from_le_bytes(s.subrange(12, 16)),
        ],
    }
}

/// Describes one telemetry channel.
#[derive(Debug, Clone)]
pub struct VarHeader {
    pub var_type: i32,
    pub offset: i32,
    pub count: i32,
    pub count_as_time: u8,
    pub pad: Vec<u8>,
    pub name: Vec<u8>,
    pub desc: Vec<u8>,
    pub unit: Vec<u8>,
}

pub struct VarHeaderView {
    pub var_type: i32,
    pub offset: i32,
    pub count: i32,
    pub count_as_time: u8,
    pub pad: Seq<u8>,
    pub name: Seq<u8>,
    pub desc: Seq<u8>,
    pub unit: Seq<u8>,
}

impl View for VarHeader {
    type V = VarHeaderView;

    open spec fn view(&self) -> VarHeaderView {
        VarHeaderView {
            var_type: self.var_type,
            offset: self.offset,
            count: self.count,
            count_as_time: self.count_as_time,
            pad: self.pad@,
            name: self.name@,
            desc: self.desc@,
            unit: self.unit@,
        }
    }
}

impl VarHeaderView {
    pub open spec fn wf(self) -> bool {
        &&& self.pad.len() == 3
        &&& self.name.len() == IRSDK_MAX_STRING
        &&& self.desc.len() == IRSDK_MAX_DESC
        &&& self.unit.len() == IRSDK_MAX_STRING
    }
}

impl VarHeader {
    pub open spec fn wf(self) -> bool {
        self@.wf()
    }

    /// The descriptor's serialized bytes.
    pub fn to_bytes(&self) -> (r: Vec<u8>)
        requires
            self.wf(),
        ensures
            r@ == spec_var_header_bytes(self@),
            r@.len() == VAR_HEADER_SIZE,
    {
        let mut out: Vec<u8> = Vec::new();
        push_i32_le(&mut out, self.var_type);
        push_i32_le(&mut out, self.offset);
        push_i32_le(&mut out, self.count);
        out.push(self.count_as_time);
        push_bytes(&mut out, self.pad.as_slice());
        push_bytes(&mut out, self.name.as_slice());
        push_bytes(&mut out, self.desc.as_slice());
        push_bytes(&mut out, self.unit.as_slice());
        proof {
            lemma_i32_le_bytes_round_trip();
            assert(out@ =~= spec_var_header_bytes(self@));
        }
        out
    }

    /// The descriptor stored at the front of `page`.
    pub fn from_bytes(page: &[u8]) -> (r: VarHeader)
        requires
            page@.len() >= VAR_HEADER_SIZE,
        ensures
            r@ == spec_parse_var_header(page@.subrange(0, VAR_HEADER_SIZE as int)),
            r.wf(),
    {
        let r = VarHeader {
            var_type: read_i32_le(page, 0),
            offset: read_i32_le(page, 4),
            count: read_i32_le(page, 8),
            count_as_time: page[12],
            pad: copy_range(page, 13, 16),
            name: copy_range(page, 16, 48),
            desc: copy_range(page, 48, 112),
            unit: copy_range(page, 112, 144),
        };
        proof {
            let sub = page@.subrange(0, VAR_HEADER_SIZE as int);
            assert(sub.subrange(0, 4) =~= page@.subrange(0, 4));
            assert(sub.subrange(4, 8) =~= page@.subrange(4, 8));
            assert(sub.subrange(8, 12) =~= page@.subrange(8, 12));
            assert(sub[12] == page@[12]);
            assert(sub.subrange(13, 16) =~= page@.subrange(13, 16));
            assert(sub.subrange(16, 48) =~= page@.subrange(16, 48));
            assert(sub.subrange(48, 112) =~= page@.subrange(48, 112));
            assert(sub.subrange(112, 144) =~= page@.subrange(112, 144));
        }
        r
    }
}

impl Default for VarHeader {
    fn default() -> (r: VarHeader)
        ensures
            r.wf(),
            r@.var_type == 0,
            r@.offset == 0,
            r@.count == 0,
            r@.count_as_time == 0,
            r@.pad == Seq::new(3, |i: int| 0u8),
            r@.name == Seq::new(IRSDK_MAX_STRING as nat, |i: int| 0u8),
            r@.desc == Seq::new(IRSDK_MAX_DESC as nat, |i: int| 0u8),
            r@.unit == Seq::new(IRSDK_MAX_STRING as nat, |i: int| 0u8),
    {
        VarHeader {
            var_type: 0,
            offset: 0,
            count: 0,
            count_as_time: 0,
            pad: zero_bytes(3),
            name: zero_bytes(IRSDK_MAX_STRING),
            desc: zero_bytes(IRSDK_MAX_DESC),
            unit: zero_bytes(IRSDK_MAX_STRING),
        }
    }
}

/// The serialized form of a channel descriptor.
pub open spec fn spec_var_header_bytes(v: VarHeaderView) -> Seq<u8>
    recommends
        v.wf(),
{
    spec_i32_to_le_bytes(v.var_type) + spec_i32_to_le_bytes(v.offset) + spec_i32_to_le_bytes(
        v.count,
    ) + seq![v.count_as_time] + v.pad + v.name + v.desc + v.unit
}

/// The channel descriptor stored at the front of `s`.
pub open spec fn spec_parse_var_header(s: Seq<u8>) -> VarHeaderView
    recommends
        s.len() == VAR_HEADER_SIZE,
{
    VarHeaderView {
        var_type: spec_i32_from_le_bytes(s.subrange(0, 4)),
        offset: spec_i32_from_le_bytes(s.subrange(4, 8)),
        count: spec_i32_from_le_bytes(s.subrange(8, 12)),
        count_as_time: s[12],
        pad: s.subrange(13, 16),
        name: s.subrange(16, 48),
        desc: s.subrange(48, 112),
        unit: s.subrange(112, 144),
    }
}

/// The fixed header at the front of the shared-memory region.
#[derive(Debug, Clone)]
pub struct Header {
    pub ver: i32,
    pub status: i32,
    pub tick_rate: i32,
    pub session_info_update: i32,
    pub session_info_len: i32,
    pub session_info_offset: i32,
    pub num_vars: i32,
    pub var_header_offset: i32,
    pub num_buf: i32,
    pub buf_len: i32,
    pub pad1: Vec<i32>,
    pub var_buf: Vec<VarBuf>,
}

pub struct HeaderView {
    pub ver: i32,
    pub status: i32,
    pub tick_rate: i32,
    pub session_info_update: i32,
    pub session_info_len: i32,
    pub session_info_offset: i32,
    pub num_vars: i32,
    pub var_header_offset: i32,
    pub num_buf: i32,
    pub buf_len: i32,
    pub pad1: Seq<i32>,
    pub var_buf: Seq<VarBufView>,
}

impl View for Header {
    type V = HeaderView;

    open spec fn view(&self) -> HeaderView {
        HeaderView {
            ver: self.ver,
            status: self.status,
            tick_rate: self.tick_rate,
            session_info_update: self.session_info_update,
            session_info_len: self.session_info_len,
            session_info_offset: self.session_info_offset,
            num_vars: self.num_vars,
            var_header_offset: self.var_header_offset,
            num_buf: self.num_buf,
            buf_len: self.buf_len,
            pad1: self.pad1@,
            var_buf: Seq::new(self.var_buf@.len(), |i: int| self.var_buf@[i]@),
        }
    }
}

impl HeaderView {
    pub open spec fn wf(self) -> bool {
        &&& self.pad1.len() == 2
        &&& self.var_buf.len() == IRSDK_MAX_BUFS
        &&& forall|i: int| 0 <= i < IRSDK_MAX_BUFS ==> (#[trigger] self.var_buf[i]).wf()
    }

    /// The simulator reports itself live: the connected bit of the
    /// status field is set.
    pub open spec fn spec_is_connected(self) -> bool {
        self.status & 1 != 0
    }
}

/// The serialized form of the fixed header.
pub open spec fn spec_header_bytes(h: HeaderView) -> Seq<u8>
    recommends
        h.wf(),
{
    spec_i32_to_le_bytes(h.ver) + spec_i32_to_le_bytes(h.status) + spec_i32_to_le_bytes(h.tick_rate)
        + spec_i32_to_le_bytes(h.session_info_update) + spec_i32_to_le_bytes(h.session_info_len)
        + spec_i32_to_le_bytes(h.session_info_offset) + spec_i32_to_le_bytes(h.num_vars)
        + spec_i32_to_le_bytes(h.var_header_offset) + spec_i32_to_le_bytes(h.num_buf)
        + spec_i32_to_le_bytes(h.buf_len) + spec_i32_to_le_bytes(h.pad1[0]) + spec_i32_to_le_bytes(
        h.pad1[1],
    ) + spec_var_buf_bytes(h.var_buf[0]) + spec_var_buf_bytes(h.var_buf[1]) + spec_var_buf_bytes(
        h.var_buf[2],
    ) + spec_var_buf_bytes(h.var_buf[3])
}

/// The fixed header stored at the front of `s`.
pub open spec fn spec_parse_header(s: Seq<u8>) -> HeaderView
    recommends
        s.len() == HEADER_SIZE,
{
    HeaderView {
        ver: spec_i32_from_le_bytes(s.subrange(0, 4)),
        status: spec_i32_from_le_bytes(s.subrange(4, 8)),
        tick_rate: spec_i32_from_le_bytes(s.subrange(8, 12)),
        session_info_update: spec_i32_from_le_bytes(s.subrange(12, 16)),
        session_info_len: spec_i32_from_le_bytes(s.subrange(16, 20)),
        session_info_offset: spec_i32_from_le_bytes(s.subrange(20, 24)),
        num_vars: spec_i32_from_le_bytes(s.subrange(24, 28)),
        var_header_offset: spec_i32_from_le_bytes(s.subrange(28, 32)),
        num_buf: spec_i32_from_le_bytes(s.subrange(32, 36)),
        buf_len: spec_i32_from_le_bytes(s.subrange(36, 40)),
        pad1: seq![
            spec_i32_from_le_bytes(s.subrange(40, 44)),
            spec_i32_from_le_bytes(s.subrange(44, 48)),
        ],
        var_buf: seq![
            spec_parse_var_buf(s.subrange(48, 64)),
            spec_parse_var_buf(s.subrange(64, 80)),
            spec_parse_var_buf(s.subrange(80, 96)),
            spec_parse_var_buf(s.subrange(96, 112)),
        ],
    }
}

fn push_var_buf(out: &mut Vec<u8>, v: &VarBuf)
    requires
        v.wf(),
    ensures
        final(out)@ == old(out)@ + spec_var_buf_bytes(v@),
{
    push_i32_le(out, v.tick_count);
    push_i32_le(out, v.buf_offset);
    push_i32_le(out, v.pad[0]);
    push_i32_le(out, v.pad[1]);
    proof {
        assert(out@ =~= old(out)@ + spec_var_buf_bytes(v@));
    }
}

fn parse_var_buf(page: &[u8]) -> (r: VarBuf)
    requires
        page@.len() >= VAR_BUF_SIZE,
    ensures
        r@ == spec_parse_var_buf(page@.subrange(0, VAR_BUF_SIZE as int)),
        r.wf(),
{
    let mut pad: Vec<i32> = Vec::new();
    pad.push(read_i32_le(page, 8));
    pad.push(read_i32_le(page, 12));
    let r = VarBuf { tick_count: read_i32_le(page, 0), buf_offset: read_i32_le(page, 4), pad };
    proof {
        let sub = page@.subrange(0, VAR_BUF_SIZE as int);
        assert(sub.subrange(0, 4) =~= page@.subrange(0, 4));
        assert(sub.subrange(4, 8) =~= page@.subrange(4, 8));
        assert(sub.subrange(8, 12) =~= page@.subrange(8, 12));
        assert(sub.subrange(12, 16) =~= page@.subrange(12, 16));
        assert(r@.pad =~= spec_parse_var_buf(sub).pad);
    }
    r
}

impl Header {
    pub open spec fn wf(self) -> bool {
        self@.wf()
    }

    /// The simulator reports itself live.
    pub fn is_connected(&self) -> (r: bool)
        ensures
            r == self@.spec_is_connected(),
    {
        (self.status & StatusField::Connected.mask()) != 0
    }

    /// The header's serialized bytes.
    pub fn to_bytes(&self) -> (r: Vec<u8>)
        requires
            self.wf(),
        ensures
            r@ == spec_header_bytes(self@),
            r@.len() == HEADER_SIZE,
    {
        let mut out: Vec<u8> = Vec::new();
        push_i32_le(&mut out, self.ver);
        push_i32_le(&mut out, self.status);
        push_i32_le(&mut out, self.tick_rate);
        push_i32_le(&mut out, self.session_info_update);
        push_i32_le(&mut out, self.session_info_len);
        push_i32_le(&mut out, self.session_info_offset);
        push_i32_le(&mut out, self.num_vars);
        push_i32_le(&mut out, self.var_header_offset);
        push_i32_le(&mut out, self.num_buf);
        push_i32_le(&mut out, self.buf_len);
        push_i32_le(&mut out, self.pad1[0]);
        push_i32_le(&mut out, self.pad1[1]);
        proof {
            assert(self@.var_buf[0] == self.var_buf@[0]@);
            assert(self@.var_buf[1] == self.var_buf@[1]@);
            assert(self@.var_buf[2] == self.var_buf@[2]@);
            assert(self@.var_buf[3] == self.var_buf@[3]@);
        }
        push_var_buf(&mut out, &self.var_buf[0]);
        push_var_buf(&mut out, &self.var_buf[1]);
        push_var_buf(&mut out, &self.var_buf[2]);
        push_var_buf(&mut out, &self.var_buf[3]);
        proof {
            lemma_i32_le_bytes_round_trip();
            assert(out@ =~= spec_header_bytes(self@));
        }
        out
    }

    /// The header stored at the front of `region`.
    pub fn from_bytes(region: &[u8]) -> (r: Header)
        requires
            region@.len() >= HEADER_SIZE,
        ensures
            r@ == spec_parse_header(region@.subrange(0, HEADER_SIZE as int)),
            r.wf(),
    {
        let mut pad1: Vec<i32> = Vec::new();
        pad1.push(read_i32_le(region, 40));
        pad1.push(read_i32_le(region, 44));
        let mut var_buf: Vec<VarBuf> = Vec::new();
        var_buf.push(parse_var_buf(slice_subrange(region, 48, 64)));
        var_buf.push(parse_var_buf(slice_subrange(region, 64, 80)));
        var_buf.push(parse_var_buf(slice_subrange(region, 80, 96)));
        var_buf.push(parse_var_buf(slice_subrange(region, 96, 112)));
        let r = Header {
            ver: read_i32_le(region, 0),
            status: read_i32_le(region, 4),
            tick_rate: read_i32_le(region, 8),
            session_info_update: read_i32_le(region, 12),
            session_info_len: read_i32_le(region, 16),
            session_info_offset: read_i32_le(region, 20),
            num_vars: read_i32_le(region, 24),
            var_header_offset: read_i32_le(region, 28),
            num_buf: read_i32_le(region, 32),
            buf_len: read_i32_le(region, 36),
            pad1,
            var_buf,
        };
        proof {
            let sub = region@.subrange(0, HEADER_SIZE as int);
            let h = spec_parse_header(sub);
            assert forall|a: int, b: int|
                0 <= a <= b <= HEADER_SIZE implies #[trigger] sub.subrange(a, b)
                =~= region@.subrange(a, b) by {}
            assert(region@.subrange(48, 64).subrange(0, 16) =~= sub.subrange(48, 64));
            assert(region@.subrange(64, 80).subrange(0, 16) =~= sub.subrange(64, 80));
            assert(region@.subrange(80, 96).subrange(0, 16) =~= sub.subrange(80, 96));
            assert(region@.subrange(96, 112).subrange(0, 16) =~= sub.subrange(96, 112));
            assert(r@.pad1 =~= h.pad1);
            assert(r@.var_buf =~= h.var_buf);
        }
        r
    }
}

impl Default for Header {
    fn default() -> (r: Header)
        ensures
            r.wf(),
            r@.ver == 0,
            r@.status == 0,
            r@.tick_rate == 0,
            r@.session_info_update == 0,
            r@.session_info_len == 0,
            r@.session_info_offset == 0,
            r@.num_vars == 0,
            r@.var_header_offset == 0,
            r@.num_buf == 0,
            r@.buf_len == 0,
            !r@.spec_is_connected(),
            forall|i: int| 0 <= i < IRSDK_MAX_BUFS ==> (#[trigger] r@.var_buf[i]).tick_count == 0,
    {
        let mut pad1: Vec<i32> = Vec::new();
        pad1.push(0);
        pad1.push(0);
        let mut var_buf: Vec<VarBuf> = Vec::new();
        var_buf.push(VarBuf::default());
        var_buf.push(VarBuf::default());
        var_buf.push(VarBuf::default());
        var_buf.push(VarBuf::default());
        let r = Header {
            ver: 0,
            status: 0,
            tick_rate: 0,
            session_info_update: 0,
            session_info_len: 0,
            session_info_offset: 0,
            num_vars: 0,
            var_header_offset: 0,
            num_buf: 0,
            buf_len: 0,
            pad1,
            var_buf,
        };
        proof {
            assert(0i32 & 1 == 0) by (bit_vector);
        }
        r
    }
}

/// The index the first `k` sample buffers select: the earliest one whose
/// tick count no later buffer among them exceeds.
pub open spec fn spec_latest_prefix(bufs: Seq<VarBufView>, k: int) -> int
    recommends
        k <= bufs.len(),
    decreases k,
{
    if k <= 1 {
        0
    } else {
        let prev = spec_latest_prefix(bufs, k - 1);
        if bufs[k - 1].tick_count > bufs[prev].tick_count {
            k - 1
        } else {
            prev
        }
    }
}

/// The sample buffer a header selects: the first one, among the
/// `num_buf` it declares, holding the maximum tick count.
pub open spec fn spec_latest_buf(h: HeaderView) -> int
    recommends
        h.wf(),
        0 <= h.num_buf <= 4,
{
    spec_latest_prefix(h.var_buf, h.num_buf as int)
}

proof fn lemma_latest_prefix_props(bufs: Seq<VarBufView>, k: int)
    requires
        1 <= k <= bufs.len(),
    ensures
        0 <= spec_latest_prefix(bufs, k) < k,
        forall|i: int|
            0 <= i < k ==> (#[trigger] bufs[i]).tick_count <= bufs[spec_latest_prefix(
                bufs,
                k,
            )].tick_count,
        forall|i: int|
            0 <= i < spec_latest_prefix(bufs, k) ==> (#[trigger] bufs[i]).tick_count < bufs[
                spec_latest_prefix(bufs, k)].tick_count,
    decreases k,
{
    if k > 1 {
        lemma_latest_prefix_props(bufs, k - 1);
    }
}

impl Header {
    /// The index of the freshest sample buffer: the first one, among the
    /// `num_buf` declared, with the maximum tick count.  With no buffers
    /// declared the first slot is selected.
    pub fn latest_buf_index(&self) -> (r: usize)
        requires
            self.wf(),
            0 <= self.num_buf,
            self.num_buf <= 4,
        ensures
            r as int == spec_latest_buf(self@),
            r < IRSDK_MAX_BUFS,
            self.num_buf > 0 ==> (r as int) < self.num_buf as int,
            self.num_buf == 0 ==> r == 0,
            forall|i: int|
                0 <= i < self.num_buf as int ==> (#[trigger] self@.var_buf[i]).tick_count
                    <= self@.var_buf[r as int].tick_count,
            forall|i: int|
                0 <= i < r as int ==> (#[trigger] self@.var_buf[i]).tick_count < self@.var_buf[
                    r as int].tick_count,
    {
        let n: usize = if self.num_buf > 0 {
            self.num_buf as usize
        } else {
            0
        };
        let mut latest: usize = 0;
        let mut i: usize = 1;
        while i < n
            invariant
                self.wf(),
                n == if self.num_buf > 0 {
                    self.num_buf as int
                } else {
                    0
                },
                n <= 4,
                1 <= i,
                n > 1 ==> i <= n,
                n <= 1 ==> i == 1 && latest == 0,
                latest < i,
                n > 1 ==> latest as int == spec_latest_prefix(self@.var_buf, i as int),
            decreases n - i,
        {
            proof {
                assert(self@.var_buf[i as int] == self.var_buf@[i as int]@);
                assert(self@.var_buf[latest as int] == self.var_buf@[latest as int]@);
            }
            if self.var_buf[i].tick_count > self.var_buf[latest].tick_count {
                latest = i;
            }
            i = i + 1;
        }
        proof {
            if n <= 1 {
                assert(latest == 0);
                assert(self.num_buf as int <= 1);
                assert(spec_latest_prefix(self@.var_buf, self.num_buf as int) == 0);
            } else {
                assert(i == n);
                assert(latest as int == spec_latest_prefix(self@.var_buf, n as int));
                assert(n as int == self.num_buf as int);
                lemma_latest_prefix_props(self@.var_buf, n as int);
            }
            assert(latest as int == spec_latest_prefix(self@.var_buf, self.num_buf as int));
            assert(spec_latest_buf(self@) == spec_latest_prefix(self@.var_buf, self.num_buf as int));
        }
        latest
    }
}

/// What `String::from_utf8_lossy` yields on a byte sequence.  Named, not
/// stated: only its behaviour on valid UTF-8 matters here.
pub uninterp spec fn utf8_lossy(bytes: Seq<u8>) -> Seq<char>;

/// The characters a stored byte sequence reads back as: exact UTF-8
/// decoding where the bytes are valid, the lenient replacement decoding
/// otherwise.
pub open spec fn spec_decoded_text(bytes: Seq<u8>) -> Seq<char> {
    if valid_utf8(bytes) {
        decode_utf8(bytes)
    } else {
        utf8_lossy(bytes)
    }
}

/// Relies on `String::from_utf8_lossy`: a deterministic function of the
/// bytes that decodes valid UTF-8 unchanged.
#[verifier::external_body]
fn bytes_to_string_lossy(bytes: &[u8]) -> (r: String)
    ensures
        r@ == utf8_lossy(bytes@),
        valid_utf8(bytes@) ==> r@ == decode_utf8(bytes@),
{
    String::from_utf8_lossy(bytes).into_owned()
}

/// One snapshot: the header, the channel descriptors, the session-info
/// text (only on ticks where it changed) and the freshest sample
/// buffer's bytes.
#[derive(Debug, Clone)]
pub struct FrameData {
    pub header: Header,
    pub var_headers: Vec<VarHeader>,
    pub session_info: Option<String>,
    pub raw_data: Vec<u8>,
}

pub struct FrameDataView {
    pub header: HeaderView,
    pub var_headers: Seq<VarHeaderView>,
    pub session_info: Option<Seq<char>>,
    pub raw_data: Seq<u8>,
}

impl View for FrameData {
    type V = FrameDataView;

    open spec fn view(&self) -> FrameDataView {
        FrameDataView {
            header: self.header@,
            var_headers: Seq::new(self.var_headers@.len(), |i: int| self.var_headers@[i]@),
            session_info: match self.session_info {
                Option::Some(ref s) => Option::Some(s@),
                Option::None => Option::None,
            },
            raw_data: self.raw_data@,
        }
    }
}

impl FrameDataView {
    pub open spec fn wf(self) -> bool {
        &&& self.header.wf()
        &&& forall|i: int| 0 <= i < self.var_headers.len() ==> (#[trigger] self.var_headers[i]).wf()
    }
}

/// The serialized channel descriptors, laid end to end.
pub open spec fn spec_var_headers_bytes(vs: Seq<VarHeaderView>) -> Seq<u8>
    decreases vs.len(),
{
    if vs.len() == 0 {
        Seq::empty()
    } else {
        spec_var_header_bytes(vs[0]) + spec_var_headers_bytes(vs.drop_first())
    }
}

proof fn lemma_var_headers_bytes_push(vs: Seq<VarHeaderView>, v: VarHeaderView)
    ensures
        spec_var_headers_bytes(vs.push(v)) == spec_var_headers_bytes(vs) + spec_var_header_bytes(
            v,
        ),
    decreases vs.len(),
{
    if vs.len() == 0 {
        assert(vs.push(v)[0] == v);
        assert(vs.push(v).drop_first() =~= Seq::<VarHeaderView>::empty());
        assert(spec_var_header_bytes(v) + spec_var_headers_bytes(Seq::empty())
            =~= spec_var_header_bytes(v));
        assert(spec_var_headers_bytes(vs) + spec_var_header_bytes(v) =~= spec_var_header_bytes(v));
    } else {
        lemma_var_headers_bytes_push(vs.drop_first(), v);
        assert(vs.push(v)[0] == vs[0]);
        assert(vs.push(v).drop_first() =~= vs.drop_first().push(v));
        assert(spec_var_header_bytes(vs[0]) + (spec_var_headers_bytes(vs.drop_first())
            + spec_var_header_bytes(v)) =~= (spec_var_header_bytes(vs[0])
            + spec_var_headers_bytes(vs.drop_first())) + spec_var_header_bytes(v));
    }
}

pub proof fn lemma_var_headers_bytes_len(vs: Seq<VarHeaderView>)
    requires
        forall|i: int| 0 <= i < vs.len() ==> (#[trigger] vs[i]).wf(),
    ensures
        spec_var_headers_bytes(vs).len() == VAR_HEADER_SIZE * vs.len(),
    decreases vs.len(),
{
    lemma_i32_le_bytes_round_trip();
    if vs.len() > 0 {
        assert(forall|i: int|
            0 <= i < vs.drop_first().len() ==> (#[trigger] vs.drop_first()[i]).wf());
        lemma_var_headers_bytes_len(vs.drop_first());
        assert(spec_var_header_bytes(vs[0]).len() == VAR_HEADER_SIZE);
    }
}

/// The length-prefixed session-info blob: a zero length stands for "no
/// session info in this frame".
pub open spec fn spec_session_info_bytes(info: Option<Seq<char>>) -> Seq<u8> {
    match info {
        Option::None => spec_u64_to_le_bytes(0),
        Option::Some(chars) => spec_u64_to_le_bytes(encode_utf8(chars).len() as u64) + encode_utf8(
            chars,
        ),
    }
}

/// A serialized snapshot: header, channel descriptors, length-prefixed
/// session info, length-prefixed sample bytes.
pub open spec fn spec_frame_bytes(f: FrameDataView) -> Seq<u8>
    recommends
        f.wf(),
{
    spec_header_bytes(f.header) + spec_var_headers_bytes(f.var_headers) + spec_session_info_bytes(
        f.session_info,
    ) + spec_u64_to_le_bytes(f.raw_data.len() as u64) + f.raw_data
}

/// The number of channel descriptors a header announces; a negative
/// count reads as none.
pub open spec fn spec_num_vars(h: HeaderView) -> int {
    if h.num_vars > 0 {
        h.num_vars as int
    } else {
        0
    }
}

/// The snapshot stored in a serialized payload, or `None` where the
/// payload ends before a declared part.
pub open spec fn spec_parse_frame(s: Seq<u8>) -> Option<FrameDataView> {
    if s.len() < HEADER_SIZE {
        Option::None
    } else {
        let h = spec_parse_header(s.subrange(0, HEADER_SIZE as int));
        let nv = spec_num_vars(h);
        if s.len() < HEADER_SIZE + nv * VAR_HEADER_SIZE {
            Option::None
        } else {
            let p1 = HEADER_SIZE + nv * VAR_HEADER_SIZE;
            if s.len() < p1 + 8 {
                Option::None
            } else {
                let ilen = spec_u64_from_le_bytes(s.subrange(p1, p1 + 8)) as int;
                if s.len() < p1 + 8 + ilen {
                    Option::None
                } else {
                    let p2 = p1 + 8 + ilen;
                    if s.len() < p2 + 8 {
                        Option::None
                    } else {
                        let rlen = spec_u64_from_le_bytes(s.subrange(p2, p2 + 8)) as int;
                        if s.len() < p2 + 8 + rlen {
                            Option::None
                        } else {
                            Option::Some(
                                FrameDataView {
                                    header: h,
                                    var_headers: Seq::new(
                                        nv as nat,
                                        |i: int|
                                            spec_parse_var_header(
                                                s.subrange(
                                                    HEADER_SIZE + i * VAR_HEADER_SIZE,
                                                    HEADER_SIZE + i * VAR_HEADER_SIZE
                                                        + VAR_HEADER_SIZE,
                                                ),
                                            ),
                                    ),
                                    session_info: if ilen > 0 {
                                        Option::Some(
                                            spec_decoded_text(s.subrange(p1 + 8, p1 + 8 + ilen)),
                                        )
                                    } else {
                                        Option::None
                                    },
                                    raw_data: s.subrange(p2 + 8, p2 + 8 + rlen),
                                },
                            )
                        }
                    }
                }
            }
        }
    }
}

impl FrameData {
    pub open spec fn wf(self) -> bool {
        self@.wf()
    }

    /// Packs the snapshot into one frame payload.
    pub fn serialize(&self) -> (r: Option<Vec<u8>>)
        requires
            self.wf(),
        ensures
            r matches Some(v) && v@ == spec_frame_bytes(self@),
    {
        let mut out = self.header.to_bytes();
        let mut i: usize = 0;
        while i < self.var_headers.len()
            invariant
                self.wf(),
                i <= self.var_headers@.len(),
                out@ == spec_header_bytes(self@.header) + spec_var_headers_bytes(
                    self@.var_headers.subrange(0, i as int),
                ),
            decreases self.var_headers@.len() - i,
        {
            proof {
                assert(self@.var_headers[i as int] == self.var_headers@[i as int]@);
                assert(self@.var_headers[i as int].wf());
            }
            let mut vh = self.var_headers[i].to_bytes();
            out.append(&mut vh);
            i = i + 1;
            proof {
                lemma_var_headers_bytes_push(
                    self@.var_headers.subrange(0, i - 1),
                    self@.var_headers[i - 1],
                );
                assert(self@.var_headers.subrange(0, i as int) =~= self@.var_headers.subrange(
                    0,
                    i - 1,
                ).push(self@.var_headers[i - 1]));
                assert(out@ =~= spec_header_bytes(self@.header) + spec_var_headers_bytes(
                    self@.var_headers.subrange(0, i as int),
                ));
            }
        }
        proof {
            assert(self@.var_headers.subrange(0, self@.var_headers.len() as int)
                =~= self@.var_headers);
        }
        match &self.session_info {
            Option::Some(info) => {
                let bytes = info.as_str().as_bytes();
                push_u64_le(&mut out, bytes.len() as u64);
                push_bytes(&mut out, bytes);
            },
            Option::None => {
                push_u64_le(&mut out, 0);
            },
        }
        push_u64_le(&mut out, self.raw_data.len() as u64);
        push_bytes(&mut out, self.raw_data.as_slice());
        proof {
            assert(out@ =~= spec_frame_bytes(self@));
        }
        Some(out)
    }

    /// Unpacks a frame payload.
    pub fn deserialize(bytes: &[u8]) -> (r: Result<FrameData, LayoutError>)
        ensures
            match spec_parse_frame(bytes@) {
                Option::None => r matches Err(LayoutError::TooShort),
                Option::Some(v) => r matches Ok(f) && f@ == v && f.wf(),
            },
    {
        let n = bytes.len();
        if n < HEADER_SIZE {
            return Err(LayoutError::TooShort);
        }
        let header = Header::from_bytes(bytes);
        let nv: usize = if header.num_vars > 0 {
            header.num_vars as usize
        } else {
            0
        };
        if ((n - HEADER_SIZE) as u64) / (VAR_HEADER_SIZE as u64) < nv as u64 {
            return Err(LayoutError::TooShort);
        }
        let ghost h = spec_parse_header(bytes@.subrange(0, HEADER_SIZE as int));
        proof {
            assert(HEADER_SIZE + spec_num_vars(h) * VAR_HEADER_SIZE <= n);
        }
        let mut var_headers: Vec<VarHeader> = Vec::new();
        let mut i: usize = 0;
        while i < nv
            invariant
                nv as int == spec_num_vars(h),
                HEADER_SIZE + nv * VAR_HEADER_SIZE <= n,
                n == bytes@.len(),
                i <= nv,
                var_headers@.len() == i,
                forall|j: int|
                    0 <= j < i ==> (#[trigger] var_headers@[j])@ == spec_parse_var_header(
                        bytes@.subrange(
                            HEADER_SIZE + j * VAR_HEADER_SIZE,
                            HEADER_SIZE + j * VAR_HEADER_SIZE + VAR_HEADER_SIZE,
                        ),
                    ) && var_headers@[j].wf(),
            decreases nv - i,
        {
            let start = HEADER_SIZE + i * VAR_HEADER_SIZE;
            let vh = VarHeader::from_bytes(slice_subrange(bytes, start, start + VAR_HEADER_SIZE));
            proof {
                assert(bytes@.subrange(start as int, start as int + VAR_HEADER_SIZE).subrange(
                    0,
                    VAR_HEADER_SIZE as int,
                ) =~= bytes@.subrange(start as int, start as int + VAR_HEADER_SIZE));
            }
            var_headers.push(vh);
            i = i + 1;
        }
        let p1 = HEADER_SIZE + nv * VAR_HEADER_SIZE;
        if n - p1 < 8 {
            return Err(LayoutError::TooShort);
        }
        let ilen64 = read_u64_le(bytes, p1);
        if ilen64 > (n - p1 - 8) as u64 {
            return Err(LayoutError::TooShort);
        }
        let ilen = ilen64 as usize;
        let session_info: Option<String> = if ilen > 0 {
            Some(bytes_to_string_lossy(slice_subrange(bytes, p1 + 8, p1 + 8 + ilen)))
        } else {
            None
        };
        let p2 = p1 + 8 + ilen;
        if n - p2 < 8 {
            return Err(LayoutError::TooShort);
        }
        let rlen64 = read_u64_le(bytes, p2);
        if rlen64 > (n - p2 - 8) as u64 {
            return Err(LayoutError::TooShort);
        }
        let rlen = rlen64 as usize;
        let raw_data = copy_range(bytes, p2 + 8, p2 + 8 + rlen);
        let r = FrameData { header, var_headers, session_info, raw_data };
        proof {
            let v = spec_parse_frame(bytes@).unwrap();
            assert(r@.var_headers =~= v.var_headers);
            assert(r@ == v);
        }
        Ok(r)
    }
}

proof fn lemma_var_buf_round_trip(v: VarBufView)
    requires
        v.wf(),
    ensures
        spec_parse_var_buf(spec_var_buf_bytes(v)) == v,
{
    lemma_i32_le_bytes_round_trip();
    let s = spec_var_buf_bytes(v);
    let a = spec_i32_to_le_bytes(v.tick_count);
    let b = spec_i32_to_le_bytes(v.buf_offset);
    let c = spec_i32_to_le_bytes(v.pad[0]);
    let d = spec_i32_to_le_bytes(v.pad[1]);
    assert(s == a + b + c + d);
    assert(s.subrange(0, 4) =~= a);
    assert(s.subrange(4, 8) =~= b);
    assert(s.subrange(8, 12) =~= c);
    assert(s.subrange(12, 16) =~= d);
    assert(spec_parse_var_buf(s).pad =~= v.pad);
}

proof fn lemma_var_header_round_trip(v: VarHeaderView)
    requires
        v.wf(),
    ensures
        spec_parse_var_header(spec_var_header_bytes(v)) == v,
{
    lemma_i32_le_bytes_round_trip();
    let s = spec_var_header_bytes(v);
    let a = spec_i32_to_le_bytes(v.var_type);
    let b = spec_i32_to_le_bytes(v.offset);
    let c = spec_i32_to_le_bytes(v.count);
    assert(s == a + b + c + seq![v.count_as_time] + v.pad + v.name + v.desc + v.unit);
    assert(s.len() == 144);
    assert(s.subrange(0, 4) =~= a);
    assert(s.subrange(4, 8) =~= b);
    assert(s.subrange(8, 12) =~= c);
    assert(s.subrange(12, 13) =~= seq![v.count_as_time]);
    assert(s[12] == s.subrange(12, 13)[0]);
    assert(s.subrange(13, 16) =~= v.pad);
    assert(s.subrange(16, 48) =~= v.name);
    assert(s.subrange(48, 112) =~= v.desc);
    assert(s.subrange(112, 144) =~= v.unit);
}

proof fn lemma_header_bytes_len(h: HeaderView)
    requires
        h.wf(),
    ensures
        spec_header_bytes(h).len() == HEADER_SIZE,
{
    lemma_i32_le_bytes_round_trip();
}

proof fn lemma_header_round_trip(h: HeaderView)
    requires
        h.wf(),
    ensures
        spec_parse_header(spec_header_bytes(h)) == h,
{
    lemma_i32_le_bytes_round_trip();
    let s = spec_header_bytes(h);
    let b0 = spec_var_buf_bytes(h.var_buf[0]);
    let b1 = spec_var_buf_bytes(h.var_buf[1]);
    let b2 = spec_var_buf_bytes(h.var_buf[2]);
    let b3 = spec_var_buf_bytes(h.var_buf[3]);
    assert(b0.len() == 16 && b1.len() == 16 && b2.len() == 16 && b3.len() == 16);
    assert(s.subrange(0, 4) =~= spec_i32_to_le_bytes(h.ver));
    assert(s.subrange(4, 8) =~= spec_i32_to_le_bytes(h.status));
    assert(s.subrange(8, 12) =~= spec_i32_to_le_bytes(h.tick_rate));
    assert(s.subrange(12, 16) =~= spec_i32_to_le_bytes(h.session_info_update));
    assert(s.subrange(16, 20) =~= spec_i32_to_le_bytes(h.session_info_len));
    assert(s.subrange(20, 24) =~= spec_i32_to_le_bytes(h.session_info_offset));
    assert(s.subrange(24, 28) =~= spec_i32_to_le_bytes(h.num_vars));
    assert(s.subrange(28, 32) =~= spec_i32_to_le_bytes(h.var_header_offset));
    assert(s.subrange(32, 36) =~= spec_i32_to_le_bytes(h.num_buf));
    assert(s.subrange(36, 40) =~= spec_i32_to_le_bytes(h.buf_len));
    assert(s.subrange(40, 44) =~= spec_i32_to_le_bytes(h.pad1[0]));
    assert(s.subrange(44, 48) =~= spec_i32_to_le_bytes(h.pad1[1]));
    assert(s.subrange(48, 64) =~= b0);
    assert(s.subrange(64, 80) =~= b1);
    assert(s.subrange(80, 96) =~= b2);
    assert(s.subrange(96, 112) =~= b3);
    lemma_var_buf_round_trip(h.var_buf[0]);
    lemma_var_buf_round_trip(h.var_buf[1]);
    lemma_var_buf_round_trip(h.var_buf[2]);
    lemma_var_buf_round_trip(h.var_buf[3]);
    assert(spec_parse_header(s).pad1 =~= h.pad1);
    assert(spec_parse_header(s).var_buf =~= h.var_buf);
}

proof fn lemma_var_headers_bytes_index(vs: Seq<VarHeaderView>, i: int)
    requires
        forall|j: int| 0 <= j < vs.len() ==> (#[trigger] vs[j]).wf(),
        0 <= i < vs.len(),
    ensures
        spec_var_headers_bytes(vs).subrange(
            VAR_HEADER_SIZE * i,
            VAR_HEADER_SIZE * i + VAR_HEADER_SIZE,
        ) == spec_var_header_bytes(vs[i]),
    decreases i,
{
    lemma_i32_le_bytes_round_trip();
    lemma_var_headers_bytes_len(vs);
    let s = spec_var_headers_bytes(vs);
    let first = spec_var_header_bytes(vs[0]);
    let rest = spec_var_headers_bytes(vs.drop_first());
    assert(s == first + rest);
    assert(first.len() == 144);
    if i == 0 {
        assert(s.subrange(0, 144) =~= first);
    } else {
        assert(forall|j: int|
            0 <= j < vs.drop_first().len() ==> (#[trigger] vs.drop_first()[j]).wf());
        lemma_var_headers_bytes_index(vs.drop_first(), i - 1);
        lemma_var_headers_bytes_len(vs.drop_first());
        assert(s.subrange(144 * i, 144 * i + 144) =~= rest.subrange(
            144 * (i - 1),
            144 * (i - 1) + 144,
        ));
        assert(vs.drop_first()[i - 1] == vs[i]);
    }
}

/// Law: for any well-formed snapshot whose header announces exactly its
/// own channel descriptors, parsing the serialized payload gives the
/// same snapshot back field for field.  (A snapshot carrying an empty
/// session-info text is stored as one without: the length prefix cannot
/// tell the two apart.)
pub proof fn lemma_frame_round_trip(v: FrameDataView)
    requires
        v.wf(),
        v.header.num_vars as int == v.var_headers.len(),
        v.session_info matches Some(chars) ==> chars.len() > 0 && encode_utf8(chars).len()
            <= u64::MAX,
        v.raw_data.len() <= u64::MAX,
    ensures
        spec_parse_frame(spec_frame_bytes(v)) == Some(v),
{
    lemma_i32_le_bytes_round_trip();
    lemma_u64_le_bytes_round_trip();
    lemma_header_bytes_len(v.header);
    lemma_header_round_trip(v.header);
    lemma_var_headers_bytes_len(v.var_headers);
    let s = spec_frame_bytes(v);
    let hb = spec_header_bytes(v.header);
    let vb = spec_var_headers_bytes(v.var_headers);
    let sb = spec_session_info_bytes(v.session_info);
    let rl = spec_u64_to_le_bytes(v.raw_data.len() as u64);
    assert(s == hb + vb + sb + rl + v.raw_data);
    let nv = v.var_headers.len() as int;
    assert(hb.len() == 112);
    assert(vb.len() == 144 * nv);
    assert(rl.len() == 8);

    assert(s.subrange(0, 112) =~= hb);
    let h = spec_parse_header(s.subrange(0, 112));
    assert(h == v.header);
    assert(spec_num_vars(h) == nv);

    let p1 = 112 + 144 * nv;
    assert forall|i: int| 0 <= i < nv implies spec_parse_var_header(
        #[trigger] s.subrange(112 + i * 144, 112 + i * 144 + 144),
    ) == v.var_headers[i] by {
        lemma_var_headers_bytes_index(v.var_headers, i);
        assert(s.subrange(112 + i * 144, 112 + i * 144 + 144) =~= vb.subrange(
            144 * i,
            144 * i + 144,
        ));
        lemma_var_header_round_trip(v.var_headers[i]);
    }

    match v.session_info {
        Option::Some(chars) => {
            let eb = encode_utf8(chars);
            assert(eb.len() > 0) by {
                assert(encode_utf8(chars) == vstd::utf8::encode_scalar(chars[0] as u32)
                    + encode_utf8(chars.drop_first()));
                assert(vstd::utf8::encode_scalar(chars[0] as u32).len() >= 1);
            }
            assert(sb == spec_u64_to_le_bytes(eb.len() as u64) + eb);
            assert(sb.len() == 8 + eb.len());
            assert(s.subrange(p1, p1 + 8) =~= spec_u64_to_le_bytes(eb.len() as u64));
            let ilen = spec_u64_from_le_bytes(s.subrange(p1, p1 + 8)) as int;
            assert(ilen == eb.len());
            assert(s.subrange(p1 + 8, p1 + 8 + ilen) =~= eb);
            encode_utf8_valid_utf8(chars);
            encode_utf8_decode_utf8(chars);
            assert(spec_decoded_text(eb) == chars);
            let p2 = p1 + 8 + ilen;
            assert(s.subrange(p2, p2 + 8) =~= rl);
            let rlen = spec_u64_from_le_bytes(s.subrange(p2, p2 + 8)) as int;
            assert(rlen == v.raw_data.len());
            assert(s.subrange(p2 + 8, p2 + 8 + rlen) =~= v.raw_data);
            assert(spec_parse_frame(s).unwrap().var_headers =~= v.var_headers);
            assert(spec_parse_frame(s).unwrap() == v);
        },
        Option::None => {
            assert(sb == spec_u64_to_le_bytes(0));
            assert(sb.len() == 8);
            assert(s.subrange(p1, p1 + 8) =~= spec_u64_to_le_bytes(0));
            let ilen = spec_u64_from_le_bytes(s.subrange(p1, p1 + 8)) as int;
            assert(ilen == 0);
            let p2 = p1 + 8;
            assert(s.subrange(p2, p2 + 8) =~= rl);
            let rlen = spec_u64_from_le_bytes(s.subrange(p2, p2 + 8)) as int;
            assert(rlen == v.raw_data.len());
            assert(s.subrange(p2 + 8, p2 + 8 + rlen) =~= v.raw_data);
            assert(spec_parse_frame(s).unwrap().var_headers =~= v.var_headers);
            assert(spec_parse_frame(s).unwrap() == v);
        },
    }
}

/// The bounds a live shared-memory region's header must satisfy for
/// every read a capture tick performs to stay inside the region.
pub open spec fn spec_region_header_wf(h: HeaderView, n: int) -> bool {
    &&& 0 <= h.num_buf <= 4
    &&& 0 <= h.num_vars
    &&& 0 <= h.var_header_offset
    &&& h.var_header_offset as int + h.num_vars as int * (VAR_HEADER_SIZE as int) <= n
    &&& 0 <= h.session_info_offset
    &&& 0 <= h.session_info_len
    &&& h.session_info_offset as int + h.session_info_len as int <= n
    &&& 0 <= h.buf_len
    &&& forall|i: int|
        0 <= i < 4 ==> 0 <= (#[trigger] h.var_buf[i]).buf_offset && h.var_buf[i].buf_offset as int
            + h.buf_len as int <= n
}

/// The region is big enough for the fixed header and every offset the
/// header declares stays inside the region.
pub open spec fn spec_region_wf(r: Seq<u8>) -> bool {
    &&& r.len() >= HEADER_SIZE
    &&& spec_region_header_wf(spec_parse_header(r.subrange(0, HEADER_SIZE as int)), r.len() as int)
}

/// Decides `spec_region_wf` for a mapped region, so a caller can
/// establish it before handing the region to `CaptureState::update`.
pub fn region_wf_check(region: &[u8]) -> (b: bool)
    ensures
        b == spec_region_wf(region@),
{
    let n = region.len();
    if n < HEADER_SIZE {
        return false;
    }
    let h = Header::from_bytes(region);
    let n64 = n as u64;
    if h.num_buf < 0 || h.num_buf > 4 {
        return false;
    }
    if h.num_vars < 0 || h.var_header_offset < 0 {
        return false;
    }
    if (h.var_header_offset as u64) + (h.num_vars as u64) * (VAR_HEADER_SIZE as u64) > n64 {
        return false;
    }
    if h.session_info_offset < 0 || h.session_info_len < 0 {
        return false;
    }
    if (h.session_info_offset as u64) + (h.session_info_len as u64) > n64 {
        return false;
    }
    if h.buf_len < 0 {
        return false;
    }
    let mut i: usize = 0;
    while i < IRSDK_MAX_BUFS
        invariant
            i <= IRSDK_MAX_BUFS,
            h.wf(),
            h@ == spec_parse_header(region@.subrange(0, HEADER_SIZE as int)),
            0 <= h.buf_len,
            n == region@.len(),
            forall|j: int|
                0 <= j < i ==> 0 <= (#[trigger] h@.var_buf[j]).buf_offset && h@.var_buf[
                    j].buf_offset as int + h.buf_len as int <= n,
        decreases IRSDK_MAX_BUFS - i,
    {
        proof {
            assert(h@.var_buf[i as int] == h.var_buf@[i as int]@);
        }
        let b = &h.var_buf[i];
        if b.buf_offset < 0 || (b.buf_offset as u64) + (h.buf_len as u64) > n as u64 {
            return false;
        }
        i = i + 1;
    }
    true
}

/// The channel descriptors a capture tick copies out of the region.
pub open spec fn spec_read_var_headers(r: Seq<u8>, h: HeaderView) -> Seq<VarHeaderView> {
    Seq::new(
        spec_num_vars(h) as nat,
        |i: int|
            spec_parse_var_header(
                r.subrange(
                    h.var_header_offset as int + i * VAR_HEADER_SIZE,
                    h.var_header_offset as int + i * VAR_HEADER_SIZE + VAR_HEADER_SIZE,
                ),
            ),
    )
}

fn read_var_headers(region: &[u8], header: &Header) -> (r: Vec<VarHeader>)
    requires
        header.wf(),
        0 <= header.num_vars,
        0 <= header.var_header_offset,
        header.var_header_offset as int + header.num_vars as int * (VAR_HEADER_SIZE as int)
            <= region@.len(),
    ensures
        r@.len() == header.num_vars as int,
        Seq::new(r@.len(), |i: int| r@[i]@) == spec_read_var_headers(region@, header@),
        forall|j: int| 0 <= j < r@.len() ==> (#[trigger] r@[j]).wf(),
{
    let nv = if header.num_vars > 0 {
        header.num_vars as usize
    } else {
        0
    };
    let vho = header.var_header_offset as usize;
    proof {
        vstd::slice::axiom_spec_len::<u8>(region);
    }
    let mut r: Vec<VarHeader> = Vec::new();
    let mut i: usize = 0;
    while i < nv
        invariant
            nv == header.num_vars as int,
            vho == header.var_header_offset as int,
            vho + nv * VAR_HEADER_SIZE <= region@.len(),
            region@.len() <= usize::MAX,
            i <= nv,
            r@.len() == i,
            forall|j: int|
                0 <= j < i ==> (#[trigger] r@[j])@ == spec_parse_var_header(
                    region@.subrange(
                        vho + j * VAR_HEADER_SIZE,
                        vho + j * VAR_HEADER_SIZE + VAR_HEADER_SIZE,
                    ),
                ) && r@[j].wf(),
        decreases nv - i,
    {
        let start = vho + i * VAR_HEADER_SIZE;
        let vh = VarHeader::from_bytes(slice_subrange(region, start, start + VAR_HEADER_SIZE));
        proof {
            assert(region@.subrange(start as int, start as int + VAR_HEADER_SIZE).subrange(
                0,
                VAR_HEADER_SIZE as int,
            ) =~= region@.subrange(start as int, start as int + VAR_HEADER_SIZE));
        }
        r.push(vh);
        i = i + 1;
    }
    proof {
        assert(Seq::new(r@.len(), |i: int| r@[i]@) =~= spec_read_var_headers(region@, header@));
    }
    r
}

/// The position of the first zero byte of `s`, or its length when none
/// occurs.
pub open spec fn spec_first_nul(s: Seq<u8>) -> int
    decreases s.len(),
{
    if s.len() == 0 {
        0
    } else if s[0] == 0 {
        0
    } else {
        1 + spec_first_nul(s.drop_first())
    }
}

proof fn lemma_first_nul_at(s: Seq<u8>, k: int)
    requires
        0 <= k <= s.len(),
        forall|j: int| 0 <= j < k ==> s[j] != 0,
        k < s.len() ==> s[k] == 0,
    ensures
        spec_first_nul(s) == k,
    decreases s.len(),
{
    if s.len() == 0 {
    } else if s[0] == 0 {
        assert(k == 0);
    } else {
        assert(k >= 1);
        let d = s.drop_first();
        assert(forall|j: int| 0 <= j < k - 1 ==> #[trigger] d[j] == s[j + 1] && d[j] != 0);
        assert(k - 1 < d.len() ==> d[k - 1] == s[k]);
        lemma_first_nul_at(d, k - 1);
    }
}

/// The session-info text a capture tick records: the blob the header
/// points at, cut at its first zero byte, decoded leniently.
pub open spec fn spec_session_text(r: Seq<u8>, h: HeaderView) -> Seq<char> {
    let blob = r.subrange(
        h.session_info_offset as int,
        h.session_info_offset as int + h.session_info_len as int,
    );
    spec_decoded_text(blob.subrange(0, spec_first_nul(blob)))
}

fn read_session_info(region: &[u8], header: &Header) -> (r: String)
    requires
        0 <= header.session_info_offset,
        0 <= header.session_info_len,
        header.session_info_offset as int + header.session_info_len as int <= region@.len(),
    ensures
        r@ == spec_session_text(region@, header@),
{
    let sio = header.session_info_offset as usize;
    let sil = header.session_info_len as usize;
    let blob = slice_subrange(region, sio, sio + sil);
    let mut end: usize = 0;
    while end < sil && blob[end] != 0
        invariant
            blob@.len() == sil,
            end <= sil,
            forall|j: int| 0 <= j < end ==> blob@[j] != 0,
        decreases sil - end,
    {
        end = end + 1;
    }
    proof {
        lemma_first_nul_at(blob@, end as int);
    }
    let trimmed = slice_subrange(blob, 0, end);
    bytes_to_string_lossy(trimmed)
}

fn read_raw_data(region: &[u8], header: &Header) -> (r: Vec<u8>)
    requires
        header.wf(),
        0 <= header.num_buf,
        header.num_buf <= 4,
        0 <= header.buf_len,
        forall|i: int|
            0 <= i < 4 ==> 0 <= (#[trigger] header@.var_buf[i]).buf_offset && header@.var_buf[
                i].buf_offset as int + header.buf_len as int <= region@.len(),
    ensures
        ({
            let off = header@.var_buf[spec_latest_buf(header@)].buf_offset as int;
            r@ == region@.subrange(off, off + header.buf_len as int)
        }),
{
    let li = header.latest_buf_index();
    proof {
        assert(header@.var_buf[li as int] == header.var_buf@[li as int]@);
    }
    let off = header.var_buf[li].buf_offset as usize;
    let bl = header.buf_len as usize;
    copy_range(region, off, off + bl)
}

/// The per-session capture state: which sample tick and which
/// session-info revision were last recorded.
pub struct CaptureState {
    pub last_session_info_update: i32,
    pub last_tick_count: i32,
}

impl CaptureState {
    /// A fresh state, as a new connection starts with.
    pub fn new() -> (s: CaptureState)
        ensures
            s.last_session_info_update == 0,
            s.last_tick_count == 0,
    {
        CaptureState { last_session_info_update: 0, last_tick_count: 0 }
    }

    /// One capture poll over the mapped region.
    ///
    /// Returns `None` — and changes nothing — while the simulator
    /// reports itself off or the freshest sample buffer still holds the
    /// tick recorded last.  Otherwise remembers the new tick, reads the
    /// session info only when its revision counter moved, and returns
    /// the serialized snapshot.
    pub fn update(&mut self, region: &[u8]) -> (r: Option<Vec<u8>>)
        requires
            spec_region_wf(region@),
        ensures
            ({
                let h = spec_parse_header(region@.subrange(0, HEADER_SIZE as int));
                let tick = h.var_buf[spec_latest_buf(h)].tick_count;
                let fresh = h.spec_is_connected() && tick != old(self).last_tick_count;
                &&& r is Some <==> fresh
                &&& !fresh ==> *final(self) == *old(self)
                &&& fresh ==> {
                    let info_changed = h.session_info_update != old(
                        self,
                    ).last_session_info_update;
                    &&& final(self).last_tick_count == tick
                    &&& final(self).last_session_info_update == if info_changed {
                        h.session_info_update
                    } else {
                        old(self).last_session_info_update
                    }
                    &&& r matches Some(v) && v@ == spec_frame_bytes(
                        FrameDataView {
                            header: h,
                            var_headers: spec_read_var_headers(region@, h),
                            session_info: if info_changed {
                                Option::Some(spec_session_text(region@, h))
                            } else {
                                Option::None
                            },
                            raw_data: region@.subrange(
                                h.var_buf[spec_latest_buf(h)].buf_offset as int,
                                h.var_buf[spec_latest_buf(h)].buf_offset as int
                                    + h.buf_len as int,
                            ),
                        },
                    )
                }
            }),
    {
        let header = Header::from_bytes(region);
        if !header.is_connected() {
            return None;
        }
        let li = header.latest_buf_index();
        proof {
            assert(header@.var_buf[li as int] == header.var_buf@[li as int]@);
        }
        let current_tick = header.var_buf[li].tick_count;
        if current_tick == self.last_tick_count {
            return None;
        }
        self.last_tick_count = current_tick;
        let var_headers = read_var_headers(region, &header);
        let session_info = if header.session_info_update != self.last_session_info_update {
            self.last_session_info_update = header.session_info_update;
            Some(read_session_info(region, &header))
        } else {
            None
        };
        let raw_data = read_raw_data(region, &header);
        let frame = FrameData { header, var_headers, session_info, raw_data };
        frame.serialize()
    }
}

/// The snapshot fields playback uses as a buffer count or as write
/// offsets are in range for the destination region layout.
pub open spec fn spec_frame_playable(f: FrameDataView) -> bool {
    &&& 0 <= f.header.num_buf <= 4
    &&& f.header.var_buf[spec_latest_buf(f.header)].buf_offset >= 0
    &&& f.var_headers.len() > 0 ==> f.header.var_header_offset >= 0
    &&& f.session_info is Some ==> f.header.session_info_offset >= 0
}

/// The writes a playback tick performs for one frame payload: the
/// header at the front of the region, the sample bytes at the freshest
/// buffer's offset, each channel descriptor at its slot, and — when the
/// frame carries one — the session-info text at its offset.
#[verifier::loop_isolation(false)]
pub fn playback_ops(data: &[u8]) -> (r: Result<Vec<WriteOp>, LayoutError>)
    ensures
        match spec_parse_frame(data@) {
            Option::None => r matches Err(LayoutError::TooShort),
            Option::Some(f) => {
                if spec_frame_playable(f) {
                    r matches Ok(ops) && {
                        let li = spec_latest_buf(f.header);
                        let nv = f.var_headers.len() as int;
                        &&& ops@.len() == 2 + nv + (if f.session_info is Some {
                            1int
                        } else {
                            0
                        })
                        &&& ops@[0].offset == 0 && ops@[0].bytes@ == spec_header_bytes(f.header)
                        &&& ops@[1].offset as int == f.header.var_buf[li].buf_offset as int
                            && ops@[1].bytes@ == f.raw_data
                        &&& forall|j: int|
                            0 <= j < nv ==> (#[trigger] ops@[2 + j]).offset as int
                                == f.header.var_header_offset as int + j * (VAR_HEADER_SIZE as int)
                                && ops@[2 + j].bytes@ == spec_var_header_bytes(f.var_headers[j])
                        &&& (f.session_info matches Some(chars) ==> ops@[2 + nv].offset as int
                            == f.header.session_info_offset as int && ops@[2 + nv].bytes@
                            == vstd::utf8::encode_utf8(chars))
                    }
                } else {
                    r matches Err(LayoutError::Invalid)
                }
            },
        },
{
    let frame = match FrameData::deserialize(data) {
        Ok(f) => f,
        Err(e) => {
            return Err(e);
        },
    };
    let ghost fv = frame@;
    let FrameData { header, var_headers, session_info, raw_data } = frame;
    proof {
        assert(fv.wf());
        assert(fv.var_headers.len() == var_headers@.len());
        assert forall|j: int| 0 <= j < var_headers@.len() implies (#[trigger] var_headers@[
        j]).wf() by {
            assert(fv.var_headers[j] == var_headers@[j]@);
            assert(fv.var_headers[j].wf());
        }
        assert(var_headers@.len() <= i32::MAX);
    }
    if header.num_buf < 0 || header.num_buf > 4 {
        return Err(LayoutError::Invalid);
    }
    let li = header.latest_buf_index();
    proof {
        assert(header@.var_buf[li as int] == header.var_buf@[li as int]@);
    }
    let boff = header.var_buf[li].buf_offset;
    if boff < 0 {
        return Err(LayoutError::Invalid);
    }
    if var_headers.len() > 0 && header.var_header_offset < 0 {
        return Err(LayoutError::Invalid);
    }
    if session_info.is_some() && header.session_info_offset < 0 {
        return Err(LayoutError::Invalid);
    }
    let mut ops: Vec<WriteOp> = Vec::new();
    let header_bytes = header.to_bytes();
    ops.push(WriteOp { offset: 0, bytes: header_bytes });
    ops.push(WriteOp { offset: boff as u64, bytes: raw_data });
    let vho = header.var_header_offset;
    let ghost base = ops@;
    let ghost fvhs = Seq::new(var_headers@.len(), |i: int| var_headers@[i]@);
    let mut i: usize = 0;
    while i < var_headers.len()
        invariant
            i <= var_headers@.len(),
            var_headers@.len() <= i32::MAX,
            fvhs == Seq::new(var_headers@.len(), |k: int| var_headers@[k]@),
            forall|j: int| 0 <= j < var_headers@.len() ==> (#[trigger] var_headers@[j]).wf(),
            var_headers@.len() > 0 ==> 0 <= vho,
            ops@.len() == 2 + i,
            ops@.subrange(0, 2) == base,
            base.len() == 2,
            forall|j: int|
                0 <= j < i ==> (#[trigger] ops@[2 + j]).offset as int == vho as int + j * (
                VAR_HEADER_SIZE as int) && ops@[2 + j].bytes@ == spec_var_header_bytes(fvhs[j]),
        decreases var_headers@.len() - i,
    {
        proof {
            assert(var_headers@[i as int].wf());
        }
        let bytes = var_headers[i].to_bytes();
        let offset = (vho as u64) + (i as u64) * (VAR_HEADER_SIZE as u64);
        let ghost before = ops@;
        ops.push(WriteOp { offset, bytes });
        i = i + 1;
        proof {
            assert(ops@.subrange(0, 2) =~= before.subrange(0, 2));
        }
    }
    match &session_info {
        Option::Some(info) => {
            let bytes = info.as_str().as_bytes_vec();
            ops.push(WriteOp { offset: header.session_info_offset as u64, bytes });
        },
        Option::None => {},
    }
    proof {
        assert(ops@[0] == base[0]);
        assert(ops@[1] == base[1]);
        assert(base[0].offset == 0);
        assert(base[0].bytes@ == spec_header_bytes(fv.header));
        assert(base[1].offset as int == fv.header.var_buf[spec_latest_buf(
            fv.header,
        )].buf_offset as int);
        assert(base[1].bytes@ == fv.raw_data);
    }
    Ok(ops)
}

/// The write that `stop` performs before the region is released: clear
/// the header's status field so consumers see the simulator gone.
pub fn stop_op() -> (r: WriteOp)
    ensures
        r.offset == 4,
        r.bytes@ == spec_i32_to_le_bytes(0),
{
    let mut bytes: Vec<u8> = Vec::new();
    push_i32_le(&mut bytes, 0);
    proof {
        assert(Seq::<u8>::empty() + spec_i32_to_le_bytes(0) =~= spec_i32_to_le_bytes(0));
    }
    WriteOp { offset: 4, bytes }
}

/// The 4-byte stream identifier frames of this layout are recorded
/// under: the bytes of "irac".
pub open spec fn spec_id() -> Seq<u8> {
    seq![105u8, 114u8, 97u8, 99u8]
}

/// The source identifier as the container header stores it.
pub fn id() -> (r: [u8; 4])
    ensures
        r@ == spec_id(),
{
    let r: [u8; 4] = [105, 114, 97, 99];
    proof {
        assert(r@ =~= spec_id());
    }
    r
}

} // verus!
