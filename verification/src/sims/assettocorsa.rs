//! The fixed-page telemetry layout.
//!
//! This simulator exposes three named shared-memory pages — graphics,
//! physics and static data — each padded with headroom beyond the
//! vendor's documented struct size.  A snapshot is the three pages
//! concatenated in graphics/physics/static order, and every multi-byte
//! field is stored little-endian.

use vstd::prelude::*;

verus! {

use crate::encoding::{
    copy_range, lemma_i32_le_bytes_round_trip, lemma_u16s_le_bytes_len,
    lemma_u16s_le_bytes_round_trip, push_bytes, push_i32_le, push_u16s_le, read_i32_le,
    read_u16s_le, spec_i32_from_le_bytes, spec_i32_to_le_bytes, spec_u16s_from_le_bytes,
    spec_u16s_le_bytes, zero_bytes, zero_u16s,
};
use crate::sims::{LayoutError, WriteOp};
use vstd::slice::slice_subrange;

/// Size of each of the three named shared-memory regions.
pub const SHM_SIZE: usize = 2048;

/// The status value the simulator reports while it is not running.
pub const AC_OFF: i32 = 0;

/// Serialized size of the physics page, headroom included.
pub const PHYSICS_PADDED_SIZE: usize = 1024;

/// Serialized size of the graphics page, headroom included.
pub const GRAPHICS_PADDED_SIZE: usize = 2048;

/// Serialized size of the static page, headroom included.
pub const STATIC_PADDED_SIZE: usize = 2048;

/// Raw bytes of the physics page.
pub const PHYSICS_CONTENT_SIZE: usize = 1024;

/// Raw bytes of the graphics page after its packet-id and status fields.
pub const GRAPHICS_CONTENT_SIZE: usize = 2040;

/// Number of 16-bit values in each of the static page's version fields.
pub const STATIC_VERSION_LEN: usize = 15;

/// Raw bytes of the static page after its two version fields.
pub const STATIC_CONTENT_SIZE: usize = 1988;

/// Serialized size of one whole snapshot: the three pages in order.
pub const FRAME_SIZE: usize = GRAPHICS_PADDED_SIZE + PHYSICS_PADDED_SIZE + STATIC_PADDED_SIZE;

/// The physics page: opaque content with headroom.
#[derive(Clone, Debug)]
pub struct PhysicsPage {
    pub content: Vec<u8>,
}

/// The graphics page: a packet counter, the liveness status, and opaque
/// content with headroom.
#[derive(Clone, Debug)]
pub struct GraphicsPage {
    pub packet_id: i32,
    pub status: i32,
    pub content: Vec<u8>,
}

/// The static page: two 15-value version fields and opaque content with
/// headroom.
#[derive(Clone, Debug)]
pub struct StaticPage {
    pub sm_version: Vec<u16>,
    pub ac_version: Vec<u16>,
    pub content: Vec<u8>,
}

pub struct PhysicsView {
    pub content: Seq<u8>,
}

pub struct GraphicsView {
    pub packet_id: i32,
    pub status: i32,
    pub content: Seq<u8>,
}

pub struct StaticView {
    pub sm_version: Seq<u16>,
    pub ac_version: Seq<u16>,
    pub content: Seq<u8>,
}

impl View for PhysicsPage {
    type V = PhysicsView;

    open spec fn view(&self) -> PhysicsView {
        PhysicsView { content: self.content@ }
    }
}

impl View for GraphicsPage {
    type V = GraphicsView;

    open spec fn view(&self) -> GraphicsView {
        GraphicsView { packet_id: self.packet_id, status: self.status, content: self.content@ }
    }
}

impl View for StaticPage {
    type V = StaticView;

    open spec fn view(&self) -> StaticView {
        StaticView {
            sm_version: self.sm_version@,
            ac_version: self.ac_version@,
            content: self.content@,
        }
    }
}

impl PhysicsView {
    pub open spec fn wf(self) -> bool {
        self.content.len() == PHYSICS_CONTENT_SIZE
    }
}

impl GraphicsView {
    pub open spec fn wf(self) -> bool {
        self.content.len() == GRAPHICS_CONTENT_SIZE
    }
}

impl StaticView {
    pub open spec fn wf(self) -> bool {
        &&& self.sm_version.len() == STATIC_VERSION_LEN
        &&& self.ac_version.len() == STATIC_VERSION_LEN
        &&& self.content.len() == STATIC_CONTENT_SIZE
    }
}

/// The serialized physics page: its content as it stands.
pub open spec fn spec_physics_bytes(p: PhysicsView) -> Seq<u8> {
    p.content
}

/// The serialized graphics page: packet id, status, then content.
pub open spec fn spec_graphics_bytes(g: GraphicsView) -> Seq<u8> {
    spec_i32_to_le_bytes(g.packet_id) + spec_i32_to_le_bytes(g.status) + g.content
}

/// The serialized static page: the two version fields, then content.
pub open spec fn spec_static_bytes(s: StaticView) -> Seq<u8> {
    spec_u16s_le_bytes(s.sm_version) + spec_u16s_le_bytes(s.ac_version) + s.content
}

/// The physics page read back from the front of its serialized bytes.
pub open spec fn spec_parse_physics(s: Seq<u8>) -> PhysicsView
    recommends
        s.len() == PHYSICS_PADDED_SIZE,
{
    PhysicsView { content: s.subrange(0, PHYSICS_CONTENT_SIZE as int) }
}

/// The graphics page read back from the front of its serialized bytes.
pub open spec fn spec_parse_graphics(s: Seq<u8>) -> GraphicsView
    recommends
        s.len() == GRAPHICS_PADDED_SIZE,
{
    GraphicsView {
        packet_id: spec_i32_from_le_bytes(s.subrange(0, 4)),
        status: spec_i32_from_le_bytes(s.subrange(4, 8)),
        content: s.subrange(8, GRAPHICS_PADDED_SIZE as int),
    }
}

/// The static page read back from the front of its serialized bytes.
pub open spec fn spec_parse_static(s: Seq<u8>) -> StaticView
    recommends
        s.len() == STATIC_PADDED_SIZE,
{
    StaticView {
        sm_version: spec_u16s_from_le_bytes(s.subrange(0, 30)),
        ac_version: spec_u16s_from_le_bytes(s.subrange(30, 60)),
        content: s.subrange(60, STATIC_PADDED_SIZE as int),
    }
}

impl PhysicsPage {
    pub open spec fn wf(self) -> bool {
        self@.wf()
    }

    /// The page's serialized bytes.
    pub fn to_bytes(&self) -> (r: Vec<u8>)
        requires
            self.wf(),
        ensures
            r@ == spec_physics_bytes(self@),
            r@.len() == PHYSICS_PADDED_SIZE,
    {
        let mut out: Vec<u8> = Vec::new();
        push_bytes(&mut out, self.content.as_slice());
        proof {
            assert(out@ =~= spec_physics_bytes(self@));
        }
        out
    }

    /// The page stored at the front of `page`.
    pub fn from_bytes(page: &[u8]) -> (r: PhysicsPage)
        requires
            page@.len() >= PHYSICS_PADDED_SIZE,
        ensures
            r@ == spec_parse_physics(page@.subrange(0, PHYSICS_PADDED_SIZE as int)),
            r.wf(),
    {
        let r = PhysicsPage { content: copy_range(page, 0, PHYSICS_CONTENT_SIZE) };
        proof {
            assert(page@.subrange(0, PHYSICS_PADDED_SIZE as int).subrange(
                0,
                PHYSICS_CONTENT_SIZE as int,
            ) =~= page@.subrange(0, PHYSICS_CONTENT_SIZE as int));
        }
        r
    }
}

impl Default for PhysicsPage {
    /// An all-zero page, as a freshly created shared-memory region holds.
    fn default() -> (r: PhysicsPage)
        ensures
            r.wf(),
            r@.content == Seq::new(PHYSICS_CONTENT_SIZE as nat, |i: int| 0u8),
    {
        PhysicsPage { content: zero_bytes(PHYSICS_CONTENT_SIZE) }
    }
}

impl GraphicsPage {
    pub open spec fn wf(self) -> bool {
        self@.wf()
    }

    /// The page's serialized bytes.
    pub fn to_bytes(&self) -> (r: Vec<u8>)
        requires
            self.wf(),
        ensures
            r@ == spec_graphics_bytes(self@),
            r@.len() == GRAPHICS_PADDED_SIZE,
    {
        let mut out: Vec<u8> = Vec::new();
        push_i32_le(&mut out, self.packet_id);
        push_i32_le(&mut out, self.status);
        push_bytes(&mut out, self.content.as_slice());
        proof {
            lemma_i32_le_bytes_round_trip();
            assert(out@ =~= spec_graphics_bytes(self@));
        }
        out
    }

    /// The page stored at the front of `page`.
    pub fn from_bytes(page: &[u8]) -> (r: GraphicsPage)
        requires
            page@.len() >= GRAPHICS_PADDED_SIZE,
        ensures
            r@ == spec_parse_graphics(page@.subrange(0, GRAPHICS_PADDED_SIZE as int)),
            r.wf(),
    {
        let r = GraphicsPage {
            packet_id: read_i32_le(page, 0),
            status: read_i32_le(page, 4),
            content: copy_range(page, 8, GRAPHICS_PADDED_SIZE),
        };
        proof {
            let sub = page@.subrange(0, GRAPHICS_PADDED_SIZE as int);
            assert(sub.subrange(0, 4) =~= page@.subrange(0, 4));
            assert(sub.subrange(4, 8) =~= page@.subrange(4, 8));
            assert(sub.subrange(8, GRAPHICS_PADDED_SIZE as int) =~= page@.subrange(
                8,
                GRAPHICS_PADDED_SIZE as int,
            ));
        }
        r
    }
}

impl Default for GraphicsPage {
    /// An all-zero page; its status field reports the simulator off.
    fn default() -> (r: GraphicsPage)
        ensures
            r.wf(),
            r@.packet_id == 0,
            r@.status == AC_OFF,
            r@.content == Seq::new(GRAPHICS_CONTENT_SIZE as nat, |i: int| 0u8),
    {
        GraphicsPage { packet_id: 0, status: 0, content: zero_bytes(GRAPHICS_CONTENT_SIZE) }
    }
}

impl StaticPage {
    pub open spec fn wf(self) -> bool {
        self@.wf()
    }

    /// The page's serialized bytes.
    pub fn to_bytes(&self) -> (r: Vec<u8>)
        requires
            self.wf(),
        ensures
            r@ == spec_static_bytes(self@),
            r@.len() == STATIC_PADDED_SIZE,
    {
        let mut out: Vec<u8> = Vec::new();
        push_u16s_le(&mut out, &self.sm_version);
        push_u16s_le(&mut out, &self.ac_version);
        push_bytes(&mut out, self.content.as_slice());
        proof {
            lemma_u16s_le_bytes_len(self.sm_version@);
            lemma_u16s_le_bytes_len(self.ac_version@);
            assert(out@ =~= spec_static_bytes(self@));
        }
        out
    }

    /// The page stored at the front of `page`.
    pub fn from_bytes(page: &[u8]) -> (r: StaticPage)
        requires
            page@.len() >= STATIC_PADDED_SIZE,
        ensures
            r@ == spec_parse_static(page@.subrange(0, STATIC_PADDED_SIZE as int)),
            r.wf(),
    {
        let r = StaticPage {
            sm_version: read_u16s_le(page, 0, STATIC_VERSION_LEN),
            ac_version: read_u16s_le(page, 30, STATIC_VERSION_LEN),
            content: copy_range(page, 60, STATIC_PADDED_SIZE),
        };
        proof {
            let sub = page@.subrange(0, STATIC_PADDED_SIZE as int);
            assert(sub.subrange(0, 30) =~= page@.subrange(0, 30));
            assert(sub.subrange(30, 60) =~= page@.subrange(30, 60));
            assert(sub.subrange(60, STATIC_PADDED_SIZE as int) =~= page@.subrange(
                60,
                STATIC_PADDED_SIZE as int,
            ));
        }
        r
    }
}

impl Default for StaticPage {
    /// An all-zero page, as a freshly created shared-memory region holds.
    fn default() -> (r: StaticPage)
        ensures
            r.wf(),
            r@.sm_version == Seq::new(STATIC_VERSION_LEN as nat, |i: int| 0u16),
            r@.ac_version == Seq::new(STATIC_VERSION_LEN as nat, |i: int| 0u16),
            r@.content == Seq::new(STATIC_CONTENT_SIZE as nat, |i: int| 0u8),
    {
        StaticPage {
            sm_version: zero_u16s(STATIC_VERSION_LEN),
            ac_version: zero_u16s(STATIC_VERSION_LEN),
            content: zero_bytes(STATIC_CONTENT_SIZE),
        }
    }
}

/// One snapshot: the three pages of a single tick.
#[derive(Clone, Debug)]
pub struct FrameData {
    pub graphics: GraphicsPage,
    pub physics: PhysicsPage,
    pub statics: StaticPage,
}

pub struct FrameDataView {
    pub graphics: GraphicsView,
    pub physics: PhysicsView,
    pub statics: StaticView,
}

impl View for FrameData {
    type V = FrameDataView;

    open spec fn view(&self) -> FrameDataView {
        FrameDataView { graphics: self.graphics@, physics: self.physics@, statics: self.statics@ }
    }
}

impl FrameDataView {
    pub open spec fn wf(self) -> bool {
        self.graphics.wf() && self.physics.wf() && self.statics.wf()
    }
}

/// A serialized snapshot: the three pages concatenated in
/// graphics/physics/static order.
pub open spec fn spec_frame_bytes(f: FrameDataView) -> Seq<u8> {
    spec_graphics_bytes(f.graphics) + spec_physics_bytes(f.physics) + spec_static_bytes(f.statics)
}

/// The snapshot stored at the front of a serialized payload.
pub open spec fn spec_parse_frame(s: Seq<u8>) -> FrameDataView
    recommends
        s.len() >= FRAME_SIZE,
{
    FrameDataView {
        graphics: spec_parse_graphics(s.subrange(0, GRAPHICS_PADDED_SIZE as int)),
        physics: spec_parse_physics(
            s.subrange(
                GRAPHICS_PADDED_SIZE as int,
                GRAPHICS_PADDED_SIZE as int + PHYSICS_PADDED_SIZE as int,
            ),
        ),
        statics: spec_parse_static(
            s.subrange(GRAPHICS_PADDED_SIZE as int + PHYSICS_PADDED_SIZE as int, FRAME_SIZE as int),
        ),
    }
}

impl FrameData {
    pub open spec fn wf(self) -> bool {
        self@.wf()
    }

    /// Packs the snapshot into one frame payload.
    pub fn serialize(&self) -> (r: Vec<u8>)
        requires
            self.wf(),
        ensures
            r@ == spec_frame_bytes(self@),
            r@.len() == FRAME_SIZE,
    {
        let mut out = self.graphics.to_bytes();
        let mut physics = self.physics.to_bytes();
        out.append(&mut physics);
        let mut statics = self.statics.to_bytes();
        out.append(&mut statics);
        out
    }

    /// Unpacks a frame payload; bytes beyond the fixed frame size are
    /// ignored.
    pub fn deserialize(bytes: &[u8]) -> (r: Result<FrameData, LayoutError>)
        ensures
            r is Err <==> bytes@.len() < FRAME_SIZE,
            r matches Err(e) ==> e == LayoutError::TooShort,
            r matches Ok(f) ==> f@ == spec_parse_frame(bytes@) && f.wf(),
    {
        if bytes.len() < FRAME_SIZE {
            return Err(LayoutError::TooShort);
        }
        let graphics = GraphicsPage::from_bytes(bytes);
        let physics = PhysicsPage::from_bytes(
            slice_subrange(bytes, GRAPHICS_PADDED_SIZE, GRAPHICS_PADDED_SIZE + PHYSICS_PADDED_SIZE),
        );
        let statics = StaticPage::from_bytes(
            slice_subrange(bytes, GRAPHICS_PADDED_SIZE + PHYSICS_PADDED_SIZE, FRAME_SIZE),
        );
        proof {
            let g = GRAPHICS_PADDED_SIZE as int;
            let p = PHYSICS_PADDED_SIZE as int;
            assert(bytes@.subrange(g, g + p).subrange(0, p) =~= bytes@.subrange(g, g + p));
            assert(bytes@.subrange(g + p, FRAME_SIZE as int).subrange(
                0,
                STATIC_PADDED_SIZE as int,
            ) =~= bytes@.subrange(g + p, FRAME_SIZE as int));
        }
        Ok(FrameData { graphics, physics, statics })
    }
}

impl Default for FrameData {
    /// A snapshot of three all-zero pages.
    fn default() -> (r: FrameData)
        ensures
            r.wf(),
            r@.graphics.packet_id == 0,
            r@.graphics.status == AC_OFF,
            r@.graphics.content == Seq::new(GRAPHICS_CONTENT_SIZE as nat, |i: int| 0u8),
            r@.physics.content == Seq::new(PHYSICS_CONTENT_SIZE as nat, |i: int| 0u8),
            r@.statics.sm_version == Seq::new(STATIC_VERSION_LEN as nat, |i: int| 0u16),
            r@.statics.ac_version == Seq::new(STATIC_VERSION_LEN as nat, |i: int| 0u16),
            r@.statics.content == Seq::new(STATIC_CONTENT_SIZE as nat, |i: int| 0u8),
    {
        FrameData {
            graphics: GraphicsPage::default(),
            physics: PhysicsPage::default(),
            statics: StaticPage::default(),
        }
    }
}

/// Law: for any well-formed snapshot, parsing its serialized bytes gives
/// the same snapshot back field for field, untouched padding included.
pub proof fn lemma_frame_round_trip(v: FrameDataView)
    requires
        v.wf(),
    ensures
        spec_parse_frame(spec_frame_bytes(v)) == v,
{
    lemma_i32_le_bytes_round_trip();
    lemma_u16s_le_bytes_len(v.statics.sm_version);
    lemma_u16s_le_bytes_len(v.statics.ac_version);
    let s = spec_frame_bytes(v);
    let gb = spec_graphics_bytes(v.graphics);
    let pb = spec_physics_bytes(v.physics);
    let sb = spec_static_bytes(v.statics);
    let g = GRAPHICS_PADDED_SIZE as int;
    let p = PHYSICS_PADDED_SIZE as int;
    assert(gb.len() == g);
    assert(pb.len() == p);
    assert(sb.len() == STATIC_PADDED_SIZE as int);

    assert(s.subrange(0, g) =~= gb);
    assert(gb.subrange(0, 4) =~= spec_i32_to_le_bytes(v.graphics.packet_id));
    assert(gb.subrange(4, 8) =~= spec_i32_to_le_bytes(v.graphics.status));
    assert(gb.subrange(8, g) =~= v.graphics.content);
    assert(spec_parse_graphics(gb) == v.graphics);

    assert(s.subrange(g, g + p) =~= pb);
    assert(pb.subrange(0, PHYSICS_CONTENT_SIZE as int) =~= v.physics.content);
    assert(spec_parse_physics(pb) == v.physics);

    assert(s.subrange(g + p, FRAME_SIZE as int) =~= sb);
    assert(sb.subrange(0, 30) =~= spec_u16s_le_bytes(v.statics.sm_version));
    assert(sb.subrange(30, 60) =~= spec_u16s_le_bytes(v.statics.ac_version));
    assert(sb.subrange(60, STATIC_PADDED_SIZE as int) =~= v.statics.content);
    lemma_u16s_le_bytes_round_trip(v.statics.sm_version);
    lemma_u16s_le_bytes_round_trip(v.statics.ac_version);
    assert(spec_parse_static(sb) == v.statics);
}

/// True when the status field of a mapped graphics region reports the
/// simulator live.
pub fn graphics_live(region: &[u8]) -> (r: bool)
    requires
        region@.len() >= 8,
    ensures
        r == (spec_i32_from_le_bytes(region@.subrange(4, 8)) != AC_OFF),
{
    read_i32_le(region, 4) != AC_OFF
}

/// One capture poll over the three mapped regions: `None` while the
/// simulator reports itself off, otherwise the serialized snapshot read
/// from them.
pub fn capture_frame(graphics: &[u8], physics: &[u8], statics: &[u8]) -> (r: Option<Vec<u8>>)
    requires
        graphics@.len() >= GRAPHICS_PADDED_SIZE,
        physics@.len() >= PHYSICS_PADDED_SIZE,
        statics@.len() >= STATIC_PADDED_SIZE,
    ensures
        r is None <==> spec_i32_from_le_bytes(graphics@.subrange(4, 8)) == AC_OFF,
        r matches Some(v) ==> v@ == spec_frame_bytes(
            FrameDataView {
                graphics: spec_parse_graphics(graphics@.subrange(0, GRAPHICS_PADDED_SIZE as int)),
                physics: spec_parse_physics(physics@.subrange(0, PHYSICS_PADDED_SIZE as int)),
                statics: spec_parse_static(statics@.subrange(0, STATIC_PADDED_SIZE as int)),
            },
        ),
{
    if !graphics_live(graphics) {
        return None;
    }
    let frame = FrameData {
        graphics: GraphicsPage::from_bytes(graphics),
        physics: PhysicsPage::from_bytes(physics),
        statics: StaticPage::from_bytes(statics),
    };
    Some(frame.serialize())
}

/// The writes a playback tick performs: each page's serialized bytes at
/// the start of its own region, in graphics/physics/static order.
pub fn playback_pages(data: &[u8]) -> (r: Result<(Vec<u8>, Vec<u8>, Vec<u8>), LayoutError>)
    ensures
        r is Err <==> data@.len() < FRAME_SIZE,
        r matches Ok(pages) ==> {
            let f = spec_parse_frame(data@);
            &&& pages.0@ == spec_graphics_bytes(f.graphics)
            &&& pages.1@ == spec_physics_bytes(f.physics)
            &&& pages.2@ == spec_static_bytes(f.statics)
        },
{
    let frame = match FrameData::deserialize(data) {
        Ok(f) => f,
        Err(e) => {
            return Err(e);
        },
    };
    Ok((frame.graphics.to_bytes(), frame.physics.to_bytes(), frame.statics.to_bytes()))
}

/// The write that `stop` performs before the regions are released: mark
/// the graphics page's status field as off so consumers see the
/// simulator gone.
pub fn stop_op() -> (r: WriteOp)
    ensures
        r.offset == 4,
        r.bytes@ == spec_i32_to_le_bytes(AC_OFF),
{
    let mut bytes: Vec<u8> = Vec::new();
    push_i32_le(&mut bytes, AC_OFF);
    proof {
        assert(Seq::<u8>::empty() + spec_i32_to_le_bytes(AC_OFF) =~= spec_i32_to_le_bytes(AC_OFF));
    }
    WriteOp { offset: 4, bytes }
}

/// The 4-byte stream identifier frames of this layout are recorded
/// under: the bytes of "acsa".
pub open spec fn spec_id() -> Seq<u8> {
    seq![97u8, 99u8, 115u8, 97u8]
}

/// The source identifier as the container header stores it.
pub fn id() -> (r: [u8; 4])
    ensures
        r@ == spec_id(),
{
    let r: [u8; 4] = [97, 99, 115, 97];
    proof {
        assert(r@ =~= spec_id());
    }
    r
}

} // verus!
