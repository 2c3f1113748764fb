//! Read-only asset data the world store consumes: entity kinds, frame
//! (animation) identifiers and their frame database, and prototype
//! identifiers and their prototype database.
//!
//! Both databases are immutable for the lifetime of the world container;
//! they stand for the asset files a game would load them from.

use vstd::prelude::*;

use crate::flags::{FlagExt, FlagsExt};
use crate::geom::{dir_index, dir_index_usize, Direction, Point, Rect, PIXEL_MAX};

verus! {

/// What sort of entity a frame or prototype belongs to.
#[derive(Clone, Copy, Debug, PartialEq, Eq, Hash, Structural)]
pub enum EntityKind {
    Item,
    Critter,
    Scenery,
    Wall,
    SqrTile,
    Misc,
    Interface,
}

/// Numeric code of an entity kind in the packed prototype id form.
pub open spec fn kind_code(k: EntityKind) -> u32 {
    match k {
        EntityKind::Item => 0,
        EntityKind::Critter => 1,
        EntityKind::Scenery => 2,
        EntityKind::Wall => 3,
        EntityKind::SqrTile => 4,
        EntityKind::Misc => 5,
        EntityKind::Interface => 6,
    }
}

fn kind_code_exec(k: EntityKind) -> (r: u32)
    ensures
        r == kind_code(k),
{
    match k {
        EntityKind::Item => 0,
        EntityKind::Critter => 1,
        EntityKind::Scenery => 2,
        EntityKind::Wall => 3,
        EntityKind::SqrTile => 4,
        EntityKind::Misc => 5,
        EntityKind::Interface => 6,
    }
}

/// The entity kind a packed prototype id code stands for. Only the six
/// prototype kinds can appear in the packed form.
pub open spec fn kind_of_code(c: u32) -> Option<EntityKind> {
    if c == 0 {
        Some(EntityKind::Item)
    } else if c == 1 {
        Some(EntityKind::Critter)
    } else if c == 2 {
        Some(EntityKind::Scenery)
    } else if c == 3 {
        Some(EntityKind::Wall)
    } else if c == 4 {
        Some(EntityKind::SqrTile)
    } else if c == 5 {
        Some(EntityKind::Misc)
    } else {
        None
    }
}

fn kind_of_code_exec(c: u32) -> (r: Option<EntityKind>)
    ensures
        r == kind_of_code(c),
{
    if c == 0 {
        Some(EntityKind::Item)
    } else if c == 1 {
        Some(EntityKind::Critter)
    } else if c == 2 {
        Some(EntityKind::Scenery)
    } else if c == 3 {
        Some(EntityKind::Wall)
    } else if c == 4 {
        Some(EntityKind::SqrTile)
    } else if c == 5 {
        Some(EntityKind::Misc)
    } else {
        None
    }
}

/// A reference into the prototype database.
#[derive(Clone, Copy, Debug, PartialEq, Eq, Hash, Structural)]
pub struct ProtoId {
    pub kind: EntityKind,
    pub id: u32,
}

impl ProtoId {
    /// A prototype id that the packed 32-bit form can carry.
    pub open spec fn wf(self) -> bool {
        kind_code(self.kind) <= 5 && 1 <= self.id <= 0xffffff
    }

    /// Whether the id can be carried by the packed form.
    pub fn is_wf(self) -> (r: bool)
        ensures
            r == self.wf(),
    {
        kind_code_exec(self.kind) <= 5 && 1 <= self.id && self.id <= 0xffffff
    }

    /// The packed 32-bit form: the kind code in the high byte, the id in
    /// the low three bytes.
    pub open spec fn spec_pack(self) -> u32 {
        (kind_code(self.kind) * 0x1000000 + self.id) as u32
    }

    pub fn pack(self) -> (r: u32)
        requires
            self.wf(),
        ensures
            r == self.spec_pack(),
    {
        kind_code_exec(self.kind) * 0x1000000 + self.id
    }

    /// The prototype id a packed value denotes, if any: the high byte
    /// must be a prototype kind code and the low three bytes nonzero.
    pub open spec fn spec_from_packed(v: u32) -> Option<ProtoId> {
        match kind_of_code(v / 0x1000000) {
            Some(kind) => {
                let id = v % 0x1000000;
                if id >= 1 {
                    Some(ProtoId { kind, id: id as u32 })
                } else {
                    None
                }
            },
            None => None,
        }
    }

    pub fn from_packed(v: u32) -> (r: Option<ProtoId>)
        ensures
            r == ProtoId::spec_from_packed(v),
            r matches Some(pid) ==> pid.wf(),
    {
        match kind_of_code_exec(v / 0x1000000) {
            Some(kind) => {
                let id = v % 0x1000000;
                if id >= 1 {
                    Some(ProtoId { kind, id })
                } else {
                    None
                }
            },
            None => None,
        }
    }

    /// Decoding a packed prototype id yields the id it was packed from,
    /// and well-formedness survives the trip.
    pub proof fn lemma_pack_roundtrip(self)
        requires
            self.wf(),
        ensures
            ProtoId::spec_from_packed(self.spec_pack()) == Some(self),
    {
        let v = self.spec_pack();
        let c = kind_code(self.kind);
        assert(v == c * 0x1000000 + self.id);
        assert(v / 0x1000000 == c && v % 0x1000000 == self.id) by (nonlinear_arith)
            requires
                v == c * 0x1000000 + self.id,
                c <= 5,
                1 <= self.id <= 0xffffff,
        ;
    }

    /// The shiv, the one item whose kind `item_kind` reports.
    pub open spec fn spec_shiv() -> ProtoId {
        ProtoId { kind: EntityKind::Item, id: 383 }
    }

    pub fn shiv() -> (r: ProtoId)
        ensures
            r == ProtoId::spec_shiv(),
            r.wf(),
    {
        ProtoId { kind: EntityKind::Item, id: 383 }
    }

    /// Armed explosives and flares: items that can never be used again.
    pub open spec fn spec_is_armed_item(self) -> bool {
        self.kind == EntityKind::Item && (self.id == 205 || self.id == 206 || self.id == 209)
    }

    pub fn is_armed_item(self) -> (r: bool)
        ensures
            r == self.spec_is_armed_item(),
    {
        match self.kind {
            EntityKind::Item => self.id == 205 || self.id == 206 || self.id == 209,
            _ => false,
        }
    }

    /// Pools of radioactive goo, which cost extra to walk through.
    pub open spec fn spec_is_radioactive_goo(self) -> bool {
        self.kind == EntityKind::Scenery && 541 <= self.id <= 544
    }

    pub fn is_radioactive_goo(self) -> (r: bool)
        ensures
            r == self.spec_is_radioactive_goo(),
    {
        match self.kind {
            EntityKind::Scenery => 541 <= self.id && self.id <= 544,
            _ => false,
        }
    }
}

/// What a critter holds in its hands.
#[derive(Clone, Copy, Debug, PartialEq, Eq, Hash, Structural)]
pub enum WeaponKind {
    Unarmed,
    Knife,
    Club,
    Spear,
    Pistol,
    Rifle,
}

/// A critter animation.
#[derive(Clone, Copy, Debug, PartialEq, Eq, Hash, Structural)]
pub enum CritterAnim {
    Stand,
    Walk,
    TakeOut,
    PutAway,
    FireDance,
}

/// A critter frame reference: base body, carried weapon and animation.
#[derive(Clone, Copy, Debug, PartialEq, Eq, Hash, Structural)]
pub struct CritterFid {
    pub id: u16,
    pub weapon: WeaponKind,
    pub anim: CritterAnim,
}

impl CritterFid {
    /// The same body with another animation.
    pub fn with_anim(self, anim: CritterAnim) -> (r: CritterFid)
        ensures
            r == (CritterFid { anim, ..self }),
    {
        CritterFid { anim, ..self }
    }

    /// The same body with another weapon.
    pub fn with_weapon(self, weapon: WeaponKind) -> (r: CritterFid)
        ensures
            r == (CritterFid { weapon, ..self }),
    {
        CritterFid { weapon, ..self }
    }

    /// This reference as a frame id.
    pub fn fid(self) -> (r: FrameId)
        ensures
            r == FrameId::Critter(self),
    {
        FrameId::Critter(self)
    }
}

/// A frame reference of any other entity kind.
#[derive(Clone, Copy, Debug, PartialEq, Eq, Hash, Structural)]
pub struct GenericFid {
    pub kind: EntityKind,
    pub id: u32,
}

/// A reference into the frame database.
#[derive(Clone, Copy, Debug, PartialEq, Eq, Hash, Structural)]
pub enum FrameId {
    Critter(CritterFid),
    Generic(GenericFid),
}

impl FrameId {
    /// The entity kind the frame belongs to.
    pub open spec fn spec_kind(self) -> EntityKind {
        match self {
            FrameId::Critter(_) => EntityKind::Critter,
            FrameId::Generic(g) => g.kind,
        }
    }

    pub fn kind(self) -> (r: EntityKind)
        ensures
            r == self.spec_kind(),
    {
        match self {
            FrameId::Critter(_) => EntityKind::Critter,
            FrameId::Generic(g) => g.kind,
        }
    }

    /// The blank interface frame.
    pub open spec fn spec_blank() -> FrameId {
        FrameId::Generic(GenericFid { kind: EntityKind::Interface, id: 0 })
    }

    pub fn blank() -> (r: FrameId)
        ensures
            r == FrameId::spec_blank(),
    {
        FrameId::Generic(GenericFid { kind: EntityKind::Interface, id: 0 })
    }
}

/// One frame of an animation: its pixel size, draw shift, and per-pixel
/// hit-test mask in row-major order.
#[derive(Clone, Debug)]
pub struct Frame {
    pub shift: Point,
    pub size: Point,
    pub mask: Vec<bool>,
}

impl Frame {
    pub open spec fn wf(self) -> bool {
        &&& 0 <= self.size.x <= 0x10000
        &&& 0 <= self.size.y <= 0x10000
        &&& self.mask@.len() == self.size.x * self.size.y
        &&& -PIXEL_MAX <= self.shift.x <= PIXEL_MAX
        &&& -PIXEL_MAX <= self.shift.y <= PIXEL_MAX
    }

    pub open spec fn spec_mask_at(self, p: Point) -> bool {
        self.mask@[p.y * self.size.x + p.x]
    }

    pub fn size(&self) -> (r: Point)
        ensures
            r == self.size,
    {
        self.size
    }

    /// Whether pixel `p`, relative to the frame's top left corner, lies
    /// within the frame and on an opaque mask pixel.
    pub open spec fn spec_mask_hit(self, p: Point) -> bool {
        0 <= p.x < self.size.x && 0 <= p.y < self.size.y && self.spec_mask_at(p)
    }

    pub fn mask_hit(&self, p: Point) -> (r: bool)
        requires
            self.wf(),
        ensures
            r == self.spec_mask_hit(p),
    {
        if 0 <= p.x && p.x < self.size.x && 0 <= p.y && p.y < self.size.y {
            self.mask_test(p)
        } else {
            false
        }
    }

    /// The rectangle this frame covers when drawn centered at `p` with
    /// the frame list's centering offset.
    pub fn bounds_centered(&self, p: Point, center: Point) -> (r: Rect)
        requires
            self.wf(),
            -0x4000000 <= p.x <= 0x4000000,
            -0x4000000 <= p.y <= 0x4000000,
            -PIXEL_MAX <= center.x <= PIXEL_MAX,
            -PIXEL_MAX <= center.y <= PIXEL_MAX,
        ensures
            r.left == p.x + center.x - self.size.x / 2,
            r.top == p.y + center.y - (self.size.y - 1),
            r.right == r.left + self.size.x,
            r.bottom == r.top + self.size.y,
    {
        let left: i64 = p.x as i64 + center.x as i64 - (self.size.x as i64) / 2;
        let top: i64 = p.y as i64 + center.y as i64 - (self.size.y as i64 - 1);
        Rect {
            left: left as i32,
            top: top as i32,
            right: (left + self.size.x as i64) as i32,
            bottom: (top + self.size.y as i64) as i32,
        }
    }

    /// Whether the pixel `p` of the frame, relative to its top left
    /// corner, is part of the image.
    pub fn mask_test(&self, p: Point) -> (r: bool)
        requires
            self.wf(),
            0 <= p.x < self.size.x,
            0 <= p.y < self.size.y,
        ensures
            r == self.spec_mask_at(p),
    {
        proof {
            assert(0 <= p.y * self.size.x + p.x < self.size.x * self.size.y) by (nonlinear_arith)
                requires
                    0 <= p.x < self.size.x,
                    0 <= p.y < self.size.y,
            ;
            assert(self.size.x * self.size.y <= 0x10000 * 0x10000) by (nonlinear_arith)
                requires
                    0 <= self.size.x <= 0x10000,
                    0 <= self.size.y <= 0x10000,
            ;
        }
        let idx: usize = (p.y as usize) * (self.size.x as usize) + (p.x as usize);
        self.mask[idx]
    }
}

/// The frames of one direction, with the list's centering offset.
#[derive(Clone, Debug)]
pub struct FrameList {
    pub center: Point,
    pub frames: Vec<Frame>,
}

impl FrameList {
    pub open spec fn wf(self) -> bool {
        &&& -PIXEL_MAX <= self.center.x <= PIXEL_MAX
        &&& -PIXEL_MAX <= self.center.y <= PIXEL_MAX
        &&& forall|i: int| 0 <= i < self.frames@.len() ==> (#[trigger] self.frames@[i]).wf()
    }
}

/// A frame set: one frame list per direction.
#[derive(Clone, Debug)]
pub struct FrameSet {
    pub frame_lists: Vec<FrameList>,
}

impl FrameSet {
    pub open spec fn wf(self) -> bool {
        &&& self.frame_lists@.len() == 6
        &&& forall|i: int| 0 <= i < 6 ==> (#[trigger] self.frame_lists@[i]).wf()
    }

    /// The frame list for a direction.
    pub fn frame_list(&self, dir: Direction) -> (r: &FrameList)
        requires
            self.wf(),
        ensures
            *r == self.frame_lists@[dir_index(dir)],
    {
        &self.frame_lists[dir_index_usize(dir)]
    }
}

/// First frame set stored under `fid`, scanning from the front.
pub open spec fn frame_lookup(entries: Seq<(FrameId, FrameSet)>, fid: FrameId) -> Option<FrameSet>
    decreases entries.len(),
{
    if entries.len() == 0 {
        None
    } else if entries[0].0 == fid {
        Some(entries[0].1)
    } else {
        frame_lookup(entries.drop_first(), fid)
    }
}

/// The frame database: every animation frame the placed objects refer
/// to, immutable while the world holds it.
#[derive(Clone, Debug)]
pub struct FrameDb {
    entries: Vec<(FrameId, FrameSet)>,
}

impl FrameDb {
    pub closed spec fn spec_get(self, fid: FrameId) -> Option<FrameSet> {
        frame_lookup(self.entries@, fid)
    }

    pub open spec fn wf(self) -> bool {
        forall|fid: FrameId| (#[trigger] self.spec_get(fid)) matches Some(set) ==> set.wf()
    }

    pub fn new() -> (r: FrameDb)
        ensures
            r.wf(),
            forall|fid: FrameId| r.spec_get(fid) is None,
    {
        FrameDb { entries: Vec::new() }
    }

    /// Stores a frame set; an existing entry under the same id is
    /// shadowed.
    pub fn put(&mut self, fid: FrameId, set: FrameSet)
        requires
            old(self).wf(),
            set.wf(),
        ensures
            final(self).wf(),
            final(self).spec_get(fid) == Some(set),
            forall|f: FrameId| f != fid ==> final(self).spec_get(f) == old(self).spec_get(f),
    {
        let ghost old_entries = self.entries@;
        self.entries.insert(0, (fid, set));
        proof {
            assert(self.entries@.drop_first() =~= old_entries);
            assert(self.entries@[0] == (fid, set));
            assert forall|f: FrameId|
                #![trigger self.spec_get(f)]
                (self.spec_get(f) matches Some(s) ==> s.wf()) by {
                if f != fid {
                    assert(self.spec_get(f) == old(self).spec_get(f));
                }
            }
        }
    }

    /// Looks a frame set up by frame id.
    pub fn get(&self, fid: FrameId) -> (r: Option<&FrameSet>)
        ensures
            match r {
                Some(set) => self.spec_get(fid) == Some(*set),
                None => self.spec_get(fid) is None,
            },
    {
        let n = self.entries.len();
        let mut i: usize = 0;
        proof {
            assert(self.entries@.skip(0) =~= self.entries@);
        }
        while i < n
            invariant
                n == self.entries@.len(),
                i <= n,
                frame_lookup(self.entries@, fid) == frame_lookup(self.entries@.skip(i as int), fid),
            decreases n - i,
        {
            proof {
                assert(self.entries@.skip(i as int).len() > 0);
                assert(self.entries@.skip(i as int)[0] == self.entries@[i as int]);
                assert(self.entries@.skip(i as int).drop_first() =~= self.entries@.skip(i + 1));
            }
            let hit = {
                let e = &self.entries[i];
                e.0 == fid
            };
            if hit {
                return Some(&self.entries[i].1);
            }
            i = i + 1;
        }
        proof {
            assert(self.entries@.skip(n as int).len() == 0);
        }
        None
    }

    /// The frame an object in direction `dir` at animation index `idx`
    /// under frame id `fid` shows, if the database has it.
    pub open spec fn spec_frame(self, fid: FrameId, dir: Direction, idx: int) -> Option<Frame> {
        match self.spec_get(fid) {
            Some(set) => {
                if set.wf() {
                    let frames = set.frame_lists@[dir_index(dir)].frames@;
                    if 0 <= idx < frames.len() {
                        Some(frames[idx])
                    } else {
                        None
                    }
                } else {
                    None
                }
            },
            None => None,
        }
    }

    /// Center of the frame list the object draws from.
    pub open spec fn spec_center(self, fid: FrameId, dir: Direction) -> Option<Point> {
        match self.spec_get(fid) {
            Some(set) => {
                if set.wf() {
                    Some(set.frame_lists@[dir_index(dir)].center)
                } else {
                    None
                }
            },
            None => None,
        }
    }

    /// Looks a single frame up by frame id, direction and index.
    pub fn frame(&self, fid: FrameId, dir: Direction, idx: usize) -> (r: Option<&Frame>)
        requires
            self.wf(),
        ensures
            match r {
                Some(f) => self.spec_frame(fid, dir, idx as int) == Some(*f),
                None => self.spec_frame(fid, dir, idx as int) is None,
            },
    {
        match self.get(fid) {
            Some(set) => {
                let frml = set.frame_list(dir);
                if idx < frml.frames.len() {
                    Some(&frml.frames[idx])
                } else {
                    None
                }
            },
            None => None,
        }
    }
}

/// What kind of item an item prototype describes.
#[derive(Clone, Copy, Debug, PartialEq, Eq, Structural)]
pub enum ItemKind {
    Armor,
    Container,
    Drug,
    Weapon,
    Ammo,
    Misc,
    Key,
}

/// What a critter counts as when killed.
#[derive(Clone, Copy, Debug, PartialEq, Eq, Structural)]
pub enum CritterKillKind {
    Man,
    Woman,
    Children,
    Robot,
    Rat,
    Gecko,
}

/// The item part of an item prototype.
#[derive(Clone, Copy, Debug, PartialEq, Eq, Structural)]
pub struct ItemProto {
    pub kind: ItemKind,
}

/// The critter part of a critter prototype.
#[derive(Clone, Copy, Debug, PartialEq, Eq, Structural)]
pub struct CritterProto {
    pub kill_kind: CritterKillKind,
}

/// The kind-specific part of a prototype.
#[derive(Clone, Copy, Debug, PartialEq, Eq, Structural)]
pub enum SubProto {
    Item(ItemProto),
    Critter(CritterProto),
    Scenery,
    Wall,
    SqrTile,
    Misc,
}

impl SubProto {
    pub fn item(&self) -> (r: Option<&ItemProto>)
        ensures
            match r {
                Some(it) => *self == SubProto::Item(*it),
                None => !(*self matches SubProto::Item(_)),
            },
    {
        match self {
            SubProto::Item(it) => Some(it),
            _ => None,
        }
    }
}

/// A prototype: the static per-type data of an entity.
#[derive(Clone, Copy, Debug, PartialEq, Eq, Structural)]
pub struct Proto {
    pub flags_ext: FlagsExt,
    pub sub: SubProto,
}

/// First prototype stored under `pid`, scanning from the front.
pub open spec fn proto_lookup(entries: Seq<(ProtoId, Proto)>, pid: ProtoId) -> Option<Proto>
    decreases entries.len(),
{
    if entries.len() == 0 {
        None
    } else if entries[0].0 == pid {
        Some(entries[0].1)
    } else {
        proto_lookup(entries.drop_first(), pid)
    }
}

/// The prototype database, immutable while the world holds it.
#[derive(Clone, Debug)]
pub struct ProtoDb {
    entries: Vec<(ProtoId, Proto)>,
}

impl ProtoDb {
    pub closed spec fn spec_proto(self, pid: ProtoId) -> Option<Proto> {
        proto_lookup(self.entries@, pid)
    }

    pub fn new() -> (r: ProtoDb)
        ensures
            forall|pid: ProtoId| r.spec_proto(pid) is None,
    {
        ProtoDb { entries: Vec::new() }
    }

    /// Stores a prototype; an existing entry under the same id is
    /// shadowed.
    pub fn put(&mut self, pid: ProtoId, proto: Proto)
        ensures
            final(self).spec_proto(pid) == Some(proto),
            forall|p: ProtoId| p != pid ==> final(self).spec_proto(p) == old(self).spec_proto(p),
    {
        let ghost old_entries = self.entries@;
        self.entries.insert(0, (pid, proto));
        proof {
            assert(self.entries@.drop_first() =~= old_entries);
            assert(self.entries@[0] == (pid, proto));
        }
    }

    /// Looks a prototype up.
    pub fn proto(&self, pid: ProtoId) -> (r: Option<&Proto>)
        ensures
            match r {
                Some(p) => self.spec_proto(pid) == Some(*p),
                None => self.spec_proto(pid) is None,
            },
    {
        let n = self.entries.len();
        let mut i: usize = 0;
        proof {
            assert(self.entries@.skip(0) =~= self.entries@);
        }
        while i < n
            invariant
                n == self.entries@.len(),
                i <= n,
                proto_lookup(self.entries@, pid) == proto_lookup(self.entries@.skip(i as int), pid),
            decreases n - i,
        {
            proof {
                assert(self.entries@.skip(i as int).len() > 0);
                assert(self.entries@.skip(i as int)[0] == self.entries@[i as int]);
                assert(self.entries@.skip(i as int).drop_first() =~= self.entries@.skip(i + 1));
            }
            let hit = {
                let e = &self.entries[i];
                e.0 == pid
            };
            if hit {
                return Some(&self.entries[i].1);
            }
            i = i + 1;
        }
        proof {
            assert(self.entries@.skip(n as int).len() == 0);
        }
        None
    }

    /// A prototype the database reports as one a player can talk to.
    pub open spec fn spec_can_talk_to(self, pid: ProtoId) -> bool {
        match self.spec_proto(pid) {
            Some(p) => p.flags_ext.has(FlagExt::CanTalk),
            None => false,
        }
    }

    pub fn can_talk_to(&self, pid: ProtoId) -> (r: bool)
        ensures
            r == self.spec_can_talk_to(pid),
    {
        match self.proto(pid) {
            Some(p) => p.flags_ext.contains(FlagExt::CanTalk),
            None => false,
        }
    }

    /// A prototype the database reports as usable.
    pub open spec fn spec_can_use(self, pid: ProtoId) -> bool {
        match self.spec_proto(pid) {
            Some(p) => p.flags_ext.has(FlagExt::CanUse),
            None => false,
        }
    }

    pub fn can_use(&self, pid: ProtoId) -> (r: bool)
        ensures
            r == self.spec_can_use(pid),
    {
        match self.proto(pid) {
            Some(p) => p.flags_ext.contains(FlagExt::CanUse),
            None => false,
        }
    }
}

} // verus!
