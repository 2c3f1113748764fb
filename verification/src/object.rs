//! The per-object entity: its prototype reference, flags, position,
//! animation frame reference, inventory, critter sub-state, and the
//! object-level geometry and effect computations the renderer uses.

use vstd::prelude::*;

use crate::asset::{EntityKind, Frame, FrameDb, FrameId, ProtoDb, ProtoId};
use crate::flags::{DamageFlag, DamageFlags, Flag, Flags, FlagExt};
use crate::geom::{
    spec_in_front_of, spec_to_right_of, tile_screen_x, tile_screen_y, Camera, Direction, EPoint,
    Point, Rect, PIXEL_MAX, TILE_COORD_MAX,
};
use crate::handle::Handle;

verus! {

/// An object's prototype reference: none at all, the reserved id of the
/// player character, or a prototype database id.
#[derive(Clone, Copy, Debug, PartialEq, Eq, Hash, Structural)]
pub enum ObjectProtoId {
    Null,
    /// Special id used for the player character (packed as 0x01000000).
    Dude,
    Proto(ProtoId),
}

impl ObjectProtoId {
    pub open spec fn wf(self) -> bool {
        self matches ObjectProtoId::Proto(p) ==> p.wf()
    }

    pub open spec fn spec_proto_id(self) -> Option<ProtoId> {
        match self {
            ObjectProtoId::Proto(v) => Some(v),
            _ => None,
        }
    }

    /// Whether the reference can be carried by the packed form.
    pub fn is_wf(self) -> (r: bool)
        ensures
            r == self.wf(),
    {
        match self {
            ObjectProtoId::Proto(p) => p.is_wf(),
            _ => true,
        }
    }

    /// The database id this reference carries, if it carries one.
    pub fn proto_id(self) -> (r: Option<ProtoId>)
        ensures
            r == self.spec_proto_id(),
    {
        match self {
            ObjectProtoId::Proto(v) => Some(v),
            _ => None,
        }
    }

    /// The value this reference decodes from: two reserved bit patterns
    /// for `Null` and `Dude`, any other value a valid prototype id or
    /// nothing.
    pub open spec fn spec_from_packed(v: u32) -> Option<ObjectProtoId> {
        if v == 0xffffffff {
            Some(ObjectProtoId::Null)
        } else if v == 0x01000000 {
            Some(ObjectProtoId::Dude)
        } else {
            match ProtoId::spec_from_packed(v) {
                Some(pid) => Some(ObjectProtoId::Proto(pid)),
                None => None,
            }
        }
    }

    /// Decodes the packed 32-bit form. `None` is a decode failure: the
    /// value is neither reserved nor a valid prototype id.
    pub fn from_packed(v: u32) -> (r: Option<ObjectProtoId>)
        ensures
            r == ObjectProtoId::spec_from_packed(v),
            r matches Some(x) ==> x.wf(),
    {
        if v == 0xffffffff {
            Some(ObjectProtoId::Null)
        } else if v == 0x01000000 {
            Some(ObjectProtoId::Dude)
        } else {
            match ProtoId::from_packed(v) {
                Some(pid) => Some(ObjectProtoId::Proto(pid)),
                None => None,
            }
        }
    }

    pub open spec fn spec_pack(self) -> u32 {
        match self {
            ObjectProtoId::Null => 0xffffffff,
            ObjectProtoId::Dude => 0x01000000,
            ObjectProtoId::Proto(v) => v.spec_pack(),
        }
    }

    /// The packed 32-bit form this reference encodes to.
    pub fn pack(self) -> (r: u32)
        requires
            self.wf(),
        ensures
            r == self.spec_pack(),
    {
        match self {
            ObjectProtoId::Null => 0xffffffff,
            ObjectProtoId::Dude => 0x01000000,
            ObjectProtoId::Proto(v) => v.pack(),
        }
    }

    /// Decoding what was packed gives the reference back: the reserved
    /// patterns and every valid prototype id round-trip.
    pub proof fn lemma_pack_roundtrip(self)
        requires
            self.wf(),
        ensures
            ObjectProtoId::spec_from_packed(self.spec_pack()) == Some(self),
    {
        match self {
            ObjectProtoId::Null => {},
            ObjectProtoId::Dude => {},
            ObjectProtoId::Proto(p) => {
                let c = crate::asset::kind_code(p.kind);
                assert(p.spec_pack() == c * 0x1000000 + p.id);
                assert(c * 0x1000000 + p.id != 0xffffffff && c * 0x1000000 + p.id != 0x01000000)
                    by (nonlinear_arith)
                    requires
                        c <= 5,
                        1 <= p.id <= 0xffffff,
                ;
                p.lemma_pack_roundtrip();
            },
        }
    }

    /// Decoding is the inverse of packing: every successful decode comes
    /// from exactly the value that the decoded reference packs to, so a
    /// raw value that is not the packed form of any well-formed
    /// reference fails to decode.
    pub proof fn lemma_from_packed_inverse(v: u32)
        ensures
            ObjectProtoId::spec_from_packed(v) matches Some(x) ==> x.wf() && x.spec_pack() == v,
    {
        if v != 0xffffffff && v != 0x01000000 {
            if let Some(pid) = ProtoId::spec_from_packed(v) {
                let c = v / 0x1000000;
                let id = v % 0x1000000;
                assert(crate::asset::kind_code(pid.kind) == c);
                vstd::arithmetic::div_mod::lemma_fundamental_div_mod(v as int, 0x1000000);
                assert(c * 0x1000000 + id == v);
            }
        }
    }
}

/// A selection or hover highlight around an object.
#[derive(Clone, Copy, Debug, PartialEq, Eq, Structural)]
pub struct Outline {
    pub style: OutlineStyle,
    pub translucent: bool,
    pub disabled: bool,
}

/// The colour style of an outline.
#[derive(Clone, Copy, Debug, PartialEq, Eq, Structural)]
pub enum OutlineStyle {
    Red,
    Yellow,
    Gray,
    Green,
}

/// An object's held items: a bounded ordered list of object handles
/// with their counts.
#[derive(Clone, Debug)]
pub struct Inventory {
    pub capacity: usize,
    pub items: Vec<InventoryItem>,
}

impl Inventory {
    pub fn new() -> (r: Inventory)
        ensures
            r.capacity == 0,
            r.items@.len() == 0,
    {
        Inventory { capacity: 0, items: Vec::new() }
    }
}

/// One inventory entry: a held object and how many of it are held.
#[derive(Clone, Copy, Debug)]
pub struct InventoryItem {
    pub object: Handle,
    pub count: usize,
}

/// Dynamic light an object emits.
#[derive(Clone, Copy, Debug, PartialEq, Eq, Structural)]
pub struct LightEmitter {
    pub intensity: u32,
    pub radius: u32,
}

impl Default for LightEmitter {
    fn default() -> (r: LightEmitter)
        ensures
            r == (LightEmitter { intensity: 0, radius: 0 }),
    {
        LightEmitter { intensity: 0, radius: 0 }
    }
}

/// The circular visibility mask that follows the player and lets them
/// see through nearby walls and scenery.
#[derive(Clone, Copy, Debug)]
pub struct Egg {
    pub pos: Point,
    pub fid: FrameId,
}

/// The outcome of hit-testing a point against an object.
#[derive(Clone, Copy, Debug, PartialEq, Eq, Structural)]
pub struct Hit {
    /// Hit a translucent object.
    pub translucent: bool,
    /// Hit a `Wall` or `Scenery` object at a point masked by the egg.
    pub with_egg: bool,
}

/// Why two objects cannot talk, when the reason is spatial.
#[derive(Clone, Copy, Debug, PartialEq, Eq, Structural)]
pub enum CantTalkSpatial {
    Unreachable,
    TooFar,
}

/// Whether a push is possible; the in-combat rules are not specified
/// yet, so that case is reported as unsupported rather than guessed.
#[derive(Clone, Copy, Debug, PartialEq, Eq, Structural)]
pub enum PushEligibility {
    Eligible,
    Ineligible,
    UnsupportedInCombat,
}

/// A handle to an in-flight animation or action sequence; dropping it
/// through `cancel_sequence` cancels the sequence.
#[derive(Clone, Copy, Debug, PartialEq, Eq, Structural)]
pub struct Sequence {
    pub running: bool,
}

/// A script instance id.
#[derive(Clone, Copy, Debug, PartialEq, Eq, Hash, Structural)]
pub struct Sid(pub u32);

/// A script program id.
#[derive(Clone, Copy, Debug, PartialEq, Eq, Hash, Structural)]
pub struct ProgramId(pub u32);

/// The predefined procedures a script can implement.
#[derive(Clone, Copy, Debug, PartialEq, Eq, Structural)]
pub enum PredefinedProc {
    MapEnter,
    Talk,
    Use,
    Push,
    Destroy,
}

/// Which script instances implement which predefined procedures.
#[derive(Clone, Debug)]
pub struct Scripts {
    entries: Vec<(Sid, PredefinedProc)>,
}

impl Scripts {
    pub closed spec fn spec_has_predefined_proc(self, sid: Sid, proc_kind: PredefinedProc) -> bool {
        self.entries@.contains((sid, proc_kind))
    }

    pub fn new() -> (r: Scripts)
        ensures
            forall|sid: Sid, p: PredefinedProc| !r.spec_has_predefined_proc(sid, p),
    {
        Scripts { entries: Vec::new() }
    }

    /// Records that script `sid` implements `proc_kind`.
    pub fn put(&mut self, sid: Sid, proc_kind: PredefinedProc)
        ensures
            final(self).spec_has_predefined_proc(sid, proc_kind),
            forall|s: Sid, p: PredefinedProc|
                old(self).spec_has_predefined_proc(s, p) ==> final(self).spec_has_predefined_proc(
                    s,
                    p,
                ),
            forall|s: Sid, p: PredefinedProc|
                final(self).spec_has_predefined_proc(s, p) ==> (old(
                    self,
                ).spec_has_predefined_proc(s, p) || (s == sid && p == proc_kind)),
    {
        let ghost old_entries = self.entries@;
        self.entries.push((sid, proc_kind));
        proof {
            assert(self.entries@ =~= old_entries.push((sid, proc_kind)));
            assert(self.entries@.contains((sid, proc_kind))) by {
                assert(self.entries@[old_entries.len() as int] == (sid, proc_kind));
            }
            assert forall|s: Sid, p: PredefinedProc|
                old_entries.contains((s, p)) implies self.entries@.contains((s, p)) by {
                let i = choose|i: int| 0 <= i < old_entries.len() && old_entries[i] == (s, p);
                assert(self.entries@[i] == (s, p));
            }
        }
    }

    /// Whether script `sid` implements `proc_kind`.
    pub fn has_predefined_proc(&self, sid: Sid, proc_kind: PredefinedProc) -> (r: bool)
        ensures
            r == self.spec_has_predefined_proc(sid, proc_kind),
    {
        let n = self.entries.len();
        let mut i: usize = 0;
        while i < n
            invariant
                n == self.entries@.len(),
                i <= n,
                forall|j: int| 0 <= j < i ==> self.entries@[j] != (sid, proc_kind),
            decreases n - i,
        {
            let e = self.entries[i];
            if e.0 == sid && e.1 == proc_kind {
                assert(self.entries@.contains((sid, proc_kind))) by {
                    assert(self.entries@[i as int] == (sid, proc_kind));
                }
                return true;
            }
            i = i + 1;
        }
        false
    }
}

/// Critter sub-state: vitals and combat damage state.
#[derive(Clone, Copy, Debug)]
pub struct Critter {
    pub health: i32,
    pub radiation: i32,
    pub poison: i32,
    pub combat: CritterCombat,
}

impl Default for Critter {
    fn default() -> (r: Critter)
        ensures
            r.health == 0,
            r.radiation == 0,
            r.poison == 0,
            forall|f: DamageFlag| !r.combat.damage_flags.has(f),
    {
        Critter { health: 0, radiation: 0, poison: 0, combat: CritterCombat::default() }
    }
}

impl Critter {
    /// Active means not held out of action by a combat state.
    pub open spec fn spec_is_active(self) -> bool {
        !(self.combat.damage_flags.has(DamageFlag::LoseTurn) || self.combat.damage_flags.has(
            DamageFlag::Dead,
        ) || self.combat.damage_flags.has(DamageFlag::KnockedOut))
    }

    /// Whether the critter can act at all.
    pub fn is_active(&self) -> (r: bool)
        ensures
            r == self.spec_is_active(),
    {
        !(self.combat.damage_flags.contains(DamageFlag::LoseTurn)
            || self.combat.damage_flags.contains(DamageFlag::Dead)
            || self.combat.damage_flags.contains(DamageFlag::KnockedOut))
    }

    pub open spec fn spec_is_dead(self) -> bool {
        self.combat.damage_flags.has(DamageFlag::Dead)
    }

    /// Whether the critter is dead. Dead-state queries go through the
    /// damage flags here; there is no entity-level shortcut.
    pub fn is_dead(&self) -> (r: bool)
        ensures
            r == self.spec_is_dead(),
    {
        self.combat.damage_flags.contains(DamageFlag::Dead)
    }
}

/// Combat bookkeeping of a critter.
#[derive(Clone, Copy, Debug)]
pub struct CritterCombat {
    pub damage_flags: DamageFlags,
}

impl Default for CritterCombat {
    fn default() -> (r: CritterCombat)
        ensures
            forall|f: DamageFlag| !r.damage_flags.has(f),
    {
        CritterCombat { damage_flags: DamageFlags::empty() }
    }
}

/// Kind-specific sub-state of an object.
#[derive(Clone, Copy, Debug)]
pub enum SubObject {
    Critter(Critter),
    Other,
}

impl SubObject {
    pub open spec fn spec_critter(self) -> Option<Critter> {
        match self {
            SubObject::Critter(c) => Some(c),
            SubObject::Other => None,
        }
    }

    pub fn critter(&self) -> (r: Option<&Critter>)
        ensures
            match r {
                Some(c) => self.spec_critter() == Some(*c),
                None => self.spec_critter() is None,
            },
    {
        match self {
            SubObject::Critter(c) => Some(c),
            SubObject::Other => None,
        }
    }
}

/// A translucency rendering effect.
#[derive(Clone, Copy, Debug, PartialEq, Eq, Structural)]
pub enum Translucency {
    Energy,
    Glass,
    Red,
    Steam,
    Wall,
}

/// The rendering effect resolved for one draw.
#[derive(Clone, Copy, Debug, PartialEq, Eq, Structural)]
pub enum Effect {
    Translucency(Translucency),
    Masked { mask_fid: FrameId, mask_pos: Point },
    Outline { style: OutlineStyle, translucent: bool },
}

/// One draw submission: which frame to draw, where, under what light
/// and effect.
#[derive(Clone, Copy, Debug, PartialEq, Eq, Structural)]
pub struct Sprite {
    pub pos: Point,
    pub centered: bool,
    pub fid: FrameId,
    pub frame_idx: usize,
    pub direction: Direction,
    pub light: u32,
    pub effect: Option<Effect>,
}

/// The mutable per-instance state of a placed or held entity.
#[derive(Clone, Debug)]
pub struct Object {
    pub flags: Flags,
    pub pos: Option<EPoint>,
    pub screen_pos: Point,
    pub screen_shift: Point,
    pub fid: FrameId,
    pub frame_idx: usize,
    pub direction: Direction,
    pub light_emitter: LightEmitter,
    pub pid: ObjectProtoId,
    pub inventory: Inventory,
    pub outline: Option<Outline>,
    pub sequence: Option<Sequence>,
    pub script: Option<(Sid, ProgramId)>,
    pub sub: SubObject,
}

/// Map position, if any, within the accepted coordinate range.
pub open spec fn pos_coords_ok(o: Object) -> bool {
    match o.pos {
        Some(p) => 0 <= p.point.x <= TILE_COORD_MAX && 0 <= p.point.y <= TILE_COORD_MAX,
        None => true,
    }
}

/// Screen shift within the accepted pixel range.
pub open spec fn shift_ok(o: Object) -> bool {
    -PIXEL_MAX <= o.screen_shift.x <= PIXEL_MAX && -PIXEL_MAX <= o.screen_shift.y <= PIXEL_MAX
}

/// Remembered screen position within the accepted pixel range.
pub open spec fn screen_pos_ok(o: Object) -> bool {
    -0x4000000 <= o.screen_pos.x <= 0x4000000 && -0x4000000 <= o.screen_pos.y <= 0x4000000
}

/// One extra pixel on every side when an enabled outline is drawn.
pub open spec fn outline_pad(o: Object) -> int {
    match o.outline {
        Some(ol) => if ol.disabled {
            0
        } else {
            1
        },
        None => 0,
    }
}

/// Left edge of the frame rectangle of `o`, before outline padding.
pub open spec fn spec_tl0_x(o: Object, center: Point, size: Point, cam: Camera) -> int {
    match o.pos {
        Some(p) => cam.origin.x + tile_screen_x(p.point) + 16 + center.x + o.screen_shift.x - size.x
            / 2,
        None => o.screen_pos.x as int,
    }
}

/// Top edge of the frame rectangle of `o`, before outline padding.
pub open spec fn spec_tl0_y(o: Object, center: Point, size: Point, cam: Camera) -> int {
    match o.pos {
        Some(p) => cam.origin.y + tile_screen_y(p.point) + 8 + center.y + o.screen_shift.y - (
        size.y - 1),
        None => o.screen_pos.y as int,
    }
}

/// The object's screen rectangle: the frame rectangle, grown by one
/// pixel on every side when an enabled outline is drawn.
pub open spec fn spec_bounds0(o: Object, center: Point, size: Point, cam: Camera) -> Rect {
    let tlx = spec_tl0_x(o, center, size, cam);
    let tly = spec_tl0_y(o, center, size, cam);
    let pad = outline_pad(o);
    Rect {
        left: (tlx - pad) as i32,
        top: (tly - pad) as i32,
        right: (tlx + size.x + pad) as i32,
        bottom: (tly + size.y + pad) as i32,
    }
}

/// The sprite drawn for `o` under the given light and effect.
pub open spec fn spec_sprite(o: Object, light: u32, effect: Option<Effect>, cam: Camera) -> Sprite {
    let pos = match o.pos {
        Some(p) => Point {
            x: (cam.origin.x + tile_screen_x(p.point) + o.screen_shift.x + 16) as i32,
            y: (cam.origin.y + tile_screen_y(p.point) + o.screen_shift.y + 8) as i32,
        },
        None => o.screen_pos,
    };
    Sprite {
        pos,
        centered: o.pos is Some,
        fid: o.fid,
        frame_idx: o.frame_idx,
        direction: o.direction,
        light,
        effect,
    }
}

/// Whether `o` carries any translucency flag.
pub open spec fn spec_has_trans(o: Object) -> bool {
    o.flags.has(Flag::TransEnergy) || o.flags.has(Flag::TransGlass) || o.flags.has(Flag::TransRed)
        || o.flags.has(Flag::TransSteam) || o.flags.has(Flag::TransWall) || o.flags.has(
        Flag::TransNone,
    )
}

/// The translucency effect of `o`'s flags, in the fixed resolution
/// order: energy, glass, red, steam, wall.
pub open spec fn spec_trans_effect(o: Object) -> Option<Effect> {
    if o.flags.has(Flag::TransEnergy) {
        Some(Effect::Translucency(Translucency::Energy))
    } else if o.flags.has(Flag::TransGlass) {
        Some(Effect::Translucency(Translucency::Glass))
    } else if o.flags.has(Flag::TransRed) {
        Some(Effect::Translucency(Translucency::Red))
    } else if o.flags.has(Flag::TransSteam) {
        Some(Effect::Translucency(Translucency::Steam))
    } else if o.flags.has(Flag::TransWall) {
        Some(Effect::Translucency(Translucency::Wall))
    } else {
        None
    }
}

/// Whether the egg applies to `o` at all: an untranslucent piece of
/// scenery or wall, placed, with a prototype.
pub open spec fn spec_with_egg(o: Object, egg: Option<Egg>) -> bool {
    egg is Some && !spec_has_trans(o) && (o.fid.spec_kind() == EntityKind::Scenery
        || o.fid.spec_kind() == EntityKind::Wall) && o.pos is Some && o.pid.spec_proto_id() is Some
}

/// Direction-dependent corner and edge geometry: whether a wall or
/// scenery object at `p` renders behind the egg mask centered on `e`.
pub open spec fn spec_egg_masks_object(o: Object, fe: crate::flags::FlagsExt, p: Point, e: Point) -> bool {
    if fe.has(FlagExt::WallEastOrWest) || fe.has(FlagExt::WallWestCorner) {
        spec_in_front_of(p, e) && (!spec_to_right_of(e, p) || !o.flags.has(Flag::WallTransEnd))
    } else if fe.has(FlagExt::WallNorthCorner) {
        spec_in_front_of(p, e) || spec_to_right_of(p, e)
    } else if fe.has(FlagExt::WallSouthCorner) {
        spec_in_front_of(p, e) && spec_to_right_of(p, e)
    } else if spec_to_right_of(p, e) {
        !spec_in_front_of(e, p) && !o.flags.has(Flag::WallTransEnd)
    } else {
        false
    }
}

/// The rendering effect of `o`: none for interface overlays, the egg
/// mask for scenery and walls the egg geometry covers, else the
/// translucency effect of its flags.
pub open spec fn spec_get_effect(o: Object, db: ProtoDb, cam: Camera, egg: Option<Egg>) -> Option<
    Effect,
> {
    if o.fid.spec_kind() == EntityKind::Interface {
        None
    } else if !spec_with_egg(o, egg) {
        spec_trans_effect(o)
    } else {
        let e = egg.unwrap();
        let p = o.pos.unwrap().point;
        let proto = db.spec_proto(o.pid.spec_proto_id().unwrap()).unwrap();
        if spec_egg_masks_object(o, proto.flags_ext, p, e.pos) {
            Some(
                Effect::Masked {
                    mask_fid: e.fid,
                    mask_pos: Point {
                        x: (cam.origin.x + tile_screen_x(e.pos) + 16) as i32,
                        y: (cam.origin.y + tile_screen_y(e.pos) + 8) as i32,
                    },
                },
            )
        } else {
            spec_trans_effect(o)
        }
    }
}

/// The distance between two objects: the hex distance of their tiles,
/// less one for each endpoint that is multi-hex, never below zero;
/// nothing when either object is detached.
pub open spec fn spec_distance(a: Object, b: Object) -> Option<int> {
    match (a.pos, b.pos) {
        (Some(pa), Some(pb)) => {
            let d0 = crate::geom::hex_dist(pa.point, pb.point);
            let d1 = if d0 > 0 && a.flags.has(Flag::MultiHex) {
                d0 - 1
            } else {
                d0
            };
            let d2 = if d1 > 0 && b.flags.has(Flag::MultiHex) {
                d1 - 1
            } else {
                d1
            };
            Some(d2)
        },
        _ => None,
    }
}

/// Object distance does not depend on the order of its arguments.
pub proof fn lemma_distance_symmetric(a: Object, b: Object)
    ensures
        spec_distance(a, b) == spec_distance(b, a),
{
    if let (Some(pa), Some(pb)) = (a.pos, b.pos) {
        crate::geom::lemma_hex_dist_symmetric(pa.point, pb.point);
        crate::geom::lemma_hex_dist_nonneg(pa.point, pb.point);
    }
}

/// Object distance never falls below zero, and never drops more than
/// one per multi-hex endpoint below the raw hex distance.
pub proof fn lemma_distance_bounds(a: Object, b: Object)
    ensures
        spec_distance(a, b) matches Some(d) ==> {
            let raw = crate::geom::hex_dist(a.pos.unwrap().point, b.pos.unwrap().point);
            0 <= d <= raw && d >= raw - 2
        },
{
    if let (Some(pa), Some(pb)) = (a.pos, b.pos) {
        crate::geom::lemma_hex_dist_nonneg(pa.point, pb.point);
    }
}

impl Object {
    /// A fresh object showing `fid`, with critter sub-state exactly when
    /// the frame is a critter's.
    pub fn new(fid: FrameId, pid: ObjectProtoId, pos: Option<EPoint>) -> (r: Object)
        ensures
            r.pos == pos,
            r.screen_pos == (Point { x: 0, y: 0 }),
            r.screen_shift == (Point { x: 0, y: 0 }),
            r.fid == fid,
            r.frame_idx == 0,
            r.direction == Direction::NE,
            forall|f: Flag| !r.flags.has(f),
            r.pid == pid,
            r.inventory.capacity == 0,
            r.inventory.items@.len() == 0,
            r.light_emitter == (LightEmitter { intensity: 0, radius: 0 }),
            r.outline is None,
            r.sequence is None,
            r.script is None,
            fid.spec_kind() == EntityKind::Critter ==> (r.sub matches SubObject::Critter(c)
                && c.health == 0 && c.radiation == 0 && c.poison == 0 && forall|f: DamageFlag|
                !c.combat.damage_flags.has(f)),
            fid.spec_kind() != EntityKind::Critter ==> r.sub == SubObject::Other,
    {
        let sub = match fid.kind() {
            EntityKind::Critter => SubObject::Critter(
                Critter {
                    health: 0,
                    radiation: 0,
                    poison: 0,
                    combat: CritterCombat { damage_flags: DamageFlags::empty() },
                },
            ),
            _ => SubObject::Other,
        };
        Object {
            pos,
            screen_pos: Point::new(0, 0),
            screen_shift: Point::new(0, 0),
            fid,
            frame_idx: 0,
            direction: Direction::NE,
            flags: Flags::empty(),
            pid,
            inventory: Inventory::new(),
            light_emitter: LightEmitter { intensity: 0, radius: 0 },
            outline: None,
            sequence: None,
            script: None,
            sub,
        }
    }

    /// The entity kind of the frame the object shows.
    pub fn kind(&self) -> (r: EntityKind)
        ensures
            r == self.fid.spec_kind(),
    {
        self.fid.kind()
    }

    /// Whether an animation or action sequence is still running.
    pub fn has_running_sequence(&self) -> (r: bool)
        ensures
            r == (self.sequence matches Some(s) && s.running),
    {
        match &self.sequence {
            Some(s) => s.running,
            None => false,
        }
    }

    /// Cancels the in-flight sequence, if one is attached. Dropping the
    /// handle models the cancellation signal: the sequence system owns
    /// the other end and stops the sequence when the handle goes away.
    pub fn cancel_sequence(&mut self)
        ensures
            *final(self) == (Object { sequence: None, ..*old(self) }),
    {
        self.sequence = None;
    }

    /// The distance to another object; see `spec_distance`.
    pub fn distance(&self, other: &Object) -> (r: Option<u32>)
        requires
            pos_coords_ok(*self),
            pos_coords_ok(*other),
        ensures
            match r {
                Some(d) => spec_distance(*self, *other) == Some(d as int),
                None => spec_distance(*self, *other) is None,
            },
    {
        let pa = match self.pos {
            Some(p) => p,
            None => {
                return None;
            },
        };
        let pb = match other.pos {
            Some(p) => p,
            None => {
                return None;
            },
        };
        let mut r = crate::geom::distance(pa.point, pb.point);
        if r > 0 && self.flags.contains(Flag::MultiHex) {
            r = r - 1;
        }
        if r > 0 && other.flags.contains(Flag::MultiHex) {
            r = r - 1;
        }
        Some(r)
    }

    /// Whether any translucency flag is set.
    pub fn has_trans(&self) -> (r: bool)
        ensures
            r == spec_has_trans(*self),
    {
        self.flags.contains(Flag::TransEnergy) || self.flags.contains(Flag::TransGlass)
            || self.flags.contains(Flag::TransRed) || self.flags.contains(Flag::TransSteam)
            || self.flags.contains(Flag::TransWall) || self.flags.contains(Flag::TransNone)
    }

    /// The translucency effect of the flags alone.
    pub fn get_trans_effect(&self) -> (r: Option<Effect>)
        ensures
            r == spec_trans_effect(*self),
    {
        if self.flags.contains(Flag::TransEnergy) {
            Some(Effect::Translucency(Translucency::Energy))
        } else if self.flags.contains(Flag::TransGlass) {
            Some(Effect::Translucency(Translucency::Glass))
        } else if self.flags.contains(Flag::TransRed) {
            Some(Effect::Translucency(Translucency::Red))
        } else if self.flags.contains(Flag::TransSteam) {
            Some(Effect::Translucency(Translucency::Steam))
        } else if self.flags.contains(Flag::TransWall) {
            Some(Effect::Translucency(Translucency::Wall))
        } else {
            None
        }
    }

    /// The screen rectangle covered by a frame of the given center and
    /// size, drawn for this object.
    pub fn bounds0(&self, frame_center: Point, frame_size: Point, cam: &Camera) -> (r: Rect)
        requires
            pos_coords_ok(*self),
            shift_ok(*self),
            screen_pos_ok(*self),
            cam.bounded(),
            -PIXEL_MAX <= frame_center.x <= PIXEL_MAX,
            -PIXEL_MAX <= frame_center.y <= PIXEL_MAX,
            0 <= frame_size.x <= 0x10000,
            0 <= frame_size.y <= 0x10000,
        ensures
            r == spec_bounds0(*self, frame_center, frame_size, *cam),
    {
        let (tlx, tly): (i64, i64) = match self.pos {
            Some(p) => {
                let s = cam.to_screen(p.point);
                (
                    s.x as i64 + 16 + frame_center.x as i64 + self.screen_shift.x as i64 - (
                    frame_size.x as i64) / 2,
                    s.y as i64 + 8 + frame_center.y as i64 + self.screen_shift.y as i64 - (
                    frame_size.y as i64 - 1),
                )
            },
            None => (self.screen_pos.x as i64, self.screen_pos.y as i64),
        };
        let pad: i64 = match self.outline {
            Some(ol) => if ol.disabled {
                0
            } else {
                1
            },
            None => 0,
        };
        Rect {
            left: (tlx - pad) as i32,
            top: (tly - pad) as i32,
            right: (tlx + frame_size.x as i64 + pad) as i32,
            bottom: (tly + frame_size.y as i64 + pad) as i32,
        }
    }

    /// The screen rectangle of the object's current frame.
    pub fn bounds(&self, frm_db: &FrameDb, cam: &Camera) -> (r: Rect)
        requires
            frm_db.wf(),
            frm_db.spec_frame(self.fid, self.direction, self.frame_idx as int) is Some,
            pos_coords_ok(*self),
            shift_ok(*self),
            screen_pos_ok(*self),
            cam.bounded(),
        ensures
            r == spec_bounds0(
                *self,
                frm_db.spec_center(self.fid, self.direction).unwrap(),
                frm_db.spec_frame(self.fid, self.direction, self.frame_idx as int).unwrap().size,
                *cam,
            ),
    {
        let set = match frm_db.get(self.fid) {
            Some(set) => set,
            None => {
                proof {
                    assert(false);
                }
                vstd::pervasive::unreached()
            },
        };
        let frml = set.frame_list(self.direction);
        let frm = &frml.frames[self.frame_idx];
        self.bounds0(frml.center, frm.size(), cam)
    }

    /// Hit-tests a screen point against the object's current frame: the
    /// point must fall in the frame rectangle and on an opaque pixel of
    /// the frame's mask. Turned-off objects are never hit.
    pub fn hit_test(&self, p: Point, frm_db: &FrameDb, cam: &Camera) -> (r: Option<Hit>)
        requires
            frm_db.wf(),
            frm_db.spec_frame(self.fid, self.direction, self.frame_idx as int) is Some,
            pos_coords_ok(*self),
            shift_ok(*self),
            screen_pos_ok(*self),
            cam.bounded(),
        ensures
            r == spec_hit_test(*self, p, *frm_db, *cam),
    {
        if self.flags.contains(Flag::TurnedOff) {
            return None;
        }
        let bounds = self.bounds(frm_db, cam);
        if !bounds.contains(p) {
            return None;
        }
        let rel = p.minus(bounds.top_left());
        let hit = match frm_db.frame(self.fid, self.direction, self.frame_idx) {
            Some(frm) => frm.mask_hit(rel),
            None => {
                proof {
                    assert(false);
                }
                false
            },
        };
        if !hit {
            return None;
        }
        let translucent = self.has_trans() && !self.flags.contains(Flag::TransNone);
        Some(Hit { translucent, with_egg: false })
    }

    /// The rendering effect for this object; see `spec_get_effect`.
    pub fn get_effect(&self, proto_db: &ProtoDb, cam: &Camera, egg: Option<Egg>) -> (r: Option<
        Effect,
    >)
        requires
            pos_coords_ok(*self),
            cam.bounded(),
            egg matches Some(e) ==> 0 <= e.pos.x <= TILE_COORD_MAX && 0 <= e.pos.y
                <= TILE_COORD_MAX,
            spec_with_egg(*self, egg) ==> proto_db.spec_proto(
                self.pid.spec_proto_id().unwrap(),
            ) is Some,
        ensures
            r == spec_get_effect(*self, *proto_db, *cam, egg),
    {
        let kind = self.fid.kind();
        if kind == EntityKind::Interface {
            return None;
        }
        let with_egg = egg.is_some() && !self.has_trans() && (kind == EntityKind::Scenery || kind
            == EntityKind::Wall) && self.pos.is_some() && self.proto_id_is_some();
        if !with_egg {
            return self.get_trans_effect();
        }
        let e = match egg {
            Some(e) => e,
            None => {
                proof {
                    assert(false);
                }
                return None;
            },
        };
        let pos = match self.pos {
            Some(p) => p.point,
            None => {
                proof {
                    assert(false);
                }
                return None;
            },
        };
        let pid = match self.pid.proto_id() {
            Some(pid) => pid,
            None => {
                proof {
                    assert(false);
                }
                return None;
            },
        };
        let proto = match proto_db.proto(pid) {
            Some(p) => p,
            None => {
                proof {
                    assert(false);
                }
                return None;
            },
        };
        let fe = proto.flags_ext;
        let masked = if fe.contains(FlagExt::WallEastOrWest) || fe.contains(FlagExt::WallWestCorner)
        {
            crate::geom::is_in_front_of(pos, e.pos) && (!crate::geom::is_to_right_of(e.pos, pos)
                || !self.flags.contains(Flag::WallTransEnd))
        } else if fe.contains(FlagExt::WallNorthCorner) {
            crate::geom::is_in_front_of(pos, e.pos) || crate::geom::is_to_right_of(pos, e.pos)
        } else if fe.contains(FlagExt::WallSouthCorner) {
            crate::geom::is_in_front_of(pos, e.pos) && crate::geom::is_to_right_of(pos, e.pos)
        } else if crate::geom::is_to_right_of(pos, e.pos) {
            !crate::geom::is_in_front_of(e.pos, pos) && !self.flags.contains(Flag::WallTransEnd)
        } else {
            false
        };
        if masked {
            let mask_pos = cam.to_screen(e.pos).plus(Point::new(16, 8));
            Some(Effect::Masked { mask_fid: e.fid, mask_pos })
        } else {
            self.get_trans_effect()
        }
    }

    fn proto_id_is_some(&self) -> (r: bool)
        ensures
            r == (self.pid.spec_proto_id() is Some),
    {
        match self.pid {
            ObjectProtoId::Proto(_) => true,
            _ => false,
        }
    }

    /// The sprite this object submits for drawing, or nothing when it is
    /// turned off. Interface overlays draw full-bright. The remembered
    /// screen position is updated to the drawn frame's top left corner.
    pub fn render(
        &mut self,
        light: u32,
        frm_db: &FrameDb,
        proto_db: &ProtoDb,
        cam: &Camera,
        egg: Option<Egg>,
    ) -> (r: Option<Sprite>)
        requires
            light <= 0x10000,
            frm_db.wf(),
            frm_db.spec_frame(old(self).fid, old(self).direction, old(self).frame_idx as int)
                is Some,
            pos_coords_ok(*old(self)),
            shift_ok(*old(self)),
            screen_pos_ok(*old(self)),
            cam.bounded(),
            egg matches Some(e) ==> 0 <= e.pos.x <= TILE_COORD_MAX && 0 <= e.pos.y
                <= TILE_COORD_MAX,
            spec_with_egg(*old(self), egg) ==> proto_db.spec_proto(
                old(self).pid.spec_proto_id().unwrap(),
            ) is Some,
        ensures
            old(self).flags.has(Flag::TurnedOff) ==> *final(self) == *old(self) && r is None,
            !old(self).flags.has(Flag::TurnedOff) ==> {
                let light2 = if old(self).fid.spec_kind() == EntityKind::Interface {
                    0x10000u32
                } else {
                    light
                };
                let effect = spec_get_effect(*old(self), *proto_db, *cam, egg);
                let center = frm_db.spec_center(old(self).fid, old(self).direction).unwrap();
                let size = frm_db.spec_frame(
                    old(self).fid,
                    old(self).direction,
                    old(self).frame_idx as int,
                ).unwrap().size;
                r == Some(spec_sprite(*old(self), light2, effect, *cam)) && *final(self) == (Object {
                    screen_pos: Point {
                        x: spec_tl0_x(*old(self), center, size, *cam) as i32,
                        y: spec_tl0_y(*old(self), center, size, *cam) as i32,
                    },
                    ..*old(self)
                })
            },
    {
        if self.flags.contains(Flag::TurnedOff) {
            return None;
        }
        let light2 = if self.fid.kind() == EntityKind::Interface {
            0x10000
        } else {
            light
        };
        let effect = self.get_effect(proto_db, cam, egg);
        let sprite = self.create_sprite(light2, effect, cam);
        let set = match frm_db.get(self.fid) {
            Some(set) => set,
            None => {
                proof {
                    assert(false);
                }
                vstd::pervasive::unreached()
            },
        };
        let frml = set.frame_list(self.direction);
        let frm = &frml.frames[self.frame_idx];
        let tl = self.frame_top_left(frml.center, frm.size(), cam);
        self.screen_pos = tl;
        Some(sprite)
    }

    /// Top left corner of the current frame's rectangle, without
    /// outline padding.
    fn frame_top_left(&self, frame_center: Point, frame_size: Point, cam: &Camera) -> (r: Point)
        requires
            pos_coords_ok(*self),
            shift_ok(*self),
            screen_pos_ok(*self),
            cam.bounded(),
            -PIXEL_MAX <= frame_center.x <= PIXEL_MAX,
            -PIXEL_MAX <= frame_center.y <= PIXEL_MAX,
            0 <= frame_size.x <= 0x10000,
            0 <= frame_size.y <= 0x10000,
        ensures
            r.x == spec_tl0_x(*self, frame_center, frame_size, *cam),
            r.y == spec_tl0_y(*self, frame_center, frame_size, *cam),
            -0x4000000 <= r.x <= 0x4000000,
            -0x4000000 <= r.y <= 0x4000000,
    {
        match self.pos {
            Some(p) => {
                let s = cam.to_screen(p.point);
                let x: i64 = s.x as i64 + 16 + frame_center.x as i64 + self.screen_shift.x as i64
                    - (frame_size.x as i64) / 2;
                let y: i64 = s.y as i64 + 8 + frame_center.y as i64 + self.screen_shift.y as i64 - (
                frame_size.y as i64 - 1);
                Point { x: x as i32, y: y as i32 }
            },
            None => self.screen_pos,
        }
    }

    /// The sprite for this object at the given light and effect.
    pub fn create_sprite(&self, light: u32, effect: Option<Effect>, cam: &Camera) -> (r: Sprite)
        requires
            pos_coords_ok(*self),
            shift_ok(*self),
            cam.bounded(),
        ensures
            r == spec_sprite(*self, light, effect, *cam),
    {
        let (pos, centered) = match self.pos {
            Some(p) => {
                let s = cam.to_screen(p.point);
                (Point { x: s.x + self.screen_shift.x + 16, y: s.y + self.screen_shift.y + 8 }, true)
            },
            None => (self.screen_pos, false),
        };
        Sprite {
            pos,
            centered,
            fid: self.fid,
            frame_idx: self.frame_idx,
            direction: self.direction,
            light,
            effect,
        }
    }

    /// The outline sprite this object submits, when it has an enabled
    /// outline and is not turned off.
    pub fn render_outline(&self, cam: &Camera) -> (r: Option<Sprite>)
        requires
            pos_coords_ok(*self),
            shift_ok(*self),
            cam.bounded(),
        ensures
            r == spec_render_outline(*self, *cam),
    {
        if self.flags.contains(Flag::TurnedOff) {
            return None;
        }
        match self.outline {
            Some(outline) => {
                if outline.disabled {
                    return None;
                }
                let effect = Effect::Outline {
                    style: outline.style,
                    translucent: outline.translucent,
                };
                Some(self.create_sprite(0x10000, Some(effect), cam))
            },
            None => None,
        }
    }
}

/// What `hit_test` returns: the hit record when the point lands on an
/// opaque pixel of the frame of a not-turned-off object.
pub open spec fn spec_hit_test(o: Object, p: Point, db: FrameDb, cam: Camera) -> Option<Hit> {
    if o.flags.has(Flag::TurnedOff) {
        None
    } else {
        let center = db.spec_center(o.fid, o.direction).unwrap();
        let frm = db.spec_frame(o.fid, o.direction, o.frame_idx as int).unwrap();
        let bounds = spec_bounds0(o, center, frm.size, cam);
        if !bounds.spec_contains(p) {
            None
        } else {
            let rel = Point { x: (p.x - bounds.left) as i32, y: (p.y - bounds.top) as i32 };
            if !frm.spec_mask_hit(rel) {
                None
            } else {
                Some(
                    Hit {
                        translucent: spec_has_trans(o) && !o.flags.has(Flag::TransNone),
                        with_egg: false,
                    },
                )
            }
        }
    }
}

/// What `render_outline` returns: the outline sprite of a visible,
/// outlined object.
pub open spec fn spec_render_outline(o: Object, cam: Camera) -> Option<Sprite> {
    if o.flags.has(Flag::TurnedOff) {
        None
    } else {
        match o.outline {
            Some(outline) => {
                if outline.disabled {
                    None
                } else {
                    Some(
                        spec_sprite(
                            o,
                            0x10000,
                            Some(
                                Effect::Outline {
                                    style: outline.style,
                                    translucent: outline.translucent,
                                },
                            ),
                            cam,
                        ),
                    )
                }
            },
            None => None,
        }
    }
}

impl Egg {
    /// Whether the egg mask, drawn at the egg's tile, covers the screen
    /// point `p`: the point falls on an opaque pixel of the mask frame.
    pub fn hit_test(&self, p: Point, cam: &Camera, frm_db: &FrameDb) -> (r: bool)
        requires
            frm_db.wf(),
            frm_db.spec_frame(self.fid, Direction::NE, 0) is Some,
            0 <= self.pos.x <= TILE_COORD_MAX,
            0 <= self.pos.y <= TILE_COORD_MAX,
            cam.bounded(),
        ensures
            r == spec_egg_hit(*self, p, *cam, *frm_db),
    {
        let screen_pos = cam.to_screen(self.pos).plus(Point::new(16, 8));
        let set = match frm_db.get(self.fid) {
            Some(set) => set,
            None => {
                proof {
                    assert(false);
                }
                return false;
            },
        };
        let frml = set.frame_list(Direction::NE);
        let frm = &frml.frames[0];
        let bounds = frm.bounds_centered(screen_pos, frml.center);
        if !bounds.contains(p) {
            return false;
        }
        frm.mask_hit(p.minus(bounds.top_left()))
    }
}

/// What `Egg::hit_test` returns: containment in the mask frame's
/// rectangle and an opaque mask pixel there.
pub open spec fn spec_egg_hit(egg: Egg, p: Point, cam: Camera, db: FrameDb) -> bool {
    let center = db.spec_center(egg.fid, Direction::NE).unwrap();
    let frm = db.spec_frame(egg.fid, Direction::NE, 0).unwrap();
    let sx = cam.origin.x + tile_screen_x(egg.pos) + 16;
    let sy = cam.origin.y + tile_screen_y(egg.pos) + 8;
    let left = sx + center.x - frm.size.x / 2;
    let top = sy + center.y - (frm.size.y - 1);
    &&& left <= p.x < left + frm.size.x
    &&& top <= p.y < top + frm.size.y
    &&& frm.spec_mask_at(Point { x: (p.x - left) as i32, y: (p.y - top) as i32 })
}

impl From<ProtoId> for ObjectProtoId {
    /// Wraps a database id as an object prototype reference.
    fn from(v: ProtoId) -> (r: ObjectProtoId) {
        ObjectProtoId::Proto(v)
    }
}

impl vstd::std_specs::convert::FromSpecImpl<ProtoId> for ObjectProtoId {
    open spec fn obeys_from_spec() -> bool {
        true
    }

    open spec fn from_spec(v: ProtoId) -> ObjectProtoId {
        ObjectProtoId::Proto(v)
    }
}

} // verus!
