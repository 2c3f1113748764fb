use hexworld::asset::{
    CritterAnim, CritterFid, EntityKind, Frame, FrameDb, FrameId, FrameList, FrameSet, GenericFid,
    Proto, ProtoDb, ProtoId, SubProto, WeaponKind,
};
use hexworld::flags::{Flag, Flags};
use hexworld::geom::{Camera, EPoint, Point, Rect, TileGrid};
use hexworld::object::{CantTalkSpatial, Object, ObjectProtoId, PushEligibility, Scripts};
use hexworld::objects::Objects;

fn unit_frame(shift: Point) -> Frame {
    Frame { shift, size: Point { x: 1, y: 1 }, mask: vec![true] }
}

fn frame_set(shift: Point) -> FrameSet {
    let mut lists = Vec::new();
    for _ in 0..6 {
        lists.push(FrameList { center: Point { x: 0, y: 0 }, frames: vec![unit_frame(shift)] });
    }
    FrameSet { frame_lists: lists }
}

fn blank_fid() -> FrameId {
    FrameId::blank()
}

fn critter_fid(id: u16) -> FrameId {
    FrameId::Critter(CritterFid { id, weapon: WeaponKind::Unarmed, anim: CritterAnim::Stand })
}

fn wall_fid() -> FrameId {
    FrameId::Generic(GenericFid { kind: EntityKind::Wall, id: 1 })
}

fn scenery_fid() -> FrameId {
    FrameId::Generic(GenericFid { kind: EntityKind::Scenery, id: 1 })
}

fn flat_fid() -> FrameId {
    FrameId::Generic(GenericFid { kind: EntityKind::Misc, id: 7 })
}

fn base_frame_db() -> FrameDb {
    let mut db = FrameDb::new();
    db.put(blank_fid(), frame_set(Point { x: 0, y: 0 }));
    db.put(critter_fid(1), frame_set(Point { x: 0, y: 0 }));
    db.put(critter_fid(2), frame_set(Point { x: 0, y: 0 }));
    db.put(wall_fid(), frame_set(Point { x: 0, y: 0 }));
    db.put(scenery_fid(), frame_set(Point { x: 0, y: 0 }));
    db.put(flat_fid(), frame_set(Point { x: 0, y: 0 }));
    db
}

fn world() -> Objects {
    Objects::new(TileGrid::new(20, 20), 2, ProtoDb::new(), base_frame_db())
}

fn at_tile(x: i32, y: i32) -> EPoint {
    EPoint { elevation: 0, point: Point { x, y } }
}

// The screen rectangle of a placed object's frame, from known frame
// center, size and screen shift.
#[test]
fn bounds() {
    let screen_shift = Point::new(10, 20);
    let base = Point::new(2384, 468).plus(screen_shift);

    let mut obj = Object::new(
        FrameId::blank(),
        ObjectProtoId::Null,
        Some(Point::new(55, 66).elevated(0)),
    );
    obj.screen_shift = screen_shift;
    assert_eq!(
        obj.bounds0(Point::new(-1, 3), Point::new(29, 63), &Camera::default()),
        Rect::with_points(Point::new(1, -51), Point::new(30, 12)).translate(base)
    );
}

// The reserved sentinel patterns round-trip through the packed form.
#[test]
fn pid_pack_roundtrip_sentinels() {
    assert_eq!(ObjectProtoId::Null.pack(), 0xffffffff);
    assert_eq!(ObjectProtoId::Dude.pack(), 0x01000000);
    assert_eq!(ObjectProtoId::from_packed(0xffffffff), Some(ObjectProtoId::Null));
    assert_eq!(ObjectProtoId::from_packed(0x01000000), Some(ObjectProtoId::Dude));
}

// A valid prototype id round-trips; the decoder rebuilds kind and id.
#[test]
fn pid_pack_roundtrip_proto() {
    let pid = ProtoId { kind: EntityKind::Critter, id: 0x1234 };
    let opid = ObjectProtoId::Proto(pid);
    let packed = opid.pack();
    assert_eq!(packed, 0x01001234);
    assert_eq!(ObjectProtoId::from_packed(packed), Some(opid));
}

// A raw value that is neither reserved nor a valid prototype id is a
// decode failure.
#[test]
fn pid_from_packed_rejects_malformed() {
    // Kind code out of range.
    assert_eq!(ObjectProtoId::from_packed(0x0700_0001), None);
    // Zero id.
    assert_eq!(ObjectProtoId::from_packed(0x0200_0000), None);
    assert_eq!(ObjectProtoId::from_packed(0x0000_0000), None);
}

// Flat objects precede non-flat objects in a tile's list, whatever the
// insertion order.
#[test]
fn flat_sorts_before_raised() {
    for order in 0..2 {
        let mut w = world();
        let mut flat_obj = Object::new(flat_fid(), ObjectProtoId::Null, Some(at_tile(3, 3)));
        flat_obj.flags = Flags::empty().with(Flag::Flat);
        let raised_obj = Object::new(blank_fid(), ObjectProtoId::Null, Some(at_tile(3, 3)));
        let (a, b) = if order == 0 {
            let a = w.insert(flat_obj.clone());
            let b = w.insert(raised_obj.clone());
            (a, b)
        } else {
            let b = w.insert(raised_obj.clone());
            let a = w.insert(flat_obj.clone());
            (a, b)
        };
        let list = w.at(at_tile(3, 3));
        assert_eq!(list.len(), 2);
        assert_eq!(list[0], a, "flat object must come first");
        assert_eq!(list[1], b);
    }
}

// Tile lists stay sorted when shifts move objects around within a tile.
#[test]
fn shift_reorders_within_tile() {
    let mut w = world();
    let a = w.insert(Object::new(blank_fid(), ObjectProtoId::Null, Some(at_tile(4, 4))));
    let b = w.insert(Object::new(blank_fid(), ObjectProtoId::Null, Some(at_tile(4, 4))));
    // Ties keep insertion order.
    assert_eq!(w.at(at_tile(4, 4)).as_slice(), &[a, b]);
    // A lower vertical shift draws earlier.
    w.set_screen_shift(a, Point::new(0, 5));
    assert_eq!(w.at(at_tile(4, 4)).as_slice(), &[b, a]);
    w.set_screen_shift(a, Point::new(0, -5));
    assert_eq!(w.at(at_tile(4, 4)).as_slice(), &[a, b]);
    // Horizontal shift breaks vertical ties.
    w.set_screen_shift(a, Point::new(3, 0));
    assert_eq!(w.at(at_tile(4, 4)).as_slice(), &[b, a]);
}

// Detaching removes the object from its tile list and appends it to the
// detached list exactly once.
#[test]
fn detach_moves_to_detached_list() {
    let mut w = world();
    let a = w.insert(Object::new(blank_fid(), ObjectProtoId::Null, Some(at_tile(2, 2))));
    let b = w.insert(Object::new(blank_fid(), ObjectProtoId::Null, Some(at_tile(2, 2))));
    w.detach(a);
    assert_eq!(w.at(at_tile(2, 2)).as_slice(), &[b]);
    assert_eq!(w.get(a).pos, None);
    let det = w.iter().into_iter().filter(|&h| w.get(h).pos.is_none()).count();
    assert_eq!(det, 1);
    // Detaching again leaves a single detached entry.
    w.detach(a);
    assert_eq!(w.get(a).pos, None);
    assert_eq!(w.at(at_tile(2, 2)).as_slice(), &[b]);
}

// A removed handle is detectably invalid, and reuse of its slot gets a
// fresh generation.
#[test]
fn remove_invalidates_handle() {
    let mut w = world();
    let a = w.insert(Object::new(blank_fid(), ObjectProtoId::Null, Some(at_tile(1, 1))));
    assert!(w.contains(a));
    w.remove(a);
    assert!(!w.contains(a));
    assert_eq!(w.at(at_tile(1, 1)).len(), 0);
    let b = w.insert(Object::new(blank_fid(), ObjectProtoId::Null, None));
    assert!(w.contains(b));
    assert!(!w.contains(a), "stale handle must stay invalid after slot reuse");
}

// Distance is symmetric and multi-hex endpoints each subtract one, never
// below zero.
#[test]
fn distance_multihex() {
    let mut w = world();
    let mut big = Object::new(critter_fid(1), ObjectProtoId::Null, Some(at_tile(2, 5)));
    big.flags = Flags::empty().with(Flag::MultiHex);
    let a = w.insert(big);
    let b = w.insert(Object::new(critter_fid(2), ObjectProtoId::Null, Some(at_tile(7, 5))));
    // Raw hex distance 5, one multi-hex endpoint.
    assert_eq!(w.distance(a, b), Some(4));
    assert_eq!(w.distance(b, a), Some(4));
    assert_eq!(w.distance(a, a), Some(0));
}

// A tile whose only occupants are turned off or no-block does not block;
// an ordinary critter does.
#[test]
fn blocked_at_flags() {
    let mut w = world();
    let mover = w.insert(Object::new(critter_fid(1), ObjectProtoId::Null, None));

    let mut off = Object::new(critter_fid(2), ObjectProtoId::Null, Some(at_tile(6, 6)));
    off.flags = Flags::empty().with(Flag::TurnedOff);
    let mut pass = Object::new(scenery_fid(), ObjectProtoId::Null, Some(at_tile(6, 6)));
    pass.flags = Flags::empty().with(Flag::NoBlock);
    w.insert(off);
    w.insert(pass);
    assert!(!w.is_blocked_at(mover, at_tile(6, 6)));

    w.insert(Object::new(critter_fid(2), ObjectProtoId::Null, Some(at_tile(6, 6))));
    assert!(w.is_blocked_at(mover, at_tile(6, 6)));
}

// A wall on the straight ray blocks the shot; removing it clears it.
#[test]
fn shot_blocked_by_wall() {
    let mut w = world();
    let shooter = w.insert(Object::new(critter_fid(1), ObjectProtoId::Null, Some(at_tile(2, 5))));
    let target = w.insert(Object::new(critter_fid(2), ObjectProtoId::Null, Some(at_tile(7, 5))));
    let wall = w.insert(Object::new(wall_fid(), ObjectProtoId::Null, Some(at_tile(5, 5))));
    assert!(w.is_shot_blocked(shooter, target));
    w.remove(wall);
    assert!(!w.is_shot_blocked(shooter, target));
}

// A shoot-through no-block wall does not stop the shot.
#[test]
fn shot_passes_shoot_through() {
    let mut w = world();
    let shooter = w.insert(Object::new(critter_fid(1), ObjectProtoId::Null, Some(at_tile(2, 5))));
    let target = w.insert(Object::new(critter_fid(2), ObjectProtoId::Null, Some(at_tile(7, 5))));
    let mut pane = Object::new(wall_fid(), ObjectProtoId::Null, Some(at_tile(5, 5)));
    pane.flags = Flags::empty().with(Flag::ShootThru).with(Flag::NoBlock);
    w.insert(pane);
    assert!(!w.is_shot_blocked(shooter, target));
}

// Beyond hex distance 12, talking fails with TooFar; within reach and
// with a clear line it succeeds; across elevations it is unreachable.
#[test]
fn can_talk_distance() {
    let mut w = world();
    let a = w.insert(Object::new(critter_fid(1), ObjectProtoId::Null, Some(at_tile(0, 5))));
    let far = w.insert(Object::new(critter_fid(2), ObjectProtoId::Null, Some(at_tile(13, 5))));
    assert_eq!(w.can_talk(a, far), Err(CantTalkSpatial::TooFar));

    let near = w.insert(Object::new(critter_fid(2), ObjectProtoId::Null, Some(at_tile(10, 5))));
    assert_eq!(w.can_talk(a, near), Ok(()));

    let upstairs = w.insert(Object::new(
        critter_fid(2),
        ObjectProtoId::Null,
        Some(EPoint { elevation: 1, point: Point { x: 1, y: 5 } }),
    ));
    assert_eq!(w.can_talk(a, upstairs), Err(CantTalkSpatial::Unreachable));
}

// A ring of sight blockers makes a near neighbour unreachable for talk.
#[test]
fn can_talk_walled_off() {
    let mut w = world();
    let a = w.insert(Object::new(critter_fid(1), ObjectProtoId::Null, Some(at_tile(2, 2))));
    let b = w.insert(Object::new(critter_fid(2), ObjectProtoId::Null, Some(at_tile(10, 10))));
    // Wall off every tile of two full rows between them.
    for x in 0..20 {
        w.insert(Object::new(wall_fid(), ObjectProtoId::Null, Some(at_tile(x, 6))));
        w.insert(Object::new(wall_fid(), ObjectProtoId::Null, Some(at_tile(x, 7))));
    }
    assert_eq!(w.can_talk(a, b), Err(CantTalkSpatial::Unreachable));
}

// The pathfinder walks around blockers and its path crosses only free
// tiles.
#[test]
fn path_goes_around() {
    let mut w = world();
    let mover = w.insert(Object::new(critter_fid(1), ObjectProtoId::Null, Some(at_tile(2, 5))));
    w.insert(Object::new(wall_fid(), ObjectProtoId::Null, Some(at_tile(5, 5))));
    let dirs = w.path(mover, Point { x: 8, y: 5 }, true, false).expect("a path must exist");
    assert!(dirs.len() >= 6, "the detour cannot be shorter than the distance");
    // Walk it and check where it ends.
    let grid = TileGrid::new(20, 20);
    let mut cur = Point { x: 2, y: 5 };
    for d in dirs {
        cur = grid.go(cur, d, 1).expect("path steps stay on the grid");
        assert!(!(cur.x == 5 && cur.y == 5), "path must avoid the wall tile");
    }
    assert_eq!(cur, Point { x: 8, y: 5 });
}

// With the neighbour-tile option, a path to a blocked destination stops
// one tile short.
#[test]
fn path_to_blocked_neighbor() {
    let mut w = world();
    let mover = w.insert(Object::new(critter_fid(1), ObjectProtoId::Null, Some(at_tile(2, 5))));
    w.insert(Object::new(critter_fid(2), ObjectProtoId::Null, Some(at_tile(6, 5))));
    let dirs = w.path(mover, Point { x: 6, y: 5 }, true, true).expect("a path must exist");
    let grid = TileGrid::new(20, 20);
    let mut cur = Point { x: 2, y: 5 };
    for d in dirs {
        cur = grid.go(cur, d, 1).expect("path steps stay on the grid");
    }
    assert_ne!(cur, Point { x: 6, y: 5 }, "path must stop short of the blocked goal");
    assert_eq!(hexworld::geom::distance(cur, Point { x: 6, y: 5 }), 1);
}

// Push eligibility: refused for non-critters, self-pushes, scriptless
// critters; granted out of combat; unsupported in combat.
#[test]
fn can_push_checks() {
    let mut w = world();
    let scripts = {
        let mut s = Scripts::new();
        s.put(hexworld::object::Sid(7), hexworld::object::PredefinedProc::Push);
        s
    };
    let pusher = w.insert(Object::new(critter_fid(1), ObjectProtoId::Null, Some(at_tile(2, 2))));
    let mut pushed_obj = Object::new(critter_fid(2), ObjectProtoId::Null, Some(at_tile(3, 2)));
    pushed_obj.script = Some((hexworld::object::Sid(7), hexworld::object::ProgramId(1)));
    let pushed = w.insert(pushed_obj);

    assert_eq!(w.can_push(pusher, pushed, &scripts, false), PushEligibility::Eligible);
    assert_eq!(w.can_push(pusher, pushed, &scripts, true), PushEligibility::UnsupportedInCombat);
    assert_eq!(w.can_push(pusher, pusher, &scripts, false), PushEligibility::Ineligible);

    let scriptless = w.insert(Object::new(critter_fid(2), ObjectProtoId::Null, Some(at_tile(2, 3))));
    assert_eq!(w.can_push(pusher, scriptless, &scripts, false), PushEligibility::Ineligible);
}

// The item kind is reported exactly for the shiv.
#[test]
fn item_kind_shiv() {
    let mut protos = ProtoDb::new();
    protos.put(
        ProtoId::shiv(),
        Proto {
            flags_ext: hexworld::flags::FlagsExt::empty(),
            sub: SubProto::Item(hexworld::asset::ItemProto { kind: hexworld::asset::ItemKind::Weapon }),
        },
    );
    let mut db = base_frame_db();
    let shiv_fid = FrameId::Generic(GenericFid { kind: EntityKind::Item, id: 9 });
    db.put(shiv_fid, frame_set(Point { x: 0, y: 0 }));
    let mut w = Objects::new(TileGrid::new(20, 20), 1, protos, db);
    let knife = w.insert(Object::new(
        shiv_fid,
        ObjectProtoId::Proto(ProtoId::shiv()),
        Some(at_tile(1, 1)),
    ));
    assert_eq!(w.item_kind(knife), Some(hexworld::asset::ItemKind::Weapon));
    let other = w.insert(Object::new(blank_fid(), ObjectProtoId::Null, None));
    assert_eq!(w.item_kind(other), None);
}

// A lit, solid object blocks the light walk; turned-off objects are
// skipped; a tile where nothing blocks always reports an update.
#[test]
fn light_test_blocks() {
    let mut w = world();
    let lt = hexworld::objects::LightTest {
        point: at_tile(5, 5),
        direction: hexworld::geom::Direction::NE,
        i: 0,
    };
    let r = w.light_test(lt);
    assert!(!r.block);
    assert!(r.update);

    let mut off = Object::new(scenery_fid(), ObjectProtoId::Null, Some(at_tile(5, 5)));
    off.flags = Flags::empty().with(Flag::TurnedOff);
    w.insert(off);
    let r = w.light_test(lt);
    assert!(!r.block, "turned-off objects never block light");
    assert!(r.update, "nothing blocks, so the tile still updates");

    w.insert(Object::new(scenery_fid(), ObjectProtoId::Null, Some(at_tile(5, 5))));
    let r = w.light_test(lt);
    assert!(r.block);
}

// A flat wall blocks light without consulting corner geometry and never
// clears the update decision; solid non-wall scenery lit from the east
// side does clear it.
#[test]
fn light_test_flat_wall_and_direction() {
    let mut w = world();
    let mut flat_wall = Object::new(wall_fid(), ObjectProtoId::Null, Some(at_tile(4, 4)));
    flat_wall.flags = Flags::empty().with(Flag::Flat);
    w.insert(flat_wall);
    let r = w.light_test(hexworld::objects::LightTest {
        point: at_tile(4, 4),
        direction: hexworld::geom::Direction::E,
        i: 0,
    });
    assert!(r.block);
    assert!(r.update, "a flat wall leaves the update decision alone");

    let mut w2 = world();
    w2.insert(Object::new(scenery_fid(), ObjectProtoId::Null, Some(at_tile(4, 4))));
    let r = w2.light_test(hexworld::objects::LightTest {
        point: at_tile(4, 4),
        direction: hexworld::geom::Direction::E,
        i: 0,
    });
    assert!(r.block);
    assert!(!r.update, "solid scenery lit from the east clears the update");
}

// Replacing a stored object re-indexes it: the new flags take part in
// the draw order and a new position moves it between lists.
#[test]
fn update_reindexes() {
    let mut w = world();
    let a = w.insert(Object::new(blank_fid(), ObjectProtoId::Null, Some(at_tile(3, 3))));
    let b = w.insert(Object::new(blank_fid(), ObjectProtoId::Null, Some(at_tile(3, 3))));
    assert_eq!(w.at(at_tile(3, 3)).as_slice(), &[a, b]);

    // Turning `b` flat moves it to the front of its tile's list.
    let mut nb = Object::new(blank_fid(), ObjectProtoId::Null, Some(at_tile(3, 3)));
    nb.flags = Flags::empty().with(Flag::Flat);
    w.update(b, nb);
    assert_eq!(w.at(at_tile(3, 3)).as_slice(), &[b, a]);
    assert!(w.get(b).flags.contains(Flag::Flat));

    // Moving `a` by update removes it here and places it there.
    let na = Object::new(blank_fid(), ObjectProtoId::Null, Some(at_tile(6, 6)));
    w.update(a, na);
    assert_eq!(w.at(at_tile(3, 3)).as_slice(), &[b]);
    assert_eq!(w.at(at_tile(6, 6)).as_slice(), &[a]);

    // Updating to no position detaches.
    w.update(a, Object::new(blank_fid(), ObjectProtoId::Null, None));
    assert_eq!(w.at(at_tile(6, 6)).len(), 0);
    assert_eq!(w.get(a).pos, None);
}

// Removal hands the stored object back, no longer placed.
#[test]
fn remove_returns_object() {
    let mut w = world();
    let mut obj = Object::new(critter_fid(1), ObjectProtoId::Dude, Some(at_tile(2, 2)));
    obj.frame_idx = 0;
    let h = w.insert(obj);
    let taken = w.remove(h);
    assert_eq!(taken.pid, ObjectProtoId::Dude);
    assert_eq!(taken.pos, None);
    assert!(!w.contains(h));
}

// Two objects on one tile can always talk.
#[test]
fn can_talk_same_tile() {
    let mut w = world();
    let a = w.insert(Object::new(critter_fid(1), ObjectProtoId::Null, Some(at_tile(9, 9))));
    let b = w.insert(Object::new(critter_fid(2), ObjectProtoId::Null, Some(at_tile(9, 9))));
    assert_eq!(w.can_talk(a, b), Ok(()));
}

// A path to the object's own tile is the empty path.
#[test]
fn path_to_own_tile() {
    let mut w = world();
    let mover = w.insert(Object::new(critter_fid(1), ObjectProtoId::Null, Some(at_tile(2, 5))));
    let dirs = w.path(mover, Point { x: 2, y: 5 }, true, false).expect("trivial path");
    assert_eq!(dirs.len(), 0);
    // An off-grid target simply finds no path.
    assert!(w.path(mover, Point { x: 50, y: 5 }, true, false).is_none());
}

// Sight blocking needs scenery or walls; critters do not block sight.
#[test]
fn sight_blocked_kinds() {
    let mut w = world();
    let viewer = w.insert(Object::new(critter_fid(1), ObjectProtoId::Null, None));
    w.insert(Object::new(critter_fid(2), ObjectProtoId::Null, Some(at_tile(8, 8))));
    assert!(!w.is_sight_blocked_at(viewer, at_tile(8, 8)));
    w.insert(Object::new(wall_fid(), ObjectProtoId::Null, Some(at_tile(8, 8))));
    assert!(w.is_sight_blocked_at(viewer, at_tile(8, 8)));
}

// Standing up resets the frame index and accumulates the put-away
// shifts of an armed critter.
#[test]
fn make_standing_armed() {
    let mut db = base_frame_db();
    let armed = CritterFid { id: 3, weapon: WeaponKind::Pistol, anim: CritterAnim::Walk };
    db.put(FrameId::Critter(armed), frame_set(Point { x: 0, y: 0 }));
    db.put(
        FrameId::Critter(armed.with_anim(CritterAnim::TakeOut)),
        frame_set(Point { x: 2, y: 3 }),
    );
    db.put(
        FrameId::Critter(armed.with_anim(CritterAnim::Stand).with_weapon(WeaponKind::Unarmed)),
        frame_set(Point { x: 0, y: 0 }),
    );
    db.put(FrameId::Critter(armed.with_anim(CritterAnim::Stand)), frame_set(Point { x: 0, y: 0 }));
    let mut w = Objects::new(TileGrid::new(20, 20), 1, ProtoDb::new(), db.clone());
    let h = w.insert(Object::new(FrameId::Critter(armed), ObjectProtoId::Null, Some(at_tile(4, 4))));
    w.make_standing(h, &db);
    let o = w.get(h);
    assert_eq!(o.fid, FrameId::Critter(armed.with_anim(CritterAnim::Stand)));
    assert_eq!(o.frame_idx, 0);
    // One take-out frame with shift (2, 3) plus the stand list's center (0, 0).
    assert_eq!(o.screen_shift, Point { x: 2, y: 3 });
}

// The renderer draws flat objects before raised ones and skips
// turned-off objects.
#[test]
fn render_two_passes() {
    let mut w = world();
    let mut flat_obj = Object::new(flat_fid(), ObjectProtoId::Null, Some(at_tile(3, 3)));
    flat_obj.flags = Flags::empty().with(Flag::Flat);
    w.insert(flat_obj);
    w.insert(Object::new(blank_fid(), ObjectProtoId::Null, Some(at_tile(3, 3))));
    let mut off = Object::new(blank_fid(), ObjectProtoId::Null, Some(at_tile(4, 3)));
    off.flags = Flags::empty().with(Flag::TurnedOff);
    w.insert(off);

    let lights = hexworld::objects::Lights::new(0x8000);
    let screen = Rect { left: 0, top: 0, right: 640, bottom: 480 };
    let sprites = w.render(0, screen, &Camera::default(), None, &lights);
    assert_eq!(sprites.len(), 2, "the turned-off object must not be drawn");
    assert_eq!(sprites[0].fid, flat_fid(), "flat pass draws first");
    assert_eq!(sprites[0].light, 0x8000);
}
