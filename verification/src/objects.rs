//! The world-object container: the generational handle table, the
//! per-(elevation, tile) spatial index kept in draw order, the detached
//! list, and the spatial queries built on them.

use vstd::prelude::*;

use crate::asset::{FrameDb, ProtoDb};
use crate::flags::Flag;
use crate::geom::{Camera, Direction, EPoint, Point, Rect, TileGrid};
use crate::handle::Handle;
use crate::object::{pos_coords_ok, screen_pos_ok, shift_ok, CantTalkSpatial, Egg, Object, Scripts, SubObject};

verus! {

/// One slot of the handle table: its current generation and the stored
/// object, if the slot is occupied.
#[derive(Clone, Debug)]
struct Slot {
    generation: u64,
    obj: Option<Object>,
}

/// The object's animation frame is present in the frame database.
pub open spec fn frame_resolved(db: FrameDb, o: Object) -> bool {
    db.spec_frame(o.fid, o.direction, o.frame_idx as int) is Some
}

/// Shift of the object's current animation frame.
pub open spec fn spec_frame_shift(db: FrameDb, o: Object) -> Point {
    db.spec_frame(o.fid, o.direction, o.frame_idx as int).unwrap().shift
}

/// First component of the draw-order key: flat objects sort before
/// everything else.
pub open spec fn spec_key_flat(o: Object) -> int {
    if o.flags.has(Flag::Flat) {
        0
    } else {
        1
    }
}

/// Second component: the vertical pixel shift, object shift plus the
/// current frame's intrinsic shift.
pub open spec fn spec_key_y(db: FrameDb, o: Object) -> int {
    o.screen_shift.y + spec_frame_shift(db, o).y
}

/// Third component: the horizontal pixel shift.
pub open spec fn spec_key_x(db: FrameDb, o: Object) -> int {
    o.screen_shift.x + spec_frame_shift(db, o).x
}

/// The draw-order comparator, as a total preorder: flat first, then by
/// vertical shift, then by horizontal shift.
pub open spec fn key_le(db: FrameDb, a: Object, b: Object) -> bool {
    spec_key_flat(a) < spec_key_flat(b) || (spec_key_flat(a) == spec_key_flat(b) && (spec_key_y(
        db,
        a,
    ) < spec_key_y(db, b) || (spec_key_y(db, a) == spec_key_y(db, b) && spec_key_x(db, a)
        <= spec_key_x(db, b))))
}

/// Strictly greater in draw order.
pub open spec fn key_lt(db: FrameDb, a: Object, b: Object) -> bool {
    !key_le(db, b, a)
}

/// Critter sub-state exactly on critter frames.
pub open spec fn sub_coherent(o: Object) -> bool {
    (o.fid.spec_kind() == crate::asset::EntityKind::Critter) <==> (o.sub matches SubObject::Critter(
        _,
    ))
}

/// The world-object store. It owns the handle table, the stored
/// objects, the per-elevation grid of draw-ordered tile lists, the
/// detached list, and read-only prototype and frame databases.
pub struct Objects {
    tile_grid: TileGrid,
    proto_db: ProtoDb,
    frm_db: FrameDb,
    slots: Vec<Slot>,
    free: Vec<usize>,
    next_generation: u64,
    // Objects attached to a tile (`Object::pos` is `Some`), per
    // elevation, row-major.
    by_pos: Vec<Vec<Vec<Handle>>>,
    // Objects not attached to a tile (`Object::pos` is `None`).
    detached: Vec<Handle>,
}

impl Objects {
    /// The grid geometry the container was built with.
    pub closed spec fn spec_grid(self) -> TileGrid {
        self.tile_grid
    }

    /// How many elevations the container indexes.
    pub closed spec fn spec_elevations(self) -> int {
        self.by_pos@.len() as int
    }

    /// The frame database the draw order consults.
    pub closed spec fn spec_frm_db(self) -> FrameDb {
        self.frm_db
    }

    /// The prototype database the queries consult.
    pub closed spec fn spec_proto_db(self) -> ProtoDb {
        self.proto_db
    }

    /// Whether `h` names a stored object.
    pub closed spec fn live(self, h: Handle) -> bool {
        &&& h.index < self.slots@.len()
        &&& self.slots@[h.index as int].generation == h.generation
        &&& self.slots@[h.index as int].obj is Some
    }

    /// The object stored under `h`.
    pub closed spec fn obj(self, h: Handle) -> Object {
        self.slots@[h.index as int].obj.unwrap()
    }

    /// A position this container indexes.
    pub open spec fn pos_in_grid(self, pos: EPoint) -> bool {
        pos.elevation < self.spec_elevations() && self.spec_grid().spec_in_grid(pos.point)
    }

    /// Row-major index of a tile.
    pub open spec fn tile_index(self, p: Point) -> int {
        p.y * self.spec_grid().spec_width() + p.x
    }

    spec fn list_at(self, e: int, t: int) -> Seq<Handle> {
        self.by_pos@[e]@[t]@
    }

    /// The handles placed at `pos`, in draw order.
    pub closed spec fn tile_list(self, pos: EPoint) -> Seq<Handle> {
        self.list_at(pos.elevation as int, self.tile_index(pos.point))
    }

    /// The handles of detached objects, oldest first.
    pub closed spec fn detached_list(self) -> Seq<Handle> {
        self.detached@
    }

    /// An object this container can store.
    pub open spec fn obj_ok(self, o: Object) -> bool {
        &&& frame_resolved(self.spec_frm_db(), o)
        &&& pos_coords_ok(o)
        &&& shift_ok(o)
        &&& screen_pos_ok(o)
        &&& (o.pos matches Some(p) ==> self.pos_in_grid(p))
        &&& sub_coherent(o)
    }

    /// A list entry names a live object placed at elevation `e`, tile
    /// index `t`.
    spec fn placed_at(self, h: Handle, e: int, t: int) -> bool {
        &&& self.live(h)
        &&& self.obj(h).pos matches Some(p) && p.elevation == e && self.spec_grid().spec_in_grid(
            p.point,
        ) && self.tile_index(p.point) == t
    }

    /// Per-list part of the invariant: entries live and placed here, no
    /// duplicates, and the list sorted by the draw-order comparator.
    spec fn list_ok(self, e: int, t: int) -> bool {
        let l = self.list_at(e, t);
        &&& forall|k: int| 0 <= k < l.len() ==> self.placed_at(#[trigger] l[k], e, t)
        &&& forall|k1: int, k2: int|
            0 <= k1 < k2 < l.len() ==> #[trigger] l[k1] != #[trigger] l[k2]
        &&& forall|k1: int, k2: int|
            0 <= k1 < k2 < l.len() ==> key_le(
                self.spec_frm_db(),
                self.obj(#[trigger] l[k1]),
                self.obj(#[trigger] l[k2]),
            )
    }

    spec fn detached_ok(self) -> bool {
        let d = self.detached@;
        &&& forall|k: int|
            0 <= k < d.len() ==> self.live(#[trigger] d[k]) && self.obj(d[k]).pos is None
        &&& forall|k1: int, k2: int|
            0 <= k1 < k2 < d.len() ==> #[trigger] d[k1] != #[trigger] d[k2]
    }

    /// Structural part of the invariant: grid and database
    /// well-formedness, grid shape, free list and generation bounds.
    spec fn inv_core(self) -> bool {
        &&& self.tile_grid.wf()
        &&& self.frm_db.wf()
        &&& self.by_pos@.len() <= 0xffff_ffff
        &&& forall|e: int|
            0 <= e < self.by_pos@.len() ==> (#[trigger] self.by_pos@[e])@.len()
                == self.spec_grid().spec_width() * self.spec_grid().spec_height()
        &&& forall|i: int|
            0 <= i < self.free@.len() ==> (#[trigger] self.free@[i]) < self.slots@.len()
                && self.slots@[self.free@[i] as int].obj is None
        &&& forall|i1: int, i2: int|
            0 <= i1 < i2 < self.free@.len() ==> #[trigger] self.free@[i1] != #[trigger] self.free@[i2]
        &&& forall|i: int|
            0 <= i < self.slots@.len() ==> (#[trigger] self.slots@[i]).generation
                < self.next_generation
    }

    /// All per-list invariants, plus well-formedness of every stored
    /// object.
    spec fn lists_ok(self) -> bool {
        &&& forall|e: int, t: int|
            0 <= e < self.spec_elevations() && 0 <= t < self.spec_grid().spec_width()
                * self.spec_grid().spec_height() ==> #[trigger] self.list_ok(e, t)
        &&& self.detached_ok()
        &&& forall|h: Handle| #[trigger] self.live(h) ==> self.obj_ok(self.obj(h))
    }

    /// Every live object appears in the list its position names, except
    /// possibly `ex`.
    spec fn complete_except(self, ex: Option<Handle>) -> bool {
        forall|h: Handle|
            #[trigger] self.live(h) && Some(h) != ex ==> match self.obj(h).pos {
                Some(p) => self.tile_list(p).contains(h),
                None => self.detached_list().contains(h),
            }
    }

    /// `h` stands in no tile list and not in the detached list.
    spec fn in_no_list(self, h: Handle) -> bool {
        &&& forall|e: int, t: int|
            0 <= e < self.spec_elevations() && 0 <= t < self.spec_grid().spec_width()
                * self.spec_grid().spec_height() ==> !(#[trigger] self.list_at(e, t)).contains(h)
        &&& !self.detached_list().contains(h)
    }

    /// The container invariant. Every public operation preserves it; it
    /// carries the central promises: each tile list is sorted by the
    /// draw-order comparator at all times, an object with a position is
    /// in exactly the list of that position, and a detached object is in
    /// the detached list and in no tile list.
    pub closed spec fn inv(self) -> bool {
        &&& self.inv_core()
        &&& self.lists_ok()
        &&& self.complete_except(None)
    }

    /// Members of a tile list are exactly there: live, and positioned on
    /// that tile.
    pub proof fn lemma_tile_list_members(self, pos: EPoint, k: int)
        requires
            self.inv(),
            self.pos_in_grid(pos),
            0 <= k < self.tile_list(pos).len(),
        ensures
            self.live(self.tile_list(pos)[k]),
            self.obj(self.tile_list(pos)[k]).pos == Some(pos),
    {
        let w = self.spec_grid().spec_width();
        let hh = self.spec_grid().spec_height();
        lemma_tile_index_bounds(w, hh, pos.point);
        let t = self.tile_index(pos.point);
        assert(self.list_ok(pos.elevation as int, t));
        let h = self.tile_list(pos)[k];
        assert(self.placed_at(h, pos.elevation as int, t));
        let p = self.obj(h).pos.unwrap();
        lemma_tile_index_inj(w, p.point, pos.point);
    }

    /// Each tile list is sorted by the draw-order comparator.
    pub proof fn lemma_tile_list_sorted(self, pos: EPoint, k1: int, k2: int)
        requires
            self.inv(),
            self.pos_in_grid(pos),
            0 <= k1 < k2 < self.tile_list(pos).len(),
        ensures
            key_le(
                self.spec_frm_db(),
                self.obj(self.tile_list(pos)[k1]),
                self.obj(self.tile_list(pos)[k2]),
            ),
    {
        let w = self.spec_grid().spec_width();
        let hh = self.spec_grid().spec_height();
        lemma_tile_index_bounds(w, hh, pos.point);
        assert(self.list_ok(pos.elevation as int, self.tile_index(pos.point)));
    }

    /// A tile list never repeats a handle: every placed object stands in
    /// its tile's list exactly once.
    pub proof fn lemma_tile_list_distinct(self, pos: EPoint, k1: int, k2: int)
        requires
            self.inv(),
            self.pos_in_grid(pos),
            0 <= k1 < k2 < self.tile_list(pos).len(),
        ensures
            self.tile_list(pos)[k1] != self.tile_list(pos)[k2],
    {
        let w = self.spec_grid().spec_width();
        let hh = self.spec_grid().spec_height();
        lemma_tile_index_bounds(w, hh, pos.point);
        assert(self.list_ok(pos.elevation as int, self.tile_index(pos.point)));
    }

    /// The detached list never repeats a handle.
    pub proof fn lemma_detached_distinct(self, k1: int, k2: int)
        requires
            self.inv(),
            0 <= k1 < k2 < self.detached_list().len(),
        ensures
            self.detached_list()[k1] != self.detached_list()[k2],
    {
        assert(self.detached_ok());
    }

    /// Every stored object is indexed: a placed object stands in the
    /// list of its tile, a detached object in the detached list.
    pub proof fn lemma_live_is_listed(self, h: Handle)
        requires
            self.inv(),
            self.live(h),
        ensures
            match self.obj(h).pos {
                Some(p) => self.tile_list(p).contains(h),
                None => self.detached_list().contains(h),
            },
    {
    }

    /// Members of the detached list are live and detached; no tile list
    /// holds a detached handle.
    pub proof fn lemma_detached_members(self, k: int)
        requires
            self.inv(),
            0 <= k < self.detached_list().len(),
        ensures
            self.live(self.detached_list()[k]),
            self.obj(self.detached_list()[k]).pos is None,
            forall|pos: EPoint|
                self.pos_in_grid(pos) ==> !(#[trigger] self.tile_list(pos)).contains(
                    self.detached_list()[k],
                ),
    {
        let h = self.detached_list()[k];
        assert forall|pos: EPoint| self.pos_in_grid(pos) implies !(#[trigger] self.tile_list(
            pos,
        )).contains(h) by {
            if self.tile_list(pos).contains(h) {
                let i = choose|i: int|
                    0 <= i < self.tile_list(pos).len() && self.tile_list(pos)[i] == h;
                self.lemma_tile_list_members(pos, i);
            }
        }
    }

    /// A fresh, empty container over the given grid, elevations and
    /// databases.
    pub fn new(tile_grid: TileGrid, elevation_count: u32, proto_db: ProtoDb, frm_db: FrameDb) -> (r:
        Objects)
        requires
            tile_grid.wf(),
            frm_db.wf(),
        ensures
            r.inv(),
            r.spec_grid() == tile_grid,
            r.spec_elevations() == elevation_count,
            r.spec_frm_db() == frm_db,
            r.spec_proto_db() == proto_db,
            forall|h: Handle| !r.live(h),
            r.detached_list().len() == 0,
            forall|pos: EPoint| r.pos_in_grid(pos) ==> (#[trigger] r.tile_list(pos)).len() == 0,
    {
        let w = tile_grid.width();
        let hgt = tile_grid.height();
        proof {
            assert(w * hgt <= 0x8000 * 0x8000) by (nonlinear_arith)
                requires
                    0 < w <= 0x8000,
                    0 < hgt <= 0x8000,
            ;
        }
        let tiles: usize = (w as usize) * (hgt as usize);
        let mut by_pos: Vec<Vec<Vec<Handle>>> = Vec::new();
        let mut e: u32 = 0;
        while e < elevation_count
            invariant
                e <= elevation_count,
                by_pos@.len() == e,
                tiles == tile_grid.spec_width() * tile_grid.spec_height(),
                forall|i: int|
                    0 <= i < e ==> (#[trigger] by_pos@[i])@.len() == tile_grid.spec_width()
                        * tile_grid.spec_height(),
                forall|i: int, t: int|
                    0 <= i < e && 0 <= t < by_pos@[i]@.len() ==> (#[trigger] by_pos@[i]@[t])@.len()
                        == 0,
            decreases elevation_count - e,
        {
            let mut grid: Vec<Vec<Handle>> = Vec::new();
            let mut t: usize = 0;
            while t < tiles
                invariant
                    t <= tiles,
                    grid@.len() == t,
                    forall|i: int| 0 <= i < t ==> (#[trigger] grid@[i])@.len() == 0,
                decreases tiles - t,
            {
                grid.push(Vec::new());
                t = t + 1;
            }
            by_pos.push(grid);
            e = e + 1;
        }
        let r = Objects {
            tile_grid,
            proto_db,
            frm_db,
            slots: Vec::new(),
            free: Vec::new(),
            next_generation: 0,
            by_pos,
            detached: Vec::new(),
        };
        proof {
            let w = tile_grid.spec_width();
            let hh = tile_grid.spec_height();
            assert forall|ee: int, t: int| 0 <= ee < r.spec_elevations() && 0 <= t < w * hh
                implies #[trigger] r.list_ok(ee, t) by {
                assert(r.list_at(ee, t).len() == 0);
            }
            assert forall|pos: EPoint| r.pos_in_grid(pos) implies (#[trigger] r.tile_list(
                pos,
            )).len() == 0 by {
                lemma_tile_index_bounds(w, hh, pos.point);
                assert(r.list_at(pos.elevation as int, r.tile_index(pos.point)).len() == 0);
            }
        }
        r
    }

    /// How many elevations the container indexes.
    pub fn elevation_count(&self) -> (r: u32)
        requires
            self.inv(),
        ensures
            r == self.spec_elevations(),
    {
        self.by_pos.len() as u32
    }

    /// Whether `h` names a stored object. Never fails.
    pub fn contains(&self, h: Handle) -> (r: bool)
        ensures
            r == self.live(h),
    {
        h.index < self.slots.len() && self.slots[h.index].generation == h.generation
            && self.slots[h.index].obj.is_some()
    }

    /// The object stored under `h`.
    pub fn get(&self, h: Handle) -> (r: &Object)
        requires
            self.live(h),
        ensures
            *r == self.obj(h),
    {
        match &self.slots[h.index].obj {
            Some(o) => o,
            None => {
                proof {
                    assert(false);
                }
                vstd::pervasive::unreached()
            },
        }
    }

    /// The draw-ordered list of objects placed at `pos`.
    pub fn at(&self, pos: EPoint) -> (r: &Vec<Handle>)
        requires
            self.inv(),
            self.pos_in_grid(pos),
        ensures
            r@ == self.tile_list(pos),
    {
        proof {
            lemma_tile_index_bounds(
                self.spec_grid().spec_width(),
                self.spec_grid().spec_height(),
                pos.point,
            );
            assert(self.spec_grid().spec_width() * self.spec_grid().spec_height()
                <= 0x8000 * 0x8000) by (nonlinear_arith)
                requires
                    0 < self.spec_grid().spec_width() <= 0x8000,
                    0 < self.spec_grid().spec_height() <= 0x8000,
            ;
        }
        let t: usize = (pos.point.y as usize) * (self.tile_grid.width() as usize) + (
        pos.point.x as usize);
        &self.by_pos[pos.elevation as usize][t]
    }

    /// The draw-order key of a stored object, as exact integers.
    fn key_of(&self, o: &Object) -> (r: (i64, i64, i64))
        requires
            self.spec_frm_db().wf(),
            frame_resolved(self.spec_frm_db(), *o),
            shift_ok(*o),
        ensures
            r.0 == spec_key_flat(*o),
            r.1 == spec_key_y(self.spec_frm_db(), *o),
            r.2 == spec_key_x(self.spec_frm_db(), *o),
    {
        let frm = match self.frm_db.frame(o.fid, o.direction, o.frame_idx) {
            Some(f) => f,
            None => {
                proof {
                    assert(false);
                }
                vstd::pervasive::unreached()
            },
        };
        let flat: i64 = if o.flags.contains(Flag::Flat) {
            0
        } else {
            1
        };
        (
            flat,
            o.screen_shift.y as i64 + frm.shift.y as i64,
            o.screen_shift.x as i64 + frm.shift.x as i64,
        )
    }
}

impl Objects {
    /// `new_l` is `old_l` with one occurrence of `h` removed.
    pub open spec fn removed_one(old_l: Seq<Handle>, new_l: Seq<Handle>, h: Handle) -> bool {
        exists|i: int| 0 <= i < old_l.len() && old_l[i] == h && new_l == old_l.remove(i)
    }

    /// `new_l` is `old_l` with `h` inserted at its stable draw-order
    /// position: after every entry it does not precede, before every
    /// entry it strictly precedes.
    pub closed spec fn sorted_insert_of(
        self,
        old_l: Seq<Handle>,
        new_l: Seq<Handle>,
        h: Handle,
    ) -> bool {
        exists|i: int|
            {
                &&& 0 <= i <= old_l.len()
                &&& new_l == old_l.insert(i, h)
                &&& forall|j: int|
                    0 <= j < i ==> key_le(
                        self.spec_frm_db(),
                        self.obj(#[trigger] old_l[j]),
                        self.obj(h),
                    )
                &&& forall|j: int|
                    i <= j < old_l.len() ==> key_lt(
                        self.spec_frm_db(),
                        self.obj(h),
                        self.obj(#[trigger] old_l[j]),
                    )
            }
    }

    /// The container with everything but the indexed lists equal.
    spec fn same_core(self, other: Objects) -> bool {
        &&& self.tile_grid == other.tile_grid
        &&& self.proto_db == other.proto_db
        &&& self.frm_db == other.frm_db
        &&& self.spec_elevations() == other.spec_elevations()
    }

    /// Removes `h` from the list its position names (or from the
    /// detached list), clears its position, and returns the old one.
    fn remove_from_tile_grid(&mut self, h: Handle) -> (r: Option<EPoint>)
        requires
            old(self).inv(),
            old(self).live(h),
        ensures
            final(self).same_core(*old(self)),
            final(self).inv_core(),
            final(self).lists_ok(),
            final(self).complete_except(Some(h)),
            final(self).in_no_list(h),
            r == old(self).obj(h).pos,
            forall|g: Handle| final(self).live(g) == old(self).live(g),
            forall|g: Handle|
                g != h && old(self).live(g) ==> final(self).obj(g) == old(self).obj(g),
            final(self).live(h),
            final(self).obj(h) == (Object { pos: None, ..old(self).obj(h) }),
            match r {
                Some(p) => {
                    &&& Objects::removed_one(
                        old(self).tile_list(p),
                        final(self).tile_list(p),
                        h,
                    )
                    &&& forall|pos2: EPoint|
                        final(self).pos_in_grid(pos2) && pos2 != p
                            ==> #[trigger] final(self).tile_list(pos2) == old(self).tile_list(pos2)
                    &&& final(self).detached_list() == old(self).detached_list()
                },
                None => {
                    &&& Objects::removed_one(
                        old(self).detached_list(),
                        final(self).detached_list(),
                        h,
                    )
                    &&& forall|pos2: EPoint|
                        final(self).pos_in_grid(pos2)
                            ==> #[trigger] final(self).tile_list(pos2) == old(self).tile_list(pos2)
                },
            },
    {
        let old_pos = self.get(h).pos;
        let ghost old_self = *self;
        // Clear the object's position.
        {
            let slot = &mut self.slots[h.index];
            match &mut slot.obj {
                Some(o) => {
                    o.pos = None;
                },
                None => {
                    proof {
                        assert(false);
                    }
                },
            }
        }
        proof {
            assert(self.slots@ =~= old_self.slots@.update(
                h.index as int,
                Slot {
                    generation: h.generation,
                    obj: Some(Object { pos: None, ..old_self.obj(h) }),
                },
            ));
            assert(self.live(h));
            assert(self.obj(h) == (Object { pos: None, ..old_self.obj(h) }));
            assert forall|g: Handle| self.live(g) == old_self.live(g) by {}
            assert forall|g: Handle| g != h && old_self.live(g) implies self.obj(g)
                == old_self.obj(g) by {
                if g.index == h.index {
                    assert(g.generation == old_self.slots@[g.index as int].generation);
                }
            }
        }
        match old_pos {
            Some(p) => {
                proof {
                    assert(old_self.obj_ok(old_self.obj(h)));
                    lemma_tile_index_bounds(
                        self.spec_grid().spec_width(),
                        self.spec_grid().spec_height(),
                        p.point,
                    );
                    assert(old_self.list_ok(p.elevation as int, old_self.tile_index(p.point)));
                    assert(old_self.tile_list(p).contains(h));
                    assert(self.spec_grid().spec_width() * self.spec_grid().spec_height()
                        <= 0x8000 * 0x8000) by (nonlinear_arith)
                        requires
                            0 < self.spec_grid().spec_width() <= 0x8000,
                            0 < self.spec_grid().spec_height() <= 0x8000,
                    ;
                }
                let e = p.elevation as usize;
                let t: usize = (p.point.y as usize) * (self.tile_grid.width() as usize) + (
                p.point.x as usize);
                let ghost ei = e as int;
                let ghost ti = t as int;
                let ghost l_old = self.list_at(ei, ti);
                proof {
                    assert(l_old == old_self.tile_list(p));
                    assert(l_old.contains(h));
                }
                let n = self.by_pos[e][t].len();
                let mut j: usize = 0;
                while j < n
                    invariant_except_break
                        j <= n,
                        ei == e as int,
                        ti == t as int,
                        0 <= ei < self.by_pos@.len(),
                        0 <= ti < self.by_pos@[ei]@.len(),
                        n == self.list_at(ei, ti).len(),
                        self.list_at(ei, ti) == l_old,
                        l_old.contains(h),
                        forall|k: int| 0 <= k < j ==> l_old[k] != h,
                    ensures
                        j < n,
                        l_old[j as int] == h,
                        forall|k: int| 0 <= k < j ==> l_old[k] != h,
                    decreases n - j,
                {
                    let g = self.by_pos[e][t][j];
                    if g == h {
                        break;
                    }
                    j = j + 1;
                    proof {
                        if j == n {
                            let w = choose|w: int| 0 <= w < l_old.len() && l_old[w] == h;
                            assert(false);
                        }
                    }
                }
                let ghost mid_self = *self;
                self.by_pos[e][t].remove(j);
                proof {
                    let l_new = self.list_at(ei, ti);
                    assert(l_new =~= l_old.remove(j as int));
                    assert forall|e2: int| 0 <= e2 < self.by_pos@.len() && e2 != ei implies
                        self.by_pos@[e2] == mid_self.by_pos@[e2] by {}
                    assert forall|t2: int|
                        0 <= t2 < self.by_pos@[ei]@.len() && t2 != ti implies self.by_pos@[ei]@[t2]
                        == mid_self.by_pos@[ei]@[t2] by {}
                    self.lemma_after_list_removal(old_self, mid_self, h, p, ei, ti, j as int, l_old);
                }
                old_pos
            },
            None => {
                let ghost d_old = self.detached@;
                proof {
                    assert(old_self.detached_ok());
                    assert(old_self.detached_list().contains(h));
                }
                let n = self.detached.len();
                let mut j: usize = 0;
                while j < n
                    invariant_except_break
                        j <= n,
                        n == self.detached@.len(),
                        self.detached@ == d_old,
                        d_old.contains(h),
                        forall|k: int| 0 <= k < j ==> d_old[k] != h,
                    ensures
                        j < n,
                        d_old[j as int] == h,
                        forall|k: int| 0 <= k < j ==> d_old[k] != h,
                    decreases n - j,
                {
                    let g = self.detached[j];
                    if g == h {
                        break;
                    }
                    j = j + 1;
                    proof {
                        if j == n {
                            let w = choose|w: int| 0 <= w < d_old.len() && d_old[w] == h;
                            assert(false);
                        }
                    }
                }
                let ghost mid_self = *self;
                self.detached.remove(j);
                proof {
                    self.lemma_after_detached_removal(old_self, mid_self, h, j as int, d_old);
                }
                old_pos
            },
        }
    }

    /// Puts `h`, already live and in no list, into the list for `pos`
    /// (at its stable draw-order position) or into the detached list.
    fn insert_into_tile_grid(&mut self, h: Handle, pos: Option<EPoint>, reset_screen_shift: bool)
        requires
            old(self).inv_core(),
            old(self).lists_ok(),
            old(self).complete_except(Some(h)),
            old(self).in_no_list(h),
            old(self).live(h),
            pos matches Some(p) ==> old(self).pos_in_grid(p),
            pos is None ==> old(self).obj(h).pos is None,
            frame_resolved(old(self).spec_frm_db(), old(self).obj(h)),
            shift_ok(old(self).obj(h)),
            screen_pos_ok(old(self).obj(h)),
            sub_coherent(old(self).obj(h)),
        ensures
            final(self).inv(),
            final(self).same_core(*old(self)),
            forall|g: Handle| final(self).live(g) == old(self).live(g),
            forall|g: Handle|
                g != h && old(self).live(g) ==> final(self).obj(g) == old(self).obj(g),
            final(self).live(h),
            match pos {
                Some(p) => {
                    &&& final(self).obj(h) == (Object {
                        pos: Some(p),
                        screen_shift: if reset_screen_shift {
                            Point { x: 0, y: 0 }
                        } else {
                            old(self).obj(h).screen_shift
                        },
                        ..old(self).obj(h)
                    })
                    &&& final(self).sorted_insert_of(
                        old(self).tile_list(p),
                        final(self).tile_list(p),
                        h,
                    )
                    &&& forall|pos2: EPoint|
                        final(self).pos_in_grid(pos2) && pos2 != p
                            ==> #[trigger] final(self).tile_list(pos2) == old(self).tile_list(pos2)
                    &&& final(self).detached_list() == old(self).detached_list()
                },
                None => {
                    &&& final(self).obj(h) == old(self).obj(h)
                    &&& final(self).detached_list() == old(self).detached_list().push(h)
                    &&& forall|pos2: EPoint|
                        final(self).pos_in_grid(pos2)
                            ==> #[trigger] final(self).tile_list(pos2) == old(self).tile_list(pos2)
                },
            },
    {
        let ghost old_self = *self;
        match pos {
            Some(p) => {
                // Update the object's position and, if asked, reset its
                // screen shift.
                {
                    let slot = &mut self.slots[h.index];
                    match &mut slot.obj {
                        Some(o) => {
                            o.pos = Some(p);
                            if reset_screen_shift {
                                o.screen_shift = Point::new(0, 0);
                            }
                        },
                        None => {
                            proof {
                                assert(false);
                            }
                        },
                    }
                }
                let ghost new_obj = Object {
                    pos: Some(p),
                    screen_shift: if reset_screen_shift {
                        Point { x: 0, y: 0 }
                    } else {
                        old_self.obj(h).screen_shift
                    },
                    ..old_self.obj(h)
                };
                proof {
                    assert(self.slots@ =~= old_self.slots@.update(
                        h.index as int,
                        Slot { generation: h.generation, obj: Some(new_obj) },
                    ));
                    assert(self.obj(h) == new_obj);
                    lemma_tile_index_bounds(
                        self.spec_grid().spec_width(),
                        self.spec_grid().spec_height(),
                        p.point,
                    );
                    assert(self.spec_grid().spec_width() * self.spec_grid().spec_height()
                        <= 0x8000 * 0x8000) by (nonlinear_arith)
                        requires
                            0 < self.spec_grid().spec_width() <= 0x8000,
                            0 < self.spec_grid().spec_height() <= 0x8000,
                    ;
                }
                let ghost mid_self = *self;
                let e = p.elevation as usize;
                let t: usize = (p.point.y as usize) * (self.tile_grid.width() as usize) + (
                p.point.x as usize);
                let ghost ei = e as int;
                let ghost ti = t as int;
                let ghost l_old = self.list_at(ei, ti);
                proof {
                    assert(l_old == old_self.tile_list(p));
                    assert(old_self.list_ok(ei, ti));
                    assert forall|k: int| 0 <= k < l_old.len() implies l_old[k] != h
                        && mid_self.live(#[trigger] l_old[k]) && mid_self.obj(l_old[k])
                        == old_self.obj(l_old[k]) && old_self.obj_ok(old_self.obj(l_old[k])) by {
                        assert(old_self.placed_at(l_old[k], ei, ti));
                        assert(!old_self.list_at(ei, ti).contains(h));
                        assert(l_old[k] == old_self.list_at(ei, ti)[k]);
                        if l_old[k].index == h.index {
                            assert(l_old[k].generation
                                == old_self.slots@[h.index as int].generation);
                        }
                    }
                }
                let key_h = {
                    let o = self.get(h);
                    self.key_of(o)
                };
                let n = self.by_pos[e][t].len();
                let mut i: usize = 0;
                while i < n
                    invariant_except_break
                        i <= n,
                        ei == e as int,
                        ti == t as int,
                        0 <= ei < self.by_pos@.len(),
                        0 <= ti < self.by_pos@[ei]@.len(),
                        n == self.list_at(ei, ti).len(),
                        *self == mid_self,
                        self.spec_frm_db().wf(),
                        self.list_at(ei, ti) == l_old,
                        key_h.0 == spec_key_flat(self.obj(h)),
                        key_h.1 == spec_key_y(self.spec_frm_db(), self.obj(h)),
                        key_h.2 == spec_key_x(self.spec_frm_db(), self.obj(h)),
                        forall|k: int|
                            0 <= k < l_old.len() ==> self.live(#[trigger] l_old[k])
                                && frame_resolved(self.spec_frm_db(), self.obj(l_old[k]))
                                && shift_ok(self.obj(l_old[k])),
                        forall|j: int|
                            0 <= j < i ==> key_le(
                                self.spec_frm_db(),
                                self.obj(#[trigger] l_old[j]),
                                self.obj(h),
                            ),
                    ensures
                        *self == mid_self,
                        i <= n,
                        n == self.list_at(ei, ti).len(),
                        forall|j: int|
                            0 <= j < i ==> key_le(
                                self.spec_frm_db(),
                                self.obj(#[trigger] l_old[j]),
                                self.obj(h),
                            ),
                        i < n ==> key_lt(self.spec_frm_db(), self.obj(h), self.obj(l_old[i as int])),
                    decreases n - i,
                {
                    let g = self.by_pos[e][t][i];
                    let key_g = {
                        let og = self.get(g);
                        self.key_of(og)
                    };
                    let lt = key_h.0 < key_g.0 || (key_h.0 == key_g.0 && (key_h.1 < key_g.1 || (
                    key_h.1 == key_g.1 && key_h.2 < key_g.2)));
                    proof {
                        assert(g == l_old[i as int]);
                        assert(lt == key_lt(self.spec_frm_db(), self.obj(h), self.obj(g)));
                    }
                    if lt {
                        break;
                    }
                    i = i + 1;
                }
                self.by_pos[e][t].insert(i, h);
                proof {
                    assert(self.list_at(ei, ti) =~= l_old.insert(i as int, h));
                    assert forall|e2: int| 0 <= e2 < self.by_pos@.len() && e2 != ei implies
                        self.by_pos@[e2] == mid_self.by_pos@[e2] by {}
                    assert forall|t2: int|
                        0 <= t2 < self.by_pos@[ei]@.len() && t2 != ti implies self.by_pos@[ei]@[t2]
                        == mid_self.by_pos@[ei]@[t2] by {}
                    self.lemma_after_list_insertion(
                        old_self,
                        mid_self,
                        h,
                        p,
                        ei,
                        ti,
                        i as int,
                        l_old,
                        new_obj,
                    );
                }
            },
            None => {
                self.detached.push(h);
                proof {
                    let w = self.spec_grid().spec_width();
                    let hh = self.spec_grid().spec_height();
                    assert(self.detached@ =~= old_self.detached@.push(h));
                    assert forall|e2: int, t2: int|
                        0 <= e2 < self.spec_elevations() && 0 <= t2 < w * hh
                            implies #[trigger] self.list_ok(e2, t2) by {
                        assert(old_self.list_ok(e2, t2));
                        assert(self.list_at(e2, t2) == old_self.list_at(e2, t2));
                    }
                    assert forall|k: int| 0 <= k < self.detached@.len() implies self.live(
                        #[trigger] self.detached@[k],
                    ) && self.obj(self.detached@[k]).pos is None by {
                        assert(old_self.detached_ok());
                        if k < old_self.detached@.len() {
                            assert(self.detached@[k] == old_self.detached@[k]);
                        } else {
                            assert(self.detached@[k] == h);
                        }
                    }
                    assert forall|k1: int, k2: int|
                        0 <= k1 < k2 < self.detached@.len() implies #[trigger] self.detached@[k1]
                        != #[trigger] self.detached@[k2] by {
                        assert(old_self.detached_ok());
                        if k2 == old_self.detached@.len() {
                            assert(self.detached@[k2] == h);
                            assert(self.detached@[k1] == old_self.detached@[k1]);
                            assert(!old_self.detached_list().contains(h));
                        }
                    }
                    assert forall|g: Handle| #[trigger] self.live(g) implies self.obj_ok(
                        self.obj(g),
                    ) by {
                        assert(old_self.live(g));
                        assert(old_self.obj_ok(old_self.obj(g)));
                    }
                    assert forall|g: Handle| #[trigger] self.live(g) implies match self.obj(g).pos {
                        Some(p2) => self.tile_list(p2).contains(g),
                        None => self.detached_list().contains(g),
                    } by {
                        if g == h {
                            assert(self.detached@[old_self.detached@.len() as int] == h);
                        } else {
                            assert(old_self.live(g));
                            match old_self.obj(g).pos {
                                Some(p2) => {
                                    lemma_tile_index_bounds(w, hh, p2.point);
                                    assert(old_self.tile_list(p2).contains(g));
                                    assert(self.tile_list(p2) == old_self.tile_list(p2));
                                },
                                None => {
                                    assert(old_self.detached_list().contains(g));
                                    let k = choose|k: int|
                                        0 <= k < old_self.detached@.len() && old_self.detached@[k]
                                            == g;
                                    assert(self.detached@[k] == g);
                                },
                            }
                        }
                    }
                }
            },
        }
    }

    /// Generation counter headroom: a fresh handle can still be issued.
    pub closed spec fn can_allocate(self) -> bool {
        self.next_generation < 0xffff_ffff_ffff_ffff
    }

    /// Stores `obj` under a fresh handle and indexes it: into the sorted
    /// list of its position's tile, or into the detached list. A placed
    /// object's screen shift is reset.
    pub fn insert(&mut self, obj: Object) -> (h: Handle)
        requires
            old(self).inv(),
            old(self).obj_ok(obj),
            old(self).can_allocate(),
        ensures
            final(self).inv(),
            final(self).spec_grid() == old(self).spec_grid(),
            final(self).spec_elevations() == old(self).spec_elevations(),
            final(self).spec_frm_db() == old(self).spec_frm_db(),
            final(self).spec_proto_db() == old(self).spec_proto_db(),
            !old(self).live(h),
            final(self).live(h),
            forall|g: Handle| g != h ==> final(self).live(g) == old(self).live(g),
            forall|g: Handle|
                g != h && old(self).live(g) ==> final(self).obj(g) == old(self).obj(g),
            final(self).obj(h) == (Object {
                screen_shift: if obj.pos is Some {
                    Point { x: 0, y: 0 }
                } else {
                    obj.screen_shift
                },
                ..obj
            }),
            match obj.pos {
                Some(p) => {
                    &&& final(self).tile_list(p).contains(h)
                    &&& final(self).sorted_insert_of(
                        old(self).tile_list(p),
                        final(self).tile_list(p),
                        h,
                    )
                    &&& forall|pos2: EPoint|
                        final(self).pos_in_grid(pos2) && pos2 != p
                            ==> #[trigger] final(self).tile_list(pos2) == old(self).tile_list(pos2)
                    &&& final(self).detached_list() == old(self).detached_list()
                },
                None => {
                    &&& final(self).detached_list() == old(self).detached_list().push(h)
                    &&& forall|pos2: EPoint|
                        final(self).pos_in_grid(pos2)
                            ==> #[trigger] final(self).tile_list(pos2) == old(self).tile_list(pos2)
                },
            },
    {
        let ghost old_self = *self;
        let pos = obj.pos;
        let gen = self.next_generation;
        self.next_generation = gen + 1;
        let idx: usize;
        if self.free.len() > 0 {
            let last = self.free.pop();
            idx = match last {
                Some(i) => i,
                None => {
                    proof {
                        assert(false);
                    }
                    vstd::pervasive::unreached()
                },
            };
            self.slots[idx] = Slot { generation: gen, obj: Some(obj) };
            proof {
                assert(idx == old_self.free@[old_self.free@.len() - 1]);
                assert(self.free@ == old_self.free@.drop_last());
                assert forall|i: int| 0 <= i < self.free@.len() implies (
                #[trigger] self.free@[i]) < self.slots@.len()
                    && self.slots@[self.free@[i] as int].obj is None by {
                    assert(old_self.free@[i] != idx);
                }
            }
        } else {
            idx = self.slots.len();
            self.slots.push(Slot { generation: gen, obj: Some(obj) });
        }
        let h = Handle { index: idx, generation: gen };
        proof {
            let w = self.spec_grid().spec_width();
            let hh = self.spec_grid().spec_height();
            assert(self.live(h));
            assert(self.obj(h) == obj);
            assert(!old_self.live(h));
            assert forall|g: Handle| g != h implies self.live(g) == old_self.live(g) by {
                if g.index == idx {
                    if old_self.live(g) {
                        assert(old_self.slots@[idx as int].obj is Some);
                    }
                    if self.live(g) {
                        assert(g.generation == gen);
                    }
                }
            }
            assert forall|g: Handle| g != h && old_self.live(g) implies self.obj(g)
                == old_self.obj(g) by {
                if g.index == idx {
                    assert(old_self.slots@[idx as int].obj is Some);
                    assert(false);
                }
            }
            // No list holds the fresh handle.
            assert forall|e2: int, t2: int|
                0 <= e2 < self.spec_elevations() && 0 <= t2 < w * hh
                    implies !(#[trigger] self.list_at(e2, t2)).contains(h) by {
                if self.list_at(e2, t2).contains(h) {
                    let k = choose|k: int|
                        0 <= k < self.list_at(e2, t2).len() && self.list_at(e2, t2)[k] == h;
                    assert(old_self.list_ok(e2, t2));
                    assert(old_self.placed_at(h, e2, t2));
                    assert(old_self.slots@[h.index as int].generation < gen);
                }
            }
            assert(!self.detached_list().contains(h)) by {
                if self.detached_list().contains(h) {
                    let k = choose|k: int|
                        0 <= k < self.detached@.len() && self.detached@[k] == h;
                    assert(old_self.detached_ok());
                    assert(old_self.slots@[h.index as int].generation < gen);
                }
            }
            // The per-list invariants still hold.
            assert forall|e2: int, t2: int|
                0 <= e2 < self.spec_elevations() && 0 <= t2 < w * hh
                    implies #[trigger] self.list_ok(e2, t2) by {
                assert(old_self.list_ok(e2, t2));
                assert(self.list_at(e2, t2) == old_self.list_at(e2, t2));
                assert forall|k: int| 0 <= k < self.list_at(e2, t2).len() implies self.placed_at(
                    #[trigger] self.list_at(e2, t2)[k],
                    e2,
                    t2,
                ) by {
                    let g = old_self.list_at(e2, t2)[k];
                    assert(old_self.placed_at(g, e2, t2));
                    assert(g != h);
                }
                assert forall|k1: int, k2: int|
                    0 <= k1 < k2 < self.list_at(e2, t2).len() implies key_le(
                    self.spec_frm_db(),
                    self.obj(#[trigger] self.list_at(e2, t2)[k1]),
                    self.obj(#[trigger] self.list_at(e2, t2)[k2]),
                ) by {
                    let g1 = old_self.list_at(e2, t2)[k1];
                    let g2 = old_self.list_at(e2, t2)[k2];
                    assert(old_self.placed_at(g1, e2, t2) && old_self.placed_at(g2, e2, t2));
                    assert(g1 != h && g2 != h);
                    assert(key_le(self.spec_frm_db(), old_self.obj(g1), old_self.obj(g2)));
                }
            }
            assert forall|k: int| 0 <= k < self.detached@.len() implies self.live(
                #[trigger] self.detached@[k],
            ) && self.obj(self.detached@[k]).pos is None by {
                assert(old_self.detached_ok());
                assert(self.detached@[k] != h);
            }
            assert forall|k1: int, k2: int|
                0 <= k1 < k2 < self.detached@.len() implies #[trigger] self.detached@[k1]
                != #[trigger] self.detached@[k2] by {
                assert(old_self.detached_ok());
            }
            assert forall|g: Handle| #[trigger] self.live(g) implies self.obj_ok(self.obj(g)) by {
                if g != h {
                    assert(old_self.live(g));
                    assert(old_self.obj_ok(old_self.obj(g)));
                }
            }
            assert forall|g: Handle| #[trigger] self.live(g) && Some(g) != Some(h) implies match self.obj(
                g,
            ).pos {
                Some(p2) => self.tile_list(p2).contains(g),
                None => self.detached_list().contains(g),
            } by {
                assert(old_self.live(g));
                match old_self.obj(g).pos {
                    Some(p2) => {
                        lemma_tile_index_bounds(w, hh, p2.point);
                        assert(old_self.tile_list(p2).contains(g));
                        assert(self.tile_list(p2) == old_self.tile_list(p2));
                    },
                    None => {},
                }
            }
        }
        self.insert_into_tile_grid(h, pos, true);
        proof {
            assert(self.live(h));
            match self.obj(h).pos {
                Some(p) => {
                    assert(self.tile_list(p).contains(h));
                },
                None => {
                    assert(self.detached_list().contains(h));
                },
            }
        }
        h
    }

    /// Destroys the object under `h`: removes it from its list, frees
    /// the slot for reuse under a later generation, invalidates `h`, and
    /// hands the no-longer-placed object back.
    pub fn remove(&mut self, h: Handle) -> (r: Object)
        requires
            old(self).inv(),
            old(self).live(h),
        ensures
            r == (Object { pos: None, ..old(self).obj(h) }),
            final(self).inv(),
            final(self).spec_grid() == old(self).spec_grid(),
            final(self).spec_elevations() == old(self).spec_elevations(),
            final(self).spec_frm_db() == old(self).spec_frm_db(),
            final(self).spec_proto_db() == old(self).spec_proto_db(),
            !final(self).live(h),
            forall|g: Handle| g != h ==> final(self).live(g) == old(self).live(g),
            forall|g: Handle|
                g != h && old(self).live(g) ==> final(self).obj(g) == old(self).obj(g),
            match old(self).obj(h).pos {
                Some(p) => {
                    &&& Objects::removed_one(
                        old(self).tile_list(p),
                        final(self).tile_list(p),
                        h,
                    )
                    &&& forall|pos2: EPoint|
                        final(self).pos_in_grid(pos2) && pos2 != p
                            ==> #[trigger] final(self).tile_list(pos2) == old(self).tile_list(pos2)
                    &&& final(self).detached_list() == old(self).detached_list()
                },
                None => {
                    &&& Objects::removed_one(
                        old(self).detached_list(),
                        final(self).detached_list(),
                        h,
                    )
                    &&& forall|pos2: EPoint|
                        final(self).pos_in_grid(pos2)
                            ==> #[trigger] final(self).tile_list(pos2) == old(self).tile_list(pos2)
                },
            },
    {
        let ghost pre_self = *old(self);
        let _ = self.remove_from_tile_grid(h);
        let ghost mid_self = *self;
        let taken = {
            let slot = &mut self.slots[h.index];
            slot.obj.take()
        };
        let r = match taken {
            Some(o) => o,
            None => {
                proof {
                    assert(false);
                }
                vstd::pervasive::unreached()
            },
        };
        self.free.push(h.index);
        proof {
            let w = self.spec_grid().spec_width();
            let hh = self.spec_grid().spec_height();
            assert(self.slots@ =~= mid_self.slots@.update(
                h.index as int,
                Slot { generation: h.generation, obj: None },
            ));
            assert(self.free@ == mid_self.free@.push(h.index));
            assert(!self.live(h));
            assert forall|g: Handle| g != h implies self.live(g) == mid_self.live(g) by {
                if g.index == h.index && mid_self.live(g) {
                    assert(g.generation == mid_self.slots@[g.index as int].generation);
                }
            }
            assert forall|g: Handle| g != h && mid_self.live(g) implies self.obj(g)
                == mid_self.obj(g) by {
                if g.index == h.index {
                    assert(g.generation == mid_self.slots@[g.index as int].generation);
                    assert(false);
                }
            }
            // Free list stays valid: the freed slot is empty and was not
            // in the free list while occupied.
            assert forall|i: int| 0 <= i < self.free@.len() implies (#[trigger] self.free@[i])
                < self.slots@.len() && self.slots@[self.free@[i] as int].obj is None by {
                if i < mid_self.free@.len() {
                    assert(mid_self.free@[i] != h.index);
                }
            }
            assert forall|i1: int, i2: int|
                0 <= i1 < i2 < self.free@.len() implies #[trigger] self.free@[i1]
                != #[trigger] self.free@[i2] by {
                if i2 == mid_self.free@.len() {
                    assert(self.free@[i2] == h.index);
                    assert(mid_self.free@[i1] != h.index) by {
                        assert(mid_self.slots@[mid_self.free@[i1] as int].obj is None);
                    }
                }
            }
            assert forall|e2: int, t2: int|
                0 <= e2 < self.spec_elevations() && 0 <= t2 < w * hh
                    implies #[trigger] self.list_ok(e2, t2) by {
                assert(mid_self.list_ok(e2, t2));
                assert(self.list_at(e2, t2) == mid_self.list_at(e2, t2));
                assert(!mid_self.list_at(e2, t2).contains(h));
                assert forall|k: int| 0 <= k < self.list_at(e2, t2).len() implies self.placed_at(
                    #[trigger] self.list_at(e2, t2)[k],
                    e2,
                    t2,
                ) by {
                    let g = mid_self.list_at(e2, t2)[k];
                    assert(mid_self.placed_at(g, e2, t2));
                    assert(g != h) by {
                        assert(mid_self.list_at(e2, t2)[k] == g);
                    }
                }
                assert forall|k1: int, k2: int|
                    0 <= k1 < k2 < self.list_at(e2, t2).len() implies key_le(
                    self.spec_frm_db(),
                    self.obj(#[trigger] self.list_at(e2, t2)[k1]),
                    self.obj(#[trigger] self.list_at(e2, t2)[k2]),
                ) by {
                    let g1 = mid_self.list_at(e2, t2)[k1];
                    let g2 = mid_self.list_at(e2, t2)[k2];
                    assert(mid_self.placed_at(g1, e2, t2) && mid_self.placed_at(g2, e2, t2));
                    assert(g1 != h && g2 != h);
                    assert(key_le(self.spec_frm_db(), mid_self.obj(g1), mid_self.obj(g2)));
                }
            }
            assert forall|k: int| 0 <= k < self.detached@.len() implies self.live(
                #[trigger] self.detached@[k],
            ) && self.obj(self.detached@[k]).pos is None by {
                assert(mid_self.detached_ok());
                assert(!mid_self.detached_list().contains(h));
                assert(self.detached@[k] != h) by {
                    assert(mid_self.detached@[k] == self.detached@[k]);
                }
            }
            assert forall|k1: int, k2: int|
                0 <= k1 < k2 < self.detached@.len() implies #[trigger] self.detached@[k1]
                != #[trigger] self.detached@[k2] by {
                assert(mid_self.detached_ok());
            }
            assert forall|g: Handle| #[trigger] self.live(g) implies self.obj_ok(self.obj(g)) by {
                assert(g != h);
                assert(mid_self.live(g));
                assert(mid_self.obj_ok(mid_self.obj(g)));
            }
            assert forall|g: Handle| #[trigger] self.live(g) implies match self.obj(g).pos {
                Some(p2) => self.tile_list(p2).contains(g),
                None => self.detached_list().contains(g),
            } by {
                assert(g != h);
                assert(mid_self.live(g));
                match mid_self.obj(g).pos {
                    Some(p2) => {
                        lemma_tile_index_bounds(w, hh, p2.point);
                        assert(mid_self.tile_list(p2).contains(g));
                        assert(self.tile_list(p2) == mid_self.tile_list(p2));
                    },
                    None => {},
                }
            }
            // The list changes reported by the removal carry over.
            assert forall|pos2: EPoint| self.pos_in_grid(pos2) implies #[trigger] self.tile_list(
                pos2,
            ) == mid_self.tile_list(pos2) by {}
            assert(self.detached_list() == mid_self.detached_list());
            match pre_self.obj(h).pos {
                Some(p) => {
                    let i = choose|i: int|
                        0 <= i < pre_self.tile_list(p).len() && pre_self.tile_list(p)[i] == h
                            && mid_self.tile_list(p) == pre_self.tile_list(p).remove(i);
                    assert(self.tile_list(p) == pre_self.tile_list(p).remove(i));
                },
                None => {
                    let i = choose|i: int|
                        0 <= i < pre_self.detached_list().len() && pre_self.detached_list()[i] == h
                            && mid_self.detached_list() == pre_self.detached_list().remove(i);
                    assert(self.detached_list() == pre_self.detached_list().remove(i));
                },
            }
        }
        r
    }

    /// Replaces the whole object stored under `h` and re-indexes it: the
    /// new value is removed from the old list and inserted where its
    /// position and draw-order key put it.
    pub fn update(&mut self, h: Handle, obj: Object)
        requires
            old(self).inv(),
            old(self).live(h),
            old(self).obj_ok(obj),
        ensures
            final(self).inv(),
            final(self).spec_grid() == old(self).spec_grid(),
            final(self).spec_elevations() == old(self).spec_elevations(),
            final(self).spec_frm_db() == old(self).spec_frm_db(),
            final(self).spec_proto_db() == old(self).spec_proto_db(),
            forall|g: Handle| final(self).live(g) == old(self).live(g),
            forall|g: Handle|
                g != h && old(self).live(g) ==> final(self).obj(g) == old(self).obj(g),
            final(self).live(h),
            final(self).obj(h) == obj,
            obj.pos matches Some(p) ==> final(self).tile_list(p).contains(h),
            obj.pos is None ==> final(self).detached_list().contains(h),
    {
        let new_pos = obj.pos;
        let ghost gobj = obj;
        let _ = self.remove_from_tile_grid(h);
        let ghost mid = *self;
        {
            let slot = &mut self.slots[h.index];
            slot.obj = Some(Object { pos: None, ..obj });
        }
        proof {
            let staged = Object { pos: None, ..gobj };
            assert(self.slots@ =~= mid.slots@.update(
                h.index as int,
                Slot { generation: h.generation, obj: Some(staged) },
            ));
            assert(frame_resolved(self.spec_frm_db(), staged));
            self.lemma_mid_update(mid, h, staged);
        }
        self.insert_into_tile_grid(h, new_pos, false);
        proof {
            assert(self.obj(h) == gobj);
            assert(self.live(h));
            match self.obj(h).pos {
                Some(p) => {
                    assert(self.tile_list(p).contains(h));
                },
                None => {
                    assert(self.detached_list().contains(h));
                },
            }
        }
    }

    /// Moves the object under `h` out of the world: removes it from its
    /// tile list (if placed) and appends it to the detached list, where
    /// it then stands exactly once.
    pub fn detach(&mut self, h: Handle)
        requires
            old(self).inv(),
            old(self).live(h),
        ensures
            final(self).inv(),
            final(self).spec_grid() == old(self).spec_grid(),
            final(self).spec_elevations() == old(self).spec_elevations(),
            final(self).spec_frm_db() == old(self).spec_frm_db(),
            final(self).spec_proto_db() == old(self).spec_proto_db(),
            forall|g: Handle| final(self).live(g) == old(self).live(g),
            forall|g: Handle|
                g != h && old(self).live(g) ==> final(self).obj(g) == old(self).obj(g),
            final(self).obj(h) == (Object { pos: None, ..old(self).obj(h) }),
            match old(self).obj(h).pos {
                Some(p) => {
                    &&& Objects::removed_one(
                        old(self).tile_list(p),
                        final(self).tile_list(p),
                        h,
                    )
                    &&& final(self).detached_list() == old(self).detached_list().push(h)
                    &&& forall|pos2: EPoint|
                        final(self).pos_in_grid(pos2) && pos2 != p
                            ==> #[trigger] final(self).tile_list(pos2) == old(self).tile_list(pos2)
                },
                None => {
                    &&& exists|i: int|
                        0 <= i < old(self).detached_list().len() && old(self).detached_list()[i]
                            == h && final(self).detached_list() == old(
                            self,
                        ).detached_list().remove(i).push(h)
                    &&& forall|pos2: EPoint|
                        final(self).pos_in_grid(pos2)
                            ==> #[trigger] final(self).tile_list(pos2) == old(self).tile_list(pos2)
                },
            },
    {
        let _ = self.remove_from_tile_grid(h);
        self.insert_into_tile_grid(h, None, false);
    }

    /// Places the object under `h` at `pos`: removes it from its old
    /// list, resets its screen shift, and inserts it at the stable
    /// draw-order position of the new tile's list.
    pub fn set_pos(&mut self, h: Handle, pos: EPoint)
        requires
            old(self).inv(),
            old(self).live(h),
            old(self).pos_in_grid(pos),
        ensures
            final(self).inv(),
            final(self).spec_grid() == old(self).spec_grid(),
            final(self).spec_elevations() == old(self).spec_elevations(),
            final(self).spec_frm_db() == old(self).spec_frm_db(),
            final(self).spec_proto_db() == old(self).spec_proto_db(),
            forall|g: Handle| final(self).live(g) == old(self).live(g),
            forall|g: Handle|
                g != h && old(self).live(g) ==> final(self).obj(g) == old(self).obj(g),
            final(self).obj(h) == (Object {
                pos: Some(pos),
                screen_shift: Point { x: 0, y: 0 },
                ..old(self).obj(h)
            }),
            final(self).tile_list(pos).contains(h),
            forall|pos2: EPoint|
                final(self).pos_in_grid(pos2) && pos2 != pos && Some(pos2) != old(self).obj(h).pos
                    ==> #[trigger] final(self).tile_list(pos2) == old(self).tile_list(pos2),
            old(self).obj(h).pos is None ==> Objects::removed_one(
                old(self).detached_list(),
                final(self).detached_list(),
                h,
            ),
            old(self).obj(h).pos is Some ==> final(self).detached_list() == old(
                self,
            ).detached_list(),
            match old(self).obj(h).pos {
                Some(p) => p != pos ==> Objects::removed_one(
                    old(self).tile_list(p),
                    final(self).tile_list(p),
                    h,
                ),
                None => true,
            },
    {
        let _ = self.remove_from_tile_grid(h);
        self.insert_into_tile_grid(h, Some(pos), true);
        proof {
            assert(self.live(h));
            assert(self.obj(h).pos == Some(pos));
            assert(self.tile_list(pos).contains(h));
        }
    }

    /// Updating the object of a handle that stands in no list keeps the
    /// mid-operation state: the lists still satisfy their invariants and
    /// everything else is still indexed.
    proof fn lemma_mid_update(self, mid: Objects, h: Handle, new_obj: Object)
        requires
            mid.inv_core(),
            mid.lists_ok(),
            mid.complete_except(Some(h)),
            mid.in_no_list(h),
            mid.live(h),
            self.same_core(mid),
            self.slots@ == mid.slots@.update(
                h.index as int,
                Slot { generation: h.generation, obj: Some(new_obj) },
            ),
            self.free@ == mid.free@,
            self.next_generation == mid.next_generation,
            self.by_pos@ == mid.by_pos@,
            self.detached@ == mid.detached@,
            frame_resolved(self.spec_frm_db(), new_obj),
            pos_coords_ok(new_obj),
            shift_ok(new_obj),
            screen_pos_ok(new_obj),
            (new_obj.pos matches Some(p) ==> self.pos_in_grid(p)),
            sub_coherent(new_obj),
            new_obj.pos == mid.obj(h).pos,
        ensures
            self.inv_core(),
            self.lists_ok(),
            self.complete_except(Some(h)),
            self.in_no_list(h),
            self.live(h),
            self.obj(h) == new_obj,
            forall|g: Handle| self.live(g) == mid.live(g),
            forall|g: Handle| g != h && mid.live(g) ==> self.obj(g) == mid.obj(g),
    {
        let w = self.spec_grid().spec_width();
        let hh = self.spec_grid().spec_height();
        assert forall|g: Handle| g != h && mid.live(g) implies self.obj(g) == mid.obj(g) by {
            if g.index == h.index {
                assert(g.generation == mid.slots@[g.index as int].generation);
            }
        }
        assert forall|e2: int, t2: int|
            0 <= e2 < self.spec_elevations() && 0 <= t2 < w * hh implies #[trigger] self.list_ok(
            e2,
            t2,
        ) by {
            assert(mid.list_ok(e2, t2));
            assert(self.list_at(e2, t2) == mid.list_at(e2, t2));
            assert(!mid.list_at(e2, t2).contains(h));
            assert forall|k: int| 0 <= k < self.list_at(e2, t2).len() implies self.placed_at(
                #[trigger] self.list_at(e2, t2)[k],
                e2,
                t2,
            ) by {
                let g = mid.list_at(e2, t2)[k];
                assert(mid.placed_at(g, e2, t2));
                assert(g != h) by {
                    assert(mid.list_at(e2, t2)[k] == g);
                }
            }
            assert forall|k1: int, k2: int|
                0 <= k1 < k2 < self.list_at(e2, t2).len() implies key_le(
                self.spec_frm_db(),
                self.obj(#[trigger] self.list_at(e2, t2)[k1]),
                self.obj(#[trigger] self.list_at(e2, t2)[k2]),
            ) by {
                let g1 = mid.list_at(e2, t2)[k1];
                let g2 = mid.list_at(e2, t2)[k2];
                assert(mid.placed_at(g1, e2, t2) && mid.placed_at(g2, e2, t2));
                assert(g1 != h && g2 != h) by {
                    assert(mid.list_at(e2, t2)[k1] == g1 && mid.list_at(e2, t2)[k2] == g2);
                }
                assert(key_le(self.spec_frm_db(), mid.obj(g1), mid.obj(g2)));
            }
        }
        assert forall|k: int| 0 <= k < self.detached@.len() implies self.live(
            #[trigger] self.detached@[k],
        ) && self.obj(self.detached@[k]).pos is None by {
            assert(mid.detached_ok());
            if mid.detached@[k] == h {
                assert(mid.detached_list().contains(h)) by {
                    assert(mid.detached_list()[k] == h);
                }
            }
            assert(self.detached@[k] != h);
        }
        assert forall|k1: int, k2: int|
            0 <= k1 < k2 < self.detached@.len() implies #[trigger] self.detached@[k1]
            != #[trigger] self.detached@[k2] by {
            assert(mid.detached_ok());
        }
        assert forall|g: Handle| #[trigger] self.live(g) implies self.obj_ok(self.obj(g)) by {
            assert(mid.live(g));
            if g != h {
                assert(mid.obj_ok(mid.obj(g)));
            }
        }
        assert forall|g: Handle| #[trigger] self.live(g) && Some(g) != Some(h) implies match self.obj(
            g,
        ).pos {
            Some(p2) => self.tile_list(p2).contains(g),
            None => self.detached_list().contains(g),
        } by {
            assert(mid.live(g));
            assert(self.obj(g) == mid.obj(g));
            match mid.obj(g).pos {
                Some(p2) => {
                    lemma_tile_index_bounds(w, hh, p2.point);
                    assert(mid.tile_list(p2).contains(g));
                    assert(self.tile_list(p2) == mid.tile_list(p2));
                },
                None => {},
            }
        }
        assert forall|e2: int, t2: int|
            0 <= e2 < self.spec_elevations() && 0 <= t2 < w * hh implies !(#[trigger] self.list_at(
            e2,
            t2,
        )).contains(h) by {
            assert(self.list_at(e2, t2) == mid.list_at(e2, t2));
        }
    }

    /// Sets the object's screen shift and re-inserts it at the draw
    /// order position the new shift gives it.
    pub fn set_screen_shift(&mut self, h: Handle, shift: Point)
        requires
            old(self).inv(),
            old(self).live(h),
            -crate::geom::PIXEL_MAX <= shift.x <= crate::geom::PIXEL_MAX,
            -crate::geom::PIXEL_MAX <= shift.y <= crate::geom::PIXEL_MAX,
        ensures
            final(self).inv(),
            final(self).spec_grid() == old(self).spec_grid(),
            final(self).spec_elevations() == old(self).spec_elevations(),
            final(self).spec_frm_db() == old(self).spec_frm_db(),
            final(self).spec_proto_db() == old(self).spec_proto_db(),
            forall|g: Handle| final(self).live(g) == old(self).live(g),
            forall|g: Handle|
                g != h && old(self).live(g) ==> final(self).obj(g) == old(self).obj(g),
            final(self).obj(h) == (Object { screen_shift: shift, ..old(self).obj(h) }),
            match old(self).obj(h).pos {
                Some(p) => {
                    &&& exists|i: int|
                        0 <= i < old(self).tile_list(p).len() && old(self).tile_list(p)[i] == h
                            && final(self).sorted_insert_of(
                            old(self).tile_list(p).remove(i),
                            final(self).tile_list(p),
                            h,
                        )
                    &&& forall|pos2: EPoint|
                        final(self).pos_in_grid(pos2) && pos2 != p
                            ==> #[trigger] final(self).tile_list(pos2) == old(self).tile_list(pos2)
                    &&& final(self).detached_list() == old(self).detached_list()
                },
                None => {
                    &&& exists|i: int|
                        0 <= i < old(self).detached_list().len() && old(self).detached_list()[i]
                            == h && final(self).detached_list() == old(
                            self,
                        ).detached_list().remove(i).push(h)
                    &&& forall|pos2: EPoint|
                        final(self).pos_in_grid(pos2)
                            ==> #[trigger] final(self).tile_list(pos2) == old(self).tile_list(pos2)
                },
            },
    {
        let pos = self.remove_from_tile_grid(h);
        let ghost mid = *self;
        {
            let slot = &mut self.slots[h.index];
            match &mut slot.obj {
                Some(o) => {
                    o.screen_shift = shift;
                },
                None => {
                    proof {
                        assert(false);
                    }
                },
            }
        }
        proof {
            assert(self.slots@ =~= mid.slots@.update(
                h.index as int,
                Slot {
                    generation: h.generation,
                    obj: Some(Object { screen_shift: shift, ..mid.obj(h) }),
                },
            ));
            assert(old(self).obj_ok(old(self).obj(h)));
            self.lemma_mid_update(mid, h, Object { screen_shift: shift, ..mid.obj(h) });
        }
        let ghost mid2 = *self;
        self.insert_into_tile_grid(h, pos, false);
        proof {
            match old(self).obj(h).pos {
                Some(p) => {
                    let i = choose|i: int|
                        0 <= i < old(self).tile_list(p).len() && old(self).tile_list(p)[i] == h
                            && mid.tile_list(p) == old(self).tile_list(p).remove(i);
                    assert(mid2.tile_list(p) == old(self).tile_list(p).remove(i));
                    assert(self.sorted_insert_of(
                        old(self).tile_list(p).remove(i),
                        self.tile_list(p),
                        h,
                    ));
                    assert forall|pos2: EPoint| self.pos_in_grid(pos2) && pos2 != p
                        implies #[trigger] self.tile_list(pos2) == old(self).tile_list(pos2) by {
                        assert(self.tile_list(pos2) == mid2.tile_list(pos2));
                        assert(mid2.tile_list(pos2) == mid.tile_list(pos2));
                    }
                },
                None => {
                    let i = choose|i: int|
                        0 <= i < old(self).detached_list().len() && old(self).detached_list()[i]
                            == h && mid.detached_list() == old(self).detached_list().remove(i);
                    assert(mid2.detached_list() == old(self).detached_list().remove(i));
                    assert(self.detached_list() == old(self).detached_list().remove(i).push(h));
                    assert forall|pos2: EPoint| self.pos_in_grid(pos2)
                        implies #[trigger] self.tile_list(pos2) == old(self).tile_list(pos2) by {
                        assert(self.tile_list(pos2) == mid2.tile_list(pos2));
                        assert(mid2.tile_list(pos2) == mid.tile_list(pos2));
                    }
                },
            }
        }
    }

    /// Adds to the object's screen shift, re-inserts it, and returns the
    /// new shift.
    pub fn add_screen_shift(&mut self, h: Handle, shift: Point) -> (r: Point)
        requires
            old(self).inv(),
            old(self).live(h),
            -crate::geom::PIXEL_MAX <= old(self).obj(h).screen_shift.x + shift.x
                <= crate::geom::PIXEL_MAX,
            -crate::geom::PIXEL_MAX <= old(self).obj(h).screen_shift.y + shift.y
                <= crate::geom::PIXEL_MAX,
        ensures
            r.x == old(self).obj(h).screen_shift.x + shift.x,
            r.y == old(self).obj(h).screen_shift.y + shift.y,
            final(self).inv(),
            final(self).spec_grid() == old(self).spec_grid(),
            final(self).spec_elevations() == old(self).spec_elevations(),
            final(self).spec_frm_db() == old(self).spec_frm_db(),
            final(self).spec_proto_db() == old(self).spec_proto_db(),
            forall|g: Handle| final(self).live(g) == old(self).live(g),
            forall|g: Handle|
                g != h && old(self).live(g) ==> final(self).obj(g) == old(self).obj(g),
            final(self).obj(h) == (Object { screen_shift: r, ..old(self).obj(h) }),
            final(self).inv(),
    {
        let old_shift = self.get(h).screen_shift;
        proof {
            assert(old(self).obj_ok(old(self).obj(h)));
        }
        let new_shift = Point { x: old_shift.x + shift.x, y: old_shift.y + shift.y };
        self.set_screen_shift(h, new_shift);
        new_shift
    }

    /// Resets the object's screen shift to zero and re-inserts it. A
    /// detached object only moves to the end of the detached list.
    pub fn reset_screen_shift(&mut self, h: Handle)
        requires
            old(self).inv(),
            old(self).live(h),
        ensures
            final(self).inv(),
            final(self).spec_grid() == old(self).spec_grid(),
            final(self).spec_elevations() == old(self).spec_elevations(),
            final(self).spec_frm_db() == old(self).spec_frm_db(),
            final(self).spec_proto_db() == old(self).spec_proto_db(),
            forall|g: Handle| final(self).live(g) == old(self).live(g),
            forall|g: Handle|
                g != h && old(self).live(g) ==> final(self).obj(g) == old(self).obj(g),
            old(self).obj(h).pos is Some ==> final(self).obj(h) == (Object {
                screen_shift: Point { x: 0, y: 0 },
                ..old(self).obj(h)
            }),
            old(self).obj(h).pos is None ==> final(self).obj(h) == old(self).obj(h),
    {
        let pos = self.remove_from_tile_grid(h);
        self.insert_into_tile_grid(h, pos, true);
    }

    /// After storing `h`'s new position and inserting it at index `i` of
    /// the list for its tile, the whole invariant holds again.
    proof fn lemma_after_list_insertion(
        self,
        old_self: Objects,
        mid_self: Objects,
        h: Handle,
        p: EPoint,
        ei: int,
        ti: int,
        i: int,
        l_old: Seq<Handle>,
        new_obj: Object,
    )
        requires
            old_self.inv_core(),
            old_self.lists_ok(),
            old_self.complete_except(Some(h)),
            old_self.in_no_list(h),
            old_self.live(h),
            old_self.pos_in_grid(p),
            frame_resolved(old_self.spec_frm_db(), old_self.obj(h)),
            shift_ok(old_self.obj(h)),
            screen_pos_ok(old_self.obj(h)),
            sub_coherent(old_self.obj(h)),
            ei == p.elevation as int,
            ti == old_self.tile_index(p.point),
            new_obj.pos == Some(p),
            new_obj.fid == old_self.obj(h).fid,
            new_obj.direction == old_self.obj(h).direction,
            new_obj.frame_idx == old_self.obj(h).frame_idx,
            new_obj.screen_pos == old_self.obj(h).screen_pos,
            new_obj.sub == old_self.obj(h).sub,
            shift_ok(new_obj),
            mid_self.same_core(old_self),
            mid_self.slots@ == old_self.slots@.update(
                h.index as int,
                Slot { generation: h.generation, obj: Some(new_obj) },
            ),
            mid_self.free@ == old_self.free@,
            mid_self.next_generation == old_self.next_generation,
            mid_self.by_pos@ == old_self.by_pos@,
            mid_self.detached@ == old_self.detached@,
            self.same_core(mid_self),
            self.slots@ == mid_self.slots@,
            self.free@ == mid_self.free@,
            self.next_generation == mid_self.next_generation,
            self.detached@ == mid_self.detached@,
            l_old == old_self.tile_list(p),
            0 <= i <= l_old.len(),
            self.list_at(ei, ti) == l_old.insert(i, h),
            forall|j: int|
                0 <= j < i ==> key_le(
                    self.spec_frm_db(),
                    self.obj(#[trigger] l_old[j]),
                    self.obj(h),
                ),
            i < l_old.len() ==> key_lt(self.spec_frm_db(), self.obj(h), self.obj(l_old[i])),
            forall|e2: int|
                0 <= e2 < self.by_pos@.len() && e2 != ei ==> #[trigger] self.by_pos@[e2]
                    == mid_self.by_pos@[e2],
            forall|t2: int|
                0 <= t2 < self.by_pos@[ei]@.len() && t2 != ti ==> #[trigger] self.by_pos@[ei]@[t2]
                    == mid_self.by_pos@[ei]@[t2],
            self.by_pos@.len() == mid_self.by_pos@.len(),
            self.by_pos@[ei]@.len() == mid_self.by_pos@[ei]@.len(),
        ensures
            self.inv(),
            forall|g: Handle| self.live(g) == old_self.live(g),
            forall|g: Handle| g != h && old_self.live(g) ==> self.obj(g) == old_self.obj(g),
            self.live(h),
            self.obj(h) == new_obj,
            self.sorted_insert_of(old_self.tile_list(p), self.tile_list(p), h),
            forall|pos2: EPoint|
                self.pos_in_grid(pos2) && pos2 != p ==> #[trigger] self.tile_list(pos2)
                    == old_self.tile_list(pos2),
            self.detached_list() == old_self.detached_list(),
    {
        let w = self.spec_grid().spec_width();
        let hh = self.spec_grid().spec_height();
        lemma_tile_index_bounds(w, hh, p.point);
        let db = self.spec_frm_db();
        assert forall|g: Handle| g != h && old_self.live(g) implies self.obj(g) == old_self.obj(
            g,
        ) by {
            if g.index == h.index {
                assert(g.generation == old_self.slots@[g.index as int].generation);
            }
        }
        // Old list entries are not h and keep their objects.
        assert forall|k: int| 0 <= k < l_old.len() implies l_old[k] != h && self.live(
            #[trigger] l_old[k],
        ) && self.obj(l_old[k]) == old_self.obj(l_old[k]) by {
            assert(old_self.list_ok(ei, ti));
            assert(old_self.placed_at(l_old[k], ei, ti));
            assert(!old_self.list_at(ei, ti).contains(h));
            assert(l_old[k] == old_self.list_at(ei, ti)[k]);
            if l_old[k].index == h.index {
                assert(l_old[k].generation == old_self.slots@[h.index as int].generation);
            }
        }
        let l_new = self.list_at(ei, ti);
        // The per-list invariants.
        assert forall|e2: int, t2: int|
            0 <= e2 < self.spec_elevations() && 0 <= t2 < w * hh implies #[trigger] self.list_ok(
            e2,
            t2,
        ) by {
            assert(old_self.list_ok(e2, t2));
            if e2 == ei && t2 == ti {
                assert forall|k: int| 0 <= k < l_new.len() implies self.placed_at(
                    #[trigger] l_new[k],
                    e2,
                    t2,
                ) by {
                    if k == i {
                        assert(l_new[k] == h);
                    } else {
                        let ko = if k < i {
                            k
                        } else {
                            k - 1
                        };
                        assert(l_new[k] == l_old[ko]);
                        assert(old_self.placed_at(l_old[ko], ei, ti));
                    }
                }
                assert forall|k1: int, k2: int| 0 <= k1 < k2 < l_new.len() implies l_new[k1]
                    != l_new[k2] by {
                    let ko1 = if k1 < i {
                        k1
                    } else {
                        k1 - 1
                    };
                    let ko2 = if k2 < i {
                        k2
                    } else {
                        k2 - 1
                    };
                    if k1 != i && k2 != i {
                        assert(l_new[k1] == l_old[ko1] && l_new[k2] == l_old[ko2]);
                        assert(old_self.list_at(ei, ti)[ko1] == l_old[ko1]);
                    }
                }
                assert forall|k1: int, k2: int| 0 <= k1 < k2 < l_new.len() implies key_le(
                    db,
                    self.obj(#[trigger] l_new[k1]),
                    self.obj(#[trigger] l_new[k2]),
                ) by {
                    let ko1 = if k1 < i {
                        k1
                    } else {
                        k1 - 1
                    };
                    let ko2 = if k2 < i {
                        k2
                    } else {
                        k2 - 1
                    };
                    if k1 == i {
                        assert(l_new[k1] == h && l_new[k2] == l_old[ko2]);
                        assert(key_lt(db, self.obj(h), self.obj(l_old[i])));
                        if ko2 > i {
                            assert(key_le(db, self.obj(l_old[i]), self.obj(l_old[ko2])));
                        }
                    } else if k2 == i {
                        assert(l_new[k1] == l_old[ko1] && l_new[k2] == h);
                        assert(key_le(db, self.obj(l_old[ko1]), self.obj(h)));
                    } else if k1 < i && k2 > i {
                        assert(l_new[k1] == l_old[ko1] && l_new[k2] == l_old[ko2]);
                        assert(key_le(db, self.obj(l_old[ko1]), self.obj(h)));
                        assert(key_lt(db, self.obj(h), self.obj(l_old[i])));
                        if ko2 == i {
                        } else {
                            assert(key_le(db, self.obj(l_old[i]), self.obj(l_old[ko2])));
                        }
                    } else {
                        assert(l_new[k1] == l_old[ko1] && l_new[k2] == l_old[ko2]);
                        assert(key_le(db, self.obj(l_old[ko1]), self.obj(l_old[ko2])));
                    }
                }
            } else {
                assert(self.list_at(e2, t2) == old_self.list_at(e2, t2));
                assert forall|k: int| 0 <= k < self.list_at(e2, t2).len() implies self.placed_at(
                    #[trigger] self.list_at(e2, t2)[k],
                    e2,
                    t2,
                ) by {
                    let g = old_self.list_at(e2, t2)[k];
                    assert(old_self.placed_at(g, e2, t2));
                    assert(!old_self.list_at(e2, t2).contains(h));
                    assert(g == old_self.list_at(e2, t2)[k]);
                    if g.index == h.index {
                        assert(g.generation == old_self.slots@[h.index as int].generation);
                    }
                }
                assert forall|k1: int, k2: int|
                    0 <= k1 < k2 < self.list_at(e2, t2).len() implies key_le(
                    db,
                    self.obj(#[trigger] self.list_at(e2, t2)[k1]),
                    self.obj(#[trigger] self.list_at(e2, t2)[k2]),
                ) by {
                    let g1 = old_self.list_at(e2, t2)[k1];
                    let g2 = old_self.list_at(e2, t2)[k2];
                    assert(old_self.placed_at(g1, e2, t2) && old_self.placed_at(g2, e2, t2));
                    assert(!old_self.list_at(e2, t2).contains(h));
                    assert(g1 == old_self.list_at(e2, t2)[k1] && g2 == old_self.list_at(
                        e2,
                        t2,
                    )[k2]);
                    assert(g1 != h && g2 != h);
                    assert(self.obj(g1) == old_self.obj(g1) && self.obj(g2) == old_self.obj(g2));
                    assert(key_le(db, old_self.obj(g1), old_self.obj(g2)));
                }
            }
        }
        // Detached entries unchanged.
        assert forall|k: int| 0 <= k < self.detached@.len() implies self.live(
            #[trigger] self.detached@[k],
        ) && self.obj(self.detached@[k]).pos is None by {
            assert(old_self.detached_ok());
            assert(!old_self.detached_list().contains(h));
            assert(self.detached@[k] == old_self.detached@[k]);
            assert(self.detached@[k] != h);
        }
        assert forall|k1: int, k2: int|
            0 <= k1 < k2 < self.detached@.len() implies #[trigger] self.detached@[k1]
            != #[trigger] self.detached@[k2] by {
            assert(old_self.detached_ok());
        }
        // Objects stay storable.
        assert forall|g: Handle| #[trigger] self.live(g) implies self.obj_ok(self.obj(g)) by {
            assert(old_self.live(g));
            assert(old_self.obj_ok(old_self.obj(g)));
            if g == h {
                assert(self.obj(g) == new_obj);
            }
        }
        // Completeness.
        assert forall|g: Handle| #[trigger] self.live(g) implies match self.obj(g).pos {
            Some(p2) => self.tile_list(p2).contains(g),
            None => self.detached_list().contains(g),
        } by {
            if g == h {
                assert(l_new[i] == h);
                assert(self.tile_list(p) == l_new);
            } else {
                assert(old_self.live(g));
                assert(self.obj(g) == old_self.obj(g));
                match old_self.obj(g).pos {
                    Some(p2) => {
                        lemma_tile_index_bounds(w, hh, p2.point);
                        assert(old_self.tile_list(p2).contains(g));
                        if p2.elevation as int == ei && old_self.tile_index(p2.point) == ti {
                            lemma_seq_insert_contains(l_old, i, h, g);
                            assert(self.tile_list(p2) == l_new);
                        } else {
                            assert(self.tile_list(p2) == old_self.tile_list(p2));
                        }
                    },
                    None => {
                        assert(old_self.detached_list().contains(g));
                    },
                }
            }
        }
        // The reported changes.
        assert(self.sorted_insert_of(old_self.tile_list(p), self.tile_list(p), h)) by {
            assert(self.tile_list(p) == l_old.insert(i, h));
            assert forall|j: int| 0 <= j < i implies key_le(
                db,
                self.obj(#[trigger] l_old[j]),
                self.obj(h),
            ) by {}
            assert forall|j: int| i <= j < l_old.len() implies key_lt(
                db,
                self.obj(h),
                self.obj(#[trigger] l_old[j]),
            ) by {
                assert(key_lt(db, self.obj(h), self.obj(l_old[i])));
                if j > i {
                    assert(old_self.list_ok(ei, ti));
                    assert(key_le(db, old_self.obj(l_old[i]), old_self.obj(l_old[j])));
                }
            }
        }
        assert forall|pos2: EPoint| self.pos_in_grid(pos2) && pos2 != p implies #[trigger] self.tile_list(
            pos2,
        ) == old_self.tile_list(pos2) by {
            lemma_tile_index_bounds(w, hh, pos2.point);
            if pos2.elevation as int == ei && self.tile_index(pos2.point) == ti {
                lemma_tile_index_inj(w, pos2.point, p.point);
            }
        }
    }

    /// After clearing `h`'s position and removing it from the tile list
    /// it stood in, the invariant parts hold again.
    proof fn lemma_after_list_removal(
        self,
        old_self: Objects,
        mid_self: Objects,
        h: Handle,
        p: EPoint,
        ei: int,
        ti: int,
        j: int,
        l_old: Seq<Handle>,
    )
        requires
            old_self.inv(),
            old_self.live(h),
            old_self.obj(h).pos == Some(p),
            old_self.pos_in_grid(p),
            ei == p.elevation as int,
            ti == old_self.tile_index(p.point),
            // mid_self: old_self with only h's position cleared
            mid_self.same_core(old_self),
            mid_self.slots@ == old_self.slots@.update(
                h.index as int,
                Slot {
                    generation: h.generation,
                    obj: Some(Object { pos: None, ..old_self.obj(h) }),
                },
            ),
            mid_self.free@ == old_self.free@,
            mid_self.next_generation == old_self.next_generation,
            mid_self.by_pos@ == old_self.by_pos@,
            mid_self.detached@ == old_self.detached@,
            // self: mid_self with index j removed from the list at (ei, ti)
            self.same_core(mid_self),
            self.slots@ == mid_self.slots@,
            self.free@ == mid_self.free@,
            self.next_generation == mid_self.next_generation,
            self.detached@ == mid_self.detached@,
            l_old == old_self.tile_list(p),
            0 <= j < l_old.len(),
            l_old[j] == h,
            self.list_at(ei, ti) == l_old.remove(j),
            forall|e2: int|
                0 <= e2 < self.by_pos@.len() && e2 != ei ==> #[trigger] self.by_pos@[e2]
                    == mid_self.by_pos@[e2],
            forall|t2: int|
                0 <= t2 < self.by_pos@[ei]@.len() && t2 != ti ==> #[trigger] self.by_pos@[ei]@[t2]
                    == mid_self.by_pos@[ei]@[t2],
            self.by_pos@.len() == mid_self.by_pos@.len(),
            self.by_pos@[ei]@.len() == mid_self.by_pos@[ei]@.len(),
        ensures
            self.inv_core(),
            self.lists_ok(),
            self.complete_except(Some(h)),
            self.in_no_list(h),
            forall|g: Handle| self.live(g) == old_self.live(g),
            forall|g: Handle| g != h && old_self.live(g) ==> self.obj(g) == old_self.obj(g),
            self.live(h),
            self.obj(h) == (Object { pos: None, ..old_self.obj(h) }),
            Objects::removed_one(old_self.tile_list(p), self.tile_list(p), h),
            forall|pos2: EPoint|
                self.pos_in_grid(pos2) && pos2 != p ==> #[trigger] self.tile_list(pos2)
                    == old_self.tile_list(pos2),
            self.detached_list() == old_self.detached_list(),
    {
        let w = self.spec_grid().spec_width();
        let hh = self.spec_grid().spec_height();
        lemma_tile_index_bounds(w, hh, p.point);
        assert forall|g: Handle| self.live(g) == old_self.live(g) by {}
        assert forall|g: Handle| g != h && old_self.live(g) implies self.obj(g) == old_self.obj(
            g,
        ) by {
            if g.index == h.index {
                assert(g.generation == old_self.slots@[g.index as int].generation);
            }
        }
        // h stands in no list but the one at (ei, ti).
        assert forall|e2: int, t2: int|
            0 <= e2 < self.spec_elevations() && 0 <= t2 < w * hh && !(e2 == ei && t2 == ti)
                implies !(#[trigger] old_self.list_at(e2, t2)).contains(h) by {
            if old_self.list_at(e2, t2).contains(h) {
                let k = choose|k: int|
                    0 <= k < old_self.list_at(e2, t2).len() && old_self.list_at(e2, t2)[k] == h;
                assert(old_self.list_ok(e2, t2));
                assert(old_self.placed_at(h, e2, t2));
            }
        }
        assert(!old_self.detached_list().contains(h)) by {
            if old_self.detached_list().contains(h) {
                let k = choose|k: int|
                    0 <= k < old_self.detached@.len() && old_self.detached@[k] == h;
                assert(old_self.detached_ok());
            }
        }
        // The per-list invariants.
        assert(old_self.list_ok(ei, ti));
        assert forall|k1: int, k2: int| 0 <= k1 < k2 < l_old.len() implies l_old[k1] != l_old[k2]
            by {
            assert(old_self.list_ok(ei, ti));
        }
        let l_new = self.list_at(ei, ti);
        assert forall|e2: int, t2: int|
            0 <= e2 < self.spec_elevations() && 0 <= t2 < w * hh implies #[trigger] self.list_ok(
            e2,
            t2,
        ) by {
            assert(old_self.list_ok(e2, t2));
            if e2 == ei && t2 == ti {
                assert forall|k: int| 0 <= k < l_new.len() implies self.placed_at(
                    #[trigger] l_new[k],
                    e2,
                    t2,
                ) by {
                    let ko = if k < j {
                        k
                    } else {
                        k + 1
                    };
                    assert(l_new[k] == l_old[ko]);
                    assert(old_self.placed_at(l_old[ko], ei, ti));
                    assert(l_old[ko] != h);
                }
            } else {
                assert(self.list_at(e2, t2) == old_self.list_at(e2, t2));
                assert forall|k: int| 0 <= k < self.list_at(e2, t2).len() implies self.placed_at(
                    #[trigger] self.list_at(e2, t2)[k],
                    e2,
                    t2,
                ) by {
                    assert(old_self.placed_at(old_self.list_at(e2, t2)[k], e2, t2));
                    assert(!old_self.list_at(e2, t2).contains(h)) by {
                        assert(old_self.list_at(e2, t2)[k] == old_self.list_at(e2, t2)[k]);
                    }
                    assert(self.list_at(e2, t2)[k] != h);
                }
            }
        }
        // Detached entries unchanged and not h.
        assert forall|k: int| 0 <= k < self.detached@.len() implies self.live(
            #[trigger] self.detached@[k],
        ) && self.obj(self.detached@[k]).pos is None by {
            assert(old_self.detached_ok());
            assert(self.detached@[k] != h);
        }
        // Objects stay storable.
        assert forall|g: Handle| #[trigger] self.live(g) implies self.obj_ok(self.obj(g)) by {
            assert(old_self.live(g));
            assert(old_self.obj_ok(old_self.obj(g)));
            if g == h {
                assert(self.obj(g) == (Object { pos: None, ..old_self.obj(g) }));
            }
        }
        // Completeness for everything but h.
        assert forall|g: Handle| #[trigger] self.live(g) && Some(g) != Some(h) implies match self.obj(
            g,
        ).pos {
            Some(p2) => self.tile_list(p2).contains(g),
            None => self.detached_list().contains(g),
        } by {
            assert(old_self.live(g));
            assert(self.obj(g) == old_self.obj(g));
            match old_self.obj(g).pos {
                Some(p2) => {
                    assert(old_self.tile_list(p2).contains(g));
                    lemma_tile_index_bounds(w, hh, p2.point);
                    if p2.elevation as int == ei && old_self.tile_index(p2.point) == ti {
                        lemma_seq_remove_contains(l_old, j, g);
                        assert(self.tile_list(p2) == l_new);
                    } else {
                        assert(self.tile_list(p2) == old_self.tile_list(p2));
                    }
                },
                None => {},
            }
        }
        // h is gone from every list.
        assert forall|e2: int, t2: int|
            0 <= e2 < self.spec_elevations() && 0 <= t2 < w * hh implies !(#[trigger] self.list_at(
            e2,
            t2,
        )).contains(h) by {
            if e2 == ei && t2 == ti {
                lemma_seq_remove_contains(l_old, j, h);
            } else {
                assert(self.list_at(e2, t2) == old_self.list_at(e2, t2));
            }
        }
        // The reported changes.
        assert(Objects::removed_one(old_self.tile_list(p), self.tile_list(p), h)) by {
            assert(self.tile_list(p) == l_old.remove(j));
        }
        assert forall|pos2: EPoint| self.pos_in_grid(pos2) && pos2 != p implies #[trigger] self.tile_list(
            pos2,
        ) == old_self.tile_list(pos2) by {
            lemma_tile_index_bounds(w, hh, pos2.point);
            if pos2.elevation as int == ei && self.tile_index(pos2.point) == ti {
                lemma_tile_index_inj(w, pos2.point, p.point);
            }
        }
    }

    /// After clearing `h`'s position (already `None`) and removing it
    /// from the detached list, the invariant parts hold again.
    proof fn lemma_after_detached_removal(
        self,
        old_self: Objects,
        mid_self: Objects,
        h: Handle,
        j: int,
        d_old: Seq<Handle>,
    )
        requires
            old_self.inv(),
            old_self.live(h),
            old_self.obj(h).pos is None,
            mid_self.same_core(old_self),
            mid_self.slots@ == old_self.slots@.update(
                h.index as int,
                Slot {
                    generation: h.generation,
                    obj: Some(Object { pos: None, ..old_self.obj(h) }),
                },
            ),
            mid_self.free@ == old_self.free@,
            mid_self.next_generation == old_self.next_generation,
            mid_self.by_pos@ == old_self.by_pos@,
            mid_self.detached@ == old_self.detached@,
            self.same_core(mid_self),
            self.slots@ == mid_self.slots@,
            self.free@ == mid_self.free@,
            self.next_generation == mid_self.next_generation,
            self.by_pos@ == mid_self.by_pos@,
            d_old == old_self.detached_list(),
            0 <= j < d_old.len(),
            d_old[j] == h,
            self.detached@ == d_old.remove(j),
        ensures
            self.inv_core(),
            self.lists_ok(),
            self.complete_except(Some(h)),
            self.in_no_list(h),
            forall|g: Handle| self.live(g) == old_self.live(g),
            forall|g: Handle| g != h && old_self.live(g) ==> self.obj(g) == old_self.obj(g),
            self.live(h),
            self.obj(h) == (Object { pos: None, ..old_self.obj(h) }),
            Objects::removed_one(old_self.detached_list(), self.detached_list(), h),
            forall|pos2: EPoint|
                self.pos_in_grid(pos2) ==> #[trigger] self.tile_list(pos2) == old_self.tile_list(
                    pos2,
                ),
    {
        let w = self.spec_grid().spec_width();
        let hh = self.spec_grid().spec_height();
        assert(old_self.obj(h).pos is None);
        assert(self.obj(h) == (Object { pos: None, ..old_self.obj(h) }) && old_self.obj(h) == (
        Object { pos: None, ..old_self.obj(h) }));
        assert forall|g: Handle| g != h && old_self.live(g) implies self.obj(g) == old_self.obj(
            g,
        ) by {
            if g.index == h.index {
                assert(g.generation == old_self.slots@[g.index as int].generation);
            }
        }
        // h stands in no tile list.
        assert forall|e2: int, t2: int|
            0 <= e2 < self.spec_elevations() && 0 <= t2 < w * hh implies !(#[trigger] old_self.list_at(
            e2,
            t2,
        )).contains(h) by {
            if old_self.list_at(e2, t2).contains(h) {
                let k = choose|k: int|
                    0 <= k < old_self.list_at(e2, t2).len() && old_self.list_at(e2, t2)[k] == h;
                assert(old_self.list_ok(e2, t2));
                assert(old_self.placed_at(h, e2, t2));
            }
        }
        assert(old_self.detached_ok());
        assert forall|e2: int, t2: int|
            0 <= e2 < self.spec_elevations() && 0 <= t2 < w * hh implies #[trigger] self.list_ok(
            e2,
            t2,
        ) by {
            assert(old_self.list_ok(e2, t2));
            assert(self.list_at(e2, t2) == old_self.list_at(e2, t2));
            assert forall|k: int| 0 <= k < self.list_at(e2, t2).len() implies self.placed_at(
                #[trigger] self.list_at(e2, t2)[k],
                e2,
                t2,
            ) by {
                assert(old_self.placed_at(old_self.list_at(e2, t2)[k], e2, t2));
                assert(self.list_at(e2, t2)[k] != h);
            }
        }
        assert forall|k: int| 0 <= k < self.detached@.len() implies self.live(
            #[trigger] self.detached@[k],
        ) && self.obj(self.detached@[k]).pos is None by {
            let ko = if k < j {
                k
            } else {
                k + 1
            };
            assert(self.detached@[k] == d_old[ko]);
            assert(d_old[ko] != h);
        }
        assert forall|g: Handle| #[trigger] self.live(g) implies self.obj_ok(self.obj(g)) by {
            assert(old_self.live(g));
            assert(old_self.obj_ok(old_self.obj(g)));
            if g == h {
                assert(self.obj(g) == old_self.obj(g));
            } else {
                assert(self.obj(g) == old_self.obj(g));
            }
        }
        assert forall|g: Handle| #[trigger] self.live(g) && Some(g) != Some(h) implies match self.obj(
            g,
        ).pos {
            Some(p2) => self.tile_list(p2).contains(g),
            None => self.detached_list().contains(g),
        } by {
            assert(old_self.live(g));
            assert(self.obj(g) == old_self.obj(g));
            match old_self.obj(g).pos {
                Some(p2) => {
                    lemma_tile_index_bounds(w, hh, p2.point);
                    assert(old_self.tile_list(p2).contains(g));
                    assert(self.tile_list(p2) == old_self.tile_list(p2));
                },
                None => {
                    lemma_seq_remove_contains(d_old, j, g);
                },
            }
        }
        assert forall|e2: int, t2: int|
            0 <= e2 < self.spec_elevations() && 0 <= t2 < w * hh implies !(#[trigger] self.list_at(
            e2,
            t2,
        )).contains(h) by {
            assert(self.list_at(e2, t2) == old_self.list_at(e2, t2));
        }
        lemma_seq_remove_contains(d_old, j, h);
        assert(!self.detached_list().contains(h));
        assert(Objects::removed_one(old_self.detached_list(), self.detached_list(), h));
    }
}

/// An entity kind that takes part in movement blocking.
pub open spec fn blocking_kind(k: crate::asset::EntityKind) -> bool {
    k == crate::asset::EntityKind::Critter || k == crate::asset::EntityKind::Scenery || k
        == crate::asset::EntityKind::Wall
}

impl Objects {
    /// `g` blocks movement for the object `obj`: another object of a
    /// blocking kind, neither turned off nor flagged no-block.
    pub open spec fn is_blocker(self, g: Handle, obj: Handle) -> bool {
        &&& g != obj
        &&& blocking_kind(self.obj(g).fid.spec_kind())
        &&& !self.obj(g).flags.has(Flag::TurnedOff)
        &&& !self.obj(g).flags.has(Flag::NoBlock)
    }

    /// Some occupant of `pos` blocks movement for `obj`.
    pub open spec fn tile_has_blocker(self, obj: Handle, pos: EPoint) -> bool {
        exists|k: int|
            0 <= k < self.tile_list(pos).len() && self.is_blocker(
                #[trigger] self.tile_list(pos)[k],
                obj,
            )
    }

    /// The neighbour tile one step in `d` holds a multi-hex object that
    /// blocks movement for `obj`.
    pub open spec fn neighbor_multihex_blocker(self, obj: Handle, pos: EPoint, d: Direction) -> bool {
        match self.spec_grid().spec_go(pos.point, d, 1) {
            Some(np) => {
                let l = self.tile_list(EPoint { elevation: pos.elevation, point: np });
                exists|k: int|
                    0 <= k < l.len() && self.obj(#[trigger] l[k]).flags.has(Flag::MultiHex)
                        && self.is_blocker(l[k], obj)
            },
            None => false,
        }
    }

    /// What `is_blocked_at` decides: a blocker on the tile itself, or a
    /// multi-hex blocker on one of its six neighbours.
    pub open spec fn spec_blocked_at(self, obj: Handle, pos: EPoint) -> bool {
        self.tile_has_blocker(obj, pos) || exists|d: Direction|
            self.neighbor_multihex_blocker(obj, pos, d)
    }

    /// Whether moving `obj` onto `pos` is blocked by another object.
    pub fn is_blocked_at(&self, obj: Handle, pos: EPoint) -> (r: bool)
        requires
            self.inv(),
            self.pos_in_grid(pos),
        ensures
            r == self.spec_blocked_at(obj, pos),
    {
        let n = self.at(pos).len();
        let mut k: usize = 0;
        while k < n
            invariant
                self.inv(),
                self.pos_in_grid(pos),
                k <= n,
                n == self.tile_list(pos).len(),
                forall|j: int|
                    0 <= j < k ==> !self.is_blocker(#[trigger] self.tile_list(pos)[j], obj),
            decreases n - k,
        {
            let g = self.at(pos)[k];
            proof {
                self.lemma_tile_list_members(pos, k as int);
            }
            if g != obj {
                let o = self.get(g);
                let kind = o.fid.kind();
                if (kind == crate::asset::EntityKind::Critter || kind
                    == crate::asset::EntityKind::Scenery || kind == crate::asset::EntityKind::Wall)
                    && !o.flags.contains(Flag::TurnedOff) && !o.flags.contains(Flag::NoBlock) {
                    proof {
                        assert(self.is_blocker(self.tile_list(pos)[k as int], obj));
                    }
                    return true;
                }
            }
            k = k + 1;
        }
        let dirs = Direction::all();
        let mut di: usize = 0;
        while di < 6
            invariant
                self.inv(),
                self.pos_in_grid(pos),
                di <= 6,
                dirs@ =~= seq![
                    Direction::NE,
                    Direction::E,
                    Direction::SE,
                    Direction::SW,
                    Direction::W,
                    Direction::NW,
                ],
                forall|j: int|
                    0 <= j < di ==> !self.neighbor_multihex_blocker(obj, pos, #[trigger] dirs@[j]),
                !self.tile_has_blocker(obj, pos),
            decreases 6 - di,
        {
            let d = dirs[di];
            match self.tile_grid.go(pos.point, d, 1) {
                Some(np) => {
                    let npos = np.elevated(pos.elevation);
                    let m = self.at(npos).len();
                    let mut k2: usize = 0;
                    while k2 < m
                        invariant
                            self.inv(),
                            self.pos_in_grid(npos),
                            k2 <= m,
                            m == self.tile_list(npos).len(),
                            npos == (EPoint { elevation: pos.elevation, point: np }),
                            self.spec_grid().spec_go(pos.point, d, 1) == Some(np),
                            forall|j: int|
                                0 <= j < k2 ==> !(self.obj(
                                    #[trigger] self.tile_list(npos)[j],
                                ).flags.has(Flag::MultiHex) && self.is_blocker(
                                    self.tile_list(npos)[j],
                                    obj,
                                )),
                        decreases m - k2,
                    {
                        let g = self.at(npos)[k2];
                        proof {
                            self.lemma_tile_list_members(npos, k2 as int);
                        }
                        if self.get(g).flags.contains(Flag::MultiHex) {
                            if g != obj {
                                let o = self.get(g);
                                let kind = o.fid.kind();
                                if (kind == crate::asset::EntityKind::Critter || kind
                                    == crate::asset::EntityKind::Scenery || kind
                                    == crate::asset::EntityKind::Wall) && !o.flags.contains(
                                    Flag::TurnedOff,
                                ) && !o.flags.contains(Flag::NoBlock) {
                                    proof {
                                        assert(npos == (EPoint {
                                            elevation: pos.elevation,
                                            point: np,
                                        }));
                                        assert(self.obj(self.tile_list(npos)[k2 as int]).flags.has(
                                            Flag::MultiHex,
                                        ) && self.is_blocker(self.tile_list(npos)[k2 as int], obj));
                                        assert(self.neighbor_multihex_blocker(obj, pos, d));
                                    }
                                    return true;
                                }
                            }
                        }
                        k2 = k2 + 1;
                    }
                    proof {
                        assert(npos == (EPoint { elevation: pos.elevation, point: np }));
                        assert(!self.neighbor_multihex_blocker(obj, pos, d));
                    }
                },
                None => {
                    proof {
                        assert(!self.neighbor_multihex_blocker(obj, pos, d));
                    }
                },
            }
            di = di + 1;
        }
        proof {
            assert forall|d: Direction| !self.neighbor_multihex_blocker(obj, pos, d) by {
                assert(dirs@[crate::geom::dir_index(d)] == d);
            }
        }
        false
    }

    /// Movement onto a tile whose occupants (and whose neighbours'
    /// multi-hex occupants) are all turned off, no-block, of a
    /// non-blocking kind, or the object itself, is not blocked.
    pub proof fn lemma_blocked_at_benign_occupants(self, obj: Handle, pos: EPoint)
        requires
            self.inv(),
            self.pos_in_grid(pos),
            forall|k: int|
                0 <= k < self.tile_list(pos).len() ==> {
                    let g = #[trigger] self.tile_list(pos)[k];
                    g == obj || self.obj(g).flags.has(Flag::TurnedOff) || self.obj(g).flags.has(
                        Flag::NoBlock,
                    ) || !blocking_kind(self.obj(g).fid.spec_kind())
                },
            forall|d: Direction| !self.neighbor_multihex_blocker(obj, pos, d),
        ensures
            !self.spec_blocked_at(obj, pos),
    {
    }

    /// A critter standing on the tile, neither turned off nor no-block,
    /// blocks movement for every other object.
    pub proof fn lemma_blocked_at_critter(self, obj: Handle, pos: EPoint, k: int)
        requires
            self.inv(),
            self.pos_in_grid(pos),
            0 <= k < self.tile_list(pos).len(),
            self.tile_list(pos)[k] != obj,
            self.obj(self.tile_list(pos)[k]).fid.spec_kind() == crate::asset::EntityKind::Critter,
            !self.obj(self.tile_list(pos)[k]).flags.has(Flag::TurnedOff),
            !self.obj(self.tile_list(pos)[k]).flags.has(Flag::NoBlock),
        ensures
            self.spec_blocked_at(obj, pos),
    {
        assert(self.is_blocker(self.tile_list(pos)[k], obj));
    }

    /// `g` blocks sight for the object `obj`: scenery or a wall, not
    /// turned off, without the light-through flag.
    pub open spec fn is_sight_blocker(self, g: Handle, obj: Handle) -> bool {
        &&& g != obj
        &&& (self.obj(g).fid.spec_kind() == crate::asset::EntityKind::Scenery || self.obj(
            g,
        ).fid.spec_kind() == crate::asset::EntityKind::Wall)
        &&& !self.obj(g).flags.has(Flag::TurnedOff)
        &&& !self.obj(g).flags.has(Flag::LightThru)
    }

    /// What `is_sight_blocked_at` decides.
    pub open spec fn spec_sight_blocked_at(self, obj: Handle, pos: EPoint) -> bool {
        exists|k: int|
            0 <= k < self.tile_list(pos).len() && self.is_sight_blocker(
                #[trigger] self.tile_list(pos)[k],
                obj,
            )
    }

    /// Whether some object at `pos` blocks sight from `obj` through
    /// that tile.
    pub fn is_sight_blocked_at(&self, obj: Handle, pos: EPoint) -> (r: bool)
        requires
            self.inv(),
            self.pos_in_grid(pos),
        ensures
            r == self.spec_sight_blocked_at(obj, pos),
    {
        let n = self.at(pos).len();
        let mut k: usize = 0;
        while k < n
            invariant
                self.inv(),
                self.pos_in_grid(pos),
                k <= n,
                n == self.tile_list(pos).len(),
                forall|j: int|
                    0 <= j < k ==> !self.is_sight_blocker(#[trigger] self.tile_list(pos)[j], obj),
            decreases n - k,
        {
            let g = self.at(pos)[k];
            proof {
                self.lemma_tile_list_members(pos, k as int);
            }
            if g != obj {
                let o = self.get(g);
                let kind = o.fid.kind();
                if !o.flags.contains(Flag::TurnedOff) && !o.flags.contains(Flag::LightThru) && (kind
                    == crate::asset::EntityKind::Scenery || kind == crate::asset::EntityKind::Wall)
                {
                    proof {
                        assert(self.is_sight_blocker(self.tile_list(pos)[k as int], obj));
                    }
                    return true;
                }
            }
            k = k + 1;
        }
        false
    }

    /// `g` blocks a shot for `obj`. In the multi-hex neighbour scan the
    /// shoot-through flag does not apply.
    pub open spec fn is_shot_blocker(self, g: Handle, obj: Handle, multi_only: bool) -> bool {
        let o = self.obj(g);
        let non_shoot_thru = if multi_only {
            false
        } else {
            !o.flags.has(Flag::ShootThru)
        };
        &&& g != obj
        &&& blocking_kind(o.fid.spec_kind())
        &&& !o.flags.has(Flag::TurnedOff)
        &&& (!o.flags.has(Flag::NoBlock) || non_shoot_thru)
    }

    /// First shot blocker in a list. In the multi-hex scan the search
    /// stops at the first object that is not multi-hex.
    pub open spec fn shot_check_list(self, l: Seq<Handle>, obj: Handle, multi_only: bool) -> Option<
        Handle,
    >
        decreases l.len(),
    {
        if l.len() == 0 {
            None
        } else if multi_only && !self.obj(l[0]).flags.has(Flag::MultiHex) {
            None
        } else if self.is_shot_blocker(l[0], obj, multi_only) {
            Some(l[0])
        } else {
            self.shot_check_list(l.drop_first(), obj, multi_only)
        }
    }

    /// First multi-hex shot blocker around `pos`, scanning the
    /// neighbour tiles in direction order starting at index `di`.
    pub open spec fn spec_shot_neighbor(self, obj: Handle, pos: EPoint, di: int) -> Option<Handle>
        decreases 6 - di,
    {
        if di < 0 || di >= 6 {
            None
        } else {
            let d = crate::geom::dir_of_index(di);
            let r = match self.spec_grid().spec_go(pos.point, d, 1) {
                Some(np) => self.shot_check_list(
                    self.tile_list(EPoint { elevation: pos.elevation, point: np }),
                    obj,
                    true,
                ),
                None => None,
            };
            if r is Some {
                r
            } else {
                self.spec_shot_neighbor(obj, pos, di + 1)
            }
        }
    }

    /// What `shot_blocker_at` returns: the first blocker on the tile, or
    /// failing that the first multi-hex blocker around it.
    pub open spec fn spec_shot_blocker_at(self, obj: Handle, pos: EPoint) -> Option<Handle> {
        match self.shot_check_list(self.tile_list(pos), obj, false) {
            Some(g) => Some(g),
            None => self.spec_shot_neighbor(obj, pos, 0),
        }
    }

    /// The first object that blocks a shot from `obj` through `pos`, if
    /// any: a blocking-kind object that is on, and either solid or not
    /// shoot-through; failing that, a multi-hex object beside the tile.
    pub fn shot_blocker_at(&self, obj: Handle, pos: EPoint) -> (r: Option<Handle>)
        requires
            self.inv(),
            self.pos_in_grid(pos),
        ensures
            r == self.spec_shot_blocker_at(obj, pos),
            r matches Some(g) ==> self.live(g),
    {
        let r0 = self.shot_check_exec(obj, pos, false);
        if r0.is_some() {
            return r0;
        }
        let dirs = Direction::all();
        let mut di: usize = 0;
        while di < 6
            invariant
                self.inv(),
                self.pos_in_grid(pos),
                di <= 6,
                dirs@ =~= seq![
                    Direction::NE,
                    Direction::E,
                    Direction::SE,
                    Direction::SW,
                    Direction::W,
                    Direction::NW,
                ],
                self.spec_shot_neighbor(obj, pos, 0) == self.spec_shot_neighbor(
                    obj,
                    pos,
                    di as int,
                ),
                self.shot_check_list(self.tile_list(pos), obj, false) is None,
            decreases 6 - di,
        {
            let d = dirs[di];
            proof {
                assert(dirs@[di as int] == crate::geom::dir_of_index(di as int));
            }
            match self.tile_grid.go(pos.point, d, 1) {
                Some(np) => {
                    let npos = np.elevated(pos.elevation);
                    let r1 = self.shot_check_exec(obj, npos, true);
                    proof {
                        assert(npos == (EPoint { elevation: pos.elevation, point: np }));
                        assert(self.spec_shot_neighbor(obj, pos, di as int) == if r1 is Some {
                            r1
                        } else {
                            self.spec_shot_neighbor(obj, pos, di as int + 1)
                        });
                    }
                    if r1.is_some() {
                        return r1;
                    }
                },
                None => {
                    proof {
                        assert(self.spec_shot_neighbor(obj, pos, di as int)
                            == self.spec_shot_neighbor(obj, pos, di as int + 1));
                    }
                },
            }
            di = di + 1;
        }
        None
    }

    /// Scans one tile's list for the first shot blocker, as
    /// `shot_check_list` describes.
    fn shot_check_exec(&self, obj: Handle, pos: EPoint, multi_only: bool) -> (r: Option<Handle>)
        requires
            self.inv(),
            self.pos_in_grid(pos),
        ensures
            r == self.shot_check_list(self.tile_list(pos), obj, multi_only),
            r matches Some(g) ==> self.live(g),
    {
        let ghost l = self.tile_list(pos);
        let n = self.at(pos).len();
        let mut k: usize = 0;
        proof {
            assert(l.skip(0) =~= l);
        }
        while k < n
            invariant
                self.inv(),
                self.pos_in_grid(pos),
                k <= n,
                l == self.tile_list(pos),
                n == l.len(),
                self.shot_check_list(l, obj, multi_only) == self.shot_check_list(
                    l.skip(k as int),
                    obj,
                    multi_only,
                ),
            decreases n - k,
        {
            proof {
                assert(l.skip(k as int).len() > 0);
                assert(l.skip(k as int)[0] == l[k as int]);
                assert(l.skip(k as int).drop_first() =~= l.skip(k as int + 1));
            }
            let g = self.at(pos)[k];
            proof {
                self.lemma_tile_list_members(pos, k as int);
            }
            let o = self.get(g);
            if multi_only && !o.flags.contains(Flag::MultiHex) {
                return None;
            }
            let non_shoot_thru = if multi_only {
                false
            } else {
                !o.flags.contains(Flag::ShootThru)
            };
            let kind = o.fid.kind();
            if !o.flags.contains(Flag::TurnedOff) && (!o.flags.contains(Flag::NoBlock)
                || non_shoot_thru) && g != obj && (kind == crate::asset::EntityKind::Scenery || kind
                == crate::asset::EntityKind::Wall || kind == crate::asset::EntityKind::Critter) {
                proof {
                    assert(self.is_shot_blocker(l[k as int], obj, multi_only));
                }
                return Some(g);
            }
            k = k + 1;
        }
        proof {
            assert(l.skip(n as int).len() == 0);
        }
        None
    }
}

/// One probe of the light-propagation walk: which tile is lit, from
/// which direction the light arrives, and the index of the ray within
/// the light cone.
#[derive(Clone, Copy, Debug, PartialEq, Eq, Structural)]
pub struct LightTest {
    pub point: EPoint,
    pub direction: Direction,
    pub i: u32,
}

/// The outcome of a light probe: whether the tile blocks further
/// propagation, and whether the tile's own light value is updated.
#[derive(Clone, Copy, Debug, PartialEq, Eq, Structural)]
pub struct LightTestResult {
    pub block: bool,
    pub update: bool,
}

impl Objects {
    /// The walk of `is_shot_blocked` along the ray tiles, carrying the
    /// previous tile's blocker: a changed, non-critter blocker that is
    /// neither shooter nor target blocks the shot.
    pub open spec fn shot_walk(
        self,
        shooter: Handle,
        target: Handle,
        elev: u32,
        pts: Seq<Point>,
        last: Option<Handle>,
    ) -> bool
        decreases pts.len(),
    {
        if pts.len() == 0 {
            false
        } else {
            let pos = EPoint { elevation: elev, point: pts[0] };
            let blocker = if self.pos_in_grid(pos) {
                self.spec_shot_blocker_at(shooter, pos)
            } else {
                None
            };
            if blocker != last && blocker is Some {
                let b = blocker.unwrap();
                if b != shooter && b != target && self.obj(b).fid.spec_kind()
                    != crate::asset::EntityKind::Critter {
                    true
                } else {
                    self.shot_walk(shooter, target, elev, pts.drop_first(), blocker)
                }
            } else {
                self.shot_walk(shooter, target, elev, pts.drop_first(), last)
            }
        }
    }

    /// What `is_shot_blocked` decides, over the ray between the two
    /// objects' tiles.
    pub open spec fn spec_is_shot_blocked(self, shooter: Handle, target: Handle) -> bool {
        let p1 = self.obj(shooter).pos.unwrap();
        let p2 = self.obj(target).pos.unwrap();
        self.shot_walk(
            shooter,
            target,
            p1.elevation,
            crate::geom::spec_ray(p1.point, p2.point),
            None,
        )
    }

    /// Whether the straight shot from `shooter` to `target` is blocked
    /// by something that is not a critter. Both objects must be placed,
    /// on the same elevation.
    pub fn is_shot_blocked(&self, shooter: Handle, target: Handle) -> (r: bool)
        requires
            self.inv(),
            self.live(shooter),
            self.live(target),
            self.obj(shooter).pos is Some,
            self.obj(target).pos is Some,
            self.obj(shooter).pos.unwrap().elevation == self.obj(target).pos.unwrap().elevation,
        ensures
            r == self.spec_is_shot_blocked(shooter, target),
    {
        let pos = match self.get(shooter).pos {
            Some(p) => p,
            None => {
                proof {
                    assert(false);
                }
                vstd::pervasive::unreached()
            },
        };
        let target_pos = match self.get(target).pos {
            Some(p) => p,
            None => {
                proof {
                    assert(false);
                }
                vstd::pervasive::unreached()
            },
        };
        proof {
            assert(self.obj_ok(self.obj(shooter)));
            assert(self.obj_ok(self.obj(target)));
        }
        let pts = crate::geom::ray(pos.point, target_pos.point);
        let ghost full = pts@;
        let n = pts.len();
        let mut i: usize = 0;
        let mut last: Option<Handle> = None;
        proof {
            assert(full.skip(0) =~= full);
        }
        while i < n
            invariant
                self.inv(),
                self.live(shooter),
                self.live(target),
                i <= n,
                n == full.len(),
                pts@ == full,
                pos.elevation < self.spec_elevations(),
                self.spec_is_shot_blocked(shooter, target) == self.shot_walk(
                    shooter,
                    target,
                    pos.elevation,
                    full.skip(i as int),
                    last,
                ),
            decreases n - i,
        {
            proof {
                assert(full.skip(i as int).len() > 0);
                assert(full.skip(i as int)[0] == full[i as int]);
                assert(full.skip(i as int).drop_first() =~= full.skip(i as int + 1));
            }
            let p = pts[i];
            let ppos = EPoint { elevation: pos.elevation, point: p };
            let blocker: Option<Handle> = if self.tile_grid.in_grid(p) {
                self.shot_blocker_at(shooter, ppos)
            } else {
                None
            };
            let changed = match (blocker, last) {
                (Some(b), Some(l)) => b != l,
                (Some(_), None) => true,
                (None, Some(_)) => true,
                (None, None) => false,
            };
            proof {
                assert(changed == (blocker != last));
            }
            if changed {
                match blocker {
                    Some(b) => {
                        if b != shooter && b != target {
                            if self.get(b).fid.kind() != crate::asset::EntityKind::Critter {
                                return true;
                            }
                        }
                        last = blocker;
                    },
                    None => {},
                }
            }
            i = i + 1;
        }
        proof {
            assert(full.skip(n as int).len() == 0);
        }
        false
    }

    /// The scan of `light_test` along one tile's list, carrying the
    /// accumulated update decision.
    pub open spec fn light_scan(
        self,
        l: Seq<Handle>,
        dir: Direction,
        li: u32,
        update: bool,
    ) -> LightTestResult
        decreases l.len(),
    {
        if l.len() == 0 {
            LightTestResult { block: false, update: true }
        } else {
            let o = self.obj(l[0]);
            if o.flags.has(Flag::TurnedOff) {
                self.light_scan(l.drop_first(), dir, li, update)
            } else {
                let block = !o.flags.has(Flag::LightThru);
                let update2 = self.light_wall_update(o, dir, li, update, block);
                if block {
                    LightTestResult { block: true, update: update2 }
                } else {
                    self.light_scan(l.drop_first(), dir, li, update2)
                }
            }
        }
    }

    /// The direction-dependent wall geometry of the light walk: whether
    /// the update decision survives this object.
    pub open spec fn light_wall_update(
        self,
        o: Object,
        dir: Direction,
        li: u32,
        update: bool,
        block: bool,
    ) -> bool {
        if o.fid.spec_kind() == crate::asset::EntityKind::Wall && o.flags.has(Flag::Flat) {
            update
        } else if o.fid.spec_kind() == crate::asset::EntityKind::Wall {
            let fe = self.spec_proto_db().spec_proto(o.pid.spec_proto_id().unwrap()).unwrap().flags_ext;
            if fe.has(crate::flags::FlagExt::WallEastOrWest) || fe.has(
                crate::flags::FlagExt::WallEastCorner,
            ) {
                if dir != Direction::W && dir != Direction::NW && (dir != Direction::NE || li >= 8)
                    && (dir != Direction::SW || li <= 15) {
                    false
                } else {
                    update
                }
            } else if fe.has(crate::flags::FlagExt::WallNorthCorner) {
                if dir != Direction::NE && dir != Direction::NW {
                    false
                } else {
                    update
                }
            } else if fe.has(crate::flags::FlagExt::WallSouthCorner) {
                if dir != Direction::NE && dir != Direction::E && dir != Direction::W && dir
                    != Direction::NW && (dir != Direction::SW || li <= 15) {
                    false
                } else {
                    update
                }
            } else if dir != Direction::NE && dir != Direction::E && (dir != Direction::NW || li
                <= 7) {
                false
            } else {
                update
            }
        } else if block && 1 <= crate::geom::dir_index(dir) <= 3 {
            false
        } else {
            update
        }
    }

    /// Every probe of a tile whose lit occupants all pass light through
    /// reports no blocker and an updated tile, as the collaborator
    /// contract for the light walk demands.
    pub proof fn lemma_light_clear_tile(
        self,
        l: Seq<Handle>,
        dir: Direction,
        li: u32,
        update: bool,
    )
        requires
            forall|k: int|
                0 <= k < l.len() ==> (self.obj(#[trigger] l[k]).flags.has(Flag::TurnedOff)
                    || self.obj(l[k]).flags.has(Flag::LightThru)),
        ensures
            self.light_scan(l, dir, li, update).block == false,
            self.light_scan(l, dir, li, update).update == true,
        decreases l.len(),
    {
        if l.len() > 0 {
            assert(l.drop_first() =~= l.skip(1));
            assert forall|k: int| 0 <= k < l.drop_first().len() implies (self.obj(
                #[trigger] l.drop_first()[k],
            ).flags.has(Flag::TurnedOff) || self.obj(l.drop_first()[k]).flags.has(
                Flag::LightThru,
            )) by {
                assert(l.drop_first()[k] == l[k + 1]);
            }
            let o = self.obj(l[0]);
            if o.flags.has(Flag::TurnedOff) {
                self.lemma_light_clear_tile(l.drop_first(), dir, li, update);
            } else {
                let block = !o.flags.has(Flag::LightThru);
                self.lemma_light_clear_tile(
                    l.drop_first(),
                    dir,
                    li,
                    self.light_wall_update(o, dir, li, update, block),
                );
            }
        }
    }

    /// Every lit wall on the tile can be classified: it has a prototype
    /// the database resolves.
    pub open spec fn light_protos_ok(self, pos: EPoint) -> bool {
        forall|k: int|
            0 <= k < self.tile_list(pos).len() ==> {
                let o = self.obj(#[trigger] self.tile_list(pos)[k]);
                (o.fid.spec_kind() == crate::asset::EntityKind::Wall && !o.flags.has(
                    Flag::TurnedOff,
                ) && !o.flags.has(Flag::Flat)) ==> (o.pid.spec_proto_id() is Some
                    && self.spec_proto_db().spec_proto(o.pid.spec_proto_id().unwrap()) is Some)
            }
    }

    /// Walks the probe tile's list: the first lit object that does not
    /// pass light through blocks the walk, and non-flat walls decide by
    /// corner geometry whether the tile's light value is still updated.
    pub fn light_test(&self, light_test: LightTest) -> (r: LightTestResult)
        requires
            self.inv(),
            self.pos_in_grid(light_test.point),
            self.light_protos_ok(light_test.point),
        ensures
            r == self.light_scan(
                self.tile_list(light_test.point),
                light_test.direction,
                light_test.i,
                true,
            ),
    {
        let pos = light_test.point;
        let dir = light_test.direction;
        let ghost l = self.tile_list(pos);
        let mut update = true;
        let n = self.at(pos).len();
        let mut k: usize = 0;
        proof {
            assert(l.skip(0) =~= l);
        }
        while k < n
            invariant
                self.inv(),
                self.pos_in_grid(pos),
                self.light_protos_ok(pos),
                pos == light_test.point,
                dir == light_test.direction,
                k <= n,
                l == self.tile_list(pos),
                n == l.len(),
                self.light_scan(l, dir, light_test.i, true) == self.light_scan(
                    l.skip(k as int),
                    dir,
                    light_test.i,
                    update,
                ),
            decreases n - k,
        {
            proof {
                assert(l.skip(k as int).len() > 0);
                assert(l.skip(k as int)[0] == l[k as int]);
                assert(l.skip(k as int).drop_first() =~= l.skip(k as int + 1));
            }
            let g = self.at(pos)[k];
            proof {
                self.lemma_tile_list_members(pos, k as int);
            }
            let o = self.get(g);
            if !o.flags.contains(Flag::TurnedOff) {
                let block = !o.flags.contains(Flag::LightThru);
                let new_update: bool;
                if o.fid.kind() == crate::asset::EntityKind::Wall && o.flags.contains(Flag::Flat) {
                    new_update = update;
                } else if o.fid.kind() == crate::asset::EntityKind::Wall {
                    let pid = match o.pid.proto_id() {
                        Some(pid) => pid,
                        None => {
                            proof {
                                assert(false);
                            }
                            vstd::pervasive::unreached()
                        },
                    };
                    let fe = match self.proto_db.proto(pid) {
                        Some(p) => p.flags_ext,
                        None => {
                            proof {
                                assert(false);
                            }
                            vstd::pervasive::unreached()
                        },
                    };
                    if fe.contains(crate::flags::FlagExt::WallEastOrWest) || fe.contains(
                        crate::flags::FlagExt::WallEastCorner,
                    ) {
                        if dir != Direction::W && dir != Direction::NW && (dir != Direction::NE
                            || light_test.i >= 8) && (dir != Direction::SW || light_test.i <= 15) {
                            new_update = false;
                        } else {
                            new_update = update;
                        }
                    } else if fe.contains(crate::flags::FlagExt::WallNorthCorner) {
                        if dir != Direction::NE && dir != Direction::NW {
                            new_update = false;
                        } else {
                            new_update = update;
                        }
                    } else if fe.contains(crate::flags::FlagExt::WallSouthCorner) {
                        if dir != Direction::NE && dir != Direction::E && dir != Direction::W && dir
                            != Direction::NW && (dir != Direction::SW || light_test.i <= 15) {
                            new_update = false;
                        } else {
                            new_update = update;
                        }
                    } else if dir != Direction::NE && dir != Direction::E && (dir != Direction::NW
                        || light_test.i <= 7) {
                        new_update = false;
                    } else {
                        new_update = update;
                    }
                } else {
                    let di = crate::geom::dir_index_usize(dir);
                    if block && 1 <= di && di <= 3 {
                        new_update = false;
                    } else {
                        new_update = update;
                    }
                }
                proof {
                    assert(new_update == self.light_wall_update(
                        self.obj(g),
                        dir,
                        light_test.i,
                        update,
                        block,
                    ));
                }
                if block {
                    return LightTestResult { block: true, update: new_update };
                }
                update = new_update;
            }
            k = k + 1;
        }
        proof {
            assert(l.skip(n as int).len() == 0);
        }
        LightTestResult { block: false, update: true }
    }

    /// The distance between two stored objects; see
    /// `crate::object::spec_distance`.
    pub fn distance(&self, from: Handle, to: Handle) -> (r: Option<u32>)
        requires
            self.inv(),
            self.live(from),
            self.live(to),
        ensures
            match r {
                Some(d) => crate::object::spec_distance(self.obj(from), self.obj(to)) == Some(
                    d as int,
                ),
                None => crate::object::spec_distance(self.obj(from), self.obj(to)) is None,
            },
    {
        proof {
            assert(self.obj_ok(self.obj(from)));
            assert(self.obj_ok(self.obj(to)));
        }
        self.get(from).distance(self.get(to))
    }

    /// Whether `obj` can be talked to: an active critter whose prototype
    /// the database marks as a talker.
    pub fn can_talk_to(&self, obj: Handle) -> (r: bool)
        requires
            self.inv(),
            self.live(obj),
        ensures
            r == (self.obj(obj).sub matches SubObject::Critter(c) && self.obj(
                obj,
            ).pid.spec_proto_id() matches Some(pid) && c.spec_is_active()
                && self.spec_proto_db().spec_can_talk_to(pid)),
    {
        let o = self.get(obj);
        match (o.sub.critter(), o.pid.proto_id()) {
            (Some(c), Some(pid)) => c.is_active() && self.proto_db.can_talk_to(pid),
            _ => false,
        }
    }

    /// Whether `obj` can be used: its prototype is usable and is not an
    /// armed explosive or flare.
    pub fn can_use(&self, obj: Handle) -> (r: bool)
        requires
            self.inv(),
            self.live(obj),
        ensures
            r == (self.obj(obj).pid.spec_proto_id() matches Some(pid)
                && !pid.spec_is_armed_item() && self.spec_proto_db().spec_can_use(pid)),
    {
        match self.get(obj).pid.proto_id() {
            Some(pid) => {
                if pid.is_armed_item() {
                    false
                } else {
                    self.proto_db.can_use(pid)
                }
            },
            None => false,
        }
    }

    /// The item kind of `obj`, reported only for the shiv.
    pub fn item_kind(&self, obj: Handle) -> (r: Option<crate::asset::ItemKind>)
        requires
            self.inv(),
            self.live(obj),
            self.obj(obj).fid.spec_kind() == crate::asset::EntityKind::Item ==> self.obj(
                obj,
            ).pid.spec_proto_id() is Some,
            (self.obj(obj).fid.spec_kind() == crate::asset::EntityKind::Item && self.obj(
                obj,
            ).pid.spec_proto_id() == Some(crate::asset::ProtoId::spec_shiv())) ==> (
            self.spec_proto_db().spec_proto(crate::asset::ProtoId::spec_shiv()) matches Some(p)
                && p.sub matches crate::asset::SubProto::Item(_)),
        ensures
            r == if self.obj(obj).fid.spec_kind() == crate::asset::EntityKind::Item && self.obj(
                obj,
            ).pid.spec_proto_id() == Some(crate::asset::ProtoId::spec_shiv()) {
                match self.spec_proto_db().spec_proto(crate::asset::ProtoId::spec_shiv()) {
                    Some(p) => match p.sub {
                        crate::asset::SubProto::Item(it) => Some(it.kind),
                        _ => None::<crate::asset::ItemKind>,
                    },
                    None => None,
                }
            } else {
                None
            },
    {
        let o = self.get(obj);
        if o.fid.kind() == crate::asset::EntityKind::Item {
            let pid = match o.pid.proto_id() {
                Some(pid) => pid,
                None => {
                    proof {
                        assert(false);
                    }
                    vstd::pervasive::unreached()
                },
            };
            if pid == crate::asset::ProtoId::shiv() {
                let proto = match self.proto_db.proto(pid) {
                    Some(p) => p,
                    None => {
                        proof {
                            assert(false);
                        }
                        vstd::pervasive::unreached()
                    },
                };
                match proto.sub.item() {
                    Some(it) => {
                        return Some(it.kind);
                    },
                    None => {
                        proof {
                            assert(false);
                        }
                        vstd::pervasive::unreached()
                    },
                }
            }
        }
        None
    }

    /// The handles of all stored objects, by slot order.
    pub fn iter(&self) -> (r: Vec<Handle>)
        requires
            self.inv(),
        ensures
            forall|h: Handle| r@.contains(h) <==> self.live(h),
            forall|i1: int, i2: int| 0 <= i1 < i2 < r@.len() ==> r@[i1] != r@[i2],
    {
        let mut r: Vec<Handle> = Vec::new();
        let n = self.slots.len();
        let mut i: usize = 0;
        while i < n
            invariant
                i <= n,
                n == self.slots@.len(),
                forall|h: Handle| r@.contains(h) <==> (self.live(h) && h.index < i),
                forall|i1: int, i2: int| 0 <= i1 < i2 < r@.len() ==> r@[i1] != r@[i2],
                forall|k: int| 0 <= k < r@.len() ==> (#[trigger] r@[k]).index < i,
            decreases n - i,
        {
            let is_full = self.slots[i].obj.is_some();
            if is_full {
                let h = Handle { index: i, generation: self.slots[i].generation };
                let ghost old_r = r@;
                r.push(h);
                proof {
                    assert(r@ =~= old_r.push(h));
                    assert forall|g: Handle| r@.contains(g) implies (self.live(g) && g.index < i
                        + 1) by {
                        let k = choose|k: int| 0 <= k < r@.len() && r@[k] == g;
                        if k < old_r.len() {
                            assert(old_r[k] == g);
                            assert(old_r.contains(g));
                        }
                    }
                    assert forall|g: Handle| self.live(g) && g.index < i + 1 implies r@.contains(
                        g,
                    ) by {
                        if g.index < i {
                            assert(old_r.contains(g));
                            let k = choose|k: int| 0 <= k < old_r.len() && old_r[k] == g;
                            assert(r@[k] == g);
                        } else {
                            assert(g == h);
                            assert(r@[old_r.len() as int] == h);
                        }
                    }
                }
            } else {
                proof {
                    assert forall|g: Handle| r@.contains(g) implies (self.live(g) && g.index < i
                        + 1) by {}
                    assert forall|g: Handle| self.live(g) && g.index < i + 1 implies r@.contains(
                        g,
                    ) by {
                        if g.index == i {
                            assert(self.slots@[i as int].obj is Some);
                        }
                    }
                }
            }
            i = i + 1;
        }
        r
    }
}

/// What the pathfinder's per-tile probe reports: impassable, or
/// passable at an extra traversal cost.
#[derive(Clone, Copy, Debug, PartialEq, Eq, Structural)]
pub enum TileState {
    Blocked,
    Passable(u32),
}

/// Which passability rule a pathfinder run uses: movement blocking for
/// an object walking to `to` (optionally exempting the destination), or
/// sight blocking for talk reachability.
#[derive(Clone, Copy, Debug)]
pub enum PathRule {
    Move { obj: Handle, to: Point, allow_dest: bool },
    Sight { obj: Handle },
}

/// One explored search node: its tile, accumulated cost, and the steps
/// that led to it.
struct PathNode {
    pos: Point,
    cost: u32,
    path: Vec<Direction>,
}

impl Objects {
    /// Some occupant of the tile is a pool of radioactive goo.
    pub open spec fn tile_has_goo(self, pos: EPoint) -> bool {
        exists|k: int|
            0 <= k < self.tile_list(pos).len() && (self.obj(
                #[trigger] self.tile_list(pos)[k],
            ).pid.spec_proto_id() matches Some(pid) && pid.spec_is_radioactive_goo())
    }

    /// A pathfinder rule this container can evaluate.
    pub open spec fn rule_ok(self, rule: PathRule) -> bool {
        match rule {
            PathRule::Move { obj, to, allow_dest } => self.live(obj) && (self.obj(
                obj,
            ).pid.spec_proto_id() matches Some(pid) ==> self.spec_proto_db().spec_proto(
                pid,
            ) is Some),
            PathRule::Sight { obj } => true,
        }
    }

    /// The per-tile probe: blocked tiles, and the extra cost of walking
    /// through radioactive goo, which geckos do not pay.
    pub open spec fn spec_tile_state(self, rule: PathRule, pos: EPoint) -> TileState {
        match rule {
            PathRule::Move { obj, to, allow_dest } => {
                if (!allow_dest || pos.point != to) && self.spec_blocked_at(obj, pos) {
                    TileState::Blocked
                } else {
                    match self.obj(obj).pid.spec_proto_id() {
                        Some(pid) => {
                            if self.tile_has_goo(pos) {
                                let gecko = match self.spec_proto_db().spec_proto(pid) {
                                    Some(p) => p.sub matches crate::asset::SubProto::Critter(c)
                                        && c.kill_kind == crate::asset::CritterKillKind::Gecko,
                                    None => false,
                                };
                                if gecko {
                                    TileState::Passable(100)
                                } else {
                                    TileState::Passable(400)
                                }
                            } else {
                                TileState::Passable(0)
                            }
                        },
                        None => TileState::Passable(0),
                    }
                }
            },
            PathRule::Sight { obj } => {
                if self.spec_sight_blocked_at(obj, pos) {
                    TileState::Blocked
                } else {
                    TileState::Passable(0)
                }
            },
        }
    }

    /// Evaluates the per-tile probe.
    fn tile_state(&self, rule: PathRule, pos: EPoint) -> (r: TileState)
        requires
            self.inv(),
            self.pos_in_grid(pos),
            self.rule_ok(rule),
        ensures
            r == self.spec_tile_state(rule, pos),
    {
        match rule {
            PathRule::Move { obj, to, allow_dest } => {
                if (!allow_dest || !(pos.point == to)) && self.is_blocked_at(obj, pos) {
                    TileState::Blocked
                } else {
                    match self.get(obj).pid.proto_id() {
                        Some(pid) => {
                            if self.tile_has_goo_exec(pos) {
                                let gecko = match self.proto_db.proto(pid) {
                                    Some(p) => match p.sub {
                                        crate::asset::SubProto::Critter(c) => c.kill_kind
                                            == crate::asset::CritterKillKind::Gecko,
                                        _ => false,
                                    },
                                    None => {
                                        proof {
                                            assert(false);
                                        }
                                        false
                                    },
                                };
                                if gecko {
                                    TileState::Passable(100)
                                } else {
                                    TileState::Passable(400)
                                }
                            } else {
                                TileState::Passable(0)
                            }
                        },
                        None => TileState::Passable(0),
                    }
                }
            },
            PathRule::Sight { obj } => {
                if self.is_sight_blocked_at(obj, pos) {
                    TileState::Blocked
                } else {
                    TileState::Passable(0)
                }
            },
        }
    }

    fn tile_has_goo_exec(&self, pos: EPoint) -> (r: bool)
        requires
            self.inv(),
            self.pos_in_grid(pos),
        ensures
            r == self.tile_has_goo(pos),
    {
        let n = self.at(pos).len();
        let mut k: usize = 0;
        while k < n
            invariant
                self.inv(),
                self.pos_in_grid(pos),
                k <= n,
                n == self.tile_list(pos).len(),
                forall|j: int|
                    0 <= j < k ==> !(self.obj(
                        #[trigger] self.tile_list(pos)[j],
                    ).pid.spec_proto_id() matches Some(pid) && pid.spec_is_radioactive_goo()),
            decreases n - k,
        {
            let g = self.at(pos)[k];
            proof {
                self.lemma_tile_list_members(pos, k as int);
            }
            match self.get(g).pid.proto_id() {
                Some(pid) => {
                    if pid.is_radioactive_goo() {
                        return true;
                    }
                },
                None => {},
            }
            k = k + 1;
        }
        false
    }

    /// Every tile after the start of the walk is on the grid and
    /// passable under the rule.
    pub open spec fn path_passable(
        self,
        rule: PathRule,
        from: Point,
        elev: u32,
        dirs: Seq<Direction>,
    ) -> bool {
        forall|i: int|
            0 < i <= dirs.len() ==> (#[trigger] crate::geom::walk_end(
                self.spec_grid(),
                from,
                dirs.take(i),
            ) matches Some(p) && self.spec_tile_state(rule, EPoint { elevation: elev, point: p })
                != TileState::Blocked)
    }

    /// Bounded uniform-cost search from `from` toward `to`. `Some` is a
    /// valid walk: it ends at `to` and crosses only passable tiles. `None`
    /// means the budget ran out or no path was found.
    fn find_path(&self, rule: PathRule, from: Point, elev: u32, to: Point) -> (r: Option<
        Vec<Direction>,
    >)
        requires
            self.inv(),
            self.pos_in_grid(EPoint { elevation: elev, point: from }),
            self.rule_ok(rule),
        ensures
            r matches Some(dirs) ==> crate::geom::walk_end(self.spec_grid(), from, dirs@) == Some(
                to,
            ) && self.path_passable(rule, from, elev, dirs@),
            from == to ==> r is Some,
    {
        if from.x == to.x && from.y == to.y {
            let empty_path: Vec<Direction> = Vec::new();
            proof {
                assert(crate::geom::walk_end(self.spec_grid(), from, empty_path@) == Some(from));
            }
            return Some(empty_path);
        }
        let mut visited: Vec<bool> = Vec::new();
        proof {
            assert(self.spec_grid().spec_width() * self.spec_grid().spec_height() <= 0x8000
                * 0x8000) by (nonlinear_arith)
                requires
                    0 < self.spec_grid().spec_width() <= 0x8000,
                    0 < self.spec_grid().spec_height() <= 0x8000,
            ;
        }
        let tiles: usize = (self.tile_grid.width() as usize) * (self.tile_grid.height() as usize);
        let mut vi: usize = 0;
        while vi < tiles
            invariant
                vi <= tiles,
                visited@.len() == vi,
            decreases tiles - vi,
        {
            visited.push(false);
            vi = vi + 1;
        }
        let mut open: Vec<PathNode> = Vec::new();
        open.push(PathNode { pos: from, cost: 0, path: Vec::new() });
        proof {
            assert(crate::geom::walk_end(self.spec_grid(), from, Seq::<Direction>::empty())
                == Some(from));
            assert(open@[0].path@.take(0) =~= Seq::<Direction>::empty());
        }
        let mut budget: u32 = 5000;
        while budget > 0 && open.len() > 0
            invariant
                self.inv(),
                self.pos_in_grid(EPoint { elevation: elev, point: from }),
                self.rule_ok(rule),
                tiles == self.spec_grid().spec_width() * self.spec_grid().spec_height(),
                visited@.len() == tiles,
                forall|k: int|
                    0 <= k < open@.len() ==> {
                        let node = #[trigger] open@[k];
                        &&& self.pos_in_grid(EPoint { elevation: elev, point: node.pos })
                        &&& crate::geom::walk_end(self.spec_grid(), from, node.path@) == Some(
                            node.pos,
                        )
                        &&& self.path_passable(rule, from, elev, node.path@)
                        &&& node.path@.len() <= 8192
                    },
            decreases budget,
        {
            budget = budget - 1;
            // Take the cheapest open node.
            let mut best: usize = 0;
            let mut bi: usize = 1;
            while bi < open.len()
                invariant
                    open@.len() > 0,
                    best < open@.len(),
                    bi <= open@.len(),
                decreases open@.len() - bi,
            {
                if open[bi].cost < open[best].cost {
                    best = bi;
                }
                bi = bi + 1;
            }
            let node = open.swap_remove(best);
            proof {
                assert(forall|k: int|
                    0 <= k < open@.len() ==> {
                        let n2 = #[trigger] open@[k];
                        &&& self.pos_in_grid(EPoint { elevation: elev, point: n2.pos })
                        &&& crate::geom::walk_end(self.spec_grid(), from, n2.path@) == Some(n2.pos)
                        &&& self.path_passable(rule, from, elev, n2.path@)
                        &&& n2.path@.len() <= 8192
                    });
            }
            if node.pos.x == to.x && node.pos.y == to.y {
                return Some(node.path);
            }
            proof {
                lemma_tile_index_bounds(
                    self.spec_grid().spec_width(),
                    self.spec_grid().spec_height(),
                    node.pos,
                );
            }
            let ti: usize = (node.pos.y as usize) * (self.tile_grid.width() as usize) + (
            node.pos.x as usize);
            if visited[ti] {
                continue ;
            }
            visited[ti] = true;
            if node.path.len() >= 8192 {
                continue ;
            }
            let dirs = Direction::all();
            let mut di: usize = 0;
            while di < 6
                invariant
                    self.inv(),
                    self.rule_ok(rule),
                    di <= 6,
                    dirs@.len() == 6,
                    self.pos_in_grid(EPoint { elevation: elev, point: node.pos }),
                    crate::geom::walk_end(self.spec_grid(), from, node.path@) == Some(node.pos),
                    self.path_passable(rule, from, elev, node.path@),
                    node.path@.len() < 8192,
                    forall|k: int|
                        0 <= k < open@.len() ==> {
                            let n2 = #[trigger] open@[k];
                            &&& self.pos_in_grid(EPoint { elevation: elev, point: n2.pos })
                            &&& crate::geom::walk_end(self.spec_grid(), from, n2.path@) == Some(
                                n2.pos,
                            )
                            &&& self.path_passable(rule, from, elev, n2.path@)
                            &&& n2.path@.len() <= 8192
                        },
                decreases 6 - di,
            {
                let d = dirs[di];
                match self.tile_grid.go(node.pos, d, 1) {
                    Some(np) => {
                        proof {
                            crate::geom::lemma_go_one(self.spec_grid(), node.pos, d);
                            assert(self.spec_grid().spec_step(node.pos, d) == Some(np));
                        }
                        let npos = EPoint { elevation: elev, point: np };
                        let state = self.tile_state(rule, npos);
                        match state {
                            TileState::Passable(c) => {
                                let mut new_path: Vec<Direction> = Vec::new();
                                let mut ci: usize = 0;
                                while ci < node.path.len()
                                    invariant
                                        ci <= node.path@.len(),
                                        new_path@ == node.path@.take(ci as int),
                                    decreases node.path@.len() - ci,
                                {
                                    new_path.push(node.path[ci]);
                                    proof {
                                        assert(new_path@ =~= node.path@.take(ci as int + 1));
                                    }
                                    ci = ci + 1;
                                }
                                proof {
                                    assert(new_path@ =~= node.path@);
                                }
                                new_path.push(d);
                                let cost2 = if node.cost >= 0x7000_0000 {
                                    node.cost
                                } else {
                                    node.cost + 1 + c
                                };
                                proof {
                                    let np_seq = new_path@;
                                    assert(np_seq.drop_last() =~= node.path@);
                                    assert(np_seq.take(np_seq.len() as int) =~= np_seq);
                                    assert(crate::geom::walk_end(self.spec_grid(), from, np_seq)
                                        == Some(np)) by {
                                        crate::geom::lemma_walk_end_push(
                                            self.spec_grid(),
                                            from,
                                            node.path@,
                                            d,
                                            np,
                                        );
                                    }
                                    assert forall|i: int| 0 < i <= np_seq.len() implies (
                                    #[trigger] crate::geom::walk_end(
                                        self.spec_grid(),
                                        from,
                                        np_seq.take(i),
                                    ) matches Some(p) && self.spec_tile_state(
                                        rule,
                                        EPoint { elevation: elev, point: p },
                                    ) != TileState::Blocked) by {
                                        if i < np_seq.len() {
                                            assert(np_seq.take(i) =~= node.path@.take(i));
                                        } else {
                                            assert(np_seq.take(i) =~= np_seq);
                                        }
                                    }
                                }
                                open.push(PathNode { pos: np, cost: cost2, path: new_path });
                            },
                            TileState::Blocked => {},
                        }
                    },
                    None => {},
                }
                di = di + 1;
            }
        }
        None
    }
}

impl Objects {
    /// A walkable path for `obj` from its tile to `to` (or, when
    /// `allow_neighbor_tile` is set and `to` is blocked, to a neighbour
    /// of `to`), as a list of steps. Every tile the path crosses after
    /// the start is free of blockers, except a permitted destination.
    /// Traversal costs steer the search away from radioactive goo (see
    /// `spec_tile_state`: 400 extra per goo tile, 100 for geckos), and
    /// `smooth` only influences which of several equally valid paths is
    /// preferred; neither changes what the contract promises of the
    /// returned path. `None` for a detached object, an off-grid target,
    /// or when no path was found within the search budget.
    pub fn path(&self, obj: Handle, to: Point, smooth: bool, allow_neighbor_tile: bool) -> (r:
        Option<Vec<Direction>>)
        requires
            self.inv(),
            self.live(obj),
            self.obj(obj).pid.spec_proto_id() matches Some(pid) ==> self.spec_proto_db().spec_proto(
                pid,
            ) is Some,
        ensures
            self.obj(obj).pos is None ==> r is None,
            (self.obj(obj).pos matches Some(f) && f.point == to) ==> r is Some,
            r matches Some(dirs) ==> {
                let from = self.obj(obj).pos.unwrap();
                let rule = PathRule::Move { obj, to, allow_dest: allow_neighbor_tile };
                &&& self.obj(obj).pos is Some
                &&& self.path_passable(rule, from.point, from.elevation, dirs@)
                &&& crate::geom::walk_end(self.spec_grid(), from.point, dirs@) matches Some(endp)
                    && (endp == to || (allow_neighbor_tile && self.spec_blocked_at(
                    obj,
                    EPoint { elevation: from.elevation, point: to },
                ) && exists|d: Direction| self.spec_grid().spec_step(endp, d) == Some(to)))
            },
    {
        let from = match self.get(obj).pos {
            Some(p) => p,
            None => {
                return None;
            },
        };
        proof {
            assert(self.obj_ok(self.obj(obj)));
        }
        if !self.tile_grid.in_grid(to) {
            if from.point.x == to.x && from.point.y == to.y {
                proof {
                    assert(false);
                }
            }
            return None;
        }
        let to_pos = EPoint { elevation: from.elevation, point: to };
        let to_blocked: Option<bool> = if allow_neighbor_tile {
            Some(self.is_blocked_at(obj, to_pos))
        } else {
            None
        };
        let rule = PathRule::Move { obj, to, allow_dest: allow_neighbor_tile };
        let mut r = self.find_path(rule, from.point, from.elevation, to);
        if to_blocked == Some(true) {
            match &mut r {
                Some(path) => {
                    if path.len() > 0 {
                        let ghost full = path@;
                        let _ = path.pop();
                        proof {
                            assert(path@ =~= full.drop_last());
                            crate::geom::lemma_walk_end_last(self.spec_grid(), from.point, full);
                            let endp = crate::geom::walk_end(
                                self.spec_grid(),
                                from.point,
                                path@,
                            ).unwrap();
                            assert(self.spec_grid().spec_step(endp, full.last()) == Some(to));
                            assert forall|i: int| 0 < i <= path@.len() implies (
                            #[trigger] crate::geom::walk_end(
                                self.spec_grid(),
                                from.point,
                                path@.take(i),
                            ) matches Some(p) && self.spec_tile_state(
                                rule,
                                EPoint { elevation: from.elevation, point: p },
                            ) != TileState::Blocked) by {
                                assert(path@.take(i) =~= full.take(i));
                            }
                        }
                    }
                },
                None => {},
            }
        }
        r
    }

    /// Whether the two objects are close enough, and mutually reachable
    /// without a sight blocker, to talk: different elevations are
    /// unreachable, a hex distance over 12 is too far, and otherwise the
    /// pathfinder must find a sight-clear route.
    pub fn can_talk(&self, obj1: Handle, obj2: Handle) -> (r: Result<(), CantTalkSpatial>)
        requires
            self.inv(),
            self.live(obj1),
            self.live(obj2),
            self.obj(obj1).pos is Some,
            self.obj(obj2).pos is Some,
        ensures
            ({
                let p1 = self.obj(obj1).pos.unwrap();
                let p2 = self.obj(obj2).pos.unwrap();
                &&& p1.elevation != p2.elevation ==> r == Err::<(), CantTalkSpatial>(
                    CantTalkSpatial::Unreachable,
                )
                &&& (p1.elevation == p2.elevation && crate::geom::hex_dist(p1.point, p2.point)
                    > 12) ==> r == Err::<(), CantTalkSpatial>(CantTalkSpatial::TooFar)
                &&& (p1.elevation == p2.elevation && crate::geom::hex_dist(p1.point, p2.point)
                    <= 12) ==> (r == Ok::<(), CantTalkSpatial>(()) || r == Err::<
                    (),
                    CantTalkSpatial,
                >(CantTalkSpatial::Unreachable))
                &&& p1 == p2 ==> r == Ok::<(), CantTalkSpatial>(())
                &&& r == Ok::<(), CantTalkSpatial>(()) ==> {
                    &&& p1.elevation == p2.elevation
                    &&& crate::geom::hex_dist(p1.point, p2.point) <= 12
                    &&& exists|dirs: Seq<Direction>|
                        (#[trigger] crate::geom::walk_end(self.spec_grid(), p1.point, dirs))
                            == Some(p2.point) && self.path_passable(
                            PathRule::Sight { obj: obj1 },
                            p1.point,
                            p1.elevation,
                            dirs,
                        )
                }
            }),
    {
        let p1 = match self.get(obj1).pos {
            Some(p) => p,
            None => {
                proof {
                    assert(false);
                }
                vstd::pervasive::unreached()
            },
        };
        let p2 = match self.get(obj2).pos {
            Some(p) => p,
            None => {
                proof {
                    assert(false);
                }
                vstd::pervasive::unreached()
            },
        };
        proof {
            assert(self.obj_ok(self.obj(obj1)));
            assert(self.obj_ok(self.obj(obj2)));
        }
        if p1.elevation != p2.elevation {
            return Err(CantTalkSpatial::Unreachable);
        }
        if crate::geom::distance(p1.point, p2.point) > 12 {
            return Err(CantTalkSpatial::TooFar);
        }
        let rule = PathRule::Sight { obj: obj1 };
        match self.find_path(rule, p1.point, p1.elevation, p2.point) {
            Some(dirs) => {
                proof {
                    assert(crate::geom::walk_end(self.spec_grid(), p1.point, dirs@) == Some(
                        p2.point,
                    ) && self.path_passable(rule, p1.point, p1.elevation, dirs@));
                }
                Ok(())
            },
            None => Err(CantTalkSpatial::Unreachable),
        }
    }

    /// Whether the two objects can talk right now: within a hex distance
    /// of 9 and with no non-critter shot blocker between them.
    pub fn can_talk_now(&self, obj1: Handle, obj2: Handle) -> (r: bool)
        requires
            self.inv(),
            self.live(obj1),
            self.live(obj2),
            self.obj(obj1).pos is Some,
            self.obj(obj2).pos is Some,
            (crate::object::spec_distance(self.obj(obj1), self.obj(obj2)).unwrap() < 9) ==> self.obj(
                obj1,
            ).pos.unwrap().elevation == self.obj(obj2).pos.unwrap().elevation,
        ensures
            r == (crate::object::spec_distance(self.obj(obj1), self.obj(obj2)).unwrap() < 9
                && !self.spec_is_shot_blocked(obj1, obj2)),
    {
        let d = match self.distance(obj1, obj2) {
            Some(d) => d,
            None => {
                proof {
                    assert(false);
                }
                vstd::pervasive::unreached()
            },
        };
        d < 9 && !self.is_shot_blocked(obj1, obj2)
    }

    /// Whether `pusher` may push `pushed` aside. The in-combat rules are
    /// not specified, so a push that passes every other check during
    /// combat is reported as unsupported rather than decided.
    pub fn can_push(&self, pusher: Handle, pushed: Handle, scripts: &Scripts, in_combat: bool) -> (r:
        crate::object::PushEligibility)
        requires
            self.inv(),
            self.live(pusher),
            self.live(pushed),
            (self.obj(pushed).fid.spec_kind() == crate::asset::EntityKind::Critter && pusher
                != pushed) ==> (self.obj(pusher).pos is Some && self.obj(pushed).pos is Some),
        ensures
            self.obj(pushed).fid.spec_kind() != crate::asset::EntityKind::Critter ==> r
                == crate::object::PushEligibility::Ineligible,
            pusher == pushed ==> r == crate::object::PushEligibility::Ineligible,
            (self.obj(pushed).sub matches SubObject::Critter(c) && !c.spec_is_active()) ==> r
                == crate::object::PushEligibility::Ineligible,
            self.obj(pushed).script is None ==> r == crate::object::PushEligibility::Ineligible,
            (self.obj(pushed).script matches Some((sid, _))
                && !scripts.spec_has_predefined_proc(sid, crate::object::PredefinedProc::Push))
                ==> r == crate::object::PushEligibility::Ineligible,
            r == crate::object::PushEligibility::UnsupportedInCombat ==> in_combat,
            r == crate::object::PushEligibility::Eligible ==> {
                &&& !in_combat
                &&& self.obj(pushed).fid.spec_kind() == crate::asset::EntityKind::Critter
                &&& pusher != pushed
                &&& self.obj(pushed).sub matches SubObject::Critter(c) && c.spec_is_active()
                &&& self.obj(pushed).script matches Some((sid, _))
                    && scripts.spec_has_predefined_proc(sid, crate::object::PredefinedProc::Push)
                &&& self.obj(pusher).pos is Some && self.obj(pushed).pos is Some
                &&& self.obj(pusher).pos.unwrap().elevation == self.obj(
                    pushed,
                ).pos.unwrap().elevation
                &&& crate::geom::hex_dist(
                    self.obj(pusher).pos.unwrap().point,
                    self.obj(pushed).pos.unwrap().point,
                ) <= 12
                &&& exists|dirs: Seq<Direction>|
                    (#[trigger] crate::geom::walk_end(
                        self.spec_grid(),
                        self.obj(pusher).pos.unwrap().point,
                        dirs,
                    )) == Some(self.obj(pushed).pos.unwrap().point) && self.path_passable(
                        PathRule::Sight { obj: pusher },
                        self.obj(pusher).pos.unwrap().point,
                        self.obj(pusher).pos.unwrap().elevation,
                        dirs,
                    )
            },
            ({
                let checks = self.obj(pushed).fid.spec_kind() == crate::asset::EntityKind::Critter
                    && pusher != pushed && (self.obj(pushed).sub matches SubObject::Critter(c)
                    && c.spec_is_active()) && self.obj(pusher).pos == self.obj(pushed).pos && (
                self.obj(pushed).script matches Some((sid, _))
                    && scripts.spec_has_predefined_proc(sid, crate::object::PredefinedProc::Push));
                &&& (checks && !in_combat) ==> r == crate::object::PushEligibility::Eligible
                &&& (checks && in_combat) ==> r
                    == crate::object::PushEligibility::UnsupportedInCombat
            }),
    {
        let kind_ok = self.get(pushed).fid.kind() == crate::asset::EntityKind::Critter;
        if !kind_ok || pusher == pushed {
            return crate::object::PushEligibility::Ineligible;
        }
        let active = match self.get(pushed).sub.critter() {
            Some(c) => c.is_active(),
            None => {
                proof {
                    assert(self.obj_ok(self.obj(pushed)));
                    assert(false);
                }
                false
            },
        };
        if !active {
            return crate::object::PushEligibility::Ineligible;
        }
        if !self.can_talk(pusher, pushed).is_ok() {
            return crate::object::PushEligibility::Ineligible;
        }
        let sid = match self.get(pushed).script {
            Some((sid, _)) => sid,
            None => {
                return crate::object::PushEligibility::Ineligible;
            },
        };
        if !scripts.has_predefined_proc(sid, crate::object::PredefinedProc::Push) {
            return crate::object::PushEligibility::Ineligible;
        }
        if in_combat {
            return crate::object::PushEligibility::UnsupportedInCombat;
        }
        crate::object::PushEligibility::Eligible
    }

    /// Empties the container: every handle becomes invalid, every list
    /// empty. Generations keep counting, so handles from before the
    /// clearing stay invalid even after the slots are reused.
    pub fn clear(&mut self)
        requires
            old(self).inv(),
        ensures
            final(self).inv(),
            final(self).spec_grid() == old(self).spec_grid(),
            final(self).spec_elevations() == old(self).spec_elevations(),
            final(self).spec_frm_db() == old(self).spec_frm_db(),
            final(self).spec_proto_db() == old(self).spec_proto_db(),
            forall|h: Handle| !final(self).live(h),
            final(self).detached_list().len() == 0,
            forall|pos: EPoint|
                final(self).pos_in_grid(pos) ==> (#[trigger] final(self).tile_list(pos)).len()
                    == 0,
    {
        self.slots = Vec::new();
        self.free = Vec::new();
        self.detached = Vec::new();
        let ghost w = self.spec_grid().spec_width();
        let ghost hh = self.spec_grid().spec_height();
        proof {
            assert(w * hh <= 0x8000 * 0x8000) by (nonlinear_arith)
                requires
                    0 < w <= 0x8000,
                    0 < hh <= 0x8000,
            ;
        }
        let tiles: usize = (self.tile_grid.width() as usize) * (self.tile_grid.height() as usize);
        let ne = self.by_pos.len();
        let mut fresh: Vec<Vec<Vec<Handle>>> = Vec::new();
        let mut e: usize = 0;
        while e < ne
            invariant
                e <= ne,
                fresh@.len() == e,
                tiles == w * hh,
                w == self.spec_grid().spec_width(),
                hh == self.spec_grid().spec_height(),
                forall|i: int| 0 <= i < e ==> (#[trigger] fresh@[i])@.len() == w * hh,
                forall|i: int, t: int|
                    0 <= i < e && 0 <= t < fresh@[i]@.len() ==> (#[trigger] fresh@[i]@[t])@.len()
                        == 0,
            decreases ne - e,
        {
            let mut grid: Vec<Vec<Handle>> = Vec::new();
            let mut t: usize = 0;
            while t < tiles
                invariant
                    t <= tiles,
                    grid@.len() == t,
                    forall|i: int| 0 <= i < t ==> (#[trigger] grid@[i])@.len() == 0,
                decreases tiles - t,
            {
                grid.push(Vec::new());
                t = t + 1;
            }
            fresh.push(grid);
            e = e + 1;
        }
        self.by_pos = fresh;
        proof {
            assert forall|e2: int, t2: int|
                0 <= e2 < self.spec_elevations() && 0 <= t2 < w * hh
                    implies #[trigger] self.list_ok(e2, t2) by {
                assert(self.list_at(e2, t2).len() == 0);
            }
            assert forall|pos: EPoint| self.pos_in_grid(pos) implies (#[trigger] self.tile_list(
                pos,
            )).len() == 0 by {
                lemma_tile_index_bounds(w, hh, pos.point);
                assert(self.list_at(pos.elevation as int, self.tile_index(pos.point)).len() == 0);
            }
        }
    }
}

/// Sum of the intrinsic shifts of the first `n` frames.
pub open spec fn frames_shift_sum(frames: Seq<crate::asset::Frame>, n: int) -> (int, int)
    decreases n,
{
    if n <= 0 {
        (0, 0)
    } else {
        let p = frames_shift_sum(frames, n - 1);
        (p.0 + frames[n - 1].shift.x, p.1 + frames[n - 1].shift.y)
    }
}

impl Objects {
    /// The frame id a standing object shows: the same critter body with
    /// the stand animation (fire-dancing critters keep dancing);
    /// non-critters keep their frame.
    pub open spec fn spec_standing_fid(o: Object) -> crate::asset::FrameId {
        match o.fid {
            crate::asset::FrameId::Critter(c) => crate::asset::FrameId::Critter(
                crate::asset::CritterFid {
                    anim: if c.anim == crate::asset::CritterAnim::FireDance {
                        crate::asset::CritterAnim::FireDance
                    } else {
                        crate::asset::CritterAnim::Stand
                    },
                    ..c
                },
            ),
            crate::asset::FrameId::Generic(_) => o.fid,
        }
    }

    /// The cumulative screen shift a standing-up animation leaves: for an
    /// armed critter, the summed take-out frame shifts plus the centering
    /// of the unarmed stand; zero otherwise.
    pub open spec fn spec_standing_shift(db: crate::asset::FrameDb, o: Object) -> (int, int) {
        match o.fid {
            crate::asset::FrameId::Critter(c) => {
                if c.weapon != crate::asset::WeaponKind::Unarmed {
                    let tfid = crate::asset::FrameId::Critter(
                        crate::asset::CritterFid { anim: crate::asset::CritterAnim::TakeOut, ..c },
                    );
                    let sfid = crate::asset::FrameId::Critter(
                        crate::asset::CritterFid {
                            anim: crate::asset::CritterAnim::Stand,
                            weapon: crate::asset::WeaponKind::Unarmed,
                            ..c
                        },
                    );
                    let frames = db.spec_get(tfid).unwrap().frame_lists@[crate::geom::dir_index(
                        o.direction,
                    )].frames@;
                    let s = frames_shift_sum(frames, frames.len() as int);
                    let ctr = db.spec_center(sfid, o.direction).unwrap();
                    (s.0 + ctr.x, s.1 + ctr.y)
                } else {
                    (0, 0)
                }
            },
            crate::asset::FrameId::Generic(_) => (0, 0),
        }
    }

    /// The lookups `make_standing` performs succeed in `frm_db`, and the
    /// resulting shift fits the accepted pixel range.
    pub open spec fn can_stand(self, h: Handle, frm_db: crate::asset::FrameDb) -> bool {
        let o = self.obj(h);
        match o.fid {
            crate::asset::FrameId::Critter(c) => {
                let armed_ok = if c.weapon != crate::asset::WeaponKind::Unarmed {
                    let tfid = crate::asset::FrameId::Critter(
                        crate::asset::CritterFid { anim: crate::asset::CritterAnim::TakeOut, ..c },
                    );
                    let sfid = crate::asset::FrameId::Critter(
                        crate::asset::CritterFid {
                            anim: crate::asset::CritterAnim::Stand,
                            weapon: crate::asset::WeaponKind::Unarmed,
                            ..c
                        },
                    );
                    &&& frm_db.wf()
                    &&& frm_db.spec_get(tfid) is Some
                    &&& frm_db.spec_get(tfid).unwrap().frame_lists@[crate::geom::dir_index(
                        o.direction,
                    )].frames@.len() <= 0x10000
                    &&& frm_db.spec_center(sfid, o.direction) is Some
                } else {
                    true
                };
                let sh = Objects::spec_standing_shift(frm_db, o);
                &&& armed_ok
                &&& -crate::geom::PIXEL_MAX <= sh.0 <= crate::geom::PIXEL_MAX
                &&& -crate::geom::PIXEL_MAX <= sh.1 <= crate::geom::PIXEL_MAX
                &&& frame_resolved(
                    self.spec_frm_db(),
                    Object { fid: Objects::spec_standing_fid(o), frame_idx: 0, ..o },
                )
            },
            crate::asset::FrameId::Generic(_) => true,
        }
    }

    /// Puts the object into its standing frame, accumulates the shift of
    /// the put-away animation, and re-inserts the object where the new
    /// shift sorts it.
    pub fn make_standing(&mut self, h: Handle, frm_db: &crate::asset::FrameDb)
        requires
            old(self).inv(),
            old(self).live(h),
            old(self).can_stand(h, *frm_db),
        ensures
            final(self).inv(),
            final(self).spec_grid() == old(self).spec_grid(),
            final(self).spec_elevations() == old(self).spec_elevations(),
            final(self).spec_frm_db() == old(self).spec_frm_db(),
            final(self).spec_proto_db() == old(self).spec_proto_db(),
            forall|g: Handle| final(self).live(g) == old(self).live(g),
            forall|g: Handle|
                g != h && old(self).live(g) ==> final(self).obj(g) == old(self).obj(g),
            final(self).obj(h) == (Object {
                fid: Objects::spec_standing_fid(old(self).obj(h)),
                frame_idx: 0,
                screen_shift: Point {
                    x: Objects::spec_standing_shift(*frm_db, old(self).obj(h)).0 as i32,
                    y: Objects::spec_standing_shift(*frm_db, old(self).obj(h)).1 as i32,
                },
                ..old(self).obj(h)
            }),
    {
        let ghost old_obj = self.obj(h);
        let (new_fid, shift): (crate::asset::FrameId, Point) = {
            let o = self.get(h);
            match o.fid {
                crate::asset::FrameId::Critter(cfid) => {
                    let mut sx: i64 = 0;
                    let mut sy: i64 = 0;
                    if !(cfid.weapon == crate::asset::WeaponKind::Unarmed) {
                        let tfid = cfid.with_anim(crate::asset::CritterAnim::TakeOut).fid();
                        let set = match frm_db.get(tfid) {
                            Some(set) => set,
                            None => {
                                proof {
                                    assert(false);
                                }
                                vstd::pervasive::unreached()
                            },
                        };
                        proof {
                            assert(set.wf());
                        }
                        let frml = set.frame_list(o.direction);
                        let ghost frames = frml.frames@;
                        let n = frml.frames.len();
                        let mut i: usize = 0;
                        while i < n
                            invariant
                                i <= n,
                                n == frames.len(),
                                n <= 0x10000,
                                frml.frames@ == frames,
                                forall|k: int| 0 <= k < n ==> (#[trigger] frames[k]).wf(),
                                (sx as int, sy as int) == frames_shift_sum(frames, i as int),
                                -0x1000000 * (i as int) <= sx <= 0x1000000 * (i as int),
                                -0x1000000 * (i as int) <= sy <= 0x1000000 * (i as int),
                            decreases n - i,
                        {
                            let f = &frml.frames[i];
                            sx = sx + f.shift.x as i64;
                            sy = sy + f.shift.y as i64;
                            i = i + 1;
                        }
                        let sfid = cfid.with_anim(crate::asset::CritterAnim::Stand).with_weapon(
                            crate::asset::WeaponKind::Unarmed,
                        ).fid();
                        let sset = match frm_db.get(sfid) {
                            Some(set) => set,
                            None => {
                                proof {
                                    assert(false);
                                }
                                vstd::pervasive::unreached()
                            },
                        };
                        let sctr = sset.frame_list(o.direction).center;
                        sx = sx + sctr.x as i64;
                        sy = sy + sctr.y as i64;
                    }
                    let anim = if cfid.anim == crate::asset::CritterAnim::FireDance {
                        crate::asset::CritterAnim::FireDance
                    } else {
                        crate::asset::CritterAnim::Stand
                    };
                    proof {
                        assert((sx as int, sy as int) == Objects::spec_standing_shift(
                            *frm_db,
                            old_obj,
                        ));
                    }
                    (cfid.with_anim(anim).fid(), Point { x: sx as i32, y: sy as i32 })
                },
                crate::asset::FrameId::Generic(_) => (o.fid, Point { x: 0, y: 0 }),
            }
        };
        let pos = self.remove_from_tile_grid(h);
        let ghost mid = *self;
        {
            let slot = &mut self.slots[h.index];
            match &mut slot.obj {
                Some(o) => {
                    o.fid = new_fid;
                    o.frame_idx = 0;
                    o.screen_shift = shift;
                },
                None => {
                    proof {
                        assert(false);
                    }
                },
            }
        }
        proof {
            let new_obj = Object {
                fid: new_fid,
                frame_idx: 0,
                screen_shift: shift,
                ..mid.obj(h)
            };
            assert(self.slots@ =~= mid.slots@.update(
                h.index as int,
                Slot { generation: h.generation, obj: Some(new_obj) },
            ));
            assert(old(self).obj_ok(old(self).obj(h)));
            assert(frame_resolved(self.spec_frm_db(), new_obj)) by {
                assert(Objects::spec_standing_fid(old_obj) == new_fid);
            }
            self.lemma_mid_update(mid, h, new_obj);
        }
        self.insert_into_tile_grid(h, pos, false);
    }

    /// The screen rectangle of a stored object's current frame.
    pub fn bounds(&self, obj: Handle, cam: &Camera) -> (r: Rect)
        requires
            self.inv(),
            self.live(obj),
            cam.bounded(),
        ensures
            r == crate::object::spec_bounds0(
                self.obj(obj),
                self.spec_frm_db().spec_center(self.obj(obj).fid, self.obj(obj).direction).unwrap(),
                self.spec_frm_db().spec_frame(
                    self.obj(obj).fid,
                    self.obj(obj).direction,
                    self.obj(obj).frame_idx as int,
                ).unwrap().size,
                *cam,
            ),
    {
        proof {
            assert(self.obj_ok(self.obj(obj)));
        }
        self.get(obj).bounds(&self.frm_db, cam)
    }

    /// Whether a hit at screen point `p` on the wall or scenery object
    /// `o` falls behind the egg mask: the egg covers the point and the
    /// wall's corner geometry faces away from the egg.
    pub fn is_egg_hit(&self, p: Point, o: &Object, egg: Egg, cam: &Camera) -> (r: bool)
        requires
            self.inv(),
            pos_coords_ok(*o),
            cam.bounded(),
            0 <= egg.pos.x <= crate::geom::TILE_COORD_MAX,
            0 <= egg.pos.y <= crate::geom::TILE_COORD_MAX,
            self.spec_frm_db().spec_frame(egg.fid, Direction::NE, 0) is Some,
            match (o.pos, o.pid.spec_proto_id()) {
                (Some(_), Some(pid)) => (pid.kind == crate::asset::EntityKind::Wall || pid.kind
                    == crate::asset::EntityKind::Scenery) ==> self.spec_proto_db().spec_proto(
                    pid,
                ) is Some,
                _ => true,
            },
        ensures
            r == self.spec_is_egg_hit(p, *o, egg, *cam),
    {
        let obj_pos = match o.pos {
            Some(ep) => ep.point,
            None => {
                return false;
            },
        };
        let pid = match o.pid.proto_id() {
            Some(pid) => pid,
            None => {
                return false;
            },
        };
        if !(pid.kind == crate::asset::EntityKind::Wall || pid.kind
            == crate::asset::EntityKind::Scenery) {
            return false;
        }
        if !egg.hit_test(p, cam, &self.frm_db) {
            return false;
        }
        let proto = match self.proto_db.proto(pid) {
            Some(pr) => pr,
            None => {
                proof {
                    assert(false);
                }
                vstd::pervasive::unreached()
            },
        };
        let fe = proto.flags_ext;
        if fe.contains(crate::flags::FlagExt::WallEastOrWest) || fe.contains(
            crate::flags::FlagExt::WallWestCorner,
        ) {
            crate::geom::is_in_front_of(obj_pos, egg.pos)
        } else if fe.contains(crate::flags::FlagExt::WallNorthCorner) {
            crate::geom::is_in_front_of(obj_pos, egg.pos) || crate::geom::is_to_right_of(
                obj_pos,
                egg.pos,
            )
        } else if fe.contains(crate::flags::FlagExt::WallSouthCorner) {
            crate::geom::is_in_front_of(obj_pos, egg.pos) && crate::geom::is_to_right_of(
                obj_pos,
                egg.pos,
            )
        } else {
            crate::geom::is_to_right_of(obj_pos, egg.pos)
        }
    }

    /// What `is_egg_hit` decides: the egg mask covers the point, and the
    /// prototype's wall geometry puts the object behind the egg.
    pub open spec fn spec_is_egg_hit(self, p: Point, o: Object, egg: Egg, cam: Camera) -> bool {
        match (o.pos, o.pid.spec_proto_id()) {
            (Some(ep), Some(pid)) => {
                if !(pid.kind == crate::asset::EntityKind::Wall || pid.kind
                    == crate::asset::EntityKind::Scenery) {
                    false
                } else if !crate::object::spec_egg_hit(egg, p, cam, self.spec_frm_db()) {
                    false
                } else {
                    let fe = self.spec_proto_db().spec_proto(pid).unwrap().flags_ext;
                    let op = ep.point;
                    if fe.has(crate::flags::FlagExt::WallEastOrWest) || fe.has(
                        crate::flags::FlagExt::WallWestCorner,
                    ) {
                        crate::geom::spec_in_front_of(op, egg.pos)
                    } else if fe.has(crate::flags::FlagExt::WallNorthCorner) {
                        crate::geom::spec_in_front_of(op, egg.pos) || crate::geom::spec_to_right_of(
                            op,
                            egg.pos,
                        )
                    } else if fe.has(crate::flags::FlagExt::WallSouthCorner) {
                        crate::geom::spec_in_front_of(op, egg.pos) && crate::geom::spec_to_right_of(
                            op,
                            egg.pos,
                        )
                    } else {
                        crate::geom::spec_to_right_of(op, egg.pos)
                    }
                }
            },
            _ => false,
        }
    }

    /// The tile rectangle the renderer scans for a screen rectangle,
    /// expanded by the fixed margins.
    pub fn get_render_hex_rect(screen_rect: Rect, cam: &Camera) -> (r: Rect)
        requires
            cam.bounded(),
            -0x800000 <= screen_rect.left <= 0x800000,
            -0x800000 <= screen_rect.top <= 0x800000,
            -0x800000 <= screen_rect.right <= 0x800000,
            -0x800000 <= screen_rect.bottom <= 0x800000,
        ensures
            r == Objects::hex_view_rect(*cam, screen_rect),
    {
        let expanded = Rect {
            left: -320,
            top: -190,
            right: screen_rect.width() + 320,
            bottom: screen_rect.height() + 190,
        };
        cam.from_screen_rect(expanded)
    }
}

/// The per-tile light levels the renderer draws under: a looked-up
/// value per position, a default elsewhere, all within `0..=0x10000`.
#[derive(Clone, Debug)]
pub struct Lights {
    default_light: u32,
    entries: Vec<(EPoint, u32)>,
}

/// First light stored for `pos`, scanning from the front.
pub open spec fn light_lookup(entries: Seq<(EPoint, u32)>, pos: EPoint) -> Option<u32>
    decreases entries.len(),
{
    if entries.len() == 0 {
        None
    } else if entries[0].0 == pos {
        Some(entries[0].1)
    } else {
        light_lookup(entries.drop_first(), pos)
    }
}

impl Lights {
    pub closed spec fn spec_default(self) -> u32 {
        self.default_light
    }

    pub open spec fn spec_light_at(self, pos: Option<EPoint>) -> u32 {
        match pos {
            Some(p) => match self.spec_lookup(p) {
                Some(v) => v,
                None => self.spec_default(),
            },
            None => self.spec_default(),
        }
    }

    pub closed spec fn spec_lookup(self, pos: EPoint) -> Option<u32> {
        light_lookup(self.entries@, pos)
    }

    pub open spec fn wf(self) -> bool {
        self.spec_default() <= 0x10000 && forall|p: EPoint|
            (#[trigger] self.spec_lookup(p)) matches Some(v) ==> v <= 0x10000
    }

    /// A light map that answers `default_light` everywhere.
    pub fn new(default_light: u32) -> (r: Lights)
        requires
            default_light <= 0x10000,
        ensures
            r.wf(),
            r.spec_default() == default_light,
            forall|p: EPoint| r.spec_lookup(p) is None,
    {
        Lights { default_light, entries: Vec::new() }
    }

    /// Stores the light level of one tile.
    pub fn put(&mut self, pos: EPoint, light: u32)
        requires
            old(self).wf(),
            light <= 0x10000,
        ensures
            final(self).wf(),
            final(self).spec_default() == old(self).spec_default(),
            final(self).spec_lookup(pos) == Some(light),
            forall|p: EPoint| p != pos ==> final(self).spec_lookup(p) == old(self).spec_lookup(p),
    {
        let ghost old_entries = self.entries@;
        self.entries.insert(0, (pos, light));
        proof {
            assert(self.entries@.drop_first() =~= old_entries);
            assert(self.entries@[0] == (pos, light));
            assert forall|p: EPoint|
                #![trigger self.spec_lookup(p)]
                (self.spec_lookup(p) matches Some(v) ==> v <= 0x10000) by {
                if p != pos {
                    assert(self.spec_lookup(p) == old(self).spec_lookup(p));
                }
            }
        }
    }

    /// The light level under which a tile (or a detached object) draws.
    pub fn light_at(&self, pos: Option<EPoint>) -> (r: u32)
        requires
            self.wf(),
        ensures
            r == self.spec_light_at(pos),
            r <= 0x10000,
    {
        let p = match pos {
            Some(p) => p,
            None => {
                return self.default_light;
            },
        };
        let n = self.entries.len();
        let mut i: usize = 0;
        proof {
            assert(self.entries@.skip(0) =~= self.entries@);
        }
        while i < n
            invariant
                self.wf(),
                pos == Some(p),
                i <= n,
                n == self.entries@.len(),
                light_lookup(self.entries@, p) == light_lookup(self.entries@.skip(i as int), p),
            decreases n - i,
        {
            proof {
                assert(self.entries@.skip(i as int).len() > 0);
                assert(self.entries@.skip(i as int)[0] == self.entries@[i as int]);
                assert(self.entries@.skip(i as int).drop_first() =~= self.entries@.skip(i + 1));
            }
            let e = self.entries[i];
            if e.0 == p {
                proof {
                    assert(self.spec_lookup(p) == Some(e.1));
                }
                return e.1;
            }
            i = i + 1;
        }
        proof {
            assert(self.entries@.skip(n as int).len() == 0);
        }
        self.default_light
    }
}

impl Objects {
    /// Every placed wall or scenery object with a prototype reference
    /// resolves in the prototype database, as the database contract
    /// promises for reachable prototypes.
    pub open spec fn egg_protos_ok(self) -> bool {
        forall|h: Handle|
            #[trigger] self.live(h) ==> (match self.obj(h).pid.spec_proto_id() {
                Some(pid) => (self.obj(h).fid.spec_kind() == crate::asset::EntityKind::Scenery
                    || self.obj(h).fid.spec_kind() == crate::asset::EntityKind::Wall || pid.kind
                    == crate::asset::EntityKind::Scenery || pid.kind
                    == crate::asset::EntityKind::Wall) ==> self.spec_proto_db().spec_proto(
                    pid,
                ) is Some,
                None => true,
            })
    }

    /// The sprite a stored object submits under the given lights.
    pub open spec fn spec_sprite_of(
        self,
        h: Handle,
        lights: Lights,
        cam: Camera,
        egg: Option<Egg>,
    ) -> crate::object::Sprite {
        let o = self.obj(h);
        let light = if o.fid.spec_kind() == crate::asset::EntityKind::Interface {
            0x10000u32
        } else {
            lights.spec_light_at(o.pos)
        };
        crate::object::spec_sprite(
            o,
            light,
            crate::object::spec_get_effect(o, self.spec_proto_db(), cam, egg),
            cam,
        )
    }

    /// The tile rectangle scanned for a screen rectangle, after the
    /// fixed margins are added.
    pub open spec fn hex_view_rect(cam: Camera, screen_rect: Rect) -> Rect {
        let expanded = Rect {
            left: (-320) as i32,
            top: (-190) as i32,
            right: (screen_rect.right - screen_rect.left + 320) as i32,
            bottom: (screen_rect.bottom - screen_rect.top + 190) as i32,
        };
        Rect {
            left: (2 * crate::geom::hex_rect_h_lo(cam, expanded)) as i32,
            top: ((expanded.top - cam.origin.y + 12 * crate::geom::hex_rect_h_lo(cam, expanded))
                / 12 - 1) as i32,
            right: (2 * crate::geom::hex_rect_h_hi(cam, expanded) + 2) as i32,
            bottom: ((expanded.bottom - cam.origin.y + 12 * crate::geom::hex_rect_h_hi(
                cam,
                expanded,
            )) / 12 + 2) as i32,
        }
    }

    /// What one tile's list contributes to a render pass from entry `k`
    /// on: the flat pass stops at the first raised entry (the list is
    /// sorted, flat first), the raised pass skips flat entries, and
    /// turned-off objects draw nothing.
    pub open spec fn render_tile_from(
        self,
        pos: EPoint,
        k: int,
        flat: bool,
        lights: Lights,
        cam: Camera,
        egg: Option<Egg>,
    ) -> Seq<crate::object::Sprite>
        decreases self.tile_list(pos).len() - k,
    {
        let l = self.tile_list(pos);
        if k < 0 || k >= l.len() {
            Seq::empty()
        } else {
            let o = self.obj(l[k]);
            if flat && !o.flags.has(Flag::Flat) {
                Seq::empty()
            } else if !flat && o.flags.has(Flag::Flat) {
                self.render_tile_from(pos, k + 1, flat, lights, cam, egg)
            } else if o.flags.has(Flag::TurnedOff) {
                self.render_tile_from(pos, k + 1, flat, lights, cam, egg)
            } else {
                seq![self.spec_sprite_of(l[k], lights, cam, egg)] + self.render_tile_from(
                    pos,
                    k + 1,
                    flat,
                    lights,
                    cam,
                    egg,
                )
            }
        }
    }

    /// What the tile at column `x`, row `y` contributes: nothing when it
    /// lies off the grid.
    pub open spec fn render_tile(
        self,
        elevation: u32,
        x: int,
        y: int,
        flat: bool,
        lights: Lights,
        cam: Camera,
        egg: Option<Egg>,
    ) -> Seq<crate::object::Sprite> {
        let p = Point { x: x as i32, y: y as i32 };
        if self.spec_grid().spec_in_grid(p) {
            self.render_tile_from(EPoint { elevation, point: p }, 0, flat, lights, cam, egg)
        } else {
            Seq::empty()
        }
    }

    /// What the columns `[left, x)` of row `y` contribute, visited right
    /// to left.
    pub open spec fn render_row_from(
        self,
        elevation: u32,
        y: int,
        left: int,
        x: int,
        flat: bool,
        lights: Lights,
        cam: Camera,
        egg: Option<Egg>,
    ) -> Seq<crate::object::Sprite>
        decreases x - left,
    {
        if x <= left {
            Seq::empty()
        } else {
            self.render_tile(elevation, x - 1, y, flat, lights, cam, egg) + self.render_row_from(
                elevation,
                y,
                left,
                x - 1,
                flat,
                lights,
                cam,
                egg,
            )
        }
    }

    /// What the rows `[y, rect.bottom)` contribute, visited top to
    /// bottom.
    pub open spec fn render_rows_from(
        self,
        elevation: u32,
        rect: Rect,
        y: int,
        flat: bool,
        lights: Lights,
        cam: Camera,
        egg: Option<Egg>,
    ) -> Seq<crate::object::Sprite>
        decreases rect.bottom - y,
    {
        if y >= rect.bottom {
            Seq::empty()
        } else {
            self.render_row_from(
                elevation,
                y,
                rect.left as int,
                rect.right as int,
                flat,
                lights,
                cam,
                egg,
            ) + self.render_rows_from(elevation, rect, y + 1, flat, lights, cam, egg)
        }
    }

    /// One whole render pass over a tile rectangle.
    pub open spec fn spec_render_pass(
        self,
        elevation: u32,
        rect: Rect,
        flat: bool,
        lights: Lights,
        cam: Camera,
        egg: Option<Egg>,
    ) -> Seq<crate::object::Sprite> {
        self.render_rows_from(elevation, rect, rect.top as int, flat, lights, cam, egg)
    }

    /// The full draw list for one elevation and screen rectangle: the
    /// flat pass, then the raised pass, over the scanned tile rectangle.
    /// An elevation the container does not index draws nothing.
    pub open spec fn spec_render(
        self,
        elevation: u32,
        screen_rect: Rect,
        cam: Camera,
        egg: Option<Egg>,
        lights: Lights,
    ) -> Seq<crate::object::Sprite> {
        if elevation as int >= self.spec_elevations() {
            Seq::empty()
        } else {
            let rect = Objects::hex_view_rect(cam, screen_rect);
            self.spec_render_pass(elevation, rect, true, lights, cam, egg)
                + self.spec_render_pass(elevation, rect, false, lights, cam, egg)
        }
    }

    /// The draw list of one elevation for a screen rectangle: exactly
    /// the flat pass followed by the raised pass, walking the scanned
    /// rows top to bottom, each row's columns right to left, each tile's
    /// list in draw order; every visible object of the rectangle submits
    /// exactly its sprite.
    pub fn render(
        &self,
        elevation: u32,
        screen_rect: Rect,
        cam: &Camera,
        egg: Option<Egg>,
        lights: &Lights,
    ) -> (r: Vec<crate::object::Sprite>)
        requires
            self.inv(),
            self.egg_protos_ok(),
            cam.bounded(),
            lights.wf(),
            egg matches Some(e) ==> 0 <= e.pos.x <= crate::geom::TILE_COORD_MAX && 0 <= e.pos.y
                <= crate::geom::TILE_COORD_MAX,
            -0x800000 <= screen_rect.left <= 0x800000,
            -0x800000 <= screen_rect.top <= 0x800000,
            -0x800000 <= screen_rect.right <= 0x800000,
            -0x800000 <= screen_rect.bottom <= 0x800000,
        ensures
            r@ == self.spec_render(elevation, screen_rect, *cam, egg, *lights),
    {
        let hex_rect = Objects::get_render_hex_rect(screen_rect, cam);
        let mut out: Vec<crate::object::Sprite> = Vec::new();
        if elevation as usize >= self.by_pos.len() {
            return out;
        }
        proof {
            assert(hex_rect == Objects::hex_view_rect(*cam, screen_rect));
        }
        self.render_pass(elevation, hex_rect, cam, egg, lights, true, &mut out);
        self.render_pass(elevation, hex_rect, cam, egg, lights, false, &mut out);
        out
    }

    /// One render pass: flat objects when `flat` is set, raised objects
    /// otherwise, appended to `out` in walk order.
    fn render_pass(
        &self,
        elevation: u32,
        hex_rect: Rect,
        cam: &Camera,
        egg: Option<Egg>,
        lights: &Lights,
        flat: bool,
        out: &mut Vec<crate::object::Sprite>,
    )
        requires
            self.inv(),
            self.egg_protos_ok(),
            cam.bounded(),
            lights.wf(),
            (elevation as int) < self.spec_elevations(),
            egg matches Some(e) ==> 0 <= e.pos.x <= crate::geom::TILE_COORD_MAX && 0 <= e.pos.y
                <= crate::geom::TILE_COORD_MAX,
        ensures
            final(out)@ == old(out)@ + self.spec_render_pass(
                elevation,
                hex_rect,
                flat,
                *lights,
                *cam,
                egg,
            ),
    {
        let ghost total = old(out)@ + self.spec_render_pass(
            elevation,
            hex_rect,
            flat,
            *lights,
            *cam,
            egg,
        );
        let mut y = hex_rect.top;
        while y < hex_rect.bottom
            invariant
                self.inv(),
                self.egg_protos_ok(),
                cam.bounded(),
                lights.wf(),
                (elevation as int) < self.spec_elevations(),
                egg matches Some(e) ==> 0 <= e.pos.x <= crate::geom::TILE_COORD_MAX && 0 <= e.pos.y
                    <= crate::geom::TILE_COORD_MAX,
                out@ + self.render_rows_from(elevation, hex_rect, y as int, flat, *lights, *cam, egg)
                    == total,
            decreases hex_rect.bottom - y,
        {
            let mut x = hex_rect.right;
            while x > hex_rect.left
                invariant
                    self.inv(),
                    self.egg_protos_ok(),
                    cam.bounded(),
                    lights.wf(),
                    (elevation as int) < self.spec_elevations(),
                    egg matches Some(e) ==> 0 <= e.pos.x <= crate::geom::TILE_COORD_MAX && 0
                        <= e.pos.y <= crate::geom::TILE_COORD_MAX,
                    y < hex_rect.bottom,
                    x <= hex_rect.right,
                    out@ + self.render_row_from(
                        elevation,
                        y as int,
                        hex_rect.left as int,
                        x as int,
                        flat,
                        *lights,
                        *cam,
                        egg,
                    ) + self.render_rows_from(
                        elevation,
                        hex_rect,
                        y as int + 1,
                        flat,
                        *lights,
                        *cam,
                        egg,
                    ) == total,
                decreases x - hex_rect.left,
            {
                let cx = x - 1;
                let p = Point { x: cx, y };
                let ghost row_rest = self.render_row_from(
                    elevation,
                    y as int,
                    hex_rect.left as int,
                    cx as int,
                    flat,
                    *lights,
                    *cam,
                    egg,
                );
                let ghost rows_rest = self.render_rows_from(
                    elevation,
                    hex_rect,
                    y as int + 1,
                    flat,
                    *lights,
                    *cam,
                    egg,
                );
                if self.tile_grid.in_grid(p) {
                    let pos = EPoint { elevation, point: p };
                    proof {
                        assert(out@ + self.render_tile_from(pos, 0, flat, *lights, *cam, egg)
                            + row_rest + rows_rest == total) by {
                            lemma_seq_assoc4(
                                out@,
                                self.render_tile_from(pos, 0, flat, *lights, *cam, egg),
                                row_rest,
                                rows_rest,
                            );
                        }
                    }
                    let n = self.at(pos).len();
                    let mut k: usize = 0;
                    while k < n
                        invariant_except_break
                            self.inv(),
                            self.egg_protos_ok(),
                            cam.bounded(),
                            lights.wf(),
                            egg matches Some(e) ==> 0 <= e.pos.x <= crate::geom::TILE_COORD_MAX
                                && 0 <= e.pos.y <= crate::geom::TILE_COORD_MAX,
                            self.pos_in_grid(pos),
                            k <= n,
                            n == self.tile_list(pos).len(),
                            out@ + self.render_tile_from(pos, k as int, flat, *lights, *cam, egg)
                                + row_rest + rows_rest == total,
                        ensures
                            out@ + row_rest + rows_rest == total,
                        decreases n - k,
                    {
                        let g = self.at(pos)[k];
                        proof {
                            self.lemma_tile_list_members(pos, k as int);
                            assert(self.obj_ok(self.obj(g)));
                        }
                        let o = self.get(g);
                        if flat && !o.flags.contains(Flag::Flat) {
                            proof {
                                assert(self.render_tile_from(pos, k as int, flat, *lights, *cam, egg)
                                    =~= Seq::<crate::object::Sprite>::empty());
                                lemma_seq_empty_concat(out@, row_rest, rows_rest);
                            }
                            break ;
                        }
                        if !flat && o.flags.contains(Flag::Flat) {
                            k = k + 1;
                            continue ;
                        }
                        if !o.flags.contains(Flag::TurnedOff) {
                            let light = if o.fid.kind() == crate::asset::EntityKind::Interface {
                                0x10000
                            } else {
                                lights.light_at(o.pos)
                            };
                            let effect = o.get_effect(&self.proto_db, cam, egg);
                            let sprite = o.create_sprite(light, effect, cam);
                            let ghost old_out = out@;
                            out.push(sprite);
                            proof {
                                assert(sprite == self.spec_sprite_of(g, *lights, *cam, egg));
                                assert(out@ =~= old_out.push(sprite));
                                assert(self.render_tile_from(pos, k as int, flat, *lights, *cam, egg)
                                    == seq![sprite] + self.render_tile_from(
                                    pos,
                                    k as int + 1,
                                    flat,
                                    *lights,
                                    *cam,
                                    egg,
                                ));
                                lemma_seq_push_shift(
                                    old_out,
                                    sprite,
                                    self.render_tile_from(pos, k as int + 1, flat, *lights, *cam, egg),
                                    row_rest + rows_rest,
                                );
                                assert((out@ + self.render_tile_from(
                                    pos,
                                    k as int + 1,
                                    flat,
                                    *lights,
                                    *cam,
                                    egg,
                                ) + row_rest) + rows_rest =~= out@ + self.render_tile_from(
                                    pos,
                                    k as int + 1,
                                    flat,
                                    *lights,
                                    *cam,
                                    egg,
                                ) + (row_rest + rows_rest));
                            }
                        }
                        k = k + 1;
                        proof {
                            if k == n {
                                assert(self.render_tile_from(pos, k as int, flat, *lights, *cam, egg)
                                    =~= Seq::<crate::object::Sprite>::empty());
                                lemma_seq_empty_concat(out@, row_rest, rows_rest);
                            }
                        }
                    }
                    proof {
                        assert((out@ + row_rest) + rows_rest =~= out@ + (row_rest + rows_rest));
                        assert(self.render_tile(elevation, cx as int, y as int, flat, *lights, *cam, egg)
                            == self.render_tile_from(pos, 0, flat, *lights, *cam, egg));
                    }
                } else {
                    proof {
                        assert(self.render_tile(elevation, cx as int, y as int, flat, *lights, *cam, egg)
                            =~= Seq::<crate::object::Sprite>::empty());
                        lemma_seq_empty_concat(out@, row_rest, rows_rest);
                        assert((out@ + row_rest) + rows_rest =~= out@ + (row_rest + rows_rest));
                    }
                }
                x = cx;
                proof {
                    assert(self.render_row_from(
                        elevation,
                        y as int,
                        hex_rect.left as int,
                        x as int + 1,
                        flat,
                        *lights,
                        *cam,
                        egg,
                    ) == self.render_tile(elevation, x as int, y as int, flat, *lights, *cam, egg)
                        + self.render_row_from(
                        elevation,
                        y as int,
                        hex_rect.left as int,
                        x as int,
                        flat,
                        *lights,
                        *cam,
                        egg,
                    ));
                    assert(out@ + (self.render_row_from(
                        elevation,
                        y as int,
                        hex_rect.left as int,
                        x as int,
                        flat,
                        *lights,
                        *cam,
                        egg,
                    ) + rows_rest) =~= (out@ + self.render_row_from(
                        elevation,
                        y as int,
                        hex_rect.left as int,
                        x as int,
                        flat,
                        *lights,
                        *cam,
                        egg,
                    )) + rows_rest);
                }
            }
            proof {
                assert(self.render_row_from(
                    elevation,
                    y as int,
                    hex_rect.left as int,
                    hex_rect.left as int,
                    flat,
                    *lights,
                    *cam,
                    egg,
                ) =~= Seq::<crate::object::Sprite>::empty());
                assert(out@ + Seq::<crate::object::Sprite>::empty() =~= out@);
                assert(self.render_rows_from(elevation, hex_rect, y as int, flat, *lights, *cam, egg)
                    == self.render_row_from(
                    elevation,
                    y as int,
                    hex_rect.left as int,
                    hex_rect.right as int,
                    flat,
                    *lights,
                    *cam,
                    egg,
                ) + self.render_rows_from(
                    elevation,
                    hex_rect,
                    y as int + 1,
                    flat,
                    *lights,
                    *cam,
                    egg,
                ));
                assert(out@ + (self.render_row_from(
                    elevation,
                    y as int,
                    hex_rect.left as int,
                    hex_rect.right as int,
                    flat,
                    *lights,
                    *cam,
                    egg,
                ) + self.render_rows_from(
                    elevation,
                    hex_rect,
                    y as int + 1,
                    flat,
                    *lights,
                    *cam,
                    egg,
                )) =~= (out@ + self.render_row_from(
                    elevation,
                    y as int,
                    hex_rect.left as int,
                    hex_rect.right as int,
                    flat,
                    *lights,
                    *cam,
                    egg,
                )) + self.render_rows_from(
                    elevation,
                    hex_rect,
                    y as int + 1,
                    flat,
                    *lights,
                    *cam,
                    egg,
                ));
            }
            y = y + 1;
        }
        proof {
            assert(self.render_rows_from(elevation, hex_rect, y as int, flat, *lights, *cam, egg)
                =~= Seq::<crate::object::Sprite>::empty());
            assert(out@ + Seq::<crate::object::Sprite>::empty() =~= out@);
        }
    }

    /// What one tile's list contributes to the outline walk from entry
    /// `k` on: each visible, outlined object submits its outline sprite.
    pub open spec fn outline_tile_from(self, pos: EPoint, k: int, cam: Camera) -> Seq<
        crate::object::Sprite,
    >
        decreases self.tile_list(pos).len() - k,
    {
        let l = self.tile_list(pos);
        if k < 0 || k >= l.len() {
            Seq::empty()
        } else {
            match crate::object::spec_render_outline(self.obj(l[k]), cam) {
                Some(s) => seq![s] + self.outline_tile_from(pos, k + 1, cam),
                None => self.outline_tile_from(pos, k + 1, cam),
            }
        }
    }

    /// Outline contribution of the tile at column `x`, row `y`.
    pub open spec fn outline_tile(self, elevation: u32, x: int, y: int, cam: Camera) -> Seq<
        crate::object::Sprite,
    > {
        let p = Point { x: x as i32, y: y as i32 };
        if self.spec_grid().spec_in_grid(p) {
            self.outline_tile_from(EPoint { elevation, point: p }, 0, cam)
        } else {
            Seq::empty()
        }
    }

    /// Outline contribution of columns `[left, x)` of row `y`, visited
    /// right to left.
    pub open spec fn outline_row_from(
        self,
        elevation: u32,
        y: int,
        left: int,
        x: int,
        cam: Camera,
    ) -> Seq<crate::object::Sprite>
        decreases x - left,
    {
        if x <= left {
            Seq::empty()
        } else {
            self.outline_tile(elevation, x - 1, y, cam) + self.outline_row_from(
                elevation,
                y,
                left,
                x - 1,
                cam,
            )
        }
    }

    /// Outline contribution of rows `[y, rect.bottom)`, visited top to
    /// bottom.
    pub open spec fn outline_rows_from(self, elevation: u32, rect: Rect, y: int, cam: Camera) -> Seq<
        crate::object::Sprite,
    >
        decreases rect.bottom - y,
    {
        if y >= rect.bottom {
            Seq::empty()
        } else {
            self.outline_row_from(elevation, y, rect.left as int, rect.right as int, cam)
                + self.outline_rows_from(elevation, rect, y + 1, cam)
        }
    }

    /// The full outline draw list for one elevation and screen
    /// rectangle.
    pub open spec fn spec_render_outlines(
        self,
        elevation: u32,
        screen_rect: Rect,
        cam: Camera,
    ) -> Seq<crate::object::Sprite> {
        if elevation as int >= self.spec_elevations() {
            Seq::empty()
        } else {
            let rect = Objects::hex_view_rect(cam, screen_rect);
            self.outline_rows_from(elevation, rect, rect.top as int, cam)
        }
    }

    /// The outline sprites of one elevation for a screen rectangle:
    /// exactly one per visible, enabled-outline object of the scanned
    /// rectangle, rows top to bottom, columns right to left, tiles in
    /// draw order.
    pub fn render_outlines(&self, elevation: u32, screen_rect: Rect, cam: &Camera) -> (r: Vec<
        crate::object::Sprite,
    >)
        requires
            self.inv(),
            cam.bounded(),
            -0x800000 <= screen_rect.left <= 0x800000,
            -0x800000 <= screen_rect.top <= 0x800000,
            -0x800000 <= screen_rect.right <= 0x800000,
            -0x800000 <= screen_rect.bottom <= 0x800000,
        ensures
            r@ == self.spec_render_outlines(elevation, screen_rect, *cam),
    {
        let hex_rect = Objects::get_render_hex_rect(screen_rect, cam);
        let mut out: Vec<crate::object::Sprite> = Vec::new();
        if elevation as usize >= self.by_pos.len() {
            return out;
        }
        let ghost total = self.outline_rows_from(
            elevation,
            hex_rect,
            hex_rect.top as int,
            *cam,
        );
        let mut y = hex_rect.top;
        while y < hex_rect.bottom
            invariant
                self.inv(),
                cam.bounded(),
                (elevation as int) < self.spec_elevations(),
                out@ + self.outline_rows_from(elevation, hex_rect, y as int, *cam) == total,
            decreases hex_rect.bottom - y,
        {
            let mut x = hex_rect.right;
            while x > hex_rect.left
                invariant
                    self.inv(),
                    cam.bounded(),
                    (elevation as int) < self.spec_elevations(),
                    y < hex_rect.bottom,
                    x <= hex_rect.right,
                    out@ + self.outline_row_from(
                        elevation,
                        y as int,
                        hex_rect.left as int,
                        x as int,
                        *cam,
                    ) + self.outline_rows_from(elevation, hex_rect, y as int + 1, *cam) == total,
                decreases x - hex_rect.left,
            {
                let cx = x - 1;
                let p = Point { x: cx, y };
                let ghost row_rest = self.outline_row_from(
                    elevation,
                    y as int,
                    hex_rect.left as int,
                    cx as int,
                    *cam,
                );
                let ghost rows_rest = self.outline_rows_from(
                    elevation,
                    hex_rect,
                    y as int + 1,
                    *cam,
                );
                if self.tile_grid.in_grid(p) {
                    let pos = EPoint { elevation, point: p };
                    proof {
                        lemma_seq_assoc4(
                            out@,
                            self.outline_tile_from(pos, 0, *cam),
                            row_rest,
                            rows_rest,
                        );
                    }
                    let n = self.at(pos).len();
                    let mut k: usize = 0;
                    while k < n
                        invariant
                            self.inv(),
                            cam.bounded(),
                            self.pos_in_grid(pos),
                            k <= n,
                            n == self.tile_list(pos).len(),
                            out@ + self.outline_tile_from(pos, k as int, *cam) + row_rest
                                + rows_rest == total,
                        decreases n - k,
                    {
                        let g = self.at(pos)[k];
                        proof {
                            self.lemma_tile_list_members(pos, k as int);
                            assert(self.obj_ok(self.obj(g)));
                        }
                        match self.get(g).render_outline(cam) {
                            Some(sprite) => {
                                let ghost old_out = out@;
                                out.push(sprite);
                                proof {
                                    assert(out@ =~= old_out.push(sprite));
                                    assert(self.outline_tile_from(pos, k as int, *cam) == seq![
                                        sprite,
                                    ] + self.outline_tile_from(pos, k as int + 1, *cam));
                                    lemma_seq_push_shift(
                                        old_out,
                                        sprite,
                                        self.outline_tile_from(pos, k as int + 1, *cam),
                                        row_rest + rows_rest,
                                    );
                                    assert((out@ + self.outline_tile_from(pos, k as int + 1, *cam)
                                        + row_rest) + rows_rest =~= out@ + self.outline_tile_from(
                                        pos,
                                        k as int + 1,
                                        *cam,
                                    ) + (row_rest + rows_rest));
                                }
                            },
                            None => {},
                        }
                        k = k + 1;
                    }
                    proof {
                        assert(self.outline_tile_from(pos, n as int, *cam) =~= Seq::<
                            crate::object::Sprite,
                        >::empty());
                        lemma_seq_empty_concat(out@, row_rest, rows_rest);
                        assert((out@ + row_rest) + rows_rest =~= out@ + (row_rest + rows_rest));
                        assert(self.outline_tile(elevation, cx as int, y as int, *cam)
                            == self.outline_tile_from(pos, 0, *cam));
                    }
                } else {
                    proof {
                        assert(self.outline_tile(elevation, cx as int, y as int, *cam) =~= Seq::<
                            crate::object::Sprite,
                        >::empty());
                        lemma_seq_empty_concat(out@, row_rest, rows_rest);
                        assert((out@ + row_rest) + rows_rest =~= out@ + (row_rest + rows_rest));
                    }
                }
                x = cx;
                proof {
                    assert(self.outline_row_from(
                        elevation,
                        y as int,
                        hex_rect.left as int,
                        x as int + 1,
                        *cam,
                    ) == self.outline_tile(elevation, x as int, y as int, *cam)
                        + self.outline_row_from(
                        elevation,
                        y as int,
                        hex_rect.left as int,
                        x as int,
                        *cam,
                    ));
                    assert(out@ + (self.outline_row_from(
                        elevation,
                        y as int,
                        hex_rect.left as int,
                        x as int,
                        *cam,
                    ) + rows_rest) =~= (out@ + self.outline_row_from(
                        elevation,
                        y as int,
                        hex_rect.left as int,
                        x as int,
                        *cam,
                    )) + rows_rest);
                }
            }
            proof {
                assert(self.outline_row_from(
                    elevation,
                    y as int,
                    hex_rect.left as int,
                    hex_rect.left as int,
                    *cam,
                ) =~= Seq::<crate::object::Sprite>::empty());
                assert(out@ + Seq::<crate::object::Sprite>::empty() =~= out@);
                assert(self.outline_rows_from(elevation, hex_rect, y as int, *cam)
                    == self.outline_row_from(
                    elevation,
                    y as int,
                    hex_rect.left as int,
                    hex_rect.right as int,
                    *cam,
                ) + self.outline_rows_from(elevation, hex_rect, y as int + 1, *cam));
                assert(out@ + (self.outline_row_from(
                    elevation,
                    y as int,
                    hex_rect.left as int,
                    hex_rect.right as int,
                    *cam,
                ) + self.outline_rows_from(elevation, hex_rect, y as int + 1, *cam)) =~= (out@
                    + self.outline_row_from(
                    elevation,
                    y as int,
                    hex_rect.left as int,
                    hex_rect.right as int,
                    *cam,
                )) + self.outline_rows_from(elevation, hex_rect, y as int + 1, *cam));
            }
            y = y + 1;
        }
        proof {
            assert(self.outline_rows_from(elevation, hex_rect, y as int, *cam) =~= Seq::<
                crate::object::Sprite,
            >::empty());
            assert(out@ + Seq::<crate::object::Sprite>::empty() =~= out@);
        }
        out
    }

    /// What one object reports under a hit probe: its own hit record,
    /// with the egg flag set when the egg masks the point on it.
    pub open spec fn hit_entry(self, h: Handle, p: Point, cam: Camera, egg: Option<Egg>) -> Seq<
        (Handle, crate::object::Hit),
    > {
        match crate::object::spec_hit_test(self.obj(h), p, self.spec_frm_db(), cam) {
            Some(hit0) => seq![
                (
                    h,
                    crate::object::Hit {
                        translucent: hit0.translucent,
                        with_egg: egg matches Some(e) && self.spec_is_egg_hit(
                            p,
                            self.obj(h),
                            e,
                            cam,
                        ),
                    },
                ),
            ],
            None => Seq::empty(),
        }
    }

    /// Hit contributions of one tile's entries below index `k`, visited
    /// back to front (topmost-drawn first).
    pub open spec fn hit_tile_rev(
        self,
        pos: EPoint,
        k: int,
        p: Point,
        cam: Camera,
        egg: Option<Egg>,
    ) -> Seq<(Handle, crate::object::Hit)>
        decreases k,
    {
        if k <= 0 {
            Seq::empty()
        } else {
            self.hit_entry(self.tile_list(pos)[k - 1], p, cam, egg) + self.hit_tile_rev(
                pos,
                k - 1,
                p,
                cam,
                egg,
            )
        }
    }

    /// Hit contribution of the tile at column `x`, row `y`.
    pub open spec fn hit_tile(
        self,
        elevation: u32,
        x: int,
        y: int,
        p: Point,
        cam: Camera,
        egg: Option<Egg>,
    ) -> Seq<(Handle, crate::object::Hit)> {
        let tp = Point { x: x as i32, y: y as i32 };
        if self.spec_grid().spec_in_grid(tp) {
            let pos = EPoint { elevation, point: tp };
            self.hit_tile_rev(pos, self.tile_list(pos).len() as int, p, cam, egg)
        } else {
            Seq::empty()
        }
    }

    /// Hit contributions of columns `[x, right)` of row `y`, visited
    /// left to right.
    pub open spec fn hit_row_from(
        self,
        elevation: u32,
        y: int,
        x: int,
        right: int,
        p: Point,
        cam: Camera,
        egg: Option<Egg>,
    ) -> Seq<(Handle, crate::object::Hit)>
        decreases right - x,
    {
        if x >= right {
            Seq::empty()
        } else {
            self.hit_tile(elevation, x, y, p, cam, egg) + self.hit_row_from(
                elevation,
                y,
                x + 1,
                right,
                p,
                cam,
                egg,
            )
        }
    }

    /// Hit contributions of rows `[rect.top, y)`, visited bottom to top.
    pub open spec fn hit_rows_from(
        self,
        elevation: u32,
        rect: Rect,
        y: int,
        p: Point,
        cam: Camera,
        egg: Option<Egg>,
    ) -> Seq<(Handle, crate::object::Hit)>
        decreases y - rect.top,
    {
        if y <= rect.top {
            Seq::empty()
        } else {
            self.hit_row_from(elevation, y - 1, rect.left as int, rect.right as int, p, cam, egg)
                + self.hit_rows_from(elevation, rect, y - 1, p, cam, egg)
        }
    }

    /// The full hit report for a screen point.
    pub open spec fn spec_hit_test_at(
        self,
        p: EPoint,
        screen_rect: Rect,
        cam: Camera,
        egg: Option<Egg>,
    ) -> Seq<(Handle, crate::object::Hit)> {
        if p.elevation as int >= self.spec_elevations() {
            Seq::empty()
        } else {
            let rect = Objects::hex_view_rect(cam, screen_rect);
            self.hit_rows_from(p.elevation, rect, rect.bottom as int, p.point, cam, egg)
        }
    }

    /// Hit-tests a screen point against every object of the visible
    /// rectangle: exactly one entry per object whose own hit test at the
    /// point succeeds, rows bottom to top, columns left to right, each
    /// tile's list back to front (topmost-drawn first), the egg flag per
    /// the egg-mask geometry.
    pub fn hit_test(&self, p: EPoint, screen_rect: Rect, cam: &Camera, egg: Option<Egg>) -> (r: Vec<
        (Handle, crate::object::Hit),
    >)
        requires
            self.inv(),
            self.egg_protos_ok(),
            cam.bounded(),
            egg matches Some(e) ==> 0 <= e.pos.x <= crate::geom::TILE_COORD_MAX && 0 <= e.pos.y
                <= crate::geom::TILE_COORD_MAX && self.spec_frm_db().spec_frame(
                e.fid,
                Direction::NE,
                0,
            ) is Some,
            -0x800000 <= screen_rect.left <= 0x800000,
            -0x800000 <= screen_rect.top <= 0x800000,
            -0x800000 <= screen_rect.right <= 0x800000,
            -0x800000 <= screen_rect.bottom <= 0x800000,
        ensures
            r@ == self.spec_hit_test_at(p, screen_rect, *cam, egg),
    {
        let mut out: Vec<(Handle, crate::object::Hit)> = Vec::new();
        let hex_rect = Objects::get_render_hex_rect(screen_rect, cam);
        if p.elevation as usize >= self.by_pos.len() {
            return out;
        }
        let ghost total = self.hit_rows_from(
            p.elevation,
            hex_rect,
            hex_rect.bottom as int,
            p.point,
            *cam,
            egg,
        );
        let mut y = hex_rect.bottom;
        while y > hex_rect.top
            invariant
                self.inv(),
                self.egg_protos_ok(),
                cam.bounded(),
                (p.elevation as int) < self.spec_elevations(),
                egg matches Some(e) ==> 0 <= e.pos.x <= crate::geom::TILE_COORD_MAX && 0 <= e.pos.y
                    <= crate::geom::TILE_COORD_MAX && self.spec_frm_db().spec_frame(
                    e.fid,
                    Direction::NE,
                    0,
                ) is Some,
                y >= hex_rect.top || y == hex_rect.bottom,
                out@ + self.hit_rows_from(p.elevation, hex_rect, y as int, p.point, *cam, egg)
                    == total,
            decreases y - hex_rect.top,
        {
            let cy = y - 1;
            let ghost rows_rest = self.hit_rows_from(
                p.elevation,
                hex_rect,
                cy as int,
                p.point,
                *cam,
                egg,
            );
            proof {
                assert(self.hit_rows_from(p.elevation, hex_rect, y as int, p.point, *cam, egg)
                    == self.hit_row_from(
                    p.elevation,
                    cy as int,
                    hex_rect.left as int,
                    hex_rect.right as int,
                    p.point,
                    *cam,
                    egg,
                ) + rows_rest);
                assert(out@ + (self.hit_row_from(
                    p.elevation,
                    cy as int,
                    hex_rect.left as int,
                    hex_rect.right as int,
                    p.point,
                    *cam,
                    egg,
                ) + rows_rest) =~= (out@ + self.hit_row_from(
                    p.elevation,
                    cy as int,
                    hex_rect.left as int,
                    hex_rect.right as int,
                    p.point,
                    *cam,
                    egg,
                )) + rows_rest);
            }
            let mut x = hex_rect.left;
            while x < hex_rect.right
                invariant
                    self.inv(),
                    self.egg_protos_ok(),
                    cam.bounded(),
                    (p.elevation as int) < self.spec_elevations(),
                    egg matches Some(e) ==> 0 <= e.pos.x <= crate::geom::TILE_COORD_MAX && 0
                        <= e.pos.y <= crate::geom::TILE_COORD_MAX && self.spec_frm_db().spec_frame(
                        e.fid,
                        Direction::NE,
                        0,
                    ) is Some,
                    x >= hex_rect.left,
                    out@ + self.hit_row_from(
                        p.elevation,
                        cy as int,
                        x as int,
                        hex_rect.right as int,
                        p.point,
                        *cam,
                        egg,
                    ) + rows_rest == total,
                decreases hex_rect.right - x,
            {
                let tp = Point { x, y: cy };
                let ghost row_rest = self.hit_row_from(
                    p.elevation,
                    cy as int,
                    x as int + 1,
                    hex_rect.right as int,
                    p.point,
                    *cam,
                    egg,
                );
                proof {
                    assert(self.hit_row_from(
                        p.elevation,
                        cy as int,
                        x as int,
                        hex_rect.right as int,
                        p.point,
                        *cam,
                        egg,
                    ) == self.hit_tile(p.elevation, x as int, cy as int, p.point, *cam, egg)
                        + row_rest);
                }
                if self.tile_grid.in_grid(tp) {
                    let pos = EPoint { elevation: p.elevation, point: tp };
                    let n = self.at(pos).len();
                    proof {
                        assert(self.hit_tile(p.elevation, x as int, cy as int, p.point, *cam, egg)
                            == self.hit_tile_rev(pos, n as int, p.point, *cam, egg));
                        lemma_seq_assoc4(
                            out@,
                            self.hit_tile_rev(pos, n as int, p.point, *cam, egg),
                            row_rest,
                            rows_rest,
                        );
                    }
                    let mut k: usize = n;
                    while k > 0
                        invariant
                            self.inv(),
                            self.egg_protos_ok(),
                            cam.bounded(),
                            self.pos_in_grid(pos),
                            egg matches Some(e) ==> 0 <= e.pos.x <= crate::geom::TILE_COORD_MAX
                                && 0 <= e.pos.y <= crate::geom::TILE_COORD_MAX
                                && self.spec_frm_db().spec_frame(e.fid, Direction::NE, 0) is Some,
                            k <= n,
                            n == self.tile_list(pos).len(),
                            out@ + self.hit_tile_rev(pos, k as int, p.point, *cam, egg) + row_rest
                                + rows_rest == total,
                        decreases k,
                    {
                        k = k - 1;
                        let g = self.at(pos)[k];
                        proof {
                            self.lemma_tile_list_members(pos, k as int);
                            assert(self.obj_ok(self.obj(g)));
                            assert(self.hit_tile_rev(pos, k as int + 1, p.point, *cam, egg)
                                == self.hit_entry(g, p.point, *cam, egg) + self.hit_tile_rev(
                                pos,
                                k as int,
                                p.point,
                                *cam,
                                egg,
                            ));
                        }
                        let o = self.get(g);
                        match o.hit_test(p.point, &self.frm_db, cam) {
                            Some(hit0) => {
                                let with_egg = match egg {
                                    Some(e) => self.is_egg_hit(p.point, o, e, cam),
                                    None => false,
                                };
                                let hit = crate::object::Hit {
                                    translucent: hit0.translucent,
                                    with_egg,
                                };
                                let ghost old_out = out@;
                                out.push((g, hit));
                                proof {
                                    assert(out@ =~= old_out.push((g, hit)));
                                    assert(self.hit_entry(g, p.point, *cam, egg) == seq![(g, hit)]);
                                    lemma_seq_push_shift(
                                        old_out,
                                        (g, hit),
                                        self.hit_tile_rev(pos, k as int, p.point, *cam, egg),
                                        row_rest + rows_rest,
                                    );
                                    assert((out@ + self.hit_tile_rev(pos, k as int, p.point, *cam, egg)
                                        + row_rest) + rows_rest =~= out@ + self.hit_tile_rev(
                                        pos,
                                        k as int,
                                        p.point,
                                        *cam,
                                        egg,
                                    ) + (row_rest + rows_rest));
                                }
                            },
                            None => {
                                proof {
                                    assert(self.hit_entry(g, p.point, *cam, egg) =~= Seq::<
                                        (Handle, crate::object::Hit),
                                    >::empty());
                                    assert(self.hit_tile_rev(pos, k as int + 1, p.point, *cam, egg)
                                        =~= self.hit_tile_rev(pos, k as int, p.point, *cam, egg));
                                }
                            },
                        }
                    }
                    proof {
                        assert(self.hit_tile_rev(pos, 0, p.point, *cam, egg) =~= Seq::<
                            (Handle, crate::object::Hit),
                        >::empty());
                        lemma_seq_empty_concat(out@, row_rest, rows_rest);
                        assert((out@ + row_rest) + rows_rest =~= out@ + (row_rest + rows_rest));
                    }
                } else {
                    proof {
                        assert(self.hit_tile(p.elevation, x as int, cy as int, p.point, *cam, egg)
                            =~= Seq::<(Handle, crate::object::Hit)>::empty());
                        lemma_seq_empty_concat(out@, row_rest, rows_rest);
                        assert((out@ + row_rest) + rows_rest =~= out@ + (row_rest + rows_rest));
                    }
                }
                x = x + 1;
                proof {
                    assert(out@ + (self.hit_row_from(
                        p.elevation,
                        cy as int,
                        x as int,
                        hex_rect.right as int,
                        p.point,
                        *cam,
                        egg,
                    ) + rows_rest) =~= (out@ + self.hit_row_from(
                        p.elevation,
                        cy as int,
                        x as int,
                        hex_rect.right as int,
                        p.point,
                        *cam,
                        egg,
                    )) + rows_rest);
                }
            }
            proof {
                assert(self.hit_row_from(
                    p.elevation,
                    cy as int,
                    hex_rect.right as int,
                    hex_rect.right as int,
                    p.point,
                    *cam,
                    egg,
                ) =~= Seq::<(Handle, crate::object::Hit)>::empty());
                assert(out@ + Seq::<(Handle, crate::object::Hit)>::empty() =~= out@);
                if hex_rect.left >= hex_rect.right {
                    assert(self.hit_row_from(
                        p.elevation,
                        cy as int,
                        hex_rect.left as int,
                        hex_rect.right as int,
                        p.point,
                        *cam,
                        egg,
                    ) =~= Seq::<(Handle, crate::object::Hit)>::empty());
                }
            }
            y = cy;
        }
        proof {
            assert(self.hit_rows_from(p.elevation, hex_rect, y as int, p.point, *cam, egg) =~= Seq::<
                (Handle, crate::object::Hit),
            >::empty());
            assert(out@ + Seq::<(Handle, crate::object::Hit)>::empty() =~= out@);
        }
        out
    }
}

/// Concatenation regrouping for one emitted element: pushing the head of
/// the remaining sequence onto the output keeps output-plus-remaining.
proof fn lemma_seq_push_shift<T>(out: Seq<T>, v: T, rest1: Seq<T>, rest2: Seq<T>)
    ensures
        out + ((seq![v] + rest1) + rest2) =~= (out.push(v) + rest1) + rest2,
        out + (seq![v] + rest1) + rest2 =~= out.push(v) + rest1 + rest2,
{
    assert(out + ((seq![v] + rest1) + rest2) =~= (out.push(v) + rest1) + rest2);
    assert(out + (seq![v] + rest1) + rest2 =~= out.push(v) + rest1 + rest2);
}

/// Dropping an empty middle piece of a three-part concatenation.
proof fn lemma_seq_empty_concat<T>(out: Seq<T>, rest1: Seq<T>, rest2: Seq<T>)
    ensures
        out + Seq::<T>::empty() + rest1 + rest2 =~= out + rest1 + rest2,
        (out + Seq::<T>::empty()) + rest1 + rest2 =~= (out + rest1) + rest2,
{
}

/// Regrouping a four-part concatenation.
proof fn lemma_seq_assoc4<T>(a: Seq<T>, b: Seq<T>, c: Seq<T>, d: Seq<T>)
    ensures
        a + b + c + d =~= a + ((b + c) + d),
        a + b + c + d =~= a + (b + (c + d)),
        a + (b + c) + d =~= a + b + c + d,
{
}

/// A tile of the grid has a row-major index within the grid's area.
proof fn lemma_tile_index_bounds(w: int, h: int, p: Point)
    requires
        0 <= p.x < w,
        0 <= p.y < h,
    ensures
        0 <= p.y * w + p.x < w * h,
{
    assert(0 <= p.y * w + p.x < w * h) by (nonlinear_arith)
        requires
            0 <= p.x < w,
            0 <= p.y < h,
    ;
}

/// Row-major tile indexing is injective on the grid.
proof fn lemma_tile_index_inj(w: int, p1: Point, p2: Point)
    requires
        w > 0,
        0 <= p1.x < w,
        0 <= p2.x < w,
        0 <= p1.y,
        0 <= p2.y,
        p1.y * w + p1.x == p2.y * w + p2.x,
    ensures
        p1 == p2,
{
    assert(p1.y == p2.y && p1.x == p2.x) by (nonlinear_arith)
        requires
            w > 0,
            0 <= p1.x < w,
            0 <= p2.x < w,
            0 <= p1.y,
            0 <= p2.y,
            p1.y * w + p1.x == p2.y * w + p2.x,
    ;
    assert(p1 == p2);
}

/// Membership in a sequence after inserting one element.
proof fn lemma_seq_insert_contains<T>(s: Seq<T>, i: int, v: T, x: T)
    requires
        0 <= i <= s.len(),
    ensures
        s.insert(i, v).contains(x) <==> (s.contains(x) || x == v),
{
    let s2 = s.insert(i, v);
    if s.contains(x) {
        let j = choose|j: int| 0 <= j < s.len() && s[j] == x;
        if j < i {
            assert(s2[j] == x);
        } else {
            assert(s2[j + 1] == x);
        }
    }
    assert(s2[i] == v);
    if s2.contains(x) && x != v {
        let j = choose|j: int| 0 <= j < s2.len() && s2[j] == x;
        if j < i {
            assert(s[j] == x);
        } else {
            assert(j != i);
            assert(s[j - 1] == x);
        }
    }
}

/// Membership in a sequence after removing one element, when the
/// sequence has no duplicates.
proof fn lemma_seq_remove_contains<T>(s: Seq<T>, i: int, x: T)
    requires
        0 <= i < s.len(),
        forall|k1: int, k2: int| 0 <= k1 < k2 < s.len() ==> s[k1] != s[k2],
    ensures
        s.remove(i).contains(x) <==> (s.contains(x) && x != s[i]),
{
    let s2 = s.remove(i);
    if s2.contains(x) {
        let j = choose|j: int| 0 <= j < s2.len() && s2[j] == x;
        if j < i {
            assert(s[j] == x);
        } else {
            assert(s[j + 1] == x);
        }
    }
    if s.contains(x) && x != s[i] {
        let j = choose|j: int| 0 <= j < s.len() && s[j] == x;
        assert(j != i);
        if j < i {
            assert(s2[j] == x);
        } else {
            assert(s2[j - 1] == x);
        }
    }
}

} // verus!
