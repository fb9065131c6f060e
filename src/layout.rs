use vstd::prelude::*;

verus! {

/// Whether the half-open intervals `[a, a + la)` and `[b, b + lb)` share a stretch of
/// nonzero length.
pub open spec fn spans_overlap(a: int, la: int, b: int, lb: int) -> bool {
    let lo = if a >= b {
        a
    } else {
        b
    };
    let hi = if a + la <= b + lb {
        a + la
    } else {
        b + lb
    };
    lo < hi
}

/// Whether the rectangle at `(x1, z1)` of size `w1` by `h1` and the one at `(x2, z2)` of
/// size `w2` by `h2` overlap with nonzero area. Touching edges or corners do not count.
pub open spec fn overlap_spec(
    x1: int,
    z1: int,
    w1: int,
    h1: int,
    x2: int,
    z2: int,
    w2: int,
    h2: int,
) -> bool {
    spans_overlap(x1, w1, x2, w2) && spans_overlap(z1, h1, z2, h2)
}

/// Tests whether two axis-aligned rectangles, each given by its minimum corner and its
/// extents, overlap with nonzero area. Rectangles that only touch do not overlap, and one
/// of zero width or height overlaps nothing.
pub fn boxes_overlap(
    x1: isize,
    z1: isize,
    w1: u16,
    h1: u16,
    x2: isize,
    z2: isize,
    w2: u16,
    h2: u16,
) -> (r: bool)
    ensures
        r == overlap_spec(
            x1 as int,
            z1 as int,
            w1 as int,
            h1 as int,
            x2 as int,
            z2 as int,
            w2 as int,
            h2 as int,
        ),
{
    let (ax, az, bx, bz) = (x1 as i128, z1 as i128, x2 as i128, z2 as i128);
    let x_overlap = ax < ax + w1 as i128 && bx < bx + w2 as i128 && ax < bx + w2 as i128 && bx
        < ax + w1 as i128;
    let z_overlap = az < az + h1 as i128 && bz < bz + h2 as i128 && az < bz + h2 as i128 && bz
        < az + h1 as i128;
    x_overlap && z_overlap
}

/// An axis-aligned footprint on the cave grid: minimum corner and extents.
#[derive(Clone, Copy, Debug, PartialEq, Eq, Structural)]
pub struct Rect {
    pub x: isize,
    pub z: isize,
    pub w: u16,
    pub h: u16,
}

/// Whether two footprints overlap with nonzero area.
pub open spec fn rects_overlap(a: Rect, b: Rect) -> bool {
    overlap_spec(a.x as int, a.z as int, a.w as int, a.h as int, b.x as int, b.z as int, b.w as int, b.h as int)
}

impl Rect {
    /// Whether this footprint and `other` overlap with nonzero area.
    pub fn overlaps(&self, other: &Rect) -> (r: bool)
        ensures
            r == rects_overlap(*self, *other),
    {
        boxes_overlap(self.x, self.z, self.w, self.h, other.x, other.z, other.w, other.h)
    }
}

/// The direction a door faces.
#[derive(Clone, Copy, Debug, PartialEq, Eq, Structural)]
pub enum Direction {
    North,
    East,
    South,
    West,
}

/// The direction opposite `d`.
pub open spec fn opposite_spec(d: Direction) -> Direction {
    match d {
        Direction::North => Direction::South,
        Direction::East => Direction::West,
        Direction::South => Direction::North,
        Direction::West => Direction::East,
    }
}

impl Direction {
    /// The direction opposite this one.
    pub fn opposite(&self) -> (r: Direction)
        ensures
            r == opposite_spec(*self),
    {
        match self {
            Direction::North => Direction::South,
            Direction::East => Direction::West,
            Direction::South => Direction::North,
            Direction::West => Direction::East,
        }
    }
}

/// A door in world coordinates: where it stands and which way it faces.
#[derive(Clone, Copy, Debug, PartialEq, Eq, Structural)]
pub struct Door {
    pub x: isize,
    pub z: isize,
    pub dir: Direction,
}

/// Whether doors `a` and `b` can be joined: they stand at the same place and face
/// opposite ways.
pub open spec fn doors_meet(a: Door, b: Door) -> bool {
    a.x == b.x && a.z == b.z && b.dir == opposite_spec(a.dir)
}

impl Door {
    /// Whether this door and `other` can be joined.
    pub fn meets(&self, other: &Door) -> (r: bool)
        ensures
            r == doors_meet(*self, *other),
    {
        self.x == other.x && self.z == other.z && other.dir == self.dir.opposite()
    }
}

/// A spawned entity: its type, the unit it stands in, and where.
#[derive(Clone, Copy, Debug, PartialEq, Eq, Structural)]
pub struct Entity {
    pub kind: usize,
    pub unit: usize,
    pub x: isize,
    pub z: isize,
}

/// Whether the point `(x, z)` lies inside footprint `r`.
pub open spec fn inside(r: Rect, x: int, z: int) -> bool {
    r.x <= x < r.x + r.w && r.z <= z < r.z + r.h
}

/// What a layout holds: its units' footprints and template identities in placement order,
/// the doors still open, and the pairs of doors that were joined, in the order they were
/// joined.
pub struct LayoutView {
    pub units: Seq<Rect>,
    pub kinds: Seq<usize>,
    pub open_doors: Seq<Door>,
    pub links: Seq<(Door, Door)>,
    pub entities: Seq<Entity>,
}

/// Whether a layout is sound: no two units overlap and every joined pair of doors meets.
pub open spec fn layout_ok(v: LayoutView) -> bool {
    &&& v.kinds.len() == v.units.len()
    &&& forall|i: int, j: int|
        0 <= i < v.units.len() && 0 <= j < v.units.len() && i != j ==> !rects_overlap(
            #[trigger] v.units[i],
            #[trigger] v.units[j],
        )
    &&& forall|k: int| 0 <= k < v.links.len() ==> doors_meet(#[trigger] v.links[k].0, v.links[k].1)
    &&& forall|k: int|
        0 <= k < v.entities.len() ==> (#[trigger] v.entities[k]).unit < v.units.len() && inside(
            v.units[v.entities[k].unit as int],
            v.entities[k].x as int,
            v.entities[k].z as int,
        )
}

/// Whether `r` overlaps any of `units`.
pub open spec fn hits_any(units: Seq<Rect>, r: Rect) -> bool {
    exists|i: int| 0 <= i < units.len() && rects_overlap(#[trigger] units[i], r)
}

/// A layout under construction: placed units, open doors and joined door pairs.
pub struct Layout {
    units: Vec<Rect>,
    kinds: Vec<usize>,
    open_doors: Vec<Door>,
    links: Vec<(Door, Door)>,
    entities: Vec<Entity>,
}

impl View for Layout {
    type V = LayoutView;

    closed spec fn view(&self) -> LayoutView {
        LayoutView { units: self.units@, kinds: self.kinds@, open_doors: self.open_doors@, links: self.links@, entities: self.entities@ }
    }
}

impl Layout {
    /// Whether this layout is sound.
    pub closed spec fn wf(&self) -> bool {
        layout_ok(self@)
    }

    /// Starts a layout from one unit, of template `kind`, whose doors are all open.
    pub fn new(start: Rect, kind: usize, doors: Vec<Door>) -> (r: Layout)
        ensures
            r.wf(),
            r@.units == seq![start],
            r@.kinds == seq![kind],
            r@.open_doors == doors@,
            r@.links == Seq::<(Door, Door)>::empty(),
            r@.entities == Seq::<Entity>::empty(),
    {
        let r = Layout { units: vec![start], kinds: vec![kind], open_doors: doors, links: Vec::new(), entities: Vec::new() };
        assert(r@.units =~= seq![start]);
        assert(r@.kinds =~= seq![kind]);
        r
    }

    /// Whether `r` overlaps any placed unit.
    pub fn collides(&self, r: &Rect) -> (b: bool)
        ensures
            b == hits_any(self@.units, *r),
    {
        let mut i: usize = 0;
        while i < self.units.len()
            invariant
                i <= self@.units.len(),
                forall|j: int| 0 <= j < i ==> !rects_overlap(#[trigger] self@.units[j], *r),
            decreases self@.units.len() - i,
        {
            if self.units[i].overlaps(r) {
                return true;
            }
            i += 1;
        }
        false
    }

    /// Places `unit`, of template `kind`, whose doors are `doors`, by joining its door `own` to the open door
    /// `via`. This succeeds exactly when both indices exist, the two doors meet and the
    /// unit overlaps no placed unit. Then the unit is appended, the pair is recorded as
    /// joined, door `via` is no longer open and the unit's other doors are open after the
    /// others. Otherwise nothing changes.
    pub fn try_place(&mut self, unit: Rect, kind: usize, doors: Vec<Door>, via: usize, own: usize) -> (placed: bool)
        requires
            old(self).wf(),
        ensures
            final(self).wf(),
            placed == (via < old(self)@.open_doors.len() && own < doors@.len() && doors_meet(
                old(self)@.open_doors[via as int],
                doors@[own as int],
            ) && !hits_any(old(self)@.units, unit)),
            placed ==> final(self)@.units == old(self)@.units.push(unit),
            placed ==> final(self)@.kinds == old(self)@.kinds.push(kind),
            placed ==> final(self)@.links == old(self)@.links.push(
                (old(self)@.open_doors[via as int], doors@[own as int]),
            ),
            placed ==> final(self)@.entities == old(self)@.entities,
            placed ==> final(self)@.open_doors == old(self)@.open_doors.remove(via as int) + doors@.remove(
                own as int,
            ),
            placed ==> forall|k: int|
                0 <= k < doors@.len() && k != own ==> final(self)@.open_doors.contains(
                    #[trigger] doors@[k],
                ),
            !placed ==> final(self)@ == old(self)@,
    {
        if via >= self.open_doors.len() || own >= doors.len() {
            return false;
        }
        if !self.open_doors[via].meets(&doors[own]) {
            return false;
        }
        if self.collides(&unit) {
            return false;
        }
        let ghost before = self@;
        let ghost ds = doors@;
        let mut rest = doors;
        let joined = rest.remove(own);
        let open = self.open_doors.remove(via);
        self.open_doors.append(&mut rest);
        self.links.push((open, joined));
        self.units.push(unit);
        self.kinds.push(kind);
        proof {
            assert forall|i: int, j: int|
                0 <= i < self@.units.len() && 0 <= j < self@.units.len() && i != j implies !rects_overlap(
                #[trigger] self@.units[i],
                #[trigger] self@.units[j],
            ) by {
                let n = before.units.len() as int;
                if i == n {
                    assert(self@.units[j] == before.units[j]);
                    assert(!rects_overlap(before.units[j], unit));
                    assert(rects_overlap(unit, before.units[j]) == rects_overlap(before.units[j], unit));
                } else if j == n {
                    assert(self@.units[i] == before.units[i]);
                } else {
                    assert(self@.units[i] == before.units[i]);
                    assert(self@.units[j] == before.units[j]);
                }
            }
            let ghost rest_doors = before.open_doors.remove(via as int);
            assert forall|k: int| 0 <= k < ds.len() && k != own implies self@.open_doors.contains(
                #[trigger] ds[k],
            ) by {
                let j = if k < own {
                    k
                } else {
                    k - 1
                };
                assert(ds.remove(own as int)[j] == ds[k]);
                assert(self@.open_doors[rest_doors.len() + j] == ds[k]);
            }
            assert forall|k: int| 0 <= k < self@.entities.len() implies (#[trigger] self@.entities[k]).unit
                < self@.units.len() && inside(
                self@.units[self@.entities[k].unit as int],
                self@.entities[k].x as int,
                self@.entities[k].z as int,
            ) by {
                assert(self@.entities[k] == before.entities[k]);
                assert(self@.units[before.entities[k].unit as int] == before.units[before.entities[k].unit as int]);
            }
            assert forall|k: int| 0 <= k < self@.links.len() implies doors_meet(
                #[trigger] self@.links[k].0,
                self@.links[k].1,
            ) by {
                if k < before.links.len() {
                    assert(self@.links[k] == before.links[k]);
                }
            }
        }
        true
    }

    /// Adds entity `e` when it stands inside the unit it names; otherwise nothing changes.
    pub fn add_entity(&mut self, e: Entity) -> (added: bool)
        requires
            old(self).wf(),
        ensures
            final(self).wf(),
            added == (e.unit < old(self)@.units.len() && inside(
                old(self)@.units[e.unit as int],
                e.x as int,
                e.z as int,
            )),
            added ==> final(self)@ == (LayoutView { entities: old(self)@.entities.push(e), ..old(self)@ }),
            !added ==> final(self)@ == old(self)@,
    {
        if e.unit >= self.units.len() {
            return false;
        }
        let r = self.units[e.unit];
        let in_x = (r.x as i128) <= (e.x as i128) && (e.x as i128) < (r.x as i128) + (r.w as i128);
        let in_z = (r.z as i128) <= (e.z as i128) && (e.z as i128) < (r.z as i128) + (r.h as i128);
        if !(in_x && in_z) {
            return false;
        }
        self.entities.push(e);
        assert(self@ =~= (LayoutView { entities: old(self)@.entities.push(e), ..old(self)@ }));
        true
    }

    /// The spawned entities, in the order they were spawned.
    pub fn entities(&self) -> (r: &Vec<Entity>)
        ensures
            r@ == self@.entities,
    {
        &self.entities
    }

    /// The number of placed units.
    pub fn num_units(&self) -> (n: usize)
        ensures
            n == self@.units.len(),
    {
        self.units.len()
    }

    /// The footprint of unit `i`.
    pub fn unit(&self, i: usize) -> (r: Rect)
        requires
            i < self@.units.len(),
        ensures
            r == self@.units[i as int],
    {
        self.units[i]
    }

    /// The template identity of unit `i`.
    pub fn kind(&self, i: usize) -> (r: usize)
        requires
            self.wf(),
            i < self@.units.len(),
        ensures
            r == self@.kinds[i as int],
    {
        self.kinds[i]
    }

    /// The doors still open, in the order they were opened.
    pub fn open_doors(&self) -> (r: &Vec<Door>)
        ensures
            r@ == self@.open_doors,
    {
        &self.open_doors
    }

    /// The joined door pairs, in the order they were joined.
    pub fn links(&self) -> (r: &Vec<(Door, Door)>)
        ensures
            r@ == self@.links,
    {
        &self.links
    }
}

/// In a sound layout no two placed units overlap.
pub proof fn lemma_units_disjoint(l: &Layout, i: int, j: int)
    requires
        l.wf(),
        0 <= i < l@.units.len(),
        0 <= j < l@.units.len(),
        i != j,
    ensures
        !rects_overlap(l@.units[i], l@.units[j]),
{
}

/// A sound layout knows the template identity of each of its units.
pub proof fn lemma_kinds_match(l: &Layout)
    requires
        l.wf(),
    ensures
        l@.kinds.len() == l@.units.len(),
{
}

/// In a sound layout every entity stands inside the unit it names.
pub proof fn lemma_entities_inside(l: &Layout, k: int)
    requires
        l.wf(),
        0 <= k < l@.entities.len(),
    ensures
        l@.entities[k].unit < l@.units.len(),
        inside(l@.units[l@.entities[k].unit as int], l@.entities[k].x as int, l@.entities[k].z as int),
{
}

/// In a sound layout every joined pair of doors stands at one place and faces opposite ways.
pub proof fn lemma_links_meet(l: &Layout, k: int)
    requires
        l.wf(),
        0 <= k < l@.links.len(),
    ensures
        l@.links[k].0.x == l@.links[k].1.x,
        l@.links[k].0.z == l@.links[k].1.z,
        l@.links[k].1.dir == opposite_spec(l@.links[k].0.dir),
{
}

} // verus!
