use crate::layout::{
    doors_meet, hits_any, inside, lemma_kinds_match, Direction, Door, Entity, Layout, LayoutView, Rect,
};
use crate::rng::{
    lemma_prefix_sum_monotone, next_state, prefix_sum, raw_output, scaled, weighted_index, PikminRng,
};
use crate::slug::slug_of;
use vstd::prelude::*;

verus! {

/// A door of a unit template: its offset from the unit's minimum corner and the way it faces.
#[derive(Clone, Copy, Debug, PartialEq, Eq, Structural)]
pub struct DoorSpot {
    pub dx: u16,
    pub dz: u16,
    pub dir: Direction,
}

/// The world position of a door at `spot` on a unit whose minimum corner is `(x, z)`.
pub open spec fn world_door(x: int, z: int, spot: DoorSpot) -> (int, int) {
    (x + spot.dx as int, z + spot.dz as int)
}

/// The door at `spot` on the unit at footprint `r`, in world coordinates.
pub open spec fn door_at(r: Rect, spot: DoorSpot) -> Door {
    Door { x: (r.x + spot.dx) as isize, z: (r.z + spot.dz) as isize, dir: spot.dir }
}

/// The doors at `spots` on the unit at footprint `r`, in order.
pub open spec fn doors_at(r: Rect, spots: Seq<DoorSpot>) -> Seq<Door> {
    Seq::new(spots.len(), |k: int| door_at(r, spots[k]))
}

/// Whether `v` is representable as an `isize`.
pub open spec fn in_isize(v: int) -> bool {
    isize::MIN <= v <= isize::MAX
}

/// Whether a unit of `spots` put at `(x, z)` has all its coordinates in range.
pub open spec fn placement_fits(x: int, z: int, spots: Seq<DoorSpot>) -> bool {
    &&& in_isize(x)
    &&& in_isize(z)
    &&& forall|k: int|
        0 <= k < spots.len() ==> in_isize(world_door(x, z, #[trigger] spots[k]).0) && in_isize(
            world_door(x, z, spots[k]).1,
        )
}

/// The doors at `spots` of a unit whose footprint is `r`, in world coordinates; `None`
/// where one of them lies out of range.
pub fn world_doors(r: Rect, spots: &Vec<DoorSpot>) -> (ds: Option<Vec<Door>>)
    ensures
        ds is Some <==> placement_fits(r.x as int, r.z as int, spots@),
        ds matches Some(v) ==> v@ == doors_at(r, spots@),
{
    let mut out: Vec<Door> = Vec::new();
    let mut k: usize = 0;
    while k < spots.len()
        invariant
            k <= spots@.len(),
            out@.len() == k,
            forall|j: int| 0 <= j < k ==> out@[j] == door_at(r, #[trigger] spots@[j]),
            forall|j: int|
                0 <= j < k ==> in_isize(world_door(r.x as int, r.z as int, #[trigger] spots@[j]).0)
                    && in_isize(world_door(r.x as int, r.z as int, spots@[j]).1),
        decreases spots@.len() - k,
    {
        let s = spots[k];
        let x = r.x.checked_add(s.dx as isize);
        let z = r.z.checked_add(s.dz as isize);
        match (x, z) {
            (Some(x), Some(z)) => {
                out.push(Door { x, z, dir: s.dir });
            },
            _ => {
                let ghost w = world_door(r.x as int, r.z as int, spots@[k as int]);
                assert(!(in_isize(w.0) && in_isize(w.1)));
                assert(!placement_fits(r.x as int, r.z as int, spots@));
                return None;
            },
        }
        k += 1;
    }
    assert(out@ =~= doors_at(r, spots@));
    Some(out)
}

/// How many rejected candidates a generation run tolerates before it gives up.
pub const MAX_FAILED_ATTEMPTS: u32 = 64;

/// A room or corridor template: its footprint, its weight in the draw, its doors, and
/// its spawn table (the weight of each entity type, by index).
pub struct UnitTemplate {
    pub w: u16,
    pub h: u16,
    pub weight: u32,
    pub doors: Vec<DoorSpot>,
    pub spawns: Vec<u32>,
}

/// The sum of a template's spawn weights.
pub open spec fn spawn_total(t: &UnitTemplate) -> int {
    prefix_sum(t.spawns@, t.spawns@.len())
}

/// The template of identity `kind`: the starting one for `START_KIND`, else candidate
/// `kind - 1`.
pub open spec fn template_of(s: &SublevelSpec, kind: usize) -> UnitTemplate {
    if kind == START_KIND {
        s.start
    } else {
        s.candidates@[kind - 1]
    }
}

/// The template identity of the starting unit; candidate `k` has identity `k + 1`.
pub const START_KIND: usize = 0;

/// What a sublevel is built from: the starting unit, the candidates drawn after it, and
/// how many units the finished layout holds, the starting one included.
pub struct SublevelSpec {
    pub start: UnitTemplate,
    pub candidates: Vec<UnitTemplate>,
    pub budget: usize,
}

/// Why generation produced no layout.
#[derive(Clone, Copy, Debug, PartialEq, Eq, Structural)]
pub enum GenerationError {
    /// The specification cannot be generated from at all.
    InvalidSpec,
    /// The retry bound was reached, or no open door was left, before the budget was met.
    GenerationFailure,
}

/// The draw weights of the candidates, in order.
pub open spec fn weights_of(c: Seq<UnitTemplate>) -> Seq<u32> {
    Seq::new(c.len(), |i: int| c[i].weight)
}

/// The sum of the candidates' weights.
pub open spec fn total_weight(c: Seq<UnitTemplate>) -> int {
    prefix_sum(weights_of(c), c.len())
}

/// Whether a specification can be generated from: a budget of at least one unit, total
/// candidate and spawn weights that fit in 32 bits, and a positive total candidate weight
/// where more than the starting unit is asked for.
pub open spec fn spec_valid(s: &SublevelSpec) -> bool {
    &&& s.budget >= 1
    &&& spawn_total(&s.start) <= u32::MAX
    &&& forall|k: int| 0 <= k < s.candidates@.len() ==> spawn_total(&#[trigger] s.candidates@[k]) <= u32::MAX
    &&& total_weight(s.candidates@) <= u32::MAX
    &&& s.budget > 1 ==> total_weight(s.candidates@) > 0
}

/// The footprint of the starting unit: at the origin.
pub open spec fn start_rect(t: &UnitTemplate) -> Rect {
    Rect { x: 0, z: 0, w: t.w, h: t.h }
}

/// The draw weights of `candidates`, or `None` where their sum does not fit in 32 bits.
fn candidate_weights(candidates: &Vec<UnitTemplate>) -> (r: Option<Vec<u32>>)
    ensures
        r is Some <==> total_weight(candidates@) <= u32::MAX,
        r matches Some(w) ==> w@ == weights_of(candidates@),
{
    let ghost ws = weights_of(candidates@);
    let mut out: Vec<u32> = Vec::new();
    let mut total: u32 = 0;
    let mut i: usize = 0;
    while i < candidates.len()
        invariant
            i <= candidates@.len(),
            ws == weights_of(candidates@),
            out@ == ws.subrange(0, i as int),
            total == prefix_sum(ws, i as nat),
        decreases candidates@.len() - i,
    {
        let w = candidates[i].weight;
        assert(prefix_sum(ws, (i + 1) as nat) == total + w);
        if w > u32::MAX - total {
            proof {
                lemma_prefix_sum_monotone(ws, (i + 1) as nat, candidates@.len());
            }
            return None;
        }
        total = total + w;
        out.push(w);
        i += 1;
    }
    assert(out@ =~= ws);
    Some(out)
}

/// The layout a run starts from: the starting unit at the origin with all its doors open.
pub open spec fn start_view(spec: &SublevelSpec) -> LayoutView {
    LayoutView {
        units: seq![start_rect(&spec.start)],
        kinds: seq![START_KIND],
        open_doors: doors_at(start_rect(&spec.start), spec.start.doors@),
        links: seq![],
        entities: seq![],
    }
}

/// The layout after putting template `t`, as identity `kind`, where its door `own`
/// coincides with the open door `via` of `v`; `None` where a coordinate is out of range,
/// the doors do not meet, or the unit overlaps a placed one.
#[verifier::opaque]
pub open spec fn attempt_spec(v: LayoutView, t: UnitTemplate, kind: usize, via: int, own: int) -> Option<
    LayoutView,
> {
    let open = v.open_doors[via];
    let spot = t.doors@[own];
    let x = open.x - spot.dx;
    let z = open.z - spot.dz;
    if !(in_isize(x) && in_isize(z)) {
        None
    } else {
        let r = Rect { x: x as isize, z: z as isize, w: t.w, h: t.h };
        if !placement_fits(x, z, t.doors@) {
            None
        } else {
            let ds = doors_at(r, t.doors@);
            if doors_meet(open, ds[own]) && !hits_any(v.units, r) {
                Some(
                    LayoutView {
                        units: v.units.push(r),
                        kinds: v.kinds.push(kind),
                        open_doors: v.open_doors.remove(via) + ds.remove(own),
                        links: v.links.push((open, ds[own])),
                        entities: v.entities,
                    },
                )
            } else {
                None
            }
        }
    }
}

/// Where one step of a run leads.
pub enum Progress {
    /// The run goes on with this layout, generator state and count of failed attempts.
    Going(LayoutView, u32, u32),
    /// The run gives up.
    Failed,
}

/// One step of a run from layout `v`, generator state `s` and `f` failed attempts: draw a
/// candidate by weight, then an open door, then one of the candidate's doors, and attempt
/// the placement.
#[verifier::opaque]
pub open spec fn step(spec: &SublevelSpec, v: LayoutView, s: u32, f: u32) -> Progress {
    if f >= MAX_FAILED_ATTEMPTS {
        Progress::Failed
    } else if v.open_doors.len() == 0 || v.open_doors.len() > u32::MAX {
        Progress::Failed
    } else {
        let s1 = next_state(s);
        let target = scaled(raw_output(s1), total_weight(spec.candidates@) as u32);
        match weighted_index(weights_of(spec.candidates@), target as int) {
            None => Progress::Failed,
            Some(ti) => {
                let t = spec.candidates@[ti as int];
                let s2 = next_state(s1);
                let via = scaled(raw_output(s2), v.open_doors.len() as u32);
                let nd = t.doors@.len();
                if nd == 0 || nd > u32::MAX {
                    Progress::Going(v, s2, (f + 1) as u32)
                } else {
                    let s3 = next_state(s2);
                    let own = scaled(raw_output(s3), nd as u32);
                    match attempt_spec(v, t, (ti + 1) as usize, via as int, own as int) {
                        Some(v2) => Progress::Going(v2, s3, f),
                        None => Progress::Going(v, s3, (f + 1) as u32),
                    }
                }
            },
        }
    }
}

/// How the placement part of a run ends.
pub enum Outcome {
    /// The budget was met, with this layout and generator state.
    Done(LayoutView, u32),
    /// The run gave up.
    GaveUp,
}

/// The placement part of a run, for at most `fuel` more steps.
#[verifier::opaque]
pub open spec fn run(spec: &SublevelSpec, v: LayoutView, s: u32, f: u32, fuel: nat) -> Outcome
    decreases fuel,
{
    if v.units.len() >= spec.budget {
        Outcome::Done(v, s)
    } else if fuel == 0 {
        Outcome::GaveUp
    } else {
        match step(spec, v, s, f) {
            Progress::Failed => Outcome::GaveUp,
            Progress::Going(v2, s2, f2) => run(spec, v2, s2, f2, (fuel - 1) as nat),
        }
    }
}

/// The spawn pass on unit `i` of `v` from generator state `s`: where the unit's template
/// has a positive spawn total, draw an entity type by weight, then an offset within the
/// template's footprint, and add the entity where it stands inside the unit.
#[verifier::opaque]
pub open spec fn spawn_unit(spec: &SublevelSpec, v: LayoutView, s: u32, i: int) -> (LayoutView, u32) {
    let t = template_of(spec, v.kinds[i]);
    if spawn_total(&t) == 0 {
        (v, s)
    } else {
        let s1 = next_state(s);
        match weighted_index(t.spawns@, scaled(raw_output(s1), spawn_total(&t) as u32) as int) {
            None => (v, s1),
            Some(ek) => {
                let s2 = next_state(s1);
                let s3 = next_state(s2);
                let r = v.units[i];
                let x = r.x + scaled(raw_output(s2), t.w as u32);
                let z = r.z + scaled(raw_output(s3), t.h as u32);
                if in_isize(x) && in_isize(z) && inside(r, x, z) {
                    let e = Entity { kind: ek, unit: i as usize, x: x as isize, z: z as isize };
                    (LayoutView { entities: v.entities.push(e), ..v }, s3)
                } else {
                    (v, s3)
                }
            },
        }
    }
}

/// The spawn pass over the first `n` units.
#[verifier::opaque]
pub open spec fn spawn_upto(spec: &SublevelSpec, v: LayoutView, s: u32, n: nat) -> (LayoutView, u32)
    decreases n,
{
    if n == 0 {
        (v, s)
    } else {
        let p = spawn_upto(spec, v, s, (n - 1) as nat);
        spawn_unit(spec, p.0, p.1, n - 1)
    }
}

/// The steps a run can take at most: each places a unit or fails an attempt.
pub open spec fn step_bound(spec: &SublevelSpec) -> nat {
    (MAX_FAILED_ATTEMPTS + spec.budget - 1) as nat
}

/// What generation yields for `seed` and `spec`.
#[verifier::opaque]
pub open spec fn generated(seed: u32, spec: &SublevelSpec) -> Result<LayoutView, GenerationError> {
    if !spec_valid(spec) {
        Err(GenerationError::InvalidSpec)
    } else {
        match run(spec, start_view(spec), seed, 0, step_bound(spec)) {
            Outcome::GaveUp => Err(GenerationError::GenerationFailure),
            Outcome::Done(v, s) => Ok(spawn_upto(spec, v, s, v.units.len()).0),
        }
    }
}

/// Generation is deterministic: two successful runs on the same seed and specification
/// give the same layout, and so the same slug.
pub proof fn lemma_generation_deterministic(seed: u32, spec: &SublevelSpec, a: &Layout, b: &Layout)
    requires
        generated(seed, spec) == Ok::<LayoutView, GenerationError>(a@),
        generated(seed, spec) == Ok::<LayoutView, GenerationError>(b@),
    ensures
        a@ == b@,
        slug_of(a@.kinds, a@.units, a@.units.len()) == slug_of(b@.kinds, b@.units, b@.units.len()),
{
}

/// The sum of `w`, or `None` where it does not fit in 32 bits.
fn table_total(w: &Vec<u32>) -> (r: Option<u32>)
    ensures
        r is Some <==> prefix_sum(w@, w@.len()) <= u32::MAX,
        r matches Some(t) ==> t == prefix_sum(w@, w@.len()),
{
    let mut total: u32 = 0;
    let mut i: usize = 0;
    while i < w.len()
        invariant
            i <= w@.len(),
            total == prefix_sum(w@, i as nat),
        decreases w@.len() - i,
    {
        if w[i] > u32::MAX - total {
            proof {
                lemma_prefix_sum_monotone(w@, (i + 1) as nat, w@.len());
            }
            return None;
        }
        total = total + w[i];
        i += 1;
    }
    Some(total)
}

/// Whether every spawn table of `spec` sums to a 32-bit value.
fn spawns_fit(spec: &SublevelSpec) -> (r: bool)
    ensures
        r == (spawn_total(&spec.start) <= u32::MAX && forall|k: int|
            0 <= k < spec.candidates@.len() ==> spawn_total(&#[trigger] spec.candidates@[k]) <= u32::MAX),
{
    if table_total(&spec.start.spawns).is_none() {
        return false;
    }
    let mut i: usize = 0;
    while i < spec.candidates.len()
        invariant
            i <= spec.candidates@.len(),
            forall|k: int| 0 <= k < i ==> spawn_total(&#[trigger] spec.candidates@[k]) <= u32::MAX,
        decreases spec.candidates@.len() - i,
    {
        if table_total(&spec.candidates[i].spawns).is_none() {
            return false;
        }
        i += 1;
    }
    true
}

/// The spawn pass: for each unit in placement order whose template's spawn table has a
/// positive total, draws an entity type by weight and then an offset within the template's
/// footprint, and adds the entity there. Draws continue the generator's stream.
fn spawn_entities(layout: &mut Layout, spec: &SublevelSpec, rng: &mut PikminRng)
    requires
        old(layout).wf(),
        old(layout)@.entities.len() == 0,
        spec_valid(spec),
        forall|i: int|
            0 <= i < old(layout)@.kinds.len() ==> #[trigger] old(layout)@.kinds[i] <= spec.candidates@.len(),
    ensures
        final(layout).wf(),
        (final(layout)@, final(rng)@) == spawn_upto(spec, old(layout)@, old(rng)@, old(layout)@.units.len()),
        final(layout)@.units == old(layout)@.units,
        final(layout)@.kinds == old(layout)@.kinds,
        final(layout)@.links == old(layout)@.links,
        final(layout)@.open_doors == old(layout)@.open_doors,
        final(layout)@.entities.len() <= final(layout)@.units.len(),
        forall|k: int|
            0 <= k < final(layout)@.entities.len() ==> spawn_total(
                &template_of(spec, final(layout)@.kinds[(#[trigger] final(layout)@.entities[k]).unit as int]),
            ) > 0,
{
    proof {
        lemma_kinds_match(layout);
        reveal(spawn_upto);
    }
    let n = layout.num_units();
    let mut i: usize = 0;
    while i < n
        invariant
            i <= n == layout@.units.len() == layout@.kinds.len(),
            layout.wf(),
            spec_valid(spec),
            (layout@, rng@) == spawn_upto(spec, old(layout)@, old(rng)@, i as nat),
            layout@.units == old(layout)@.units,
            layout@.kinds == old(layout)@.kinds,
            layout@.links == old(layout)@.links,
            layout@.open_doors == old(layout)@.open_doors,
            layout@.entities.len() <= i,
            forall|j: int| 0 <= j < layout@.kinds.len() ==> #[trigger] layout@.kinds[j] <= spec.candidates@.len(),
            forall|k: int|
                0 <= k < layout@.entities.len() ==> spawn_total(
                    &template_of(spec, layout@.kinds[(#[trigger] layout@.entities[k]).unit as int]),
                ) > 0,
        decreases n - i,
    {
        let ghost v = layout@;
        let ghost s = rng@;
        let kind = layout.kind(i);
        let t = if kind == START_KIND {
            &spec.start
        } else {
            assert(kind - 1 < spec.candidates@.len());
            &spec.candidates[kind - 1]
        };
        assert(spawn_total(t) <= u32::MAX);
        let total = match table_total(&t.spawns) {
            Some(total) => total,
            None => 0,
        };
        if total > 0 {
            if let Some(ek) = rng.rand_index_weight(&t.spawns) {
                let dx = rng.rand_int(t.w as u32);
                let dz = rng.rand_int(t.h as u32);
                let r = layout.unit(i);
                match (r.x.checked_add(dx as isize), r.z.checked_add(dz as isize)) {
                    (Some(x), Some(z)) => {
                        layout.add_entity(Entity { kind: ek, unit: i, x, z });
                    },
                    _ => {},
                }
            }
        }
        proof {
            reveal(spawn_unit);
            reveal(spawn_upto);
            assert(*t == template_of(spec, v.kinds[i as int]));
            assert((layout@, rng@) == spawn_unit(spec, v, s, i as int));
        }
        i += 1;
    }
}

/// Tries to put template `t`, as identity `kind`, where its door `own` coincides with the
/// layout's open door `via`, and places it if the doors meet and it overlaps nothing.
fn attempt(layout: &mut Layout, t: &UnitTemplate, kind: usize, via: usize, own: usize) -> (placed: bool)
    requires
        old(layout).wf(),
        old(layout)@.open_doors.len() > via,
        t.doors@.len() > own,
    ensures
        final(layout).wf(),
        placed ==> final(layout)@.units.len() == old(layout)@.units.len() + 1,
        placed ==> final(layout)@.units == old(layout)@.units.push(final(layout)@.units.last()),
        placed ==> final(layout)@.kinds == old(layout)@.kinds.push(kind),
        placed ==> final(layout)@.entities == old(layout)@.entities,
        match attempt_spec(old(layout)@, *t, kind, via as int, own as int) {
            Some(v2) => placed && final(layout)@ == v2,
            None => !placed && final(layout)@ == old(layout)@,
        },
        !placed ==> final(layout)@ == old(layout)@,
{
    reveal(attempt_spec);
    let open = layout.open_doors()[via];
    let spot = t.doors[own];
    match (open.x.checked_sub(spot.dx as isize), open.z.checked_sub(spot.dz as isize)) {
        (Some(x), Some(z)) => {
            let r = Rect { x, z, w: t.w, h: t.h };
            match world_doors(r, &t.doors) {
                Some(ds) => layout.try_place(r, kind, ds, via, own),
                None => false,
            }
        },
        _ => false,
    }
}

/// One step of `run` where the budget is not met and fuel is left.
proof fn lemma_run_unfold(spec: &SublevelSpec, v: LayoutView, s: u32, f: u32, fuel: nat)
    requires
        v.units.len() < spec.budget,
        fuel > 0,
    ensures
        run(spec, v, s, f, fuel) == match step(spec, v, s, f) {
            Progress::Failed => Outcome::GaveUp,
            Progress::Going(v2, s2, f2) => run(spec, v2, s2, f2, (fuel - 1) as nat),
        },
{
    reveal(run);
}

/// `run` ends at once where the budget is met.
proof fn lemma_run_done(spec: &SublevelSpec, v: LayoutView, s: u32, f: u32, fuel: nat)
    requires
        v.units.len() >= spec.budget,
    ensures
        run(spec, v, s, f, fuel) == Outcome::Done(v, s),
{
    reveal(run);
}

/// The steps a run from layout `v` with `f` failed attempts can still take.
pub open spec fn measure(spec: &SublevelSpec, v: LayoutView, f: u32) -> nat {
    ((MAX_FAILED_ATTEMPTS - f) + (spec.budget - v.units.len())) as nat
}

/// One step of a run, as `step` says: `None` where the run gives up, else the new count
/// of failed attempts.
fn one_step(
    layout: &mut Layout,
    spec: &SublevelSpec,
    weights: &Vec<u32>,
    total: u32,
    rng: &mut PikminRng,
    failures: u32,
) -> (r: Option<u32>)
    requires
        old(layout).wf(),
        spec_valid(spec),
        weights@ == weights_of(spec.candidates@),
        total == total_weight(spec.candidates@),
        1 <= old(layout)@.units.len() < spec.budget,
        old(layout)@.kinds.len() == old(layout)@.units.len(),
        old(layout)@.kinds[0] == START_KIND,
        old(layout)@.entities.len() == 0,
        forall|i: int|
            1 <= i < old(layout)@.kinds.len() ==> 1 <= #[trigger] old(layout)@.kinds[i]
                <= spec.candidates@.len(),
        failures <= MAX_FAILED_ATTEMPTS,
    ensures
        final(layout).wf(),
        final(layout)@.kinds.len() == final(layout)@.units.len(),
        final(layout)@.units[0] == old(layout)@.units[0],
        final(layout)@.kinds[0] == START_KIND,
        final(layout)@.entities.len() == 0,
        forall|i: int|
            1 <= i < final(layout)@.kinds.len() ==> 1 <= #[trigger] final(layout)@.kinds[i]
                <= spec.candidates@.len(),
        r is None ==> final(layout)@ == old(layout)@,
        match r {
            None => step(spec, old(layout)@, old(rng)@, failures) == Progress::Failed,
            Some(f2) => step(spec, old(layout)@, old(rng)@, failures) == Progress::Going(
                final(layout)@,
                final(rng)@,
                f2,
            ) && f2 <= MAX_FAILED_ATTEMPTS && ((f2 == failures + 1 && final(layout)@.units.len()
                == old(layout)@.units.len()) || (f2 == failures && final(layout)@.units.len()
                == old(layout)@.units.len() + 1)),
        },
{
    let ghost v = layout@;
    let ghost s = rng@;
    let ghost f = failures;
    proof {
        reveal(step);
    }
    if failures >= MAX_FAILED_ATTEMPTS {
        return None;
    }
    let open_count = layout.open_doors().len();
    if open_count == 0 || open_count > u32::MAX as usize {
        return None;
    }
    let ti = match rng.rand_index_weight(weights) {
        Some(ti) => ti,
        None => {
            return None;
        },
    };
    let n_candidates = spec.candidates.len();
    assert(ti < n_candidates);
    let t = &spec.candidates[ti];
    let di = rng.rand_int(open_count as u32) as usize;
    let nd = t.doors.len();
    if nd == 0 || nd > u32::MAX as usize {
        assert(step(spec, v, s, f) == Progress::Going(layout@, rng@, (failures + 1) as u32));
        return Some(failures + 1);
    }
    let oi = rng.rand_int(nd as u32) as usize;
    let placed = attempt(layout, t, ti + 1, di, oi);
    let f2 = if placed {
        failures
    } else {
        failures + 1
    };
    assert(step(spec, v, s, f) == Progress::Going(layout@, rng@, f2));
    Some(f2)
}

/// The placement part of a run: places units until the layout holds `spec.budget` of them
/// (`true`), or gives up (`false`), as `run` says.
fn place_units(
    layout: &mut Layout,
    spec: &SublevelSpec,
    weights: &Vec<u32>,
    total: u32,
    rng: &mut PikminRng,
) -> (ok: bool)
    requires
        old(layout).wf(),
        spec_valid(spec),
        weights@ == weights_of(spec.candidates@),
        total == total_weight(spec.candidates@),
        1 <= old(layout)@.units.len() <= spec.budget,
        old(layout)@.kinds.len() == old(layout)@.units.len(),
        old(layout)@.kinds[0] == START_KIND,
        old(layout)@.entities.len() == 0,
        forall|i: int|
            1 <= i < old(layout)@.kinds.len() ==> 1 <= #[trigger] old(layout)@.kinds[i]
                <= spec.candidates@.len(),
    ensures
        final(layout).wf(),
        final(layout)@.units.len() <= spec.budget,
        ok ==> final(layout)@.units.len() == spec.budget,
        final(layout)@.kinds.len() == final(layout)@.units.len(),
        final(layout)@.units[0] == old(layout)@.units[0],
        final(layout)@.kinds[0] == START_KIND,
        final(layout)@.entities.len() == 0,
        forall|i: int|
            1 <= i < final(layout)@.kinds.len() ==> 1 <= #[trigger] final(layout)@.kinds[i]
                <= spec.candidates@.len(),
        run(spec, old(layout)@, old(rng)@, 0, measure(spec, old(layout)@, 0)) == if ok {
            Outcome::Done(final(layout)@, final(rng)@)
        } else {
            Outcome::GaveUp
        },
{
    let mut failures: u32 = 0;
    while layout.num_units() < spec.budget
        invariant
            layout.wf(),
            1 <= layout@.units.len() <= spec.budget,
            layout@.units[0] == old(layout)@.units[0],
            layout@.kinds.len() == layout@.units.len(),
            layout@.kinds[0] == START_KIND,
            layout@.entities.len() == 0,
            forall|i: int|
                1 <= i < layout@.kinds.len() ==> 1 <= #[trigger] layout@.kinds[i] <= spec.candidates@.len(),
            weights@ == weights_of(spec.candidates@),
            total == total_weight(spec.candidates@),
            prefix_sum(weights@, weights@.len()) == total,
            spec.budget > 1 ==> total > 0,
            failures <= MAX_FAILED_ATTEMPTS,
            spec_valid(spec),
            run(spec, layout@, rng@, failures, measure(spec, layout@, failures)) == run(
                spec,
                old(layout)@,
                old(rng)@,
                0,
                measure(spec, old(layout)@, 0),
            ),
            decreases (MAX_FAILED_ATTEMPTS - failures) + (spec.budget - layout@.units.len()),
    {
        proof {
            lemma_run_unfold(spec, layout@, rng@, failures, measure(spec, layout@, failures));
        }
        match one_step(layout, spec, weights, total, rng, failures) {
            Some(f2) => {
                failures = f2;
            },
            None => {
                return false;
            },
        }
    }
    proof {
        lemma_run_done(spec, layout@, rng@, failures, measure(spec, layout@, failures));
    }
    true
}

/// Builds a layout for `seed` from `spec`. The starting unit stands at the origin with all
/// its doors open. Then, until the layout holds `spec.budget` units, each step draws a
/// candidate by weight, an open door and one of the candidate's doors, puts the candidate
/// where that door coincides with the open one, and places it if the doors face each
/// other and it overlaps nothing; otherwise the step counts as a failed attempt. After
/// `MAX_FAILED_ATTEMPTS` failed attempts, or with no open door left, generation fails.
/// Once the budget is met, the spawn pass continues the same generator stream. A
/// specification that is not `spec_valid` is refused before anything is drawn.
#[verifier::loop_isolation(false)]
pub fn generate(seed: u32, spec: &SublevelSpec) -> (r: Result<Layout, GenerationError>)
    ensures
        r == Err::<Layout, GenerationError>(GenerationError::InvalidSpec) <==> !spec_valid(spec),
        r matches Ok(l) ==> l.wf() && l@.units.len() == spec.budget && l@.units[0] == start_rect(
            &spec.start,
        ) && l@.kinds[0] == START_KIND && forall|i: int|
            1 <= i < l@.kinds.len() ==> 1 <= #[trigger] l@.kinds[i] <= spec.candidates@.len(),
        r matches Ok(l) ==> l@.entities.len() <= l@.units.len() && forall|k: int|
            0 <= k < l@.entities.len() ==> spawn_total(
                &template_of(spec, l@.kinds[(#[trigger] l@.entities[k]).unit as int]),
            ) > 0,
        spec_valid(spec) && spec.budget == 1 ==> (r matches Ok(l) && l@.links.len() == 0
            && l@.open_doors == doors_at(start_rect(&spec.start), spec.start.doors@)),
        match r {
            Ok(l) => generated(seed, spec) == Ok::<LayoutView, GenerationError>(l@),
            Err(e) => generated(seed, spec) == Err::<LayoutView, GenerationError>(e),
        },
{
    proof {
        reveal(generated);
    }
    if spec.budget == 0 {
        return Err(GenerationError::InvalidSpec);
    }
    let weights = match candidate_weights(&spec.candidates) {
        Some(w) => w,
        None => {
            return Err(GenerationError::InvalidSpec);
        },
    };
    let total = match table_total(&weights) {
        Some(t) => t,
        None => {
            return Err(GenerationError::InvalidSpec);
        },
    };
    if spec.budget > 1 && total == 0 {
        return Err(GenerationError::InvalidSpec);
    }
    if !spawns_fit(spec) {
        return Err(GenerationError::InvalidSpec);
    }
    let start = Rect { x: 0, z: 0, w: spec.start.w, h: spec.start.h };
    assert forall|k: int| 0 <= k < spec.start.doors@.len() implies in_isize(
        world_door(0, 0, #[trigger] spec.start.doors@[k]).0,
    ) && in_isize(world_door(0, 0, spec.start.doors@[k]).1) by {
        assert(spec.start.doors@[k].dx <= u16::MAX && spec.start.doors@[k].dz <= u16::MAX);
    }
    let start_doors = match world_doors(start, &spec.start.doors) {
        Some(ds) => ds,
        None => {
            return Err(GenerationError::GenerationFailure);
        },
    };
    let mut layout = Layout::new(start, START_KIND, start_doors);
    let mut rng = PikminRng::new(seed);
    proof {
        assert(layout@ == start_view(spec));
        assert(measure(spec, layout@, 0) == step_bound(spec));
    }
    if spec.budget == 1 {
        proof {
            lemma_run_done(spec, layout@, seed, 0, step_bound(spec));
        }
        spawn_entities(&mut layout, spec, &mut rng);
        return Ok(layout);
    }
    if !place_units(&mut layout, spec, &weights, total, &mut rng) {
        return Err(GenerationError::GenerationFailure);
    }
    spawn_entities(&mut layout, spec, &mut rng);
    Ok(layout)
}

} // verus!
