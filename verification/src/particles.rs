//! Cosmetic particles: requests gathered during a turn, spawned as real
//! entities afterwards, and culled once their lifetime runs out.

use vstd::prelude::*;
use crate::components::{ParticleLifetime, Position, Renderable, Rgb};
use crate::damage::suffer_nonneg;
use crate::ecs::EntityId;
use crate::inventory_system::{aoe_ok, heal_ok, inflict_ok};
use crate::map::on_map;
use crate::visibility::{positions_on_map, ranges_ok};
use crate::world::World;

verus! {

#[derive(Clone, Copy, PartialEq, Eq, Structural, Debug)]
pub struct ParticleRequest {
    pub x: i32,
    pub y: i32,
    pub fg: Rgb,
    pub bg: Rgb,
    pub glyph: u8,
    pub lifetime: u32,
}

/// Collects particle requests made while the systems run.
pub struct ParticleBuilder {
    reqs: Vec<ParticleRequest>,
}

impl View for ParticleBuilder {
    type V = Seq<ParticleRequest>;

    closed spec fn view(&self) -> Seq<ParticleRequest> {
        self.reqs@
    }
}

impl ParticleBuilder {
    pub fn new() -> (b: ParticleBuilder)
        ensures
            b@.len() == 0,
    {
        ParticleBuilder { reqs: Vec::new() }
    }

    /// Queues one particle request.
    pub fn requests(&mut self, x: i32, y: i32, fg: Rgb, bg: Rgb, glyph: u8, lifetime: u32)
        ensures
            final(self)@ == old(self)@.push(
                ParticleRequest { x, y, fg, bg, glyph, lifetime },
            ),
    {
        self.reqs.push(ParticleRequest { x, y, fg, bg, glyph, lifetime });
    }

    pub fn len(&self) -> (r: usize)
        ensures
            r == self@.len(),
    {
        self.reqs.len()
    }

    pub fn get(&self, i: usize) -> (r: ParticleRequest)
        requires
            i < self@.len(),
        ensures
            r == self@[i as int],
    {
        self.reqs[i]
    }

    pub fn clear(&mut self)
        ensures
            final(self)@.len() == 0,
    {
        self.reqs.clear();
    }
}

/// Some live entity carries exactly this request's position, drawing data
/// and lifetime.
pub open spec fn request_fulfilled(w: World, req: ParticleRequest) -> bool {
    exists|i: int|
        0 <= i < w.cap() && #[trigger] w.alive@[i]
            && w.positions@[i] == Some(Position { x: req.x, y: req.y })
            && w.renderables@[i] == Some(Renderable {
                glyph: req.glyph,
                fg: req.fg,
                bg: req.bg,
                render_order: 0,
            })
            && w.particle_lifetimes@[i] == Some(ParticleLifetime { lifetime_ms: req.lifetime })
}

/// Turns queued particle requests into real entities.
pub struct ParticleSpawnSystem {}

impl ParticleSpawnSystem {
    /// Creates one entity per queued request, carrying its position, its
    /// drawing data and its remaining lifetime, and empties the queue.
    /// Entities that already existed are untouched and stay valid.
    pub fn run(world: &mut World, builder: &mut ParticleBuilder)
        requires
            old(world).wf(),
            old(world).cap() + old(builder)@.len() < usize::MAX,
            forall|k: int| 0 <= k < old(builder)@.len()
                ==> on_map((#[trigger] old(builder)@[k]).x as int, old(builder)@[k].y as int),
        ensures
            final(world).wf(),
            final(builder)@.len() == 0,
            old(world).cap() <= final(world).cap(),
            final(world).cap() <= old(world).cap() + old(builder)@.len(),
            final(world).pending@ == old(world).pending@,
            forall|e: EntityId| old(world).spec_valid(e) ==> final(world).spec_valid(e),
            forall|i: int|
                0 <= i < old(world).cap() && #[trigger] old(world).alive@[i]
                    ==> final(world).alive@[i] && final(world).gens@[i] == old(world).gens@[i]
                        && final(world).record(i) == old(world).record(i),
            positions_on_map(old(world).positions@)
                ==> positions_on_map(final(world).positions@),
            ranges_ok(old(world).viewsheds@) ==> ranges_ok(final(world).viewsheds@),
            suffer_nonneg(old(world).suffer_damage@)
                ==> suffer_nonneg(final(world).suffer_damage@),
            heal_ok(old(world).provides_healing@)
                ==> heal_ok(final(world).provides_healing@),
            inflict_ok(old(world).inflicts_damage@)
                ==> inflict_ok(final(world).inflicts_damage@),
            aoe_ok(old(world).area_of_effects@) ==> aoe_ok(final(world).area_of_effects@),
            forall|i: int|
                0 <= i < final(world).cap() && #[trigger] final(world).players@[i] is Some
                    ==> 0 <= i < old(world).cap()
                        && old(world).players@[i] == final(world).players@[i],
            forall|i: int|
                0 <= i < final(world).cap()
                    && #[trigger] final(world).wants_to_melee@[i] is Some
                    ==> 0 <= i < old(world).cap()
                        && old(world).wants_to_melee@[i] == final(world).wants_to_melee@[i],
            forall|i: int|
                0 <= i < final(world).cap()
                    && #[trigger] final(world).wants_to_use@[i] is Some
                    ==> 0 <= i < old(world).cap()
                        && old(world).wants_to_use@[i] == final(world).wants_to_use@[i],
            forall|i: int|
                0 <= i < final(world).cap()
                    && #[trigger] final(world).wants_to_pickup@[i] is Some
                    ==> 0 <= i < old(world).cap()
                        && old(world).wants_to_pickup@[i] == final(world).wants_to_pickup@[i],
            forall|i: int|
                0 <= i < final(world).cap()
                    && #[trigger] final(world).wants_to_drop@[i] is Some
                    ==> 0 <= i < old(world).cap()
                        && old(world).wants_to_drop@[i] == final(world).wants_to_drop@[i],
            // every queued request became an entity carrying its position,
            // its drawing data and its lifetime
            forall|k: int|
                0 <= k < old(builder)@.len()
                    ==> request_fulfilled(*final(world), #[trigger] old(builder)@[k]),
    {
        let n: usize = builder.len();
        let mut k: usize = 0;
        while k < n
            invariant
                world.wf(),
                n == builder@.len(),
                k <= n,
                world.cap() + (n - k) < usize::MAX,
                old(world).cap() <= world.cap(),
                world.cap() <= old(world).cap() + k,
                world.pending@ == old(world).pending@,
                forall|k2: int| 0 <= k2 < n
                    ==> on_map((#[trigger] builder@[k2]).x as int, builder@[k2].y as int),
                forall|e: EntityId| old(world).spec_valid(e) ==> world.spec_valid(e),
                forall|i: int|
                    0 <= i < old(world).cap() && #[trigger] old(world).alive@[i]
                        ==> world.alive@[i] && world.gens@[i] == old(world).gens@[i]
                            && world.record(i) == old(world).record(i),
                positions_on_map(old(world).positions@)
                    ==> positions_on_map(world.positions@),
                ranges_ok(old(world).viewsheds@) ==> ranges_ok(world.viewsheds@),
                suffer_nonneg(old(world).suffer_damage@)
                    ==> suffer_nonneg(world.suffer_damage@),
                heal_ok(old(world).provides_healing@) ==> heal_ok(world.provides_healing@),
                inflict_ok(old(world).inflicts_damage@)
                    ==> inflict_ok(world.inflicts_damage@),
                aoe_ok(old(world).area_of_effects@) ==> aoe_ok(world.area_of_effects@),
                forall|i: int|
                    0 <= i < world.cap() && #[trigger] world.players@[i] is Some
                        ==> 0 <= i < old(world).cap()
                            && old(world).players@[i] == world.players@[i],
                forall|i: int|
                0 <= i < world.cap()
                    && #[trigger] world.wants_to_melee@[i] is Some
                        ==> 0 <= i < old(world).cap()
                            && old(world).wants_to_melee@[i] == world.wants_to_melee@[i],
                forall|i: int|
                0 <= i < world.cap()
                    && #[trigger] world.wants_to_use@[i] is Some
                        ==> 0 <= i < old(world).cap()
                            && old(world).wants_to_use@[i] == world.wants_to_use@[i],
                forall|i: int|
                0 <= i < world.cap()
                    && #[trigger] world.wants_to_pickup@[i] is Some
                        ==> 0 <= i < old(world).cap()
                            && old(world).wants_to_pickup@[i] == world.wants_to_pickup@[i],
                forall|i: int|
                0 <= i < world.cap()
                    && #[trigger] world.wants_to_drop@[i] is Some
                        ==> 0 <= i < old(world).cap()
                            && old(world).wants_to_drop@[i] == world.wants_to_drop@[i],
                forall|k2: int|
                    0 <= k2 < k ==> request_fulfilled(*world, #[trigger] builder@[k2]),
            decreases n - k,
        {
            let req = builder.get(k);
            let ghost pre = *world;
            let ghost pre_k = k as int;
            let e = world.create_entity();
            let ghost mid = *world;
            world.positions.insert(e.idx, Position { x: req.x, y: req.y });
            world.renderables.insert(e.idx, Renderable {
                glyph: req.glyph,
                fg: req.fg,
                bg: req.bg,
                render_order: 0,
            });
            world.particle_lifetimes.insert(e.idx, ParticleLifetime { lifetime_ms: req.lifetime });
            proof {
                let ii = e.idx as int;
                assert forall|i: int|
                    0 <= i < world.cap() && i != ii
                    implies world.record(i) == mid.record(i) by {}
                assert forall|i: int|
                    0 <= i < world.cap() && i != ii
                    implies 0 <= i < pre.cap() && world.record(i) == pre.record(i) by {
                    if i >= pre.cap() {
                        assert(i == ii);
                    }
                    assert(mid.record(i) == pre.record(i));
                }
                assert forall|i: int|
                    0 <= i < old(world).cap() && old(world).alive@[i]
                    implies world.alive@[i] && world.gens@[i] == old(world).gens@[i]
                        && world.record(i) == old(world).record(i) by {
                    assert(pre.spec_valid(EntityId { idx: i as usize, gen: pre.gens@[i] }));
                    assert(i != ii);
                }
                assert(world.viewsheds@[ii] is None);
                assert(world.suffer_damage@[ii] is None);
                assert(world.provides_healing@[ii] is None);
                assert(world.inflicts_damage@[ii] is None);
                assert(world.area_of_effects@[ii] is None);
                assert(world.players@[ii] is None);
                assert(world.positions@[ii] == Some(Position { x: req.x, y: req.y }));
                assert forall|i: int|
                    0 <= i < world.positions@.len() && #[trigger] world.positions@[i] is Some
                        && positions_on_map(old(world).positions@)
                    implies on_map(world.positions@[i]->Some_0.x as int,
                        world.positions@[i]->Some_0.y as int) by {
                    if i != ii {
                        assert(world.record(i) == pre.record(i));
                        assert(pre.positions@[i] is Some);
                    }
                }
                assert(world.alive@[ii] && world.positions@[ii]
                    == Some(Position { x: req.x, y: req.y })
                    && world.renderables@[ii] == Some(Renderable {
                        glyph: req.glyph,
                        fg: req.fg,
                        bg: req.bg,
                        render_order: 0,
                    })
                    && world.particle_lifetimes@[ii]
                        == Some(ParticleLifetime { lifetime_ms: req.lifetime }));
                assert(request_fulfilled(*world, req));
                assert forall|k2: int|
                    0 <= k2 < pre_k + 1
                    implies request_fulfilled(*world, #[trigger] builder@[k2]) by {
                    if k2 < pre_k {
                        assert(request_fulfilled(pre, builder@[k2]));
                        let i = choose|i: int|
                            0 <= i < pre.cap() && #[trigger] pre.alive@[i]
                                && pre.positions@[i]
                                    == Some(Position { x: builder@[k2].x, y: builder@[k2].y })
                                && pre.renderables@[i] == Some(Renderable {
                                    glyph: builder@[k2].glyph,
                                    fg: builder@[k2].fg,
                                    bg: builder@[k2].bg,
                                    render_order: 0,
                                })
                                && pre.particle_lifetimes@[i] == Some(ParticleLifetime {
                                    lifetime_ms: builder@[k2].lifetime,
                                });
                        assert(world.alive@[i] && world.record(i) == pre.record(i));
                    }
                }
                assert forall|i: int|
                    0 <= i < world.viewsheds@.len() && #[trigger] world.viewsheds@[i] is Some
                        && ranges_ok(old(world).viewsheds@)
                    implies 0 <= world.viewsheds@[i]->Some_0.range <= 60 by {
                    assert(i != ii);
                    assert(world.record(i) == pre.record(i));
                    assert(pre.viewsheds@[i] is Some);
                }
                assert forall|i: int|
                    0 <= i < world.suffer_damage@.len()
                        && #[trigger] world.suffer_damage@[i] is Some
                        && suffer_nonneg(old(world).suffer_damage@)
                    implies world.suffer_damage@[i]->Some_0.amount >= 0 by {
                    assert(i != ii);
                    assert(world.record(i) == pre.record(i));
                    assert(pre.suffer_damage@[i] is Some);
                }
                assert forall|i: int|
                    0 <= i < world.provides_healing@.len()
                        && #[trigger] world.provides_healing@[i] is Some
                        && heal_ok(old(world).provides_healing@)
                    implies world.provides_healing@[i]->Some_0.heal_amount >= 0 by {
                    assert(i != ii);
                    assert(world.record(i) == pre.record(i));
                    assert(pre.provides_healing@[i] is Some);
                }
                assert forall|i: int|
                    0 <= i < world.inflicts_damage@.len()
                        && #[trigger] world.inflicts_damage@[i] is Some
                        && inflict_ok(old(world).inflicts_damage@)
                    implies world.inflicts_damage@[i]->Some_0.damage >= 0 by {
                    assert(i != ii);
                    assert(world.record(i) == pre.record(i));
                    assert(pre.inflicts_damage@[i] is Some);
                }
                assert forall|i: int|
                    0 <= i < world.area_of_effects@.len()
                        && #[trigger] world.area_of_effects@[i] is Some
                        && aoe_ok(old(world).area_of_effects@)
                    implies 0 <= world.area_of_effects@[i]->Some_0.radius <= 60 by {
                    assert(i != ii);
                    assert(world.record(i) == pre.record(i));
                    assert(pre.area_of_effects@[i] is Some);
                }
                assert forall|i: int|
                    0 <= i < world.cap() && #[trigger] world.players@[i] is Some
                    implies 0 <= i < old(world).cap()
                        && old(world).players@[i] == world.players@[i] by {
                    assert(i != ii);
                    assert(world.record(i) == pre.record(i));
                    assert(pre.players@[i] is Some);
                }
                assert(world.wants_to_melee@[ii] is None);
                assert forall|i: int|
                    0 <= i < world.cap() && #[trigger] world.wants_to_melee@[i] is Some
                    implies 0 <= i < pre.cap() && pre.wants_to_melee@[i] == world.wants_to_melee@[i] by {
                    assert(i != ii);
                    assert(world.record(i) == pre.record(i));
                }
                assert(world.wants_to_use@[ii] is None);
                assert forall|i: int|
                    0 <= i < world.cap() && #[trigger] world.wants_to_use@[i] is Some
                    implies 0 <= i < pre.cap() && pre.wants_to_use@[i] == world.wants_to_use@[i] by {
                    assert(i != ii);
                    assert(world.record(i) == pre.record(i));
                }
                assert(world.wants_to_pickup@[ii] is None);
                assert forall|i: int|
                    0 <= i < world.cap() && #[trigger] world.wants_to_pickup@[i] is Some
                    implies 0 <= i < pre.cap() && pre.wants_to_pickup@[i] == world.wants_to_pickup@[i] by {
                    assert(i != ii);
                    assert(world.record(i) == pre.record(i));
                }
                assert(world.wants_to_drop@[ii] is None);
                assert forall|i: int|
                    0 <= i < world.cap() && #[trigger] world.wants_to_drop@[i] is Some
                    implies 0 <= i < pre.cap() && pre.wants_to_drop@[i] == world.wants_to_drop@[i] by {
                    assert(i != ii);
                    assert(world.record(i) == pre.record(i));
                }

            }
            k = k + 1;
        }
        builder.clear();
    }
}

/// Counts down every particle's lifetime by the elapsed frame time and
/// queues the expired ones for deletion at the next barrier.
pub fn cull_dead_particles(world: &mut World, frame_ms: u32)
    requires
        old(world).wf(),
    ensures
        final(world).wf(),
        final(world).cap() == old(world).cap(),
        final(world).alive@ == old(world).alive@,
        final(world).gens@ == old(world).gens@,
        final(world).positions@ == old(world).positions@,
        final(world).viewsheds@ == old(world).viewsheds@,
        final(world).players@ == old(world).players@,
        final(world).combat_stats@ == old(world).combat_stats@,
        final(world).wants_to_melee@ == old(world).wants_to_melee@,
        final(world).wants_to_use@ == old(world).wants_to_use@,
        final(world).wants_to_pickup@ == old(world).wants_to_pickup@,
        final(world).wants_to_drop@ == old(world).wants_to_drop@,
        final(world).ranged@ == old(world).ranged@,
        final(world).suffer_damage@ == old(world).suffer_damage@,
        final(world).provides_healing@ == old(world).provides_healing@,
        final(world).inflicts_damage@ == old(world).inflicts_damage@,
        final(world).area_of_effects@ == old(world).area_of_effects@,
        forall|i: int|
            0 <= i < old(world).cap()
                && !(old(world).alive@[i] && old(world).particle_lifetimes@[i] is Some)
                ==> final(world).record(i) == old(world).record(i),
        forall|i: int|
            0 <= i < old(world).cap() && old(world).alive@[i]
                && #[trigger] old(world).particle_lifetimes@[i] is Some
                && old(world).particle_lifetimes@[i]->Some_0.lifetime_ms >= frame_ms
                ==> final(world).particle_lifetimes@[i] is Some
                    && final(world).particle_lifetimes@[i]->Some_0.lifetime_ms
                        == old(world).particle_lifetimes@[i]->Some_0.lifetime_ms - frame_ms,
        forall|i: int|
            0 <= i < old(world).cap() && old(world).alive@[i]
                && #[trigger] old(world).particle_lifetimes@[i] is Some
                && old(world).particle_lifetimes@[i]->Some_0.lifetime_ms < frame_ms
                ==> exists|k: int|
                    0 <= k < final(world).pending@.len()
                        && #[trigger] final(world).pending@[k].idx == i,
{
    let n: usize = world.alive.len();
    let mut i: usize = 0;
    while i < n
        invariant
            world.wf(),
            n == world.cap(),
            i <= n,
            world.cap() == old(world).cap(),
            world.alive@ == old(world).alive@,
            world.gens@ == old(world).gens@,
            world.positions@ == old(world).positions@,
            world.viewsheds@ == old(world).viewsheds@,
            world.players@ == old(world).players@,
            world.combat_stats@ == old(world).combat_stats@,
            world.wants_to_melee@ == old(world).wants_to_melee@,
            world.wants_to_use@ == old(world).wants_to_use@,
            world.wants_to_pickup@ == old(world).wants_to_pickup@,
            world.wants_to_drop@ == old(world).wants_to_drop@,
            world.ranged@ == old(world).ranged@,
            world.suffer_damage@ == old(world).suffer_damage@,
            world.provides_healing@ == old(world).provides_healing@,
            world.inflicts_damage@ == old(world).inflicts_damage@,
            world.area_of_effects@ == old(world).area_of_effects@,
            forall|j: int|
                i <= j < n ==> world.record(j) == old(world).record(j),
            forall|j: int|
                0 <= j < n
                    && !(old(world).alive@[j] && old(world).particle_lifetimes@[j] is Some)
                    ==> world.record(j) == old(world).record(j),
            forall|j: int|
                0 <= j < i && old(world).alive@[j]
                    && #[trigger] old(world).particle_lifetimes@[j] is Some
                    && old(world).particle_lifetimes@[j]->Some_0.lifetime_ms >= frame_ms
                    ==> world.particle_lifetimes@[j] is Some
                        && world.particle_lifetimes@[j]->Some_0.lifetime_ms
                            == old(world).particle_lifetimes@[j]->Some_0.lifetime_ms - frame_ms,
            forall|j: int|
                0 <= j < i && old(world).alive@[j]
                    && #[trigger] old(world).particle_lifetimes@[j] is Some
                    && old(world).particle_lifetimes@[j]->Some_0.lifetime_ms < frame_ms
                    ==> exists|k: int|
                        0 <= k < world.pending@.len()
                            && #[trigger] world.pending@[k].idx == j,
            forall|k: int|
                0 <= k < world.pending@.len() && k < old(world).pending@.len()
                    ==> world.pending@[k] == old(world).pending@[k],
            old(world).pending@.len() <= world.pending@.len(),
        decreases n - i,
    {
        let ghost pre = *world;
        proof {
            assert(world.record(i as int) == old(world).record(i as int));
        }
        if world.alive[i] {
            let left: Option<u32> = match world.particle_lifetimes.get(i) {
                Some(p) => Some(p.lifetime_ms),
                None => None,
            };
            match left {
                Some(ms) => {
                    if ms >= frame_ms {
                        world.particle_lifetimes.insert(i, ParticleLifetime {
                            lifetime_ms: ms - frame_ms,
                        });
                        proof {
                            assert forall|j: int| 0 <= j < n && j != i
                                implies world.record(j) == pre.record(j) by {}
                        }
                    } else {
                        let e = EntityId { idx: i, gen: world.gens[i] };
                        world.delete_entity(e);
                        proof {
                            assert(world.pending@.last().idx == i);
                            assert forall|j: int|
                                0 <= j < i && old(world).alive@[j]
                                    && old(world).particle_lifetimes@[j] is Some
                                    && old(world).particle_lifetimes@[j]->Some_0.lifetime_ms
                                        < frame_ms
                                implies exists|k: int|
                                    0 <= k < world.pending@.len()
                                        && #[trigger] world.pending@[k].idx == j by {
                                let k = choose|k: int|
                                    0 <= k < pre.pending@.len()
                                        && #[trigger] pre.pending@[k].idx == j;
                                assert(world.pending@[k].idx == j);
                            }
                        }
                    }
                }
                None => {}
            }
        }
        proof {
            assert forall|j: int|
                0 <= j < i + 1 && old(world).alive@[j]
                    && old(world).particle_lifetimes@[j] is Some
                    && old(world).particle_lifetimes@[j]->Some_0.lifetime_ms >= frame_ms
                implies world.particle_lifetimes@[j] is Some
                    && world.particle_lifetimes@[j]->Some_0.lifetime_ms
                        == old(world).particle_lifetimes@[j]->Some_0.lifetime_ms - frame_ms by {
                if j == i as int {
                    assert(pre.record(j) == old(world).record(j));
                    assert(pre.particle_lifetimes@[j] == old(world).particle_lifetimes@[j]);
                } else {
                    assert(pre.particle_lifetimes@[j] is Some
                        && pre.particle_lifetimes@[j]->Some_0.lifetime_ms
                            == old(world).particle_lifetimes@[j]->Some_0.lifetime_ms - frame_ms);
                    assert(world.particle_lifetimes@[j] == pre.particle_lifetimes@[j]);
                }
            }
            assert forall|j: int|
                0 <= j < i + 1 && old(world).alive@[j]
                    && old(world).particle_lifetimes@[j] is Some
                    && old(world).particle_lifetimes@[j]->Some_0.lifetime_ms < frame_ms
                implies exists|k: int|
                    0 <= k < world.pending@.len()
                        && #[trigger] world.pending@[k].idx == j by {
                if j == i as int {
                    assert(pre.record(j) == old(world).record(j));
                    assert(pre.particle_lifetimes@[j] == old(world).particle_lifetimes@[j]);
                    assert(world.pending@[world.pending@.len() - 1].idx == j);
                } else {
                    let k = choose|k: int|
                        0 <= k < pre.pending@.len() && #[trigger] pre.pending@[k].idx == j;
                    assert(world.pending@[k].idx == j);
                }
            }
        }
        i = i + 1;
    }
}

} // verus!
