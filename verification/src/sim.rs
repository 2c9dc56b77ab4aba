//! The simulation object: the body collection, the two link collections,
//! the tunables and the broad-phase grid, with the per-frame tick that
//! drives integration, collision resolution and constraint relaxation in
//! that order.

use vstd::prelude::*;
use vstd::pervasive::VecAdditionalExecFns;

use crate::body::{covers, contains_point, touching, Body};
use crate::collision::{resolve, resolved_trace};
use crate::config::SimConfig;
use crate::constraint::{
    apply_spring, apply_static_link, spring_sp, static_link_sp, Link, SimError, StaticLink,
};
use crate::fixed::{fx_ok, lemma_div_tz_mag, FX_MAX, FX_ONE};
use crate::grid::{ceil_div, cell_coord, lemma_cell_in_range, pairs_sound, SpatialGrid};
use crate::integrate::{step, step_sp};
use crate::vec2::Vec2;

verus! {

/// The body list after one integration pass.
pub open spec fn integrated_sp(
    s: Seq<Body>,
    dt: int,
    cfg: SimConfig,
    w: int,
    h: int,
    drag: Option<Vec2>,
) -> Seq<Body> {
    Seq::new(s.len(), |i: int| step_sp(s[i], dt, cfg, w, h, drag))
}

/// No two distinct bodies touch.
pub open spec fn no_contacts(s: Seq<Body>) -> bool {
    forall|i: int, j: int|
        0 <= i < s.len() && 0 <= j < s.len() && i != j ==> !touching(s[i], s[j])
}

/// One soft-link application as a step on the body list.
pub open spec fn spring_step(s: Seq<Body>, l: Link, cfg: SimConfig) -> Seq<Body> {
    s.update(
        l.body_a as int,
        spring_sp(
            s[l.body_a as int],
            s[l.body_b as int],
            l.rest_length as int,
            cfg.spring_const as int,
            cfg.damp_const as int,
        ).0,
    ).update(
        l.body_b as int,
        spring_sp(
            s[l.body_a as int],
            s[l.body_b as int],
            l.rest_length as int,
            cfg.spring_const as int,
            cfg.damp_const as int,
        ).1,
    )
}

/// The soft links applied once each, in order.
pub open spec fn springs_applied(s: Seq<Body>, links: Seq<Link>, cfg: SimConfig) -> Seq<Body>
    decreases links.len(),
{
    if links.len() == 0 {
        s
    } else {
        springs_applied(spring_step(s, links[0], cfg), links.skip(1), cfg)
    }
}

/// The rigid links applied once each, in order.
pub open spec fn rigids_applied(s: Seq<Body>, ls: Seq<StaticLink>) -> Seq<Body>
    decreases ls.len(),
{
    if ls.len() == 0 {
        s
    } else {
        rigids_applied(
            static_link_sp(s, ls[0].body_a as int, ls[0].body_b as int, ls[0].rest_length as int),
            ls.skip(1),
        )
    }
}

/// A scene of resting bodies under zero gravity, all clear of the walls,
/// is a fixed point of the integration pass: no position moves.  With no
/// contacts and no links, `tick`'s contract then keeps the whole frame
/// unchanged.
pub proof fn lemma_rest_scene_fixed(s: Seq<Body>, dt: int, cfg: SimConfig, width: int, height: int)
    requires
        cfg.gravity == 0,
        forall|i: int| 0 <= i < s.len() ==> (#[trigger] s[i]).ok(),
        forall|i: int|
            0 <= i < s.len() ==> (#[trigger] s[i]).vel.x == 0 && s[i].vel.y == 0 && s[i].acc.x == 0
                && s[i].acc.y == 0,
        forall|i: int|
            0 <= i < s.len() ==> (#[trigger] s[i]).pos.x + s[i].radius + FX_ONE < width
                && s[i].pos.x - s[i].radius - FX_ONE > 0 && s[i].pos.y + s[i].radius + FX_ONE
                < height && s[i].pos.y - s[i].radius - FX_ONE > 0,
    ensures
        forall|i: int|
            0 <= i < s.len() ==> (#[trigger] integrated_sp(s, dt, cfg, width, height, None)[i]).pos
                == s[i].pos,
{
    assert forall|i: int|
        0 <= i < s.len() implies (#[trigger] integrated_sp(s, dt, cfg, width, height, None)[i]).pos
        == s[i].pos by {
        crate::integrate::lemma_rest_body_stays(s[i], dt, cfg, width, height);
    }
}

pub struct Simulation {
    pub width: i64,
    pub height: i64,
    pub config: SimConfig,
    pub bodies: Vec<Body>,
    pub links: Vec<Link>,
    pub static_links: Vec<StaticLink>,
    pub grid: SpatialGrid,
}

impl Simulation {
    pub open spec fn wf(self) -> bool {
        &&& 4 * FX_ONE <= self.width <= 1_000_000_000
        &&& 4 * FX_ONE <= self.height <= 1_000_000_000
        &&& self.config.ok()
        &&& self.grid.ok()
        &&& self.grid.nx == ceil_div(self.width as int, self.grid.cell_size as int)
        &&& self.grid.ny == ceil_div(self.height as int, self.grid.cell_size as int)
        &&& (forall|i: int|
            0 <= i < self.bodies@.len() ==> (#[trigger] self.bodies@[i]).ok()
                && self.bodies@[i].fits(self.width, self.height))
        &&& (forall|i: int|
            0 <= i < self.links@.len() ==> (#[trigger] self.links@[i]).body_a
                < self.bodies@.len() && self.links@[i].body_b < self.bodies@.len() && fx_ok(
                self.links@[i].rest_length,
            ))
        &&& (forall|i: int|
            0 <= i < self.static_links@.len() ==> (#[trigger] self.static_links@[i]).body_a
                < self.bodies@.len() && self.static_links@[i].body_b < self.bodies@.len()
                && fx_ok(self.static_links@[i].rest_length))
    }

    /// An empty world of the given size and broad-phase cell size, with
    /// the default tunables.
    pub fn new(width: i64, height: i64, cell_size: i64) -> (r: Simulation)
        requires
            4 * FX_ONE <= width <= 1_000_000_000,
            4 * FX_ONE <= height <= 1_000_000_000,
            FX_ONE <= cell_size <= FX_MAX,
            ceil_div(width as int, cell_size as int) * ceil_div(height as int, cell_size as int)
                <= 100_000_000,
        ensures
            r.wf(),
            r.width == width,
            r.height == height,
            r.config == SimConfig::defaults_sp(),
            r.bodies@ =~= Seq::empty(),
            r.links@ =~= Seq::empty(),
            r.static_links@ =~= Seq::empty(),
    {
        Simulation {
            width,
            height,
            config: SimConfig::new(),
            bodies: Vec::new(),
            links: Vec::new(),
            static_links: Vec::new(),
            grid: SpatialGrid::new(width, height, cell_size),
        }
    }

    /// Add one circle at rest; its id is its index, never reused.
    pub fn spawn_circle(&mut self, radius: i64, color: u32, pos: Vec2) -> (id: usize)
        requires
            old(self).wf(),
            0 < radius,
            2 * radius + FX_ONE <= old(self).width,
            2 * radius + FX_ONE <= old(self).height,
            pos.ok(),
            old(self).bodies@.len() + 1 <= usize::MAX,
        ensures
            final(self).wf(),
            id == old(self).bodies@.len(),
            final(self).bodies@ == old(self).bodies@.push(
                Body {
                    radius,
                    pos,
                    vel: Vec2 { x: 0i64, y: 0i64 },
                    acc: Vec2 { x: 0i64, y: 0i64 },
                    color,
                    is_dragged: false,
                },
            ),
            final(self).links == old(self).links,
            final(self).static_links == old(self).static_links,
            final(self).config == old(self).config,
            final(self).width == old(self).width,
            final(self).height == old(self).height,
    {
        let id: usize = self.bodies.len();
        let b = Body::new(radius, pos, color);
        self.bodies.push(b);
        id
    }

    /// Latch or clear the external drag mark on one body.
    pub fn set_drag(&mut self, id: usize, dragged: bool)
        requires
            old(self).wf(),
            id < old(self).bodies@.len(),
        ensures
            final(self).wf(),
            final(self).bodies@ == old(self).bodies@.update(
                id as int,
                Body { is_dragged: dragged, ..old(self).bodies@[id as int] },
            ),
            final(self).links == old(self).links,
            final(self).static_links == old(self).static_links,
            final(self).config == old(self).config,
            final(self).width == old(self).width,
            final(self).height == old(self).height,
    {
        let b: Body = self.bodies[id];
        let nb = Body { is_dragged: dragged, ..b };
        self.bodies.set(id, nb);
    }

    /// First body whose circle covers the point, if any: the hit test
    /// the driver uses for dragging and link picking.
    pub fn body_at(&self, p: Vec2) -> (r: Option<usize>)
        requires
            self.wf(),
            p.ok(),
        ensures
            match r {
                Some(i) => i < self.bodies@.len() && covers(self.bodies@[i as int], p) && (forall|
                    j: int,
                |
                    0 <= j < i ==> !covers(#[trigger] self.bodies@[j], p)),
                None => forall|j: int|
                    0 <= j < self.bodies@.len() ==> !covers(#[trigger] self.bodies@[j], p),
            },
    {
        let n: usize = self.bodies.len();
        let mut i: usize = 0;
        while i < n
            invariant
                self.wf(),
                p.ok(),
                n == self.bodies@.len(),
                i <= n,
                forall|j: int| 0 <= j < i ==> !covers(#[trigger] self.bodies@[j], p),
            decreases n - i,
        {
            if contains_point(&self.bodies[i], p) {
                return Some(i);
            }
            i = i + 1;
        }
        None
    }

    pub fn body_count(&self) -> (r: usize)
        ensures
            r == self.bodies@.len(),
    {
        self.bodies.len()
    }

    pub fn body(&self, id: usize) -> (r: Body)
        requires
            id < self.bodies@.len(),
        ensures
            r == self.bodies@[id as int],
    {
        self.bodies[id]
    }

    pub fn link_count(&self) -> (r: usize)
        ensures
            r == self.links@.len(),
    {
        self.links.len()
    }

    pub fn link(&self, i: usize) -> (r: Link)
        requires
            i < self.links@.len(),
        ensures
            r == self.links@[i as int],
    {
        self.links[i]
    }

    pub fn static_link_count(&self) -> (r: usize)
        ensures
            r == self.static_links@.len(),
    {
        self.static_links.len()
    }

    pub fn static_link(&self, i: usize) -> (r: StaticLink)
        requires
            i < self.static_links@.len(),
        ensures
            r == self.static_links@[i as int],
    {
        self.static_links[i]
    }

    /// Add a soft link between two bodies with the configured default
    /// rest length, as the pointer's spring mode does.
    pub fn add_spring_link(&mut self, a: usize, b: usize)
        requires
            old(self).wf(),
            a < old(self).bodies@.len(),
            b < old(self).bodies@.len(),
            old(self).links@.len() + 1 <= usize::MAX,
        ensures
            final(self).wf(),
            final(self).links@ == old(self).links@.push(
                Link {
                    body_a: a,
                    body_b: b,
                    rest_length: old(self).config.default_link_length,
                },
            ),
            final(self).bodies == old(self).bodies,
            final(self).static_links == old(self).static_links,
            final(self).config == old(self).config,
            final(self).width == old(self).width,
            final(self).height == old(self).height,
            final(self).grid == old(self).grid,
    {
        self.links.push(
            Link { body_a: a, body_b: b, rest_length: self.config.default_link_length },
        );
    }

    /// Add a rigid link between two bodies at their current separation
    /// (clipped into the representable band), as the pointer's link mode
    /// does.
    pub fn add_rigid_link(&mut self, a: usize, b: usize)
        requires
            old(self).wf(),
            a < old(self).bodies@.len(),
            b < old(self).bodies@.len(),
            old(self).static_links@.len() + 1 <= usize::MAX,
        ensures
            final(self).wf(),
            final(self).static_links@ == old(self).static_links@.push(
                StaticLink {
                    body_a: a,
                    body_b: b,
                    rest_length: crate::fixed::sat(
                        crate::vec2::dist_sp(
                            old(self).bodies@[a as int].pos,
                            old(self).bodies@[b as int].pos,
                        ),
                    ) as i64,
                },
            ),
            final(self).bodies == old(self).bodies,
            final(self).links == old(self).links,
            final(self).config == old(self).config,
            final(self).width == old(self).width,
            final(self).height == old(self).height,
            final(self).grid == old(self).grid,
    {
        let d: i64 = crate::vec2::dist(self.bodies[a].pos, self.bodies[b].pos);
        let rest: i64 = crate::fixed::fx_add(d, 0);
        self.static_links.push(StaticLink { body_a: a, body_b: b, rest_length: rest });
    }

    /// Hang a rope from `anchor`: see `constraint::create_rope` for the
    /// exact bodies and links appended.
    pub fn create_rope(&mut self, anchor: Vec2, length: i64, segments: usize) -> (r: Result<
        (),
        SimError,
    >)
        requires
            old(self).wf(),
            anchor.ok(),
            fx_ok(length),
            segments <= 1_000_000,
            old(self).bodies@.len() + segments + 2 <= usize::MAX,
            old(self).static_links@.len() + segments + 1 <= usize::MAX,
        ensures
            final(self).wf(),
            (r == Err::<(), SimError>(SimError::ZeroSegments)) <==> segments == 0,
            segments >= 1 ==> r == Ok::<(), SimError>(()),
            segments == 0 ==> final(self).bodies@ == old(self).bodies@ && final(self).static_links@ == old(self).static_links@,
            segments >= 1 ==> final(self).bodies@.len() == old(self).bodies@.len() + segments + 2
                && final(self).static_links@.len() == old(self).static_links@.len() + segments + 1,
            forall|j: int|
                0 <= j < old(self).bodies@.len() ==> #[trigger] final(self).bodies@[j] == old(self).bodies@[j],
            forall|j: int|
                0 <= j < old(self).static_links@.len() ==> #[trigger] final(self).static_links@[j]
                    == old(self).static_links@[j],
            final(self).links == old(self).links,
            final(self).config == old(self).config,
            final(self).width == old(self).width,
            final(self).height == old(self).height,
            final(self).grid == old(self).grid,
    {
        let r = crate::constraint::create_rope(
            &mut self.bodies,
            &mut self.static_links,
            anchor,
            length,
            segments,
        );
        proof {
            if segments >= 1 {
                lemma_div_tz_mag(length as int, segments as int);
                assert forall|i: int|
                    0 <= i < self.bodies@.len() implies (#[trigger] self.bodies@[i]).ok()
                    && self.bodies@[i].fits(self.width, self.height) by {
                    if i >= old(self).bodies@.len() {
                        assert(self.bodies@[i] == crate::constraint::rope_body_sp(
                            anchor,
                            length as int,
                            segments as int,
                            i - old(self).bodies@.len(),
                        ));
                    }
                }
                assert forall|i: int|
                    0 <= i < self.static_links@.len() implies (
                #[trigger] self.static_links@[i]).body_a < self.bodies@.len()
                    && self.static_links@[i].body_b < self.bodies@.len() && fx_ok(
                    self.static_links@[i].rest_length,
                ) by {
                    if i >= old(self).static_links@.len() {
                        let jj = i - old(self).static_links@.len();
                        assert(self.static_links@[old(self).static_links@.len() + jj]
                            == (StaticLink {
                            body_a: (old(self).bodies@.len() + jj) as usize,
                            body_b: (old(self).bodies@.len() + jj + 1) as usize,
                            rest_length: crate::fixed::div_tz(
                                length as int,
                                segments as int,
                            ) as i64,
                        }));
                    }
                }
            }
        }
        r
    }

    /// Place a ring soft body held by rigid links: see
    /// `constraint::create_softbody` for the exact bodies and links.
    pub fn create_softbody(
        &mut self,
        count: usize,
        radius: i64,
        sub_radius: i64,
        center: Vec2,
    ) -> (r: Result<(), SimError>)
        requires
            old(self).wf(),
            count <= 1_000_000,
            fx_ok(radius),
            0 < sub_radius,
            2 * sub_radius + FX_ONE <= old(self).width,
            2 * sub_radius + FX_ONE <= old(self).height,
            center.ok(),
            old(self).bodies@.len() + count <= usize::MAX,
            old(self).static_links@.len() + count <= usize::MAX,
        ensures
            final(self).wf(),
            (r == Err::<(), SimError>(SimError::ZeroCount)) <==> count == 0,
            count >= 1 ==> r == Ok::<(), SimError>(()),
            count == 0 ==> final(self).bodies@ == old(self).bodies@ && final(self).static_links@
                == old(self).static_links@,
            count >= 1 ==> final(self).bodies@.len() == old(self).bodies@.len() + count && final(self).static_links@.len() == old(self).static_links@.len() + count,
            forall|j: int|
                0 <= j < old(self).bodies@.len() ==> #[trigger] final(self).bodies@[j] == old(self).bodies@[j],
            forall|j: int|
                0 <= j < old(self).static_links@.len() ==> #[trigger] final(self).static_links@[j]
                    == old(self).static_links@[j],
            final(self).links == old(self).links,
            final(self).config == old(self).config,
            final(self).width == old(self).width,
            final(self).height == old(self).height,
            final(self).grid == old(self).grid,
    {
        let r = crate::constraint::create_softbody(
            &mut self.bodies,
            &mut self.static_links,
            count,
            radius,
            sub_radius,
            center,
        );
        proof {
            if count >= 1 {
                lemma_div_tz_mag(
                    crate::fixed::fmul(crate::trig::FX_TWO_PI as int, radius as int),
                    count as int,
                );
                assert forall|i: int|
                    0 <= i < self.bodies@.len() implies (#[trigger] self.bodies@[i]).ok()
                    && self.bodies@[i].fits(self.width, self.height) by {
                    if i >= old(self).bodies@.len() {
                        assert(self.bodies@[i] == crate::constraint::ring_body_sp(
                            count as int,
                            radius as int,
                            sub_radius,
                            center,
                            i - old(self).bodies@.len(),
                        ));
                    }
                }
                assert forall|i: int|
                    0 <= i < self.static_links@.len() implies (
                #[trigger] self.static_links@[i]).body_a < self.bodies@.len()
                    && self.static_links@[i].body_b < self.bodies@.len() && fx_ok(
                    self.static_links@[i].rest_length,
                ) by {
                    if i >= old(self).static_links@.len() {
                        let jj = i - old(self).static_links@.len();
                        if jj < count - 1 {
                            assert(self.static_links@[old(self).static_links@.len() + jj]
                                == (StaticLink {
                                body_a: (old(self).bodies@.len() + jj) as usize,
                                body_b: (old(self).bodies@.len() + jj + 1) as usize,
                                rest_length: crate::constraint::ring_rest_sp(
                                    radius as int,
                                    count as int,
                                ) as i64,
                            }));
                        } else {
                            assert(self.static_links@[old(self).static_links@.len() + count - 1]
                                == (StaticLink {
                                body_a: old(self).bodies@.len() as usize,
                                body_b: (old(self).bodies@.len() + count - 1) as usize,
                                rest_length: crate::constraint::ring_rest_sp(
                                    radius as int,
                                    count as int,
                                ) as i64,
                            }));
                        }
                    }
                }
            }
        }
        r
    }

    /// Place a ring soft body held by springs: see
    /// `constraint::create_spring_softbody` for the exact bodies and links.
    pub fn create_spring_softbody(
        &mut self,
        count: usize,
        radius: i64,
        sub_radius: i64,
        center: Vec2,
    ) -> (r: Result<(), SimError>)
        requires
            old(self).wf(),
            count <= 1_000_000,
            fx_ok(radius),
            0 < sub_radius,
            2 * sub_radius + FX_ONE <= old(self).width,
            2 * sub_radius + FX_ONE <= old(self).height,
            center.ok(),
            old(self).bodies@.len() + count <= usize::MAX,
            old(self).links@.len() + count <= usize::MAX,
        ensures
            final(self).wf(),
            (r == Err::<(), SimError>(SimError::ZeroCount)) <==> count == 0,
            count >= 1 ==> r == Ok::<(), SimError>(()),
            count == 0 ==> final(self).bodies@ == old(self).bodies@ && final(self).links@ == old(self).links@,
            count >= 1 ==> final(self).bodies@.len() == old(self).bodies@.len() + count && final(self).links@.len() == old(self).links@.len() + count,
            forall|j: int|
                0 <= j < old(self).bodies@.len() ==> #[trigger] final(self).bodies@[j] == old(self).bodies@[j],
            forall|j: int|
                0 <= j < old(self).links@.len() ==> #[trigger] final(self).links@[j] == old(self).links@[j],
            final(self).static_links == old(self).static_links,
            final(self).config == old(self).config,
            final(self).width == old(self).width,
            final(self).height == old(self).height,
            final(self).grid == old(self).grid,
    {
        let r = crate::constraint::create_spring_softbody(
            &mut self.bodies,
            &mut self.links,
            count,
            radius,
            sub_radius,
            center,
        );
        proof {
            if count >= 1 {
                lemma_div_tz_mag(
                    crate::fixed::fmul(crate::trig::FX_TWO_PI as int, radius as int),
                    count as int,
                );
                assert forall|i: int|
                    0 <= i < self.bodies@.len() implies (#[trigger] self.bodies@[i]).ok()
                    && self.bodies@[i].fits(self.width, self.height) by {
                    if i >= old(self).bodies@.len() {
                        assert(self.bodies@[i] == crate::constraint::ring_body_sp(
                            count as int,
                            radius as int,
                            sub_radius,
                            center,
                            i - old(self).bodies@.len(),
                        ));
                    }
                }
                assert forall|i: int|
                    0 <= i < self.links@.len() implies (#[trigger] self.links@[i]).body_a
                    < self.bodies@.len() && self.links@[i].body_b < self.bodies@.len() && fx_ok(
                    self.links@[i].rest_length,
                ) by {
                    if i >= old(self).links@.len() {
                        let jj = i - old(self).links@.len();
                        if jj < count - 1 {
                            assert(self.links@[old(self).links@.len() + jj] == (Link {
                                body_a: (old(self).bodies@.len() + jj) as usize,
                                body_b: (old(self).bodies@.len() + jj + 1) as usize,
                                rest_length: crate::constraint::ring_rest_sp(
                                    radius as int,
                                    count as int,
                                ) as i64,
                            }));
                        } else {
                            assert(self.links@[old(self).links@.len() + count - 1] == (Link {
                                body_a: old(self).bodies@.len() as usize,
                                body_b: (old(self).bodies@.len() + count - 1) as usize,
                                rest_length: crate::constraint::ring_rest_sp(
                                    radius as int,
                                    count as int,
                                ) as i64,
                            }));
                        }
                    }
                }
            }
        }
        r
    }

    /// One full frame: clear the grid, integrate and bin every body,
    /// resolve the broad phase's candidate pairs, then apply every soft
    /// and rigid link once.  The whole frame is pinned as a composition:
    /// some sound and complete candidate list taken on the integrated
    /// state, one resolution chain over it, then the two link folds.
    /// When nothing touches after integration and there are no links,
    /// the frame is exactly the integration pass.
    #[verifier::rlimit(100)]
    pub fn tick(&mut self, dt: i64, drag_target: Option<Vec2>)
        requires
            old(self).wf(),
            1 <= dt <= FX_MAX,
        ensures
            final(self).wf(),
            final(self).bodies@.len() == old(self).bodies@.len(),
            final(self).links == old(self).links,
            final(self).static_links == old(self).static_links,
            final(self).config == old(self).config,
            final(self).width == old(self).width,
            final(self).height == old(self).height,
            forall|i: int|
                0 <= i < old(self).bodies@.len() ==> (#[trigger] final(self).bodies@[i]).radius
                    == old(self).bodies@[i].radius && final(self).bodies@[i].color == old(self).bodies@[i].color && final(self).bodies@[i].is_dragged == old(self).bodies@[i].is_dragged,
            ({
                let mid = integrated_sp(
                    old(self).bodies@,
                    dt as int,
                    old(self).config,
                    old(self).width as int,
                    old(self).height as int,
                    drag_target,
                );
                no_contacts(mid) && old(self).links@.len() == 0 && old(self).static_links@.len()
                    == 0 ==> final(self).bodies@ == mid
            }),
            ({
                let mid = integrated_sp(
                    old(self).bodies@,
                    dt as int,
                    old(self).config,
                    old(self).width as int,
                    old(self).height as int,
                    drag_target,
                );
                &&& final(self).grid.wf_for(mid)
                &&& (forall|i: int|
                    0 <= i < mid.len() ==> #[trigger] final(self).grid.binned(mid, i))
                &&& exists|ps: Seq<(usize, usize)>, rs: Seq<Body>, tr: Seq<Seq<Body>>|
                    {
                        &&& pairs_sound(final(self).grid, ps, mid)
                        &&& (forall|i: int, j: int|
                            #[trigger] final(self).grid.must_emit(mid, i, j) ==> ps.contains(
                                (i as usize, j as usize),
                            ))
                        &&& #[trigger] resolved_trace(mid, ps, rs, tr)
                        &&& final(self).bodies@ == rigids_applied(
                            springs_applied(rs, old(self).links@, old(self).config),
                            old(self).static_links@,
                        )
                    }
            }),
    {
        let ghost mid = integrated_sp(
            old(self).bodies@,
            dt as int,
            old(self).config,
            old(self).width as int,
            old(self).height as int,
            drag_target,
        );
        self.grid.reset();
        let n: usize = self.bodies.len();
        let mut i: usize = 0;
        while i < n
            invariant
                old(self).wf(),
                1 <= dt <= FX_MAX,
                i <= n,
                n == old(self).bodies@.len(),
                self.bodies@.len() == n,
                self.width == old(self).width,
                self.height == old(self).height,
                self.config == old(self).config,
                self.links == old(self).links,
                self.static_links == old(self).static_links,
                self.grid.ok(),
                self.grid.cell_size == old(self).grid.cell_size,
                self.grid.nx == old(self).grid.nx,
                self.grid.ny == old(self).grid.ny,
                mid == integrated_sp(
                    old(self).bodies@,
                    dt as int,
                    old(self).config,
                    old(self).width as int,
                    old(self).height as int,
                    drag_target,
                ),
                forall|j: int|
                    i <= j < n ==> #[trigger] self.bodies@[j] == old(self).bodies@[j],
                forall|j: int| 0 <= j < i ==> #[trigger] self.bodies@[j] == mid[j],
                forall|j: int|
                    0 <= j < n ==> (#[trigger] self.bodies@[j]).ok() && self.bodies@[j].fits(
                        self.width,
                        self.height,
                    ),
                forall|j: int|
                    0 <= j < i ==> (#[trigger] self.bodies@[j]).in_bounds(
                        self.width,
                        self.height,
                    ),
                self.grid.ids_below(i as int),
                self.grid.wf_for(self.bodies@),
                forall|j: int| 0 <= j < i ==> #[trigger] self.grid.binned(self.bodies@, j),
            decreases n - i,
        {
            let mut b: Body = self.bodies[i];
            step(&mut b, dt, &self.config, self.width, self.height, drag_target);
            let ghost pb = self.bodies@;
            self.bodies.set(i, b);
            proof {
                assert(self.bodies@[i as int] == mid[i as int]);
                assert forall|k: int, t: int|
                    0 <= k < self.grid.cells@.len() && 0 <= t
                        < self.grid.cells@[k]@.len() implies #[trigger] self.grid.entry_ok(
                    self.bodies@,
                    k,
                    t,
                ) by {
                    assert(self.grid.cells@[k]@[t] < i);
                    assert(self.grid.entry_ok(pb, k, t));
                }
            }
            proof {
                lemma_cell_in_range(b.pos.x as int, self.width as int, self.grid.cell_size as int);
                lemma_cell_in_range(b.pos.y as int, self.height as int, self.grid.cell_size as int);
            }
            let ghost pregrid = self.grid;
            self.grid.insert(b.pos, i);
            proof {
                let kk = pregrid.idx(
                    cell_coord(b.pos.x as int, pregrid.cell_size as int),
                    cell_coord(b.pos.y as int, pregrid.cell_size as int),
                );
                assert forall|k: int, t: int|
                    0 <= k < self.grid.cells@.len() && 0 <= t
                        < self.grid.cells@[k]@.len() implies #[trigger] self.grid.entry_ok(
                    self.bodies@,
                    k,
                    t,
                ) && self.grid.cells@[k]@[t] < i + 1 by {
                    if k == kk && t == pregrid.cells@[kk]@.len() {
                        assert(self.grid.cells@[k]@[t] == i);
                    } else {
                        assert(self.grid.cells@[k]@[t] == pregrid.cells@[k]@[t]);
                        assert(pregrid.entry_ok(self.bodies@, k, t));
                    }
                }
                assert forall|j: int|
                    0 <= j < i + 1 implies #[trigger] self.grid.binned(self.bodies@, j) by {
                    let cxj = cell_coord(self.bodies@[j].pos.x as int, self.grid.cell_size as int);
                    let cyj = cell_coord(self.bodies@[j].pos.y as int, self.grid.cell_size as int);
                    if j == i {
                        assert(self.grid.cells@[kk]@ == pregrid.cells@[kk]@.push(i as usize));
                        assert(self.grid.idx(cxj, cyj) == kk);
                        assert(self.grid.cells@[kk]@[pregrid.cells@[kk]@.len() as int]
                            == i as usize);
                        assert(self.grid.cell_ids(cxj, cyj).contains(i as usize));
                    } else {
                        assert(pregrid.binned(pb, j));
                        assert(self.bodies@[j] == pb[j]);
                        assert(pregrid.cell_ids(cxj, cyj).contains(j as usize));
                        let kj = pregrid.idx(cxj, cyj);
                        crate::grid::lemma_idx_bound(
                            cxj,
                            cyj,
                            self.grid.nx as int,
                            self.grid.ny as int,
                        );
                        if kj == kk {
                            assert(self.grid.cells@[kk]@ == pregrid.cells@[kk]@.push(
                                i as usize,
                            ));
                            vstd::seq_lib::lemma_seq_contains_after_push(
                                pregrid.cells@[kk]@,
                                i as usize,
                                j as usize,
                            );
                        } else {
                            assert(self.grid.cells@[kj] == pregrid.cells@[kj]);
                        }
                        assert(self.grid.cell_ids(cxj, cyj).contains(j as usize));
                    }
                }
            }
            i = i + 1;
        }
        proof {
            assert(self.bodies@ =~= mid);
        }
        let pairs: Vec<(usize, usize)> = self.grid.candidate_pairs(&self.bodies);
        let ghost gsnap = self.grid;
        resolve(&mut self.bodies, &pairs);
        let ghost after_resolve = self.bodies@;
        let ghost tr = choose|t: Seq<Seq<Body>>|
            #[trigger] resolved_trace(mid, pairs@, after_resolve, t);
        proof {
            assert(resolved_trace(mid, pairs@, after_resolve, tr));
            assert(old(self).links@.skip(0) =~= old(self).links@);
        }
        let nl: usize = self.links.len();
        let mut li: usize = 0;
        while li < nl
            invariant
                old(self).wf(),
                li <= nl,
                nl == old(self).links@.len(),
                self.bodies@.len() == old(self).bodies@.len(),
                self.width == old(self).width,
                self.height == old(self).height,
                self.config == old(self).config,
                self.links == old(self).links,
                self.static_links == old(self).static_links,
                self.grid.ok(),
                self.grid.cell_size == old(self).grid.cell_size,
                self.grid.nx == old(self).grid.nx,
                self.grid.ny == old(self).grid.ny,
                forall|j: int| 0 <= j < self.bodies@.len() ==> (#[trigger] self.bodies@[j]).ok(),
                forall|j: int|
                    0 <= j < self.bodies@.len() ==> (#[trigger] self.bodies@[j]).radius == old(self).bodies@[j].radius && self.bodies@[j].color == old(self).bodies@[j].color
                        && self.bodies@[j].is_dragged == old(self).bodies@[j].is_dragged,
                li == 0 ==> self.bodies@ == after_resolve,
                self.grid == gsnap,
                springs_applied(after_resolve, old(self).links@, old(self).config)
                    == springs_applied(
                    self.bodies@,
                    old(self).links@.skip(li as int),
                    old(self).config,
                ),
            decreases nl - li,
        {
            let ghost pre_b = self.bodies@;
            let l: Link = self.links[li];
            apply_spring(&mut self.bodies, l.body_a, l.body_b, l.rest_length, &self.config);
            proof {
                assert(self.bodies@ == spring_step(
                    pre_b,
                    old(self).links@[li as int],
                    old(self).config,
                ));
                assert(old(self).links@.skip(li as int)[0] == old(self).links@[li as int]);
                assert(old(self).links@.skip(li as int).skip(1) =~= old(self).links@.skip(
                    li as int + 1,
                ));
            }
            li = li + 1;
        }
        proof {
            assert(old(self).links@.skip(nl as int) =~= Seq::<Link>::empty());
            assert(springs_applied(after_resolve, old(self).links@, old(self).config)
                == self.bodies@);
            assert(old(self).static_links@.skip(0) =~= old(self).static_links@);
        }
        let ghost after_springs = self.bodies@;
        let ns: usize = self.static_links.len();
        let mut si: usize = 0;
        while si < ns
            invariant
                old(self).wf(),
                si <= ns,
                ns == old(self).static_links@.len(),
                self.bodies@.len() == old(self).bodies@.len(),
                self.width == old(self).width,
                self.height == old(self).height,
                self.config == old(self).config,
                self.links == old(self).links,
                self.static_links == old(self).static_links,
                self.grid.ok(),
                self.grid.cell_size == old(self).grid.cell_size,
                self.grid.nx == old(self).grid.nx,
                self.grid.ny == old(self).grid.ny,
                forall|j: int| 0 <= j < self.bodies@.len() ==> (#[trigger] self.bodies@[j]).ok(),
                forall|j: int|
                    0 <= j < self.bodies@.len() ==> (#[trigger] self.bodies@[j]).radius == old(self).bodies@[j].radius && self.bodies@[j].color == old(self).bodies@[j].color
                        && self.bodies@[j].is_dragged == old(self).bodies@[j].is_dragged,
                si == 0 ==> self.bodies@ == after_springs,
                self.grid == gsnap,
                rigids_applied(after_springs, old(self).static_links@) == rigids_applied(
                    self.bodies@,
                    old(self).static_links@.skip(si as int),
                ),
            decreases ns - si,
        {
            let ghost pre_b = self.bodies@;
            let sl: StaticLink = self.static_links[si];
            apply_static_link(&mut self.bodies, sl.body_a, sl.body_b, sl.rest_length);
            proof {
                assert(self.bodies@ == static_link_sp(
                    pre_b,
                    old(self).static_links@[si as int].body_a as int,
                    old(self).static_links@[si as int].body_b as int,
                    old(self).static_links@[si as int].rest_length as int,
                ));
                assert(old(self).static_links@.skip(si as int)[0] == old(self).static_links@[si as int]);
                assert(old(self).static_links@.skip(si as int).skip(1) =~= old(
                    self,
                ).static_links@.skip(si as int + 1));
            }
            si = si + 1;
        }
        proof {
            assert forall|j: int|
                0 <= j < self.bodies@.len() implies (#[trigger] self.bodies@[j]).ok()
                && self.bodies@[j].fits(self.width, self.height) by {
                assert(self.bodies@[j].radius == old(self).bodies@[j].radius);
            }
            if no_contacts(mid) && old(self).links@.len() == 0 && old(self).static_links@.len()
                == 0 {
                if pairs@.len() > 0 {
                    assert(touching(mid[pairs@[0].0 as int], mid[pairs@[0].1 as int]));
                }
                assert(pairs@.len() == 0);
                assert(after_resolve == mid);
            }
            assert(old(self).static_links@.skip(ns as int) =~= Seq::<StaticLink>::empty());
            assert(rigids_applied(after_springs, old(self).static_links@) == self.bodies@);
            assert(self.grid.wf_for(mid));
            assert(forall|j2: int| 0 <= j2 < mid.len() ==> #[trigger] self.grid.binned(mid, j2));
            assert(pairs_sound(self.grid, pairs@, mid));
            assert(forall|i2: int, j2: int|
                #[trigger] self.grid.must_emit(mid, i2, j2) ==> pairs@.contains(
                    (i2 as usize, j2 as usize),
                ));
            assert(resolved_trace(mid, pairs@, after_resolve, tr));
            assert(self.bodies@ == rigids_applied(
                springs_applied(after_resolve, old(self).links@, old(self).config),
                old(self).static_links@,
            ));
        }
    }
}

} // verus!
