//! The path of one ray through the scene: bounce by bounce, until the ray
//! escapes, is absorbed, or has used up its bounces.

use crate::camera::Camera;
use crate::color::Color;
use crate::hit::hittable::HitRecord;
use crate::hit::list::{all_within, nearest_within, HittableList};
use crate::interval::Interval;
use crate::materials::Scatter;
use crate::ray::Ray;
use crate::scalar::Scalar;
use vstd::prelude::*;

verus! {

/// The pattern of 0.001: a hit must come later than this, so that a ray that
/// leaves a surface does not hit the same surface at once.
pub const SHADOW_MARGIN_BITS: u64 = 0x3f50_624d_d2f1_a9fc;

/// The shadow margin is the double nearest to one thousandth: it is its
/// significand over 2^62, and a thousand times that significand misses 2^62
/// by less than five hundred, half a step of the significand.
pub proof fn lemma_shadow_margin_is_a_thousandth()
    ensures
        (Scalar { bits: SHADOW_MARGIN_BITS }).weight() == 1075 - 62,
        -500 <= 1000 * (Scalar { bits: SHADOW_MARGIN_BITS }).significand()
            - 0x4000_0000_0000_0000 <= 500,
{
    let margin = Scalar { bits: SHADOW_MARGIN_BITS };
    assert(margin.magnitude() == 0x3f50_624d_d2f1_a9fc);
    assert(margin.exponent() == 1013 && margin.fraction() == 0x0000_624d_d2f1_a9fc);
}

/// How the path of a ray through the scene ends.
#[derive(Clone, Copy, Debug, PartialEq, Eq, Structural)]
pub enum PathEnd {
    /// The bounce limit was used up: no light comes back.
    Exhausted,
    /// A surface swallowed the ray: no light comes back.
    Absorbed,
    /// Nothing was hit: the sky behind this ray is what lights the path.
    Escaped(Ray),
}

/// The path of a ray through the scene: the colours by which the surfaces it
/// bounced off multiply the light, in the order of the bounces, and its end.
#[derive(Debug)]
pub struct Path {
    pub attenuations: Vec<Color>,
    pub end: PathEnd,
}

impl Path {
    /// The ray behind which the sky lights the path, if the path escaped;
    /// nothing for a path that was absorbed or used up its bounces, along
    /// which no light comes back.
    pub fn escaped(&self) -> (ray: Option<Ray>)
        ensures
            ray == match self.end {
                PathEnd::Escaped(last) => Some(last),
                PathEnd::Absorbed => None,
                PathEnd::Exhausted => None,
            },
    {
        match self.end {
            PathEnd::Escaped(last) => Some(last),
            PathEnd::Absorbed => None,
            PathEnd::Exhausted => None,
        }
    }
}

impl Camera {
    /// The times at which a hit counts: later than 0.001, with no end.
    pub open spec fn spec_time_range() -> Interval {
        Interval { start: Scalar { bits: SHADOW_MARGIN_BITS }, end: Scalar::spec_infinity() }
    }

    /// Whether `found` is what the probe reports of `ray`, and the nearest
    /// hit in it is scattered into `next` with the given attenuation, which
    /// takes the source of chance from `state` to `after`.
    pub open spec fn bounce_seen<H, X, P, S>(
        world: &HittableList<H>,
        probe: P,
        scatter: S,
        ray: Ray,
        state: X,
        attenuation: Color,
        next: Ray,
        after: X,
        found: Seq<Option<HitRecord>>,
    ) -> bool where
        P: Fn(&H, &Ray, Interval) -> Option<HitRecord>,
        S: Fn(&Ray, &HitRecord, X) -> (Option<Scatter>, X),
     {
        &&& world.reports(probe, ray, Self::spec_time_range(), found)
        &&& nearest_within(found, Self::spec_time_range()) matches Some(record) && call_ensures(
            scatter,
            (&ray, &record, state),
            (Some(Scatter { attenuation, ray: next }), after),
        )
    }

    /// Whether `ray` can bounce into `next` with the given attenuation: it
    /// hits the scene later than 0.001, and the material at the nearest hit
    /// scatters it so.
    pub open spec fn bounces<H, X, P, S>(
        world: &HittableList<H>,
        probe: P,
        scatter: S,
        ray: Ray,
        state: X,
        attenuation: Color,
        next: Ray,
        after: X,
    ) -> bool where
        P: Fn(&H, &Ray, Interval) -> Option<HitRecord>,
        S: Fn(&Ray, &HitRecord, X) -> (Option<Scatter>, X),
     {
        exists|found: Seq<Option<HitRecord>>| #[trigger]
            Self::bounce_seen(world, probe, scatter, ray, state, attenuation, next, after, found)
    }

    /// Whether `found` is what the probe reports of `ray`, and shows the
    /// path ending there in `end`: escaped where nothing is hit, which leaves
    /// the source of chance as it is, and absorbed where the material at the
    /// nearest hit does not scatter the ray.
    pub open spec fn end_seen<H, X, P, S>(
        world: &HittableList<H>,
        probe: P,
        scatter: S,
        ray: Ray,
        state: X,
        end: PathEnd,
        after: X,
        found: Seq<Option<HitRecord>>,
    ) -> bool where
        P: Fn(&H, &Ray, Interval) -> Option<HitRecord>,
        S: Fn(&Ray, &HitRecord, X) -> (Option<Scatter>, X),
     {
        &&& world.reports(probe, ray, Self::spec_time_range(), found)
        &&& match nearest_within(found, Self::spec_time_range()) {
            None => end == PathEnd::Escaped(ray) && after == state,
            Some(record) => end == PathEnd::Absorbed && call_ensures(
                scatter,
                (&ray, &record, state),
                (None, after),
            ),
        }
    }

    /// Whether a path can end in `end` at `ray` with `depth` bounces left:
    /// exhausted when none is left, and else escaped or absorbed as the scene
    /// and the materials have it.
    pub open spec fn ends<H, X, P, S>(
        world: &HittableList<H>,
        probe: P,
        scatter: S,
        ray: Ray,
        state: X,
        depth: int,
        end: PathEnd,
        after: X,
    ) -> bool where
        P: Fn(&H, &Ray, Interval) -> Option<HitRecord>,
        S: Fn(&Ray, &HitRecord, X) -> (Option<Scatter>, X),
     {
        if depth <= 0 {
            end == PathEnd::Exhausted && after == state
        } else {
            exists|found: Seq<Option<HitRecord>>| #[trigger]
                Self::end_seen(world, probe, scatter, ray, state, end, after, found)
        }
    }

    /// Whether `rays` are the rays of a path from `ray`, and `states` what
    /// the source of chance is at each: the first are `ray` and `state`,
    /// each ray bounces into the next with the attenuation of its place,
    /// there are no more bounces than `depth` allows, and the path ends at
    /// the last ray, leaving the source of chance at `after`.
    pub open spec fn follows<H, X, P, S>(
        world: &HittableList<H>,
        probe: P,
        scatter: S,
        ray: Ray,
        state: X,
        depth: int,
        attenuations: Seq<Color>,
        end: PathEnd,
        after: X,
        rays: Seq<Ray>,
        states: Seq<X>,
    ) -> bool where
        P: Fn(&H, &Ray, Interval) -> Option<HitRecord>,
        S: Fn(&Ray, &HitRecord, X) -> (Option<Scatter>, X),
     {
        &&& rays.len() == attenuations.len() + 1
        &&& states.len() == attenuations.len() + 1
        &&& rays[0] == ray
        &&& states[0] == state
        &&& attenuations.len() == 0 || attenuations.len() <= depth
        &&& forall|k: int|
            0 <= k < attenuations.len() ==> Self::bounces(
                world,
                probe,
                scatter,
                #[trigger] rays[k],
                states[k],
                attenuations[k],
                rays[k + 1],
                states[k + 1],
            )
        &&& Self::ends(
            world,
            probe,
            scatter,
            rays.last(),
            states.last(),
            depth - attenuations.len(),
            end,
            after,
        )
    }

    /// Whether `attenuations` and `end` describe a path that `ray` can take
    /// through `world` with `depth` bounces allowed, taking the source of
    /// chance from `state` to `after`.
    pub open spec fn is_path<H, X, P, S>(
        world: &HittableList<H>,
        probe: P,
        scatter: S,
        ray: Ray,
        state: X,
        depth: int,
        attenuations: Seq<Color>,
        end: PathEnd,
        after: X,
    ) -> bool where
        P: Fn(&H, &Ray, Interval) -> Option<HitRecord>,
        S: Fn(&Ray, &HitRecord, X) -> (Option<Scatter>, X),
     {
        exists|rays: Seq<Ray>, states: Seq<X>| #[trigger]
            Self::follows(
                world,
                probe,
                scatter,
                ray,
                state,
                depth,
                attenuations,
                end,
                after,
                rays,
                states,
            )
    }

    /// The times at which a hit counts: later than 0.001, with no end.
    #[verifier::when_used_as_spec(spec_time_range)]
    pub fn time_range() -> (range: Interval)
        ensures
            range == Self::spec_time_range(),
    {
        Interval::new(Scalar::from_bits(SHADOW_MARGIN_BITS), Scalar::infinity())
    }

    /// Follows a ray through the scene for at most `depth` bounces.
    ///
    /// `probe` tells where a ray meets one surface and `scatter` what the
    /// material at a hit makes of the ray. `state` is the source of chance,
    /// a random generator or whatever else stands for one: `scatter` takes
    /// it, draws from it what it needs and hands it back, and it comes back
    /// with the path as the last bounce left it.
    ///
    /// With no bounce left the path is exhausted. Otherwise the nearest hit
    /// later than 0.001 is looked for: without one the ray escapes; a hit
    /// that scatters adds its attenuation to the path, which goes on along
    /// the scattered ray with one bounce less; a hit that does not scatter
    /// absorbs the ray.
    ///
    /// The light along the path is that of its end (the sky behind an escaped
    /// ray, black otherwise) multiplied by the attenuations, the last first.
    pub fn ray_color<H, X, P, S>(
        ray: &Ray,
        world: &HittableList<H>,
        depth: i32,
        state: X,
        probe: &P,
        scatter: &S,
    ) -> (made: (Path, X)) where
        P: Fn(&H, &Ray, Interval) -> Option<HitRecord>,
        S: Fn(&Ray, &HitRecord, X) -> (Option<Scatter>, X),

        requires
            world.probed_by(*probe),
            forall|ray: Ray, record: HitRecord, state: X|
                call_requires(*scatter, (&ray, &record, state)),
        ensures
            Self::is_path(
                world,
                *probe,
                *scatter,
                *ray,
                state,
                depth as int,
                made.0.attenuations@,
                made.0.end,
                made.1,
            ),
            depth <= 0 ==> made.0.attenuations@.len() == 0 && made.0.end == PathEnd::Exhausted
                && made.1 == state,
            depth > 0 && world@.len() == 0 ==> made.0.attenuations@.len() == 0 && made.0.end
                == PathEnd::Escaped(*ray) && made.1 == state,
    {
        let time_range: Interval = Self::time_range();
        let mut attenuations: Vec<Color> = Vec::new();
        let mut current: Ray = *ray;
        let mut chance: X = state;
        let mut left: i32 = depth;
        let mut finished: Option<PathEnd> = None;
        let ghost mut rays: Seq<Ray> = seq![*ray];
        let ghost mut states: Seq<X> = seq![state];
        let ghost mut after: X = state;
        while finished.is_none()
            invariant
                world.probed_by(*probe),
                forall|ray: Ray, record: HitRecord, state: X|
                    call_requires(*scatter, (&ray, &record, state)),
                time_range == Self::spec_time_range(),
                rays.len() == attenuations.len() + 1,
                states.len() == attenuations.len() + 1,
                rays[0] == *ray,
                states[0] == state,
                rays.last() == current,
                finished is None ==> states.last() == chance,
                left == depth - attenuations.len(),
                attenuations.len() == 0 || left >= 0,
                forall|k: int|
                    0 <= k < attenuations.len() ==> Self::bounces(
                        world,
                        *probe,
                        *scatter,
                        #[trigger] rays[k],
                        states[k],
                        attenuations[k],
                        rays[k + 1],
                        states[k + 1],
                    ),
                finished matches Some(end) ==> after == chance && Self::ends(
                    world,
                    *probe,
                    *scatter,
                    current,
                    states.last(),
                    left as int,
                    end,
                    after,
                ),
            decreases
                    if finished is None {
                        1int
                    } else {
                        0int
                    },
                    left,
        {
            if left <= 0 {
                finished = Some(PathEnd::Exhausted);
                proof {
                    after = chance;
                }
            } else {
                let hit: Option<HitRecord> = world.hit(&current, time_range, probe);
                let ghost found: Seq<Option<HitRecord>> = choose|found: Seq<Option<HitRecord>>| #[trigger]
                    world.reports(*probe, current, time_range, found) && hit == nearest_within(
                        found,
                        time_range,
                    );
                match hit {
                    None => {
                        finished = Some(PathEnd::Escaped(current));
                        proof {
                            after = chance;
                            assert(Self::end_seen(
                                world,
                                *probe,
                                *scatter,
                                current,
                                states.last(),
                                PathEnd::Escaped(current),
                                after,
                                found,
                            ));
                        }
                    },
                    Some(record) => {
                        let ghost before_call = chance;
                        let (scattered, next_chance) = scatter(&current, &record, chance);
                        chance = next_chance;
                        match scattered {
                            None => {
                                finished = Some(PathEnd::Absorbed);
                                proof {
                                    after = chance;
                                    assert(Self::end_seen(
                                        world,
                                        *probe,
                                        *scatter,
                                        current,
                                        before_call,
                                        PathEnd::Absorbed,
                                        after,
                                        found,
                                    ));
                                }
                            },
                            Some(bounce) => {
                                proof {
                                    assert(Self::bounce_seen(
                                        world,
                                        *probe,
                                        *scatter,
                                        current,
                                        before_call,
                                        bounce.attenuation,
                                        bounce.ray,
                                        chance,
                                        found,
                                    ));
                                    let ghost old_rays = rays;
                                    let ghost old_states = states;
                                    rays = rays.push(bounce.ray);
                                    states = states.push(chance);
                                    assert forall|k: int|
                                        0 <= k < attenuations.len() + 1 implies Self::bounces(
                                        world,
                                        *probe,
                                        *scatter,
                                        #[trigger] rays[k],
                                        states[k],
                                        attenuations@.push(bounce.attenuation)[k],
                                        rays[k + 1],
                                        states[k + 1],
                                    ) by {
                                        if k < attenuations.len() {
                                            assert(rays[k] == old_rays[k]);
                                            assert(rays[k + 1] == old_rays[k + 1]);
                                            assert(states[k] == old_states[k]);
                                            assert(states[k + 1] == old_states[k + 1]);
                                        }
                                    }
                                }
                                attenuations.push(bounce.attenuation);
                                current = bounce.ray;
                                left = left - 1;
                            },
                        }
                    },
                }
            }
        }
        let end: PathEnd = finished.unwrap();
        let made = (Path { attenuations, end }, chance);
        proof {
            assert(Self::follows(
                world,
                *probe,
                *scatter,
                *ray,
                state,
                depth as int,
                made.0.attenuations@,
                made.0.end,
                made.1,
                rays,
                states,
            ));
            lemma_short_paths(
                world,
                *probe,
                *scatter,
                *ray,
                state,
                depth as int,
                made.0.attenuations@,
                made.0.end,
                made.1,
            );
        }
        made
    }
}

/// A ray without a bounce to spare goes nowhere, and in an empty scene a ray
/// with a bounce to spare escapes at once: its path has no attenuation and
/// ends in the sky behind the ray itself, whatever the probe and the
/// materials would do, and nothing is drawn on the way.
pub proof fn lemma_short_paths<H, X, P, S>(
    world: &HittableList<H>,
    probe: P,
    scatter: S,
    ray: Ray,
    state: X,
    depth: int,
    attenuations: Seq<Color>,
    end: PathEnd,
    after: X,
) where
    P: Fn(&H, &Ray, Interval) -> Option<HitRecord>,
    S: Fn(&Ray, &HitRecord, X) -> (Option<Scatter>, X),

    requires
        Camera::is_path(world, probe, scatter, ray, state, depth, attenuations, end, after),
    ensures
        depth <= 0 ==> attenuations.len() == 0 && end == PathEnd::Exhausted && after == state,
        depth > 0 && world@.len() == 0 ==> attenuations.len() == 0 && end == PathEnd::Escaped(ray)
            && after == state,
{
    let (rays, states) = choose|rays: Seq<Ray>, states: Seq<X>| #[trigger]
        Camera::follows(
            world,
            probe,
            scatter,
            ray,
            state,
            depth,
            attenuations,
            end,
            after,
            rays,
            states,
        );
    if depth > 0 && world@.len() == 0 {
        let range = Camera::spec_time_range();
        assert forall|found: Seq<Option<HitRecord>>, from: Ray| #[trigger]
            world.reports(probe, from, range, found) implies nearest_within(found, range)
            is None by {
            assert(all_within(found, range).len() == 0);
        }
        if attenuations.len() > 0 {
            assert(Camera::bounces(
                world,
                probe,
                scatter,
                rays[0],
                states[0],
                attenuations[0],
                rays[1],
                states[1],
            ));
        }
    }
}

} // verus!
