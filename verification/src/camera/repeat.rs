//! A render adds no chance of its own: with functions that repeat
//! themselves, the image is settled, byte for byte, by the camera, the scene
//! and the source of chance that the render starts from. A random generator
//! that is handed from call to call is such a source: a function that takes
//! it, draws from it and hands it back repeats itself, since the same
//! generator in the same state gives the same draws.

use crate::camera::path::{Path, PathEnd};
use crate::camera::Camera;
use crate::color::Color;
use crate::hit::hittable::HitRecord;
use crate::hit::list::{nearest_within, HittableList};
use crate::interval::Interval;
use crate::materials::Scatter;
use crate::ray::Ray;
use vstd::prelude::*;

verus! {

/// Whether two lists of paths hold the same paths.
pub open spec fn same_paths(first: Seq<Path>, second: Seq<Path>) -> bool {
    &&& first.len() == second.len()
    &&& forall|i: int|
        0 <= i < first.len() ==> (#[trigger] first[i]).attenuations@ == second[i].attenuations@
            && first[i].end == second[i].end
}

/// Whether `aim` is a function of its arguments: asked twice about one
/// pixel with the source of chance in one state, it cannot give two
/// different rays or leave the source in two different states.
pub open spec fn aim_repeats<X, A: Fn(i32, i32, X) -> (Ray, X)>(aim: A) -> bool {
    forall|column: i32, row: i32, state: X, a: (Ray, X), b: (Ray, X)|
        #![trigger call_ensures(aim, (column, row, state), a), call_ensures(aim, (column, row, state), b)]
        call_ensures(aim, (column, row, state), a) && call_ensures(aim, (column, row, state), b)
            ==> a == b
}

/// Whether `probe` is a function of its arguments.
pub open spec fn probe_repeats<H, P: Fn(&H, &Ray, Interval) -> Option<HitRecord>>(probe: P) -> bool {
    forall|surface: H, ray: Ray, range: Interval, a: Option<HitRecord>, b: Option<HitRecord>|
        #![trigger call_ensures(probe, (&surface, &ray, range), a), call_ensures(probe, (&surface, &ray, range), b)]
        call_ensures(probe, (&surface, &ray, range), a) && call_ensures(
            probe,
            (&surface, &ray, range),
            b,
        ) ==> a == b
}

/// Whether `scatter` is a function of its arguments, the state of the source
/// of chance among them.
pub open spec fn scatter_repeats<X, S: Fn(&Ray, &HitRecord, X) -> (Option<Scatter>, X)>(
    scatter: S,
) -> bool {
    forall|ray: Ray, record: HitRecord, state: X, a: (Option<Scatter>, X), b: (Option<Scatter>, X)|
        #![trigger call_ensures(scatter, (&ray, &record, state), a), call_ensures(scatter, (&ray, &record, state), b)]
        call_ensures(scatter, (&ray, &record, state), a) && call_ensures(
            scatter,
            (&ray, &record, state),
            b,
        ) ==> a == b
}

/// Whether `develop` is a function of the paths it is given.
pub open spec fn develop_repeats<D: Fn(&Vec<Path>) -> Color>(develop: D) -> bool {
    forall|first: Vec<Path>, second: Vec<Path>, a: Color, b: Color|
        #![trigger call_ensures(develop, (&first,), a), call_ensures(develop, (&second,), b)]
        same_paths(first@, second@) && call_ensures(develop, (&first,), a) && call_ensures(
            develop,
            (&second,),
            b,
        ) ==> a == b
}

/// What a probe that repeats itself reports of a scene is settled by the ray
/// and the range.
proof fn lemma_reports_repeat<H, P: Fn(&H, &Ray, Interval) -> Option<HitRecord>>(
    world: &HittableList<H>,
    probe: P,
    ray: Ray,
    range: Interval,
    first: Seq<Option<HitRecord>>,
    second: Seq<Option<HitRecord>>,
)
    requires
        probe_repeats(probe),
        world.reports(probe, ray, range, first),
        world.reports(probe, ray, range, second),
    ensures
        first == second,
{
    assert forall|i: int| 0 <= i < first.len() implies first[i] == second[i] by {
        assert(call_ensures(probe, (&world@[i], &ray, range), first[i]));
        assert(call_ensures(probe, (&world@[i], &ray, range), second[i]));
    }
    assert(first =~= second);
}

/// One ray bounces in one way only.
proof fn lemma_bounce_repeats<H, X, P, S>(
    world: &HittableList<H>,
    probe: P,
    scatter: S,
    ray: Ray,
    state: X,
    first: Color,
    first_next: Ray,
    first_after: X,
    second: Color,
    second_next: Ray,
    second_after: X,
) where
    P: Fn(&H, &Ray, Interval) -> Option<HitRecord>,
    S: Fn(&Ray, &HitRecord, X) -> (Option<Scatter>, X),

    requires
        probe_repeats(probe),
        scatter_repeats(scatter),
        Camera::bounces(world, probe, scatter, ray, state, first, first_next, first_after),
        Camera::bounces(world, probe, scatter, ray, state, second, second_next, second_after),
    ensures
        first == second,
        first_next == second_next,
        first_after == second_after,
{
    let f = choose|found: Seq<Option<HitRecord>>| #[trigger]
        Camera::bounce_seen(
            world,
            probe,
            scatter,
            ray,
            state,
            first,
            first_next,
            first_after,
            found,
        );
    let g = choose|found: Seq<Option<HitRecord>>| #[trigger]
        Camera::bounce_seen(
            world,
            probe,
            scatter,
            ray,
            state,
            second,
            second_next,
            second_after,
            found,
        );
    lemma_reports_repeat(world, probe, ray, Camera::spec_time_range(), f, g);
    let record = nearest_within(f, Camera::spec_time_range())->0;
    let a = (Some(Scatter { attenuation: first, ray: first_next }), first_after);
    let b = (Some(Scatter { attenuation: second, ray: second_next }), second_after);
    assert(call_ensures(scatter, (&ray, &record, state), a));
    assert(call_ensures(scatter, (&ray, &record, state), b));
    assert(a == b);
}

/// A ray ends in one way only.
proof fn lemma_end_repeats<H, X, P, S>(
    world: &HittableList<H>,
    probe: P,
    scatter: S,
    ray: Ray,
    state: X,
    depth: int,
    first: PathEnd,
    first_after: X,
    second: PathEnd,
    second_after: X,
) where
    P: Fn(&H, &Ray, Interval) -> Option<HitRecord>,
    S: Fn(&Ray, &HitRecord, X) -> (Option<Scatter>, X),

    requires
        probe_repeats(probe),
        scatter_repeats(scatter),
        Camera::ends(world, probe, scatter, ray, state, depth, first, first_after),
        Camera::ends(world, probe, scatter, ray, state, depth, second, second_after),
    ensures
        first == second,
        first_after == second_after,
{
    if depth > 0 {
        let range = Camera::spec_time_range();
        let f = choose|found: Seq<Option<HitRecord>>| #[trigger]
            Camera::end_seen(world, probe, scatter, ray, state, first, first_after, found);
        let g = choose|found: Seq<Option<HitRecord>>| #[trigger]
            Camera::end_seen(world, probe, scatter, ray, state, second, second_after, found);
        lemma_reports_repeat(world, probe, ray, range, f, g);
        if nearest_within(f, range) is Some {
            let record = nearest_within(f, range)->0;
            let a: (Option<Scatter>, X) = (None, first_after);
            let b: (Option<Scatter>, X) = (None, second_after);
            assert(call_ensures(scatter, (&ray, &record, state), a));
            assert(call_ensures(scatter, (&ray, &record, state), b));
            assert(a == b);
        }
    }
}

/// A ray with a bounce to spare that bounces does not end where it stands.
proof fn lemma_bounce_is_no_end<H, X, P, S>(
    world: &HittableList<H>,
    probe: P,
    scatter: S,
    ray: Ray,
    state: X,
    depth: int,
    attenuation: Color,
    next: Ray,
    after: X,
    end: PathEnd,
    end_after: X,
) where
    P: Fn(&H, &Ray, Interval) -> Option<HitRecord>,
    S: Fn(&Ray, &HitRecord, X) -> (Option<Scatter>, X),

    requires
        probe_repeats(probe),
        scatter_repeats(scatter),
        depth > 0,
        Camera::bounces(world, probe, scatter, ray, state, attenuation, next, after),
    ensures
        !Camera::ends(world, probe, scatter, ray, state, depth, end, end_after),
{
    if Camera::ends(world, probe, scatter, ray, state, depth, end, end_after) {
        let range = Camera::spec_time_range();
        let f = choose|found: Seq<Option<HitRecord>>| #[trigger]
            Camera::bounce_seen(world, probe, scatter, ray, state, attenuation, next, after, found);
        let g = choose|found: Seq<Option<HitRecord>>| #[trigger]
            Camera::end_seen(world, probe, scatter, ray, state, end, end_after, found);
        lemma_reports_repeat(world, probe, ray, range, f, g);
        let record = nearest_within(f, range)->0;
        let a = (Some(Scatter { attenuation, ray: next }), after);
        let b: (Option<Scatter>, X) = (None, end_after);
        assert(call_ensures(scatter, (&ray, &record, state), a));
        assert(call_ensures(scatter, (&ray, &record, state), b));
        assert(a == b);
    }
}

/// Two chains of bounces from one ray and one state agree as far as both go.
proof fn lemma_bounces_repeat<H, X, P, S>(
    world: &HittableList<H>,
    probe: P,
    scatter: S,
    first_rays: Seq<Ray>,
    first_states: Seq<X>,
    first: Seq<Color>,
    second_rays: Seq<Ray>,
    second_states: Seq<X>,
    second: Seq<Color>,
    upto: int,
) where
    P: Fn(&H, &Ray, Interval) -> Option<HitRecord>,
    S: Fn(&Ray, &HitRecord, X) -> (Option<Scatter>, X),

    requires
        probe_repeats(probe),
        scatter_repeats(scatter),
        first_rays.len() == first.len() + 1,
        first_states.len() == first.len() + 1,
        second_rays.len() == second.len() + 1,
        second_states.len() == second.len() + 1,
        first_rays[0] == second_rays[0],
        first_states[0] == second_states[0],
        0 <= upto <= first.len(),
        upto <= second.len(),
        forall|k: int|
            0 <= k < first.len() ==> Camera::bounces(
                world,
                probe,
                scatter,
                #[trigger] first_rays[k],
                first_states[k],
                first[k],
                first_rays[k + 1],
                first_states[k + 1],
            ),
        forall|k: int|
            0 <= k < second.len() ==> Camera::bounces(
                world,
                probe,
                scatter,
                #[trigger] second_rays[k],
                second_states[k],
                second[k],
                second_rays[k + 1],
                second_states[k + 1],
            ),
    ensures
        forall|k: int| 0 <= k <= upto ==> first_rays[k] == second_rays[k],
        forall|k: int| 0 <= k <= upto ==> first_states[k] == second_states[k],
        forall|k: int| 0 <= k < upto ==> first[k] == second[k],
    decreases upto,
{
    if upto > 0 {
        let k = upto - 1;
        lemma_bounces_repeat(
            world,
            probe,
            scatter,
            first_rays,
            first_states,
            first,
            second_rays,
            second_states,
            second,
            k,
        );
        assert(first_rays[k] == second_rays[k]);
        assert(first_states[k] == second_states[k]);
        lemma_bounce_repeats(
            world,
            probe,
            scatter,
            first_rays[k],
            first_states[k],
            first[k],
            first_rays[k + 1],
            first_states[k + 1],
            second[k],
            second_rays[k + 1],
            second_states[k + 1],
        );
    }
}

/// With a probe and materials that repeat themselves, a ray has one path from
/// one state of the source of chance, and leaves the source in one state.
pub proof fn lemma_path_repeats<H, X, P, S>(
    world: &HittableList<H>,
    probe: P,
    scatter: S,
    ray: Ray,
    state: X,
    depth: int,
    first: Seq<Color>,
    first_end: PathEnd,
    first_after: X,
    second: Seq<Color>,
    second_end: PathEnd,
    second_after: X,
) where
    P: Fn(&H, &Ray, Interval) -> Option<HitRecord>,
    S: Fn(&Ray, &HitRecord, X) -> (Option<Scatter>, X),

    requires
        probe_repeats(probe),
        scatter_repeats(scatter),
        Camera::is_path(world, probe, scatter, ray, state, depth, first, first_end, first_after),
        Camera::is_path(world, probe, scatter, ray, state, depth, second, second_end, second_after),
    ensures
        first == second,
        first_end == second_end,
        first_after == second_after,
{
    let (first_rays, first_states) = choose|rays: Seq<Ray>, states: Seq<X>| #[trigger]
        Camera::follows(
            world,
            probe,
            scatter,
            ray,
            state,
            depth,
            first,
            first_end,
            first_after,
            rays,
            states,
        );
    let (second_rays, second_states) = choose|rays: Seq<Ray>, states: Seq<X>| #[trigger]
        Camera::follows(
            world,
            probe,
            scatter,
            ray,
            state,
            depth,
            second,
            second_end,
            second_after,
            rays,
            states,
        );
    let shared = if first.len() <= second.len() {
        first.len() as int
    } else {
        second.len() as int
    };
    lemma_bounces_repeat(
        world,
        probe,
        scatter,
        first_rays,
        first_states,
        first,
        second_rays,
        second_states,
        second,
        shared,
    );
    let at = first_rays[shared];
    let there = first_states[shared];
    assert(at == second_rays[shared]);
    assert(there == second_states[shared]);
    if first.len() < second.len() {
        assert(Camera::bounces(
            world,
            probe,
            scatter,
            at,
            there,
            second[shared],
            second_rays[shared + 1],
            second_states[shared + 1],
        ));
        lemma_bounce_is_no_end(
            world,
            probe,
            scatter,
            at,
            there,
            depth - shared,
            second[shared],
            second_rays[shared + 1],
            second_states[shared + 1],
            first_end,
            first_after,
        );
    } else if second.len() < first.len() {
        assert(Camera::bounces(
            world,
            probe,
            scatter,
            at,
            there,
            first[shared],
            first_rays[shared + 1],
            first_states[shared + 1],
        ));
        lemma_bounce_is_no_end(
            world,
            probe,
            scatter,
            at,
            there,
            depth - shared,
            first[shared],
            first_rays[shared + 1],
            first_states[shared + 1],
            second_end,
            second_after,
        );
    } else {
        assert(first =~= second);
        lemma_end_repeats(
            world,
            probe,
            scatter,
            at,
            there,
            depth - shared,
            first_end,
            first_after,
            second_end,
            second_after,
        );
    }
}

/// Where the functions repeat themselves, a sample taken from one state of
/// the source of chance has one path and leaves the source in one state.
pub proof fn lemma_sample_repeats<H, X, A, P, S>(
    camera: Camera,
    world: &HittableList<H>,
    aim: A,
    probe: P,
    scatter: S,
    column: i32,
    row: i32,
    state: X,
    first: Path,
    first_after: X,
    second: Path,
    second_after: X,
) where
    A: Fn(i32, i32, X) -> (Ray, X),
    P: Fn(&H, &Ray, Interval) -> Option<HitRecord>,
    S: Fn(&Ray, &HitRecord, X) -> (Option<Scatter>, X),

    requires
        aim_repeats(aim),
        probe_repeats(probe),
        scatter_repeats(scatter),
        camera.samples(world, aim, probe, scatter, column, row, state, first, first_after),
        camera.samples(world, aim, probe, scatter, column, row, state, second, second_after),
    ensures
        first.attenuations@ == second.attenuations@,
        first.end == second.end,
        first_after == second_after,
{
    let (a, a_state) = choose|ray: Ray, aimed: X| #[trigger]
        camera.sampled(
            world,
            aim,
            probe,
            scatter,
            column,
            row,
            state,
            first,
            first_after,
            ray,
            aimed,
        );
    let (b, b_state) = choose|ray: Ray, aimed: X| #[trigger]
        camera.sampled(
            world,
            aim,
            probe,
            scatter,
            column,
            row,
            state,
            second,
            second_after,
            ray,
            aimed,
        );
    assert(call_ensures(aim, (column, row, state), (a, a_state)));
    assert(call_ensures(aim, (column, row, state), (b, b_state)));
    assert((a, a_state) == (b, b_state));
    lemma_path_repeats(
        world,
        probe,
        scatter,
        a,
        a_state,
        camera.settings().max_depth as int,
        first.attenuations@,
        first.end,
        first_after,
        second.attenuations@,
        second.end,
        second_after,
    );
}

/// Two runs of samples of one pixel from one state agree as far as both go.
proof fn lemma_samples_repeat<H, X, A, P, S>(
    camera: Camera,
    world: &HittableList<H>,
    aim: A,
    probe: P,
    scatter: S,
    column: i32,
    row: i32,
    first: Seq<Path>,
    first_states: Seq<X>,
    second: Seq<Path>,
    second_states: Seq<X>,
    upto: int,
) where
    A: Fn(i32, i32, X) -> (Ray, X),
    P: Fn(&H, &Ray, Interval) -> Option<HitRecord>,
    S: Fn(&Ray, &HitRecord, X) -> (Option<Scatter>, X),

    requires
        aim_repeats(aim),
        probe_repeats(probe),
        scatter_repeats(scatter),
        first_states.len() == first.len() + 1,
        second_states.len() == second.len() + 1,
        first.len() == second.len(),
        first_states[0] == second_states[0],
        0 <= upto <= first.len(),
        forall|s: int|
            0 <= s < first.len() ==> camera.samples(
                world,
                aim,
                probe,
                scatter,
                column,
                row,
                first_states[s],
                #[trigger] first[s],
                first_states[s + 1],
            ),
        forall|s: int|
            0 <= s < second.len() ==> camera.samples(
                world,
                aim,
                probe,
                scatter,
                column,
                row,
                second_states[s],
                #[trigger] second[s],
                second_states[s + 1],
            ),
    ensures
        forall|s: int| 0 <= s <= upto ==> first_states[s] == second_states[s],
        forall|s: int|
            0 <= s < upto ==> (#[trigger] first[s]).attenuations@ == second[s].attenuations@
                && first[s].end == second[s].end,
    decreases upto,
{
    if upto > 0 {
        let s = upto - 1;
        lemma_samples_repeat(
            camera,
            world,
            aim,
            probe,
            scatter,
            column,
            row,
            first,
            first_states,
            second,
            second_states,
            s,
        );
        assert(first_states[s] == second_states[s]);
        assert(camera.samples(
            world,
            aim,
            probe,
            scatter,
            column,
            row,
            first_states[s],
            first[s],
            first_states[s + 1],
        ));
        assert(camera.samples(
            world,
            aim,
            probe,
            scatter,
            column,
            row,
            second_states[s],
            second[s],
            second_states[s + 1],
        ));
        lemma_sample_repeats(
            camera,
            world,
            aim,
            probe,
            scatter,
            column,
            row,
            first_states[s],
            first[s],
            first_states[s + 1],
            second[s],
            second_states[s + 1],
        );
    }
}

/// Where the four functions repeat themselves, a pixel exposed from one
/// state of the source of chance has one colour and leaves the source in one
/// state.
pub proof fn lemma_pixel_repeats<H, X, A, P, S, D>(
    camera: Camera,
    world: &HittableList<H>,
    aim: A,
    probe: P,
    scatter: S,
    develop: D,
    column: i32,
    row: i32,
    state: X,
    first: Color,
    first_after: X,
    second: Color,
    second_after: X,
) where
    A: Fn(i32, i32, X) -> (Ray, X),
    P: Fn(&H, &Ray, Interval) -> Option<HitRecord>,
    S: Fn(&Ray, &HitRecord, X) -> (Option<Scatter>, X),
    D: Fn(&Vec<Path>) -> Color,

    requires
        aim_repeats(aim),
        probe_repeats(probe),
        scatter_repeats(scatter),
        develop_repeats(develop),
        camera.exposes(world, aim, probe, scatter, develop, column, row, state, first, first_after),
        camera.exposes(
            world,
            aim,
            probe,
            scatter,
            develop,
            column,
            row,
            state,
            second,
            second_after,
        ),
    ensures
        first == second,
        first_after == second_after,
{
    let (p, p_states) = choose|paths: Vec<Path>, states: Seq<X>| #[trigger]
        camera.developed(
            world,
            aim,
            probe,
            scatter,
            develop,
            column,
            row,
            state,
            first,
            first_after,
            paths,
            states,
        );
    let (q, q_states) = choose|paths: Vec<Path>, states: Seq<X>| #[trigger]
        camera.developed(
            world,
            aim,
            probe,
            scatter,
            develop,
            column,
            row,
            state,
            second,
            second_after,
            paths,
            states,
        );
    lemma_samples_repeat(
        camera,
        world,
        aim,
        probe,
        scatter,
        column,
        row,
        p@,
        p_states,
        q@,
        q_states,
        p@.len() as int,
    );
    assert(same_paths(p@, q@));
    assert(p_states[p@.len() as int] == q_states[p@.len() as int]);
}

/// Two runs over the pixels of one image from one state agree as far as
/// they go.
proof fn lemma_pixels_repeat<H, X, A, P, S, D>(
    camera: Camera,
    world: &HittableList<H>,
    aim: A,
    probe: P,
    scatter: S,
    develop: D,
    first: Seq<Color>,
    first_states: Seq<X>,
    second: Seq<Color>,
    second_states: Seq<X>,
    upto: int,
) where
    A: Fn(i32, i32, X) -> (Ray, X),
    P: Fn(&H, &Ray, Interval) -> Option<HitRecord>,
    S: Fn(&Ray, &HitRecord, X) -> (Option<Scatter>, X),
    D: Fn(&Vec<Path>) -> Color,

    requires
        aim_repeats(aim),
        probe_repeats(probe),
        scatter_repeats(scatter),
        develop_repeats(develop),
        first_states[0] == second_states[0],
        camera.pictured(
            world,
            aim,
            probe,
            scatter,
            develop,
            first_states[0],
            first,
            first_states.last(),
            first_states,
        ),
        camera.pictured(
            world,
            aim,
            probe,
            scatter,
            develop,
            second_states[0],
            second,
            second_states.last(),
            second_states,
        ),
        0 <= upto <= first.len(),
    ensures
        forall|k: int| 0 <= k <= upto ==> first_states[k] == second_states[k],
        forall|k: int| 0 <= k < upto ==> first[k] == second[k],
    decreases upto,
{
    if upto > 0 {
        let k = upto - 1;
        lemma_pixels_repeat(
            camera,
            world,
            aim,
            probe,
            scatter,
            develop,
            first,
            first_states,
            second,
            second_states,
            k,
        );
        let width = camera.settings().image_width as int;
        let column = (k % width) as i32;
        let row = (k / width) as i32;
        assert(first_states[k] == second_states[k]);
        assert(camera.exposes(
            world,
            aim,
            probe,
            scatter,
            develop,
            column,
            row,
            first_states[k],
            first[k],
            first_states[k + 1],
        ));
        assert(camera.exposes(
            world,
            aim,
            probe,
            scatter,
            develop,
            column,
            row,
            second_states[k],
            second[k],
            second_states[k + 1],
        ));
        lemma_pixel_repeats(
            camera,
            world,
            aim,
            probe,
            scatter,
            develop,
            column,
            row,
            first_states[k],
            first[k],
            first_states[k + 1],
            second[k],
            second_states[k + 1],
        );
    }
}

/// A render adds no chance of its own: where the four functions it relies
/// on repeat themselves, the camera, the scene and the state in which the
/// source of chance starts settle the colours of the image, with them every
/// byte of the text, and the state in which the source is left. Two renders
/// from generators of one seed give the same text.
pub proof fn lemma_render_repeats<H, X, A, P, S, D>(
    camera: Camera,
    world: &HittableList<H>,
    aim: A,
    probe: P,
    scatter: S,
    develop: D,
    state: X,
    first: Seq<Color>,
    first_after: X,
    second: Seq<Color>,
    second_after: X,
) where
    A: Fn(i32, i32, X) -> (Ray, X),
    P: Fn(&H, &Ray, Interval) -> Option<HitRecord>,
    S: Fn(&Ray, &HitRecord, X) -> (Option<Scatter>, X),
    D: Fn(&Vec<Path>) -> Color,

    requires
        aim_repeats(aim),
        probe_repeats(probe),
        scatter_repeats(scatter),
        develop_repeats(develop),
        camera.pictures(world, aim, probe, scatter, develop, state, first, first_after),
        camera.pictures(world, aim, probe, scatter, develop, state, second, second_after),
    ensures
        first == second,
        first_after == second_after,
        camera.text(first) == camera.text(second),
{
    let first_states = choose|states: Seq<X>| #[trigger]
        camera.pictured(world, aim, probe, scatter, develop, state, first, first_after, states);
    let second_states = choose|states: Seq<X>| #[trigger]
        camera.pictured(world, aim, probe, scatter, develop, state, second, second_after, states);
    lemma_pixels_repeat(
        camera,
        world,
        aim,
        probe,
        scatter,
        develop,
        first,
        first_states,
        second,
        second_states,
        first.len() as int,
    );
    assert(first =~= second);
    assert(first_states[first.len() as int] == second_states[first.len() as int]);
}

} // verus!
