//! The image: every pixel sampled, developed and written as text.

use crate::camera::path::{lemma_short_paths, Path, PathEnd};
use crate::camera::Camera;
use crate::color::{color_line, level_of, write_color, Color};
use crate::hit::hittable::HitRecord;
use crate::hit::list::HittableList;
use crate::interval::Interval;
use crate::materials::Scatter;
use crate::ppm::{
    header, lemma_header_is_three_lines, lemma_line_feeds_add, lemma_pixel_line_is_one_line,
    line_feeds, push_header,
};
use crate::ray::Ray;
use vstd::arithmetic::div_mod::*;
use vstd::prelude::*;

verus! {

/// The lines of text for a row of colours, one pixel after the other.
pub open spec fn lines(colors: Seq<Color>) -> Seq<u8>
    decreases colors.len(),
{
    if colors.len() == 0 {
        Seq::empty()
    } else {
        lines(colors.drop_last()) + color_line(colors.last())
    }
}

/// The lines of as many pixels are as many lines.
pub proof fn lemma_one_line_per_pixel(colors: Seq<Color>)
    ensures
        line_feeds(lines(colors)) == colors.len(),
    decreases colors.len(),
{
    if colors.len() > 0 {
        let last = colors.last();
        lemma_one_line_per_pixel(colors.drop_last());
        lemma_pixel_line_is_one_line(level_of(last.x), level_of(last.y), level_of(last.z));
        lemma_line_feeds_add(lines(colors.drop_last()), color_line(last));
    }
}

impl Camera {
    /// Whether `path` is the path of `ray`, a ray that `aim` gives for the
    /// pixel at `column` and `row`, through `world` with the camera's bounce
    /// limit; the source of chance goes from `state` through `aimed`, where
    /// `aim` leaves it, to `after`.
    pub open spec fn sampled<H, X, A, P, S>(
        &self,
        world: &HittableList<H>,
        aim: A,
        probe: P,
        scatter: S,
        column: i32,
        row: i32,
        state: X,
        path: Path,
        after: X,
        ray: Ray,
        aimed: X,
    ) -> bool where
        A: Fn(i32, i32, X) -> (Ray, X),
        P: Fn(&H, &Ray, Interval) -> Option<HitRecord>,
        S: Fn(&Ray, &HitRecord, X) -> (Option<Scatter>, X),
     {
        &&& call_ensures(aim, (column, row, state), (ray, aimed))
        &&& Self::is_path(
            world,
            probe,
            scatter,
            ray,
            aimed,
            self.settings().max_depth as int,
            path.attenuations@,
            path.end,
            after,
        )
    }

    /// Whether `path` can be the path of one sample of the pixel at `column`
    /// and `row`, taking the source of chance from `state` to `after`.
    pub open spec fn samples<H, X, A, P, S>(
        &self,
        world: &HittableList<H>,
        aim: A,
        probe: P,
        scatter: S,
        column: i32,
        row: i32,
        state: X,
        path: Path,
        after: X,
    ) -> bool where
        A: Fn(i32, i32, X) -> (Ray, X),
        P: Fn(&H, &Ray, Interval) -> Option<HitRecord>,
        S: Fn(&Ray, &HitRecord, X) -> (Option<Scatter>, X),
     {
        exists|ray: Ray, aimed: X| #[trigger]
            self.sampled(world, aim, probe, scatter, column, row, state, path, after, ray, aimed)
    }

    /// Whether `paths` are the paths of the samples of the pixel at `column`
    /// and `row`, taken one after the other and as many as the camera takes
    /// per pixel, `states` what the source of chance is before each and
    /// after the last, and `color` what `develop` makes of the paths.
    pub open spec fn developed<H, X, A, P, S, D>(
        &self,
        world: &HittableList<H>,
        aim: A,
        probe: P,
        scatter: S,
        develop: D,
        column: i32,
        row: i32,
        state: X,
        color: Color,
        after: X,
        paths: Vec<Path>,
        states: Seq<X>,
    ) -> bool where
        A: Fn(i32, i32, X) -> (Ray, X),
        P: Fn(&H, &Ray, Interval) -> Option<HitRecord>,
        S: Fn(&Ray, &HitRecord, X) -> (Option<Scatter>, X),
        D: Fn(&Vec<Path>) -> Color,
     {
        &&& paths@.len() == self.settings().samples_per_pixel
        &&& states.len() == paths@.len() + 1
        &&& states[0] == state
        &&& states.last() == after
        &&& forall|s: int|
            0 <= s < paths@.len() ==> self.samples(
                world,
                aim,
                probe,
                scatter,
                column,
                row,
                states[s],
                #[trigger] paths@[s],
                states[s + 1],
            )
        &&& call_ensures(develop, (&paths,), color)
    }

    /// Whether `color` can be the colour of the pixel at `column` and `row`,
    /// taking the source of chance from `state` to `after`.
    pub open spec fn exposes<H, X, A, P, S, D>(
        &self,
        world: &HittableList<H>,
        aim: A,
        probe: P,
        scatter: S,
        develop: D,
        column: i32,
        row: i32,
        state: X,
        color: Color,
        after: X,
    ) -> bool where
        A: Fn(i32, i32, X) -> (Ray, X),
        P: Fn(&H, &Ray, Interval) -> Option<HitRecord>,
        S: Fn(&Ray, &HitRecord, X) -> (Option<Scatter>, X),
        D: Fn(&Vec<Path>) -> Color,
     {
        exists|paths: Vec<Path>, states: Seq<X>| #[trigger]
            self.developed(
                world,
                aim,
                probe,
                scatter,
                develop,
                column,
                row,
                state,
                color,
                after,
                paths,
                states,
            )
    }

    /// Whether `colors` are the colours of the pixels of this camera's
    /// image, taken row by row from the top and from left to right within a
    /// row, and `states` what the source of chance is before each pixel and
    /// after the last: the colour at place `k` is that of column `k % width`
    /// in row `k / width`.
    pub open spec fn pictured<H, X, A, P, S, D>(
        &self,
        world: &HittableList<H>,
        aim: A,
        probe: P,
        scatter: S,
        develop: D,
        state: X,
        colors: Seq<Color>,
        after: X,
        states: Seq<X>,
    ) -> bool where
        A: Fn(i32, i32, X) -> (Ray, X),
        P: Fn(&H, &Ray, Interval) -> Option<HitRecord>,
        S: Fn(&Ray, &HitRecord, X) -> (Option<Scatter>, X),
        D: Fn(&Vec<Path>) -> Color,
     {
        let width = self.settings().image_width as int;
        &&& colors.len() == width * self.image_height()
        &&& states.len() == colors.len() + 1
        &&& states[0] == state
        &&& states.last() == after
        &&& forall|k: int|
            0 <= k < colors.len() ==> self.exposes(
                world,
                aim,
                probe,
                scatter,
                develop,
                (k % width) as i32,
                (k / width) as i32,
                states[k],
                #[trigger] colors[k],
                states[k + 1],
            )
    }

    /// Whether `colors` can be the colours of the pixels of this camera's
    /// image, taking the source of chance from `state` to `after`.
    pub open spec fn pictures<H, X, A, P, S, D>(
        &self,
        world: &HittableList<H>,
        aim: A,
        probe: P,
        scatter: S,
        develop: D,
        state: X,
        colors: Seq<Color>,
        after: X,
    ) -> bool where
        A: Fn(i32, i32, X) -> (Ray, X),
        P: Fn(&H, &Ray, Interval) -> Option<HitRecord>,
        S: Fn(&Ray, &HitRecord, X) -> (Option<Scatter>, X),
        D: Fn(&Vec<Path>) -> Color,
     {
        exists|states: Seq<X>| #[trigger]
            self.pictured(world, aim, probe, scatter, develop, state, colors, after, states)
    }

    /// The text of the image whose pixels have the given colours: the header
    /// for the camera's image size, then a line for each pixel.
    pub open spec fn text(&self, colors: Seq<Color>) -> Seq<u8> {
        header(self.settings().image_width as nat, self.image_height() as nat) + lines(colors)
    }

    /// Renders the scene as the text of a plain PPM file.
    ///
    /// The arithmetic is the caller's: `aim` gives a ray through the pixel at
    /// a column and a row, `probe` tells where a ray meets one surface,
    /// `scatter` what the material at a hit makes of the ray, and `develop`
    /// the colour, in linear light, that the paths of a pixel's samples add
    /// up to. `state` is the source of chance, a random generator or
    /// whatever else stands for one: it is handed to `aim` and `scatter`,
    /// which draw from it and hand it back, from one call on to the next,
    /// and comes back with the image.
    ///
    /// For every pixel, the rows from the top down and each row from left to
    /// right, as many rays as the camera takes samples are aimed and followed
    /// for at most as many bounces as the camera allows, and the colour
    /// developed from their paths is written at the levels that `quantize`
    /// gives. The text is the header for the camera's image size and then one
    /// line for each pixel.
    pub fn render<H, X, A, P, S, D>(
        &self,
        world: &HittableList<H>,
        state: X,
        aim: &A,
        probe: &P,
        scatter: &S,
        develop: &D,
    ) -> (made: (Vec<u8>, X)) where
        A: Fn(i32, i32, X) -> (Ray, X),
        P: Fn(&H, &Ray, Interval) -> Option<HitRecord>,
        S: Fn(&Ray, &HitRecord, X) -> (Option<Scatter>, X),
        D: Fn(&Vec<Path>) -> Color,

        requires
            forall|column: i32, row: i32, state: X|
                0 <= column < self.settings().image_width && 0 <= row < self.image_height()
                    ==> call_requires(*aim, (column, row, state)),
            world.probed_by(*probe),
            forall|ray: Ray, record: HitRecord, state: X|
                call_requires(*scatter, (&ray, &record, state)),
            forall|paths: Vec<Path>|
                paths@.len() == self.settings().samples_per_pixel ==> call_requires(
                    *develop,
                    (&paths,),
                ),
        ensures
            exists|colors: Seq<Color>| #[trigger]
                self.pictures(world, *aim, *probe, *scatter, *develop, state, colors, made.1)
                    && made.0@ == self.text(colors),
            line_feeds(made.0@) == 3 + self.settings().image_width * self.image_height(),
    {
        let width: i32 = self.settings().image_width;
        let height: i32 = self.image_height();
        let mut image: Vec<u8> = Vec::new();
        push_header(&mut image, width as u32, height as u32);
        let mut chance: X = state;
        let ghost top = image@;
        let ghost mut colors: Seq<Color> = Seq::empty();
        let ghost mut states: Seq<X> = seq![state];
        let mut row: i32 = 0;
        while row < height
            invariant
                0 <= row <= height,
                0 < width == self.settings().image_width,
                height == self.image_height(),
                forall|column: i32, row: i32, state: X|
                    0 <= column < width && 0 <= row < height ==> call_requires(
                        *aim,
                        (column, row, state),
                    ),
                world.probed_by(*probe),
                forall|ray: Ray, record: HitRecord, state: X|
                    call_requires(*scatter, (&ray, &record, state)),
                forall|paths: Vec<Path>|
                    paths@.len() == self.settings().samples_per_pixel ==> call_requires(
                        *develop,
                        (&paths,),
                    ),
                colors.len() == row * width,
                states.len() == colors.len() + 1,
                states[0] == state,
                states.last() == chance,
                forall|k: int|
                    0 <= k < colors.len() ==> self.exposes(
                        world,
                        *aim,
                        *probe,
                        *scatter,
                        *develop,
                        (k % (width as int)) as i32,
                        (k / (width as int)) as i32,
                        states[k],
                        #[trigger] colors[k],
                        states[k + 1],
                    ),
                image@ == top + lines(colors),
            decreases height - row,
        {
            let mut column: i32 = 0;
            while column < width
                invariant
                    0 <= row < height,
                    0 <= column <= width,
                    width == self.settings().image_width,
                    height == self.image_height(),
                    forall|column: i32, row: i32, state: X|
                        0 <= column < width && 0 <= row < height ==> call_requires(
                            *aim,
                            (column, row, state),
                        ),
                    world.probed_by(*probe),
                    forall|ray: Ray, record: HitRecord, state: X|
                        call_requires(*scatter, (&ray, &record, state)),
                    forall|paths: Vec<Path>|
                        paths@.len() == self.settings().samples_per_pixel ==> call_requires(
                            *develop,
                            (&paths,),
                        ),
                    colors.len() == row * width + column,
                    states.len() == colors.len() + 1,
                    states[0] == state,
                    states.last() == chance,
                    forall|k: int|
                        0 <= k < colors.len() ==> self.exposes(
                            world,
                            *aim,
                            *probe,
                            *scatter,
                            *develop,
                            (k % (width as int)) as i32,
                            (k / (width as int)) as i32,
                            states[k],
                            #[trigger] colors[k],
                            states[k + 1],
                        ),
                    image@ == top + lines(colors),
                decreases width - column,
            {
                let ghost before = chance;
                let (color, next_chance) = self.expose(
                    world,
                    chance,
                    aim,
                    probe,
                    scatter,
                    develop,
                    column,
                    row,
                );
                chance = next_chance;
                write_color(&color, &mut image);
                proof {
                    let k = colors.len() as int;
                    lemma_fundamental_div_mod_converse(k, width as int, row as int, column as int);
                    let old_colors = colors;
                    let old_states = states;
                    colors = colors.push(color);
                    states = states.push(chance);
                    assert(colors.drop_last() == old_colors);
                    assert forall|j: int| 0 <= j < colors.len() implies self.exposes(
                        world,
                        *aim,
                        *probe,
                        *scatter,
                        *develop,
                        (j % (width as int)) as i32,
                        (j / (width as int)) as i32,
                        states[j],
                        #[trigger] colors[j],
                        states[j + 1],
                    ) by {
                        if j < k {
                            assert(colors[j] == old_colors[j]);
                            assert(states[j] == old_states[j]);
                            assert(states[j + 1] == old_states[j + 1]);
                        } else {
                            assert(states[j] == before);
                        }
                    }
                }
                column = column + 1;
            }
            assert(row * width + width == (row + 1) * width) by (nonlinear_arith);
            row = row + 1;
        }
        let made = (image, chance);
        proof {
            assert(row * width == width * height) by (nonlinear_arith)
                requires
                    row == height,
            ;
            assert(self.pictured(
                world,
                *aim,
                *probe,
                *scatter,
                *develop,
                state,
                colors,
                made.1,
                states,
            ));
            assert(self.pictures(world, *aim, *probe, *scatter, *develop, state, colors, made.1));
            assert(made.0@ == self.text(colors));
            lemma_header_is_three_lines(width as nat, height as nat);
            lemma_one_line_per_pixel(colors);
            lemma_line_feeds_add(top, lines(colors));
        }
        made
    }

    /// The colour of one pixel: what `develop` makes of the paths of as many
    /// rays through the pixel as the camera takes samples, aimed and followed
    /// one after the other.
    pub fn expose<H, X, A, P, S, D>(
        &self,
        world: &HittableList<H>,
        state: X,
        aim: &A,
        probe: &P,
        scatter: &S,
        develop: &D,
        column: i32,
        row: i32,
    ) -> (made: (Color, X)) where
        A: Fn(i32, i32, X) -> (Ray, X),
        P: Fn(&H, &Ray, Interval) -> Option<HitRecord>,
        S: Fn(&Ray, &HitRecord, X) -> (Option<Scatter>, X),
        D: Fn(&Vec<Path>) -> Color,

        requires
            forall|state: X| call_requires(*aim, (column, row, state)),
            world.probed_by(*probe),
            forall|ray: Ray, record: HitRecord, state: X|
                call_requires(*scatter, (&ray, &record, state)),
            forall|paths: Vec<Path>|
                paths@.len() == self.settings().samples_per_pixel ==> call_requires(
                    *develop,
                    (&paths,),
                ),
        ensures
            self.exposes(
                world,
                *aim,
                *probe,
                *scatter,
                *develop,
                column,
                row,
                state,
                made.0,
                made.1,
            ),
    {
        let samples: i32 = self.settings().samples_per_pixel;
        let max_depth: i32 = self.settings().max_depth;
        let mut paths: Vec<Path> = Vec::new();
        let mut chance: X = state;
        let ghost mut states: Seq<X> = seq![state];
        let mut sample: i32 = 0;
        while sample < samples
            invariant
                0 <= sample <= samples == self.settings().samples_per_pixel,
                max_depth == self.settings().max_depth,
                forall|state: X| call_requires(*aim, (column, row, state)),
                world.probed_by(*probe),
                forall|ray: Ray, record: HitRecord, state: X|
                    call_requires(*scatter, (&ray, &record, state)),
                paths@.len() == sample,
                states.len() == paths@.len() + 1,
                states[0] == state,
                states.last() == chance,
                forall|s: int|
                    0 <= s < paths@.len() ==> self.samples(
                        world,
                        *aim,
                        *probe,
                        *scatter,
                        column,
                        row,
                        states[s],
                        #[trigger] paths@[s],
                        states[s + 1],
                    ),
            decreases samples - sample,
        {
            let ghost before = chance;
            let (ray, aimed) = aim(column, row, chance);
            let ghost at_aim = aimed;
            let (path, next_chance) = Self::ray_color(&ray, world, max_depth, aimed, probe, scatter);
            chance = next_chance;
            proof {
                assert(self.sampled(
                    world,
                    *aim,
                    *probe,
                    *scatter,
                    column,
                    row,
                    before,
                    path,
                    chance,
                    ray,
                    at_aim,
                ));
                let old_paths = paths@;
                let old_states = states;
                states = states.push(chance);
                assert forall|s: int| 0 <= s < old_paths.len() + 1 implies self.samples(
                    world,
                    *aim,
                    *probe,
                    *scatter,
                    column,
                    row,
                    states[s],
                    #[trigger] old_paths.push(path)[s],
                    states[s + 1],
                ) by {
                    if s < old_paths.len() {
                        assert(states[s] == old_states[s]);
                        assert(states[s + 1] == old_states[s + 1]);
                    }
                }
            }
            paths.push(path);
            sample = sample + 1;
        }
        let color: Color = develop(&paths);
        let made = (color, chance);
        proof {
            assert(self.developed(
                world,
                *aim,
                *probe,
                *scatter,
                *develop,
                column,
                row,
                state,
                made.0,
                made.1,
                paths,
                states,
            ));
        }
        made
    }
}

/// In an empty scene every sample of a pixel is lit by the sky alone: its
/// path is that of a ray aimed through the pixel, escaped at once.
pub proof fn lemma_empty_scene_shows_the_sky<H, X, A, P, S>(
    camera: Camera,
    world: &HittableList<H>,
    aim: A,
    probe: P,
    scatter: S,
    column: i32,
    row: i32,
    state: X,
    path: Path,
    after: X,
) where
    A: Fn(i32, i32, X) -> (Ray, X),
    P: Fn(&H, &Ray, Interval) -> Option<HitRecord>,
    S: Fn(&Ray, &HitRecord, X) -> (Option<Scatter>, X),

    requires
        world@.len() == 0,
        camera.settings().max_depth > 0,
        camera.samples(world, aim, probe, scatter, column, row, state, path, after),
    ensures
        path.attenuations@.len() == 0,
        exists|ray: Ray| #[trigger]
            call_ensures(aim, (column, row, state), (ray, after)) && path.end == PathEnd::Escaped(
                ray,
            ),
{
    let depth = camera.settings().max_depth as int;
    let (ray, aimed) = choose|ray: Ray, aimed: X| #[trigger]
        camera.sampled(world, aim, probe, scatter, column, row, state, path, after, ray, aimed);
    lemma_short_paths(
        world,
        probe,
        scatter,
        ray,
        aimed,
        depth,
        path.attenuations@,
        path.end,
        after,
    );
    assert(call_ensures(aim, (column, row, state), (ray, after)));
}

} // verus!
