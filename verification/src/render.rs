//! The sample loop: one colour per pixel, summed over the samples taken for
//! it.  A pixel depends on nothing but the scene, the camera and its own
//! draws, so pixels and rows can be rendered in any order, or side by side.
use crate::camera::Camera;
use crate::config::RenderSettings;
use crate::fixed::Fixed;
use crate::fixed::ONE_RAW;
use crate::hittable::HittableList;
use crate::material::ScatterSample;
use crate::random::is_fraction;
use crate::random::random_fraction;
use crate::utils::all_drawable;
use crate::utils::inside_unit_sphere;
use crate::utils::lemma_ray_color_bounded;
use crate::utils::ray_color;
use crate::utils::ray_color_spec;
use crate::vec3::Color;
use crate::vec3::Vec3;
use vstd::prelude::*;

verus! {

/// The position on an axis of the image at which a sample is taken, as a
/// share of the axis: pixel `index` of `extent`, and `jitter` of a pixel
/// further.
pub open spec fn position_spec(index: int, jitter: Fixed, extent: int) -> Fixed {
    Fixed::whole(index).plus(jitter).over(Fixed::whole(extent))
}

/// The colour of the sample of the pixel in column `i` and row `j`, counted
/// from the bottom, that is taken at `across` and `up` of a pixel from the
/// pixel's corner, through the point `lens` of the lens, with `bounces` as
/// the draws of the bounces.
pub open spec fn sample_spec(
    cam: Camera,
    world: &HittableList,
    i: int,
    j: int,
    settings: RenderSettings,
    across: Fixed,
    up: Fixed,
    lens: Vec3,
    bounces: Seq<ScatterSample>,
) -> Color {
    ray_color_spec(
        cam.ray_spec(
            position_spec(i, across, settings.image_width as int),
            position_spec(j, up, settings.image_height as int),
            lens,
        ),
        world,
        settings.max_depth as int,
        bounces,
    )
}

/// `color` is the colour of a sample of the pixel in column `i` and row
/// `j`, for some draws.
pub open spec fn is_sample(
    cam: Camera,
    world: &HittableList,
    i: int,
    j: int,
    settings: RenderSettings,
    color: Color,
) -> bool {
    exists|across: Fixed, up: Fixed, lens: Vec3, bounces: Seq<ScatterSample>|
        is_fraction(across) && is_fraction(up) && inside_unit_sphere(lens) && lens.z@ == 0
            && all_drawable(bounces) && color == #[trigger] sample_spec(
            cam,
            world,
            i,
            j,
            settings,
            across,
            up,
            lens,
            bounces,
        )
}

/// The sum of `colors`, the first one first.
pub open spec fn sum_spec(colors: Seq<Color>) -> Color
    decreases colors.len(),
{
    if colors.len() == 0 {
        Vec3::zeroes_spec()
    } else {
        sum_spec(colors.drop_last()).plus(colors.last())
    }
}

/// The number of samples that are taken for a pixel.
pub open spec fn samples_taken(settings: RenderSettings) -> int {
    if settings.samples_per_pixel > 0 {
        settings.samples_per_pixel as int
    } else {
        0
    }
}

/// `color` is the sum of as many samples of the pixel in column `i` and
/// row `j` as the settings ask for.
pub open spec fn is_pixel(
    cam: Camera,
    world: &HittableList,
    i: int,
    j: int,
    settings: RenderSettings,
    color: Color,
) -> bool {
    exists|colors: Seq<Color>|
        colors.len() == samples_taken(settings) && (forall|k: int|
            0 <= k < colors.len() ==> is_sample(cam, world, i, j, settings, #[trigger] colors[k]))
            && color == #[trigger] sum_spec(colors)
}

/// No part of `color` is negative or exceeds `samples`: the most that the
/// sum of so many colours of the unit cube can be.
pub open spec fn sum_of_samples(color: Color, samples: int) -> bool {
    0 <= color.x@ <= samples * ONE_RAW && 0 <= color.y@ <= samples * ONE_RAW && 0 <= color.z@
        <= samples * ONE_RAW
}

/// The number of pixels of the row `row`, counted from the top: the width
/// of the image, and none where the image has no such row.
pub open spec fn row_length(row: int, settings: RenderSettings) -> int {
    if 0 <= row < settings.image_height && settings.image_width > 0 {
        settings.image_width as int
    } else {
        0
    }
}

/// `line` holds the pixels of the row `row`, counted from the top, from left
/// to right.
pub open spec fn is_row(
    cam: Camera,
    world: &HittableList,
    row: int,
    settings: RenderSettings,
    line: Seq<Color>,
) -> bool {
    line.len() == row_length(row, settings) && forall|i: int|
        0 <= i < line.len() ==> is_pixel(
            cam,
            world,
            i,
            settings.image_height - 1 - row,
            settings,
            #[trigger] line[i],
        )
}

/// Where no material of the scene gives a colour back stronger than it
/// came in, no part of a sample is negative or exceeds one.
pub proof fn lemma_sample_bounded(
    cam: Camera,
    world: &HittableList,
    i: int,
    j: int,
    settings: RenderSettings,
    color: Color,
)
    requires
        world.conserves_energy(),
        is_sample(cam, world, i, j, settings, color),
    ensures
        color.in_unit_cube(),
{
    let (across, up, lens, bounces) = choose|
        across: Fixed,
        up: Fixed,
        lens: Vec3,
        bounces: Seq<ScatterSample>,
    |
        is_fraction(across) && is_fraction(up) && inside_unit_sphere(lens) && lens.z@ == 0
            && all_drawable(bounces) && color == #[trigger] sample_spec(
            cam,
            world,
            i,
            j,
            settings,
            across,
            up,
            lens,
            bounces,
        );
    lemma_ray_color_bounded(
        cam.ray_spec(
            position_spec(i, across, settings.image_width as int),
            position_spec(j, up, settings.image_height as int),
            lens,
        ),
        world,
        settings.max_depth as int,
        bounces,
    );
}

/// Where no material of the scene gives a colour back stronger than it
/// came in, no part of the sum of samples of a pixel is negative or exceeds
/// their number.
pub proof fn lemma_sum_bounded(
    cam: Camera,
    world: &HittableList,
    i: int,
    j: int,
    settings: RenderSettings,
    colors: Seq<Color>,
)
    requires
        world.conserves_energy(),
        colors.len() <= 0x7fff_ffff,
        forall|k: int|
            0 <= k < colors.len() ==> is_sample(cam, world, i, j, settings, #[trigger] colors[k]),
    ensures
        sum_of_samples(sum_spec(colors), colors.len() as int),
    decreases colors.len(),
{
    if colors.len() > 0 {
        let rest = colors.drop_last();
        assert forall|k: int| 0 <= k < rest.len() implies is_sample(
            cam,
            world,
            i,
            j,
            settings,
            #[trigger] rest[k],
        ) by {
            assert(rest[k] == colors[k]);
        }
        lemma_sum_bounded(cam, world, i, j, settings, rest);
        lemma_sample_bounded(cam, world, i, j, settings, colors.last());
        assert(colors.len() * ONE_RAW == rest.len() * ONE_RAW + ONE_RAW) by (nonlinear_arith)
            requires
                colors.len() == rest.len() + 1,
        ;
        assert(colors.len() * ONE_RAW <= 0x7fff_ffff * ONE_RAW) by (nonlinear_arith)
            requires
                colors.len() <= 0x7fff_ffff,
        ;
    } else {
        assert(0 * ONE_RAW == 0);
    }
}

/// The position on an axis of the image at which a sample is taken:
/// `(index + jitter) / extent`.
pub fn position(index: i32, jitter: Fixed, extent: i32) -> (s: Fixed)
    ensures
        s == position_spec(index as int, jitter, extent as int),
{
    Fixed::from_int(index).add(jitter).div(Fixed::from_int(extent))
}

/// The colour of one sample of the pixel in column `i`, counted from the
/// left, and row `j`, counted from the bottom: the colour that a ray
/// through a random point of the pixel brings back.
pub fn sample_pixel(
    cam: &Camera,
    world: &HittableList,
    i: i32,
    j: i32,
    settings: &RenderSettings,
) -> (color: Color)
    ensures
        is_sample(*cam, world, i as int, j as int, *settings, color),
        settings.max_depth <= 0 ==> color == Color::zeroes_spec(),
        world.conserves_energy() ==> color.in_unit_cube(),
{
    let across = random_fraction();
    let up = random_fraction();
    let s = position(i, across, settings.image_width);
    let t = position(j, up, settings.image_height);
    let mut r = cam.get_ray(s, t);
    let ghost lens = choose|lens: Vec3|
        inside_unit_sphere(lens) && lens.z@ == 0 && r == #[trigger] cam.ray_spec(s, t, lens);
    let color = ray_color(&mut r, world, settings.max_depth);
    proof {
        let bounces = choose|bounces: Seq<ScatterSample>|
            all_drawable(bounces) && color == #[trigger] ray_color_spec(
                r,
                world,
                settings.max_depth as int,
                bounces,
            );
        assert(color == sample_spec(
            *cam,
            world,
            i as int,
            j as int,
            *settings,
            across,
            up,
            lens,
            bounces,
        ));
    }
    color
}

/// The colour of the pixel in column `i`, counted from the left, and row
/// `j`, counted from the bottom: the sum of `samples_per_pixel` samples.
/// Dividing by the number of samples is left to whoever shows the image.
pub fn render_pixel(
    cam: &Camera,
    world: &HittableList,
    i: i32,
    j: i32,
    settings: &RenderSettings,
) -> (pixel_color: Color)
    ensures
        is_pixel(*cam, world, i as int, j as int, *settings, pixel_color),
        settings.samples_per_pixel <= 0 || settings.max_depth <= 0 ==> pixel_color
            == Color::zeroes_spec(),
        world.conserves_energy() ==> sum_of_samples(pixel_color, samples_taken(*settings)),
{
    let mut pixel_color = Color::zeroes();
    let mut taken: i32 = 0;
    let ghost mut colors: Seq<Color> = Seq::empty();
    while taken < settings.samples_per_pixel
        invariant
            0 <= taken,
            taken <= settings.samples_per_pixel || taken == 0,
            colors.len() == taken,
            forall|k: int|
                0 <= k < colors.len() ==> is_sample(
                    *cam,
                    world,
                    i as int,
                    j as int,
                    *settings,
                    #[trigger] colors[k],
                ),
            pixel_color == sum_spec(colors),
            settings.max_depth <= 0 ==> pixel_color == Color::zeroes_spec(),
        decreases settings.samples_per_pixel - taken,
    {
        let color = sample_pixel(cam, world, i, j, settings);
        proof {
            let longer = colors.push(color);
            assert(longer.drop_last() =~= colors);
            assert(longer.last() == color);
            colors = longer;
        }
        pixel_color.add_assign(&color);
        taken += 1;
    }
    proof {
        if world.conserves_energy() {
            lemma_sum_bounded(*cam, world, i as int, j as int, *settings, colors);
        }
    }
    pixel_color
}

/// The pixels of the row `row`, counted from the top, from left to right;
/// none where the image has no such row.
pub fn render_row(cam: &Camera, world: &HittableList, row: i32, settings: &RenderSettings) -> (line:
    Vec<Color>)
    ensures
        is_row(*cam, world, row as int, *settings, line@),
        world.conserves_energy() ==> forall|i: int|
            0 <= i < line@.len() ==> sum_of_samples(#[trigger] line@[i], samples_taken(*settings)),
{
    let mut line: Vec<Color> = Vec::new();
    if row < 0 || row >= settings.image_height {
        return line;
    }
    let j: i32 = settings.image_height - 1 - row;
    let mut i: i32 = 0;
    while i < settings.image_width
        invariant
            0 <= i,
            i <= settings.image_width || i == 0,
            0 <= row < settings.image_height,
            j == settings.image_height - 1 - row,
            line@.len() == i,
            forall|k: int|
                0 <= k < line@.len() ==> is_pixel(
                    *cam,
                    world,
                    k,
                    j as int,
                    *settings,
                    #[trigger] line@[k],
                ),
            world.conserves_energy() ==> forall|k: int|
                0 <= k < line@.len() ==> sum_of_samples(
                    #[trigger] line@[k],
                    samples_taken(*settings),
                ),
        decreases settings.image_width - i,
    {
        let pixel = render_pixel(cam, world, i, j, settings);
        line.push(pixel);
        i += 1;
    }
    line
}

/// The image: `image_height` rows from the top down, each of `image_width`
/// pixels from left to right, each pixel the sum of its samples.
pub fn render(cam: &Camera, world: &HittableList, settings: &RenderSettings) -> (image: Vec<
    Vec<Color>,
>)
    ensures
        image@.len() == if settings.image_height > 0 {
            settings.image_height as int
        } else {
            0
        },
        forall|row: int|
            0 <= row < image@.len() ==> is_row(
                *cam,
                world,
                row,
                *settings,
                (#[trigger] image@[row])@,
            ),
        world.conserves_energy() ==> forall|row: int, i: int|
            0 <= row < image@.len() && 0 <= i < image@[row]@.len() ==> sum_of_samples(
                #[trigger] image@[row]@[i],
                samples_taken(*settings),
            ),
{
    let mut image: Vec<Vec<Color>> = Vec::new();
    let mut row: i32 = 0;
    while row < settings.image_height
        invariant
            0 <= row,
            row <= settings.image_height || row == 0,
            image@.len() == row,
            forall|k: int|
                0 <= k < image@.len() ==> is_row(
                    *cam,
                    world,
                    k,
                    *settings,
                    (#[trigger] image@[k])@,
                ),
            world.conserves_energy() ==> forall|k: int, i: int|
                0 <= k < image@.len() && 0 <= i < image@[k]@.len() ==> sum_of_samples(
                    #[trigger] image@[k]@[i],
                    samples_taken(*settings),
                ),
        decreases settings.image_height - row,
    {
        let line = render_row(cam, world, row, settings);
        image.push(line);
        row += 1;
    }
    image
}

} // verus!
