//! The render loop: many jittered samples for every pixel, row by row.
//!
//! Each row draws its numbers from a generator of its own, seeded from the
//! image's seed and the row's index. The rows are therefore independent of
//! each other and may be rendered in any order, or side by side.

use vstd::prelude::*;
use crate::camera::Camera;
use crate::error::TraceError;
use crate::fixed::{
    fx_add, fx_div, lemma_div_sign, lemma_div_unit, sat, saturate, spec_add, spec_div, ONE,
};
use crate::integrator::{lemma_radiance_is_unit, ray_color, spec_ray_color};
use crate::rng::{next_state, unit_of, Rng};
use crate::shape::Shape;
use crate::vec3::{Color, Vec3};

verus! {

/// The largest number of pixels an image may have.
pub const MAX_PIXELS: usize = 0x7fff_ffff;

/// What to render: the image's size, the samples for each pixel, the bounce
/// budget of each sample, and the seed of the pseudo-random numbers.
#[derive(Clone, Copy, Debug, PartialEq, Eq, Structural)]
pub struct Settings {
    pub width: usize,
    pub height: usize,
    pub samples_per_pixel: u32,
    pub max_depth: i64,
    pub seed: u64,
}

/// The scalar that stands for the count `i`.
pub open spec fn scalar_of(i: int) -> i64 {
    sat(i * ONE)
}

/// The seed of the generator of the row `y`.
pub open spec fn row_seed(seed: u64, y: int) -> u64 {
    ((seed + y * 0x9E37_79B9_7F4A_7C15) % 0x1_0000_0000_0000_0000) as u64
}

impl Settings {
    /// Settings are valid where the image has pixels, not more than
    /// `MAX_PIXELS`, each pixel has a sample, and the bounce budget is not
    /// negative.
    pub open spec fn valid(self) -> bool {
        &&& 0 < self.width
        &&& 0 < self.height
        &&& self.width * self.height <= MAX_PIXELS
        &&& 0 < self.samples_per_pixel
        &&& 0 <= self.max_depth
    }

    /// Whether the settings are valid.
    pub fn is_valid(&self) -> (r: bool)
        ensures
            r == self.valid(),
    {
        if self.width == 0 || self.height == 0 || self.samples_per_pixel == 0 || self.max_depth
            < 0 {
            return false;
        }
        if self.width > MAX_PIXELS || self.height > MAX_PIXELS {
            assert(self.width * self.height > MAX_PIXELS) by (nonlinear_arith)
                requires
                    self.width > 0,
                    self.height > 0,
                    self.width > MAX_PIXELS || self.height > MAX_PIXELS,
            ;
            return false;
        }
        assert(self.width * self.height <= 0x7fff_ffff * 0x7fff_ffff) by (nonlinear_arith)
            requires
                self.width <= 0x7fff_ffff,
                self.height <= 0x7fff_ffff,
        ;
        (self.width as u64) * (self.height as u64) <= MAX_PIXELS as u64
    }
}

/// The radiance of one sample of the pixel `(x, y)`, and the generator's
/// state after it. The sample's place within the pixel is jittered by two
/// numbers in `[0, 1)`; the image coordinates are `(x + jitter) / width` and
/// `(y + jitter) / height`.
pub open spec fn spec_sample(
    scene: Shape,
    camera: Camera,
    settings: Settings,
    x: int,
    y: int,
    state: u64,
) -> (Vec3, u64) {
    let s1 = next_state(state);
    let s2 = next_state(s1);
    let u = spec_div(spec_add(scalar_of(x), unit_of(s1)), scalar_of(settings.width as int));
    let v = spec_div(spec_add(scalar_of(y), unit_of(s2)), scalar_of(settings.height as int));
    let (ray, s3) = camera.spec_get_ray(u, v, s2);
    spec_ray_color(ray, scene, settings.max_depth, s3)
}

/// The sum of the first `n` samples of the pixel `(x, y)`, and the
/// generator's state after them.
pub open spec fn spec_sample_sum(
    scene: Shape,
    camera: Camera,
    settings: Settings,
    x: int,
    y: int,
    n: nat,
    state: u64,
) -> (Vec3, u64)
    decreases n,
{
    if n == 0 {
        (Vec3::spec_zero(), state)
    } else {
        let (sum, s) = spec_sample_sum(scene, camera, settings, x, y, (n - 1) as nat, state);
        let (c, next) = spec_sample(scene, camera, settings, x, y, s);
        (sum.spec_add(c), next)
    }
}

/// The colour of the pixel `(x, y)`: the mean of its samples.
pub open spec fn spec_pixel(
    scene: Shape,
    camera: Camera,
    settings: Settings,
    x: int,
    y: int,
    state: u64,
) -> (Vec3, u64) {
    let (sum, s) = spec_sample_sum(
        scene,
        camera,
        settings,
        x,
        y,
        settings.samples_per_pixel as nat,
        state,
    );
    (sum.spec_div(scalar_of(settings.samples_per_pixel as int)), s)
}

/// The first `n` pixels of the row `y`, from the left, and the generator's
/// state after them.
pub open spec fn spec_row_prefix(
    scene: Shape,
    camera: Camera,
    settings: Settings,
    y: int,
    n: nat,
    state: u64,
) -> (Seq<Vec3>, u64)
    decreases n,
{
    if n == 0 {
        (Seq::empty(), state)
    } else {
        let (row, s) = spec_row_prefix(scene, camera, settings, y, (n - 1) as nat, state);
        let (c, next) = spec_pixel(scene, camera, settings, n - 1, y, s);
        (row.push(c), next)
    }
}

/// The row `y` of the image.
pub open spec fn spec_row(scene: Shape, camera: Camera, settings: Settings, y: int) -> Seq<Vec3> {
    spec_row_prefix(
        scene,
        camera,
        settings,
        y,
        settings.width as nat,
        row_seed(settings.seed, y),
    ).0
}

/// The first `n` rows of the image, one after the other.
pub open spec fn spec_rows(scene: Shape, camera: Camera, settings: Settings, n: nat) -> Seq<Vec3>
    decreases n,
{
    if n == 0 {
        Seq::empty()
    } else {
        spec_rows(scene, camera, settings, (n - 1) as nat) + spec_row(
            scene,
            camera,
            settings,
            n - 1,
        )
    }
}

/// The whole image, row by row from the top.
pub open spec fn spec_image(scene: Shape, camera: Camera, settings: Settings) -> Seq<Vec3> {
    spec_rows(scene, camera, settings, settings.height as nat)
}

/// The scalar that stands for the count `i`.
pub fn scalar_of_count(i: usize) -> (r: i64)
    ensures
        r == scalar_of(i as int),
{
    assert(0 <= i * ONE <= 0xffff_ffff_ffff_ffff * 1_000_000) by (nonlinear_arith)
        requires
            0 <= i <= 0xffff_ffff_ffff_ffff,
            ONE == 1_000_000,
    ;
    saturate((i as i128) * (ONE as i128))
}

/// The generator of the row `y`.
pub fn row_rng(seed: u64, y: usize) -> (r: Rng)
    ensures
        r.state == row_seed(seed, y as int),
{
    assert(0 <= y * 0x9E37_79B9_7F4A_7C15 <= 0xffff_ffff_ffff_ffff * 0x9E37_79B9_7F4A_7C15)
        by (nonlinear_arith)
        requires
            0 <= y <= 0xffff_ffff_ffff_ffff,
    ;
    let wide: u128 = (seed as u128) + (y as u128) * 0x9E37_79B9_7F4A_7C15u128;
    Rng::new((wide % 0x1_0000_0000_0000_0000u128) as u64)
}

/// One sample of the pixel `(x, y)`.
pub fn sample(
    scene: &Shape,
    camera: &Camera,
    settings: &Settings,
    x: usize,
    y: usize,
    rng: &mut Rng,
) -> (c: Color)
    ensures
        (c, final(rng).state) == spec_sample(
            *scene,
            *camera,
            *settings,
            x as int,
            y as int,
            old(rng).state,
        ),
{
    let jitter_x: i64 = rng.next_unit();
    let jitter_y: i64 = rng.next_unit();
    let u: i64 = fx_div(fx_add(scalar_of_count(x), jitter_x), scalar_of_count(settings.width));
    let v: i64 = fx_div(fx_add(scalar_of_count(y), jitter_y), scalar_of_count(settings.height));
    let ray = camera.get_ray(u, v, rng);
    ray_color(&ray, scene, settings.max_depth, rng)
}

/// The colour of the pixel `(x, y)`: the mean of its samples.
pub fn render_pixel(
    scene: &Shape,
    camera: &Camera,
    settings: &Settings,
    x: usize,
    y: usize,
    rng: &mut Rng,
) -> (c: Color)
    ensures
        (c, final(rng).state) == spec_pixel(
            *scene,
            *camera,
            *settings,
            x as int,
            y as int,
            old(rng).state,
        ),
{
    let mut sum = Vec3::zero();
    let mut k: u32 = 0;
    while k < settings.samples_per_pixel
        invariant
            k <= settings.samples_per_pixel,
            (sum, rng.state) == spec_sample_sum(
                *scene,
                *camera,
                *settings,
                x as int,
                y as int,
                k as nat,
                old(rng).state,
            ),
        decreases settings.samples_per_pixel - k,
    {
        let c = sample(scene, camera, settings, x, y, rng);
        sum = sum.add(c);
        k = k + 1;
    }
    sum.div(scalar_of_count(settings.samples_per_pixel as usize))
}

/// The row `y` of the image, from the left.
pub fn render_row(scene: &Shape, camera: &Camera, settings: &Settings, y: usize) -> (row: Vec<
    Color,
>)
    ensures
        row@ == spec_row(*scene, *camera, *settings, y as int),
        row@.len() == settings.width,
{
    let mut rng = row_rng(settings.seed, y);
    let mut row: Vec<Color> = Vec::new();
    let mut x: usize = 0;
    while x < settings.width
        invariant
            x <= settings.width,
            row@.len() == x,
            (row@, rng.state) == spec_row_prefix(
                *scene,
                *camera,
                *settings,
                y as int,
                x as nat,
                row_seed(settings.seed, y as int),
            ),
        decreases settings.width - x,
    {
        let c = render_pixel(scene, camera, settings, x, y, &mut rng);
        row.push(c);
        x = x + 1;
    }
    row
}

/// A row is as long as the image is wide.
pub proof fn lemma_row_len(
    scene: Shape,
    camera: Camera,
    settings: Settings,
    y: int,
    n: nat,
    state: u64,
)
    ensures
        spec_row_prefix(scene, camera, settings, y, n, state).0.len() == n,
    decreases n,
{
    if n > 0 {
        lemma_row_len(scene, camera, settings, y, (n - 1) as nat, state);
    }
}

/// The image is laid out row by row: it has `width` colours for each row,
/// and the pixel `(x, y)` stands at the index `y * width + x`.
pub proof fn lemma_image_layout(
    scene: Shape,
    camera: Camera,
    settings: Settings,
    n: nat,
    x: int,
    y: int,
)
    requires
        0 <= x < settings.width,
        0 <= y < n,
    ensures
        spec_rows(scene, camera, settings, n).len() == n * settings.width,
        spec_rows(scene, camera, settings, n)[y * settings.width + x] == spec_row(
            scene,
            camera,
            settings,
            y,
        )[x],
    decreases n,
{
    let w = settings.width as int;
    lemma_rows_len(scene, camera, settings, n);
    lemma_rows_len(scene, camera, settings, (n - 1) as nat);
    lemma_row_len(scene, camera, settings, n - 1, settings.width as nat, row_seed(settings.seed, n - 1));
    assert(n * w == (n - 1) * w + w) by (nonlinear_arith);
    if y < n - 1 {
        lemma_image_layout(scene, camera, settings, (n - 1) as nat, x, y);
        assert(y * w + x < (n - 1) * w) by (nonlinear_arith)
            requires
                0 <= x < w,
                0 <= y < n - 1,
        ;
    } else {
        assert(y * w + x - (n - 1) * w == x) by (nonlinear_arith)
            requires
                y == n - 1,
        ;
    }
}

/// The first `n` rows hold `n * width` colours.
pub proof fn lemma_rows_len(scene: Shape, camera: Camera, settings: Settings, n: nat)
    ensures
        spec_rows(scene, camera, settings, n).len() == n * settings.width,
    decreases n,
{
    let w = settings.width as int;
    if n > 0 {
        lemma_rows_len(scene, camera, settings, (n - 1) as nat);
        lemma_row_len(
            scene,
            camera,
            settings,
            n - 1,
            settings.width as nat,
            row_seed(settings.seed, n - 1),
        );
        assert(n * w == (n - 1) * w + w) by (nonlinear_arith);
    } else {
        assert(0 * w == 0) by (nonlinear_arith);
    }
}

/// In a valid scene the sum of `n` samples lies within `[0, n]` in each
/// channel.
pub proof fn lemma_sample_sum_range(
    scene: Shape,
    camera: Camera,
    settings: Settings,
    x: int,
    y: int,
    n: nat,
    state: u64,
)
    requires
        scene.wf(),
        n <= u32::MAX,
    ensures
        ({
            let sum = spec_sample_sum(scene, camera, settings, x, y, n, state).0;
            0 <= sum.x <= n * ONE && 0 <= sum.y <= n * ONE && 0 <= sum.z <= n * ONE
        }),
    decreases n,
{
    if n > 0 {
        lemma_sample_sum_range(scene, camera, settings, x, y, (n - 1) as nat, state);
        let s = spec_sample_sum(scene, camera, settings, x, y, (n - 1) as nat, state).1;
        let s2 = next_state(next_state(s));
        let u = spec_div(
            spec_add(scalar_of(x), unit_of(next_state(s))),
            scalar_of(settings.width as int),
        );
        let v = spec_div(spec_add(scalar_of(y), unit_of(s2)), scalar_of(settings.height as int));
        let (ray, s3) = camera.spec_get_ray(u, v, s2);
        lemma_radiance_is_unit(ray, scene, settings.max_depth, s3);
        assert(n * ONE == (n - 1) * ONE + ONE) by (nonlinear_arith);
        assert(n * ONE <= 0xffff_ffff * 1_000_000) by (nonlinear_arith)
            requires
                n <= 0xffff_ffff,
                ONE == 1_000_000,
        ;
    } else {
        assert(0 * ONE == 0) by (nonlinear_arith);
    }
}

/// In a valid scene every pixel is a colour within `[0, 1]`.
pub proof fn lemma_pixel_is_unit(
    scene: Shape,
    camera: Camera,
    settings: Settings,
    x: int,
    y: int,
    state: u64,
)
    requires
        scene.wf(),
        settings.samples_per_pixel > 0,
    ensures
        spec_pixel(scene, camera, settings, x, y, state).0.spec_is_unit(),
{
    let n = settings.samples_per_pixel as nat;
    lemma_sample_sum_range(scene, camera, settings, x, y, n, state);
    let sum = spec_sample_sum(scene, camera, settings, x, y, n, state).0;
    let count = scalar_of(n as int);
    assert(0 < n * ONE <= 0xffff_ffff * 1_000_000) by (nonlinear_arith)
        requires
            0 < n <= 0xffff_ffff,
            ONE == 1_000_000,
    ;
    assert(count == n * ONE);
    lemma_div_unit(sum.x, count);
    lemma_div_unit(sum.y, count);
    lemma_div_unit(sum.z, count);
    lemma_div_sign(sum.x, count);
    lemma_div_sign(sum.y, count);
    lemma_div_sign(sum.z, count);
}

/// Whether every colour of `colors` lies within `[0, 1]`.
pub open spec fn all_unit(colors: Seq<Vec3>) -> bool {
    forall|i: int| 0 <= i < colors.len() ==> (#[trigger] colors[i]).spec_is_unit()
}

/// In a valid scene every pixel of a row is a colour within `[0, 1]`.
pub proof fn lemma_row_is_unit(
    scene: Shape,
    camera: Camera,
    settings: Settings,
    y: int,
    n: nat,
    state: u64,
)
    requires
        scene.wf(),
        settings.samples_per_pixel > 0,
    ensures
        all_unit(spec_row_prefix(scene, camera, settings, y, n, state).0),
    decreases n,
{
    if n > 0 {
        lemma_row_is_unit(scene, camera, settings, y, (n - 1) as nat, state);
        let (row, s) = spec_row_prefix(scene, camera, settings, y, (n - 1) as nat, state);
        lemma_pixel_is_unit(scene, camera, settings, n - 1, y, s);
        let c = spec_pixel(scene, camera, settings, n - 1, y, s).0;
        assert(spec_row_prefix(scene, camera, settings, y, n, state).0 == row.push(c));
        assert forall|i: int| 0 <= i < row.push(c).len() implies (#[trigger] row.push(
            c,
        )[i]).spec_is_unit() by {
            if i < row.len() {
                assert(row.push(c)[i] == row[i]);
            }
        }
    }
}

/// An image of a valid scene needs no clamping: every pixel is a colour
/// within `[0, 1]`.
pub proof fn lemma_image_is_unit(scene: Shape, camera: Camera, settings: Settings, n: nat)
    requires
        scene.wf(),
        settings.samples_per_pixel > 0,
    ensures
        all_unit(spec_rows(scene, camera, settings, n)),
    decreases n,
{
    if n > 0 {
        lemma_image_is_unit(scene, camera, settings, (n - 1) as nat);
        lemma_row_is_unit(
            scene,
            camera,
            settings,
            n - 1,
            settings.width as nat,
            row_seed(settings.seed, n - 1),
        );
        let above = spec_rows(scene, camera, settings, (n - 1) as nat);
        let row = spec_row(scene, camera, settings, n - 1);
        assert(spec_rows(scene, camera, settings, n) == above + row);
        assert(all_unit(row));
        assert forall|i: int| 0 <= i < (above + row).len() implies (#[trigger] (above
            + row)[i]).spec_is_unit() by {
            if i < above.len() {
                assert((above + row)[i] == above[i]);
            } else {
                assert((above + row)[i] == row[i - above.len()]);
            }
        }
    }
}

/// The rows of the image, one after the other from the top.
pub fn render_rows(scene: &Shape, camera: &Camera, settings: &Settings) -> (image: Vec<Color>)
    ensures
        image@ == spec_image(*scene, *camera, *settings),
{
    let mut image: Vec<Color> = Vec::new();
    let mut y: usize = 0;
    while y < settings.height
        invariant
            y <= settings.height,
            image@ == spec_rows(*scene, *camera, *settings, y as nat),
        decreases settings.height - y,
    {
        let mut row = render_row(scene, camera, settings, y);
        image.append(&mut row);
        y = y + 1;
    }
    image
}

/// Renders the image of `scene` seen through `camera`: `width * height`
/// colours, row by row from the top, each the mean of `samples_per_pixel`
/// samples that follow at most `max_depth` bounces. The colours are linear
/// and not clamped.
///
/// Fails exactly where the settings are not valid.
pub fn render(
    scene: &Shape,
    camera: &Camera,
    width: usize,
    height: usize,
    samples_per_pixel: u32,
    max_depth: i64,
    seed: u64,
) -> (r: Result<Vec<Color>, TraceError>)
    ensures
        ({
            let settings = Settings { width, height, samples_per_pixel, max_depth, seed };
            &&& !settings.valid() ==> r == Err::<Vec<Color>, TraceError>(
                TraceError::InvalidConfiguration,
            )
            &&& settings.valid() ==> r is Ok && r->Ok_0@ == spec_image(*scene, *camera, settings)
                && r->Ok_0@.len() == height * width
            &&& settings.valid() && scene.wf() ==> all_unit(r->Ok_0@)
        }),
{
    let settings = Settings { width, height, samples_per_pixel, max_depth, seed };
    if !settings.is_valid() {
        return Err(TraceError::InvalidConfiguration);
    }
    let image = render_rows(scene, camera, &settings);
    proof {
        lemma_rows_len(*scene, *camera, settings, height as nat);
        if scene.wf() {
            lemma_image_is_unit(*scene, *camera, settings, height as nat);
        }
    }
    Ok(image)
}

} // verus!
