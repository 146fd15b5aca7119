use vstd::prelude::*;

use crate::color::{color_byte, write_color, Color, Rgb};
use crate::fixed::{cl, fadd, fdiv, fmul, fsub, from_whole, fx_add, fx_div, fx_mul, fx_sub, tdiv,
    to_whole, FX_MAX, SCALE};
use crate::hittable::{hittable_mat, hittable_rec_ok, HitRecordi, Hittable};
use crate::hittable_list::{scan_hits, HittableList};
use crate::material::{attenuation_in_range, dielectric_scatter_ok, lambertian_scatter_ok,
    metal_scatter_ok, scatter_ok_any, Material, Scatter};
use crate::interval::Interval;
use crate::ray::{Ray, Rayi};
use crate::rng::RandomSource;
use crate::utils::{deg2rad, degrees_to_radiants, fx_tan, tan_s};
use crate::vec3::{add_v, color_in_range, cross, cross_v, div_v, len_sq_v, len_v, mul_v, neg_v,
    scale_v, sub_v, unit_sample, unit_v, unit_vector, v3, zero_v, Point3, Vec3, Vec3i};

verus! {

/// Half a whole unit.
pub const HALF: i64 = 524288;

/// The green channel of the sky color `(0.5, 0.7, 1.0)`.
pub const SKY_G: i64 = 734003;

/// The lower bound of the hit interval used by the integrator, excluding
/// self-intersections just off a surface.
pub const SHADOW_EPS: i64 = 1048;

/// The mathematical value of a camera: the derived viewport geometry and
/// the sampling configuration.
pub struct CameraV {
    pub image_width: int,
    pub image_height: int,
    pub center: Vec3i,
    pub pixel00_loc: Vec3i,
    pub pixel_delta_u: Vec3i,
    pub pixel_delta_v: Vec3i,
    pub samples_per_pixel: int,
    pub pixel_samples_scale: int,
    pub max_depth: int,
    pub defocus_disk_u: Vec3i,
    pub defocus_disk_v: Vec3i,
    pub defocus_angle: int,
}

/// The camera: immutable after construction; renders a scene to a pixel
/// stream.
#[derive(Clone, Copy)]
pub struct Camera {
    image_width: i64,
    image_height: i64,
    center: Point3,
    pixel00_loc: Point3,
    pixel_delta_u: Vec3,
    pixel_delta_v: Vec3,
    samples_per_pixel: i64,
    pixel_samples_scale: i64,
    max_depth: i64,
    defocus_disk_u: Vec3,
    defocus_disk_v: Vec3,
    defocus_angle: i64,
}

impl View for Camera {
    type V = CameraV;

    closed spec fn view(&self) -> CameraV {
        CameraV {
            image_width: self.image_width as int,
            image_height: self.image_height as int,
            center: self.center@,
            pixel00_loc: self.pixel00_loc@,
            pixel_delta_u: self.pixel_delta_u@,
            pixel_delta_v: self.pixel_delta_v@,
            samples_per_pixel: self.samples_per_pixel as int,
            pixel_samples_scale: self.pixel_samples_scale as int,
            max_depth: self.max_depth as int,
            defocus_disk_u: self.defocus_disk_u@,
            defocus_disk_v: self.defocus_disk_v@,
            defocus_angle: self.defocus_angle as int,
        }
    }
}

/// The rendered image height: the width over the aspect ratio, rounded to
/// nearest, floored at one row.
pub open spec fn image_height_s(image_width: int, aspect_ratio: int) -> int {
    let h = tdiv(fadd(fdiv(cl(image_width * SCALE), aspect_ratio), HALF as int), SCALE as int);
    if h < 1 {
        1
    } else {
        h
    }
}

pub fn calculate_image_height(image_width: i64, aspect_ratio: i64) -> (r: i64)
    requires
        aspect_ratio != 0,
    ensures
        r == image_height_s(image_width as int, aspect_ratio as int),
        r >= 1,
{
    let height = to_whole(fx_add(fx_div(from_whole(image_width), aspect_ratio), HALF));
    if height < 1 {
        1
    } else {
        height
    }
}

/// The viewport geometry derived from the configuration: an orthonormal
/// camera basis from the look direction and up hint, pixel grid origin and
/// deltas from the viewport spanned by the vertical field of view at the
/// focus distance, and defocus disk basis vectors from the defocus angle.
pub open spec fn camera_geometry(
    aspect_ratio: int,
    image_width: int,
    samples_per_pixel: int,
    max_depth: int,
    vfov: int,
    lookfrom: Vec3i,
    lookat: Vec3i,
    vup: Vec3i,
    defocus_angle: int,
    focus_dist: int,
) -> CameraV {
    let image_height = image_height_s(image_width, aspect_ratio);
    let theta = deg2rad(vfov);
    let h = tan_s(tdiv(theta, 2));
    let viewport_height = fmul(fadd(h, h), focus_dist);
    let viewport_width = fmul(
        viewport_height,
        fdiv(cl(image_width * SCALE), cl(image_height * SCALE)),
    );
    let w = unit_v(sub_v(lookfrom, lookat));
    let u = unit_v(cross_v(vup, w));
    let v = cross_v(w, u);
    let viewport_u = scale_v(u, viewport_width);
    let viewport_v = scale_v(neg_v(v), viewport_height);
    let pixel_delta_u = div_v(viewport_u, cl(image_width * SCALE));
    let pixel_delta_v = div_v(viewport_v, cl(image_height * SCALE));
    let viewport_upper_left = sub_v(
        sub_v(sub_v(lookfrom, scale_v(w, focus_dist)), div_v(viewport_u, 2 * SCALE)),
        div_v(viewport_v, 2 * SCALE),
    );
    let pixel00_loc = add_v(
        viewport_upper_left,
        scale_v(add_v(pixel_delta_u, pixel_delta_v), HALF as int),
    );
    let defocus_radius = fmul(focus_dist, tan_s(deg2rad(tdiv(defocus_angle, 2))));
    CameraV {
        image_width,
        image_height,
        center: lookfrom,
        pixel00_loc,
        pixel_delta_u,
        pixel_delta_v,
        samples_per_pixel,
        pixel_samples_scale: fdiv(SCALE as int, cl(samples_per_pixel * SCALE)),
        max_depth,
        defocus_disk_u: scale_v(u, defocus_radius),
        defocus_disk_v: scale_v(v, defocus_radius),
        defocus_angle,
    }
}

/// An admissible anti-aliasing jitter: a point of the half-open square
/// `[-1/2, 1/2)^2` in the pixel plane.
pub open spec fn jitter_ok(off: Vec3i) -> bool {
    &&& -(HALF as int) <= off.x < HALF
    &&& -(HALF as int) <= off.y < HALF
    &&& off.z == 0
}

/// An admissible defocus sample: a point of the open unit disk in the
/// lens plane.
pub open spec fn disk_ok(disk: Vec3i) -> bool {
    len_sq_v(disk) < SCALE && disk.z == 0
}

/// The camera ray for pixel `(i, j)` given a jitter offset within the
/// pixel square and a point of the defocus disk.
pub open spec fn ray_through(cam: CameraV, i: int, j: int, off: Vec3i, disk: Vec3i) -> Rayi {
    let pixel_sample = add_v(
        add_v(cam.pixel00_loc, scale_v(cam.pixel_delta_u, fadd(cl(i * SCALE), off.x))),
        scale_v(cam.pixel_delta_v, fadd(cl(j * SCALE), off.y)),
    );
    let origin = if cam.defocus_angle <= 0 {
        cam.center
    } else {
        add_v(
            add_v(cam.center, scale_v(cam.defocus_disk_u, disk.x)),
            scale_v(cam.defocus_disk_v, disk.y),
        )
    };
    Rayi { orig: origin, dir: sub_v(pixel_sample, origin) }
}

/// The background gradient: white blended toward sky blue by the height
/// of the unit ray direction; black for a degenerate direction.  The
/// blend parameter is clamped into `[0, 1]`: in exact arithmetic it never
/// leaves that range, but the truncating normalization of very short
/// directions can overshoot unit length, and the clamp keeps the gradient
/// inside the color range there too.
pub open spec fn background_v(r: Rayi) -> Vec3i {
    if len_sq_v(r.dir) == 0 {
        zero_v()
    } else {
        let a0 = fmul(HALF as int, fadd(unit_v(r.dir).y, SCALE as int));
        let a = if a0 < 0 {
            0int
        } else if a0 > SCALE {
            SCALE as int
        } else {
            a0
        };
        add_v(
            scale_v(v3(SCALE as int, SCALE as int, SCALE as int), fsub(SCALE as int, a)),
            scale_v(v3(HALF as int, SKY_G as int, SCALE as int), a),
        )
    }
}

/// The background gradient never leaves the color range: the clamped
/// blend of two colors in `[0, 1]^3` stays in `[0, 1]^3`.
pub proof fn lemma_background_in_range(r: Rayi)
    ensures
        color_in_range(background_v(r)),
{
    if len_sq_v(r.dir) == 0 {
    } else {
        let a0 = fmul(HALF as int, fadd(unit_v(r.dir).y, SCALE as int));
        let a = if a0 < 0 {
            0int
        } else if a0 > SCALE {
            SCALE as int
        } else {
            a0
        };
        let white = v3(SCALE as int, SCALE as int, SCALE as int);
        let sky = v3(HALF as int, SKY_G as int, SCALE as int);
        assert(white.x == SCALE && white.y == SCALE && white.z == SCALE);
        assert(sky.x == HALF && sky.y == SKY_G && sky.z == SCALE);
        let t = fsub(SCALE as int, a);
        assert(t == SCALE - a);
        crate::fixed::lemma_fmul_le_factor(white.x, t);
        crate::fixed::lemma_fmul_le_factor(white.y, t);
        crate::fixed::lemma_fmul_le_factor(white.z, t);
        crate::fixed::lemma_fmul_le_factor(sky.x, a);
        crate::fixed::lemma_fmul_le_factor(sky.y, a);
        crate::fixed::lemma_fmul_le_factor(sky.z, a);
    }
}

/// The sum of `n` sample radiances for pixel `(i, j)`: each sample is a
/// valid integrator outcome of a camera ray through that pixel, jittered
/// and defocused by admissible draws.
pub open spec fn pixel_samples_ok(
    cam: CameraV,
    world: Seq<Hittable>,
    i: int,
    j: int,
    n: int,
    total: Vec3i,
) -> bool
    decreases n,
{
    if n <= 0 {
        total == zero_v()
    } else {
        exists|prev: Vec3i, off: Vec3i, disk: Vec3i, c: Vec3i|
            {
                &&& pixel_samples_ok(cam, world, i, j, n - 1, prev)
                &&& jitter_ok(off)
                &&& disk_ok(disk)
                &&& ray_color_ok(world, ray_through(cam, i, j, off, disk), cam.max_depth, c)
                &&& total == add_v(prev, c)
            }
    }
}

/// What each emitted pixel satisfies: the quantization of the averaged
/// sample sum for its grid position.
pub open spec fn pixel_ok(cam: CameraV, world: Seq<Hittable>, i: int, j: int, px: Rgb) -> bool {
    exists|total: Vec3i|
        {
            &&& pixel_samples_ok(cam, world, i, j, cam.samples_per_pixel, total)
            &&& px.r == color_byte(fmul(total.x, cam.pixel_samples_scale))
            &&& px.g == color_byte(fmul(total.y, cam.pixel_samples_scale))
            &&& px.b == color_byte(fmul(total.z, cam.pixel_samples_scale))
        }
}

impl Camera {
    #[verifier::type_invariant]
    spec fn wf(self) -> bool {
        &&& self.image_width >= 1
        &&& self.image_height >= 1
        &&& self.samples_per_pixel >= 1
        &&& self.max_depth >= 0
    }

    /// Derive the viewport geometry from the configuration.  The look
    /// points must be distinct, and the up hint must not be parallel to
    /// the look direction: the camera basis is not defined otherwise.
    pub fn new(
        aspect_ratio: i64,
        image_width: i64,
        samples_per_pixel: i64,
        max_depth: i64,
        vfov: i64,
        lookfrom: Point3,
        lookat: Point3,
        vup: Vec3,
        defocus_angle: i64,
        focus_dist: i64,
    ) -> (r: Self)
        requires
            aspect_ratio > 0,
            image_width > 0,
            samples_per_pixel > 0,
            max_depth >= 0,
            len_v(sub_v(lookfrom@, lookat@)) > 0,
            len_v(cross_v(vup@, unit_v(sub_v(lookfrom@, lookat@)))) > 0,
        ensures
            r@ == camera_geometry(
                aspect_ratio as int,
                image_width as int,
                samples_per_pixel as int,
                max_depth as int,
                vfov as int,
                lookfrom@,
                lookat@,
                vup@,
                defocus_angle as int,
                focus_dist as int,
            ),
    {
        let image_height = calculate_image_height(image_width, aspect_ratio);
        let center = lookfrom;

        let theta = degrees_to_radiants(vfov);
        let h = fx_tan(theta / 2);
        let viewport_height = fx_mul(fx_add(h, h), focus_dist);
        proof {
            lemma_whole_positive(image_width as int);
            lemma_whole_positive(image_height as int);
            lemma_whole_positive(samples_per_pixel as int);
        }
        let viewport_width = fx_mul(
            viewport_height,
            fx_div(from_whole(image_width), from_whole(image_height)),
        );

        let w = unit_vector(lookfrom.sub(lookat));
        let u = unit_vector(cross(vup, w));
        let v = cross(w, u);

        let viewport_u = u.scale(viewport_width);
        let viewport_v = v.neg().scale(viewport_height);

        let pixel_delta_u = viewport_u.div(from_whole(image_width));
        let pixel_delta_v = viewport_v.div(from_whole(image_height));

        let viewport_upper_left = center.sub(w.scale(focus_dist)).sub(
            viewport_u.div(2 * SCALE),
        ).sub(viewport_v.div(2 * SCALE));
        let pixel00_loc = viewport_upper_left.add(pixel_delta_u.add(pixel_delta_v).scale(HALF));

        let defocus_radius = fx_mul(focus_dist, fx_tan(degrees_to_radiants(defocus_angle / 2)));
        let defocus_disk_u = u.scale(defocus_radius);
        let defocus_disk_v = v.scale(defocus_radius);

        let pixel_samples_scale = fx_div(SCALE, from_whole(samples_per_pixel));

        Camera {
            image_width,
            image_height,
            center,
            pixel00_loc,
            pixel_delta_u,
            pixel_delta_v,
            samples_per_pixel,
            pixel_samples_scale,
            max_depth,
            defocus_disk_u,
            defocus_disk_v,
            defocus_angle,
        }
    }

    /// Render the scene: row-major, top to bottom, one quantized color
    /// triple per pixel, each pixel the quantized average of the
    /// configured number of jittered samples through its grid position.
    pub fn render(&self, world: &HittableList, rng: &mut RandomSource) -> (pixels: Vec<Rgb>)
        ensures
            pixels@.len() == self@.image_height * self@.image_width,
            forall|ii: int, jj: int|
                0 <= ii < self@.image_width && 0 <= jj < self@.image_height ==> #[trigger] pixel_ok(
                    self@,
                    world@,
                    ii,
                    jj,
                    pixels@[jj * self@.image_width + ii],
                ),
    {
        proof {
            use_type_invariant(&*self);
        }
        let mut pixels: Vec<Rgb> = Vec::new();
        let mut j: i64 = 0;
        while j < self.image_height
            invariant
                0 <= j <= self@.image_height,
                pixels@.len() == j * self@.image_width,
                self.wf(),
                forall|ii: int, jj: int|
                    0 <= ii < self@.image_width && 0 <= jj < j ==> #[trigger] pixel_ok(
                        self@,
                        world@,
                        ii,
                        jj,
                        pixels@[jj * self@.image_width + ii],
                    ),
            decreases self@.image_height - j,
        {
            let mut i: i64 = 0;
            while i < self.image_width
                invariant
                    0 <= i <= self@.image_width,
                    0 <= j < self@.image_height,
                    pixels@.len() == j * self@.image_width + i,
                    self.wf(),
                    forall|ii: int, jj: int|
                        0 <= ii < self@.image_width && 0 <= jj < j ==> #[trigger] pixel_ok(
                            self@,
                            world@,
                            ii,
                            jj,
                            pixels@[jj * self@.image_width + ii],
                        ),
                    forall|ii: int|
                        0 <= ii < i ==> #[trigger] pixel_ok(
                            self@,
                            world@,
                            ii,
                            j as int,
                            pixels@[j * self@.image_width + ii],
                        ),
                decreases self@.image_width - i,
            {
                let mut pixel_color = Vec3::new(0, 0, 0);
                let mut s: i64 = 0;
                while s < self.samples_per_pixel
                    invariant
                        0 <= s <= self@.samples_per_pixel,
                        self.wf(),
                        pixel_samples_ok(self@, world@, i as int, j as int, s as int, pixel_color@),
                    decreases self@.samples_per_pixel - s,
                {
                    let ray = self.get_ray(i, j, rng);
                    let sampled = ray_color(ray, self.max_depth, world, rng);
                    let next_color = pixel_color.add(sampled);
                    proof {
                        let (off, disk) = choose|off: Vec3i, disk: Vec3i|
                            {
                                &&& jitter_ok(off)
                                &&& disk_ok(disk)
                                &&& ray@ == ray_through(self@, i as int, j as int, off, disk)
                            };
                        assert({
                            &&& pixel_samples_ok(
                                self@,
                                world@,
                                i as int,
                                j as int,
                                s as int,
                                pixel_color@,
                            )
                            &&& jitter_ok(off)
                            &&& disk_ok(disk)
                            &&& ray_color_ok(
                                world@,
                                ray_through(self@, i as int, j as int, off, disk),
                                self@.max_depth,
                                sampled@,
                            )
                            &&& next_color@ == add_v(pixel_color@, sampled@)
                        });
                        assert(pixel_samples_ok(
                            self@,
                            world@,
                            i as int,
                            j as int,
                            s + 1 as int,
                            next_color@,
                        ));
                    }
                    pixel_color = next_color;
                    s = s + 1;
                }
                let averaged = pixel_color.scale(self.pixel_samples_scale);
                let px = write_color(averaged);
                proof {
                    assert({
                        &&& pixel_samples_ok(
                            self@,
                            world@,
                            i as int,
                            j as int,
                            self@.samples_per_pixel,
                            pixel_color@,
                        )
                        &&& px.r == color_byte(fmul(pixel_color@.x, self@.pixel_samples_scale))
                        &&& px.g == color_byte(fmul(pixel_color@.y, self@.pixel_samples_scale))
                        &&& px.b == color_byte(fmul(pixel_color@.z, self@.pixel_samples_scale))
                    });
                    assert(pixel_ok(self@, world@, i as int, j as int, px));
                }
                let ghost prev_pixels = pixels@;
                pixels.push(px);
                proof {
                    assert forall|ii2: int, jj2: int|
                        0 <= ii2 < self@.image_width && 0 <= jj2 < j implies #[trigger] pixel_ok(
                        self@,
                        world@,
                        ii2,
                        jj2,
                        pixels@[jj2 * self@.image_width + ii2],
                    ) by {
                        lemma_row_index_bound(jj2, ii2, j as int, self@.image_width);
                        assert(pixels@[jj2 * self@.image_width + ii2] == prev_pixels[jj2
                            * self@.image_width + ii2]);
                    }
                    assert forall|ii2: int| 0 <= ii2 < i + 1 implies #[trigger] pixel_ok(
                        self@,
                        world@,
                        ii2,
                        j as int,
                        pixels@[j * self@.image_width + ii2],
                    ) by {
                        if ii2 == i {
                            assert(pixels@[j * self@.image_width + ii2] == px);
                        } else {
                            assert(pixels@[j * self@.image_width + ii2] == prev_pixels[j
                                * self@.image_width + ii2]);
                        }
                    }
                }
                i = i + 1;
            }
            proof {
                assert((j + 1) * self@.image_width == j * self@.image_width + self@.image_width)
                    by (nonlinear_arith);
                assert forall|ii: int, jj: int|
                    0 <= ii < self@.image_width && 0 <= jj < j + 1 implies #[trigger] pixel_ok(
                    self@,
                    world@,
                    ii,
                    jj,
                    pixels@[jj * self@.image_width + ii],
                ) by {
                    if jj < j {
                    }
                }
            }
            j = j + 1;
        }
        pixels
    }

    /// A camera ray toward pixel `(i, j)`, jittered within the pixel
    /// square, originating from the camera center or, with depth of
    /// field, from a random point of the defocus disk.
    pub fn get_ray(&self, i: i64, j: i64, rng: &mut RandomSource) -> (r: Ray)
        ensures
            exists|off: Vec3i, disk: Vec3i|
                {
                    &&& jitter_ok(off)
                    &&& disk_ok(disk)
                    &&& r@ == ray_through(self@, i as int, j as int, off, disk)
                },
            self@.defocus_angle <= 0 ==> r@.orig == self@.center,
    {
        let offset = sample_square(rng);
        let pixel_sample = self.pixel00_loc.add(
            self.pixel_delta_u.scale(fx_add(from_whole(i), offset.x())),
        ).add(self.pixel_delta_v.scale(fx_add(from_whole(j), offset.y())));
        if self.defocus_angle <= 0 {
            let ray_direction = pixel_sample.sub(self.center);
            let r = Ray::new(self.center, ray_direction);
            proof {
                let z = zero_v();
                assert(crate::vec3::dot_wide(z, z) == 0);
                assert(tdiv(0, SCALE as int) == 0);
                assert(len_sq_v(z) == 0);
                assert(r@ == ray_through(self@, i as int, j as int, offset@, z));
            }
            r
        } else {
            let disk_p = crate::vec3::random_in_unit_disk(rng);
            let ray_origin = self.center.add(
                self.defocus_disk_u.scale(disk_p.x()),
            ).add(self.defocus_disk_v.scale(disk_p.y()));
            let ray_direction = pixel_sample.sub(ray_origin);
            let r = Ray::new(ray_origin, ray_direction);
            proof {
                assert(r@ == ray_through(self@, i as int, j as int, offset@, disk_p@));
            }
            r
        }
    }
}

/// A row-major index of an earlier row lies before the current row.
proof fn lemma_row_index_bound(jj: int, ii: int, j: int, w: int)
    by (nonlinear_arith)
    requires
        0 <= ii < w,
        0 <= jj < j,
    ensures
        0 <= jj * w + ii,
        jj * w + ii < j * w,
{
}

/// A positive whole count converts to a positive scalar.
proof fn lemma_whole_positive(n: int)
    requires
        n >= 1,
    ensures
        cl(n * SCALE) > 0,
{
    assert(n * SCALE >= SCALE) by (nonlinear_arith)
        requires
            n >= 1,
            SCALE == 1048576,
    ;
}

/// The jitter vector to a random point of the square
/// `[-1/2, 1/2) x [-1/2, 1/2)` in the pixel plane.
pub fn sample_square(rng: &mut RandomSource) -> (r: Vec3)
    ensures
        jitter_ok(r@),
{
    let x = fx_sub(rng.random_frac(), HALF);
    let y = fx_sub(rng.random_frac(), HALF);
    Vec3::new(x, y, 0)
}

fn background(r: Ray) -> (c: Color)
    ensures
        c@ == background_v(r@),
{
    let d = r.direction();
    let lsq = d.length_squared();
    if lsq == 0 {
        return Vec3::new(0, 0, 0);
    }
    proof {
        crate::vec3::lemma_positive_len(d@);
    }
    let unit_direction = unit_vector(d);
    let a0 = fx_mul(HALF, fx_add(unit_direction.y(), SCALE));
    let a = if a0 < 0 {
        0
    } else if a0 > SCALE {
        SCALE
    } else {
        a0
    };
    Vec3::new(SCALE, SCALE, SCALE).scale(fx_sub(SCALE, a)).add(
        Vec3::new(HALF, SKY_G, SCALE).scale(a),
    )
}

/// What every outcome of the integrator satisfies: black once the bounce
/// budget is spent; the background gradient on a miss; on a hit, a
/// scatter outcome of the struck surface decides — black when the ray is
/// absorbed, else the attenuation times a valid color of the scattered
/// ray one bounce down.
pub open spec fn ray_color_ok(world: Seq<Hittable>, r: Rayi, depth: int, c: Vec3i) -> bool
    decreases depth,
{
    if depth <= 0 {
        c == zero_v()
    } else {
        match scan_hits(world, world.len() as int, r, SHADOW_EPS as int, FX_MAX as int) {
            None => c == background_v(r),
            Some(pt) => exists|rec: HitRecordi, res: Option<Scatter>|
                {
                    &&& rec.t == pt.1
                    &&& 0 <= pt.0 < world.len()
                    &&& hittable_rec_ok(world[pt.0], r, rec, rec.t)
                    &&& scatter_ok_any(rec.mat, r, rec, res)
                    &&& match res {
                        None => c == zero_v(),
                        Some(sc) => exists|c2: Vec3i|
                            ray_color_ok(world, sc.scattered@, depth - 1, c2) && c == mul_v(
                                sc.attenuation@,
                                c2,
                            ),
                    }
                },
        }
    }
}

/// Whether every surface of the scene attenuates within the color range.
pub open spec fn world_attenuations_in_range(world: Seq<Hittable>) -> bool {
    forall|k: int| 0 <= k < world.len() ==> #[trigger] attenuation_in_range(hittable_mat(world[k]))
}

/// Law: when every surface of the scene attenuates within `[0, 1]^3`, the
/// integrator's radiance stays in `[0, 1]^3` — the background gradient
/// lies in the range, absorption is black, and products with in-range
/// attenuations cannot leave it.
pub proof fn lemma_ray_color_in_range(world: Seq<Hittable>, r: Rayi, depth: int, c: Vec3i)
    requires
        ray_color_ok(world, r, depth, c),
        world_attenuations_in_range(world),
    ensures
        color_in_range(c),
    decreases depth,
{
    if depth <= 0 {
    } else {
        match scan_hits(world, world.len() as int, r, SHADOW_EPS as int, FX_MAX as int) {
            None => {
                lemma_background_in_range(r);
            },
            Some(pt) => {
                let (rec, res) = choose|rec: HitRecordi, res: Option<Scatter>|
                    {
                        &&& rec.t == pt.1
                        &&& 0 <= pt.0 < world.len()
                        &&& hittable_rec_ok(world[pt.0], r, rec, rec.t)
                        &&& scatter_ok_any(rec.mat, r, rec, res)
                        &&& match res {
                            None => c == zero_v(),
                            Some(sc) => exists|c2: Vec3i|
                                ray_color_ok(world, sc.scattered@, depth - 1, c2) && c == mul_v(
                                    sc.attenuation@,
                                    c2,
                                ),
                        }
                    };
                assert(rec.mat == hittable_mat(world[pt.0]));
                assert(attenuation_in_range(hittable_mat(world[pt.0])));
                match res {
                    None => {},
                    Some(sc) => {
                        let c2 = choose|c2: Vec3i|
                            ray_color_ok(world, sc.scattered@, depth - 1, c2) && c == mul_v(
                                sc.attenuation@,
                                c2,
                            );
                        lemma_ray_color_in_range(world, sc.scattered@, depth - 1, c2);
                        assert(color_in_range(sc.attenuation@)) by {
                            match rec.mat {
                                Material::Lambertian(l) => {
                                    let u = choose|u: Vec3i|
                                        unit_sample(u) && lambertian_scatter_ok(l@, rec, u, res);
                                    assert(sc.attenuation@ == l@);
                                },
                                Material::Metal(mt) => {
                                    let u = choose|u: Vec3i|
                                        unit_sample(u) && metal_scatter_ok(mt@, r, rec, u, res);
                                    assert(sc.attenuation@ == mt@.albedo);
                                },
                                Material::Dielectric(d) => {
                                    let u = choose|u: int|
                                        0 <= u < SCALE && dielectric_scatter_ok(d@, r, rec, u, res);
                                    assert(sc.attenuation@ == v3(
                                        SCALE as int,
                                        SCALE as int,
                                        SCALE as int,
                                    ));
                                },
                            }
                        }
                        crate::fixed::lemma_fmul_le_factor(sc.attenuation@.x, c2.x);
                        crate::fixed::lemma_fmul_le_factor(sc.attenuation@.y, c2.y);
                        crate::fixed::lemma_fmul_le_factor(sc.attenuation@.z, c2.z);
                    },
                }
            },
        }
    }
}

/// The radiance carried back along a ray: black once the bounce budget is
/// spent; otherwise the scattering response at the closest hit, attenuated
/// and followed recursively, or the background gradient on a miss.
pub fn ray_color(r: Ray, depth: i64, world: &HittableList, rng: &mut RandomSource) -> (c: Color)
    ensures
        ray_color_ok(world@, r@, depth as int, c@),
        world_attenuations_in_range(world@) ==> color_in_range(c@),
        depth <= 0 ==> c@ == zero_v(),
        (depth > 0 && scan_hits(
            world@,
            world@.len() as int,
            r@,
            SHADOW_EPS as int,
            FX_MAX as int,
        ) is None) ==> c@ == background_v(r@),
    decreases depth,
{
    if depth <= 0 {
        let black = Vec3::new(0, 0, 0);
        proof {
            assert(black@ == zero_v());
            assert(color_in_range(black@));
        }
        return black;
    }

    if let Some(rec) = world.hit(r, Interval::new(SHADOW_EPS, FX_MAX)) {
        let res = rec.mat().scatter(r, &rec, rng);
        let ghost sch = scan_hits(world@, world@.len() as int, r@, SHADOW_EPS as int, FX_MAX as int);
        if let Some(sc) = res {
            let bounced = ray_color(sc.scattered, depth - 1, world, rng);
            let out = sc.attenuation.mul(bounced);
            proof {
                assert(ray_color_ok(world@, sc.scattered@, depth - 1, bounced@) && out@ == mul_v(
                    sc.attenuation@,
                    bounced@,
                ));
                assert(scatter_ok_any(rec@.mat, r@, rec@, res));
                assert({
                    &&& rec@.t == sch->Some_0.1
                    &&& 0 <= sch->Some_0.0 < world@.len()
                    &&& hittable_rec_ok(world@[sch->Some_0.0], r@, rec@, rec@.t)
                });
                assert(ray_color_ok(world@, r@, depth as int, out@));
                if world_attenuations_in_range(world@) {
                    lemma_ray_color_in_range(world@, r@, depth as int, out@);
                }
            }
            return out;
        }
        let black = Vec3::new(0, 0, 0);
        proof {
            assert(black@ == zero_v());
            assert(scatter_ok_any(rec@.mat, r@, rec@, res));
            assert({
                &&& rec@.t == sch->Some_0.1
                &&& 0 <= sch->Some_0.0 < world@.len()
                &&& hittable_rec_ok(world@[sch->Some_0.0], r@, rec@, rec@.t)
            });
            assert(ray_color_ok(world@, r@, depth as int, black@));
            assert(color_in_range(black@));
        }
        return black;
    }

    let bg = background(r);
    proof {
        lemma_background_in_range(r@);
    }
    bg
}

} // verus!
