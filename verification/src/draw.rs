//! The map from world coordinates to the pixels of a drawing surface.
pub use crate::barnes_hut::step_barnes_hut;
use crate::fixed::Fixed;
use crate::geometry::{Point, Rectangle};
use crate::vector::Particle;
use vstd::prelude::*;

verus! {

/// Raw value of one half.
pub const HALF_RAW: i64 = 0x8000_0000;

/// Raw value of the share of the surface that the world fills (95
/// hundredths).
pub const FILL_RAW: i64 = 4_080_218_931;

/// Half the side, in pixels, of the square drawn for a particle, not
/// counting its middle pixel.
pub const DOT_RADIUS: i32 = 1;

/// How far, in pixels, a particle may lie outside the surface and still be
/// drawn.
pub const MARGIN: i32 = 10;

/// The world point at the middle of the surface, and the number of pixels
/// per world unit.
#[derive(Copy, Clone, Debug, PartialEq, Eq, Structural)]
pub struct Camera {
    pub cx: Fixed,
    pub cy: Fixed,
    pub ppu: Fixed,
}

/// Pixel column of the world coordinate `x` on a surface `w` pixels wide.
pub open spec fn screen_x(x: Fixed, w: i32, camera: Camera) -> int {
    (Fixed::of_int(w as int) * Fixed { raw: HALF_RAW } + (x - camera.cx) * camera.ppu).rounded()
}

/// Pixel row of the world coordinate `y` on a surface `h` pixels high. Rows
/// count downward, so the world's y axis is flipped.
pub open spec fn screen_y(y: Fixed, h: i32, camera: Camera) -> int {
    (Fixed::of_int(h as int) * Fixed { raw: HALF_RAW } - (y - camera.cy) * camera.ppu).rounded()
}

/// The pixel, column first, at which the world point `(x, y)` appears.
pub fn world_to_screen(x: Fixed, y: Fixed, w: i32, h: i32, camera: Camera) -> (r: [i32; 2])
    ensures
        r@[0] == screen_x(x, w, camera),
        r@[1] == screen_y(y, h, camera),
{
    let half: Fixed = Fixed::from_raw(HALF_RAW);
    let sx: i32 = (Fixed::from_int(w) * half + (x - camera.cx) * camera.ppu).round();
    let sy: i32 = (Fixed::from_int(h) * half - (y - camera.cy) * camera.ppu).round();
    [sx, sy]
}

impl Camera {
    /// The camera that centers `bounds` on a surface of `w` by `h` pixels
    /// and scales it to fill 95 hundredths of the surface along the tighter
    /// axis.
    pub open spec fn spec_fit(bounds: &Rectangle, w: i32, h: i32) -> Camera {
        let along_x = Fixed::of_int(w as int) / (bounds.p2.x - bounds.p1.x);
        let along_y = Fixed::of_int(h as int) / (bounds.p2.y - bounds.p1.y);
        let tighter = if along_x.raw <= along_y.raw {
            along_x
        } else {
            along_y
        };
        Camera {
            cx: bounds.spec_center().x,
            cy: bounds.spec_center().y,
            ppu: tighter * Fixed { raw: FILL_RAW },
        }
    }

    #[verifier::when_used_as_spec(spec_fit)]
    pub fn fit(bounds: &Rectangle, w: i32, h: i32) -> (camera: Camera)
        ensures
            camera == Camera::spec_fit(bounds, w, h),
    {
        let world_w: Fixed = bounds.p2.x - bounds.p1.x;
        let world_h: Fixed = bounds.p2.y - bounds.p1.y;
        let ppu: Fixed = (Fixed::from_int(w) / world_w).min(Fixed::from_int(h) / world_h)
            * Fixed::from_raw(FILL_RAW);
        let center: Point = bounds.center();
        Camera { cx: center.x, cy: center.y, ppu }
    }
}

/// The pixel `(sx, sy)` lies on a surface of `w` by `h` pixels or within
/// the margin around it.
pub open spec fn near_surface(sx: int, sy: int, w: i32, h: i32) -> bool {
    -MARGIN <= sx <= w + MARGIN && -MARGIN <= sy <= h + MARGIN
}

/// The pixels of those particles that lie on or near the surface, in the
/// order of the particles.
pub open spec fn visible_pixels(ps: Seq<Particle>, w: i32, h: i32, camera: Camera) -> Seq<(int, int)>
    decreases ps.len(),
{
    if ps.len() == 0 {
        Seq::empty()
    } else {
        let before = visible_pixels(ps.drop_last(), w, h, camera);
        let sx = screen_x(ps.last().position.x, w, camera);
        let sy = screen_y(ps.last().position.y, h, camera);
        if near_surface(sx, sy, w, h) {
            before.push((sx, sy))
        } else {
            before
        }
    }
}

/// `rect` is the square drawn for a particle at `pixel`: its left column,
/// its top row, its width and its height.
pub open spec fn is_dot(rect: [i32; 4], pixel: (int, int)) -> bool {
    &&& rect@[0] == pixel.0 - DOT_RADIUS
    &&& rect@[1] == pixel.1 - DOT_RADIUS
    &&& rect@[2] == 2 * DOT_RADIUS + 1
    &&& rect@[3] == 2 * DOT_RADIUS + 1
}

/// One square per particle on or near the surface, each as left column, top
/// row, width and height: three pixels a side, centered on the particle.
pub fn particle_rects(particles: &[Particle], w: i32, h: i32, camera: Camera) -> (rects: Vec<[i32; 4]>)
    ensures
        rects@.len() == visible_pixels(particles@, w, h, camera).len(),
        forall|k: int|
            0 <= k < rects@.len() ==> is_dot(
                #[trigger] rects@[k],
                visible_pixels(particles@, w, h, camera)[k],
            ),
{
    let mut rects: Vec<[i32; 4]> = Vec::new();
    let mut i: usize = 0;
    while i < particles.len()
        invariant
            i <= particles.len(),
            rects@.len() == visible_pixels(particles@.take(i as int), w, h, camera).len(),
            forall|k: int|
                0 <= k < rects@.len() ==> is_dot(
                    #[trigger] rects@[k],
                    visible_pixels(particles@.take(i as int), w, h, camera)[k],
                ),
        decreases particles.len() - i,
    {
        proof {
            assert(particles@.take(i + 1).drop_last() =~= particles@.take(i as int));
        }
        let pixel: [i32; 2] = world_to_screen(
            particles[i].position.x,
            particles[i].position.y,
            w,
            h,
            camera,
        );
        let sx: i32 = pixel[0];
        let sy: i32 = pixel[1];
        if !(sx < -MARGIN || sx as i64 > w as i64 + MARGIN as i64 || sy < -MARGIN || sy as i64
            > h as i64 + MARGIN as i64) {
            let rect: [i32; 4] = [sx - DOT_RADIUS, sy - DOT_RADIUS, 2 * DOT_RADIUS + 1, 2 * DOT_RADIUS + 1];
            rects.push(rect);
        }
        i += 1;
    }
    proof {
        assert(particles@.take(i as int) =~= particles@);
    }
    rects
}

} // verus!
