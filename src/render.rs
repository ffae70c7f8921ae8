//! Bookkeeping of the overlay's surface: its pixel size, the layout of the
//! backing store, and the active region drawn on it.
use vstd::prelude::*;

use crate::geometry::{admissible, Region, SCALE};

verus! {

/// The pixel formats that the backing store can hold.
#[derive(Clone, Copy, Debug, PartialEq, Eq, Structural)]
pub enum PixelFormat {
    /// 32 bits per pixel: alpha, red, green, blue.
    Argb32,
}

/// Why a resize was refused.
#[derive(Clone, Copy, Debug, PartialEq, Eq, Structural)]
pub enum FramebufferError {
    /// The pixel format has no row stride for the requested width.
    NoStride,
    /// `stride * height` bytes do not fit in a 32-bit size.
    TooLarge,
}

/// The state of a `RenderManager`.
pub ghost struct Surface {
    pub region: Region,
    pub width: int,
    pub height: int,
    pub stride: int,
    pub format: PixelFormat,
}

/// Whether a region can stand as the active one: its origin in `[0, 1)` and
/// a positive extent on both axes.
pub open spec fn region_ok(r: Region) -> bool {
    &&& 0 <= r.x < SCALE
    &&& 0 <= r.y < SCALE
    &&& r.width > 0
    &&& r.height > 0
}

/// Whether a stride and a height give a backing store of a 32-bit size.
pub open spec fn layout_ok(stride: int, height: int) -> bool {
    0 <= stride && stride * height <= u32::MAX
}

/// The invariant of a surface: the active region stands, and `stride *
/// height` is a 32-bit size.
pub open spec fn surface_ok(s: Surface) -> bool {
    region_ok(s.region) && layout_ok(s.stride, s.height)
}

/// The whole overlay: origin at zero, one unit each way.
pub open spec fn full_region() -> Region {
    Region { x: 0, y: 0, width: SCALE, height: SCALE }
}

/// The state after offering `rect` as the active region: it is taken where
/// it is admissible on the surface, and the state is unchanged otherwise.
pub open spec fn updated(s: Surface, rect: Region) -> Surface {
    Surface {
        region: if admissible(rect@, s.width, s.height) {
            rect
        } else {
            s.region
        },
        ..s
    }
}

/// The surface's size, the layout of its backing store, and the active region.
#[derive(Clone, Copy, Debug)]
pub struct RenderManager {
    active_region: Region,
    height: u32,
    width: u32,
    stride: i32,
    format: PixelFormat,
}

impl View for RenderManager {
    type V = Surface;

    closed spec fn view(&self) -> Surface {
        Surface {
            region: self.active_region,
            width: self.width as int,
            height: self.height as int,
            stride: self.stride as int,
            format: self.format,
        }
    }
}

impl RenderManager {
    pub open spec fn wf(&self) -> bool {
        surface_ok(self@)
    }

    /// A surface of the given size whose rows are `stride` bytes apart (`None`
    /// where the format has no stride for that width), with the whole
    /// overlay as the active region.
    pub fn init(format: PixelFormat, width: u32, height: u32, stride: Option<i32>) -> (r: Result<
        Self,
        FramebufferError,
    >)
        ensures
            match stride {
                None => r == Err::<Self, _>(FramebufferError::NoStride),
                Some(s) => if s < 0 {
                    r == Err::<Self, _>(FramebufferError::NoStride)
                } else if !layout_ok(s as int, height as int) {
                    r == Err::<Self, _>(FramebufferError::TooLarge)
                } else {
                    &&& r is Ok
                    &&& r->Ok_0.wf()
                    &&& r->Ok_0@ == (Surface {
                        region: full_region(),
                        width: width as int,
                        height: height as int,
                        stride: s as int,
                        format,
                    })
                },
            },
    {
        let mut renderer = RenderManager {
            active_region: Region { x: 0, y: 0, width: SCALE, height: SCALE },
            height: 0,
            width: 0,
            stride: 0,
            format,
        };
        match renderer.set_bounds(width, height, stride) {
            Ok(()) => Ok(renderer),
            Err(e) => Err(e),
        }
    }

    /// Resizes the surface: the new width and height, and the row stride that
    /// the pixel format gives for the new width (`None` where it gives none).
    /// The backing store then holds exactly `stride * height` bytes. On an
    /// error nothing changes.
    pub fn set_bounds(&mut self, width: u32, height: u32, stride: Option<i32>) -> (r: Result<
        (),
        FramebufferError,
    >)
        requires
            region_ok(old(self)@.region),
        ensures
            match stride {
                None => r == Err::<(), _>(FramebufferError::NoStride),
                Some(s) => if s < 0 {
                    r == Err::<(), _>(FramebufferError::NoStride)
                } else if !layout_ok(s as int, height as int) {
                    r == Err::<(), _>(FramebufferError::TooLarge)
                } else {
                    r is Ok
                },
            },
            r is Ok ==> final(self)@ == (Surface {
                width: width as int,
                height: height as int,
                stride: stride->Some_0 as int,
                ..old(self)@
            }),
            r is Err ==> final(self)@ == old(self)@,
            r is Ok ==> final(self).wf(),
    {
        let s = match stride {
            None => {
                return Err(FramebufferError::NoStride);
            },
            Some(s) => s,
        };
        if s < 0 {
            return Err(FramebufferError::NoStride);
        }
        proof {
            let a = s as int;
            let b = height as int;
            assert(a * b <= u64::MAX) by (nonlinear_arith)
                requires
                    0 <= a <= i32::MAX,
                    0 <= b <= u32::MAX,
            ;
        }
        if (s as u64) * (height as u64) > u32::MAX as u64 {
            return Err(FramebufferError::TooLarge);
        }
        self.stride = s;
        self.width = width;
        self.height = height;
        Ok(())
    }

    /// Makes `rect` the active region where it is admissible on the surface
    /// (origin in `[0, 1)`, at least one device pixel each way); otherwise the
    /// active region stays as it was.
    pub fn update_active_region(&mut self, rect: Region)
        requires
            old(self).wf(),
        ensures
            final(self).wf(),
            final(self)@ == updated(old(self)@, rect),
    {
        proof {
            let w = self.width as int;
            let h = self.height as int;
            assert(i128::MIN <= rect.width * w <= i128::MAX) by (nonlinear_arith)
                requires
                    i64::MIN <= rect.width <= i64::MAX,
                    0 <= w <= u32::MAX,
            ;
            assert(i128::MIN <= rect.height * h <= i128::MAX) by (nonlinear_arith)
                requires
                    i64::MIN <= rect.height <= i64::MAX,
                    0 <= h <= u32::MAX,
            ;
        }
        let dx: i128 = rect.width as i128 * self.width as i128;
        let dy: i128 = rect.height as i128 * self.height as i128;
        if rect.x >= 0 && rect.y >= 0 && rect.x < SCALE && rect.y < SCALE && dx >= SCALE as i128
            && dy >= SCALE as i128 {
            proof {
                let w = self.width as int;
                let h = self.height as int;
                assert(rect.width > 0) by (nonlinear_arith)
                    requires
                        rect.width * w >= SCALE,
                        w >= 0,
                ;
                assert(rect.height > 0) by (nonlinear_arith)
                    requires
                        rect.height * h >= SCALE,
                        h >= 0,
                ;
            }
            self.active_region = rect;
        }
    }

    pub fn get_active_region(&self) -> (r: Region)
        ensures
            r == self@.region,
    {
        self.active_region
    }

    /// The size of the backing store in bytes: `stride * height`.
    pub fn get_buf_size(&self) -> (r: u32)
        requires
            self.wf(),
        ensures
            r == self@.stride * self@.height,
    {
        (self.stride as u32) * self.height
    }

    pub fn get_format(&self) -> (r: PixelFormat)
        ensures
            r == self@.format,
    {
        self.format
    }

    pub fn get_height(&self) -> (r: u32)
        ensures
            r == self@.height,
    {
        self.height
    }

    pub fn get_width(&self) -> (r: u32)
        ensures
            r == self@.width,
    {
        self.width
    }

    pub fn get_stride(&self) -> (r: i32)
        ensures
            r == self@.stride,
    {
        self.stride
    }
}

/// Offering the same region twice stores what offering it once stores; and
/// offering the region that already stands, where it is admissible, changes
/// nothing.
pub proof fn lemma_update_idempotent(s: Surface, rect: Region)
    ensures
        updated(updated(s, rect), rect) == updated(s, rect),
        admissible(s.region@, s.width, s.height) ==> updated(s, s.region) == s,
{
}

/// A candidate with its origin outside `[0, 1)` on either axis, or less than
/// one device pixel wide or high, leaves the state unchanged.
pub proof fn lemma_update_rejects(s: Surface, rect: Region)
    requires
        rect.x < 0 || rect.y < 0 || rect.x >= SCALE || rect.y >= SCALE || rect.width * s.width
            < SCALE || rect.height * s.height < SCALE,
    ensures
        updated(s, rect) == s,
{
}

} // verus!
