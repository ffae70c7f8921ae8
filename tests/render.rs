use keynav_wayland::geometry::{Region, SCALE};
use keynav_wayland::render::{FramebufferError, PixelFormat, RenderManager};

fn surface() -> RenderManager {
    RenderManager::init(PixelFormat::Argb32, 100, 100, Some(400)).unwrap()
}

#[test]
fn init_covers_the_whole_overlay() {
    let r = surface();
    assert_eq!(r.get_active_region(), Region { x: 0, y: 0, width: SCALE, height: SCALE });
    assert_eq!((r.get_width(), r.get_height(), r.get_stride()), (100, 100, 400));
    assert_eq!(r.get_buf_size(), 40_000);
    assert_eq!(r.get_format(), PixelFormat::Argb32);
}

#[test]
fn resize_recomputes_the_backing_store() {
    let mut r = surface();
    assert_eq!(r.set_bounds(200, 150, Some(800)), Ok(()));
    assert_eq!(r.get_stride(), 800);
    assert_eq!(r.get_buf_size(), 800 * 150);
    assert_eq!((r.get_width(), r.get_height()), (200, 150));
}

#[test]
fn resize_errors_leave_the_surface() {
    let mut r = surface();
    assert_eq!(r.set_bounds(200, 150, None), Err(FramebufferError::NoStride));
    assert_eq!(r.set_bounds(200, 150, Some(-1)), Err(FramebufferError::NoStride));
    assert_eq!(r.set_bounds(70_000, 70_000, Some(280_000)), Err(FramebufferError::TooLarge));
    assert_eq!((r.get_width(), r.get_height(), r.get_stride()), (100, 100, 400));
    assert_eq!(
        RenderManager::init(PixelFormat::Argb32, 1, 1, None).err(),
        Some(FramebufferError::NoStride)
    );
}

#[test]
fn out_of_bounds_candidates_are_dropped() {
    let mut r = surface();
    let before = r.get_active_region();
    let bad = [
        Region { x: -1, y: 0, width: SCALE, height: SCALE },
        Region { x: 0, y: -1, width: SCALE, height: SCALE },
        Region { x: SCALE, y: 0, width: SCALE, height: SCALE },
        Region { x: 0, y: SCALE, width: SCALE, height: SCALE },
        Region { x: 0, y: 0, width: 9_999_999, height: SCALE },
        Region { x: 0, y: 0, width: SCALE, height: 0 },
    ];
    for c in bad.iter() {
        r.update_active_region(*c);
        assert_eq!(r.get_active_region(), before);
    }
    let pixel = Region { x: 0, y: 0, width: 10_000_000, height: 10_000_000 };
    r.update_active_region(pixel);
    assert_eq!(r.get_active_region(), pixel);
}

#[test]
fn update_twice_is_update_once() {
    let mut r = surface();
    let c = Region { x: 250_000_000, y: 250_000_000, width: 500_000_000, height: 500_000_000 };
    r.update_active_region(c);
    let once = r.get_active_region();
    r.update_active_region(c);
    assert_eq!(r.get_active_region(), once);
    assert_eq!(once, c);
}
