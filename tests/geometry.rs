use keynav_wayland::geometry::{
    cut_down, cut_left, cut_right, cut_up, move_down, move_left, move_right, move_up, Fraction,
    Region, SCALE,
};

fn full() -> Region {
    Region { x: 0, y: 0, width: SCALE, height: SCALE }
}

fn half() -> Fraction {
    Fraction { ticks: 500_000_000 }
}

#[test]
fn cut_left_scales_width_only() {
    let r = Region { x: 100, y: 200, width: 600_000_000, height: 300 };
    let c = cut_left(r, Fraction { ticks: 250_000_000 }).unwrap();
    assert_eq!(c, Region { x: 100, y: 200, width: 150_000_000, height: 300 });
    let odd = cut_left(Region { x: 0, y: 0, width: 3, height: 1 }, half()).unwrap();
    assert_eq!(odd.width, 1);
}

#[test]
fn cut_left_and_right_partition() {
    let r = full();
    let left = cut_left(r, Fraction { ticks: 300_000_000 }).unwrap();
    let right = cut_right(r, Fraction { ticks: 700_000_000 }).unwrap();
    assert_eq!(left.x, 0);
    assert_eq!(left.x + left.width, right.x);
    assert_eq!(right.x + right.width, SCALE);
    let odd = Region { x: 5, y: 0, width: 3, height: 1 };
    let l = cut_left(odd, half()).unwrap();
    let rr = cut_right(odd, half()).unwrap();
    assert_eq!((l.x, l.width), (5, 1));
    assert_eq!((rr.x, rr.width), (7, 1));
}

#[test]
fn cuts_on_the_vertical_axis() {
    let r = full();
    assert_eq!(cut_up(r, half()).unwrap(), Region { x: 0, y: 0, width: SCALE, height: 500_000_000 });
    assert_eq!(
        cut_down(r, Fraction { ticks: 250_000_000 }).unwrap(),
        Region { x: 0, y: 750_000_000, width: SCALE, height: 250_000_000 }
    );
}

#[test]
fn moves_shift_by_the_extent() {
    let r = Region { x: 400_000_000, y: 400_000_000, width: 200_000_000, height: 100_000_000 };
    let one = Fraction { ticks: 1_000_000_000 };
    assert_eq!(move_right(r, one).unwrap().x, 600_000_000);
    assert_eq!(move_left(r, half()).unwrap().x, 300_000_000);
    assert_eq!(move_up(r, one).unwrap().y, 300_000_000);
    assert_eq!(move_down(r, Fraction { ticks: 2_000_000_000 }).unwrap().y, 600_000_000);
    assert_eq!(move_left(full(), one).unwrap().x, -SCALE);
}

#[test]
fn unrepresentable_candidates_are_none() {
    let r = Region { x: 0, y: 0, width: i64::MAX, height: 1 };
    assert_eq!(cut_left(r, Fraction { ticks: 2_000_000_000 }), None);
    assert_eq!(move_right(r, Fraction { ticks: 2_000_000_000 }), None);
    assert_eq!(move_left(Region { x: i64::MIN + 1, y: 0, width: 10, height: 1 }, Fraction { ticks: 1_000_000_000 }), None);
}
