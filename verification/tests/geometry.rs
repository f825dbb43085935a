use xonix::geometry::{Direction, Position};

fn all_directions() -> Vec<Direction> {
    let mut ds = Vec::new();
    for dx in [-1i16, 0, 1] {
        for dy in [-1i16, 0, 1] {
            ds.push(Direction { dx, dy });
        }
    }
    ds
}

#[test]
fn flip_x_is_an_involution_on_all_nine_directions() {
    for d in all_directions() {
        let flipped = d.flipped_x();
        assert_eq!(flipped.flipped_x(), d);
    }
}

#[test]
fn flip_y_is_an_involution_on_all_nine_directions() {
    for d in all_directions() {
        let flipped = d.flipped_y();
        assert_eq!(flipped.flipped_y(), d);
    }
}

#[test]
fn horizontal_component_has_zero_vertical_part() {
    for d in all_directions() {
        let h = d.horizontal();
        assert_eq!(h.dy, 0);
        assert_eq!(h.dx, d.dx);
    }
}

#[test]
fn vertical_component_has_zero_horizontal_part() {
    for d in all_directions() {
        let v = d.vertical();
        assert_eq!(v.dx, 0);
        assert_eq!(v.dy, d.dy);
    }
}

#[test]
fn moved_to_translates_by_one_step() {
    let p = Position { x: 4, y: 9 };
    let q = p.moved_to(&Direction { dx: -1, dy: 1 });
    assert_eq!(q, Position { x: 3, y: 10 });
    let r = p.moved_to(&Direction { dx: 0, dy: 0 });
    assert_eq!(r, p);
}
