use xdbuf::step::{step2d, step3d};
use xdbuf::{XDBuf, XdError};

fn grid() -> XDBuf<i32, 2> {
    // [1, 2, 3
    //  4, 5, 6
    //  7, 8, 9]  at offsets 0..9, first dimension fastest
    let initial_vec = (1..=9).collect::<Vec<i32>>();
    XDBuf::new_with_vec([3, 3], initial_vec).unwrap()
}

#[test]
fn test_index_s_and_m() {
    let buf = grid();
    let walker = buf.walker_from([1, 1]).unwrap();
    assert_eq!(walker.index_s(), 4);
    assert_eq!(walker.index_m(), [1, 1]);
}

#[test]
fn test_cursor_step() {
    let buf = grid();
    let walker = buf.walker_from([1, 1]).unwrap();
    assert_eq!(walker.index_s(), 4);

    let next_index = walker.index_(&[1, 0]).unwrap();
    assert_eq!(next_index, 5);

    let next_index = walker.index_(&[0, 1]).unwrap();
    assert_eq!(next_index, 7);
}

#[test]
fn test_step_carries_across_axes() {
    // The step is relative motion over the flat offset space: a step whose
    // per-axis coordinate would leave an extent still succeeds as long as
    // the target offset stays valid.
    let buf = grid();
    let walker = buf.walker_from([2, 0]).unwrap();
    assert_eq!(walker.index_s(), 2);
    assert_eq!(walker.index_(&[1, 0]).unwrap(), 3);

    let walker = buf.walker_from([1, 1]).unwrap();
    assert_eq!(walker.index_(&[2, 0]).unwrap(), 6);
    assert_eq!(walker.index_(&[-2, 0]).unwrap(), 2);
}

#[test]
fn test_step_out_of_range() {
    let buf = grid();
    let walker = buf.walker_from([1, 1]).unwrap();

    // Offset 4 plus 2 * 3 reaches 10, past the last valid offset 8.
    assert_eq!(walker.index_(&[0, 2]).unwrap_err(), XdError::OutOfRange);
    // Offset 4 minus 2 * 3 would be negative.
    assert_eq!(walker.index_(&[0, -2]).unwrap_err(), XdError::OutOfRange);
    // A failed compute leaves the cursor where it was.
    assert_eq!(walker.index_s(), 4);

    let first = buf.walker_from([0, 0]).unwrap();
    assert_eq!(first.index_(&[-1, 0]).unwrap_err(), XdError::OutOfRange);
    let last = buf.walker_from([2, 2]).unwrap();
    assert_eq!(last.index_(&[1, 0]).unwrap_err(), XdError::OutOfRange);
}

#[test]
fn test_step_overflow() {
    let buf = grid();
    let walker = buf.walker_from([1, 1]).unwrap();

    // The per-axis product isize::MAX * 3 overflows the signed range.
    assert_eq!(
        walker.index_(&[0, isize::MAX]).unwrap_err(),
        XdError::OutOfRange
    );
    // The signed sum isize::MAX * 1 + 1 * 3 overflows even though each
    // product alone fits.
    assert_eq!(
        walker.index_(&[isize::MAX, 1]).unwrap_err(),
        XdError::OutOfRange
    );
}

#[test]
fn test_as_step() {
    let buf = grid();
    let mut walker = buf.walker_from([1, 1]).unwrap();

    walker.as_(&[1, 1]).unwrap();
    assert_eq!(walker.index_s(), 8);

    walker.as_(&[-1, 0]).unwrap();
    assert_eq!(walker.index_s(), 7);

    assert_eq!(walker.as_(&[0, 1]).unwrap_err(), XdError::OutOfRange);
    assert_eq!(walker.index_s(), 7);
}

#[test]
fn test_into_step() {
    let buf = grid();
    let walker = buf.walker_from([1, 1]).unwrap();

    let walker = walker.into_(&[1, 1]).unwrap();
    assert_eq!(walker.index_s(), 8);

    let walker = walker.into_(&[-1, 0]).unwrap();
    assert_eq!(walker.index_s(), 7);
}

#[test]
fn test_next_prev_index() {
    let buf = grid();
    let walker = buf.walker_from([2, 1]).unwrap();
    assert_eq!(walker.index_s(), 5);

    assert_eq!(walker.next_index().unwrap(), 6);
    assert_eq!(walker.prev_index().unwrap(), 4);
}

#[test]
fn test_as_next_prev() {
    let buf = grid();
    let mut walker = buf.walker_from([2, 1]).unwrap();

    walker.as_next().unwrap();
    assert_eq!(walker.index_s(), 6);

    walker.as_prev().unwrap();
    assert_eq!(walker.index_s(), 5);
}

#[test]
fn test_into_next_prev() {
    let buf = grid();
    let walker = buf.walker_from([2, 1]).unwrap();

    let walker = walker.into_next().unwrap();
    assert_eq!(walker.index_s(), 6);

    let walker = walker.into_prev().unwrap();
    let walker = walker.into_prev().unwrap();
    assert_eq!(walker.index_s(), 4);
}

#[test]
fn test_boundary_step_failure() {
    let buf = grid();

    let first = buf.walker_from([0, 0]).unwrap();
    assert_eq!(first.prev_index().unwrap_err(), XdError::OutOfRange);

    let last = buf.walker_from([2, 2]).unwrap();
    assert_eq!(last.index_s(), 8);
    assert_eq!(last.next_index().unwrap_err(), XdError::OutOfRange);

    let mut first = first;
    assert_eq!(first.as_prev().unwrap_err(), XdError::OutOfRange);
    assert_eq!(first.index_s(), 0);
    let mut last = last;
    assert_eq!(last.as_next().unwrap_err(), XdError::OutOfRange);
    assert_eq!(last.index_s(), 8);
}

#[test]
fn test_scan() {
    let buf = grid();
    let walker = buf.walker_from([0, 0]).unwrap();
    assert_eq!(walker.index_s(), 0);
    assert_eq!(buf.get(walker.index_s()), Some(&1));

    let index = walker.index_until(|&x, _i| x == 5).unwrap();
    assert_eq!(index, 4);
}

#[test]
fn test_scan_no_match() {
    let buf = grid();
    let walker = buf.walker_from([0, 0]).unwrap();

    let r = walker.index_until(|&x, _i| x < 0);
    assert_eq!(r.unwrap_err(), XdError::NoMatch);
}

#[test]
fn test_scan_starts_at_current_offset() {
    let buf = grid();
    let walker = buf.walker_from([2, 1]).unwrap();

    // The element 2 sits before the cursor, so it is never seen.
    let r = walker.index_until(|&x, _i| x == 2);
    assert_eq!(r.unwrap_err(), XdError::NoMatch);

    // The predicate also receives the probed offset.
    let index = walker.index_until(|_x, i| i == 7).unwrap();
    assert_eq!(index, 7);
}

#[test]
fn test_as_until() {
    let buf = grid();
    let mut walker = buf.walker_from([0, 0]).unwrap();

    walker.as_until(|&x, _i| x == 5).unwrap();
    assert_eq!(walker.index_s(), 4);

    assert_eq!(walker.as_until(|&x, _i| x < 0).unwrap_err(), XdError::NoMatch);
    assert_eq!(walker.index_s(), 4);
}

#[test]
fn test_into_until() {
    let buf = grid();
    let walker = buf.walker_from([0, 0]).unwrap();

    let walker = walker.into_until(|&x, _i| x == 5).unwrap();
    assert_eq!(walker.index_s(), 4);
}

#[test]
fn test_step2d_constants() {
    let buf = grid();
    let walker = buf.walker_from([1, 1]).unwrap();

    assert_eq!(walker.index_(&step2d::RIGHT).unwrap(), 5);
    assert_eq!(walker.index_(&step2d::LEFT).unwrap(), 3);
    assert_eq!(walker.index_(&step2d::UP).unwrap(), 7);
    assert_eq!(walker.index_(&step2d::DOWN).unwrap(), 1);
    assert_eq!(walker.index_(&step2d::RIGHT_UP).unwrap(), 8);
    assert_eq!(walker.index_(&step2d::LEFT_DOWN).unwrap(), 0);
    assert_eq!(walker.index_(&step2d::NEXT).unwrap(), 5);
    assert_eq!(walker.index_(&step2d::PREV).unwrap(), 3);
}

#[test]
fn test_step3d_constants() {
    let buf = XDBuf::<i32, 3>::new([2, 2, 2], 0).unwrap();
    let walker = buf.walker_from([0, 0, 0]).unwrap();

    assert_eq!(walker.index_(&step3d::RIGHT).unwrap(), 1);
    assert_eq!(walker.index_(&step3d::FRONT).unwrap(), 2);
    assert_eq!(walker.index_(&step3d::TOP).unwrap(), 4);
    assert_eq!(walker.index_(&step3d::RIGHT_FRONT_TOP).unwrap(), 7);
    assert_eq!(walker.index_(&step3d::BACK).unwrap_err(), XdError::OutOfRange);
}
