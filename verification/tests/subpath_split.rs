//! Splitting subpaths at parametric positions.

use graph_craft::bezier::{ManipulatorGroup, Point};
use graph_craft::num::{rat_int, rat_new, Rat};
use graph_craft::subpath::{ComputeType, Subpath};

fn pt(x: i64, y: i64) -> Point {
    Point { x: rat_int(x), y: rat_int(y) }
}

fn rat(n: i64, d: i64) -> Rat {
    rat_new(n, d).unwrap()
}

fn set_up_open_subpath() -> Subpath {
    let start = pt(20, 30);
    let middle1 = pt(80, 90);
    let middle2 = pt(100, 100);
    let end = pt(60, 45);

    let handle1 = pt(75, 85);
    let handle2 = pt(40, 30);
    let handle3 = pt(10, 10);

    Subpath::new(
        vec![
            ManipulatorGroup {
                anchor: start,
                in_handle: None,
                out_handle: Some(handle1),
            },
            ManipulatorGroup {
                anchor: middle1,
                in_handle: None,
                out_handle: Some(handle2),
            },
            ManipulatorGroup {
                anchor: middle2,
                in_handle: None,
                out_handle: None,
            },
            ManipulatorGroup {
                anchor: end,
                in_handle: None,
                out_handle: Some(handle3),
            },
        ],
        false,
    )
}

fn set_up_closed_subpath() -> Subpath {
    let mut subpath = set_up_open_subpath();
    subpath.closed = true;
    subpath
}

#[test]
fn split_an_open_subpath() {
    let subpath = set_up_open_subpath();
    let location = subpath.evaluate(ComputeType::Parametric(rat(1, 5)));
    // 0.2 of three segments lands at 0.6 of the first curve.
    let split_pair = subpath.curves()[0].split(rat(3, 5));
    let (first, second) = subpath.split(ComputeType::Parametric(rat(1, 5)));
    assert!(second.is_some());
    let second = second.unwrap();
    assert_eq!(first.manipulator_groups[1].anchor, location);
    assert_eq!(second.manipulator_groups[0].anchor, location);
    assert_eq!(split_pair.0, *first.curves().last().unwrap());
    assert_eq!(split_pair.1, second.curves()[0]);
}

#[test]
fn split_at_start_of_an_open_subpath() {
    let subpath = set_up_open_subpath();
    let location = subpath.evaluate(ComputeType::Parametric(rat(0, 1)));
    let split_pair = subpath.curves()[0].split(rat(0, 1));
    let (first, second) = subpath.split(ComputeType::Parametric(rat(0, 1)));
    assert!(second.is_some());
    let second = second.unwrap();
    assert_eq!(
        first.manipulator_groups[0],
        ManipulatorGroup {
            anchor: location,
            in_handle: None,
            out_handle: None
        }
    );
    assert_eq!(first.manipulator_groups.len(), 1);
    assert_eq!(second.manipulator_groups[0].anchor, location);
    assert_eq!(split_pair.1, second.curves()[0]);
}

#[test]
fn split_at_end_of_an_open_subpath() {
    let subpath = set_up_open_subpath();
    let location = subpath.evaluate(ComputeType::Parametric(rat(1, 1)));
    let split_pair = subpath.curves().last().unwrap().split(rat(1, 1));
    let (first, second) = subpath.split(ComputeType::Parametric(rat(1, 1)));
    assert!(second.is_some());
    let second = second.unwrap();
    assert_eq!(first.manipulator_groups[3].anchor, location);
    assert_eq!(split_pair.0, *first.curves().last().unwrap());
    assert_eq!(
        second.manipulator_groups[0],
        ManipulatorGroup {
            anchor: location,
            in_handle: None,
            out_handle: None
        }
    );
    assert_eq!(second.manipulator_groups.len(), 1);
}

#[test]
fn split_a_closed_subpath() {
    let subpath = set_up_closed_subpath();
    let location = subpath.evaluate(ComputeType::Parametric(rat(1, 5)));
    // 0.2 of four segments lands at 0.8 of the first curve.
    let split_pair = subpath.curves()[0].split(rat(4, 5));
    let (first, second) = subpath.split(ComputeType::Parametric(rat(1, 5)));
    assert!(second.is_none());
    assert_eq!(first.manipulator_groups[0].anchor, location);
    assert_eq!(first.manipulator_groups[5].anchor, location);
    assert_eq!(first.manipulator_groups.len(), 6);
    assert_eq!(split_pair.0, *first.curves().last().unwrap());
    assert_eq!(split_pair.1, first.curves()[0]);
}

#[test]
fn split_at_start_of_a_closed_subpath() {
    let subpath = set_up_closed_subpath();
    let location = subpath.evaluate(ComputeType::Parametric(rat(0, 1)));
    let (first, second) = subpath.split(ComputeType::Parametric(rat(0, 1)));
    assert!(second.is_none());
    assert_eq!(first.manipulator_groups[0].anchor, location);
    assert_eq!(first.manipulator_groups[4].anchor, location);
    assert_eq!(subpath.manipulator_groups[0..], first.manipulator_groups[..4]);
    assert!(!first.closed);
    assert_eq!(
        *first.curves().last().unwrap(),
        *subpath.curves().last().unwrap()
    );
    assert_eq!(first.curves()[0], subpath.curves()[0]);
}

#[test]
fn split_at_end_of_a_closed_subpath() {
    let subpath = set_up_closed_subpath();
    let location = subpath.evaluate(ComputeType::Parametric(rat(1, 1)));
    let (first, second) = subpath.split(ComputeType::Parametric(rat(1, 1)));
    assert!(second.is_none());
    assert_eq!(first.manipulator_groups[0].anchor, location);
    assert_eq!(first.manipulator_groups[4].anchor, location);
    assert_eq!(subpath.manipulator_groups[0..], first.manipulator_groups[..4]);
    assert!(!first.closed);
    assert_eq!(
        *first.curves().last().unwrap(),
        *subpath.curves().last().unwrap()
    );
    assert_eq!(first.curves()[0], subpath.curves()[0]);
}

#[test]
fn rational_arithmetic_is_exact_and_canonical() {
    let half = rat(2, 4);
    assert_eq!((half.n, half.d), (1, 2));
    let a = rat(1, 3);
    let b = rat(1, 6);
    let sum = graph_craft::num::rat_add(a, b).unwrap();
    assert_eq!((sum.n, sum.d), (1, 2));
    let prod = graph_craft::num::rat_mul(rat(2, 3), rat(3, 4)).unwrap();
    assert_eq!((prod.n, prod.d), (1, 2));
    assert!(rat_new(1, 0).is_none());
    let q = graph_craft::num::rat_div(rat(1, 2), rat(-1, 4)).unwrap();
    assert_eq!((q.n, q.d), (-2, 1));
}
