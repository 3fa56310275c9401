use radar_filter::clock::Timestamp;
use radar_filter::geometry::RadarReturn;
use radar_filter::geometry::Vec3D;
use radar_filter::scalar::Scalar;
use radar_filter::track::Target;
use radar_filter::track::TargetInfo;
use radar_filter::track::Tolerance;
use radar_filter::track::HISTORY_LIMIT;

fn scalar(x: f64) -> Scalar {
    Scalar::from_bits(x.to_bits())
}

fn point(x: f64, y: f64, z: f64) -> RadarReturn {
    RadarReturn { x: scalar(x), y: scalar(y), z: scalar(z) }
}

fn vector(x: f64, y: f64, z: f64) -> Vec3D {
    Vec3D { x: scalar(x), y: scalar(y), z: scalar(z) }
}

fn at(secs: i64) -> Timestamp {
    Timestamp { secs, nanos: 0 }
}

fn tolerance(distance: f64, log4: f64) -> Tolerance {
    Tolerance { distance: scalar(distance), log4: scalar(log4) }
}

#[test]
fn the_limit_is_ten() {
    assert_eq!(HISTORY_LIMIT, 10);
}

#[test]
fn vector_of_a_return_keeps_each_coordinate() {
    let v = Vec3D::from(&point(1.0, -2.0, 3.5));
    assert_eq!(v, vector(1.0, -2.0, 3.5));
    assert_ne!(v, vector(-2.0, 1.0, 3.5));
}

#[test]
fn a_started_track_holds_one_observation() {
    let track = TargetInfo::starting_at(&point(1.0, 2.0, 3.0), Timestamp { secs: 77, nanos: 5 });
    assert_eq!(track.detected(), Timestamp { secs: 77, nanos: 5 });
    assert_eq!(track.positions().len(), 1);
    assert_eq!(track.positions()[0], (vector(1.0, 2.0, 3.0), Timestamp { secs: 77, nanos: 5 }));
}

#[test]
fn record_appends_in_order() {
    let mut track = TargetInfo::starting_at(&point(0.0, 0.0, 0.0), at(0));
    track.record(vector(1.0, 0.0, 0.0), at(1));
    track.record(vector(2.0, 0.0, 0.0), at(2));
    let expected = vec![
        (vector(0.0, 0.0, 0.0), at(0)),
        (vector(1.0, 0.0, 0.0), at(1)),
        (vector(2.0, 0.0, 0.0), at(2)),
    ];
    assert_eq!(track.positions(), &expected);
    assert_eq!(track.detected(), at(0));
}

#[test]
fn history_fills_up_to_the_limit() {
    let mut track = TargetInfo::starting_at(&point(0.0, 0.0, 0.0), at(0));
    for i in 1..10 {
        track.record(vector(i as f64, 0.0, 0.0), at(i));
        assert_eq!(track.positions().len(), i as usize + 1);
    }
    assert_eq!(track.positions().len(), 10);
    assert_eq!(track.positions()[0], (vector(0.0, 0.0, 0.0), at(0)));
    assert_eq!(track.positions()[9], (vector(9.0, 0.0, 0.0), at(9)));
}

#[test]
fn the_eleventh_observation_evicts_the_first() {
    let mut track = TargetInfo::starting_at(&point(0.0, 0.0, 0.0), at(0));
    for i in 1..=10 {
        track.record(vector(i as f64, 0.0, 0.0), at(i));
    }
    assert_eq!(track.positions().len(), 10);
    for k in 0..10 {
        let i = k as i64 + 1;
        assert_eq!(track.positions()[k], (vector(i as f64, 0.0, 0.0), at(i)));
    }
}

#[test]
fn history_holds_the_latest_ten_of_many() {
    let mut track = TargetInfo::starting_at(&point(0.0, 0.0, 0.0), at(0));
    for i in 1..=37 {
        track.record(vector(0.0, i as f64, 0.0), at(i));
        assert!(track.positions().len() <= 10);
    }
    assert_eq!(track.positions().len(), 10);
    for k in 0..10 {
        let i = k as i64 + 28;
        assert_eq!(track.positions()[k], (vector(0.0, i as f64, 0.0), at(i)));
    }
    assert_eq!(track.detected(), at(0));
}

#[test]
fn check_or_add_at_takes_what_is_within_tolerance() {
    let mut track = TargetInfo::starting_at(&point(0.0, 0.0, 0.0), at(0));
    let taken = track.check_or_add_at(&point(1.0, 1.0, 0.0), &tolerance(16.0, 2.0), &scalar(1.4142135623730951), at(9));
    assert!(taken);
    let expected = vec![(vector(0.0, 0.0, 0.0), at(0)), (vector(1.0, 1.0, 0.0), at(9))];
    assert_eq!(track.positions(), &expected);
}

#[test]
fn check_or_add_at_leaves_what_is_beyond_tolerance() {
    let mut track = TargetInfo::starting_at(&point(0.0, 0.0, 0.0), at(0));
    let taken = track.check_or_add_at(&point(3.0, 0.0, 0.0), &tolerance(16.0, 2.0), &scalar(3.0), at(9));
    assert!(!taken);
    let expected = vec![(vector(0.0, 0.0, 0.0), at(0))];
    assert_eq!(track.positions(), &expected);
}

#[test]
fn the_tolerance_includes_its_boundary() {
    let d = tolerance(16.0, 2.0);
    assert!(d.accepts(&scalar(2.0)));
    assert!(d.accepts(&scalar(1.9999999999999998)));
    assert!(!d.accepts(&scalar(2.0000000000000004)));
    assert!(d.accepts(&scalar(0.0)));
}

#[test]
fn a_range_of_one_admits_only_the_same_place() {
    let d = tolerance(1.0, 0.0);
    assert!(d.accepts(&scalar(0.0)));
    assert!(d.accepts(&scalar(-0.0)));
    assert!(!d.accepts(&scalar(5e-324)));
}

#[test]
fn a_range_below_one_admits_no_distance() {
    let d = tolerance(0.25, -1.0);
    assert!(!d.accepts(&scalar(0.0)));
    assert!(!d.accepts(&scalar(0.5)));
}

#[test]
fn a_range_that_is_not_positive_admits_nothing() {
    for distance in [0.0, -0.0, -1.0, -16.0, f64::NEG_INFINITY, f64::NAN] {
        for log4 in [2.0, 0.0, f64::INFINITY, f64::NEG_INFINITY, f64::NAN, -3.0] {
            for gap in [0.0, 1.0, -1.0, f64::NEG_INFINITY, f64::NAN] {
                assert!(!tolerance(distance, log4).accepts(&scalar(gap)), "{distance} {log4} {gap}");
            }
        }
    }
}

#[test]
fn a_distance_that_is_no_number_is_never_admitted() {
    assert!(!tolerance(16.0, 2.0).accepts(&scalar(f64::NAN)));
    assert!(!tolerance(16.0, f64::NAN).accepts(&scalar(1.0)));
    assert!(tolerance(f64::INFINITY, f64::INFINITY).accepts(&scalar(1e300)));
}

#[test]
fn check_or_add_stamps_with_the_clock() {
    let mut track = TargetInfo::starting_at(&point(0.0, 0.0, 0.0), at(0));
    assert!(track.check_or_add(&point(1.0, 0.0, 0.0), &tolerance(16.0, 2.0), &scalar(1.0)));
    assert_eq!(track.positions().len(), 2);
    let (place, stamp) = track.positions()[1];
    assert_eq!(place, vector(1.0, 0.0, 0.0));
    assert!(stamp.secs > 1_600_000_000);
    assert!(stamp.nanos < 2_000_000_000);
    assert!(!track.check_or_add(&point(9.0, 0.0, 0.0), &tolerance(16.0, 2.0), &scalar(9.0)));
    assert_eq!(track.positions().len(), 2);
}

#[test]
fn the_published_target_stands_at_the_oldest_position() {
    let mut track = TargetInfo::starting_at(&point(4.0, 5.0, 6.0), at(0));
    track.record(vector(7.0, 8.0, 9.0), at(1));
    let target = Target::from(&track);
    assert_eq!(target, Target { friendly: false, id: 0, pos: vector(4.0, 5.0, 6.0) });
}

#[test]
fn the_published_target_moves_once_the_oldest_is_evicted() {
    let mut track = TargetInfo::starting_at(&point(0.0, 0.0, 0.0), at(0));
    for i in 1..=10 {
        track.record(vector(i as f64, 0.0, 0.0), at(i));
    }
    assert_eq!(Target::from(&track).pos, vector(1.0, 0.0, 0.0));
}

#[test]
fn a_track_started_now_is_stamped_with_the_clock() {
    let track = TargetInfo::from(&point(1.0, 2.0, 3.0));
    assert_eq!(track.positions().len(), 1);
    assert_eq!(track.positions()[0].0, vector(1.0, 2.0, 3.0));
    assert_eq!(track.positions()[0].1, track.detected());
    assert!(track.detected().secs > 1_600_000_000);
    assert!(track.detected().nanos < 2_000_000_000);
}
