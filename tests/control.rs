use auteur_mixer::control::{ControlError, ControlPoint, Controller, Interpolation, Update};
use auteur_mixer::value::{blend_int, Value};

fn point(id: &str, time: i64, value: Value, interpolation: Interpolation) -> ControlPoint {
    ControlPoint { id: id.to_string(), time, value, interpolation }
}

fn ids(c: &Controller) -> Vec<String> {
    c.control_points().into_iter().map(|p| p.id).collect()
}

#[test]
fn remove_drops_every_point_of_the_id() {
    let mut c = Controller::new(Value::Int(0));
    c.push_control_point(point("a", 1, Value::Int(1), Interpolation::Step)).unwrap();
    c.push_control_point(point("b", 2, Value::Int(2), Interpolation::Step)).unwrap();
    c.push_control_point(point("a", 3, Value::Int(3), Interpolation::Step)).unwrap();
    c.remove_control_point("a");
    assert_eq!(ids(&c), vec!["b".to_string()]);
    c.remove_control_point("missing");
    assert_eq!(ids(&c), vec!["b".to_string()]);
}

#[test]
fn push_refuses_bad_points() {
    let mut c = Controller::new(Value::Int(0));
    assert_eq!(
        c.push_control_point(point("a", 10, Value::Bool(true), Interpolation::Step)),
        Err(ControlError::TypeMismatch)
    );
    c.push_control_point(point("a", 10, Value::Int(1), Interpolation::Step)).unwrap();
    assert_eq!(
        c.push_control_point(point("b", 9, Value::Int(1), Interpolation::Step)),
        Err(ControlError::OutOfOrder)
    );
    assert_eq!(c.push_control_point(point("c", 10, Value::Int(2), Interpolation::Step)), Ok(()));
    assert_eq!(ids(&c), vec!["a".to_string(), "c".to_string()]);
}

#[test]
fn step_point_applies_at_its_time() {
    let mut c = Controller::new(Value::Int(0));
    c.push_control_point(point("a", 100, Value::Int(5), Interpolation::Step)).unwrap();
    assert_eq!(c.synchronize(50, true), (false, None));
    assert_eq!(c.synchronize(100, true), (true, Some(Update::Assign(Value::Int(5)))));
    assert_eq!(c.value, Value::Int(5));
}

#[test]
fn several_due_points_set_the_last() {
    let mut c = Controller::new(Value::Int(0));
    c.push_control_point(point("a", 10, Value::Int(1), Interpolation::Step)).unwrap();
    c.push_control_point(point("b", 20, Value::Int(2), Interpolation::Linear)).unwrap();
    c.push_control_point(point("c", 90, Value::Int(3), Interpolation::Step)).unwrap();
    assert_eq!(c.synchronize(25, false), (false, Some(Update::Assign(Value::Int(2)))));
    assert_eq!(ids(&c), vec!["c".to_string()]);
}

#[test]
fn linear_point_is_approached_along_a_line() {
    let mut c = Controller::new(Value::Int(0));
    c.push_control_point(point("a", 1000, Value::Int(100), Interpolation::Linear)).unwrap();
    // the approach starts on the first tick
    assert_eq!(c.synchronize(0, true), (false, None));
    let (done, u) = c.synchronize(250, true);
    assert!(!done);
    assert_eq!(
        u,
        Some(Update::Blend { from: Value::Int(0), to: Value::Int(100), elapsed: 250, span: 1000 })
    );
    assert_eq!(blend_int(0, 100, 250, 1000), 25);
    // no media time passed: nothing to do
    assert_eq!(c.synchronize(500, false), (false, None));
    assert_eq!(c.synchronize(1000, true), (true, Some(Update::Assign(Value::Int(100)))));
}

#[test]
fn alpha_ramp_halfway() {
    let mut c = Controller::new(Value::Double(0.0f64.to_bits()));
    c.push_control_point(point("a", 2_000, Value::Double(1.0f64.to_bits()), Interpolation::Linear))
        .unwrap();
    c.synchronize(1_000, false);
    match c.synchronize(1_500, true) {
        (false, Some(Update::Blend { from: Value::Double(f), to: Value::Double(t), elapsed, span })) => {
            let (f, t) = (f64::from_bits(f), f64::from_bits(t));
            let v = f + (t - f) * (elapsed as f64 / span as f64);
            assert!((v - 0.5).abs() < 1e-9);
        }
        other => panic!("unexpected {:?}", other),
    }
}

#[test]
fn removing_the_target_point_stops_the_ramp() {
    let mut c = Controller::new(Value::Int(0));
    c.push_control_point(point("a", 1000, Value::Int(100), Interpolation::Linear)).unwrap();
    c.synchronize(0, true);
    assert!(c.ramp.is_some());
    c.remove_control_point("a");
    assert!(c.ramp.is_none());
    assert_eq!(c.synchronize(10, true), (true, None));
}
