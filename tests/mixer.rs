use auteur_mixer::control::{ControlError, ControlPoint, Interpolation, Update};
use auteur_mixer::mixer::{MediaKind, Mixer, MixerError, PadProperty, TransitionAction};
use auteur_mixer::schedule::State;
use auteur_mixer::setting::SettingError;
use auteur_mixer::value::{Value, ValueKind};

const MS: i64 = 1_000_000;

fn prop(name: &str, kind: ValueKind) -> PadProperty {
    PadProperty { name: name.to_string(), kind }
}

fn mixer(config: Option<Vec<(String, Value)>>) -> Mixer {
    Mixer::new(
        "mixer",
        config,
        vec![prop("alpha", ValueKind::Double), prop("xpos", ValueKind::Int), prop("width", ValueKind::Int)],
        vec![prop("volume", ValueKind::Double), prop("mute", ValueKind::Bool)],
    )
    .unwrap()
}

fn point(id: &str, time: i64, value: Value, interpolation: Interpolation) -> ControlPoint {
    ControlPoint { id: id.to_string(), time, value, interpolation }
}

fn dbl(x: f64) -> Value {
    Value::Double(x.to_bits())
}

fn started(config: Option<Vec<(String, Value)>>) -> Mixer {
    let mut m = mixer(config);
    m.start_pipeline().unwrap();
    m
}

#[test]
fn parse_slot_keys() {
    assert_eq!(
        Mixer::parse_slot_config_key("video::alpha"),
        Ok((MediaKind::Video, "alpha".to_string()))
    );
    assert_eq!(
        Mixer::parse_slot_config_key("audio::a::b"),
        Ok((MediaKind::Audio, "a::b".to_string()))
    );
    assert_eq!(Mixer::parse_slot_config_key("alpha"), Err(MixerError::MalformedKey));
    assert_eq!(Mixer::parse_slot_config_key("text::x"), Err(MixerError::UnknownMedia));
}

#[test]
fn connect_validates_config() {
    let mut m = mixer(None);
    let (writes, attach) = m
        .connect("a", Some(vec![("video::alpha".to_string(), dbl(0.5)), ("audio::mute".to_string(), Value::Bool(true))]))
        .unwrap();
    assert!(!attach);
    assert_eq!(writes.len(), 2);
    assert_eq!(writes[0].media, MediaKind::Video);
    assert_eq!(writes[0].property, "alpha");
    assert_eq!(writes[0].value, dbl(0.5));
    assert_eq!(writes[1].media, MediaKind::Audio);
    assert_eq!(m.connect("a", None).err(), Some(MixerError::DuplicateSlot));
    let bad = |key: &str, v: Value| Some(vec![(key.to_string(), v)]);
    assert_eq!(m.connect("b", bad("alpha", dbl(1.0))).err(), Some(MixerError::MalformedKey));
    assert_eq!(m.connect("b", bad("text::alpha", dbl(1.0))).err(), Some(MixerError::UnknownMedia));
    assert_eq!(m.connect("b", bad("video::nope", dbl(1.0))).err(), Some(MixerError::UnknownProperty));
    assert_eq!(m.connect("b", bad("video::alpha", Value::Int(1))).err(), Some(MixerError::TypeMismatch));
    assert_eq!(m.node_info().slots, vec!["a".to_string()]);
}

#[test]
fn connect_while_started_attaches_at_once() {
    let mut m = started(None);
    m.state_machine.transition(State::Starting).unwrap();
    m.state_machine.transition(State::Started).unwrap();
    let (_, attach) = m.connect("a", None).unwrap();
    assert!(attach);
    assert!(m.consumer_slots[0].live);
}

#[test]
fn disconnect_while_running() {
    let mut m = started(None);
    for id in ["a", "b", "c"] {
        m.connect(id, None).unwrap();
    }
    m.add_slot_control_point("b", "video::alpha", point("p", 10 * MS, dbl(1.0), Interpolation::Step), dbl(0.0))
        .unwrap();
    assert_eq!(m.disconnect("b"), Ok(()));
    assert_eq!(m.disconnect("b"), Err(MixerError::UnknownSlot));
    let info = m.node_info();
    assert_eq!(info.slots, vec!["a".to_string(), "c".to_string()]);
    assert!(info.slot_control_points.is_empty());
    let tick = m.update_video_mixing_state(0, 0, true);
    assert!(tick.slot_updates.is_empty());
}

#[test]
fn slot_control_point_errors() {
    let mut m = mixer(None);
    m.connect("a", None).unwrap();
    let p = || point("p", 10, dbl(1.0), Interpolation::Step);
    assert_eq!(m.add_slot_control_point("z", "video::alpha", p(), dbl(0.0)), Err(MixerError::UnknownSlot));
    assert_eq!(m.add_slot_control_point("a", "alpha", p(), dbl(0.0)), Err(MixerError::MalformedKey));
    assert_eq!(m.add_slot_control_point("a", "x::alpha", p(), dbl(0.0)), Err(MixerError::UnknownMedia));
    assert_eq!(m.add_slot_control_point("a", "video::zz", p(), dbl(0.0)), Err(MixerError::UnknownProperty));
    assert_eq!(m.add_slot_control_point("a", "video::xpos", p(), Value::Int(0)), Err(MixerError::TypeMismatch));
    assert_eq!(m.add_slot_control_point("a", "video::alpha", p(), dbl(0.0)), Ok(()));
    assert_eq!(
        m.add_slot_control_point("a", "video::alpha", point("q", 5, dbl(1.0), Interpolation::Step), dbl(0.0)),
        Err(MixerError::Control(ControlError::OutOfOrder))
    );
}

#[test]
fn slot_control_points_round_trip() {
    let mut m = mixer(None);
    m.connect("a", None).unwrap();
    m.add_slot_control_point("a", "video::alpha", point("alpha-up", 10, dbl(1.0), Interpolation::Step), dbl(0.0))
        .unwrap();
    m.add_slot_control_point("a", "audio::volume", point("volume-down", 10, dbl(0.5), Interpolation::Linear), dbl(1.0))
        .unwrap();
    m.add_slot_control_point("a", "video::alpha", point("alpha-down", 20, dbl(0.0), Interpolation::Linear), dbl(0.0))
        .unwrap();
    let info = m.node_info();
    assert_eq!(info.slot_control_points.len(), 2);
    let (slot, key, pts) = &info.slot_control_points[0];
    assert_eq!((slot.as_str(), key.as_str()), ("a", "video::alpha"));
    assert_eq!(pts.iter().map(|p| p.id.as_str()).collect::<Vec<_>>(), vec!["alpha-up", "alpha-down"]);
    assert_eq!(info.slot_control_points[1].1, "audio::volume");

    // a key without a media part is ignored
    m.remove_slot_control_point("alpha-up", "a", "alpha");
    assert_eq!(m.node_info().slot_control_points[0].2.len(), 2);
    m.remove_slot_control_point("alpha-up", "a", "video::alpha");
    let info = m.node_info();
    assert_eq!(info.slot_control_points[0].2.iter().map(|p| p.id.as_str()).collect::<Vec<_>>(), vec!["alpha-down"]);
    m.remove_slot_control_point("volume-down", "a", "audio::volume");
    assert!(m.node_info().slot_control_points[1].2.is_empty());
}

#[test]
fn mixer_control_point_errors() {
    let mut m = mixer(None);
    let p = |v: Value| point("p", 10, v, Interpolation::Step);
    assert_eq!(m.add_control_point("nope", p(Value::Int(1))), Err(MixerError::UnknownSetting));
    assert_eq!(m.add_control_point("sample-rate", p(Value::Int(1))), Err(MixerError::NotControllable));
    assert_eq!(
        m.add_control_point("width", p(Value::Int(0))),
        Err(MixerError::InvalidValue(SettingError::OutOfRange))
    );
    assert_eq!(
        m.add_control_point("width", p(Value::Str("x".to_string()))),
        Err(MixerError::InvalidValue(SettingError::TypeMismatch))
    );
    assert_eq!(m.add_control_point("width", p(Value::Int(640))), Ok(()));
    assert_eq!(
        m.add_control_point("width", point("q", 9, Value::Int(640), Interpolation::Step)),
        Err(MixerError::Control(ControlError::OutOfOrder))
    );
}

#[test]
fn mixer_control_points_round_trip() {
    let mut m = mixer(None);
    m.add_control_point("width", point("w1", 10, Value::Int(640), Interpolation::Step)).unwrap();
    m.add_control_point("height", point("h1", 10, Value::Int(480), Interpolation::Step)).unwrap();
    m.add_control_point("width", point("w2", 20, Value::Int(800), Interpolation::Linear)).unwrap();
    let info = m.node_info();
    assert_eq!(info.control_points.len(), 2);
    assert_eq!(info.control_points[0].0, "width");
    assert_eq!(info.control_points[0].1.iter().map(|p| p.id.as_str()).collect::<Vec<_>>(), vec!["w1", "w2"]);
    m.remove_control_point("w1", "width");
    m.remove_control_point("h1", "nope");
    let info = m.node_info();
    assert_eq!(info.control_points[0].1.iter().map(|p| p.id.as_str()).collect::<Vec<_>>(), vec!["w2"]);
    assert_eq!(info.control_points[1].1.len(), 1);
}

#[test]
fn empty_mixer_falls_back_to_base_plate() {
    let mut m = started(Some(vec![("fallback-timeout".to_string(), Value::Int(200))]));
    assert_eq!(m.video_mixing_state.fallback_timeout, 200_000_000);
    assert_eq!(m.update_video_mixing_state(0, 0, false).show_base_plate, None);
    assert_eq!(m.update_video_mixing_state(100_000_000, 0, false).show_base_plate, None);
    assert_eq!(m.update_video_mixing_state(200_000_000, 0, false).show_base_plate, None);
    assert_eq!(m.update_video_mixing_state(233_000_000, 0, false).show_base_plate, Some(true));
    assert!(m.video_mixing_state.showing_base_plate);
    assert_eq!(m.update_video_mixing_state(266_000_000, 0, false).show_base_plate, None);
}

#[test]
fn single_input_keeps_base_plate_hidden() {
    let mut m = started(None);
    m.connect("red", None).unwrap();
    for i in 0..40u64 {
        let tick = m.update_video_mixing_state(i * 33_000_000, 0, true);
        assert_eq!(tick.show_base_plate, None);
    }
    assert!(!m.video_mixing_state.showing_base_plate);
}

#[test]
fn base_plate_hides_when_input_returns() {
    let mut m = started(Some(vec![("fallback-timeout".to_string(), Value::Int(0))]));
    m.update_video_mixing_state(0, 0, false);
    assert_eq!(m.update_video_mixing_state(1, 0, false).show_base_plate, Some(true));
    assert_eq!(m.update_video_mixing_state(2, 0, true).show_base_plate, Some(false));
    assert_eq!(m.video_mixing_state.base_plate_timeout, None);
    assert_eq!(m.update_video_mixing_state(3, 0, true).show_base_plate, None);
}

#[test]
fn last_pts_never_goes_back() {
    let mut m = started(None);
    m.update_video_mixing_state(500, 0, true);
    m.update_video_mixing_state(300, 0, true);
    assert_eq!(m.video_mixing_state.last_pts, Some(500));
    m.update_audio_mixing_state(700, 0);
    m.update_audio_mixing_state(10, 0);
    assert_eq!(m.audio_mixing_state.last_pts, Some(700));
}

#[test]
fn volume_ramp() {
    let mut m = started(None);
    m.connect("A", None).unwrap();
    m.connect("B", None).unwrap();
    let t = 1_000 * MS;
    m.add_slot_control_point("A", "audio::volume", point("v0", t, dbl(1.0), Interpolation::Step), dbl(1.0))
        .unwrap();
    m.add_slot_control_point("A", "audio::volume", point("v1", t + 1_000 * MS, dbl(0.0), Interpolation::Linear), dbl(1.0))
        .unwrap();
    let ups = m.update_audio_mixing_state(0, t);
    assert_eq!(ups.len(), 1);
    assert_eq!(ups[0].update, Update::Assign(dbl(1.0)));
    let ups = m.update_audio_mixing_state(500_000_000, t + 500 * MS);
    assert_eq!(ups.len(), 1);
    assert_eq!(ups[0].slot_id, "A");
    assert_eq!(ups[0].property, "volume");
    match &ups[0].update {
        Update::Blend { from: Value::Double(f), to: Value::Double(to), elapsed, span } => {
            let (f, to) = (f64::from_bits(*f), f64::from_bits(*to));
            let v = f + (to - f) * (*elapsed as f64 / *span as f64);
            assert!(v >= 0.45 && v <= 0.55);
        }
        other => panic!("unexpected {:?}", other),
    }
}

#[test]
fn resize_on_the_fly() {
    let mut m = started(None);
    let t = 5_000 * MS;
    m.add_control_point("width", point("w", t + 500 * MS, Value::Int(1280), Interpolation::Linear)).unwrap();
    let tick = m.update_video_mixing_state(0, t, false);
    assert_eq!(tick.width, Some(1920));
    let tick = m.update_video_mixing_state(250_000_000, t + 250 * MS, false);
    assert_eq!(tick.width, Some(1600));
    assert_eq!(tick.height, None);
    let tick = m.update_video_mixing_state(500_000_000, t + 500 * MS, false);
    assert_eq!(tick.width, Some(1280));
    assert_eq!(m.settings[0].as_i32(), Some(1280));
    assert!(m.video_mixing_state.mixer_controllers.is_empty());
    let tick = m.update_video_mixing_state(533_000_000, t + 533 * MS, false);
    assert_eq!(tick.width, None);
}

#[test]
fn resize_before_start_changes_setting_only() {
    let mut m = mixer(None);
    m.add_control_point("height", point("h", 0, Value::Int(720), Interpolation::Step)).unwrap();
    let tick = m.update_video_mixing_state(0, 10, true);
    assert_eq!(tick.height, None);
    assert_eq!(m.settings[1].as_i32(), Some(720));
}

#[test]
fn start_plan_reads_settings() {
    let mut m = mixer(Some(vec![
        ("sample-rate".to_string(), Value::Int(44100)),
        ("fallback-image".to_string(), Value::Str("plate.png".to_string())),
    ]));
    m.connect("a", None).unwrap();
    m.connect("b", None).unwrap();
    let plan = m.start_pipeline().unwrap();
    assert_eq!((plan.width, plan.height, plan.sample_rate), (1920, 1080, 44100));
    assert_eq!(plan.fallback_image, "plate.png");
    assert_eq!(plan.slots, vec!["a".to_string(), "b".to_string()]);
    assert!(m.video_mixing_state.output_ready);
    assert_eq!(m.video_mixing_state.fallback_timeout, 500_000_000);
    assert!(m.consumer_slots.iter().all(|s| s.live));
}

#[test]
fn transitions_and_shutdown() {
    let mut m = mixer(None);
    assert_eq!(m.transition(State::Starting), TransitionAction::StartPipeline);
    assert_eq!(m.transition(State::Stopped), TransitionAction::Shutdown);
    assert_eq!(m.transition(State::Started), TransitionAction::Done);
    assert_eq!(m.transition(State::Initial), TransitionAction::Skip);
    m.connect("a", None).unwrap();
    m.connect("b", None).unwrap();
    assert_eq!(m.drain_slots(), vec!["a".to_string(), "b".to_string()]);
    assert!(m.node_info().slots.is_empty());
}

#[test]
fn node_info_settings_snapshot() {
    let m = mixer(None);
    let info = m.node_info();
    assert_eq!(info.state, State::Initial);
    assert_eq!(info.cue_time, None);
    assert_eq!(info.settings[0], ("width".to_string(), Value::Int(1920)));
    assert_eq!(info.settings[3], ("fallback-image".to_string(), Value::Str(String::new())));
}
