use auteur_mixer::mixer::{Mixer, MixerError};
use auteur_mixer::setting::{Setting, SettingError, SettingSpec};
use auteur_mixer::value::{blend_int, Value, ValueKind};

fn int_setting(min: i32, max: i32, current: i32) -> Setting {
    Setting {
        name: "n".to_string(),
        spec: SettingSpec::I32 { min, max, current },
        controllable: true,
    }
}

#[test]
fn blend_quarter_way() {
    assert_eq!(blend_int(0, 100, 1, 4), 25);
    assert_eq!(blend_int(1920, 1280, 250_000_000, 500_000_000), 1600);
}

#[test]
fn blend_ends_and_rounding() {
    assert_eq!(blend_int(7, 9, 0, 10), 7);
    assert_eq!(blend_int(7, 9, 10, 10), 9);
    // 4.5 and -4.5 round toward zero
    assert_eq!(blend_int(5, 4, 1, 2), 4);
    assert_eq!(blend_int(-5, -4, 1, 2), -4);
}

#[test]
fn blend_extreme_values_do_not_overflow() {
    let m = u64::MAX;
    assert_eq!(blend_int(i64::MIN, i64::MAX, m - 1, m), 9223372036854775806);
    assert_eq!(blend_int(i64::MIN, i64::MAX, 1, m), -9223372036854775807);
}

#[test]
fn value_kinds() {
    assert_eq!(Value::Int(3).value_kind(), ValueKind::Int);
    assert_eq!(Value::Double(1.5f64.to_bits()).value_kind(), ValueKind::Double);
    assert_eq!(Value::Str("x".to_string()).value_kind(), ValueKind::Str);
    assert!(Value::Int(0).numeric());
    assert!(!Value::Bool(true).numeric());
    assert_eq!(Value::Str("x".to_string()).duplicate(), Value::Str("x".to_string()));
}

#[test]
fn setting_validation() {
    let s = int_setting(1, 10, 5);
    assert_eq!(s.validate_value(&Value::Int(1)), Ok(()));
    assert_eq!(s.validate_value(&Value::Int(10)), Ok(()));
    assert_eq!(s.validate_value(&Value::Int(0)), Err(SettingError::OutOfRange));
    assert_eq!(s.validate_value(&Value::Int(11)), Err(SettingError::OutOfRange));
    assert_eq!(s.validate_value(&Value::Bool(true)), Err(SettingError::TypeMismatch));
}

#[test]
fn setting_update_stays_in_range() {
    let mut s = int_setting(1, 10, 5);
    s.set_from_value(&Value::Int(9));
    assert_eq!(s.as_i32(), Some(9));
    assert_eq!(s.as_value(), Value::Int(9));
    assert_eq!(s.as_str(), None);
    let mut t = Setting {
        name: "t".to_string(),
        spec: SettingSpec::Str { current: String::new() },
        controllable: false,
    };
    t.set_from_value(&Value::Str("img.png".to_string()));
    assert_eq!(t.as_str(), Some("img.png"));
    let b = Setting { name: "b".to_string(), spec: SettingSpec::Bool { current: true }, controllable: false };
    assert_eq!(b.as_bool(), Some(true));
}

#[test]
fn default_settings() {
    let s = Mixer::create_settings();
    let names: Vec<&str> = s.iter().map(|x| x.name.as_str()).collect();
    assert_eq!(names, vec!["width", "height", "sample-rate", "fallback-image", "fallback-timeout"]);
    assert_eq!(s[0].as_i32(), Some(1920));
    assert_eq!(s[1].as_i32(), Some(1080));
    assert_eq!(s[2].as_i32(), Some(48000));
    assert_eq!(s[3].as_str(), Some(""));
    assert_eq!(s[4].as_i32(), Some(500));
    assert!(s[0].controllable && s[1].controllable && !s[2].controllable && !s[3].controllable && s[4].controllable);
}

#[test]
fn mixer_config_applies_and_rejects() {
    let m = Mixer::new("m", Some(vec![("width".to_string(), Value::Int(1280))]), vec![], vec![]).unwrap();
    assert_eq!(m.settings[0].as_i32(), Some(1280));
    assert_eq!(m.settings[1].as_i32(), Some(1080));

    let e = Mixer::new("m", Some(vec![("nope".to_string(), Value::Int(1))]), vec![], vec![]);
    assert_eq!(e.err(), Some(MixerError::UnknownSetting));
    let e = Mixer::new("m", Some(vec![("width".to_string(), Value::Int(0))]), vec![], vec![]);
    assert_eq!(e.err(), Some(MixerError::InvalidValue(SettingError::OutOfRange)));
    let e = Mixer::new("m", Some(vec![("width".to_string(), Value::Bool(true))]), vec![], vec![]);
    assert_eq!(e.err(), Some(MixerError::InvalidValue(SettingError::TypeMismatch)));
    let m = Mixer::new(
        "m",
        Some(vec![
            ("fallback-image".to_string(), Value::Str("a.png".to_string())),
            ("height".to_string(), Value::Int(720)),
            ("height".to_string(), Value::Int(480)),
        ]),
        vec![],
        vec![],
    )
    .unwrap();
    assert_eq!(m.settings[1].as_i32(), Some(480));
    assert_eq!(m.settings[3].as_str(), Some("a.png"));
}
