//! Typed, range-checked named configuration values.
use vstd::prelude::*;
use crate::value::{Value, ValueKind};

verus! {

/// The type of a setting, with its current value.
#[derive(Debug)]
#[allow(inconsistent_fields)]
pub enum SettingSpec {
    I32 { min: i32, max: i32, current: i32 },
    Str { current: String },
    Bool { current: bool },
}

/// Why a value was refused by a setting.
#[derive(Clone, Copy, Debug, PartialEq, Eq, Structural)]
pub enum SettingError {
    /// The value's type is not the setting's.
    TypeMismatch,
    /// A number outside the setting's range.
    OutOfRange,
}

/// A named configuration value.
#[derive(Debug)]
pub struct Setting {
    pub name: String,
    pub spec: SettingSpec,
    pub controllable: bool,
}

impl Setting {
    /// A numeric setting holds a value within its range.
    pub open spec fn wf(&self) -> bool {
        match self.spec {
            SettingSpec::I32 { min, max, current } => min <= current <= max,
            _ => true,
        }
    }

    /// The kind of value this setting takes.
    pub open spec fn kind(&self) -> ValueKind {
        match self.spec {
            SettingSpec::I32 { .. } => ValueKind::Int,
            SettingSpec::Str { .. } => ValueKind::Str,
            SettingSpec::Bool { .. } => ValueKind::Bool,
        }
    }

    /// Whether `v` fits the setting's type and range.
    pub open spec fn accepts(&self, v: Value) -> bool {
        match (self.spec, v) {
            (SettingSpec::I32 { min, max, .. }, Value::Int(x)) => min <= x <= max,
            (SettingSpec::Str { .. }, Value::Str(_)) => true,
            (SettingSpec::Bool { .. }, Value::Bool(_)) => true,
            _ => false,
        }
    }

    /// The setting's current value.
    pub open spec fn current(&self) -> Value {
        match self.spec {
            SettingSpec::I32 { current, .. } => Value::Int(current as i64),
            SettingSpec::Str { current } => Value::Str(current),
            SettingSpec::Bool { current } => Value::Bool(current),
        }
    }

    /// The setting with its current value replaced by an accepted `v`.
    pub open spec fn with_value(self, v: Value) -> Setting {
        Setting {
            spec: match (self.spec, v) {
                (SettingSpec::I32 { min, max, .. }, Value::Int(x)) => SettingSpec::I32 {
                    min,
                    max,
                    current: x as i32,
                },
                (SettingSpec::Str { .. }, Value::Str(s)) => SettingSpec::Str { current: s },
                (SettingSpec::Bool { .. }, Value::Bool(b)) => SettingSpec::Bool { current: b },
                _ => self.spec,
            },
            ..self
        }
    }

    /// Checks that `v` may become this setting's value.
    pub fn validate_value(&self, v: &Value) -> (r: Result<(), SettingError>)
        ensures
            r is Ok <==> self.accepts(*v),
            r == Err::<(), SettingError>(SettingError::TypeMismatch) <==> v.kind() != self.kind(),
            r == Err::<(), SettingError>(SettingError::OutOfRange) <==> (v.kind() == self.kind()
                && !self.accepts(*v)),
    {
        match (&self.spec, v) {
            (SettingSpec::I32 { min, max, .. }, Value::Int(x)) => {
                if (*min as i64) <= *x && *x <= (*max as i64) {
                    Ok(())
                } else {
                    Err(SettingError::OutOfRange)
                }
            },
            (SettingSpec::Str { .. }, Value::Str(_)) => Ok(()),
            (SettingSpec::Bool { .. }, Value::Bool(_)) => Ok(()),
            _ => Err(SettingError::TypeMismatch),
        }
    }

    /// Overwrites the current value with an accepted one.
    pub fn set_from_value(&mut self, v: &Value)
        requires
            old(self).accepts(*v),
        ensures
            *final(self) == old(self).with_value(*v),
            final(self).current() == *v,
            final(self).wf(),
            final(self).kind() == old(self).kind(),
    {
        match (&mut self.spec, v) {
            (SettingSpec::I32 { current, .. }, Value::Int(x)) => {
                *current = *x as i32;
            },
            (SettingSpec::Str { current }, Value::Str(s)) => {
                *current = s.clone();
            },
            (SettingSpec::Bool { current }, Value::Bool(b)) => {
                *current = *b;
            },
            _ => {},
        }
    }

    /// The current value of an integer setting.
    pub fn as_i32(&self) -> (r: Option<i32>)
        ensures
            r == (match self.spec {
                SettingSpec::I32 { current, .. } => Some(current),
                _ => None,
            }),
    {
        match &self.spec {
            SettingSpec::I32 { current, .. } => Some(*current),
            _ => None,
        }
    }

    /// The current value of a string setting.
    pub fn as_str(&self) -> (r: Option<&str>)
        ensures
            r matches Some(s) ==> self.spec matches SettingSpec::Str { current } && s@ == current@,
            r is None <==> !(self.spec is Str),
    {
        match &self.spec {
            SettingSpec::Str { current } => Some(current.as_str()),
            _ => None,
        }
    }

    /// The current value of a boolean setting.
    pub fn as_bool(&self) -> (r: Option<bool>)
        ensures
            r == (match self.spec {
                SettingSpec::Bool { current } => Some(current),
                _ => None,
            }),
    {
        match &self.spec {
            SettingSpec::Bool { current } => Some(*current),
            _ => None,
        }
    }

    /// The current value.
    pub fn as_value(&self) -> (r: Value)
        ensures
            r == self.current(),
    {
        match &self.spec {
            SettingSpec::I32 { current, .. } => Value::Int(*current as i64),
            SettingSpec::Str { current } => Value::Str(current.clone()),
            SettingSpec::Bool { current } => Value::Bool(*current),
        }
    }
}

/// A setting that takes a value it accepts stays within its range.
pub proof fn lemma_set_keeps_range(s: Setting, v: Value)
    requires
        s.wf(),
        s.accepts(v),
    ensures
        s.with_value(v).wf(),
        s.with_value(v).current() == v,
        s.with_value(v).kind() == s.kind(),
{
}

} // verus!
