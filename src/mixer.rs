//! The mixer node's own state and decisions: its settings, its input
//! slots, its lifecycle, and what each output sample tick asks of the media
//! graph.
use vstd::prelude::*;
use crate::control::{ControlError, ControlPoint, Update, update_of};
use crate::controllers::{
    PadUpdate, PropertyController, SettingController, drives_setting, drop_slot_controllers,
    lemma_unique_sole_driver, not_of_slot, pad_update_view, property_controllers_wf, property_updates,
    property_view, push_setting_point, push_slot_point, pushed_setting_point, pushed_slot_point,
    remove_setting_points, remove_slot_points, removed_setting_points, removed_slot_points,
    setting_after_tick, setting_controller_view, setting_controllers_wf, setting_driven,
    tick_property_controllers, tick_setting_controllers, ticked_property_controllers,
    ticked_setting_controllers, unique_property_drivers, unique_setting_drivers,
};
use crate::schedule::{State, StateMachine};
use crate::setting::{Setting, SettingError, SettingSpec};
use crate::text::{same_text, split_at_separator, split_once};
use crate::value::{Value, ValueKind};

verus! {

/// Which mixer a slot property belongs to.
#[derive(Clone, Copy, Debug, PartialEq, Eq, Structural)]
pub enum MediaKind {
    Video,
    Audio,
}

/// A property of a mixer sink pad, with the kind of value it takes.
#[derive(Debug)]
pub struct PadProperty {
    pub name: String,
    pub kind: ValueKind,
}

/// Why a request to the mixer was refused.
#[derive(Clone, Copy, Debug, PartialEq, Eq, Structural)]
pub enum MixerError {
    /// No setting has that name.
    UnknownSetting,
    /// The setting cannot be driven by control points.
    NotControllable,
    /// The value does not fit the setting.
    InvalidValue(SettingError),
    /// A slot with that id exists already.
    DuplicateSlot,
    /// No slot has that id.
    UnknownSlot,
    /// A slot property key is not of the form `<media>::<property>`.
    MalformedKey,
    /// A slot property key names a media other than `video` or `audio`.
    UnknownMedia,
    /// The mixer pads have no property of that name.
    UnknownProperty,
    /// The value is not of the pad property's type.
    TypeMismatch,
    /// The control point was refused by its controller.
    Control(ControlError),
}

/// A value to set on a slot's mixer pad.
#[derive(Debug)]
pub struct SlotWrite {
    pub media: MediaKind,
    pub property: String,
    pub value: Value,
}

/// What one output video tick asks of the media graph.
#[derive(Debug)]
pub struct VideoTick {
    /// Make the base plate opaque (`Some(true)`) or transparent (`Some(false)`).
    pub show_base_plate: Option<bool>,
    /// Changes to video slot pads.
    pub slot_updates: Vec<PadUpdate>,
    /// The width to give the output caps and the base plate pad.
    pub width: Option<i32>,
    /// The height to give the output caps and the base plate pad.
    pub height: Option<i32>,
}

/// What the media graph is built from when the mixer starts.
#[derive(Debug)]
pub struct StartPlan {
    pub width: i32,
    pub height: i32,
    pub sample_rate: i32,
    /// The image shown as base plate; empty for a black one.
    pub fallback_image: String,
    /// The slots to attach, in order.
    pub slots: Vec<String>,
}

/// What a move of the lifecycle asks of the mixer.
#[derive(Clone, Copy, Debug, PartialEq, Eq, Structural)]
pub enum TransitionAction {
    /// Nothing to do.
    Skip,
    /// Build and start the media graph.
    StartPipeline,
    /// The move is complete.
    Done,
    /// Shut the node down.
    Shutdown,
}

/// A snapshot of the mixer's state.
#[derive(Debug)]
pub struct MixerInfo {
    pub slots: Vec<String>,
    pub cue_time: Option<i64>,
    pub end_time: Option<i64>,
    pub state: State,
    pub settings: Vec<(String, Value)>,
    pub control_points: Vec<(String, Vec<ControlPoint>)>,
    pub slot_control_points: Vec<(String, String, Vec<ControlPoint>)>,
}

/// One input binding.
#[derive(Debug)]
pub struct ConsumerSlot {
    pub id: String,
    /// Whether the slot's processing sub-graphs are built and fed.
    pub live: bool,
}

/// State used on each output video tick.
#[derive(Debug)]
pub struct VideoMixingState {
    /// The output time from which no input other than the base plate
    /// produced samples.
    pub base_plate_timeout: Option<u64>,
    /// Whether the base plate is opaque.
    pub showing_base_plate: bool,
    /// Controllers of video slot pad properties.
    pub slot_controllers: Vec<PropertyController>,
    /// Controllers of the mixer's settings.
    pub mixer_controllers: Vec<SettingController>,
    /// The last output time seen, in nanoseconds.
    pub last_pts: Option<u64>,
    /// How long only the base plate may produce before it is shown, in
    /// nanoseconds.
    pub fallback_timeout: u64,
    /// Whether the output chain (caps filter and base plate) exists.
    pub output_ready: bool,
}

/// State used on each output audio tick.
#[derive(Debug)]
pub struct AudioMixingState {
    /// Controllers of audio slot pad properties.
    pub slot_controllers: Vec<PropertyController>,
    /// The last output time seen, in nanoseconds.
    pub last_pts: Option<u64>,
}

/// The mixer node.
#[derive(Debug)]
pub struct Mixer {
    pub id: String,
    pub settings: Vec<Setting>,
    pub consumer_slots: Vec<ConsumerSlot>,
    /// The properties of a `compositor` sink pad.
    pub video_pad_properties: Vec<PadProperty>,
    /// The properties of an `audiomixer` sink pad.
    pub audio_pad_properties: Vec<PadProperty>,
    pub video_mixing_state: VideoMixingState,
    pub audio_mixing_state: AudioMixingState,
    pub state_machine: StateMachine,
}

/// Settings named at most once.
pub open spec fn unique_setting_names(s: Seq<Setting>) -> bool {
    forall|i: int, j: int| 0 <= i < j < s.len() ==> s[i].name@ != s[j].name@
}

/// Whether some setting of `s` is named `name`.
pub open spec fn names_setting(s: Seq<Setting>, name: Seq<char>) -> bool {
    exists|i: int| 0 <= i < s.len() && s[i].name@ == name
}

/// The mixer's settings as a new mixer has them.
pub open spec fn is_default_settings(s: Seq<Setting>) -> bool {
    &&& s.len() == 5
    &&& s[0].name@ == "width"@ && s[0].spec == SettingSpec::I32 {
        min: 1,
        max: 0x7fff_ffff,
        current: 1920,
    } && s[0].controllable
    &&& s[1].name@ == "height"@ && s[1].spec == SettingSpec::I32 {
        min: 1,
        max: 0x7fff_ffff,
        current: 1080,
    } && s[1].controllable
    &&& s[2].name@ == "sample-rate"@ && s[2].spec == SettingSpec::I32 {
        min: 1,
        max: 0x7fff_ffff,
        current: 48000,
    } && !s[2].controllable
    &&& s[3].name@ == "fallback-image"@ && !s[3].controllable
    &&& (s[3].spec matches SettingSpec::Str { current } && current@.len() == 0)
    &&& s[4].name@ == "fallback-timeout"@ && s[4].spec == SettingSpec::I32 {
        min: 0,
        max: 0x7fff_ffff,
        current: 500,
    } && s[4].controllable
}

/// What is wrong with configuration entry `e` against settings `s`, if
/// anything.
pub open spec fn config_entry_error(s: Seq<Setting>, e: (String, Value)) -> Option<MixerError> {
    if !names_setting(s, e.0@) {
        Some(MixerError::UnknownSetting)
    } else {
        let i = choose|i: int| 0 <= i < s.len() && s[i].name@ == e.0@;
        if e.1.kind() != s[i].kind() {
            Some(MixerError::InvalidValue(SettingError::TypeMismatch))
        } else if !s[i].accepts(e.1) {
            Some(MixerError::InvalidValue(SettingError::OutOfRange))
        } else {
            None
        }
    }
}

/// The error of the first bad entry of `config`, if any.
pub open spec fn first_config_error(s: Seq<Setting>, config: Seq<(String, Value)>) -> Option<
    MixerError,
>
    decreases config.len(),
{
    if config.len() == 0 {
        None
    } else {
        match first_config_error(s, config.drop_last()) {
            Some(e) => Some(e),
            None => config_entry_error(s, config.last()),
        }
    }
}

/// The value that the last entry of `config` for `name` gives, if any.
pub open spec fn last_config_value(config: Seq<(String, Value)>, name: Seq<char>) -> Option<Value>
    decreases config.len(),
{
    if config.len() == 0 {
        None
    } else if config.last().0@ == name {
        Some(config.last().1)
    } else {
        last_config_value(config.drop_last(), name)
    }
}

/// Setting `d` once `config` was applied to it.
pub open spec fn configured(d: Setting, config: Seq<(String, Value)>) -> Setting {
    match last_config_value(config, d.name@) {
        Some(v) => d.with_value(v),
        None => d,
    }
}

/// Where setting `name` stands in `s`.
pub fn find_setting(s: &Vec<Setting>, name: &str) -> (r: Option<usize>)
    requires
        unique_setting_names(s@),
    ensures
        r is None <==> !names_setting(s@, name@),
        r matches Some(i) ==> i < s@.len() && s@[i as int].name@ == name@,
{
    let mut i: usize = 0;
    while i < s.len()
        invariant
            i <= s@.len(),
            forall|j: int| 0 <= j < i ==> s@[j].name@ != name@,
        decreases s@.len() - i,
    {
        if same_text(s[i].name.as_str(), name) {
            return Some(i);
        }
        i = i + 1;
    }
    None
}

/// Slots named at most once.
pub open spec fn unique_slot_ids(s: Seq<ConsumerSlot>) -> bool {
    forall|i: int, j: int| 0 <= i < j < s.len() ==> s[i].id@ != s[j].id@
}

/// Whether some slot of `s` has id `id`.
pub open spec fn has_slot(s: Seq<ConsumerSlot>, id: Seq<char>) -> bool {
    exists|i: int| 0 <= i < s.len() && s[i].id@ == id
}

proof fn lemma_same_names_choose(d: Seq<Setting>, s: Seq<Setting>, name: Seq<char>, i: int)
    requires
        unique_setting_names(d),
        d.len() == s.len(),
        forall|j: int| 0 <= j < d.len() ==> #[trigger] s[j].name@ == d[j].name@,
        0 <= i < s.len(),
        s[i].name@ == name,
    ensures
        names_setting(d, name),
        (choose|k: int| 0 <= k < d.len() && d[k].name@ == name) == i,
{
    assert(d[i].name@ == name);
    let k = choose|k: int| 0 <= k < d.len() && d[k].name@ == name;
    if k != i {
        if k < i {
            assert(d[k].name@ != d[i].name@);
        } else {
            assert(d[i].name@ != d[k].name@);
        }
    }
}

proof fn lemma_first_error_extends(d: Seq<Setting>, config: Seq<(String, Value)>, m: int)
    requires
        0 <= m <= config.len(),
        first_config_error(d, config.subrange(0, m)) is Some,
    ensures
        first_config_error(d, config) == first_config_error(d, config.subrange(0, m)),
    decreases config.len() - m,
{
    if m < config.len() {
        let next = config.subrange(0, m + 1);
        assert(next.drop_last() =~= config.subrange(0, m));
        lemma_first_error_extends(d, config, m + 1);
    } else {
        assert(config.subrange(0, m) =~= config);
    }
}

proof fn lemma_configured_step(d: Setting, config: Seq<(String, Value)>)
    requires
        config.len() > 0,
    ensures
        configured(d, config) == (if config.last().0@ == d.name@ {
            d.with_value(config.last().1)
        } else {
            configured(d, config.drop_last())
        }),
{
}

/// The kind of the first property of `props` named `name`, if any.
pub open spec fn pad_property_kind(props: Seq<PadProperty>, name: Seq<char>) -> Option<ValueKind>
    decreases props.len(),
{
    if props.len() == 0 {
        None
    } else if props[0].name@ == name {
        Some(props[0].kind)
    } else {
        pad_property_kind(props.drop_first(), name)
    }
}

/// The media and pad property that slot property key `key` names.
pub open spec fn slot_key_target(key: Seq<char>) -> Result<(MediaKind, Seq<char>), MixerError> {
    match split_once(key) {
        None => Err(MixerError::MalformedKey),
        Some((media, property)) => if media == "video"@ {
            Ok((MediaKind::Video, property))
        } else if media == "audio"@ {
            Ok((MediaKind::Audio, property))
        } else {
            Err(MixerError::UnknownMedia)
        },
    }
}

/// What is wrong with setting slot property `key` to a value of kind
/// `kind`, if anything.
pub open spec fn slot_value_error(
    video: Seq<PadProperty>,
    audio: Seq<PadProperty>,
    key: Seq<char>,
    kind: ValueKind,
) -> Option<MixerError> {
    match slot_key_target(key) {
        Err(e) => Some(e),
        Ok((media, property)) => {
            let props = if media == MediaKind::Video {
                video
            } else {
                audio
            };
            match pad_property_kind(props, property) {
                None => Some(MixerError::UnknownProperty),
                Some(k) => if k != kind {
                    Some(MixerError::TypeMismatch)
                } else {
                    None
                },
            }
        },
    }
}

/// The error of the first bad entry of a slot configuration, if any.
pub open spec fn first_slot_config_error(
    video: Seq<PadProperty>,
    audio: Seq<PadProperty>,
    config: Seq<(String, Value)>,
) -> Option<MixerError>
    decreases config.len(),
{
    if config.len() == 0 {
        None
    } else {
        match first_slot_config_error(video, audio, config.drop_last()) {
            Some(e) => Some(e),
            None => slot_value_error(video, audio, config.last().0@, config.last().1.kind()),
        }
    }
}

proof fn lemma_first_slot_error_extends(
    video: Seq<PadProperty>,
    audio: Seq<PadProperty>,
    config: Seq<(String, Value)>,
    m: int,
)
    requires
        0 <= m <= config.len(),
        first_slot_config_error(video, audio, config.subrange(0, m)) is Some,
    ensures
        first_slot_config_error(video, audio, config) == first_slot_config_error(
            video,
            audio,
            config.subrange(0, m),
        ),
    decreases config.len() - m,
{
    if m < config.len() {
        let next = config.subrange(0, m + 1);
        assert(next.drop_last() =~= config.subrange(0, m));
        lemma_first_slot_error_extends(video, audio, config, m + 1);
    } else {
        assert(config.subrange(0, m) =~= config);
    }
}

/// The kind of the first property of `props` named `name`.
pub fn find_pad_property(props: &Vec<PadProperty>, name: &str) -> (r: Option<ValueKind>)
    ensures
        r == pad_property_kind(props@, name@),
{
    let mut i: usize = 0;
    assert(props@.subrange(0, props@.len() as int) =~= props@);
    while i < props.len()
        invariant
            i <= props@.len(),
            pad_property_kind(props@, name@) == pad_property_kind(
                props@.subrange(i as int, props@.len() as int),
                name@,
            ),
        decreases props@.len() - i,
    {
        let ghost rest = props@.subrange(i as int, props@.len() as int);
        assert(rest[0] == props@[i as int]);
        if same_text(props[i].name.as_str(), name) {
            return Some(props[i].kind);
        }
        assert(rest.drop_first() =~= props@.subrange(i + 1, props@.len() as int));
        i = i + 1;
    }
    None
}

/// The base plate's timeout and visibility after a tick at output time
/// `pts`, and the change to make to it: the base plate is shown once only
/// it produced for longer than `fallback` since `timeout`, and hidden as
/// soon as a real input produces.
pub open spec fn base_plate_step(
    timeout: Option<u64>,
    showing: bool,
    fallback: u64,
    pts: u64,
    real_input: bool,
) -> (Option<u64>, bool, Option<bool>) {
    if !real_input {
        match timeout {
            None => (Some(pts), showing, None),
            Some(t) => if !showing && pts > t && pts - t > fallback {
                (timeout, true, Some(true))
            } else {
                (timeout, showing, None)
            },
        }
    } else {
        (None, false, if showing {
            Some(false)
        } else {
            None
        })
    }
}

/// The last output time once `pts` was seen after `last`: it never goes back.
pub open spec fn next_last_pts(last: Option<u64>, pts: u64) -> u64 {
    match last {
        Some(l) => if l > pts {
            l
        } else {
            pts
        },
        None => pts,
    }
}

/// Whether the output clock moved forward from `last` to `pts`.
pub open spec fn clock_advanced(last: Option<u64>, pts: u64) -> bool {
    match last {
        Some(l) => pts > l,
        None => false,
    }
}

fn advance_clock(last: Option<u64>, pts: u64) -> (r: (bool, u64))
    ensures
        r.0 == clock_advanced(last, pts),
        r.1 == next_last_pts(last, pts),
{
    match last {
        Some(l) => if l > pts {
            (false, l)
        } else {
            (pts > l, pts)
        },
        None => (false, pts),
    }
}

/// The current value of integer setting `name` of `s`, if there is one.
pub open spec fn int_setting_value(s: Seq<Setting>, name: Seq<char>) -> Option<i32> {
    if exists|k: int| 0 <= k < s.len() && s[k].name@ == name && s[k].spec is I32 {
        let k = choose|k: int| 0 <= k < s.len() && s[k].name@ == name && s[k].spec is I32;
        Some(s[k].spec->I32_current)
    } else {
        None
    }
}

fn int_setting_of(s: &Vec<Setting>, name: &str) -> (r: Option<i32>)
    requires
        unique_setting_names(s@),
    ensures
        r == int_setting_value(s@, name@),
{
    match find_setting(s, name) {
        None => None,
        Some(k) => {
            let r = s[k].as_i32();
            proof {
                if exists|m: int| 0 <= m < s@.len() && s@[m].name@ == name@ && s@[m].spec is I32 {
                    let m = choose|m: int| 0 <= m < s@.len() && s@[m].name@ == name@ && s@[m].spec is I32;
                    if m != k {
                        if m < k {
                            assert(s@[m].name@ != s@[k as int].name@);
                        } else {
                            assert(s@[k as int].name@ != s@[m].name@);
                        }
                    }
                }
            }
            r
        },
    }
}

/// The current value of string setting `name` of `s`, if there is one.
pub open spec fn str_setting_value(s: Seq<Setting>, name: Seq<char>) -> Option<Seq<char>> {
    if exists|k: int| 0 <= k < s.len() && s[k].name@ == name && s[k].spec is Str {
        let k = choose|k: int| 0 <= k < s.len() && s[k].name@ == name && s[k].spec is Str;
        Some(s[k].spec->Str_current@)
    } else {
        None
    }
}

fn str_setting_of(s: &Vec<Setting>, name: &str) -> (r: Option<String>)
    requires
        unique_setting_names(s@),
    ensures
        r is Some <==> str_setting_value(s@, name@) is Some,
        r matches Some(v) ==> str_setting_value(s@, name@) == Some(v@),
{
    match find_setting(s, name) {
        None => None,
        Some(k) => {
            let r = match s[k].as_str() {
                Some(v) => Some(v.to_owned()),
                None => None,
            };
            proof {
                if exists|m: int| 0 <= m < s@.len() && s@[m].name@ == name@ && s@[m].spec is Str {
                    let m = choose|m: int| 0 <= m < s@.len() && s@[m].name@ == name@ && s@[m].spec is Str;
                    if m != k {
                        if m < k {
                            assert(s@[m].name@ != s@[k as int].name@);
                        } else {
                            assert(s@[k as int].name@ != s@[m].name@);
                        }
                    }
                }
            }
            r
        },
    }
}

/// Milliseconds as nanoseconds; a negative duration counts as none.
pub open spec fn millis_to_nanos(ms: i32) -> u64 {
    if ms < 0 {
        0
    } else {
        (ms as u64 * 1_000_000) as u64
    }
}

fn int_setting(name: &str, min: i32, max: i32, current: i32, controllable: bool) -> (r: Setting)
    ensures
        r.name@ == name@,
        r.spec == (SettingSpec::I32 { min, max, current }),
        r.controllable == controllable,
{
    Setting { name: name.to_owned(), spec: SettingSpec::I32 { min, max, current }, controllable }
}

impl Mixer {
    pub open spec fn wf(&self) -> bool {
        &&& unique_setting_names(self.settings@)
        &&& forall|i: int| 0 <= i < self.settings@.len() ==> (#[trigger] self.settings@[i]).wf()
        &&& unique_slot_ids(self.consumer_slots@)
        &&& property_controllers_wf(self.video_mixing_state.slot_controllers@)
        &&& property_controllers_wf(self.audio_mixing_state.slot_controllers@)
        &&& setting_controllers_wf(self.video_mixing_state.mixer_controllers@)
        &&& unique_setting_drivers(self.video_mixing_state.mixer_controllers@)
        &&& unique_property_drivers(self.video_mixing_state.slot_controllers@)
        &&& unique_property_drivers(self.audio_mixing_state.slot_controllers@)
    }

    /// A mixer in its initial state, its settings taken from their defaults
    /// and then from `config`, entry by entry; fails on the first entry that
    /// names no setting or holds a value the setting refuses.
    pub fn new(
        id: &str,
        config: Option<Vec<(String, Value)>>,
        video_pad_properties: Vec<PadProperty>,
        audio_pad_properties: Vec<PadProperty>,
    ) -> (r: Result<Mixer, MixerError>)
        ensures
            exists|d: Seq<Setting>|
                {
                    let cfg = match config {
                        Some(c) => c@,
                        None => Seq::empty(),
                    };
                    &&& #[trigger] is_default_settings(d)
                    &&& r is Ok <==> first_config_error(d, cfg) is None
                    &&& r matches Err(e) ==> first_config_error(d, cfg) == Some(e)
                    &&& r matches Ok(m) ==> {
                        &&& m.settings@.len() == d.len()
                        &&& forall|i: int|
                            0 <= i < d.len() ==> #[trigger] m.settings@[i] == configured(d[i], cfg)
                    }
                },
            r matches Ok(m) ==> {
                &&& m.wf()
                &&& m.id@ == id@
                &&& m.consumer_slots@.len() == 0
                &&& m.video_pad_properties == video_pad_properties
                &&& m.audio_pad_properties == audio_pad_properties
                &&& m.video_mixing_state.slot_controllers@.len() == 0
                &&& m.video_mixing_state.mixer_controllers@.len() == 0
                &&& m.audio_mixing_state.slot_controllers@.len() == 0
                &&& m.video_mixing_state.last_pts is None
                &&& m.video_mixing_state.base_plate_timeout is None
                &&& !m.video_mixing_state.showing_base_plate
                &&& !m.video_mixing_state.output_ready
                &&& m.audio_mixing_state.last_pts is None
                &&& m.state_machine.state == State::Initial
                &&& m.state_machine.cue_time is None
                &&& m.state_machine.end_time is None
            },
    {
        let mut settings = Mixer::create_settings();
        let ghost d = settings@;
        let ghost cfg_view = if config is Some {
            config->Some_0@
        } else {
            Seq::<(String, Value)>::empty()
        };
        let cfg: Vec<(String, Value)> = match config {
            Some(c) => c,
            None => Vec::new(),
        };
        assert(cfg@ == cfg_view);
        let mut k: usize = 0;
        while k < cfg.len()
            invariant
                is_default_settings(d),
                unique_setting_names(d),
                k <= cfg@.len(),
                cfg@ == cfg_view,
                cfg_view == (match config {
                    Some(c) => c@,
                    None => Seq::<(String, Value)>::empty(),
                }),
                settings@.len() == d.len(),
                first_config_error(d, cfg@.subrange(0, k as int)) is None,
                forall|j: int|
                    0 <= j < d.len() ==> #[trigger] settings@[j] == configured(
                        d[j],
                        cfg@.subrange(0, k as int),
                    ),
                forall|j: int|
                    0 <= j < d.len() ==> (#[trigger] settings@[j]).name@ == d[j].name@
                        && settings@[j].kind() == d[j].kind() && forall|v: Value|
                        settings@[j].accepts(v) == d[j].accepts(v),
                forall|j: int| 0 <= j < settings@.len() ==> (#[trigger] settings@[j]).wf(),
            decreases cfg@.len() - k,
        {
            let ghost pre = cfg@.subrange(0, k as int);
            let ghost post = cfg@.subrange(0, k + 1);
            assert(post.drop_last() =~= pre);
            assert(post.last() == cfg@[k as int]);
            let entry = &cfg[k];
            assert(unique_setting_names(settings@)) by {
                assert forall|a: int, b: int| 0 <= a < b < settings@.len() implies settings@[a].name@
                    != settings@[b].name@ by {
                    assert(settings@[a].name@ == d[a].name@);
                    assert(settings@[b].name@ == d[b].name@);
                }
            }
            match find_setting(&settings, entry.0.as_str()) {
                None => {
                    proof {
                        if names_setting(d, entry.0@) {
                            let i = choose|i: int| 0 <= i < d.len() && d[i].name@ == entry.0@;
                            assert(settings@[i].name@ == entry.0@);
                        }
                        assert(first_config_error(d, post) == Some(MixerError::UnknownSetting));
                        lemma_first_error_extends(d, cfg@, k + 1);
                    }
                    return Err(MixerError::UnknownSetting);
                },
                Some(i) => {
                    proof {
                        lemma_same_names_choose(d, settings@, entry.0@, i as int);
                    }
                    match settings[i].validate_value(&entry.1) {
                        Err(e) => {
                            proof {
                                assert(first_config_error(d, post) == Some(MixerError::InvalidValue(e)));
                                lemma_first_error_extends(d, cfg@, k + 1);
                            }
                            return Err(MixerError::InvalidValue(e));
                        },
                        Ok(()) => {
                            let ghost before = settings@;
                            let mut st = settings.remove(i);
                            st.set_from_value(&entry.1);
                            settings.insert(i, st);
                            proof {
                                assert forall|j: int| 0 <= j < d.len() implies #[trigger] settings@[j]
                                    == configured(d[j], post) by {
                                    lemma_configured_step(d[j], post);
                                    if j == i {
                                    } else {
                                        assert(settings@[j] == before[j]);
                                        assert(d[j].name@ != entry.0@) by {
                                            if j < i {
                                                assert(d[j].name@ != d[i as int].name@);
                                            } else {
                                                assert(d[i as int].name@ != d[j].name@);
                                            }
                                        }
                                    }
                                }
                                assert forall|j: int| 0 <= j < d.len() implies (#[trigger] settings@[j]).name@
                                    == d[j].name@ && settings@[j].kind() == d[j].kind() && forall|v: Value|
                                    settings@[j].accepts(v) == d[j].accepts(v) by {
                                    if j != i {
                                        assert(settings@[j] == before[j]);
                                    }
                                }
                                assert forall|j: int| 0 <= j < settings@.len() implies (#[trigger] settings@[j]).wf() by {
                                    if j != i {
                                        assert(settings@[j] == before[j]);
                                    }
                                }
                            }
                        },
                    }
                },
            }
            k = k + 1;
        }
        assert(cfg@.subrange(0, cfg@.len() as int) =~= cfg@);
        assert(unique_setting_names(settings@)) by {
            assert forall|a: int, b: int| 0 <= a < b < settings@.len() implies settings@[a].name@
                != settings@[b].name@ by {
                assert(settings@[a].name@ == d[a].name@);
                assert(settings@[b].name@ == d[b].name@);
            }
        }
        let m = Mixer {
            id: id.to_owned(),
            settings,
            consumer_slots: Vec::new(),
            video_pad_properties,
            audio_pad_properties,
            video_mixing_state: VideoMixingState {
                base_plate_timeout: None,
                showing_base_plate: false,
                slot_controllers: Vec::new(),
                mixer_controllers: Vec::new(),
                last_pts: None,
                fallback_timeout: 0,
                output_ready: false,
            },
            audio_mixing_state: AudioMixingState { slot_controllers: Vec::new(), last_pts: None },
            state_machine: StateMachine::new(),
        };
        Ok(m)
    }

    /// Whether the mixer is running its media graph.
    pub open spec fn is_started(&self) -> bool {
        self.state_machine.state == State::Started
    }

    /// Where slot `id` stands.
    pub fn find_slot(&self, id: &str) -> (r: Option<usize>)
        ensures
            r is None <==> !has_slot(self.consumer_slots@, id@),
            r matches Some(i) ==> i < self.consumer_slots@.len() && self.consumer_slots@[i as int].id@
                == id@,
    {
        let mut i: usize = 0;
        while i < self.consumer_slots.len()
            invariant
                i <= self.consumer_slots@.len(),
                forall|j: int| 0 <= j < i ==> self.consumer_slots@[j].id@ != id@,
            decreases self.consumer_slots@.len() - i,
        {
            if same_text(self.consumer_slots[i].id.as_str(), id) {
                return Some(i);
            }
            i = i + 1;
        }
        None
    }

    /// Adds input slot `link_id`, whose pads get the values of `config`
    /// (keys `video::<property>` or `audio::<property>`).
    ///
    /// Returns the values to set on the slot's new mixer pads, in order, and
    /// whether the slot is to be attached at once (the mixer is running);
    /// otherwise it is attached when the mixer starts. Nothing changes on
    /// failure.
    pub fn connect(&mut self, link_id: &str, config: Option<Vec<(String, Value)>>) -> (r: Result<
        (Vec<SlotWrite>, bool),
        MixerError,
    >)
        requires
            old(self).wf(),
        ensures
            final(self).wf(),
            ({
                let cfg = match config {
                    Some(c) => c@,
                    None => Seq::empty(),
                };
                let err = if has_slot(old(self).consumer_slots@, link_id@) {
                    Some(MixerError::DuplicateSlot)
                } else {
                    first_slot_config_error(
                        old(self).video_pad_properties@,
                        old(self).audio_pad_properties@,
                        cfg,
                    )
                };
                &&& r is Err <==> err is Some
                &&& r matches Err(e) ==> err == Some(e) && *final(self) == *old(self)
                &&& r matches Ok((writes, attach)) ==> {
                    &&& attach == old(self).is_started()
                    &&& writes@.len() == cfg.len()
                    &&& forall|i: int|
                        0 <= i < cfg.len() ==> slot_key_target(cfg[i].0@) == Ok::<
                            (MediaKind, Seq<char>),
                            MixerError,
                        >(((#[trigger] writes@[i]).media, writes@[i].property@))
                            && writes@[i].value == cfg[i].1
                    &&& final(self).consumer_slots@ == old(self).consumer_slots@.push(
                        ConsumerSlot { id: final(self).consumer_slots@.last().id, live: attach },
                    )
                    &&& final(self).consumer_slots@.last().id@ == link_id@
                    &&& final(self).settings == old(self).settings
                    &&& final(self).video_mixing_state == old(self).video_mixing_state
                    &&& final(self).audio_mixing_state == old(self).audio_mixing_state
                    &&& final(self).state_machine == old(self).state_machine
                    &&& final(self).id == old(self).id
                    &&& final(self).video_pad_properties == old(self).video_pad_properties
                    &&& final(self).audio_pad_properties == old(self).audio_pad_properties
                }
            }),
    {
        if self.find_slot(link_id).is_some() {
            return Err(MixerError::DuplicateSlot);
        }
        let ghost cfg_view = if config is Some {
            config->Some_0@
        } else {
            Seq::<(String, Value)>::empty()
        };
        let cfg: Vec<(String, Value)> = match config {
            Some(c) => c,
            None => Vec::new(),
        };
        let mut writes: Vec<SlotWrite> = Vec::new();
        let mut k: usize = 0;
        while k < cfg.len()
            invariant
                k <= cfg@.len(),
                *self == *old(self),
                self.wf(),
                !has_slot(self.consumer_slots@, link_id@),
                cfg@ == cfg_view,
                cfg_view == (match config {
                    Some(c) => c@,
                    None => Seq::<(String, Value)>::empty(),
                }),
                writes@.len() == k,
                first_slot_config_error(
                    self.video_pad_properties@,
                    self.audio_pad_properties@,
                    cfg@.subrange(0, k as int),
                ) is None,
                forall|i: int|
                    0 <= i < k ==> slot_key_target(cfg@[i].0@) == Ok::<(MediaKind, Seq<char>), MixerError>(
                        ((#[trigger] writes@[i]).media, writes@[i].property@),
                    ) && writes@[i].value == cfg@[i].1,
            decreases cfg@.len() - k,
        {
            let ghost post = cfg@.subrange(0, k + 1);
            assert(post.drop_last() =~= cfg@.subrange(0, k as int));
            let entry = &cfg[k];
            let (media, property) = match Mixer::parse_slot_config_key(entry.0.as_str()) {
                Ok(t) => t,
                Err(e) => {
                    proof {
                        lemma_first_slot_error_extends(
                            self.video_pad_properties@,
                            self.audio_pad_properties@,
                            cfg@,
                            k + 1,
                        );
                    }
                    return Err(e);
                },
            };
            let found = match media {
                MediaKind::Video => find_pad_property(&self.video_pad_properties, property.as_str()),
                MediaKind::Audio => find_pad_property(&self.audio_pad_properties, property.as_str()),
            };
            let e: Option<MixerError> = match found {
                None => Some(MixerError::UnknownProperty),
                Some(kind) => if kind != entry.1.value_kind() {
                    Some(MixerError::TypeMismatch)
                } else {
                    None
                },
            };
            if let Some(e) = e {
                proof {
                    lemma_first_slot_error_extends(
                        self.video_pad_properties@,
                        self.audio_pad_properties@,
                        cfg@,
                        k + 1,
                    );
                }
                return Err(e);
            }
            writes.push(SlotWrite { media, property, value: entry.1.duplicate() });
            k = k + 1;
        }
        assert(cfg@.subrange(0, cfg@.len() as int) =~= cfg@);
        let attach = self.state_machine.state == State::Started;
        let ghost before = self.consumer_slots@;
        self.consumer_slots.push(ConsumerSlot { id: link_id.to_owned(), live: attach });
        proof {
            assert forall|a: int, b: int| 0 <= a < b < self.consumer_slots@.len() implies
                self.consumer_slots@[a].id@ != self.consumer_slots@[b].id@ by {
                if b == before.len() {
                    assert(self.consumer_slots@[a] == before[a]);
                }
            }
        }
        Ok((writes, attach))
    }

    /// Removes input slot `slot_id` and the controllers of its pads.
    pub fn disconnect(&mut self, slot_id: &str) -> (r: Result<(), MixerError>)
        requires
            old(self).wf(),
        ensures
            final(self).wf(),
            r is Ok <==> has_slot(old(self).consumer_slots@, slot_id@),
            r is Err ==> r == Err::<(), MixerError>(MixerError::UnknownSlot) && *final(self)
                == *old(self),
            r is Ok ==> {
                &&& !has_slot(final(self).consumer_slots@, slot_id@)
                &&& forall|id: Seq<char>|
                    id != slot_id@ ==> (has_slot(final(self).consumer_slots@, id) <==> has_slot(
                        old(self).consumer_slots@,
                        id,
                    ))
                &&& final(self).video_mixing_state.slot_controllers@
                    == old(self).video_mixing_state.slot_controllers@.filter(not_of_slot(slot_id@))
                &&& final(self).audio_mixing_state.slot_controllers@
                    == old(self).audio_mixing_state.slot_controllers@.filter(not_of_slot(slot_id@))
                &&& final(self).video_mixing_state.mixer_controllers == old(self).video_mixing_state.mixer_controllers
                &&& final(self).settings == old(self).settings
                &&& final(self).state_machine == old(self).state_machine
            },
    {
        let i = match self.find_slot(slot_id) {
            None => {
                return Err(MixerError::UnknownSlot);
            },
            Some(i) => i,
        };
        let ghost before = self.consumer_slots@;
        self.consumer_slots.remove(i);
        proof {
            let after = self.consumer_slots@;
            assert forall|a: int| 0 <= a < after.len() implies after[a] == before[if a < i { a } else { a + 1 }] by {}
            assert forall|a: int, b: int| 0 <= a < b < after.len() implies after[a].id@ != after[b].id@ by {
                assert(after[a] == before[if a < i { a } else { a + 1 }]);
                assert(after[b] == before[if b < i { b } else { b + 1 }]);
            }
            assert forall|id: Seq<char>| has_slot(after, id) <==> (has_slot(before, id) && id != slot_id@) by {
                if has_slot(after, id) {
                    let a = choose|a: int| 0 <= a < after.len() && after[a].id@ == id;
                    assert(after[a] == before[if a < i { a } else { a + 1 }]);
                    if a >= i {
                        assert(before[a + 1].id@ != before[i as int].id@);
                    } else {
                        assert(before[a].id@ != before[i as int].id@);
                    }
                }
                if has_slot(before, id) && id != slot_id@ {
                    let a = choose|a: int| 0 <= a < before.len() && before[a].id@ == id;
                    assert(a != i);
                    let a2 = if a < i { a } else { a - 1 };
                    assert(after[a2] == before[a]);
                }
            }
        }
        let mut video: Vec<PropertyController> = Vec::new();
        std::mem::swap(&mut video, &mut self.video_mixing_state.slot_controllers);
        self.video_mixing_state.slot_controllers = drop_slot_controllers(video, slot_id);
        let mut audio: Vec<PropertyController> = Vec::new();
        std::mem::swap(&mut audio, &mut self.audio_mixing_state.slot_controllers);
        self.audio_mixing_state.slot_controllers = drop_slot_controllers(audio, slot_id);
        Ok(())
    }

    /// Hands `point` to the controller of slot property `property`
    /// (`video::<name>` or `audio::<name>`) of slot `slot_id`, creating that
    /// controller where there is none; `current` is the value the pad
    /// property holds now. Nothing changes on failure.
    pub fn add_slot_control_point(
        &mut self,
        slot_id: &str,
        property: &str,
        point: ControlPoint,
        current: Value,
    ) -> (r: Result<(), MixerError>)
        requires
            old(self).wf(),
        ensures
            final(self).wf(),
            !has_slot(old(self).consumer_slots@, slot_id@) ==> r == Err::<(), MixerError>(
                MixerError::UnknownSlot,
            ),
            has_slot(old(self).consumer_slots@, slot_id@) ==> match slot_value_error(
                old(self).video_pad_properties@,
                old(self).audio_pad_properties@,
                property@,
                point.value.kind(),
            ) {
                Some(e) => r == Err::<(), MixerError>(e),
                None => {
                    let (media, name) = slot_key_target(property@)->Ok_0;
                    if current.kind() != point.value.kind() {
                        r == Err::<(), MixerError>(MixerError::TypeMismatch)
                    } else if media == MediaKind::Video {
                        exists|cr: Result<(), ControlError>|
                            {
                                &&& #[trigger] pushed_slot_point(
                                    old(self).video_mixing_state.slot_controllers@,
                                    final(self).video_mixing_state.slot_controllers@,
                                    slot_id@,
                                    name,
                                    point,
                                    current,
                                    cr,
                                )
                                &&& (r is Ok <==> cr is Ok)
                                &&& (cr matches Err(e) ==> r == Err::<(), MixerError>(MixerError::Control(e)))
                            }
                            && final(self).audio_mixing_state == old(self).audio_mixing_state
                    } else {
                        exists|cr: Result<(), ControlError>|
                            {
                                &&& #[trigger] pushed_slot_point(
                                    old(self).audio_mixing_state.slot_controllers@,
                                    final(self).audio_mixing_state.slot_controllers@,
                                    slot_id@,
                                    name,
                                    point,
                                    current,
                                    cr,
                                )
                                &&& (r is Ok <==> cr is Ok)
                                &&& (cr matches Err(e) ==> r == Err::<(), MixerError>(MixerError::Control(e)))
                            }
                            && final(self).video_mixing_state.slot_controllers == old(self).video_mixing_state.slot_controllers
                    }
                },
            },
            r is Err ==> *final(self) == *old(self) || (r matches Err(MixerError::Control(_))),
            final(self).consumer_slots == old(self).consumer_slots,
            final(self).settings == old(self).settings,
            final(self).state_machine == old(self).state_machine,
            final(self).video_mixing_state.mixer_controllers == old(self).video_mixing_state.mixer_controllers,
    {
        if self.find_slot(slot_id).is_none() {
            return Err(MixerError::UnknownSlot);
        }
        let (media, name) = match Mixer::parse_slot_config_key(property) {
            Ok(t) => t,
            Err(e) => {
                return Err(e);
            },
        };
        let found = match media {
            MediaKind::Video => find_pad_property(&self.video_pad_properties, name.as_str()),
            MediaKind::Audio => find_pad_property(&self.audio_pad_properties, name.as_str()),
        };
        match found {
            None => {
                return Err(MixerError::UnknownProperty);
            },
            Some(kind) => {
                if kind != point.value.value_kind() {
                    return Err(MixerError::TypeMismatch);
                }
            },
        }
        if current.value_kind() != point.value.value_kind() {
            return Err(MixerError::TypeMismatch);
        }
        proof {
            assert(slot_key_target(property@) == Ok::<(MediaKind, Seq<char>), MixerError>((media, name@)));
        }
        let ghost old_video = self.video_mixing_state.slot_controllers@;
        let ghost old_audio = self.audio_mixing_state.slot_controllers@;
        let ghost pt = point;
        let ghost cur = current;
        let cr = match media {
            MediaKind::Video => push_slot_point(
                &mut self.video_mixing_state.slot_controllers,
                slot_id,
                name.as_str(),
                point,
                current,
            ),
            MediaKind::Audio => push_slot_point(
                &mut self.audio_mixing_state.slot_controllers,
                slot_id,
                name.as_str(),
                point,
                current,
            ),
        };
        proof {
            if media == MediaKind::Video {
                assert(pushed_slot_point(old_video, self.video_mixing_state.slot_controllers@, slot_id@, name@, pt, cur, cr));
            } else {
                assert(pushed_slot_point(old_audio, self.audio_mixing_state.slot_controllers@, slot_id@, name@, pt, cur, cr));
            }
        }
        match cr {
            Ok(()) => Ok(()),
            Err(e) => Err(MixerError::Control(e)),
        }
    }

    /// Drops the points of id `controller_id` from the controller of slot
    /// property `property` of slot `slot_id`; does nothing where `property`
    /// is not a slot property key.
    pub fn remove_slot_control_point(&mut self, controller_id: &str, slot_id: &str, property: &str)
        requires
            old(self).wf(),
        ensures
            final(self).wf(),
            match slot_key_target(property@) {
                Err(_) => *final(self) == *old(self),
                Ok((media, name)) => if media == MediaKind::Video {
                    &&& removed_slot_points(
                        old(self).video_mixing_state.slot_controllers@,
                        final(self).video_mixing_state.slot_controllers@,
                        slot_id@,
                        name,
                        controller_id@,
                    )
                    &&& final(self).audio_mixing_state == old(self).audio_mixing_state
                } else {
                    &&& removed_slot_points(
                        old(self).audio_mixing_state.slot_controllers@,
                        final(self).audio_mixing_state.slot_controllers@,
                        slot_id@,
                        name,
                        controller_id@,
                    )
                    &&& final(self).video_mixing_state.slot_controllers == old(self).video_mixing_state.slot_controllers
                },
            },
            final(self).consumer_slots == old(self).consumer_slots,
            final(self).settings == old(self).settings,
            final(self).state_machine == old(self).state_machine,
            final(self).video_mixing_state.mixer_controllers == old(self).video_mixing_state.mixer_controllers,
    {
        let (media, name) = match Mixer::parse_slot_config_key(property) {
            Ok(t) => t,
            Err(_) => {
                return ;
            },
        };
        match media {
            MediaKind::Video => remove_slot_points(
                &mut self.video_mixing_state.slot_controllers,
                slot_id,
                name.as_str(),
                controller_id,
            ),
            MediaKind::Audio => remove_slot_points(
                &mut self.audio_mixing_state.slot_controllers,
                slot_id,
                name.as_str(),
                controller_id,
            ),
        }
    }

    /// Hands `point` to the controller of setting `property`, creating that
    /// controller where there is none. The setting must exist, be
    /// controllable and accept the point's value. Nothing changes on
    /// failure, but for a point refused by its controller.
    pub fn add_control_point(&mut self, property: &str, point: ControlPoint) -> (r: Result<(), MixerError>)
        requires
            old(self).wf(),
        ensures
            final(self).wf(),
            !names_setting(old(self).settings@, property@) ==> r == Err::<(), MixerError>(
                MixerError::UnknownSetting,
            ) && *final(self) == *old(self),
            names_setting(old(self).settings@, property@) ==> {
                let s = old(self).settings@[choose|i: int|
                    0 <= i < old(self).settings@.len() && old(self).settings@[i].name@ == property@];
                if !s.controllable {
                    r == Err::<(), MixerError>(MixerError::NotControllable) && *final(self) == *old(self)
                } else if point.value.kind() != s.kind() {
                    r == Err::<(), MixerError>(MixerError::InvalidValue(SettingError::TypeMismatch))
                        && *final(self) == *old(self)
                } else if !s.accepts(point.value) {
                    r == Err::<(), MixerError>(MixerError::InvalidValue(SettingError::OutOfRange))
                        && *final(self) == *old(self)
                } else {
                    exists|cr: Result<(), ControlError>|
                        {
                            &&& #[trigger] pushed_setting_point(
                                old(self).video_mixing_state.mixer_controllers@,
                                final(self).video_mixing_state.mixer_controllers@,
                                property@,
                                point,
                                s.current(),
                                cr,
                            )
                            &&& (r is Ok <==> cr is Ok)
                            &&& (cr matches Err(e) ==> r == Err::<(), MixerError>(MixerError::Control(e)))
                        }
                }
            },
            final(self).consumer_slots == old(self).consumer_slots,
            final(self).settings == old(self).settings,
            final(self).state_machine == old(self).state_machine,
            final(self).video_mixing_state.slot_controllers == old(self).video_mixing_state.slot_controllers,
            final(self).audio_mixing_state == old(self).audio_mixing_state,
    {
        let i = match find_setting(&self.settings, property) {
            None => {
                return Err(MixerError::UnknownSetting);
            },
            Some(i) => i,
        };
        proof {
            let k = choose|k: int|
                0 <= k < self.settings@.len() && self.settings@[k].name@ == property@;
            if k != i {
                if k < i {
                    assert(self.settings@[k].name@ != self.settings@[i as int].name@);
                } else {
                    assert(self.settings@[i as int].name@ != self.settings@[k].name@);
                }
            }
        }
        if !self.settings[i].controllable {
            return Err(MixerError::NotControllable);
        }
        if let Err(e) = self.settings[i].validate_value(&point.value) {
            return Err(MixerError::InvalidValue(e));
        }
        let current = self.settings[i].as_value();
        let ghost old_mc = self.video_mixing_state.mixer_controllers@;
        let ghost pt = point;
        let ghost cur = current;
        let cr = push_setting_point(
            &mut self.video_mixing_state.mixer_controllers,
            property,
            point,
            current,
        );
        proof {
            assert(cur == self.settings@[i as int].current());
            assert(pushed_setting_point(old_mc, self.video_mixing_state.mixer_controllers@, property@, pt, cur, cr));
        }
        match cr {
            Ok(()) => Ok(()),
            Err(e) => Err(MixerError::Control(e)),
        }
    }

    /// Drops the points of id `controller_id` from the controller of setting
    /// `property`, if any.
    pub fn remove_control_point(&mut self, controller_id: &str, property: &str)
        requires
            old(self).wf(),
        ensures
            final(self).wf(),
            removed_setting_points(
                old(self).video_mixing_state.mixer_controllers@,
                final(self).video_mixing_state.mixer_controllers@,
                property@,
                controller_id@,
            ),
            final(self).consumer_slots == old(self).consumer_slots,
            final(self).settings == old(self).settings,
            final(self).state_machine == old(self).state_machine,
            final(self).video_mixing_state.slot_controllers == old(self).video_mixing_state.slot_controllers,
            final(self).audio_mixing_state == old(self).audio_mixing_state,
    {
        remove_setting_points(&mut self.video_mixing_state.mixer_controllers, property, controller_id);
    }

    /// Handles an output video tick at output time `pts` and wall-clock time
    /// `now`; `real_input` tells whether some pad other than the base plate
    /// has a sample ready.
    ///
    /// Shows or hides the base plate, advances every video slot controller
    /// and every setting controller (dropping those with nothing left to do),
    /// makes the setting updates, and asks for the output size where a
    /// controller drove `width` or `height` and the output chain exists.
    pub fn update_video_mixing_state(&mut self, pts: u64, now: i64, real_input: bool) -> (r: VideoTick)
        requires
            old(self).wf(),
        ensures
            final(self).wf(),
            ({
                let st = old(self).video_mixing_state;
                let step = base_plate_step(
                    st.base_plate_timeout,
                    st.showing_base_plate,
                    st.fallback_timeout,
                    pts,
                    real_input,
                );
                let advanced = clock_advanced(st.last_pts, pts);
                &&& final(self).video_mixing_state.base_plate_timeout == step.0
                &&& final(self).video_mixing_state.showing_base_plate == step.1
                &&& r.show_base_plate == step.2
                &&& final(self).video_mixing_state.last_pts == Some(next_last_pts(st.last_pts, pts))
                &&& final(self).video_mixing_state.slot_controllers@.map_values(
                    |pc: PropertyController| property_view(pc),
                ) == ticked_property_controllers(st.slot_controllers@, now)
                &&& r.slot_updates@.map_values(|u: PadUpdate| pad_update_view(u))
                    == property_updates(st.slot_controllers@, now, advanced)
                &&& final(self).video_mixing_state.mixer_controllers@.map_values(
                    |sc: SettingController| setting_controller_view(sc),
                ) == ticked_setting_controllers(st.mixer_controllers@, now)
                &&& r.width == (if st.output_ready && setting_driven(st.mixer_controllers@, "width"@) {
                    int_setting_value(final(self).settings@, "width"@)
                } else {
                    None
                })
                &&& r.height == (if st.output_ready && setting_driven(st.mixer_controllers@, "height"@) {
                    int_setting_value(final(self).settings@, "height"@)
                } else {
                    None
                })
                &&& final(self).video_mixing_state.fallback_timeout == st.fallback_timeout
                &&& final(self).video_mixing_state.output_ready == st.output_ready
                &&& final(self).settings@.len() == old(self).settings@.len()
                &&& forall|k: int|
                    0 <= k < final(self).settings@.len() ==> {
                        &&& (#[trigger] final(self).settings@[k]).name == old(self).settings@[k].name
                        &&& final(self).settings@[k].kind() == old(self).settings@[k].kind()
                        &&& !setting_driven(st.mixer_controllers@, old(self).settings@[k].name@)
                            ==> final(self).settings@[k] == old(self).settings@[k]
                        &&& forall|j: int|
                            0 <= j < st.mixer_controllers@.len() && drives_setting(
                                #[trigger] st.mixer_controllers@[j],
                                old(self).settings@[k].name@,
                            ) ==> final(self).settings@[k] == setting_after_tick(
                                old(self).settings@[k],
                                st.mixer_controllers@[j],
                                now,
                                advanced,
                            )
                    }
            }),
            final(self).consumer_slots == old(self).consumer_slots,
            final(self).audio_mixing_state == old(self).audio_mixing_state,
            final(self).state_machine == old(self).state_machine,
    {
        let (advanced, last) = advance_clock(self.video_mixing_state.last_pts, pts);
        let mut show: Option<bool> = None;
        if !real_input {
            match self.video_mixing_state.base_plate_timeout {
                None => {
                    self.video_mixing_state.base_plate_timeout = Some(pts);
                },
                Some(t) => {
                    if !self.video_mixing_state.showing_base_plate && pts > t && pts - t
                        > self.video_mixing_state.fallback_timeout {
                        self.video_mixing_state.showing_base_plate = true;
                        show = Some(true);
                    }
                },
            }
        } else {
            if self.video_mixing_state.showing_base_plate {
                self.video_mixing_state.showing_base_plate = false;
                show = Some(false);
            }
            self.video_mixing_state.base_plate_timeout = None;
        }
        let slot_updates = tick_property_controllers(
            &mut self.video_mixing_state.slot_controllers,
            now,
            advanced,
        );
        let ghost old_settings = self.settings@;
        let ghost old_controllers = self.video_mixing_state.mixer_controllers@;
        let (had_width, had_height) = tick_setting_controllers(
            &mut self.video_mixing_state.mixer_controllers,
            &mut self.settings,
            now,
            advanced,
        );
        proof {
            assert forall|k: int, j: int|
                0 <= k < old_settings.len() && 0 <= j < old_controllers.len() && drives_setting(
                    #[trigger] old_controllers[j],
                    #[trigger] old_settings[k].name@,
                ) implies self.settings@[k] == setting_after_tick(
                old_settings[k],
                old_controllers[j],
                now,
                advanced,
            ) by {
                lemma_unique_sole_driver(old_controllers, j);
            }
        }
        let width = if self.video_mixing_state.output_ready && had_width {
            int_setting_of(&self.settings, "width")
        } else {
            None
        };
        let height = if self.video_mixing_state.output_ready && had_height {
            int_setting_of(&self.settings, "height")
        } else {
            None
        };
        self.video_mixing_state.last_pts = Some(last);
        VideoTick { show_base_plate: show, slot_updates, width, height }
    }

    /// Handles an output audio tick at output time `pts` and wall-clock time
    /// `now`: advances every audio slot controller, dropping those with
    /// nothing left to do, and returns the pad updates they ask for.
    pub fn update_audio_mixing_state(&mut self, pts: u64, now: i64) -> (r: Vec<PadUpdate>)
        requires
            old(self).wf(),
        ensures
            final(self).wf(),
            ({
                let st = old(self).audio_mixing_state;
                &&& final(self).audio_mixing_state.last_pts == Some(next_last_pts(st.last_pts, pts))
                &&& final(self).audio_mixing_state.slot_controllers@.map_values(
                    |pc: PropertyController| property_view(pc),
                ) == ticked_property_controllers(st.slot_controllers@, now)
                &&& r@.map_values(|u: PadUpdate| pad_update_view(u)) == property_updates(
                    st.slot_controllers@,
                    now,
                    clock_advanced(st.last_pts, pts),
                )
            }),
            final(self).consumer_slots == old(self).consumer_slots,
            final(self).video_mixing_state == old(self).video_mixing_state,
            final(self).settings == old(self).settings,
            final(self).state_machine == old(self).state_machine,
    {
        let (advanced, last) = advance_clock(self.audio_mixing_state.last_pts, pts);
        let updates = tick_property_controllers(
            &mut self.audio_mixing_state.slot_controllers,
            now,
            advanced,
        );
        self.audio_mixing_state.last_pts = Some(last);
        updates
    }

    /// The current value of every setting, by name.
    pub fn settings(&self) -> (r: Vec<(String, Value)>)
        ensures
            r@.len() == self.settings@.len(),
            forall|i: int|
                0 <= i < r@.len() ==> (#[trigger] r@[i]).0@ == self.settings@[i].name@ && r@[i].1
                    == self.settings@[i].current(),
    {
        let mut r: Vec<(String, Value)> = Vec::new();
        let mut i: usize = 0;
        while i < self.settings.len()
            invariant
                i <= self.settings@.len(),
                r@.len() == i,
                forall|j: int|
                    0 <= j < i ==> (#[trigger] r@[j]).0@ == self.settings@[j].name@ && r@[j].1
                        == self.settings@[j].current(),
            decreases self.settings@.len() - i,
        {
            r.push((self.settings[i].name.clone(), self.settings[i].as_value()));
            i = i + 1;
        }
        r
    }

    /// The pending points of every setting controller, by setting name.
    pub fn control_points(&self) -> (r: Vec<(String, Vec<ControlPoint>)>)
        ensures
            r@.len() == self.video_mixing_state.mixer_controllers@.len(),
            forall|i: int|
                0 <= i < r@.len() ==> (#[trigger] r@[i]).0@
                    == self.video_mixing_state.mixer_controllers@[i].setting@ && r@[i].1@
                    == self.video_mixing_state.mixer_controllers@[i].controller.points@,
    {
        let list = &self.video_mixing_state.mixer_controllers;
        let mut r: Vec<(String, Vec<ControlPoint>)> = Vec::new();
        let mut i: usize = 0;
        while i < list.len()
            invariant
                i <= list@.len(),
                r@.len() == i,
                forall|j: int|
                    0 <= j < i ==> (#[trigger] r@[j]).0@ == list@[j].setting@ && r@[j].1@
                        == list@[j].controller.points@,
            decreases list@.len() - i,
        {
            r.push((list[i].setting.clone(), list[i].controller.control_points()));
            i = i + 1;
        }
        r
    }

    /// The pending points of every slot controller, as slot id, property key
    /// (`video::<name>` or `audio::<name>`) and points; video first.
    pub fn slot_control_points(&self) -> (r: Vec<(String, String, Vec<ControlPoint>)>)
        ensures
            ({
                let v = self.video_mixing_state.slot_controllers@;
                let a = self.audio_mixing_state.slot_controllers@;
                &&& r@.len() == v.len() + a.len()
                &&& forall|i: int|
                    0 <= i < v.len() ==> (#[trigger] r@[i]).0@ == v[i].slot_id@ && r@[i].1@
                        == "video::"@ + v[i].property@ && r@[i].2@ == v[i].controller.points@
                &&& forall|i: int|
                    0 <= i < a.len() ==> (#[trigger] r@[v.len() + i]).0@ == a[i].slot_id@ && r@[v.len()
                        + i].1@ == "audio::"@ + a[i].property@ && r@[v.len() + i].2@
                        == a[i].controller.points@
            }),
    {
        let mut r: Vec<(String, String, Vec<ControlPoint>)> = Vec::new();
        let v = &self.video_mixing_state.slot_controllers;
        let mut i: usize = 0;
        while i < v.len()
            invariant
                i <= v@.len(),
                r@.len() == i,
                forall|j: int|
                    0 <= j < i ==> (#[trigger] r@[j]).0@ == v@[j].slot_id@ && r@[j].1@ == "video::"@
                        + v@[j].property@ && r@[j].2@ == v@[j].controller.points@,
            decreases v@.len() - i,
        {
            let mut key = "video::".to_owned();
            key.append(v[i].property.as_str());
            r.push((v[i].slot_id.clone(), key, v[i].controller.control_points()));
            i = i + 1;
        }
        let a = &self.audio_mixing_state.slot_controllers;
        let n = v.len();
        let mut i: usize = 0;
        while i < a.len()
            invariant
                n == v@.len(),
                i <= a@.len(),
                r@.len() == n + i,
                forall|j: int|
                    0 <= j < n ==> (#[trigger] r@[j]).0@ == v@[j].slot_id@ && r@[j].1@ == "video::"@
                        + v@[j].property@ && r@[j].2@ == v@[j].controller.points@,
                forall|j: int|
                    0 <= j < i ==> (#[trigger] r@[n + j]).0@ == a@[j].slot_id@ && r@[n + j].1@
                        == "audio::"@ + a@[j].property@ && r@[n + j].2@ == a@[j].controller.points@,
            decreases a@.len() - i,
        {
            let mut key = "audio::".to_owned();
            key.append(a[i].property.as_str());
            r.push((a[i].slot_id.clone(), key, a[i].controller.control_points()));
            i = i + 1;
        }
        r
    }

    /// Prepares the start of the media graph: reads the output settings,
    /// makes the output chain count as built, with the base plate timeout
    /// taken from `fallback-timeout`, and marks every slot to be attached.
    /// Fails where one of those settings is missing.
    pub fn start_pipeline(&mut self) -> (r: Result<StartPlan, MixerError>)
        requires
            old(self).wf(),
        ensures
            final(self).wf(),
            ({
                let s = old(self).settings@;
                let ok = int_setting_value(s, "width"@) is Some && int_setting_value(s, "height"@) is Some
                    && int_setting_value(s, "sample-rate"@) is Some && int_setting_value(
                    s,
                    "fallback-timeout"@,
                ) is Some && str_setting_value(s, "fallback-image"@) is Some;
                &&& r is Ok <==> ok
                &&& r is Err ==> r == Err::<StartPlan, MixerError>(MixerError::UnknownSetting) && *final(self)
                    == *old(self)
                &&& r matches Ok(plan) ==> {
                    &&& Some(plan.width) == int_setting_value(s, "width"@)
                    &&& Some(plan.height) == int_setting_value(s, "height"@)
                    &&& Some(plan.sample_rate) == int_setting_value(s, "sample-rate"@)
                    &&& Some(plan.fallback_image@) == str_setting_value(s, "fallback-image"@)
                    &&& final(self).video_mixing_state.fallback_timeout == millis_to_nanos(
                        int_setting_value(s, "fallback-timeout"@)->Some_0,
                    )
                    &&& final(self).video_mixing_state.output_ready
                    &&& plan.slots@.len() == old(self).consumer_slots@.len()
                    &&& forall|i: int|
                        0 <= i < plan.slots@.len() ==> #[trigger] plan.slots@[i]@
                            == old(self).consumer_slots@[i].id@
                    &&& final(self).consumer_slots@.len() == old(self).consumer_slots@.len()
                    &&& forall|i: int|
                        0 <= i < final(self).consumer_slots@.len() ==> #[trigger] final(self).consumer_slots@[i].id
                            == old(self).consumer_slots@[i].id && final(self).consumer_slots@[i].live
                    &&& final(self).settings == old(self).settings
                    &&& final(self).state_machine == old(self).state_machine
                    &&& final(self).video_mixing_state.slot_controllers == old(self).video_mixing_state.slot_controllers
                    &&& final(self).video_mixing_state.mixer_controllers == old(self).video_mixing_state.mixer_controllers
                    &&& final(self).audio_mixing_state == old(self).audio_mixing_state
                }
            }),
    {
        let width = int_setting_of(&self.settings, "width");
        let height = int_setting_of(&self.settings, "height");
        let sample_rate = int_setting_of(&self.settings, "sample-rate");
        let timeout = int_setting_of(&self.settings, "fallback-timeout");
        let image = str_setting_of(&self.settings, "fallback-image");
        let (width, height, sample_rate, timeout, image) = match (width, height, sample_rate, timeout, image) {
            (Some(w), Some(h), Some(sr), Some(t), Some(i)) => (w, h, sr, t, i),
            _ => {
                return Err(MixerError::UnknownSetting);
            },
        };
        let ghost before = self.consumer_slots@;
        let mut slots: Vec<String> = Vec::new();
        let mut i: usize = 0;
        while i < self.consumer_slots.len()
            invariant
                i <= self.consumer_slots@.len(),
                self.consumer_slots@.len() == before.len(),
                slots@.len() == i,
                forall|j: int| 0 <= j < i ==> #[trigger] slots@[j]@ == before[j].id@,
                forall|j: int|
                    0 <= j < self.consumer_slots@.len() ==> (#[trigger] self.consumer_slots@[j]).id
                        == before[j].id,
                forall|j: int| 0 <= j < i ==> (#[trigger] self.consumer_slots@[j]).live,
                forall|j: int|
                    i <= j < self.consumer_slots@.len() ==> #[trigger] self.consumer_slots@[j] == before[j],
                self.settings == old(self).settings,
                self.video_mixing_state == old(self).video_mixing_state,
                self.audio_mixing_state == old(self).audio_mixing_state,
                self.state_machine == old(self).state_machine,
                self.id == old(self).id,
                self.video_pad_properties == old(self).video_pad_properties,
                self.audio_pad_properties == old(self).audio_pad_properties,
                before == old(self).consumer_slots@,
            decreases self.consumer_slots@.len() - i,
        {
            let ghost mid = self.consumer_slots@;
            let mut slot = self.consumer_slots.remove(i);
            slots.push(slot.id.clone());
            slot.live = true;
            self.consumer_slots.insert(i, slot);
            assert(self.consumer_slots@ =~= mid.update(i as int, slot));
            i = i + 1;
        }
        proof {
            assert forall|a: int, b: int| 0 <= a < b < self.consumer_slots@.len() implies
                self.consumer_slots@[a].id@ != self.consumer_slots@[b].id@ by {
                assert(self.consumer_slots@[a].id == before[a].id);
                assert(self.consumer_slots@[b].id == before[b].id);
            }
        }
        self.video_mixing_state.fallback_timeout = if timeout < 0 {
            0
        } else {
            timeout as u64 * 1_000_000
        };
        self.video_mixing_state.output_ready = true;
        Ok(StartPlan { width, height, sample_rate, fallback_image: image, slots })
    }

    /// What moving to `target` asks of the mixer.
    pub fn transition(&self, target: State) -> (r: TransitionAction)
        ensures
            r == (match target {
                State::Initial => TransitionAction::Skip,
                State::Starting => TransitionAction::StartPipeline,
                State::Started => TransitionAction::Done,
                State::Stopping => TransitionAction::Skip,
                State::Stopped => TransitionAction::Shutdown,
            }),
    {
        match target {
            State::Initial => TransitionAction::Skip,
            State::Starting => TransitionAction::StartPipeline,
            State::Started => TransitionAction::Done,
            State::Stopping => TransitionAction::Skip,
            State::Stopped => TransitionAction::Shutdown,
        }
    }

    /// Removes every slot, as on shutdown; returns their ids, so that they
    /// can be detached from their producers.
    pub fn drain_slots(&mut self) -> (r: Vec<String>)
        requires
            old(self).wf(),
        ensures
            final(self).wf(),
            final(self).consumer_slots@.len() == 0,
            r@.len() == old(self).consumer_slots@.len(),
            forall|i: int| 0 <= i < r@.len() ==> #[trigger] r@[i]@ == old(self).consumer_slots@[i].id@,
            final(self).settings == old(self).settings,
            final(self).video_mixing_state == old(self).video_mixing_state,
            final(self).audio_mixing_state == old(self).audio_mixing_state,
            final(self).state_machine == old(self).state_machine,
    {
        let mut r: Vec<String> = Vec::new();
        let mut i: usize = 0;
        while i < self.consumer_slots.len()
            invariant
                i <= self.consumer_slots@.len(),
                r@.len() == i,
                forall|j: int| 0 <= j < i ==> #[trigger] r@[j]@ == self.consumer_slots@[j].id@,
            decreases self.consumer_slots@.len() - i,
        {
            r.push(self.consumer_slots[i].id.clone());
            i = i + 1;
        }
        self.consumer_slots = Vec::new();
        r
    }

    /// A snapshot of the mixer: its slots, schedule, state, settings and
    /// pending control points.
    pub fn node_info(&self) -> (r: MixerInfo)
        ensures
            r.slots@.len() == self.consumer_slots@.len(),
            forall|i: int| 0 <= i < r.slots@.len() ==> #[trigger] r.slots@[i]@ == self.consumer_slots@[i].id@,
            r.cue_time == self.state_machine.cue_time,
            r.end_time == self.state_machine.end_time,
            r.state == self.state_machine.state,
            r.settings@.len() == self.settings@.len(),
            forall|i: int|
                0 <= i < r.settings@.len() ==> (#[trigger] r.settings@[i]).0@ == self.settings@[i].name@
                    && r.settings@[i].1 == self.settings@[i].current(),
            r.control_points@.len() == self.video_mixing_state.mixer_controllers@.len(),
            forall|i: int|
                0 <= i < r.control_points@.len() ==> (#[trigger] r.control_points@[i]).0@
                    == self.video_mixing_state.mixer_controllers@[i].setting@ && r.control_points@[i].1@
                    == self.video_mixing_state.mixer_controllers@[i].controller.points@,
            ({
                let v = self.video_mixing_state.slot_controllers@;
                let a = self.audio_mixing_state.slot_controllers@;
                let sc = r.slot_control_points@;
                &&& sc.len() == v.len() + a.len()
                &&& forall|i: int|
                    0 <= i < v.len() ==> (#[trigger] sc[i]).0@ == v[i].slot_id@ && sc[i].1@ == "video::"@
                        + v[i].property@ && sc[i].2@ == v[i].controller.points@
                &&& forall|i: int|
                    0 <= i < a.len() ==> (#[trigger] sc[v.len() + i]).0@ == a[i].slot_id@ && sc[v.len()
                        + i].1@ == "audio::"@ + a[i].property@ && sc[v.len() + i].2@
                        == a[i].controller.points@
            }),
    {
        let mut slots: Vec<String> = Vec::new();
        let mut i: usize = 0;
        while i < self.consumer_slots.len()
            invariant
                i <= self.consumer_slots@.len(),
                slots@.len() == i,
                forall|j: int| 0 <= j < i ==> #[trigger] slots@[j]@ == self.consumer_slots@[j].id@,
            decreases self.consumer_slots@.len() - i,
        {
            slots.push(self.consumer_slots[i].id.clone());
            i = i + 1;
        }
        MixerInfo {
            slots,
            cue_time: self.state_machine.cue_time,
            end_time: self.state_machine.end_time,
            state: self.state_machine.state,
            settings: self.settings(),
            control_points: self.control_points(),
            slot_control_points: self.slot_control_points(),
        }
    }

    /// Splits a slot property key `<media>::<property>`, where media is
    /// `video` or `audio`.
    pub fn parse_slot_config_key(key: &str) -> (r: Result<(MediaKind, String), MixerError>)
        ensures
            split_once(key@) is None ==> r == Err::<(MediaKind, String), MixerError>(MixerError::MalformedKey),
            split_once(key@) matches Some((media, property)) ==> {
                if media == "video"@ {
                    r matches Ok((m, p)) && m == MediaKind::Video && p@ == property
                } else if media == "audio"@ {
                    r matches Ok((m, p)) && m == MediaKind::Audio && p@ == property
                } else {
                    r == Err::<(MediaKind, String), MixerError>(MixerError::UnknownMedia)
                }
            },
    {
        match split_at_separator(key) {
            None => Err(MixerError::MalformedKey),
            Some((media, property)) => {
                if same_text(media.as_str(), "video") {
                    Ok((MediaKind::Video, property))
                } else if same_text(media.as_str(), "audio") {
                    Ok((MediaKind::Audio, property))
                } else {
                    Err(MixerError::UnknownMedia)
                }
            },
        }
    }
    /// The mixer's settings with their default values.
    pub fn create_settings() -> (r: Vec<Setting>)
        ensures
            is_default_settings(r@),
            unique_setting_names(r@),
            forall|i: int| 0 <= i < r@.len() ==> #[trigger] r@[i].wf(),
    {
        let mut settings: Vec<Setting> = Vec::new();
        settings.push(int_setting("width", 1, 0x7fff_ffff, 1920, true));
        settings.push(int_setting("height", 1, 0x7fff_ffff, 1080, true));
        settings.push(int_setting("sample-rate", 1, 0x7fff_ffff, 48000, false));
        settings.push(
            Setting {
                name: "fallback-image".to_owned(),
                spec: SettingSpec::Str { current: String::new() },
                controllable: false,
            },
        );
        settings.push(int_setting("fallback-timeout", 0, 0x7fff_ffff, 500, true));
        proof {
            reveal_strlit("width");
            reveal_strlit("height");
            reveal_strlit("sample-rate");
            reveal_strlit("fallback-image");
            reveal_strlit("fallback-timeout");
            let s = settings@;
            assert(s[0].name@[0] != s[1].name@[0]);
            assert(s[0].name@[0] != s[2].name@[0]);
            assert(s[0].name@[0] != s[3].name@[0]);
            assert(s[0].name@[0] != s[4].name@[0]);
            assert(s[1].name@[0] != s[2].name@[0]);
            assert(s[1].name@[0] != s[3].name@[0]);
            assert(s[1].name@[0] != s[4].name@[0]);
            assert(s[2].name@[0] != s[3].name@[0]);
            assert(s[2].name@[0] != s[4].name@[0]);
            assert(s[3].name@.len() != s[4].name@.len());
        }
        settings
    }
}

/// A size that a control point sets is the size the output gets: where a
/// tick's controller of integer setting `k` (such as `width`) sets it to an
/// accepted `w`, the setting then holds `w`, which is the value that
/// `update_video_mixing_state` hands on for the output caps and the base
/// plate pad.
pub proof fn lemma_size_reaches_output(
    settings: Seq<Setting>,
    after: Seq<Setting>,
    k: int,
    sc: SettingController,
    now: i64,
    advanced: bool,
    w: i32,
)
    requires
        unique_setting_names(settings),
        0 <= k < settings.len(),
        settings[k].spec is I32,
        settings[k].accepts(Value::Int(w as i64)),
        update_of(sc.controller@, now, advanced) == Some(Update::Assign(Value::Int(w as i64))),
        after.len() == settings.len(),
        after[k] == setting_after_tick(settings[k], sc, now, advanced),
        forall|m: int| 0 <= m < after.len() ==> (#[trigger] after[m]).name == settings[m].name,
    ensures
        int_setting_value(after, settings[k].name@) == Some(w),
{
    let name = settings[k].name@;
    assert(after[k].spec == (SettingSpec::I32 {
        min: settings[k].spec->I32_min,
        max: settings[k].spec->I32_max,
        current: w,
    }));
    let m = choose|m: int| 0 <= m < after.len() && after[m].name@ == name && after[m].spec is I32;
    if m != k {
        assert(after[m].name == settings[m].name);
        if m < k {
            assert(settings[m].name@ != settings[k].name@);
        } else {
            assert(settings[k].name@ != settings[m].name@);
        }
    }
}

/// The last output time seen never goes back, whatever time a tick brings.
pub proof fn lemma_last_pts_monotone(last: Option<u64>, pts: u64)
    ensures
        next_last_pts(last, pts) >= pts,
        last matches Some(l) ==> next_last_pts(last, pts) >= l,
        clock_advanced(last, pts) ==> next_last_pts(last, pts) == pts,
{
}

/// The base plate after a run of ticks, each an output time and whether a
/// real input produced.
pub open spec fn run_base_plate(
    timeout: Option<u64>,
    showing: bool,
    fallback: u64,
    ticks: Seq<(u64, bool)>,
) -> (Option<u64>, bool)
    decreases ticks.len(),
{
    if ticks.len() == 0 {
        (timeout, showing)
    } else {
        let prev = run_base_plate(timeout, showing, fallback, ticks.drop_last());
        let step = base_plate_step(prev.0, prev.1, fallback, ticks.last().0, ticks.last().1);
        (step.0, step.1)
    }
}

proof fn lemma_base_plate_idle(showing: bool, fallback: u64, ticks: Seq<(u64, bool)>)
    requires
        ticks.len() > 0,
        forall|i: int| 0 <= i < ticks.len() ==> !(#[trigger] ticks[i]).1,
    ensures
        run_base_plate(None, showing, fallback, ticks).0 == Some(ticks[0].0),
        run_base_plate(None, showing, fallback, ticks).1 == (showing || exists|i: int|
            1 <= i < ticks.len() && ticks[i].0 > ticks[0].0 && (#[trigger] ticks[i]).0 - ticks[0].0
                > fallback),
    decreases ticks.len(),
{
    if ticks.len() > 1 {
        let init = ticks.drop_last();
        assert forall|i: int| 0 <= i < init.len() implies !(#[trigger] init[i]).1 by {
            assert(init[i] == ticks[i]);
        }
        lemma_base_plate_idle(showing, fallback, init);
        let n = ticks.len() - 1;
        assert(ticks[n] == ticks.last());
        assert(init[0] == ticks[0]);
        assert(!ticks[n].1);
        if ticks[n].0 > ticks[0].0 && ticks[n].0 - ticks[0].0 > fallback {
            assert(1 <= n < ticks.len() && ticks[n].0 > ticks[0].0 && ticks[n].0 - ticks[0].0 > fallback);
        }
        if exists|i: int| 1 <= i < init.len() && init[i].0 > init[0].0 && (#[trigger] init[i]).0 - init[0].0 > fallback {
            let i = choose|i: int| 1 <= i < init.len() && init[i].0 > init[0].0 && (#[trigger] init[i]).0 - init[0].0 > fallback;
            assert(ticks[i] == init[i]);
        }
        if exists|i: int| 1 <= i < ticks.len() && ticks[i].0 > ticks[0].0 && (#[trigger] ticks[i]).0 - ticks[0].0 > fallback {
            let i = choose|i: int| 1 <= i < ticks.len() && ticks[i].0 > ticks[0].0 && (#[trigger] ticks[i]).0 - ticks[0].0 > fallback;
            if i < n {
                assert(ticks[i] == init[i]);
            }
        }
    } else {
        reveal_with_fuel(run_base_plate, 2);
        assert(ticks.drop_last().len() == 0);
        assert(ticks.last() == ticks[0]);
        assert(!ticks[0].1);
    }
}

/// From a time at which the base plate had no timeout running (a new mixer,
/// or one whose real input produced on the last tick): if no real input
/// produces on any later tick, the base plate is shown exactly once some
/// tick came later than `fallback` after the first; and the first tick on
/// which a real input produces hides it.
pub proof fn lemma_base_plate_fallback(showing: bool, fallback: u64, ticks: Seq<(u64, bool)>)
    requires
        ticks.len() > 0,
        forall|i: int| 0 <= i < ticks.len() ==> !(#[trigger] ticks[i]).1,
    ensures
        run_base_plate(None, showing, fallback, ticks).1 == (showing || exists|i: int|
            1 <= i < ticks.len() && ticks[i].0 > ticks[0].0 && (#[trigger] ticks[i]).0 - ticks[0].0
                > fallback),
        forall|pts: u64|
            #![trigger base_plate_step(
                run_base_plate(None, showing, fallback, ticks).0,
                run_base_plate(None, showing, fallback, ticks).1,
                fallback,
                pts,
                true,
            )]
            {
                let after = run_base_plate(None, showing, fallback, ticks);
                let step = base_plate_step(after.0, after.1, fallback, pts, true);
                &&& !step.1
                &&& step.0 is None
                &&& after.1 ==> step.2 == Some(false)
            },
{
    lemma_base_plate_idle(showing, fallback, ticks);
}

} // verus!
