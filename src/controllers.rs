//! The controllers that drive slot pad properties and mixer settings, as
//! collections: adding and removing points, and advancing them all on a tick.
use vstd::prelude::*;
use crate::control::{
    ControlError, ControlPoint, Controller, ControllerView, Update, id_differs, lemma_remove_absent_id,
    synced, update_of,
};
use crate::mixer::{unique_setting_names, find_setting};
use crate::setting::Setting;
use crate::text::same_text;
use crate::value::{Value, blend_int, lerp};

verus! {

/// A change to make on one slot's mixer pad.
#[derive(Debug)]
pub struct PadUpdate {
    pub slot_id: String,
    pub property: String,
    pub update: Update,
}

/// A controller driving one property of one slot's pad.
#[derive(Debug)]
pub struct PropertyController {
    pub slot_id: String,
    pub property: String,
    pub controller: Controller,
}

/// A controller driving one of the mixer's settings.
#[derive(Debug)]
pub struct SettingController {
    pub setting: String,
    pub controller: Controller,
}

/// Every controller of `s` is well formed.
pub open spec fn property_controllers_wf(s: Seq<PropertyController>) -> bool {
    forall|i: int| 0 <= i < s.len() ==> (#[trigger] s[i]).controller.wf()
}

/// Every controller of `s` is well formed.
pub open spec fn setting_controllers_wf(s: Seq<SettingController>) -> bool {
    forall|i: int| 0 <= i < s.len() ==> (#[trigger] s[i]).controller.wf()
}

/// Holds of the property controllers that do not belong to slot `id`.
pub open spec fn not_of_slot(id: Seq<char>) -> spec_fn(PropertyController) -> bool {
    |pc: PropertyController| pc.slot_id@ != id
}

/// The controllers of `v` that do not belong to slot `slot_id`.
pub(crate) fn drop_slot_controllers(v: Vec<PropertyController>, slot_id: &str) -> (r: Vec<PropertyController>)
    requires
        property_controllers_wf(v@),
    ensures
        r@ == v@.filter(not_of_slot(slot_id@)),
        property_controllers_wf(r@),
        unique_property_drivers(v@) ==> unique_property_drivers(r@),
{
    let ghost orig = v@;
    let ghost pred = not_of_slot(slot_id@);
    let mut v = v;
    let mut kept: Vec<PropertyController> = Vec::new();
    let ghost mut j: int = 0;
    assert(orig.subrange(0, 0).filter(pred) =~= Seq::<PropertyController>::empty()) by {
        reveal_with_fuel(Seq::filter, 1);
    }
    while v.len() > 0
        invariant
            pred == not_of_slot(slot_id@),
            0 <= j <= orig.len(),
            v@ == orig.subrange(j, orig.len() as int),
            kept@ == orig.subrange(0, j).filter(pred),
            property_controllers_wf(orig),
            property_controllers_wf(kept@),
        decreases v@.len(),
    {
        let pc = v.remove(0);
        proof {
            assert(pc == orig[j]);
            assert(orig.subrange(0, j + 1) =~= orig.subrange(0, j).push(orig[j]));
            orig.subrange(0, j).lemma_filter_push(orig[j], pred);
            assert(v@ =~= orig.subrange(j + 1, orig.len() as int));
        }
        if !same_text(pc.slot_id.as_str(), slot_id) {
            kept.push(pc);
        }
        proof {
            j = j + 1;
        }
    }
    assert(orig.subrange(0, j) =~= orig);
    proof {
        if unique_property_drivers(orig) {
            lemma_filter_keeps_unique_drivers(orig, pred);
        }
    }
    kept
}

/// Why controller `c` refuses `point`, if it does.
pub open spec fn push_error(c: Controller, point: ControlPoint) -> Option<ControlError> {
    if point.value.kind() != c.value.kind() {
        Some(ControlError::TypeMismatch)
    } else if c.points@.len() > 0 && point.time < c.points@.last().time {
        Some(ControlError::OutOfOrder)
    } else {
        None
    }
}

/// Controller `pc` drives property `property` of slot `slot`.
pub open spec fn drives(pc: PropertyController, slot: Seq<char>, property: Seq<char>) -> bool {
    pc.slot_id@ == slot && pc.property@ == property
}

/// Where the controller of property `property` of slot `slot` stands in
/// `s`, if there is one: the first that drives it.
pub open spec fn property_controller_index(
    s: Seq<PropertyController>,
    slot: Seq<char>,
    property: Seq<char>,
) -> Option<int> {
    if exists|i: int| 0 <= i < s.len() && drives(s[i], slot, property) {
        Some(
            choose|i: int|
                0 <= i < s.len() && drives(s[i], slot, property) && forall|j: int|
                    0 <= j < i ==> !drives(s[j], slot, property),
        )
    } else {
        None
    }
}

/// `new` is `old` once `point` was handed to the controller of property
/// `property` of slot `slot`, created for a target holding `current` where
/// there was none, with outcome `r`.
pub open spec fn pushed_slot_point(
    old: Seq<PropertyController>,
    new: Seq<PropertyController>,
    slot: Seq<char>,
    property: Seq<char>,
    point: ControlPoint,
    current: Value,
    r: Result<(), ControlError>,
) -> bool {
    match property_controller_index(old, slot, property) {
        Some(i) => {
            let c = old[i].controller;
            &&& match push_error(c, point) {
                Some(e) => r == Err::<(), ControlError>(e),
                None => r is Ok,
            }
            &&& r is Err ==> new == old
            &&& r is Ok ==> {
                &&& new.len() == old.len()
                &&& forall|j: int| 0 <= j < old.len() && j != i ==> new[j] == old[j]
                &&& new[i].slot_id == old[i].slot_id
                &&& new[i].property == old[i].property
                &&& new[i].controller.points@ == c.points@.push(point)
                &&& new[i].controller.ramp == c.ramp
                &&& new[i].controller.value == c.value
            }
        },
        None => {
            &&& r is Ok
            &&& new.len() == old.len() + 1
            &&& forall|j: int| 0 <= j < old.len() ==> new[j] == old[j]
            &&& drives(new.last(), slot, property)
            &&& new.last().controller.points@ == seq![point]
            &&& new.last().controller.ramp is None
            &&& new.last().controller.value == current
        },
    }
}

/// `new` is `old` with the points of id `id` dropped from the controllers
/// of property `property` of slot `slot`.
pub open spec fn removed_slot_points(
    old: Seq<PropertyController>,
    new: Seq<PropertyController>,
    slot: Seq<char>,
    property: Seq<char>,
    id: Seq<char>,
) -> bool {
    &&& new.len() == old.len()
    &&& forall|j: int|
        0 <= j < old.len() ==> if drives(old[j], slot, property) {
            &&& (#[trigger] new[j]).slot_id == old[j].slot_id
            &&& new[j].property == old[j].property
            &&& new[j].controller.points@ == old[j].controller.points@.filter(id_differs(id))
            &&& new[j].controller.value == old[j].controller.value
        } else {
            new[j] == old[j]
        }
}

fn find_property_controller(s: &Vec<PropertyController>, slot: &str, property: &str) -> (r: Option<
    usize,
>)
    ensures
        r matches Some(i) ==> property_controller_index(s@, slot@, property@) == Some(i as int)
            && i < s@.len() && drives(s@[i as int], slot@, property@),
        r is None ==> property_controller_index(s@, slot@, property@) is None,
{
    let mut i: usize = 0;
    while i < s.len()
        invariant
            i <= s@.len(),
            forall|j: int| 0 <= j < i ==> !drives(s@[j], slot@, property@),
        decreases s@.len() - i,
    {
        if same_text(s[i].slot_id.as_str(), slot) && same_text(s[i].property.as_str(), property) {
            proof {
                let k = choose|k: int|
                    0 <= k < s@.len() && drives(s@[k], slot@, property@) && forall|j: int|
                        0 <= j < k ==> !drives(s@[j], slot@, property@);
                if k < i {
                } else if k > i {
                    assert(!drives(s@[i as int], slot@, property@));
                }
            }
            return Some(i);
        }
        i = i + 1;
    }
    None
}

fn push_to_property_controller(list: &mut Vec<PropertyController>, i: usize, point: ControlPoint) -> (r:
    Result<(), ControlError>)
    requires
        property_controllers_wf(old(list)@),
        i < old(list)@.len(),
    ensures
        property_controllers_wf(final(list)@),
        ({
            let old = old(list)@;
            let new = final(list)@;
            let c = old[i as int].controller;
            &&& match push_error(c, point) {
                Some(e) => r == Err::<(), ControlError>(e),
                None => r is Ok,
            }
            &&& r is Err ==> new == old
            &&& r is Ok ==> {
                &&& new.len() == old.len()
                &&& forall|j: int| 0 <= j < old.len() && j != i ==> new[j] == old[j]
                &&& new[i as int].slot_id == old[i as int].slot_id
                &&& new[i as int].property == old[i as int].property
                &&& new[i as int].controller.points@ == c.points@.push(point)
                &&& new[i as int].controller.ramp == c.ramp
                &&& new[i as int].controller.value == c.value
            }
        }),
{
    let ghost before = list@;
    let mut pc = list.remove(i);
    assert(pc == before[i as int]);
    let ghost pc0 = pc;
    let r = pc.controller.push_control_point(point);
    list.insert(i, pc);
    proof {
        assert(list@ =~= before.update(i as int, pc));
        if r is Err {
            assert(pc == pc0);
            assert(list@ =~= before);
        }
        assert forall|j: int| 0 <= j < list@.len() implies (#[trigger] list@[j]).controller.wf() by {
            if j != i {
                assert(list@[j] == before[j]);
            }
        }
    }
    r
}

pub(crate) fn push_slot_point(
    list: &mut Vec<PropertyController>,
    slot: &str,
    property: &str,
    point: ControlPoint,
    current: Value,
) -> (r: Result<(), ControlError>)
    requires
        property_controllers_wf(old(list)@),
        point.value.kind() == current.kind(),
    ensures
        property_controllers_wf(final(list)@),
        pushed_slot_point(old(list)@, final(list)@, slot@, property@, point, current, r),
{
    match find_property_controller(list, slot, property) {
        Some(i) => push_to_property_controller(list, i, point),
        None => {
            let mut controller = Controller::new(current);
            let r = controller.push_control_point(point);
            assert(r is Ok);
            assert(controller.points@ =~= seq![point]);
            let ghost before = list@;
            list.push(
                PropertyController {
                    slot_id: slot.to_owned(),
                    property: property.to_owned(),
                    controller,
                },
            );
            proof {
                assert forall|j: int| 0 <= j < list@.len() implies (#[trigger] list@[j]).controller.wf() by {
                    if j < before.len() {
                        assert(list@[j] == before[j]);
                    }
                }
            }
            r
        },
    }
}

pub(crate) fn remove_slot_points(list: &mut Vec<PropertyController>, slot: &str, property: &str, id: &str)
    requires
        property_controllers_wf(old(list)@),
    ensures
        property_controllers_wf(final(list)@),
        removed_slot_points(old(list)@, final(list)@, slot@, property@, id@),
{
    let ghost before = list@;
    let mut i: usize = 0;
    while i < list.len()
        invariant
            i <= list@.len(),
            list@.len() == before.len(),
            property_controllers_wf(list@),
            forall|j: int|
                i <= j < before.len() ==> #[trigger] list@[j] == before[j],
            forall|j: int|
                0 <= j < i ==> if drives(before[j], slot@, property@) {
                    &&& (#[trigger] list@[j]).slot_id == before[j].slot_id
                    &&& list@[j].property == before[j].property
                    &&& list@[j].controller.points@ == before[j].controller.points@.filter(
                        id_differs(id@),
                    )
                    &&& list@[j].controller.value == before[j].controller.value
                } else {
                    list@[j] == before[j]
                },
        decreases before.len() - i,
    {
        if same_text(list[i].slot_id.as_str(), slot) && same_text(list[i].property.as_str(), property) {
            let ghost mid = list@;
            let mut pc = list.remove(i);
            pc.controller.remove_control_point(id);
            list.insert(i, pc);
            proof {
                assert forall|j: int| 0 <= j < list@.len() && j != i implies list@[j] == mid[j] by {}
            }
        }
        i = i + 1;
    }
}

/// Controller `sc` drives setting `name`.
pub open spec fn drives_setting(sc: SettingController, name: Seq<char>) -> bool {
    sc.setting@ == name
}

/// Where the controller of setting `name` stands in `s`, if there is one:
/// the first that drives it.
pub open spec fn setting_controller_index(s: Seq<SettingController>, name: Seq<char>) -> Option<int> {
    if exists|i: int| 0 <= i < s.len() && drives_setting(s[i], name) {
        Some(
            choose|i: int|
                0 <= i < s.len() && drives_setting(s[i], name) && forall|j: int|
                    0 <= j < i ==> !drives_setting(s[j], name),
        )
    } else {
        None
    }
}

/// `new` is `old` once `point` was handed to the controller of setting
/// `name`, created for a setting holding `current` where there was none,
/// with outcome `r`.
pub open spec fn pushed_setting_point(
    old: Seq<SettingController>,
    new: Seq<SettingController>,
    name: Seq<char>,
    point: ControlPoint,
    current: Value,
    r: Result<(), ControlError>,
) -> bool {
    match setting_controller_index(old, name) {
        Some(i) => {
            let c = old[i].controller;
            &&& match push_error(c, point) {
                Some(e) => r == Err::<(), ControlError>(e),
                None => r is Ok,
            }
            &&& r is Err ==> new == old
            &&& r is Ok ==> {
                &&& new.len() == old.len()
                &&& forall|j: int| 0 <= j < old.len() && j != i ==> new[j] == old[j]
                &&& new[i].setting == old[i].setting
                &&& new[i].controller.points@ == c.points@.push(point)
                &&& new[i].controller.ramp == c.ramp
                &&& new[i].controller.value == c.value
            }
        },
        None => {
            &&& r is Ok
            &&& new.len() == old.len() + 1
            &&& forall|j: int| 0 <= j < old.len() ==> new[j] == old[j]
            &&& drives_setting(new.last(), name)
            &&& new.last().controller.points@ == seq![point]
            &&& new.last().controller.ramp is None
            &&& new.last().controller.value == current
        },
    }
}

/// `new` is `old` with the points of id `id` dropped from the controllers
/// of setting `name`.
pub open spec fn removed_setting_points(
    old: Seq<SettingController>,
    new: Seq<SettingController>,
    name: Seq<char>,
    id: Seq<char>,
) -> bool {
    &&& new.len() == old.len()
    &&& forall|j: int|
        0 <= j < old.len() ==> if drives_setting(old[j], name) {
            &&& (#[trigger] new[j]).setting == old[j].setting
            &&& new[j].controller.points@ == old[j].controller.points@.filter(id_differs(id))
            &&& new[j].controller.value == old[j].controller.value
        } else {
            new[j] == old[j]
        }
}

fn find_setting_controller(s: &Vec<SettingController>, name: &str) -> (r: Option<usize>)
    ensures
        r matches Some(i) ==> setting_controller_index(s@, name@) == Some(i as int) && i < s@.len()
            && drives_setting(s@[i as int], name@),
        r is None ==> setting_controller_index(s@, name@) is None,
{
    let mut i: usize = 0;
    while i < s.len()
        invariant
            i <= s@.len(),
            forall|j: int| 0 <= j < i ==> !drives_setting(s@[j], name@),
        decreases s@.len() - i,
    {
        if same_text(s[i].setting.as_str(), name) {
            proof {
                let k = choose|k: int|
                    0 <= k < s@.len() && drives_setting(s@[k], name@) && forall|j: int|
                        0 <= j < k ==> !drives_setting(s@[j], name@);
                if k > i {
                    assert(!drives_setting(s@[i as int], name@));
                }
            }
            return Some(i);
        }
        i = i + 1;
    }
    None
}

fn push_to_setting_controller(list: &mut Vec<SettingController>, i: usize, point: ControlPoint) -> (r:
    Result<(), ControlError>)
    requires
        setting_controllers_wf(old(list)@),
        i < old(list)@.len(),
    ensures
        setting_controllers_wf(final(list)@),
        ({
            let old = old(list)@;
            let new = final(list)@;
            let c = old[i as int].controller;
            &&& match push_error(c, point) {
                Some(e) => r == Err::<(), ControlError>(e),
                None => r is Ok,
            }
            &&& r is Err ==> new == old
            &&& r is Ok ==> {
                &&& new.len() == old.len()
                &&& forall|j: int| 0 <= j < old.len() && j != i ==> new[j] == old[j]
                &&& new[i as int].setting == old[i as int].setting
                &&& new[i as int].controller.points@ == c.points@.push(point)
                &&& new[i as int].controller.ramp == c.ramp
                &&& new[i as int].controller.value == c.value
            }
        }),
{
    let ghost before = list@;
    let mut sc = list.remove(i);
    assert(sc == before[i as int]);
    let ghost sc0 = sc;
    let r = sc.controller.push_control_point(point);
    list.insert(i, sc);
    proof {
        assert(list@ =~= before.update(i as int, sc));
        if r is Err {
            assert(sc == sc0);
            assert(list@ =~= before);
        }
        assert forall|j: int| 0 <= j < list@.len() implies (#[trigger] list@[j]).controller.wf() by {
            if j != i {
                assert(list@[j] == before[j]);
            }
        }
    }
    r
}

pub(crate) fn push_setting_point(list: &mut Vec<SettingController>, name: &str, point: ControlPoint, current: Value) -> (r:
    Result<(), ControlError>)
    requires
        setting_controllers_wf(old(list)@),
        point.value.kind() == current.kind(),
    ensures
        setting_controllers_wf(final(list)@),
        pushed_setting_point(old(list)@, final(list)@, name@, point, current, r),
{
    match find_setting_controller(list, name) {
        Some(i) => push_to_setting_controller(list, i, point),
        None => {
            let mut controller = Controller::new(current);
            let r = controller.push_control_point(point);
            assert(r is Ok);
            assert(controller.points@ =~= seq![point]);
            let ghost before = list@;
            list.push(SettingController { setting: name.to_owned(), controller });
            proof {
                assert forall|j: int| 0 <= j < list@.len() implies (#[trigger] list@[j]).controller.wf() by {
                    if j < before.len() {
                        assert(list@[j] == before[j]);
                    }
                }
            }
            r
        },
    }
}

pub(crate) fn remove_setting_points(list: &mut Vec<SettingController>, name: &str, id: &str)
    requires
        setting_controllers_wf(old(list)@),
    ensures
        setting_controllers_wf(final(list)@),
        removed_setting_points(old(list)@, final(list)@, name@, id@),
{
    let ghost before = list@;
    let mut i: usize = 0;
    while i < list.len()
        invariant
            i <= list@.len(),
            list@.len() == before.len(),
            setting_controllers_wf(list@),
            forall|j: int| i <= j < before.len() ==> #[trigger] list@[j] == before[j],
            forall|j: int|
                0 <= j < i ==> if drives_setting(before[j], name@) {
                    &&& (#[trigger] list@[j]).setting == before[j].setting
                    &&& list@[j].controller.points@ == before[j].controller.points@.filter(
                        id_differs(id@),
                    )
                    &&& list@[j].controller.value == before[j].controller.value
                } else {
                    list@[j] == before[j]
                },
        decreases before.len() - i,
    {
        if same_text(list[i].setting.as_str(), name) {
            let ghost mid = list@;
            let mut sc = list.remove(i);
            sc.controller.remove_control_point(id);
            list.insert(i, sc);
            proof {
                assert forall|j: int| 0 <= j < list@.len() && j != i implies list@[j] == mid[j] by {}
            }
        }
        i = i + 1;
    }
}

/// The identity and state of a property controller.
pub open spec fn property_view(pc: PropertyController) -> (Seq<char>, Seq<char>, ControllerView) {
    (pc.slot_id@, pc.property@, pc.controller@)
}

/// The identity and change of a pad update.
pub open spec fn pad_update_view(u: PadUpdate) -> (Seq<char>, Seq<char>, Update) {
    (u.slot_id@, u.property@, u.update)
}

/// The property controllers of `s` after a tick at `now`, those with
/// nothing left to do dropped.
pub open spec fn ticked_property_controllers(s: Seq<PropertyController>, now: i64) -> Seq<
    (Seq<char>, Seq<char>, ControllerView),
>
    decreases s.len(),
{
    if s.len() == 0 {
        Seq::empty()
    } else {
        let prev = ticked_property_controllers(s.drop_last(), now);
        let c = s.last();
        let v = synced(c.controller@, now);
        if v.points.len() > 0 {
            prev.push((c.slot_id@, c.property@, v))
        } else {
            prev
        }
    }
}

/// The pad updates that the property controllers of `s` ask for on a tick.
pub open spec fn property_updates(s: Seq<PropertyController>, now: i64, advanced: bool) -> Seq<
    (Seq<char>, Seq<char>, Update),
>
    decreases s.len(),
{
    if s.len() == 0 {
        Seq::empty()
    } else {
        let prev = property_updates(s.drop_last(), now, advanced);
        let c = s.last();
        match update_of(c.controller@, now, advanced) {
            Some(u) => prev.push((c.slot_id@, c.property@, u)),
            None => prev,
        }
    }
}

/// Advances every controller of `list` to `now`, dropping those with
/// nothing left to do, and returns the pad updates they ask for.
pub(crate) fn tick_property_controllers(list: &mut Vec<PropertyController>, now: i64, advanced: bool) -> (r: Vec<
    PadUpdate,
>)
    requires
        property_controllers_wf(old(list)@),
    ensures
        property_controllers_wf(final(list)@),
        final(list)@.map_values(|pc: PropertyController| property_view(pc))
            == ticked_property_controllers(old(list)@, now),
        r@.map_values(|u: PadUpdate| pad_update_view(u)) == property_updates(old(list)@, now, advanced),
        unique_property_drivers(old(list)@) ==> unique_property_drivers(final(list)@),
{
    let ghost orig = list@;
    let mut pending: Vec<PropertyController> = Vec::new();
    std::mem::swap(&mut pending, list);
    let mut updates: Vec<PadUpdate> = Vec::new();
    let ghost mut j: int = 0;
    assert(list@.map_values(|pc: PropertyController| property_view(pc)) =~= Seq::empty());
    assert(updates@.map_values(|u: PadUpdate| pad_update_view(u)) =~= Seq::empty());
    assert(orig.subrange(0, 0) =~= Seq::<PropertyController>::empty());
    while pending.len() > 0
        invariant
            0 <= j <= orig.len(),
            pending@ == orig.subrange(j, orig.len() as int),
            property_controllers_wf(orig),
            property_controllers_wf(list@),
            list@.map_values(|pc: PropertyController| property_view(pc))
                == ticked_property_controllers(orig.subrange(0, j), now),
            updates@.map_values(|u: PadUpdate| pad_update_view(u)) == property_updates(
                orig.subrange(0, j),
                now,
                advanced,
            ),
        decreases pending@.len(),
    {
        let mut pc = pending.remove(0);
        proof {
            assert(pc == orig[j]);
            assert(orig.subrange(0, j + 1).drop_last() =~= orig.subrange(0, j));
            assert(orig.subrange(0, j + 1).last() == orig[j]);
            assert(pending@ =~= orig.subrange(j + 1, orig.len() as int));
        }
        let ghost before_list = list@;
        let ghost before_updates = updates@;
        let (done, update) = pc.controller.synchronize(now, advanced);
        match update {
            Some(u) => {
                updates.push(PadUpdate { slot_id: pc.slot_id.clone(), property: pc.property.clone(), update: u });
                assert(updates@.map_values(|u: PadUpdate| pad_update_view(u)) =~= before_updates.map_values(
                    |u: PadUpdate| pad_update_view(u),
                ).push(pad_update_view(updates@.last())));
            },
            None => {},
        }
        if !done {
            list.push(pc);
            assert(list@.map_values(|pc: PropertyController| property_view(pc)) =~= before_list.map_values(
                |pc: PropertyController| property_view(pc),
            ).push(property_view(list@.last())));
        }
        proof {
            j = j + 1;
        }
    }
    assert(orig.subrange(0, j) =~= orig);
    proof {
        lemma_ticked_property_keys(orig, now);
        let t = ticked_property_controllers(orig, now);
        if unique_property_drivers(orig) {
            assert forall|a: int, b: int| 0 <= a < b < list@.len() implies !drives(
                list@[b],
                list@[a].slot_id@,
                list@[a].property@,
            ) by {
                assert(property_view(list@[a]) == t[a]);
                assert(property_view(list@[b]) == t[b]);
            }
        }
    }
    updates
}

/// Setting `s` once update `u` was made to it; an update whose value the
/// setting refuses is not made.
pub open spec fn updated_setting(s: Setting, u: Update) -> Setting {
    match u {
        Update::Assign(v) => if s.accepts(v) {
            s.with_value(v)
        } else {
            s
        },
        Update::Blend { from: Value::Int(a), to: Value::Int(b), elapsed, span } => {
            let x = lerp(a as int, b as int, elapsed as int, span as int);
            if 0 < span && elapsed <= span && s.accepts(Value::Int(x as i64)) {
                s.with_value(Value::Int(x as i64))
            } else {
                s
            }
        },
        _ => s,
    }
}

fn apply_to_setting(s: &mut Setting, u: &Update)
    requires
        old(s).wf(),
    ensures
        *final(s) == updated_setting(*old(s), *u),
        final(s).wf(),
        final(s).name == old(s).name,
        final(s).controllable == old(s).controllable,
        final(s).kind() == old(s).kind(),
        forall|v: Value| final(s).accepts(v) == old(s).accepts(v),
{
    match u {
        Update::Assign(v) => {
            if s.validate_value(v).is_ok() {
                s.set_from_value(v);
            }
        },
        Update::Blend { from: Value::Int(a), to: Value::Int(b), elapsed, span } => {
            if 0 < *span && *elapsed <= *span {
                let x = blend_int(*a, *b, *elapsed, *span);
                let v = Value::Int(x);
                if s.validate_value(&v).is_ok() {
                    s.set_from_value(&v);
                }
            }
        },
        _ => {},
    }
}

/// Some controller of `s` drives setting `name`.
pub open spec fn setting_driven(s: Seq<SettingController>, name: Seq<char>) -> bool {
    exists|j: int| 0 <= j < s.len() && drives_setting(s[j], name)
}

/// The identity and state of a setting controller.
pub open spec fn setting_controller_view(sc: SettingController) -> (Seq<char>, ControllerView) {
    (sc.setting@, sc.controller@)
}

/// The setting controllers of `s` after a tick at `now`, those with
/// nothing left to do dropped.
pub open spec fn ticked_setting_controllers(s: Seq<SettingController>, now: i64) -> Seq<
    (Seq<char>, ControllerView),
>
    decreases s.len(),
{
    if s.len() == 0 {
        Seq::empty()
    } else {
        let prev = ticked_setting_controllers(s.drop_last(), now);
        let c = s.last();
        let v = synced(c.controller@, now);
        if v.points.len() > 0 {
            prev.push((c.setting@, v))
        } else {
            prev
        }
    }
}

/// The one controller of `s` that drives setting `name`, if exactly one does.
pub open spec fn sole_driver(s: Seq<SettingController>, name: Seq<char>) -> Option<int> {
    if exists|j: int|
        0 <= j < s.len() && drives_setting(s[j], name) && forall|m: int|
            0 <= m < s.len() && drives_setting(s[m], name) ==> m == j {
        Some(
            choose|j: int|
                0 <= j < s.len() && drives_setting(s[j], name) && forall|m: int|
                    0 <= m < s.len() && drives_setting(s[m], name) ==> m == j,
        )
    } else {
        None
    }
}

/// Setting `st` after a tick at `now` of controller `sc`.
pub open spec fn setting_after_tick(st: Setting, sc: SettingController, now: i64, advanced: bool) -> Setting {
    match update_of(sc.controller@, now, advanced) {
        Some(u) => updated_setting(st, u),
        None => st,
    }
}

/// Advances every controller of `list` to `now`, dropping those with
/// nothing left to do, and makes the updates they ask for on the settings
/// they drive. Returns whether a controller drove `width`, and `height`.
#[verifier::rlimit(100)]
pub(crate) fn tick_setting_controllers(
    list: &mut Vec<SettingController>,
    settings: &mut Vec<Setting>,
    now: i64,
    advanced: bool,
) -> (r: (bool, bool))
    requires
        setting_controllers_wf(old(list)@),
        unique_setting_names(old(settings)@),
        forall|k: int| 0 <= k < old(settings)@.len() ==> (#[trigger] old(settings)@[k]).wf(),
    ensures
        setting_controllers_wf(final(list)@),
        final(list)@.map_values(|sc: SettingController| setting_controller_view(sc))
            == ticked_setting_controllers(old(list)@, now),
        final(settings)@.len() == old(settings)@.len(),
        unique_setting_names(final(settings)@),
        forall|k: int|
            0 <= k < final(settings)@.len() ==> {
                &&& (#[trigger] final(settings)@[k]).wf()
                &&& final(settings)@[k].name == old(settings)@[k].name
                &&& final(settings)@[k].controllable == old(settings)@[k].controllable
                &&& final(settings)@[k].kind() == old(settings)@[k].kind()
                &&& forall|v: Value| final(settings)@[k].accepts(v) == old(settings)@[k].accepts(v)
                &&& !setting_driven(old(list)@, old(settings)@[k].name@) ==> final(settings)@[k]
                    == old(settings)@[k]
                &&& sole_driver(old(list)@, old(settings)@[k].name@) matches Some(j)
                    ==> final(settings)@[k] == setting_after_tick(old(settings)@[k], old(list)@[j], now, advanced)
            },
        r.0 == setting_driven(old(list)@, "width"@),
        r.1 == setting_driven(old(list)@, "height"@),
        unique_setting_drivers(old(list)@) ==> unique_setting_drivers(final(list)@),
{
    let ghost orig = list@;
    let ghost orig_settings = settings@;
    let mut pending: Vec<SettingController> = Vec::new();
    std::mem::swap(&mut pending, list);
    let mut had_width = false;
    let mut had_height = false;
    let ghost mut j: int = 0;
    assert(list@.map_values(|sc: SettingController| setting_controller_view(sc)) =~= Seq::empty());
    assert(orig.subrange(0, 0) =~= Seq::<SettingController>::empty());
    while pending.len() > 0
        invariant
            0 <= j <= orig.len(),
            pending@ == orig.subrange(j, orig.len() as int),
            setting_controllers_wf(orig),
            setting_controllers_wf(list@),
            list@.map_values(|sc: SettingController| setting_controller_view(sc))
                == ticked_setting_controllers(orig.subrange(0, j), now),
            settings@.len() == orig_settings.len(),
            unique_setting_names(orig_settings),
            forall|k: int|
                0 <= k < settings@.len() ==> {
                    &&& (#[trigger] settings@[k]).wf()
                    &&& settings@[k].name == orig_settings[k].name
                    &&& settings@[k].controllable == orig_settings[k].controllable
                    &&& settings@[k].kind() == orig_settings[k].kind()
                    &&& forall|v: Value| settings@[k].accepts(v) == orig_settings[k].accepts(v)
                    &&& !setting_driven(orig.subrange(0, j), orig_settings[k].name@) ==> settings@[k]
                        == orig_settings[k]
                    &&& sole_driver(orig, orig_settings[k].name@) matches Some(d) ==> d < j ==> settings@[k]
                        == setting_after_tick(orig_settings[k], orig[d], now, advanced)
                },
            had_width == setting_driven(orig.subrange(0, j), "width"@),
            had_height == setting_driven(orig.subrange(0, j), "height"@),
        decreases pending@.len(),
    {
        let mut sc = pending.remove(0);
        let ghost pre = orig.subrange(0, j);
        let ghost post = orig.subrange(0, j + 1);
        proof {
            assert(sc == orig[j]);
            assert(post.drop_last() =~= pre);
            assert(post.last() == orig[j]);
            assert(pending@ =~= orig.subrange(j + 1, orig.len() as int));
            assert forall|name: Seq<char>| setting_driven(post, name) <==> setting_driven(pre, name)
                || orig[j].setting@ == name by {
                if setting_driven(post, name) {
                    let m = choose|m: int| 0 <= m < post.len() && drives_setting(post[m], name);
                    if m < j {
                        assert(pre[m] == post[m]);
                    }
                }
                if setting_driven(pre, name) {
                    let m = choose|m: int| 0 <= m < pre.len() && drives_setting(pre[m], name);
                    assert(post[m] == pre[m]);
                }
                if orig[j].setting@ == name {
                    assert(drives_setting(post[j], name));
                }
            }
        }
        let ghost before_list = list@;
        let ghost settings_before = settings@;
        let ghost sc0 = sc;
        let (done, update) = sc.controller.synchronize(now, advanced);
        if same_text(sc.setting.as_str(), "width") {
            had_width = true;
        }
        if same_text(sc.setting.as_str(), "height") {
            had_height = true;
        }
        assert(unique_setting_names(settings@)) by {
            assert forall|a: int, b: int| 0 <= a < b < settings@.len() implies settings@[a].name@
                != settings@[b].name@ by {
                assert(settings@[a].name == orig_settings[a].name);
                assert(settings@[b].name == orig_settings[b].name);
            }
        }
        let ghost mut touched: int = -1;
        if let Some(u) = update {
            if let Some(k) = find_setting(settings, sc.setting.as_str()) {
                let ghost before = settings@;
                let mut st = settings.remove(k);
                apply_to_setting(&mut st, &u);
                settings.insert(k, st);
                proof {
                    touched = k as int;
                    assert forall|m: int| 0 <= m < settings@.len() && m != k implies settings@[m]
                        == before[m] by {}
                }
            }
        }
        proof {
            assert forall|k: int| 0 <= k < settings@.len() && k != touched implies #[trigger] settings@[k]
                == settings_before[k] by {}
            assert forall|k: int| 0 <= k < settings@.len() && (sole_driver(orig, orig_settings[k].name@) matches Some(d))
                && sole_driver(orig, orig_settings[k].name@)->Some_0 < j + 1 implies #[trigger] settings@[k]
                == setting_after_tick(orig_settings[k], orig[sole_driver(orig, orig_settings[k].name@)->Some_0], now, advanced) by {
                let d = sole_driver(orig, orig_settings[k].name@)->Some_0;
                if d == j {
                    assert(!setting_driven(pre, orig_settings[k].name@)) by {
                        if setting_driven(pre, orig_settings[k].name@) {
                            let m = choose|m: int| 0 <= m < pre.len() && drives_setting(pre[m], orig_settings[k].name@);
                            assert(pre[m] == orig[m]);
                        }
                    }
                    assert(settings_before[k] == orig_settings[k]);
                    if touched == k {
                    } else {
                        assert(update is None || settings_before[k].name@ != sc0.setting@);
                    }
                } else {
                    assert(d < j);
                    if touched == k {
                        assert(settings_before[k].name@ == sc0.setting@);
                        assert(drives_setting(orig[j], orig_settings[k].name@));
                    }
                }
            }
        }
        if !done {
            list.push(sc);
            assert(list@.map_values(|sc: SettingController| setting_controller_view(sc)) =~= before_list.map_values(
                |sc: SettingController| setting_controller_view(sc),
            ).push(setting_controller_view(list@.last())));
        }
        proof {
            j = j + 1;
        }
    }
    assert(orig.subrange(0, j) =~= orig);
    assert(unique_setting_names(settings@)) by {
        assert forall|a: int, b: int| 0 <= a < b < settings@.len() implies settings@[a].name@
            != settings@[b].name@ by {
            assert(settings@[a].name == orig_settings[a].name);
            assert(settings@[b].name == orig_settings[b].name);
        }
    }
    proof {
        lemma_ticked_settings_names(orig, now);
        let t = ticked_setting_controllers(orig, now);
        if unique_setting_drivers(orig) {
            assert forall|a: int, b: int| 0 <= a < b < list@.len() implies list@[a].setting@
                != list@[b].setting@ by {
                assert(setting_controller_view(list@[a]) == t[a]);
                assert(setting_controller_view(list@[b]) == t[b]);
            }
        }
    }
    (had_width, had_height)
}

proof fn lemma_first_setting_driver(s: Seq<SettingController>, name: Seq<char>, i: int)
    requires
        0 <= i < s.len(),
        drives_setting(s[i], name),
    ensures
        exists|k: int|
            0 <= k < s.len() && drives_setting(s[k], name) && forall|j: int|
                0 <= j < k ==> !drives_setting(s[j], name),
    decreases i,
{
    if exists|j: int| 0 <= j < i && drives_setting(s[j], name) {
        let j = choose|j: int| 0 <= j < i && drives_setting(s[j], name);
        lemma_first_setting_driver(s, name, j);
    } else {
        assert(forall|j: int| 0 <= j < i ==> !drives_setting(s[j], name));
    }
}

proof fn lemma_first_property_driver(s: Seq<PropertyController>, slot: Seq<char>, property: Seq<char>, i: int)
    requires
        0 <= i < s.len(),
        drives(s[i], slot, property),
    ensures
        exists|k: int|
            0 <= k < s.len() && drives(s[k], slot, property) && forall|j: int|
                0 <= j < k ==> !drives(s[j], slot, property),
    decreases i,
{
    if exists|j: int| 0 <= j < i && drives(s[j], slot, property) {
        let j = choose|j: int| 0 <= j < i && drives(s[j], slot, property);
        lemma_first_property_driver(s, slot, property, j);
    } else {
        assert(forall|j: int| 0 <= j < i ==> !drives(s[j], slot, property));
    }
}

/// No two controllers of `s` drive the same setting.
pub open spec fn unique_setting_drivers(s: Seq<SettingController>) -> bool {
    forall|i: int, j: int| 0 <= i < j < s.len() ==> s[i].setting@ != s[j].setting@
}

/// No two controllers of `s` drive the same property of the same slot.
pub open spec fn unique_property_drivers(s: Seq<PropertyController>) -> bool {
    forall|i: int, j: int|
        0 <= i < j < s.len() ==> !drives(s[j], s[i].slot_id@, s[i].property@)
}

proof fn lemma_ticked_settings_names(s: Seq<SettingController>, now: i64)
    ensures
        ticked_setting_controllers(s, now).len() <= s.len(),
        forall|k: int|
            0 <= k < ticked_setting_controllers(s, now).len() ==> exists|j: int|
                0 <= j < s.len() && s[j].setting@ == (#[trigger] ticked_setting_controllers(s, now)[k]).0,
        unique_setting_drivers(s) ==> forall|a: int, b: int|
            0 <= a < b < ticked_setting_controllers(s, now).len() ==> ticked_setting_controllers(
                s,
                now,
            )[a].0 != ticked_setting_controllers(s, now)[b].0,
    decreases s.len(),
{
    if s.len() > 0 {
        let init = s.drop_last();
        lemma_ticked_settings_names(init, now);
        let t = ticked_setting_controllers(s, now);
        let ti = ticked_setting_controllers(init, now);
        assert forall|k: int| 0 <= k < t.len() implies exists|j: int|
            0 <= j < s.len() && s[j].setting@ == (#[trigger] t[k]).0 by {
            if k < ti.len() {
                assert(t[k] == ti[k]);
                let j = choose|j: int| 0 <= j < init.len() && init[j].setting@ == ti[k].0;
                assert(s[j] == init[j]);
            } else {
                assert(s[s.len() - 1] == s.last());
            }
        }
        if unique_setting_drivers(s) {
            assert(unique_setting_drivers(init)) by {
                assert forall|a: int, b: int| 0 <= a < b < init.len() implies init[a].setting@
                    != init[b].setting@ by {
                    assert(init[a] == s[a] && init[b] == s[b]);
                }
            }
            assert forall|a: int, b: int| 0 <= a < b < t.len() implies t[a].0 != t[b].0 by {
                if b >= ti.len() {
                    assert(t[a] == ti[a]);
                    let j = choose|j: int| 0 <= j < init.len() && init[j].setting@ == ti[a].0;
                    assert(s[j] == init[j]);
                    assert(s[s.len() - 1] == s.last());
                } else {
                    assert(t[a] == ti[a] && t[b] == ti[b]);
                }
            }
        }
    }
}

proof fn lemma_ticked_property_keys(s: Seq<PropertyController>, now: i64)
    ensures
        ticked_property_controllers(s, now).len() <= s.len(),
        forall|k: int|
            0 <= k < ticked_property_controllers(s, now).len() ==> exists|j: int|
                0 <= j < s.len() && s[j].slot_id@ == (#[trigger] ticked_property_controllers(s, now)[k]).0
                    && s[j].property@ == ticked_property_controllers(s, now)[k].1,
        unique_property_drivers(s) ==> forall|a: int, b: int|
            0 <= a < b < ticked_property_controllers(s, now).len() ==> !(ticked_property_controllers(
                s,
                now,
            )[a].0 == ticked_property_controllers(s, now)[b].0 && ticked_property_controllers(
                s,
                now,
            )[a].1 == ticked_property_controllers(s, now)[b].1),
    decreases s.len(),
{
    if s.len() > 0 {
        let init = s.drop_last();
        lemma_ticked_property_keys(init, now);
        let t = ticked_property_controllers(s, now);
        let ti = ticked_property_controllers(init, now);
        assert forall|k: int| 0 <= k < t.len() implies exists|j: int|
            0 <= j < s.len() && s[j].slot_id@ == (#[trigger] t[k]).0 && s[j].property@ == t[k].1 by {
            if k < ti.len() {
                assert(t[k] == ti[k]);
                let j = choose|j: int|
                    0 <= j < init.len() && init[j].slot_id@ == ti[k].0 && init[j].property@ == ti[k].1;
                assert(s[j] == init[j]);
            } else {
                assert(s[s.len() - 1] == s.last());
            }
        }
        if unique_property_drivers(s) {
            assert(unique_property_drivers(init)) by {
                assert forall|a: int, b: int| 0 <= a < b < init.len() implies !drives(
                    init[b],
                    init[a].slot_id@,
                    init[a].property@,
                ) by {
                    assert(init[a] == s[a] && init[b] == s[b]);
                }
            }
            assert forall|a: int, b: int| 0 <= a < b < t.len() implies !(t[a].0 == t[b].0 && t[a].1
                == t[b].1) by {
                if b >= ti.len() {
                    assert(t[a] == ti[a]);
                    let j = choose|j: int|
                        0 <= j < init.len() && init[j].slot_id@ == ti[a].0 && init[j].property@ == ti[a].1;
                    assert(s[j] == init[j]);
                    assert(s[s.len() - 1] == s.last());
                    assert(t[b].0 == s.last().slot_id@ && t[b].1 == s.last().property@);
                    assert(!drives(s[s.len() - 1], s[j].slot_id@, s[j].property@));
                } else {
                    assert(t[a] == ti[a] && t[b] == ti[b]);
                }
            }
        }
    }
}

proof fn lemma_filter_keeps_unique_drivers(s: Seq<PropertyController>, pred: spec_fn(PropertyController) -> bool)
    requires
        unique_property_drivers(s),
    ensures
        unique_property_drivers(s.filter(pred)),
        forall|k: int|
            0 <= k < s.filter(pred).len() ==> exists|j: int|
                0 <= j < s.len() && #[trigger] s.filter(pred)[k] == s[j],
    decreases s.len(),
{
    reveal_with_fuel(Seq::filter, 1);
    if s.len() > 0 {
        let init = s.drop_last();
        assert(unique_property_drivers(init)) by {
            assert forall|a: int, b: int| 0 <= a < b < init.len() implies !drives(
                init[b],
                init[a].slot_id@,
                init[a].property@,
            ) by {
                assert(init[a] == s[a] && init[b] == s[b]);
            }
        }
        lemma_filter_keeps_unique_drivers(init, pred);
        let f = s.filter(pred);
        let fi = init.filter(pred);
        assert forall|k: int| 0 <= k < f.len() implies exists|j: int|
            0 <= j < s.len() && #[trigger] f[k] == s[j] by {
            if k < fi.len() {
                assert(f[k] == fi[k]);
                let j = choose|j: int| 0 <= j < init.len() && fi[k] == init[j];
                assert(s[j] == init[j]);
            } else {
                assert(f[k] == s[s.len() - 1]);
            }
        }
        assert forall|a: int, b: int| 0 <= a < b < f.len() implies !drives(
            f[b],
            f[a].slot_id@,
            f[a].property@,
        ) by {
            if b >= fi.len() {
                assert(f[a] == fi[a]);
                let j = choose|j: int| 0 <= j < init.len() && fi[a] == init[j];
                assert(s[j] == init[j]);
                assert(f[b] == s[s.len() - 1]);
            } else {
                assert(f[a] == fi[a] && f[b] == fi[b]);
            }
        }
    }
}

pub(crate) proof fn lemma_unique_sole_driver(s: Seq<SettingController>, j: int)
    requires
        unique_setting_drivers(s),
        0 <= j < s.len(),
    ensures
        sole_driver(s, s[j].setting@) == Some(j),
{
    let name = s[j].setting@;
    assert forall|m: int| 0 <= m < s.len() && drives_setting(s[m], name) implies m == j by {
        if m < j {
            assert(s[m].setting@ != s[j].setting@);
        } else if m > j {
            assert(s[j].setting@ != s[m].setting@);
        }
    }
    let d = choose|d: int|
        0 <= d < s.len() && drives_setting(s[d], name) && forall|m: int|
            0 <= m < s.len() && drives_setting(s[m], name) ==> m == d;
    assert(drives_setting(s[j], name));
}

/// Whatever update a controller asks of a setting, the setting stays within
/// its range.
pub proof fn lemma_update_keeps_range(s: Setting, u: Update)
    requires
        s.wf(),
    ensures
        updated_setting(s, u).wf(),
        updated_setting(s, u).kind() == s.kind(),
{
}

/// Adding a point to a setting's controller and then dropping the points
/// of its id leaves the pending points of every controller as they were,
/// where no point of that setting had that id; a controller that the
/// addition created is left with none.
pub proof fn lemma_setting_point_round_trip(
    before: Seq<SettingController>,
    added: Seq<SettingController>,
    removed: Seq<SettingController>,
    name: Seq<char>,
    point: ControlPoint,
    current: Value,
    r: Result<(), ControlError>,
)
    requires
        pushed_setting_point(before, added, name, point, current, r),
        removed_setting_points(added, removed, name, point.id@),
        forall|i: int, j: int|
            0 <= i < before.len() && drives_setting(before[i], name) && 0 <= j
                < before[i].controller.points@.len() ==> (#[trigger] before[i].controller.points@[j]).id@
                != point.id@,
    ensures
        r is Ok ==> {
            &&& removed.len() >= before.len()
            &&& forall|i: int|
                0 <= i < before.len() ==> (#[trigger] removed[i]).controller.points@
                    == before[i].controller.points@
            &&& removed.len() > before.len() ==> removed.last().controller.points@.len() == 0
        },
        r is Err ==> forall|i: int|
            0 <= i < before.len() ==> (#[trigger] removed[i]).controller.points@
                == before[i].controller.points@,
{
    let id = point.id@;
    if exists|i: int| 0 <= i < before.len() && drives_setting(before[i], name) {
        let i = choose|i: int| 0 <= i < before.len() && drives_setting(before[i], name);
        lemma_first_setting_driver(before, name, i);
    }
    assert forall|i: int| 0 <= i < before.len() implies (#[trigger] removed[i]).controller.points@
        == before[i].controller.points@ by {
        let pts = before[i].controller.points@;
        let pushed_here = r is Ok && setting_controller_index(before, name) == Some(i);
        if pushed_here {
            assert(added[i].controller.points@ == pts.push(point));
        } else {
            assert(added[i] == before[i]);
        }
        if drives_setting(before[i], name) {
            assert forall|j: int| 0 <= j < pts.len() implies (#[trigger] pts[j]).id@ != id by {
                assert(before[i].controller.points@[j] == pts[j]);
            }
            lemma_remove_absent_id(pts, id);
            pts.lemma_filter_push(point, id_differs(id));
        }
    }
    if r is Ok && removed.len() > before.len() {
        let n = before.len() as int;
        assert(removed.last() == removed[n]);
        let single = seq![point];
        reveal_with_fuel(Seq::filter, 2);
        assert(single.drop_last() =~= Seq::<ControlPoint>::empty());
        assert(single.filter(id_differs(id)) =~= Seq::<ControlPoint>::empty());
    }
}

/// Adding a point to a slot property's controller and then dropping the
/// points of its id leaves the pending points of every controller as they
/// were, where no point of that property had that id; a controller that the
/// addition created is left with none.
pub proof fn lemma_slot_point_round_trip(
    before: Seq<PropertyController>,
    added: Seq<PropertyController>,
    removed: Seq<PropertyController>,
    slot: Seq<char>,
    property: Seq<char>,
    point: ControlPoint,
    current: Value,
    r: Result<(), ControlError>,
)
    requires
        pushed_slot_point(before, added, slot, property, point, current, r),
        removed_slot_points(added, removed, slot, property, point.id@),
        forall|i: int, j: int|
            0 <= i < before.len() && drives(before[i], slot, property) && 0 <= j
                < before[i].controller.points@.len() ==> (#[trigger] before[i].controller.points@[j]).id@
                != point.id@,
    ensures
        r is Ok ==> {
            &&& removed.len() >= before.len()
            &&& forall|i: int|
                0 <= i < before.len() ==> (#[trigger] removed[i]).controller.points@
                    == before[i].controller.points@
            &&& removed.len() > before.len() ==> removed.last().controller.points@.len() == 0
        },
        r is Err ==> forall|i: int|
            0 <= i < before.len() ==> (#[trigger] removed[i]).controller.points@
                == before[i].controller.points@,
{
    let id = point.id@;
    if exists|i: int| 0 <= i < before.len() && drives(before[i], slot, property) {
        let i = choose|i: int| 0 <= i < before.len() && drives(before[i], slot, property);
        lemma_first_property_driver(before, slot, property, i);
    }
    assert forall|i: int| 0 <= i < before.len() implies (#[trigger] removed[i]).controller.points@
        == before[i].controller.points@ by {
        let pts = before[i].controller.points@;
        let pushed_here = r is Ok && property_controller_index(before, slot, property) == Some(i);
        if pushed_here {
            assert(added[i].controller.points@ == pts.push(point));
        } else {
            assert(added[i] == before[i]);
        }
        if drives(before[i], slot, property) {
            assert forall|j: int| 0 <= j < pts.len() implies (#[trigger] pts[j]).id@ != id by {
                assert(before[i].controller.points@[j] == pts[j]);
            }
            lemma_remove_absent_id(pts, id);
            pts.lemma_filter_push(point, id_differs(id));
        }
    }
    if r is Ok && removed.len() > before.len() {
        let n = before.len() as int;
        assert(removed.last() == removed[n]);
        let single = seq![point];
        reveal_with_fuel(Seq::filter, 2);
        assert(single.drop_last() =~= Seq::<ControlPoint>::empty());
        assert(single.filter(id_differs(id)) =~= Seq::<ControlPoint>::empty());
    }
}



} // verus!
