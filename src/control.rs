//! Control points and the controllers that apply them over time.
use vstd::prelude::*;
use crate::text::same_text;
use crate::value::{Value, ValueKind};

verus! {

/// How a control point's value is reached.
#[derive(Clone, Copy, Debug, PartialEq, Eq, Structural)]
pub enum Interpolation {
    /// The value is set at the point's time.
    Step,
    /// The value is approached along a straight line, reached at the point's time.
    Linear,
}

/// A timestamped target value.
#[derive(Clone, Debug, PartialEq)]
pub struct ControlPoint {
    pub id: String,
    /// Wall-clock instant, in nanoseconds since the Unix epoch.
    pub time: i64,
    pub value: Value,
    pub interpolation: Interpolation,
}

impl ControlPoint {
    /// A copy of this point.
    pub fn duplicate(&self) -> (r: ControlPoint)
        ensures
            r == *self,
    {
        ControlPoint {
            id: self.id.clone(),
            time: self.time,
            value: self.value.duplicate(),
            interpolation: self.interpolation,
        }
    }
}

/// A point that is approached along a line rather than stepped to.
pub open spec fn is_ramp(p: ControlPoint) -> bool {
    p.interpolation == Interpolation::Linear && p.value.is_numeric()
}

/// Holds of the points whose id is not `id`.
pub open spec fn id_differs(id: Seq<char>) -> spec_fn(ControlPoint) -> bool {
    |p: ControlPoint| p.id@ != id
}

/// Points in order of non-decreasing time.
pub open spec fn time_ordered(s: Seq<ControlPoint>) -> bool {
    forall|i: int, j: int| 0 <= i <= j < s.len() ==> s[i].time <= s[j].time
}

/// Where a linear approach toward the first pending point started.
#[derive(Debug)]
pub struct RampStart {
    pub time: i64,
    pub value: Value,
}

/// What a controller asks of its target on one tick.
#[derive(Clone, Debug, PartialEq)]
pub enum Update {
    /// Set the target to this value.
    Assign(Value),
    /// Set the target to the point `elapsed / span` of the way from `from`
    /// to `to`; `0 <= elapsed < span`.
    Blend { from: Value, to: Value, elapsed: u64, span: u64 },
}

/// Why a control point was refused.
#[derive(Clone, Copy, Debug, PartialEq, Eq, Structural)]
pub enum ControlError {
    /// The point's value is not of the target's type.
    TypeMismatch,
    /// The point is timed before a point already pending.
    OutOfOrder,
}

/// A stream of control points applied to one target.
#[derive(Debug)]
pub struct Controller {
    /// Pending points, oldest first.
    pub points: Vec<ControlPoint>,
    /// The running linear approach toward `points[0]`, if any.
    pub ramp: Option<RampStart>,
    /// The value last set on the target by this controller (or found there).
    pub value: Value,
}

/// The abstract state of a controller.
pub struct ControllerView {
    pub points: Seq<ControlPoint>,
    pub ramp: Option<RampStart>,
    pub value: Value,
}

impl View for Controller {
    type V = ControllerView;

    open spec fn view(&self) -> ControllerView {
        ControllerView { points: self.points@, ramp: self.ramp, value: self.value }
    }
}

/// The controller `c` after a tick at `now`: every due point is applied, and
/// a linear approach toward the new first point starts if none is running.
pub open spec fn synced(c: ControllerView, now: i64) -> ControllerView {
    let k = due(c.points, now) as int;
    let rest = c.points.subrange(k, c.points.len() as int);
    let value = if k > 0 {
        c.points[k - 1].value
    } else {
        c.value
    };
    ControllerView {
        points: rest,
        ramp: if rest.len() > 0 && is_ramp(rest[0]) {
            if k > 0 || c.ramp is None {
                Some(RampStart { time: now, value })
            } else {
                c.ramp
            }
        } else {
            None
        },
        value,
    }
}

/// The update that controller `c` asks of its target on a tick at `now`,
/// where `advanced` tells whether the media clock moved since the previous
/// tick.
pub open spec fn update_of(c: ControllerView, now: i64, advanced: bool) -> Option<Update> {
    let k = due(c.points, now) as int;
    if k > 0 {
        Some(Update::Assign(c.points[k - 1].value))
    } else if advanced && c.ramp is Some {
        let r = c.ramp->Some_0;
        Some(
            Update::Blend {
                from: r.value,
                to: c.points[0].value,
                elapsed: if now > r.time {
                    (now - r.time) as u64
                } else {
                    0
                },
                span: (c.points[0].time - r.time) as u64,
            },
        )
    } else {
        None
    }
}

/// Number of leading points of `s` that are due at `now`.
pub open spec fn due(s: Seq<ControlPoint>, now: i64) -> nat
    decreases s.len(),
{
    if s.len() > 0 && s[0].time <= now {
        1 + due(s.subrange(1, s.len() as int), now)
    } else {
        0
    }
}

proof fn lemma_due_step(s: Seq<ControlPoint>, now: i64, i: int)
    requires
        0 <= i < s.len(),
        s[i].time <= now,
    ensures
        due(s.subrange(i, s.len() as int), now) == 1 + due(s.subrange(i + 1, s.len() as int), now),
{
    let t = s.subrange(i, s.len() as int);
    assert(t.subrange(1, t.len() as int) =~= s.subrange(i + 1, s.len() as int));
}

proof fn lemma_due_bounds(s: Seq<ControlPoint>, now: i64)
    ensures
        due(s, now) <= s.len(),
        forall|j: int| 0 <= j < due(s, now) ==> s[j].time <= now,
        due(s, now) < s.len() ==> s[due(s, now) as int].time > now,
    decreases s.len(),
{
    if s.len() > 0 && s[0].time <= now {
        let t = s.subrange(1, s.len() as int);
        lemma_due_bounds(t, now);
        assert forall|j: int| 0 <= j < due(s, now) implies s[j].time <= now by {
            if j > 0 {
                assert(s[j] == t[j - 1]);
            }
        }
        if due(s, now) < s.len() {
            assert(s[due(s, now) as int] == t[due(t, now) as int]);
        }
    }
}

impl Controller {
    pub open spec fn wf(&self) -> bool {
        &&& time_ordered(self.points@)
        &&& forall|i: int| 0 <= i < self.points@.len() ==> #[trigger] self.points@[i].value.kind() == self.value.kind()
        &&& self.ramp matches Some(r) ==> {
            &&& self.points@.len() > 0
            &&& is_ramp(self.points@[0])
            &&& r.time < self.points@[0].time
            &&& r.value.kind() == self.value.kind()
        }
    }

    /// Whether the controller has nothing left to do.
    pub open spec fn is_done(&self) -> bool {
        self.points@.len() == 0
    }

    /// A controller with no pending points, for a target now holding `current`.
    pub fn new(current: Value) -> (r: Controller)
        ensures
            r.wf(),
            r.points@.len() == 0,
            r.ramp is None,
            r.value == current,
    {
        Controller { points: Vec::new(), ramp: None, value: current }
    }

    /// The kind of value the target takes.
    pub fn kind(&self) -> (k: ValueKind)
        ensures
            k == self.value.kind(),
    {
        self.value.value_kind()
    }

    /// Appends a point, which must be of the target's type and not timed
    /// before the last pending point.
    pub fn push_control_point(&mut self, point: ControlPoint) -> (r: Result<(), ControlError>)
        requires
            old(self).wf(),
        ensures
            final(self).wf(),
            r == Err::<(), ControlError>(ControlError::TypeMismatch) <==> point.value.kind()
                != old(self).value.kind(),
            r == Err::<(), ControlError>(ControlError::OutOfOrder) <==> (point.value.kind()
                == old(self).value.kind() && old(self).points@.len() > 0 && point.time
                < old(self).points@.last().time),
            r is Ok <==> point.value.kind() == old(self).value.kind() && !(old(self).points@.len()
                > 0 && point.time < old(self).points@.last().time),
            r is Ok ==> final(self).points@ == old(self).points@.push(point),
            r is Err ==> *final(self) == *old(self),
            final(self).ramp == old(self).ramp,
            final(self).value == old(self).value,
    {
        if point.value.value_kind() != self.value.value_kind() {
            return Err(ControlError::TypeMismatch);
        }
        let n = self.points.len();
        if n > 0 && point.time < self.points[n - 1].time {
            return Err(ControlError::OutOfOrder);
        }
        self.points.push(point);
        Ok(())
    }

    /// Drops every pending point with the given id.
    pub fn remove_control_point(&mut self, id: &str)
        requires
            old(self).wf(),
        ensures
            final(self).wf(),
            final(self).points@ == old(self).points@.filter(id_differs(id@)),
            final(self).ramp == (if old(self).points@.len() > 0 && old(self).points@[0].id@
                == id@ {
                None
            } else {
                old(self).ramp
            }),
            final(self).value == old(self).value,
    {
        let ghost before = self.points@;
        let ghost pred = id_differs(id@);
        let mut kept: Vec<ControlPoint> = Vec::new();
        let mut i: usize = 0;
        let n = self.points.len();
        while i < n
            invariant
                n == before.len(),
                pred == id_differs(id@),
                self.points@ == before,
                self.wf(),
                i <= n,
                kept@ == before.subrange(0, i as int).filter(pred),
                forall|a: int| 0 <= a < kept@.len() ==> #[trigger] kept@[a].value.kind()
                    == self.value.kind(),
                time_ordered(kept@),
                forall|a: int, j: int|
                    0 <= a < kept@.len() && i <= j < n ==> kept@[a].time <= before[j].time,
                i > 0 && pred(before[0]) ==> kept@.len() > 0 && kept@[0] == before[0],
            decreases n - i,
        {
            let p = &self.points[i];
            let keep = !same_text(p.id.as_str(), id);
            proof {
                assert(before.subrange(0, i + 1) =~= before.subrange(0, i as int).push(before[i as int]));
                before.subrange(0, i as int).lemma_filter_push(before[i as int], pred);
                assert(keep == pred(before[i as int]));
                if i == 0 {
                    assert(before.subrange(0, 0).filter(pred) =~= Seq::<ControlPoint>::empty()) by {
                        reveal_with_fuel(Seq::filter, 1);
                    }
                }
            }
            if keep {
                kept.push(p.duplicate());
            }
            i = i + 1;
        }
        assert(before.subrange(0, n as int) =~= before);
        let front_removed = n > 0 && same_text(self.points[0].id.as_str(), id);
        self.points = kept;
        if front_removed {
            self.ramp = None;
        }
    }

    /// Advances the controller to `now`.
    ///
    /// Every pending point whose time has come is applied, the last of them
    /// being the value set; a point reached along a line starts its
    /// approach on the first tick at which it heads the queue, from the value
    /// the target then holds, and on each later tick at which the media
    /// clock advanced the target is set to where the line stands at `now`.
    /// Returns whether nothing is left to do, and the update for the target.
    pub fn synchronize(&mut self, now: i64, advanced: bool) -> (r: (bool, Option<Update>))
        requires
            old(self).wf(),
        ensures
            final(self).wf(),
            final(self)@ == synced(old(self)@, now),
            r.1 == update_of(old(self)@, now, advanced),
            r.0 == final(self).is_done(),
    {
        let ghost pts = self.points@;
        let n = self.points.len();
        let mut k: usize = 0;
        assert(pts.subrange(0, n as int) =~= pts);
        while k < n && self.points[k].time <= now
            invariant
                k <= n,
                n == pts.len(),
                self.points@ == pts,
                due(pts, now) == k + due(pts.subrange(k as int, n as int), now),
            decreases n - k,
        {
            proof {
                lemma_due_step(pts, now, k as int);
            }
            k = k + 1;
        }
        proof {
            assert(due(pts.subrange(k as int, n as int), now) == 0);
            lemma_due_bounds(pts, now);
        }
        let update: Option<Update>;
        if k > 0 {
            let v = self.points[k - 1].value.duplicate();
            update = Some(Update::Assign(v.duplicate()));
            self.value = v;
            self.ramp = None;
        } else if advanced && self.ramp.is_some() {
            let r = self.ramp.as_ref().unwrap();
            let front = &self.points[0];
            let elapsed: u64 = if now > r.time {
                ((now as i128) - (r.time as i128)) as u64
            } else {
                0
            };
            let span: u64 = ((front.time as i128) - (r.time as i128)) as u64;
            update = Some(
                Update::Blend {
                    from: r.value.duplicate(),
                    to: front.value.duplicate(),
                    elapsed,
                    span,
                },
            );
        } else {
            update = None;
        }
        let rest = self.points.split_off(k);
        self.points = rest;
        proof {
            assert forall|a: int, b: int| 0 <= a <= b < self.points@.len() implies
                self.points@[a].time <= self.points@[b].time by {
                assert(self.points@[a] == pts[a + k]);
                assert(self.points@[b] == pts[b + k]);
            }
            assert forall|a: int| 0 <= a < self.points@.len() implies
                #[trigger] self.points@[a].value.kind() == self.value.kind() by {
                assert(self.points@[a] == pts[a + k]);
            }
        }
        if self.points.len() > 0 && self.ramp.is_none() && self.points[0].interpolation
            == Interpolation::Linear && self.points[0].value.numeric() {
            self.ramp = Some(RampStart { time: now, value: self.value.duplicate() });
        }
        (self.points.len() == 0, update)
    }

    /// The pending points.
    pub fn control_points(&self) -> (r: Vec<ControlPoint>)
        ensures
            r@ == self.points@,
    {
        let mut r: Vec<ControlPoint> = Vec::new();
        let mut i: usize = 0;
        while i < self.points.len()
            invariant
                i <= self.points@.len(),
                r@ == self.points@.subrange(0, i as int),
            decreases self.points@.len() - i,
        {
            r.push(self.points[i].duplicate());
            i = i + 1;
            assert(r@ =~= self.points@.subrange(0, i as int));
        }
        assert(r@ =~= self.points@);
        r
    }
}

/// Once the points of id `id` are dropped, no remaining point has that id.
pub proof fn lemma_removed_id_absent(points: Seq<ControlPoint>, id: Seq<char>)
    ensures
        forall|i: int|
            0 <= i < points.filter(id_differs(id)).len() ==> (#[trigger] points.filter(
                id_differs(id),
            )[i]).id@ != id,
{
    assert forall|i: int| 0 <= i < points.filter(id_differs(id)).len() implies (#[trigger] points.filter(
        id_differs(id),
    )[i]).id@ != id by {
        points.lemma_filter_pred(id_differs(id), i);
    }
}

/// Dropping the points of an id that no point has leaves the points as they
/// are.
pub proof fn lemma_remove_absent_id(points: Seq<ControlPoint>, id: Seq<char>)
    requires
        forall|i: int| 0 <= i < points.len() ==> (#[trigger] points[i]).id@ != id,
    ensures
        points.filter(id_differs(id)) == points,
    decreases points.len(),
{
    reveal_with_fuel(Seq::filter, 1);
    if points.len() > 0 {
        let init = points.drop_last();
        assert forall|i: int| 0 <= i < init.len() implies (#[trigger] init[i]).id@ != id by {
            assert(init[i] == points[i]);
        }
        lemma_remove_absent_id(init, id);
        assert(points =~= init.push(points.last()));
    } else {
        assert(points.filter(id_differs(id)) =~= points);
    }
}

/// During a linear approach that started at time `t0` from value `v0`
/// toward a point due at `t1` with value `v1`: a tick at `now`, before
/// `t1`, on which the media clock advanced asks for the target to stand
/// `now - t0` of the `t1 - t0` way from `v0` to `v1` (no way at all before
/// `t0`); a tick at or after `t1`, before any further point is due, sets
/// `v1`.
pub proof fn lemma_linear_segment(c: ControllerView, now: i64, advanced: bool)
    requires
        c.ramp is Some,
        c.points.len() > 0,
        c.ramp->Some_0.time < c.points[0].time,
    ensures
        ({
            let t0 = c.ramp->Some_0.time;
            let v0 = c.ramp->Some_0.value;
            let t1 = c.points[0].time;
            let v1 = c.points[0].value;
            &&& now < t1 && advanced ==> update_of(c, now, advanced) == Some(
                Update::Blend {
                    from: v0,
                    to: v1,
                    elapsed: if now > t0 {
                        (now - t0) as u64
                    } else {
                        0
                    },
                    span: (t1 - t0) as u64,
                },
            )
            &&& now < t1 && advanced ==> 0 <= (if now > t0 { now - t0 } else { 0 }) < t1 - t0
            &&& now < t1 && !advanced ==> update_of(c, now, advanced) is None
            &&& t1 <= now && (c.points.len() == 1 || c.points[1].time > now) ==> update_of(
                c,
                now,
                advanced,
            ) == Some(Update::Assign(v1))
        }),
{
    let s = c.points;
    if s[0].time <= now {
        let t = s.subrange(1, s.len() as int);
        if s.len() == 1 || s[1].time > now {
            if t.len() > 0 {
                assert(t[0] == s[1]);
            }
            assert(due(t, now) == 0);
            assert(due(s, now) == 1);
        }
    } else {
        assert(due(s, now) == 0);
    }
}

} // verus!
