//! Scalar values carried by settings, pad properties and control points.
use vstd::prelude::*;

verus! {

/// The type of a scalar value.
#[derive(Clone, Copy, Debug, PartialEq, Eq, Structural)]
pub enum ValueKind {
    Int,
    Double,
    Bool,
    Str,
}

/// A scalar value.
///
/// A double is carried as its IEEE-754 bit pattern: the library never does
/// arithmetic on it, the media layer does.
#[derive(Clone, Debug, PartialEq)]
pub enum Value {
    Int(i64),
    Double(u64),
    Bool(bool),
    Str(String),
}

impl Value {
    pub open spec fn kind(&self) -> ValueKind {
        match self {
            Value::Int(_) => ValueKind::Int,
            Value::Double(_) => ValueKind::Double,
            Value::Bool(_) => ValueKind::Bool,
            Value::Str(_) => ValueKind::Str,
        }
    }

    /// Whether values of this kind can be interpolated.
    pub open spec fn is_numeric(&self) -> bool {
        self.kind() == ValueKind::Int || self.kind() == ValueKind::Double
    }

    pub fn value_kind(&self) -> (k: ValueKind)
        ensures
            k == self.kind(),
    {
        match self {
            Value::Int(_) => ValueKind::Int,
            Value::Double(_) => ValueKind::Double,
            Value::Bool(_) => ValueKind::Bool,
            Value::Str(_) => ValueKind::Str,
        }
    }

    pub fn numeric(&self) -> (r: bool)
        ensures
            r == self.is_numeric(),
    {
        match self {
            Value::Int(_) | Value::Double(_) => true,
            _ => false,
        }
    }

    /// A copy of this value.
    pub fn duplicate(&self) -> (r: Value)
        ensures
            r == *self,
    {
        match self {
            Value::Int(i) => Value::Int(*i),
            Value::Double(d) => Value::Double(*d),
            Value::Bool(b) => Value::Bool(*b),
            Value::Str(s) => Value::Str(s.clone()),
        }
    }
}

/// `n / d` rounded toward zero.
pub open spec fn div_toward_zero(n: int, d: int) -> int {
    if n >= 0 {
        n / d
    } else {
        -((-n) / d)
    }
}

/// The point at fraction `elapsed / span` of the way from `from` to `to`,
/// rounded toward zero.
pub open spec fn lerp(from: int, to: int, elapsed: int, span: int) -> int {
    div_toward_zero(from * (span - elapsed) + to * elapsed, span)
}

proof fn lemma_div_toward_zero_bounds(n: int, d: int, lo: int, hi: int)
    requires
        d > 0,
        lo * d <= n <= hi * d,
    ensures
        lo <= div_toward_zero(n, d) <= hi,
{
    if n >= 0 {
        assert(lo <= n / d) by (nonlinear_arith)
            requires d > 0, lo * d <= n, n >= 0;
        assert(n / d <= hi) by (nonlinear_arith)
            requires d > 0, n <= hi * d, n >= 0;
    } else {
        let m = -n;
        assert(m <= (-lo) * d) by (nonlinear_arith)
            requires m == -n, lo * d <= n;
        assert((-hi) * d <= m) by (nonlinear_arith)
            requires m == -n, n <= hi * d;
        assert(m / d <= -lo) by (nonlinear_arith)
            requires d > 0, m <= (-lo) * d, m > 0;
        assert(-hi <= m / d) by (nonlinear_arith)
            requires d > 0, (-hi) * d <= m, m > 0;
    }
}

proof fn lemma_weighted_bounds(from: int, to: int, elapsed: int, span: int)
    requires
        0 <= elapsed <= span,
        0 < span,
    ensures
        ({
            let n = from * (span - elapsed) + to * elapsed;
            &&& (if from <= to { from } else { to }) * span <= n
            &&& n <= (if from <= to { to } else { from }) * span
        }),
{
    let a = span - elapsed;
    assert(from * a + to * elapsed >= (if from <= to { from } else { to }) * span) by (nonlinear_arith)
        requires a + elapsed == span, a >= 0, elapsed >= 0;
    assert(from * a + to * elapsed <= (if from <= to { to } else { from }) * span) by (nonlinear_arith)
        requires a + elapsed == span, a >= 0, elapsed >= 0;
}

/// The value between `from` and `to` reached after `elapsed` of a linear
/// ramp lasting `span`.
pub fn blend_int(from: i64, to: i64, elapsed: u64, span: u64) -> (r: i64)
    requires
        0 < span,
        elapsed <= span,
    ensures
        r == lerp(from as int, to as int, elapsed as int, span as int),
        from <= to ==> from <= r <= to,
        to <= from ==> to <= r <= from,
{
    let rest: u64 = span - elapsed;
    proof {
        lemma_weighted_bounds(from as int, to as int, elapsed as int, span as int);
        let lo: int = if from <= to { from as int } else { to as int };
        let hi: int = if from <= to { to as int } else { from as int };
        assert(lo * span >= -0x8000_0000_0000_0000 * span) by (nonlinear_arith)
            requires lo >= -0x8000_0000_0000_0000, span > 0;
        assert(hi * span <= 0x7fff_ffff_ffff_ffff * span) by (nonlinear_arith)
            requires hi <= 0x7fff_ffff_ffff_ffff, span > 0;
        assert(0x8000_0000_0000_0000 * span <= 0x8000_0000_0000_0000 * 0xffff_ffff_ffff_ffff)
            by (nonlinear_arith)
            requires span <= 0xffff_ffff_ffff_ffff;
        assert((from as int) * (rest as int) >= -0x8000_0000_0000_0000 * 0xffff_ffff_ffff_ffff)
            by (nonlinear_arith)
            requires from >= -0x8000_0000_0000_0000, rest <= 0xffff_ffff_ffff_ffff, rest >= 0;
        assert((from as int) * (rest as int) <= 0x8000_0000_0000_0000 * 0xffff_ffff_ffff_ffff)
            by (nonlinear_arith)
            requires from <= 0x8000_0000_0000_0000, from >= -0x8000_0000_0000_0000, rest <= 0xffff_ffff_ffff_ffff, rest >= 0;
        assert((to as int) * (elapsed as int) >= -0x8000_0000_0000_0000 * 0xffff_ffff_ffff_ffff)
            by (nonlinear_arith)
            requires to >= -0x8000_0000_0000_0000, elapsed <= 0xffff_ffff_ffff_ffff, elapsed >= 0;
        assert((to as int) * (elapsed as int) <= 0x8000_0000_0000_0000 * 0xffff_ffff_ffff_ffff)
            by (nonlinear_arith)
            requires to <= 0x8000_0000_0000_0000, to >= -0x8000_0000_0000_0000, elapsed <= 0xffff_ffff_ffff_ffff, elapsed >= 0;
    }
    let a: i128 = (from as i128) * (rest as i128);
    let b: i128 = (to as i128) * (elapsed as i128);
    let n: i128 = a + b;
    let d: i128 = span as i128;
    let q: i128 = if n >= 0 {
        n / d
    } else {
        -((-n) / d)
    };
    proof {
        let lo: int = if from <= to { from as int } else { to as int };
        let hi: int = if from <= to { to as int } else { from as int };
        lemma_div_toward_zero_bounds(n as int, span as int, lo, hi);
    }
    q as i64
}

} // verus!
