//! Two-dimensional vectors tagged with the coordinate space they live in.
//!
//! There are three spaces: window pixels ([`ScreenSpace`]), pixel-buffer
//! cells ([`RenderSpace`]) and simulation coordinates ([`WorldSpace`]). The
//! tag is a type parameter, so two vectors of different spaces cannot be
//! added, subtracted or compared. A vector changes space only through
//! [`Vec2::scale`], [`Vec2::unscale`] and [`Vec2::cast_unit`].
use core::marker::PhantomData;
use core::ops::{Add, Div, Mul, Sub};
use vstd::prelude::*;
use vstd::std_specs::ops::{AddSpec, AddSpecImpl, DivSpec, DivSpecImpl, MulSpec, MulSpecImpl, SubSpec, SubSpecImpl};

verus! {

/// A coordinate space that a [`Vec2`] can be tagged with.
pub trait CoordSpace {

}

/// Raw window pixels.
#[derive(Debug, Clone, Copy, PartialEq, Eq, PartialOrd, Ord)]
pub struct ScreenSpace;

/// Cells of the pixel buffer: window pixels divided by the scale factor.
#[derive(Debug, Clone, Copy, PartialEq, Eq, PartialOrd, Ord)]
pub struct RenderSpace;

/// Simulation coordinates, relative to the camera.
#[derive(Debug, Clone, Copy, PartialEq, Eq, PartialOrd, Ord)]
pub struct WorldSpace;

impl CoordSpace for ScreenSpace {

}

impl CoordSpace for RenderSpace {

}

impl CoordSpace for WorldSpace {

}

/// How many units of `Src` make one unit of `Dst`.
#[derive(Debug, PartialEq, Eq)]
pub struct Scale<T: Copy, Src: CoordSpace, Dst: CoordSpace>(T, PhantomData<(Src, Dst)>);

impl<T: Copy, Src: CoordSpace, Dst: CoordSpace> Clone for Scale<T, Src, Dst> {
    fn clone(&self) -> (r: Self)
        ensures
            r == *self,
    {
        *self
    }
}

impl<T: Copy, Src: CoordSpace, Dst: CoordSpace> Copy for Scale<T, Src, Dst> {

}

impl<T: Copy, Src: CoordSpace, Dst: CoordSpace> Scale<T, Src, Dst> {
    /// The factor this scale stands for.
    pub closed spec fn value(self) -> T {
        self.0
    }

    pub fn new(val: T) -> (s: Self)
        ensures
            s.value() == val,
    {
        Self(val, PhantomData)
    }

    pub fn get(&self) -> (val: T)
        ensures
            val == self.value(),
    {
        self.0
    }
}

/// A pair of coordinates in the space `U`.
#[derive(Debug, PartialEq, Eq)]
pub struct Vec2<T, U: CoordSpace> {
    pub x: T,
    pub y: T,
    pub _unit: PhantomData<U>,
}

impl<T: Copy, U: CoordSpace> Clone for Vec2<T, U> {
    fn clone(&self) -> (r: Self)
        ensures
            r == *self,
    {
        *self
    }
}

impl<T: Copy, U: CoordSpace> Copy for Vec2<T, U> {

}

/// The vector `(x, y)` in whatever space the caller names.
#[inline]
pub fn vec2<T, U: CoordSpace>(x: T, y: T) -> (v: Vec2<T, U>)
    ensures
        v.x == x,
        v.y == y,
{
    Vec2 { x, y, _unit: PhantomData }
}

/// `v` bounded below by `lo` and above by `hi`.
pub open spec fn clamped(v: int, lo: int, hi: int) -> int {
    if v < lo {
        lo
    } else if v > hi {
        hi
    } else {
        v
    }
}

/// The quotient of machine division, which rounds towards zero.
pub open spec fn quotient(a: int, b: int) -> int {
    if a >= 0 {
        a / b
    } else {
        -((-a) / b)
    }
}

/// `num::clamp` on `i32`: `min` when `input` lies below it, `max` when
/// `input` lies above it, else `input`. The bounds must be in order,
/// since `num::clamp` asserts that in debug builds.
#[verifier::external_body]
fn num_clamp(input: i32, min: i32, max: i32) -> (r: i32)
    requires
        min <= max,
    ensures
        r == clamped(input as int, min as int, max as int),
{
    num::clamp(input, min, max)
}

/// `num::NumCast::from` from `u32` to `i32`: the same number when it is at
/// most `i32::MAX`, else `None`.
#[verifier::external_body]
fn num_cast_to_i32(n: u32) -> (r: Option<i32>)
    ensures
        r == (if n <= i32::MAX {
            Some(n as i32)
        } else {
            None
        }),
{
    num::NumCast::from(n)
}

/// `num::NumCast::from` from `i32` to `u32`: the same number when it is not
/// negative, else `None`.
#[verifier::external_body]
fn num_cast_to_u32(n: i32) -> (r: Option<u32>)
    ensures
        r == (if 0 <= n {
            Some(n as u32)
        } else {
            None
        }),
{
    num::NumCast::from(n)
}

impl<T: Copy, U: CoordSpace> Vec2<T, U> {
    /// Applies `f` to both components.
    pub fn map<T2, F: Fn(T) -> T2>(self, f: F) -> (r: Vec2<T2, U>)
        requires
            f.requires((self.x,)),
            f.requires((self.y,)),
        ensures
            f.ensures((self.x,), r.x),
            f.ensures((self.y,), r.y),
    {
        Vec2 { x: f(self.x), y: f(self.y), _unit: PhantomData }
    }

    /// The same coordinates, read in another space. For use at the
    /// boundaries where one space is mapped onto another.
    pub fn cast_unit<DstU: CoordSpace>(self) -> (r: Vec2<T, DstU>)
        ensures
            r.x == self.x,
            r.y == self.y,
    {
        Vec2 { x: self.x, y: self.y, _unit: PhantomData }
    }

    pub fn to_array(self) -> (a: [T; 2])
        ensures
            a@ == seq![self.x, self.y],
    {
        [self.x, self.y]
    }
}

impl<U: CoordSpace> Vec2<u32, U> {
    /// Whether both components fit a signed component.
    pub open spec fn fits_signed(self) -> bool {
        self.x <= i32::MAX && self.y <= i32::MAX
    }

    /// The same vector with signed components, where they fit.
    pub open spec fn signed(self) -> Vec2<i32, U> {
        Vec2 { x: self.x as i32, y: self.y as i32, _unit: PhantomData }
    }

    /// The same vector with signed components.
    pub fn cast(self) -> (r: Vec2<i32, U>)
        requires
            self.fits_signed(),
        ensures
            r == self.signed(),
            r.x == self.x,
            r.y == self.y,
    {
        let x = num_cast_to_i32(self.x);
        let y = num_cast_to_i32(self.y);
        Vec2 { x: x.unwrap(), y: y.unwrap(), _unit: PhantomData }
    }
}

impl<U: CoordSpace> Vec2<i32, U> {
    /// Whether neither component is negative.
    pub open spec fn fits_unsigned(self) -> bool {
        0 <= self.x && 0 <= self.y
    }

    /// The same vector with unsigned components.
    pub fn cast(self) -> (r: Vec2<u32, U>)
        requires
            self.fits_unsigned(),
        ensures
            r.x == self.x,
            r.y == self.y,
    {
        let x = num_cast_to_u32(self.x);
        let y = num_cast_to_u32(self.y);
        Vec2 { x: x.unwrap(), y: y.unwrap(), _unit: PhantomData }
    }

    /// The same vector with wide components, for arithmetic that must not overflow.
    pub fn widen(self) -> (r: Vec2<i64, U>)
        ensures
            r.x == self.x,
            r.y == self.y,
    {
        Vec2 { x: self.x as i64, y: self.y as i64, _unit: PhantomData }
    }

    /// Each component bounded by the matching components of `min` and `max`.
    pub fn clamp(self, min: Vec2<i32, U>, max: Vec2<i32, U>) -> (r: Vec2<i32, U>)
        requires
            min.x <= max.x,
            min.y <= max.y,
        ensures
            r.x == clamped(self.x as int, min.x as int, max.x as int),
            r.y == clamped(self.y as int, min.y as int, max.y as int),
    {
        Vec2 {
            x: num_clamp(self.x, min.x, max.x),
            y: num_clamp(self.y, min.y, max.y),
            _unit: PhantomData,
        }
    }

    /// Whether `self` times `factor` fits the machine's integers.
    pub open spec fn can_unscale(self, factor: int) -> bool {
        &&& i32::MIN <= self.x * factor <= i32::MAX
        &&& i32::MIN <= self.y * factor <= i32::MAX
    }

    /// Takes a vector of the space `U` to the space `Dst`: divides both
    /// components by the scale, rounding towards zero.
    pub fn scale<Dst: CoordSpace>(self, scale: Scale<i32, U, Dst>) -> (r: Vec2<i32, Dst>)
        requires
            scale.value() >= 1,
        ensures
            r.x == quotient(self.x as int, scale.value() as int),
            r.y == quotient(self.y as int, scale.value() as int),
    {
        let s = scale.get();
        Vec2 { x: self.x / s, y: self.y / s, _unit: PhantomData }
    }

    /// Takes a vector of the space `Dst` back to the space `Src`: multiplies
    /// both components by the scale.
    pub fn unscale<Src: CoordSpace>(self, scale: Scale<i32, Src, U>) -> (r: Vec2<i32, Src>)
        requires
            self.can_unscale(scale.value() as int),
        ensures
            r.x == self.x * scale.value(),
            r.y == self.y * scale.value(),
    {
        let s = scale.get();
        Vec2 { x: self.x * s, y: self.y * s, _unit: PhantomData }
    }
}

/// Dividing by a scale and multiplying by it again moves a coordinate
/// towards zero by less than the scale: nothing is lost but the remainder
/// of the division, and nothing at all where the scale divides the coordinate.
pub proof fn scale_then_unscale_is_near(v: int, s: int)
    requires
        s >= 1,
    ensures
        v >= 0 ==> v - s < quotient(v, s) * s <= v,
        v <= 0 ==> v <= quotient(v, s) * s < v + s,
        v % s == 0 ==> quotient(v, s) * s == v,
{
    lemma_division(v, s);
    if v < 0 {
        lemma_division(-v, s);
        let q = (-v) / s;
        assert((-q) * s == -(q * s)) by (nonlinear_arith);
        if v % s == 0 {
            let q1 = v / s;
            assert((q + q1) * s == q * s + q1 * s) by (nonlinear_arith);
            assert((-v) % s == 0) by (nonlinear_arith)
                requires
                    (q + q1) * s + (-v) % s == 0,
                    0 <= (-v) % s < s,
            ;
        }
    }
}

/// Multiplying by a scale and dividing by it again gives the coordinate back.
pub proof fn unscale_then_scale_is_identity(v: int, s: int)
    requires
        s >= 1,
    ensures
        quotient(v * s, s) == v,
{
    if v >= 0 {
        assert(v * s >= 0) by (nonlinear_arith)
            requires
                v >= 0,
                s >= 1,
        ;
        lemma_exact_division(v, s);
    } else {
        assert(v * s < 0) by (nonlinear_arith)
            requires
                v < 0,
                s >= 1,
        ;
        assert((-v) * s == -(v * s)) by (nonlinear_arith);
        lemma_exact_division(-v, s);
    }
}

proof fn lemma_division(a: int, s: int)
    requires
        s >= 1,
    ensures
        a == (a / s) * s + a % s,
        0 <= a % s < s,
{
    vstd::arithmetic::div_mod::lemma_fundamental_div_mod(a, s);
    assert((a / s) * s == s * (a / s)) by (nonlinear_arith);
}

proof fn lemma_exact_division(v: int, s: int)
    requires
        s >= 1,
    ensures
        (v * s) / s == v,
{
    lemma_division(v * s, s);
    let q = (v * s) / s;
    let m = (v * s) % s;
    assert((v - q) * s == v * s - q * s) by (nonlinear_arith);
    assert(v == q) by (nonlinear_arith)
        requires
            (v - q) * s == m,
            0 <= m < s,
    ;
}

impl<T: Add<Output = T> + Copy, U: CoordSpace> Add for Vec2<T, U> {
    type Output = Vec2<T, U>;

    fn add(self, rhs: Self) -> Self::Output {
        Vec2 { x: self.x.add(rhs.x), y: self.y.add(rhs.y), _unit: PhantomData }
    }
}

impl<T: Add<Output = T> + Copy, U: CoordSpace> AddSpecImpl for Vec2<T, U> {
    open spec fn obeys_add_spec() -> bool {
        T::obeys_add_spec()
    }

    open spec fn add_req(self, rhs: Self) -> bool {
        self.x.add_req(rhs.x) && self.y.add_req(rhs.y)
    }

    open spec fn add_spec(self, rhs: Self) -> Self::Output {
        Vec2 { x: self.x.add_spec(rhs.x), y: self.y.add_spec(rhs.y), _unit: PhantomData }
    }
}

impl<T: Sub<Output = T> + Copy, U: CoordSpace> Sub for Vec2<T, U> {
    type Output = Vec2<T, U>;

    fn sub(self, rhs: Self) -> Self::Output {
        Vec2 { x: self.x.sub(rhs.x), y: self.y.sub(rhs.y), _unit: PhantomData }
    }
}

impl<T: Sub<Output = T> + Copy, U: CoordSpace> SubSpecImpl for Vec2<T, U> {
    open spec fn obeys_sub_spec() -> bool {
        T::obeys_sub_spec()
    }

    open spec fn sub_req(self, rhs: Self) -> bool {
        self.x.sub_req(rhs.x) && self.y.sub_req(rhs.y)
    }

    open spec fn sub_spec(self, rhs: Self) -> Self::Output {
        Vec2 { x: self.x.sub_spec(rhs.x), y: self.y.sub_spec(rhs.y), _unit: PhantomData }
    }
}

impl<T: Mul<Output = T> + Copy, U: CoordSpace> Mul for Vec2<T, U> {
    type Output = Vec2<T, U>;

    fn mul(self, rhs: Self) -> Self::Output {
        Vec2 { x: self.x.mul(rhs.x), y: self.y.mul(rhs.y), _unit: PhantomData }
    }
}

impl<T: Mul<Output = T> + Copy, U: CoordSpace> MulSpecImpl for Vec2<T, U> {
    open spec fn obeys_mul_spec() -> bool {
        T::obeys_mul_spec()
    }

    open spec fn mul_req(self, rhs: Self) -> bool {
        self.x.mul_req(rhs.x) && self.y.mul_req(rhs.y)
    }

    open spec fn mul_spec(self, rhs: Self) -> Self::Output {
        Vec2 { x: self.x.mul_spec(rhs.x), y: self.y.mul_spec(rhs.y), _unit: PhantomData }
    }
}

impl<T: Div<Output = T> + Copy, U: CoordSpace> Div for Vec2<T, U> {
    type Output = Vec2<T, U>;

    fn div(self, rhs: Self) -> Self::Output {
        Vec2 { x: self.x.div(rhs.x), y: self.y.div(rhs.y), _unit: PhantomData }
    }
}

impl<T: Div<Output = T> + Copy, U: CoordSpace> DivSpecImpl for Vec2<T, U> {
    open spec fn obeys_div_spec() -> bool {
        T::obeys_div_spec()
    }

    open spec fn div_req(self, rhs: Self) -> bool {
        self.x.div_req(rhs.x) && self.y.div_req(rhs.y)
    }

    open spec fn div_spec(self, rhs: Self) -> Self::Output {
        Vec2 { x: self.x.div_spec(rhs.x), y: self.y.div_spec(rhs.y), _unit: PhantomData }
    }
}

impl<T: Add<Output = T> + Copy, U: CoordSpace> Add<T> for Vec2<T, U> {
    type Output = Vec2<T, U>;

    fn add(self, rhs: T) -> Self::Output {
        Vec2 { x: self.x.add(rhs), y: self.y.add(rhs), _unit: PhantomData }
    }
}

impl<T: Add<Output = T> + Copy, U: CoordSpace> AddSpecImpl<T> for Vec2<T, U> {
    open spec fn obeys_add_spec() -> bool {
        T::obeys_add_spec()
    }

    open spec fn add_req(self, rhs: T) -> bool {
        self.x.add_req(rhs) && self.y.add_req(rhs)
    }

    open spec fn add_spec(self, rhs: T) -> Self::Output {
        Vec2 { x: self.x.add_spec(rhs), y: self.y.add_spec(rhs), _unit: PhantomData }
    }
}

impl<T: Sub<Output = T> + Copy, U: CoordSpace> Sub<T> for Vec2<T, U> {
    type Output = Vec2<T, U>;

    fn sub(self, rhs: T) -> Self::Output {
        Vec2 { x: self.x.sub(rhs), y: self.y.sub(rhs), _unit: PhantomData }
    }
}

impl<T: Sub<Output = T> + Copy, U: CoordSpace> SubSpecImpl<T> for Vec2<T, U> {
    open spec fn obeys_sub_spec() -> bool {
        T::obeys_sub_spec()
    }

    open spec fn sub_req(self, rhs: T) -> bool {
        self.x.sub_req(rhs) && self.y.sub_req(rhs)
    }

    open spec fn sub_spec(self, rhs: T) -> Self::Output {
        Vec2 { x: self.x.sub_spec(rhs), y: self.y.sub_spec(rhs), _unit: PhantomData }
    }
}

impl<T: Mul<Output = T> + Copy, U: CoordSpace> Mul<T> for Vec2<T, U> {
    type Output = Vec2<T, U>;

    fn mul(self, rhs: T) -> Self::Output {
        Vec2 { x: self.x.mul(rhs), y: self.y.mul(rhs), _unit: PhantomData }
    }
}

impl<T: Mul<Output = T> + Copy, U: CoordSpace> MulSpecImpl<T> for Vec2<T, U> {
    open spec fn obeys_mul_spec() -> bool {
        T::obeys_mul_spec()
    }

    open spec fn mul_req(self, rhs: T) -> bool {
        self.x.mul_req(rhs) && self.y.mul_req(rhs)
    }

    open spec fn mul_spec(self, rhs: T) -> Self::Output {
        Vec2 { x: self.x.mul_spec(rhs), y: self.y.mul_spec(rhs), _unit: PhantomData }
    }
}

impl<T: Div<Output = T> + Copy, U: CoordSpace> Div<T> for Vec2<T, U> {
    type Output = Vec2<T, U>;

    fn div(self, rhs: T) -> Self::Output {
        Vec2 { x: self.x.div(rhs), y: self.y.div(rhs), _unit: PhantomData }
    }
}

impl<T: Div<Output = T> + Copy, U: CoordSpace> DivSpecImpl<T> for Vec2<T, U> {
    open spec fn obeys_div_spec() -> bool {
        T::obeys_div_spec()
    }

    open spec fn div_req(self, rhs: T) -> bool {
        self.x.div_req(rhs) && self.y.div_req(rhs)
    }

    open spec fn div_spec(self, rhs: T) -> Self::Output {
        Vec2 { x: self.x.div_spec(rhs), y: self.y.div_spec(rhs), _unit: PhantomData }
    }
}

} // verus!
