//! Plain vector value types and the minimal numeric interface they rest on.
//!
//! The numeric interface asks only for what the vector operations use:
//! addition, subtraction, multiplication, a zero, and a range predicate
//! that says which mathematical integers the type can hold.

use vstd::prelude::*;

verus! {

/// A base numeric type: a value readable as a mathematical integer, a
/// range of representable integers, and exact arithmetic inside it.
pub trait BaseNum: Copy + Sized {
    /// The mathematical value.
    spec fn val(self) -> int;

    /// Whether the type can hold the integer `x`.
    spec fn fits(x: int) -> bool;

    /// Exact addition; the mathematical sum must fit the type.
    fn num_add(self, rhs: Self) -> (r: Self)
        requires
            Self::fits(self.val() + rhs.val()),
        ensures
            r.val() == self.val() + rhs.val(),
    ;

    /// Exact subtraction; the mathematical difference must fit the type.
    fn num_sub(self, rhs: Self) -> (r: Self)
        requires
            Self::fits(self.val() - rhs.val()),
        ensures
            r.val() == self.val() - rhs.val(),
    ;

    /// Exact multiplication; the mathematical product must fit the type.
    fn num_mul(self, rhs: Self) -> (r: Self)
        requires
            Self::fits(self.val() * rhs.val()),
        ensures
            r.val() == self.val() * rhs.val(),
    ;

    /// The zero of the type.
    fn num_zero() -> (r: Self)
        ensures
            r.val() == 0,
    ;
}

/// A base integer type.
pub trait BaseInt: BaseNum {
}

/// A base floating point type: the marker for component types that carry
/// fractional values. The verified core works on integer components only,
/// so nothing here implements it.
pub trait BaseFloat: BaseNum {
}

impl BaseNum for i8 {
    open spec fn val(self) -> int {
        self as int
    }

    open spec fn fits(x: int) -> bool {
        -128 <= x <= 127
    }

    fn num_add(self, rhs: Self) -> (r: Self) {
        self + rhs
    }

    fn num_sub(self, rhs: Self) -> (r: Self) {
        self - rhs
    }

    fn num_mul(self, rhs: Self) -> (r: Self) {
        self * rhs
    }

    fn num_zero() -> (r: Self) {
        0
    }
}

impl BaseInt for i8 {
}

impl BaseNum for i16 {
    open spec fn val(self) -> int {
        self as int
    }

    open spec fn fits(x: int) -> bool {
        -32768 <= x <= 32767
    }

    fn num_add(self, rhs: Self) -> (r: Self) {
        self + rhs
    }

    fn num_sub(self, rhs: Self) -> (r: Self) {
        self - rhs
    }

    fn num_mul(self, rhs: Self) -> (r: Self) {
        self * rhs
    }

    fn num_zero() -> (r: Self) {
        0
    }
}

impl BaseInt for i16 {
}

impl BaseNum for i32 {
    open spec fn val(self) -> int {
        self as int
    }

    open spec fn fits(x: int) -> bool {
        -0x8000_0000 <= x <= 0x7fff_ffff
    }

    fn num_add(self, rhs: Self) -> (r: Self) {
        self + rhs
    }

    fn num_sub(self, rhs: Self) -> (r: Self) {
        self - rhs
    }

    fn num_mul(self, rhs: Self) -> (r: Self) {
        self * rhs
    }

    fn num_zero() -> (r: Self) {
        0
    }
}

impl BaseInt for i32 {
}

impl BaseNum for i64 {
    open spec fn val(self) -> int {
        self as int
    }

    open spec fn fits(x: int) -> bool {
        -0x8000_0000_0000_0000 <= x <= 0x7fff_ffff_ffff_ffff
    }

    fn num_add(self, rhs: Self) -> (r: Self) {
        self + rhs
    }

    fn num_sub(self, rhs: Self) -> (r: Self) {
        self - rhs
    }

    fn num_mul(self, rhs: Self) -> (r: Self) {
        self * rhs
    }

    fn num_zero() -> (r: Self) {
        0
    }
}

impl BaseInt for i64 {
}

impl BaseNum for isize {
    open spec fn val(self) -> int {
        self as int
    }

    open spec fn fits(x: int) -> bool {
        isize::MIN <= x <= isize::MAX
    }

    fn num_add(self, rhs: Self) -> (r: Self) {
        self + rhs
    }

    fn num_sub(self, rhs: Self) -> (r: Self) {
        self - rhs
    }

    fn num_mul(self, rhs: Self) -> (r: Self) {
        self * rhs
    }

    fn num_zero() -> (r: Self) {
        0
    }
}

impl BaseInt for isize {
}

impl BaseNum for u8 {
    open spec fn val(self) -> int {
        self as int
    }

    open spec fn fits(x: int) -> bool {
        0 <= x <= 255
    }

    fn num_add(self, rhs: Self) -> (r: Self) {
        self + rhs
    }

    fn num_sub(self, rhs: Self) -> (r: Self) {
        self - rhs
    }

    fn num_mul(self, rhs: Self) -> (r: Self) {
        self * rhs
    }

    fn num_zero() -> (r: Self) {
        0
    }
}

impl BaseInt for u8 {
}

impl BaseNum for u16 {
    open spec fn val(self) -> int {
        self as int
    }

    open spec fn fits(x: int) -> bool {
        0 <= x <= 65535
    }

    fn num_add(self, rhs: Self) -> (r: Self) {
        self + rhs
    }

    fn num_sub(self, rhs: Self) -> (r: Self) {
        self - rhs
    }

    fn num_mul(self, rhs: Self) -> (r: Self) {
        self * rhs
    }

    fn num_zero() -> (r: Self) {
        0
    }
}

impl BaseInt for u16 {
}

impl BaseNum for u32 {
    open spec fn val(self) -> int {
        self as int
    }

    open spec fn fits(x: int) -> bool {
        0 <= x <= 0xffff_ffff
    }

    fn num_add(self, rhs: Self) -> (r: Self) {
        self + rhs
    }

    fn num_sub(self, rhs: Self) -> (r: Self) {
        self - rhs
    }

    fn num_mul(self, rhs: Self) -> (r: Self) {
        self * rhs
    }

    fn num_zero() -> (r: Self) {
        0
    }
}

impl BaseInt for u32 {
}

impl BaseNum for u64 {
    open spec fn val(self) -> int {
        self as int
    }

    open spec fn fits(x: int) -> bool {
        0 <= x <= 0xffff_ffff_ffff_ffff
    }

    fn num_add(self, rhs: Self) -> (r: Self) {
        self + rhs
    }

    fn num_sub(self, rhs: Self) -> (r: Self) {
        self - rhs
    }

    fn num_mul(self, rhs: Self) -> (r: Self) {
        self * rhs
    }

    fn num_zero() -> (r: Self) {
        0
    }
}

impl BaseInt for u64 {
}

impl BaseNum for usize {
    open spec fn val(self) -> int {
        self as int
    }

    open spec fn fits(x: int) -> bool {
        0 <= x <= usize::MAX
    }

    fn num_add(self, rhs: Self) -> (r: Self) {
        self + rhs
    }

    fn num_sub(self, rhs: Self) -> (r: Self) {
        self - rhs
    }

    fn num_mul(self, rhs: Self) -> (r: Self) {
        self * rhs
    }

    fn num_zero() -> (r: Self) {
        0
    }
}

impl BaseInt for usize {
}

/// An ordered pair of a numeric type.
#[derive(PartialEq, Eq, Copy, Clone, Hash, Debug)]
pub struct Vec2<T> {
    pub x: T,
    pub y: T,
}

/// An ordered triple of a numeric type.
#[derive(PartialEq, Eq, Copy, Clone, Hash, Debug)]
pub struct Vec3<T> {
    pub x: T,
    pub y: T,
    pub z: T,
}

impl<T: BaseNum> Vec2<T> {
    /// The pair `(x, y)`.
    pub fn new(x: T, y: T) -> (v: Self)
        ensures
            v == (Vec2 { x, y }),
    {
        Vec2 { x, y }
    }

    /// The pair of the first two elements of `slice`.
    pub fn from_slice(slice: &[T]) -> (v: Self)
        requires
            slice@.len() >= 2,
        ensures
            v == (Vec2 { x: slice@[0], y: slice@[1] }),
    {
        Vec2 { x: slice[0], y: slice[1] }
    }
}

impl<T: BaseNum> Vec3<T> {
    /// The triple `(x, y, z)`.
    pub fn new(x: T, y: T, z: T) -> (v: Self)
        ensures
            v == (Vec3 { x, y, z }),
    {
        Vec3 { x, y, z }
    }

    /// The triple of the first three elements of `slice`.
    pub fn from_slice(slice: &[T]) -> (v: Self)
        requires
            slice@.len() >= 3,
        ensures
            v == (Vec3 { x: slice@[0], y: slice@[1], z: slice@[2] }),
    {
        Vec3 { x: slice[0], y: slice[1], z: slice[2] }
    }

    /// The cross product of two triples.
    pub fn cross_product(self, rhs: Vec3<T>) -> (v: Self)
        requires
            T::fits(self.y.val() * rhs.z.val()),
            T::fits(self.z.val() * rhs.y.val()),
            T::fits(self.z.val() * rhs.x.val()),
            T::fits(self.x.val() * rhs.z.val()),
            T::fits(self.x.val() * rhs.y.val()),
            T::fits(self.y.val() * rhs.x.val()),
            T::fits(self.y.val() * rhs.z.val() - self.z.val() * rhs.y.val()),
            T::fits(self.z.val() * rhs.x.val() - self.x.val() * rhs.z.val()),
            T::fits(self.x.val() * rhs.y.val() - self.y.val() * rhs.x.val()),
        ensures
            v.x.val() == self.y.val() * rhs.z.val() - self.z.val() * rhs.y.val(),
            v.y.val() == self.z.val() * rhs.x.val() - self.x.val() * rhs.z.val(),
            v.z.val() == self.x.val() * rhs.y.val() - self.y.val() * rhs.x.val(),
    {
        Vec3 {
            x: self.y.num_mul(rhs.z).num_sub(self.z.num_mul(rhs.y)),
            y: self.z.num_mul(rhs.x).num_sub(self.x.num_mul(rhs.z)),
            z: self.x.num_mul(rhs.y).num_sub(self.y.num_mul(rhs.x)),
        }
    }
}

} // verus!
