use vstd::prelude::*;
use vstd::std_specs::ops::AddSpec;
use vstd::std_specs::ops::AddSpecImpl;
use vstd::std_specs::ops::DivSpec;
use vstd::std_specs::ops::DivSpecImpl;
use vstd::std_specs::ops::MulSpec;
use vstd::std_specs::ops::MulSpecImpl;
use vstd::std_specs::ops::SubSpec;

verus! {

/// A pair of coordinates of the same type.
#[derive(Clone, Copy, Debug, Hash, PartialEq, Eq)]
pub struct Vector2<T> {
    pub x: T,
    pub y: T,
}

impl<T> Vector2<T> {
    pub fn new(x: T, y: T) -> (v: Self)
        ensures
            v == (Vector2 { x, y }),
    {
        Self { x, y }
    }

    /// Applies `f` to both coordinates, `x` first.
    pub fn map<U>(self, f: impl Fn(T) -> U) -> (v: Vector2<U>)
        requires
            f.requires((self.x,)),
            f.requires((self.y,)),
        ensures
            f.ensures((self.x,), v.x),
            f.ensures((self.y,), v.y),
    {
        Vector2 { x: f(self.x), y: f(self.y) }
    }
}

/// Coordinate-wise sum.
impl<T: core::ops::Add> core::ops::Add<Self> for Vector2<T> {
    type Output = Vector2<T::Output>;

    fn add(self, rhs: Self) -> (sum: Self::Output) {
        Vector2 { x: self.x + rhs.x, y: self.y + rhs.y }
    }
}

impl<T: core::ops::Add> AddSpecImpl<Self> for Vector2<T> {
    open spec fn obeys_add_spec() -> bool {
        T::obeys_add_spec()
    }

    open spec fn add_req(self, rhs: Self) -> bool {
        self.x.add_req(rhs.x) && self.y.add_req(rhs.y)
    }

    open spec fn add_spec(self, rhs: Self) -> Self::Output {
        Vector2 { x: self.x.add_spec(rhs.x), y: self.y.add_spec(rhs.y) }
    }
}

/// Both coordinates times one factor.
impl<T: core::ops::Mul + Copy> core::ops::Mul<T> for Vector2<T> {
    type Output = Vector2<T::Output>;

    fn mul(self, rhs: T) -> (product: Self::Output) {
        Vector2 { x: self.x * rhs, y: self.y * rhs }
    }
}

impl<T: core::ops::Mul + Copy> MulSpecImpl<T> for Vector2<T> {
    open spec fn obeys_mul_spec() -> bool {
        T::obeys_mul_spec()
    }

    open spec fn mul_req(self, rhs: T) -> bool {
        self.x.mul_req(rhs) && self.y.mul_req(rhs)
    }

    open spec fn mul_spec(self, rhs: T) -> Self::Output {
        Vector2 { x: self.x.mul_spec(rhs), y: self.y.mul_spec(rhs) }
    }
}

/// Both coordinates divided by one divisor.
impl<T: core::ops::Div + Copy> core::ops::Div<T> for Vector2<T> {
    type Output = Vector2<T::Output>;

    fn div(self, rhs: T) -> (quotient: Self::Output) {
        Vector2 { x: self.x / rhs, y: self.y / rhs }
    }
}

impl<T: core::ops::Div + Copy> DivSpecImpl<T> for Vector2<T> {
    open spec fn obeys_div_spec() -> bool {
        T::obeys_div_spec()
    }

    open spec fn div_req(self, rhs: T) -> bool {
        self.x.div_req(rhs) && self.y.div_req(rhs)
    }

    open spec fn div_spec(self, rhs: T) -> Self::Output {
        Vector2 { x: self.x.div_spec(rhs), y: self.y.div_spec(rhs) }
    }
}

/// Coordinate-wise product.
impl<T: core::ops::Mul> core::ops::Mul<Self> for Vector2<T> {
    type Output = Vector2<T::Output>;

    fn mul(self, rhs: Self) -> (product: Self::Output) {
        Vector2 { x: self.x * rhs.x, y: self.y * rhs.y }
    }
}

impl<T: core::ops::Mul> MulSpecImpl<Self> for Vector2<T> {
    open spec fn obeys_mul_spec() -> bool {
        T::obeys_mul_spec()
    }

    open spec fn mul_req(self, rhs: Self) -> bool {
        self.x.mul_req(rhs.x) && self.y.mul_req(rhs.y)
    }

    open spec fn mul_spec(self, rhs: Self) -> Self::Output {
        Vector2 { x: self.x.mul_spec(rhs.x), y: self.y.mul_spec(rhs.y) }
    }
}

/// Coordinate-wise quotient.
impl<T: core::ops::Div> core::ops::Div<Self> for Vector2<T> {
    type Output = Vector2<T::Output>;

    fn div(self, rhs: Self) -> (quotient: Self::Output) {
        Vector2 { x: self.x / rhs.x, y: self.y / rhs.y }
    }
}

impl<T: core::ops::Div> DivSpecImpl<Self> for Vector2<T> {
    open spec fn obeys_div_spec() -> bool {
        T::obeys_div_spec()
    }

    open spec fn div_req(self, rhs: Self) -> bool {
        self.x.div_req(rhs.x) && self.y.div_req(rhs.y)
    }

    open spec fn div_spec(self, rhs: Self) -> Self::Output {
        Vector2 { x: self.x.div_spec(rhs.x), y: self.y.div_spec(rhs.y) }
    }
}

/// An axis-aligned rectangle given by two corners. Nothing orders the corners:
/// an area whose `end` lies before its `start` is a value like any other.
#[derive(Clone, Copy, Debug)]
pub struct Area<T> {
    pub start: Vector2<T>,
    pub end: Vector2<T>,
}

impl<T: core::ops::Add + Copy> Area<T> {
    /// Moves both corners by `translation`.
    pub fn translate(self, translation: Vector2<T>) -> (moved: Area<T::Output>)
        requires
            AddSpec::add_req(self.start, translation),
            AddSpec::add_req(self.end, translation),
        ensures
            T::obeys_add_spec() ==> moved == (Area {
                start: AddSpec::add_spec(self.start, translation),
                end: AddSpec::add_spec(self.end, translation),
            }),
    {
        Area { start: self.start + translation, end: self.end + translation }
    }
}

impl<T: core::ops::Sub> Area<T> {
    /// Extent along `x`: negative where the corners are inverted.
    pub fn width(self) -> (w: T::Output)
        requires
            self.end.x.sub_req(self.start.x),
        ensures
            T::obeys_sub_spec() ==> w == self.end.x.sub_spec(self.start.x),
    {
        self.end.x - self.start.x
    }

    /// Extent along `y`: negative where the corners are inverted.
    pub fn height(self) -> (h: T::Output)
        requires
            self.end.y.sub_req(self.start.y),
        ensures
            T::obeys_sub_spec() ==> h == self.end.y.sub_spec(self.start.y),
    {
        self.end.y - self.start.y
    }
}

/// Both corners divided coordinate-wise by one vector.
impl<T: core::ops::Div + Copy> core::ops::Div<Vector2<T>> for Area<T> {
    type Output = Area<T::Output>;

    fn div(self, rhs: Vector2<T>) -> (quotient: Self::Output) {
        Area { start: self.start / rhs, end: self.end / rhs }
    }
}

impl<T: core::ops::Div + Copy> DivSpecImpl<Vector2<T>> for Area<T> {
    open spec fn obeys_div_spec() -> bool {
        T::obeys_div_spec()
    }

    open spec fn div_req(self, rhs: Vector2<T>) -> bool {
        DivSpec::div_req(self.start, rhs) && DivSpec::div_req(self.end, rhs)
    }

    open spec fn div_spec(self, rhs: Vector2<T>) -> Self::Output {
        Area { start: DivSpec::div_spec(self.start, rhs), end: DivSpec::div_spec(self.end, rhs) }
    }
}

} // verus!
