use vstd::prelude::*;

verus! {

/// A fixed-length vector of `N` components.
#[derive(Clone, Copy, PartialEq, Debug)]
pub struct Vector<const N: usize, T>([T; N]);

pub type Vector2<T> = Vector<2, T>;

pub type Vector3<T> = Vector<3, T>;

pub type Vector4<T> = Vector<4, T>;

impl<const N: usize, T> View for Vector<N, T> {
    type V = Seq<T>;

    closed spec fn view(&self) -> Seq<T> {
        self.0@
    }
}

/// A vector's view always holds exactly `N` components.
pub broadcast proof fn lemma_vector_len<const N: usize, T>(v: Vector<N, T>)
    ensures
        #[trigger] v@.len() == N,
{
}

/// Relies on num_traits::One::one: the multiplicative identity of `T`.
#[verifier::external_body]
fn unit<T: num_traits::One>() -> T {
    T::one()
}

impl<const N: usize, T: Copy> Vector<N, T> {
    pub fn new(arr: [T; N]) -> (r: Self)
        ensures
            r@ == arr@,
    {
        Vector(arr)
    }

    pub fn x(&self) -> (r: T)
        requires
            N >= 1,
        ensures
            r == self@[0],
    {
        self.0[0]
    }

    pub fn y(&self) -> (r: T)
        requires
            N >= 2,
        ensures
            r == self@[1],
    {
        self.0[1]
    }

    pub fn z(&self) -> (r: T)
        requires
            N >= 3,
        ensures
            r == self@[2],
    {
        self.0[2]
    }

    pub fn set_x(&mut self, value: T)
        requires
            N >= 1,
        ensures
            final(self)@ == old(self)@.update(0, value),
    {
        self.0[0] = value;
    }

    pub fn set_y(&mut self, value: T)
        requires
            N >= 2,
        ensures
            final(self)@ == old(self)@.update(1, value),
    {
        self.0[1] = value;
    }

    pub fn set_z(&mut self, value: T)
        requires
            N >= 3,
        ensures
            final(self)@ == old(self)@.update(2, value),
    {
        self.0[2] = value;
    }

    /// The components as an array.
    pub fn array(&self) -> (r: &[T; N])
        ensures
            r@ == self@,
    {
        &self.0
    }
}

impl<const N: usize, T: Copy + num_traits::One> Vector<N, T> {
    /// The vector whose every component is one.
    pub fn one() -> (r: Self)
        ensures
            r@.len() == N,
            forall|i: int, j: int| 0 <= i < N && 0 <= j < N ==> r@[i] == r@[j],
    {
        Vector([unit::<T>(); N])
    }
}

} // verus!
