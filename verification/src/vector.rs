//! Mathematical vectors.
//!
//! [`Vector<T, DIMS>`] holds `DIMS` elements of any type `T`. Its view is the
//! sequence of its elements, and the contracts of its operations speak of
//! that sequence.
use vstd::prelude::*;

pub mod arithmetic;
pub mod index;
pub mod iter;
pub mod ordering;
pub mod text;
pub mod typedefs;

verus! {

/// A vector of `DIMS` elements of type `T`.
#[derive(Debug)]
pub struct Vector<T, const DIMS: usize> {
    vals: [T; DIMS],
}

impl<T, const DIMS: usize> View for Vector<T, DIMS> {
    type V = Seq<T>;

    closed spec fn view(&self) -> Seq<T> {
        self.vals@
    }
}

/// One default value of `T`, for the element at any index.
fn default_element<T: Default>(index: usize) -> (r: T)
    ensures
        call_ensures(T::default, (), r),
{
    T::default()
}

/// Fills an array with `core::array::from_fn`, which calls the function it
/// is given once for each index and stores what the call returns at that
/// index. The function given is [`default_element`], so each element of the
/// array is a value that `T::default` returned.
#[verifier::external_body]
fn array_of_defaults<T: Default, const DIMS: usize>() -> (r: [T; DIMS])
    ensures
        forall|i: int| 0 <= i < DIMS ==> call_ensures(T::default, (), #[trigger] r@[i]),
{
    core::array::from_fn(default_element::<T>)
}

impl<T, const DIMS: usize> Vector<T, DIMS> {
    /// The vector whose elements are those of the sequence `s`, which has
    /// `DIMS` elements.
    pub closed spec fn of_seq(s: Seq<T>) -> Self {
        choose|v: Self| v@ == s
    }

    /// A vector has `DIMS` elements.
    pub broadcast proof fn lemma_len(self)
        ensures
            #[trigger] self@.len() == DIMS,
    {
    }

    /// A vector is determined by its elements.
    pub proof fn lemma_ext_equal(self, other: Self)
        requires
            self@ == other@,
        ensures
            self == other,
    {
        assert(self.vals =~= other.vals);
    }

    /// Some array holds the first `k` elements of `s`.
    proof fn lemma_array_with_prefix(s: Seq<T>, k: nat) -> (arr: [T; DIMS])
        requires
            s.len() == DIMS,
            k <= DIMS,
        ensures
            forall|i: int| 0 <= i < k ==> arr@[i] == s[i],
        decreases k,
    {
        if k == 0 {
            arbitrary()
        } else {
            let before = Self::lemma_array_with_prefix(s, (k - 1) as nat);
            vstd::array::spec_array_update(before, k - 1, s[k - 1])
        }
    }

    /// Every sequence of `DIMS` elements is the view of a vector.
    pub broadcast proof fn lemma_of_seq(s: Seq<T>)
        requires
            s.len() == DIMS,
        ensures
            #[trigger] Self::of_seq(s)@ == s,
    {
        let arr = Self::lemma_array_with_prefix(s, DIMS as nat);
        let v = Vector { vals: arr };
        assert(v@ =~= s);
    }

    /// Makes a vector of the elements of an array.
    #[inline]
    pub fn from_array(arr: [T; DIMS]) -> (r: Self)
        ensures
            r@ == arr@,
    {
        Vector { vals: arr }
    }

    /// Hands out the elements as an array.
    #[inline]
    pub fn to_array(self) -> (r: [T; DIMS])
        ensures
            r@ == self@,
    {
        self.vals
    }

    /// The number of elements.
    #[inline]
    pub fn len(&self) -> (r: usize)
        ensures
            r == DIMS,
    {
        DIMS
    }

    /// Whether the vector has no element at all.
    #[inline]
    pub fn is_empty(&self) -> (r: bool)
        ensures
            r == (DIMS == 0),
    {
        DIMS == 0
    }
}

impl<T, const DIMS: usize> Vector<T, DIMS> where T: Default {
    /// A vector of default values.
    #[inline]
    pub fn new() -> (r: Self)
        ensures
            forall|i: int| 0 <= i < DIMS ==> call_ensures(T::default, (), #[trigger] r@[i]),
    {
        Vector { vals: Self::new_arr() }
    }

    #[inline]
    fn new_arr() -> (r: [T; DIMS])
        ensures
            forall|i: int| 0 <= i < DIMS ==> call_ensures(T::default, (), #[trigger] r@[i]),
    {
        array_of_defaults()
    }
}

impl<T, const DIMS: usize> Default for Vector<T, DIMS> where T: Default {
    #[inline]
    fn default() -> (r: Self)
        ensures
            forall|i: int| 0 <= i < DIMS ==> call_ensures(T::default, (), #[trigger] r@[i]),
    {
        Self::new()
    }
}

impl<T, const DIMS: usize> From<[T; DIMS]> for Vector<T, DIMS> {
    #[inline]
    fn from(value: [T; DIMS]) -> (r: Self)
        ensures
            r@ == value@,
    {
        Vector { vals: value }
    }
}

impl<T, const DIMS: usize> vstd::std_specs::convert::FromSpecImpl<[T; DIMS]> for Vector<T, DIMS> {
    open spec fn obeys_from_spec() -> bool {
        true
    }

    closed spec fn from_spec(value: [T; DIMS]) -> Self {
        Vector { vals: value }
    }
}

impl<T, const DIMS: usize> Clone for Vector<T, DIMS> where T: Clone {
    #[inline]
    fn clone(&self) -> (r: Self)
        ensures
            forall|i: int| 0 <= i < DIMS ==> cloned::<T>(#[trigger] self@[i], r@[i]),
    {
        Vector { vals: self.vals.clone() }
    }
}

impl<T, const DIMS: usize> Copy for Vector<T, DIMS> where T: Copy {
}

} // verus!
