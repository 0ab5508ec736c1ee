use vstd::prelude::*;
use core::marker::PhantomData;

verus! {

/// A coordinate operation from values of type `F` to values of type `T`.
pub trait CoordOperation<F, T> {
    /// What the operation gives for `from`. The operations of this crate
    /// define it; one that leaves it undefined promises nothing about `op`.
    closed spec fn spec_op(&self, from: F) -> T {
        arbitrary()
    }

    fn op(&self, from: F) -> (r: T)
        ensures
            r == self.spec_op(from),
    ;
}

/// Two operations applied one after the other.
#[derive(Debug)]
pub struct ConcatenatedCoordOp<A, B, F, I, T> {
    pub first: A,
    pub second: B,
    pub _source: PhantomData<F>,
    pub _intermediate: PhantomData<I>,
    pub _dest: PhantomData<T>,
}

impl<A, B, F, I, T> CoordOperation<F, T> for ConcatenatedCoordOp<A, B, F, I, T> where
    A: CoordOperation<F, I>,
    B: CoordOperation<I, T>,
 {
    open spec fn spec_op(&self, from: F) -> T {
        self.second.spec_op(self.first.spec_op(from))
    }

    fn op(&self, from: F) -> (r: T) {
        self.second.op(self.first.op(from))
    }
}

impl<A, B, F, I, T> ConcatenatedCoordOp<A, B, F, I, T> where
    A: CoordOperation<F, I>,
    B: CoordOperation<I, T>,
 {
    /// The operation that applies `first`, then `second`.
    pub fn concat(first: A, second: B) -> (r: Self)
        ensures
            r.first == first,
            r.second == second,
    {
        ConcatenatedCoordOp {
            first,
            second,
            _source: PhantomData,
            _intermediate: PhantomData,
            _dest: PhantomData,
        }
    }
}

/// Applying a concatenation is applying its parts in turn.
pub proof fn lemma_concat_applies<A, B, F, I, T>(first: A, second: B, c: ConcatenatedCoordOp<A, B, F, I, T>, from: F)
    where
        A: CoordOperation<F, I>,
        B: CoordOperation<I, T>,
    requires
        c.first == first,
        c.second == second,
    ensures
        c.spec_op(from) == second.spec_op(first.spec_op(from)),
{
}

/// A transformation between two systems. None is implemented yet: every
/// pair of codes gives `None`.
pub fn get_transformation<F, T>(from: u32, to: u32) -> (r: Option<Box<dyn CoordOperation<F, T>>>)
    ensures
        r is None,
{
    None
}

/// The projection of geographic 2-D systems: coordinates pass through.
#[derive(Debug, Clone, Copy, PartialEq, Eq, Structural)]
pub struct IdentityProjection;

/// The conversion that leaves coordinates as they are.
#[derive(Debug, Clone, Copy, PartialEq, Eq, Structural)]
pub struct ZeroTransformation;

impl<C> CoordOperation<C, C> for ZeroTransformation {
    open spec fn spec_op(&self, from: C) -> C {
        from
    }

    fn op(&self, from: C) -> (r: C) {
        from
    }
}

/// Wraps a two-dimensional operation so that it carries a vertical
/// component of any meaning along unchanged.
#[derive(Debug)]
pub struct ProjectionUserVertical<P> {
    pub projection: P,
}

impl<P, C, D, V> CoordOperation<(C, V), (D, V)> for ProjectionUserVertical<P> where P: CoordOperation<C, D> {
    open spec fn spec_op(&self, from: (C, V)) -> (D, V) {
        (self.projection.spec_op(from.0), from.1)
    }

    fn op(&self, from: (C, V)) -> (r: (D, V)) {
        let (c, v) = from;
        (self.projection.op(c), v)
    }
}

/// A value that can write the source text that constructs it.
pub trait PseudoSerialize {
    fn to_constructed(&self) -> String;
}

impl PseudoSerialize for IdentityProjection {
    fn to_constructed(&self) -> (r: String)
        ensures
            r@ == "IdentityProjection"@,
    {
        "IdentityProjection".to_owned()
    }
}

impl PseudoSerialize for ZeroTransformation {
    fn to_constructed(&self) -> (r: String)
        ensures
            r@ == "ZeroTransformation"@,
    {
        "ZeroTransformation".to_owned()
    }
}

} // verus!
