//! Boundary-safe tagged unions.
//!
//! Two independently built binaries agree on the shape of these types, so
//! a success-or-error value and a present-or-absent value can cross the
//! call table without sharing a runtime.  The tagged-union shape is kept
//! only at the boundary: code on either side converts to the native
//! `Result` and `Option` idioms immediately after crossing inward, and
//! back again just before crossing outward.  The conversions here are
//! proved lossless in both directions.

use vstd::prelude::*;

verus! {

/// A success-or-error value with a frozen discriminant-plus-payload layout,
/// used in the result position of every fallible call-table operation.
#[derive(Debug, Clone, PartialEq, Eq)]
pub enum FfiResult<T, E> {
    /// The operation succeeded.
    Success(T),
    /// The operation failed.
    Failure(E),
}

/// A present-or-absent value with a frozen discriminant-plus-payload
/// layout.
#[derive(Debug, Clone, PartialEq, Eq)]
pub enum FfiOption<T> {
    /// There is a value.
    Present(T),
    /// There is no value.
    Absent,
}

impl<T, E> FfiResult<T, E> {
    /// What this boundary value decodes to.
    pub open spec fn decoded(self) -> Result<T, E> {
        match self {
            FfiResult::Success(t) => Ok(t),
            FfiResult::Failure(e) => Err(e),
        }
    }

    /// What a native value encodes to.
    pub open spec fn encoded(value: Result<T, E>) -> FfiResult<T, E> {
        match value {
            Ok(t) => FfiResult::Success(t),
            Err(e) => FfiResult::Failure(e),
        }
    }

    /// Encode a native success-or-error value for the boundary.
    pub fn encode(value: Result<T, E>) -> (r: FfiResult<T, E>)
        ensures
            r == Self::encoded(value),
    {
        match value {
            Ok(t) => FfiResult::Success(t),
            Err(e) => FfiResult::Failure(e),
        }
    }

    /// Decode a boundary value into the native shape.
    pub fn decode(self) -> (r: Result<T, E>)
        ensures
            r == self.decoded(),
    {
        match self {
            FfiResult::Success(t) => Ok(t),
            FfiResult::Failure(e) => Err(e),
        }
    }
}

impl<T> FfiOption<T> {
    /// What this boundary value decodes to.
    pub open spec fn decoded(self) -> Option<T> {
        match self {
            FfiOption::Present(t) => Some(t),
            FfiOption::Absent => None,
        }
    }

    /// What a native value encodes to.
    pub open spec fn encoded(value: Option<T>) -> FfiOption<T> {
        match value {
            Some(t) => FfiOption::Present(t),
            None => FfiOption::Absent,
        }
    }

    /// Encode a native present-or-absent value for the boundary.
    pub fn encode(value: Option<T>) -> (r: FfiOption<T>)
        ensures
            r == Self::encoded(value),
    {
        match value {
            Some(t) => FfiOption::Present(t),
            None => FfiOption::Absent,
        }
    }

    /// Decode a boundary value into the native shape.
    pub fn decode(self) -> (r: Option<T>)
        ensures
            r == self.decoded(),
    {
        match self {
            FfiOption::Present(t) => Some(t),
            FfiOption::Absent => None,
        }
    }
}

/// Encoding a native success-or-error value and decoding it again yields
/// the same value, whichever side of the union it sits on; decoding a
/// boundary value and encoding it again yields the same boundary value.
pub proof fn lemma_result_round_trip<T, E>(value: Result<T, E>, boundary: FfiResult<T, E>)
    ensures
        FfiResult::<T, E>::encoded(value).decoded() == value,
        FfiResult::<T, E>::encoded(boundary.decoded()) == boundary,
{
}

/// Encoding a native present-or-absent value and decoding it again yields
/// the same value; decoding a boundary value and encoding it again yields
/// the same boundary value.
pub proof fn lemma_option_round_trip<T>(value: Option<T>, boundary: FfiOption<T>)
    ensures
        FfiOption::<T>::encoded(value).decoded() == value,
        FfiOption::<T>::encoded(boundary.decoded()) == boundary,
{
}

} // verus!
