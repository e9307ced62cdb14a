//! A collector either proves a fact or says why it could not.
//!
//! `Unknown` is a value, never a default: every unproven field carries the
//! reason it could not be read, so a verdict can fail closed and a view can
//! show `?` with an explanation instead of a plausible guess.

use vstd::prelude::*;

verus! {

/// A read that produced a value, or the reason it did not.
#[derive(Debug, PartialEq, Eq)]
pub enum Evidence<T> {
    Known(T),
    Unknown(String),
}

/// The value of an [`Evidence`], with its text as characters.
pub enum EvidenceView<V> {
    Known(V),
    Unknown(Seq<char>),
}

impl<T: DeepView> DeepView for Evidence<T> {
    type V = EvidenceView<T::V>;

    open spec fn deep_view(&self) -> EvidenceView<T::V> {
        match *self {
            Evidence::Known(value) => EvidenceView::Known(value.deep_view()),
            Evidence::Unknown(reason) => EvidenceView::Unknown(reason@),
        }
    }
}

impl<T: Clone> Clone for Evidence<T> {
    fn clone(&self) -> (r: Evidence<T>)
        ensures
            match *self {
                Evidence::Known(value) => r matches Evidence::Known(copy) && cloned(value, copy),
                Evidence::Unknown(reason) => r == Evidence::<T>::Unknown(reason),
            },
    {
        match self {
            Evidence::Known(value) => Evidence::Known(value.clone()),
            Evidence::Unknown(reason) => Evidence::Unknown(reason.clone()),
        }
    }
}

impl<T> Evidence<T> {
    pub fn is_known(&self) -> (r: bool)
        ensures
            r == (*self is Known),
    {
        match self {
            Evidence::Known(_) => true,
            Evidence::Unknown(_) => false,
        }
    }

    /// The carried value, or `None` when unproven.
    pub fn known(&self) -> (r: Option<&T>)
        ensures
            r == match *self {
                Evidence::Known(value) => Some(&value),
                Evidence::Unknown(_) => None,
            },
    {
        match self {
            Evidence::Known(value) => Some(value),
            Evidence::Unknown(_) => None,
        }
    }

    /// Why the value could not be proven, when it could not.
    pub fn reason(&self) -> (r: Option<&str>)
        ensures
            r is Some <==> *self is Unknown,
            *self matches Evidence::Unknown(reason) ==> r->0@ == reason@,
    {
        match self {
            Evidence::Known(_) => None,
            Evidence::Unknown(reason) => Some(reason.as_str()),
        }
    }

    /// Map the value, keeping an `Unknown` reason untouched.
    pub fn map<U>(self, f: impl FnOnce(T) -> U) -> (r: Evidence<U>)
        requires
            self matches Evidence::Known(value) ==> f.requires((value,)),
        ensures
            match self {
                Evidence::Known(value) => r matches Evidence::Known(out) && f.ensures(
                    (value,),
                    out,
                ),
                Evidence::Unknown(reason) => r == Evidence::<U>::Unknown(reason),
            },
    {
        match self {
            Evidence::Known(value) => Evidence::Known(f(value)),
            Evidence::Unknown(reason) => Evidence::Unknown(reason),
        }
    }
}

}
