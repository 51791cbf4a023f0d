//! The result type of fallible operations, with a message on failure.

use vstd::prelude::*;

verus! {

/// The outcome of a fallible operation, with a readable message on failure.
pub struct GameResult<T>(pub Result<T, String>);

impl<T> GameResult<T> {
    /// A success holding `v`.
    pub fn ok(v: T) -> (r: Self)
        ensures
            r.0 == Ok::<T, String>(v),
    {
        GameResult(Ok(v))
    }

    /// A failure whose message is `v` rendered as text.
    pub fn err<U: std::fmt::Display>(v: U) -> (r: Self)
        ensures
            r.0 is Err,
            vstd::string::to_string_from_display_ensures::<U>(&v, r.0->Err_0),
    {
        GameResult(Err(v.to_string()))
    }

    /// Rewrites the message of a failure with `f`; a success is kept.
    pub fn map_err<F: Fn(String) -> String>(self, f: F) -> (r: Self)
        requires
            self.0 matches Err(e) ==> f.requires((e,)),
        ensures
            self.0 matches Ok(v) ==> r.0 == Ok::<T, String>(v),
            self.0 matches Err(e) ==> r.0 is Err && f.ensures((e,), r.0->Err_0),
    {
        match self.0 {
            Err(e) => GameResult(Err(f(e))),
            Ok(v) => GameResult(Ok(v)),
        }
    }
}

} // verus!
