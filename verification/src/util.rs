use vstd::prelude::*;

verus! {

/// Turns an optional result inside out: `None` becomes `Ok(None)`,
/// `Some(Ok(v))` becomes `Ok(Some(v))` and `Some(Err(e))` becomes `Err(e)`.
pub fn invert_option_result<T, E>(opt: Option<Result<T, E>>) -> (r: Result<Option<T>, E>)
    ensures
        match opt {
            None => r == Ok::<Option<T>, E>(None),
            Some(Ok(v)) => r == Ok::<Option<T>, E>(Some(v)),
            Some(Err(e)) => r == Err::<Option<T>, E>(e),
        },
{
    match opt {
        None => Ok(None),
        Some(Ok(v)) => Ok(Some(v)),
        Some(Err(e)) => Err(e),
    }
}

} // verus!
