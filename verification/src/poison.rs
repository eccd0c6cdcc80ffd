//! The transform that marks pages against scraping. What it does to a page
//! is not this library's business; when it runs is.

use vstd::prelude::*;

verus! {

/// Passes the page `input` through `transform`, unless the transform is
/// switched off by `antidote`: then the page goes on as it came and
/// `transform` is not called.
pub fn inject<F: FnOnce(String) -> Result<String, String>>(
    input: String,
    antidote: bool,
    transform: F,
) -> (r: Result<String, String>)
    requires
        !antidote ==> transform.requires((input,)),
    ensures
        antidote ==> r == Ok::<String, String>(input),
        !antidote ==> transform.ensures((input,), r),
{
    if antidote {
        Ok(input)
    } else {
        transform(input)
    }
}

} // verus!
