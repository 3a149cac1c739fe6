//! The controlled-Korean frontend, as the compiler knows it: the locale whose sources it reads.
use vstd::prelude::*;

verus! {

/// The controlled-Korean frontend.
#[derive(Clone, Copy, Debug, Default)]
pub struct KoreanFrontend;

impl KoreanFrontend {
    /// The locale this frontend reads: `ko-KR`.
    pub fn language_id(&self) -> (id: &'static str)
        ensures
            id@ == "ko-KR"@,
    {
        "ko-KR"
    }
}

} // verus!
