//! The backend that writes TypeScript. It has options and nothing else
//! yet: no capability of a backend is provided.

use vstd::prelude::*;

verus! {

pub struct TsOptions {}

pub struct TsContext {}

pub struct TsProvider {
    options: TsOptions,
}

impl TsProvider {
    pub closed spec fn options(&self) -> TsOptions {
        self.options
    }

    pub fn new(options: TsOptions) -> (r: Self)
        ensures
            r.options() == options,
    {
        Self { options }
    }
}

} // verus!
