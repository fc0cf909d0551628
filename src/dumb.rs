//! A backing store that has nothing: every load fails.
use std::marker::PhantomData;
use vstd::prelude::*;
use writium::error::Error;

use crate::error::internal_error;
use crate::source::CacheSource;

verus! {

pub const ERR_DUMB: &'static str = "Dumb cache is used, nothing is extracted.";

/// A source for a cache that should never find anything.
pub struct DumbCacheSource<T>(PhantomData<T>);

impl<T> DumbCacheSource<T> {
    pub fn new() -> DumbCacheSource<T> {
        DumbCacheSource(PhantomData)
    }
}

impl<T: Send + Sync + 'static> CacheSource for DumbCacheSource<T> {
    type Value = T;

    fn load(&self, id: &str, create: bool) -> (r: Result<T, Error>)
        ensures
            r == Err::<T, Error>(internal_error(ERR_DUMB@)),
    {
        Err(Error::internal(ERR_DUMB))
    }
}

} // verus!
