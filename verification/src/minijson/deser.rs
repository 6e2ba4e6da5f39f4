//! The earlier, stub decoder: a trait over plain string input whose only
//! implementations hand back empty collections regardless of what the
//! input says.

use std::collections::HashMap;
use vstd::prelude::*;
use crate::minijson::error::Error;

verus! {

/// Decodes a `T` from a borrowed string.
pub fn from_str<T: Deserialize<T>>(input: &str) -> (r: Result<T, Error>)
{
    T::deserialize(input)
}

/// A type that can be decoded from a string.
pub trait Deserialize<T> {
    fn deserialize(input: &str) -> Result<T, Error>;
}

impl<K, V> Deserialize<HashMap<K, V>> for HashMap<K, V> {
    /// The stub never reads past the input: it accepts anything and hands
    /// back an empty map.
    fn deserialize(input: &str) -> (r: Result<HashMap<K, V>, Error>)
        ensures
            r is Ok && r.unwrap()@ == Map::<K, V>::empty(),
    {
        Ok(HashMap::new())
    }
}

impl<V> Deserialize<Vec<V>> for Vec<V> {
    /// The stub accepts anything and hands back an empty vector.
    fn deserialize(input: &str) -> (r: Result<Vec<V>, Error>)
        ensures
            r is Ok && r.unwrap()@ == Seq::<V>::empty(),
    {
        Ok(vec![])
    }
}

} // verus!
