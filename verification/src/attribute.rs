//! Product attribute tags: opaque labels a catalog item can carry.

use vstd::prelude::*;
use vstd::string::StringExecFns;

verus! {

/// An attribute tag: a numeric id and a display name.
#[derive(Debug, Hash)]
pub struct Attribute(pub u32, pub String);

impl Attribute {
    /// Builds a tag from its id and name.
    pub fn new(id: u32, name: &str) -> (r: Self)
        ensures
            r.0 == id,
            r.1@ == name@,
    {
        Attribute(id, String::from_str(name))
    }

    /// The tag's display name.
    pub fn name(&self) -> (r: &str)
        ensures
            r@ == self.1@,
    {
        self.1.as_str()
    }
}

impl Clone for Attribute {
    /// An exact copy of the tag.
    fn clone(&self) -> (r: Self)
        ensures
            r == *self,
    {
        Attribute(self.0, self.1.clone())
    }
}

/// Shorthand used throughout the catalog model.
pub type Attr = Attribute;

} // verus!
