//! Names that identify animation clips and host object types.

use vstd::prelude::*;

verus! {

/// The unique name of one animation clip.  Two names are equal exactly
/// when their underlying text is equal.
#[derive(Debug)]
pub struct AnimationName(pub String);

impl Clone for AnimationName {
    fn clone(&self) -> (r: Self)
        ensures
            r@ == self@,
    {
        AnimationName(self.0.clone())
    }
}

impl View for AnimationName {
    type V = Seq<char>;

    open spec fn view(&self) -> Seq<char> {
        self.0@
    }
}

impl AnimationName {
    pub fn new(name: &str) -> (r: Self)
        ensures
            r@ == name@,
    {
        AnimationName(name.to_owned())
    }

    /// The underlying text of the name.
    pub fn as_string(&self) -> (r: &String)
        ensures
            r@ == self@,
    {
        &self.0
    }

    pub fn eq_name(&self, other: &AnimationName) -> (r: bool)
        ensures
            r == (self@ == other@),
    {
        self.0.eq(&other.0)
    }
}

/// A stable identifier of a host object type or value type, used as the
/// key into the capability registry.  The engine never inspects its
/// structure.
#[derive(Debug)]
pub struct ShortTypePath(pub String);

impl Clone for ShortTypePath {
    fn clone(&self) -> (r: Self)
        ensures
            r@ == self@,
    {
        ShortTypePath(self.0.clone())
    }
}

impl View for ShortTypePath {
    type V = Seq<char>;

    open spec fn view(&self) -> Seq<char> {
        self.0@
    }
}

impl ShortTypePath {
    /// Builds the identifier from the short type path text itself; the
    /// host application supplies the text for each of its types.
    pub fn from_type_path(path: &str) -> (r: Self)
        ensures
            r@ == path@,
    {
        ShortTypePath(path.to_owned())
    }

    /// The underlying text of the identifier.
    pub fn as_string(&self) -> (r: &String)
        ensures
            r@ == self@,
    {
        &self.0
    }

    pub fn eq_path(&self, other: &ShortTypePath) -> (r: bool)
        ensures
            r == (self@ == other@),
    {
        self.0.eq(&other.0)
    }
}

} // verus!
