use vstd::prelude::*;

verus! {

/// A heap object of the language. Strings are the only object kind; they are
/// immutable after construction and live interned in a `Table`.
#[derive(Debug, Clone)]
pub enum Object {
    String(String),
}

impl View for Object {
    type V = Seq<char>;

    open spec fn view(&self) -> Seq<char> {
        match self {
            Object::String(s) => s@,
        }
    }
}

impl Object {
    /// Structural equality of two objects: same kind, same payload.
    pub fn values_equal(a: &Object, b: &Object) -> (r: bool)
        ensures
            r == (a@ == b@),
    {
        match (a, b) {
            (Object::String(x), Object::String(y)) => x.eq(y),
        }
    }

    pub fn is_string(&self) -> (r: bool)
        ensures
            r,
    {
        match self {
            Object::String(_) => true,
        }
    }
}

} // verus!
