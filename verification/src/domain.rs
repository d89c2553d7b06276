use vstd::prelude::*;

verus! {

/// The display string of a user: the name, then the id in parentheses.
pub open spec fn display_spec(id: Seq<char>, name: Seq<char>) -> Seq<char> {
    name + " ("@ + id + ")"@
}

/// An identity record: a plain value object, unrelated to the pipeline.
pub struct User {
    pub id: String,
    pub name: String,
}

impl User {
    /// A user with the given id and name.
    pub fn new(id: &str, name: &str) -> (r: Self)
        ensures
            r.id@ == id@,
            r.name@ == name@,
    {
        Self { id: String::from_str(id), name: String::from_str(name) }
    }

    /// The user rendered as `name (id)`.
    pub fn display(&self) -> (r: String)
        ensures
            r@ == display_spec(self.id@, self.name@),
    {
        let mut s = String::from_str(self.name.as_str());
        s.append(" (");
        s.append(self.id.as_str());
        s.append(")");
        s
    }
}

} // verus!
