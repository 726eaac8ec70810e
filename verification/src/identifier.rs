//! Table identifiers: a namespace path and a name.

use vstd::prelude::*;

verus! {

/// What uniquely names a table within a catalog.
#[derive(Debug)]
pub struct Identifier {
    /// The namespace path, outermost first.
    pub namespace: Vec<String>,
    /// The table name.
    pub name: String,
}

impl Clone for Identifier {
    /// A clone names the same table.
    fn clone(&self) -> (r: Self)
        ensures
            r.namespace@ == self.namespace@,
            r.name@ == self.name@,
    {
        let namespace = self.namespace.clone();
        proof {
            assert(namespace@ =~= self.namespace@);
        }
        Identifier { namespace, name: self.name.clone() }
    }
}

impl Identifier {
    /// An identifier from its parts.
    pub fn new(namespace: Vec<String>, name: String) -> (r: Identifier)
        ensures
            r.namespace == namespace,
            r.name == name,
    {
        Identifier { namespace, name }
    }

    /// The table name.
    pub fn name(&self) -> (r: &String)
        ensures
            *r == self.name,
    {
        &self.name
    }

    /// The namespace path.
    pub fn namespace(&self) -> (r: &Vec<String>)
        ensures
            r == &self.namespace,
    {
        &self.namespace
    }
}

} // verus!
