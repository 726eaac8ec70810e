//! Transactions: a pending batch of operations against one table,
//! executed in order and committed through the catalog.

use vstd::prelude::*;

use crate::manifest::DataFile;
use crate::operation::Operation;
use crate::schema::Schema;
use crate::snapshot::SnapshotReference;

verus! {

/// A pending batch of operations against one table and optional branch.
///
/// Staging is in-memory only.  At commit time the embedding application
/// executes the staged operations in order against the table's latest
/// metadata, concatenates their requirements and updates, and submits
/// them to the catalog in one call.
#[derive(Debug)]
pub struct TableTransaction {
    /// The branch the transaction commits to; the main branch if absent.
    pub branch: Option<String>,
    /// The staged operations, in submission order.
    pub operations: Vec<Operation>,
}

impl TableTransaction {
    /// An empty transaction against the given branch.
    pub fn new(branch: Option<String>) -> (r: TableTransaction)
        ensures
            r.branch == branch,
            r.operations@.len() == 0,
    {
        TableTransaction { branch, operations: Vec::new() }
    }

    /// The staged operations, in submission order.
    pub fn operations(&self) -> (r: &Vec<Operation>)
        ensures
            r == &self.operations,
    {
        &self.operations
    }

    /// Stage an append of the given files.
    pub fn append(&mut self, files: Vec<DataFile>)
        ensures
            final(self).branch == old(self).branch,
            final(self).operations@ == old(self).operations@.push(
                Operation::Append {
                    branch: old(self).branch,
                    files,
                    additional_summary: None,
                },
            ),
    {
        let branch = clone_branch(&self.branch);
        proof {
            assert(branch == self.branch);
        }
        self.operations.push(Operation::Append { branch, files, additional_summary: None });
    }

    /// Stage a rewrite with the given files.
    pub fn rewrite(&mut self, files: Vec<DataFile>)
        ensures
            final(self).branch == old(self).branch,
            final(self).operations@ == old(self).operations@.push(
                Operation::Rewrite {
                    branch: old(self).branch,
                    files,
                    additional_summary: None,
                },
            ),
    {
        let branch = clone_branch(&self.branch);
        proof {
            assert(branch == self.branch);
        }
        self.operations.push(Operation::Rewrite { branch, files, additional_summary: None });
    }

    /// Stage a property update.
    pub fn update_properties(&mut self, entries: Vec<(String, String)>)
        ensures
            final(self).branch == old(self).branch,
            final(self).operations@ == old(self).operations@.push(
                Operation::UpdateProperties(entries),
            ),
    {
        self.operations.push(Operation::UpdateProperties(entries));
    }

    /// Stage pointing a named reference at a snapshot.
    pub fn set_snapshot_ref(&mut self, entry: (String, SnapshotReference))
        ensures
            final(self).branch == old(self).branch,
            final(self).operations@ == old(self).operations@.push(
                Operation::SetSnapshotRef(entry),
            ),
    {
        self.operations.push(Operation::SetSnapshotRef(entry));
    }

    /// Stage adding a schema.
    pub fn add_schema(&mut self, schema: Schema)
        ensures
            final(self).branch == old(self).branch,
            final(self).operations@ == old(self).operations@.push(Operation::AddSchema(schema)),
    {
        self.operations.push(Operation::AddSchema(schema));
    }

    /// Stage setting the default partition spec.
    pub fn set_default_spec(&mut self, spec_id: i32)
        ensures
            final(self).branch == old(self).branch,
            final(self).operations@ == old(self).operations@.push(
                Operation::SetDefaultSpec(spec_id),
            ),
    {
        self.operations.push(Operation::SetDefaultSpec(spec_id));
    }

    /// Hand the staged operations out for execution, leaving the
    /// transaction empty.
    pub fn take_operations(&mut self) -> (r: Vec<Operation>)
        ensures
            r@ == old(self).operations@,
            final(self).branch == old(self).branch,
            final(self).operations@.len() == 0,
    {
        let mut out: Vec<Operation> = Vec::new();
        core::mem::swap(&mut out, &mut self.operations);
        out
    }
}

/// A copy of the branch argument naming the same branch.
fn clone_branch(branch: &Option<String>) -> (r: Option<String>)
    ensures
        r == *branch,
{
    match branch {
        Some(b) => {
            let c = b.clone();
            proof {
                assert(c == *b);
            }
            Some(c)
        },
        None => None,
    }
}

} // verus!
