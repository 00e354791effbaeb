//! The typed stack-parameter table: the mapping from declared witness
//! identifiers to their semantic types, derived once from the ordered
//! parameter list and read-only afterward.

use vstd::prelude::*;

use crate::ast::{StackParam, Type};
use crate::error::CompileError;

verus! {

/// Whether every declared identifier occurs only once.
pub open spec fn identifiers_unique(params: Seq<StackParam>) -> bool {
    forall|i: int, j: int|
        0 <= i < j < params.len() ==> params[i].identifier@ != params[j].identifier@
}

/// The declared type of an identifier: the first entry bound to it, front to
/// back. With unique identifiers there is at most one.
pub open spec fn lookup_type(entries: Seq<StackParam>, id: Seq<char>) -> Option<Type>
    decreases entries.len(),
{
    if entries.len() == 0 {
        None
    } else if entries[0].identifier@ == id {
        Some(entries[0].ty)
    } else {
        lookup_type(entries.drop_first(), id)
    }
}

/// Copies one declared parameter.
pub fn clone_param(p: &StackParam) -> (r: StackParam)
    ensures
        r == *p,
{
    StackParam { identifier: p.identifier.clone(), ty: p.ty }
}

/// The table of declared witness parameters, in declaration order, with
/// pairwise distinct identifiers.
pub struct StackTable {
    pub entries: Vec<StackParam>,
}

impl View for StackTable {
    type V = Seq<StackParam>;

    open spec fn view(&self) -> Seq<StackParam> {
        self.entries@
    }
}

impl StackTable {
    /// The table's invariant: no identifier is declared twice.
    pub open spec fn wf(&self) -> bool {
        identifiers_unique(self@)
    }

    /// Returns the declared type of an identifier, or an error where none was
    /// declared.
    pub fn lookup(&self, identifier: &String) -> (r: Result<Type, CompileError>)
        ensures
            match lookup_type(self@, identifier@) {
                Some(t) => r == Ok::<Type, CompileError>(t),
                None => r == Err::<Type, CompileError>(CompileError::UndeclaredIdentifier),
            },
    {
        let ghost entries = self.entries@;
        let mut i: usize = 0;
        proof {
            assert(entries.skip(0) =~= entries);
        }
        while i < self.entries.len()
            invariant
                i <= entries.len(),
                entries == self.entries@,
                lookup_type(entries, identifier@) == lookup_type(
                    entries.skip(i as int),
                    identifier@,
                ),
            decreases entries.len() - i,
        {
            let ghost j = i as int;
            proof {
                assert(entries.skip(j)[0] == entries[j]);
                assert(entries.skip(j).drop_first() =~= entries.skip(j + 1));
            }
            if self.entries[i].identifier == *identifier {
                return Ok(self.entries[i].ty);
            }
            i += 1;
        }
        Err(CompileError::UndeclaredIdentifier)
    }
}

/// Builds the stack-parameter table from the declared parameter sequence.
/// Succeeds exactly when the identifiers are pairwise distinct; a repeated
/// declaration is a definition error.
pub fn stack_table(params: &Vec<StackParam>) -> (r: Result<StackTable, CompileError>)
    ensures
        identifiers_unique(params@) ==> (r matches Ok(t) && t@ == params@ && t.wf()),
        !identifiers_unique(params@) ==> r == Err::<StackTable, CompileError>(
            CompileError::DuplicateIdentifier,
        ),
{
    let mut i: usize = 1;
    while i < params.len()
        invariant
            1 <= i || params.len() == 0,
            i <= params.len() || i == 1,
            forall|a: int, b: int|
                0 <= a < b < i && b < params@.len() ==> params@[a].identifier@
                    != params@[b].identifier@,
        decreases params.len() - i,
    {
        let mut j: usize = 0;
        while j < i
            invariant
                j <= i,
                i < params@.len(),
                forall|a: int| 0 <= a < j ==> params@[a].identifier@ != params@[i as int].identifier@,
            decreases i - j,
        {
            if params[j].identifier == params[i].identifier {
                proof {
                    assert(params@[j as int].identifier@ == params@[i as int].identifier@);
                }
                return Err(CompileError::DuplicateIdentifier);
            }
            j += 1;
        }
        i += 1;
    }
    let mut entries: Vec<StackParam> = Vec::new();
    let mut k: usize = 0;
    while k < params.len()
        invariant
            k <= params.len(),
            entries@.len() == k,
            forall|a: int| 0 <= a < k ==> entries@[a] == params@[a],
        decreases params.len() - k,
    {
        entries.push(clone_param(&params[k]));
        k += 1;
    }
    proof {
        assert(entries@ =~= params@);
    }
    Ok(StackTable { entries })
}

/// Law: in a table built from uniquely named parameters, looking up any
/// declared identifier yields exactly the type it was declared with.
pub proof fn lemma_lookup_declared(params: Seq<StackParam>, i: int)
    requires
        identifiers_unique(params),
        0 <= i < params.len(),
    ensures
        lookup_type(params, params[i].identifier@) == Some(params[i].ty),
    decreases params.len(),
{
    if i == 0 {
    } else {
        assert(params[0].identifier@ != params[i].identifier@);
        let rest = params.drop_first();
        assert(identifiers_unique(rest)) by {
            assert forall|a: int, b: int|
                0 <= a < b < rest.len() implies rest[a].identifier@ != rest[b].identifier@ by {
                assert(rest[a] == params[a + 1]);
                assert(rest[b] == params[b + 1]);
            }
        }
        assert(rest[i - 1] == params[i]);
        lemma_lookup_declared(rest, i - 1);
    }
}

} // verus!
