//! Patches of one or a few operations.
use vstd::prelude::*;

use crate::json::{
    add_operation, json_string, json_text, operation_text, operation_texts, patch_of,
    patch_of_operations, patch_text, puts_document, remove_operation, replace_operation,
    valid_pointer,
};

verus! {

/// The text of the operation that adds `value` at `path`.
pub open spec fn add_text(path: Seq<char>, value: Seq<char>) -> Seq<char> {
    "{\"op\":\"add\",\"path\":"@ + json_string(path) + ",\"value\":"@ + value + seq!['}']
}

/// The text of the operation that replaces what is at `path` by `value`.
pub open spec fn replace_text(path: Seq<char>, value: Seq<char>) -> Seq<char> {
    "{\"op\":\"replace\",\"path\":"@ + json_string(path) + ",\"value\":"@ + value + seq!['}']
}

/// The text of the operation that removes what is at `path`.
pub open spec fn remove_text(path: Seq<char>) -> Seq<char> {
    "{\"op\":\"remove\",\"path\":"@ + json_string(path) + seq!['}']
}

/// A patch of one operation.
fn single(op: json_patch::PatchOperation) -> (r: json_patch::Patch)
    ensures
        patch_text(r) == patch_of_operations(seq![operation_text(op)]),
{
    let mut ops: Vec<json_patch::PatchOperation> = Vec::new();
    ops.push(op);
    proof {
        assert(operation_texts(ops@) =~= seq![operation_text(op)]);
    }
    patch_of(ops)
}

/// The patch that adds `value` at `path`. At the empty path it puts `value` in
/// place of the whole document.
pub fn add(path: &str, value: serde_json::Value) -> (r: json_patch::Patch)
    requires
        valid_pointer(path@),
    ensures
        patch_text(r) == patch_of_operations(seq![add_text(path@, json_text(value))]),
        path@.len() == 0 ==> puts_document(patch_text(r), json_text(value)),
{
    single(add_operation(path, value))
}

/// The patch that replaces what is at `path` by `value`.
pub fn replace(path: &str, value: serde_json::Value) -> (r: json_patch::Patch)
    requires
        valid_pointer(path@),
    ensures
        patch_text(r) == patch_of_operations(seq![replace_text(path@, json_text(value))]),
{
    single(replace_operation(path, value))
}

/// The patch that removes what is at `path`.
pub fn remove(path: &str) -> (r: json_patch::Patch)
    requires
        valid_pointer(path@),
    ensures
        patch_text(r) == patch_of_operations(seq![remove_text(path@)]),
{
    single(remove_operation(path))
}

/// Collects operations for one patch. They take effect in the order in which
/// they were given.
#[derive(Debug)]
pub struct Builder {
    ops: Vec<json_patch::PatchOperation>,
}

impl View for Builder {
    type V = Seq<Seq<char>>;

    /// The texts of the operations so far.
    closed spec fn view(&self) -> Seq<Seq<char>> {
        operation_texts(self.ops@)
    }
}

impl Clone for Builder {
    fn clone(&self) -> (r: Self)
        ensures
            r@ == self@,
    {
        let mut ops: Vec<json_patch::PatchOperation> = Vec::new();
        let mut i: usize = 0;
        while i < self.ops.len()
            invariant
                i <= self.ops@.len(),
                ops@.len() == i,
                forall|j: int|
                    0 <= j < i ==> operation_text(#[trigger] ops@[j]) == operation_text(
                        self.ops@[j],
                    ),
            decreases self.ops@.len() - i,
        {
            ops.push(self.ops[i].clone());
            i = i + 1;
        }
        proof {
            assert(operation_texts(ops@) =~= operation_texts(self.ops@));
        }
        Builder { ops }
    }
}

impl Default for Builder {
    fn default() -> (r: Self)
        ensures
            r@ == Seq::<Seq<char>>::empty(),
    {
        Builder::new()
    }
}

impl Builder {
    /// A builder without operations.
    pub fn new() -> (r: Self)
        ensures
            r@ == Seq::<Seq<char>>::empty(),
    {
        let r = Builder { ops: Vec::new() };
        proof {
            assert(r@ =~= Seq::<Seq<char>>::empty());
        }
        r
    }

    fn push(self, op: json_patch::PatchOperation) -> (r: Self)
        ensures
            r@ == self@.push(operation_text(op)),
    {
        let mut ops = self.ops;
        ops.push(op);
        proof {
            assert(operation_texts(ops@) =~= operation_texts(self.ops@).push(operation_text(op)));
        }
        Builder { ops }
    }

    /// Then add `value` at `path`.
    pub fn add(self, path: &str, value: serde_json::Value) -> (r: Self)
        requires
            valid_pointer(path@),
        ensures
            r@ == self@.push(add_text(path@, json_text(value))),
    {
        self.push(add_operation(path, value))
    }

    /// Then replace what is at `path` by `value`.
    pub fn replace(self, path: &str, value: serde_json::Value) -> (r: Self)
        requires
            valid_pointer(path@),
        ensures
            r@ == self@.push(replace_text(path@, json_text(value))),
    {
        self.push(replace_operation(path, value))
    }

    /// Then remove what is at `path`.
    pub fn remove(self, path: &str) -> (r: Self)
        requires
            valid_pointer(path@),
        ensures
            r@ == self@.push(remove_text(path@)),
    {
        self.push(remove_operation(path))
    }

    /// The patch with these operations.
    pub fn build(self) -> (r: json_patch::Patch)
        ensures
            patch_text(r) == patch_of_operations(self@),
    {
        patch_of(self.ops)
    }
}

} // verus!
