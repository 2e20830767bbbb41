//! What a request may do below a path, as the rules of the accounts say.
use crate::text::texts;
use vstd::prelude::*;

verus! {

/// How far access reaches.
#[derive(Debug, Clone, Copy, PartialEq, Eq, Structural)]
pub enum AccessPerm {
    /// Only the entries that lead to an accessible path are seen.
    IndexOnly,
    ReadOnly,
    ReadWrite,
}

impl AccessPerm {
    /// Whether writing is allowed.
    pub fn readwrite(&self) -> (r: bool)
        ensures
            r == (*self == AccessPerm::ReadWrite),
    {
        *self == AccessPerm::ReadWrite
    }

    /// Whether only entries that lead to an accessible path are seen.
    pub fn indexonly(&self) -> (r: bool)
        ensures
            r == (*self == AccessPerm::IndexOnly),
    {
        *self == AccessPerm::IndexOnly
    }
}

/// The access to a path: how far it reaches, and the names of the entries that lead to an
/// accessible path. `from_rules` says that the rules of the accounts gave it.
#[derive(Debug)]
pub struct AccessPaths {
    pub perm: AccessPerm,
    pub child_names: Vec<String>,
    pub from_rules: bool,
}

/// What access to a path is.
pub struct AccessView {
    pub perm: AccessPerm,
    pub child_names: Seq<Seq<char>>,
    pub from_rules: bool,
}

impl View for AccessPaths {
    type V = AccessView;

    open spec fn view(&self) -> AccessView {
        AccessView {
            perm: self.perm,
            child_names: texts(self.child_names@),
            from_rules: self.from_rules,
        }
    }
}

impl AccessView {
    /// The access that reaches as far as said, with no entries of its own.
    pub open spec fn plain(perm: AccessPerm) -> AccessView {
        AccessView { perm, child_names: Seq::empty(), from_rules: false }
    }
}

impl AccessPaths {
    /// The access that reaches as far as said, with no entries of its own.
    pub fn new(perm: AccessPerm) -> (r: AccessPaths)
        ensures
            r@ == AccessView::plain(perm),
    {
        let r = AccessPaths { perm, child_names: Vec::new(), from_rules: false };
        assert(texts(r.child_names@) =~= Seq::<Seq<char>>::empty());
        r
    }
}

} // verus!
