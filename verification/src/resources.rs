//! The writable resource kinds of the glossary graph and their descriptors.
//!
//! Each kind carries its natural key and says how an update payload is
//! folded into the stored record; this is all the dispatcher needs to know
//! about a kind.

use vstd::prelude::*;

use crate::auth::Role;
use crate::store::{KeyPair, Resource};

verus! {

/// The key of a record identified by one name.
pub open spec fn single_key(name: Seq<char>) -> KeyPair {
    (name, Seq::<char>::empty())
}

/// String comparison routed through the specified equality on views.
pub fn string_key_eq(a: &String, b: &String) -> (r: bool)
    ensures
        r == (a@ == b@),
{
    a.eq(b)
}

/// A glossary node, keyed by its name and belonging to one category.
pub struct NodeData {
    pub name: String,
    pub url: String,
    pub category_id: String,
    pub author: String,
    pub teaser_text: String,
    pub views: i32,
    pub wlk_hovers: i32,
    pub wlk_clicks: i32,
    pub read_time: String,
}

impl Resource for NodeData {
    open spec fn key(&self) -> KeyPair {
        single_key(self.name@)
    }

    /// An update overwrites every field but the immutable url, which stays
    /// as it was written at creation.
    open spec fn merge_spec(current: Self, payload: Self) -> Self {
        NodeData { url: current.url, ..payload }
    }

    proof fn merge_keeps_key(current: Self, payload: Self) {
    }

    proof fn merge_absorbs(current: Self, payload: Self) {
    }

    fn key_eq(&self, other: &Self) -> (r: bool) {
        string_key_eq(&self.name, &other.name)
    }

    fn merged(current: Self, payload: Self) -> (r: Self) {
        NodeData { url: current.url, ..payload }
    }
}

/// A category of nodes, a bare name.
pub struct CategoryData {
    pub name: String,
}

impl Resource for CategoryData {
    open spec fn key(&self) -> KeyPair {
        single_key(self.name@)
    }

    /// A category has no fields beyond its key; an update changes nothing.
    open spec fn merge_spec(current: Self, payload: Self) -> Self {
        current
    }

    proof fn merge_keeps_key(current: Self, payload: Self) {
    }

    proof fn merge_absorbs(current: Self, payload: Self) {
    }

    fn key_eq(&self, other: &Self) -> (r: bool) {
        string_key_eq(&self.name, &other.name)
    }

    fn merged(current: Self, payload: Self) -> (r: Self) {
        current
    }
}

/// An author discipline, a bare name.
pub struct DisciplineData {
    pub name: String,
}

impl Resource for DisciplineData {
    open spec fn key(&self) -> KeyPair {
        single_key(self.name@)
    }

    /// A discipline has no fields beyond its key; an update changes nothing.
    open spec fn merge_spec(current: Self, payload: Self) -> Self {
        current
    }

    proof fn merge_keeps_key(current: Self, payload: Self) {
    }

    proof fn merge_absorbs(current: Self, payload: Self) {
    }

    fn key_eq(&self, other: &Self) -> (r: bool) {
        string_key_eq(&self.name, &other.name)
    }

    fn merged(current: Self, payload: Self) -> (r: Self) {
        current
    }
}

/// An edge between two nodes, keyed by the pair of node names it connects.
pub struct EdgeData {
    pub source_id: String,
    pub target_id: String,
}

impl Resource for EdgeData {
    open spec fn key(&self) -> KeyPair {
        (self.source_id@, self.target_id@)
    }

    /// An edge has no fields beyond its key; an update changes nothing.
    open spec fn merge_spec(current: Self, payload: Self) -> Self {
        current
    }

    proof fn merge_keeps_key(current: Self, payload: Self) {
    }

    proof fn merge_absorbs(current: Self, payload: Self) {
    }

    fn key_eq(&self, other: &Self) -> (r: bool) {
        string_key_eq(&self.source_id, &other.source_id) && string_key_eq(
            &self.target_id,
            &other.target_id,
        )
    }

    fn merged(current: Self, payload: Self) -> (r: Self) {
        current
    }
}

/// An article, keyed by its name, attached to one edge and one discipline.
pub struct ArticleData {
    pub name: String,
    pub edge_source_id: String,
    pub edge_target_id: String,
    pub discipline_id: String,
    pub author: String,
    pub teaser_text: String,
    pub date: String,
    pub url: String,
    pub views: i32,
    pub wlk_hovers: i32,
    pub wlk_clicks: i32,
    pub read_time: String,
}

impl Resource for ArticleData {
    open spec fn key(&self) -> KeyPair {
        single_key(self.name@)
    }

    /// An update overwrites every field.
    open spec fn merge_spec(current: Self, payload: Self) -> Self {
        payload
    }

    proof fn merge_keeps_key(current: Self, payload: Self) {
    }

    proof fn merge_absorbs(current: Self, payload: Self) {
    }

    fn key_eq(&self, other: &Self) -> (r: bool) {
        string_key_eq(&self.name, &other.name)
    }

    fn merged(current: Self, payload: Self) -> (r: Self) {
        payload
    }
}

/// A stored credential: the unique email, the encoded salted hash, and the
/// role granted at registration.
pub struct Credential {
    pub email: String,
    pub hash: String,
    pub role: Role,
}

impl Resource for Credential {
    open spec fn key(&self) -> KeyPair {
        single_key(self.email@)
    }

    /// An update overwrites every field.
    open spec fn merge_spec(current: Self, payload: Self) -> Self {
        payload
    }

    proof fn merge_keeps_key(current: Self, payload: Self) {
    }

    proof fn merge_absorbs(current: Self, payload: Self) {
    }

    fn key_eq(&self, other: &Self) -> (r: bool) {
        string_key_eq(&self.email, &other.email)
    }

    fn merged(current: Self, payload: Self) -> (r: Self) {
        payload
    }
}

} // verus!
