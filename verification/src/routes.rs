//! The request-level operations: registration, login, and the gated
//! mutations of the glossary graph.
//!
//! Every mutation takes a bearer token, an operation kind and a full
//! resource snapshot; the admin gate is unconditionally the first action,
//! and nothing is read or written when it fails.  The store keeps edges
//! referring to existing nodes, nodes to existing categories, and articles
//! to existing edges and disciplines, so mutations that would leave a
//! dangling reference are refused.

use vstd::prelude::*;

use crate::auth::{
    check_admin, cmp_salt_hash, gen_jwt, gen_salt, gen_salt_hash, spec_is_admin,
    spec_token_claims, spec_verify, CredentialError, Role, TOKEN_LIFETIME_SECS,
};
use crate::resources::{
    single_key, string_key_eq, ArticleData, CategoryData, Credential, DisciplineData, EdgeData,
    NodeData,
};
use crate::store::{dispatch, spec_dispatch, KeyPair, ModType, Resource, StoreError, Table};

verus! {

/// The uniform mutation response: `None` signals success, any failure is a
/// short stable error code.
pub struct ModResponse {
    pub error: Option<String>,
}

/// The login response: a fresh session token, or nothing when the
/// credentials were not accepted.
pub struct LoginResponse {
    pub token: Option<String>,
}

/// The stable error vocabulary shown to clients.
pub open spec fn spec_error_text(e: StoreError) -> Seq<char> {
    match e {
        StoreError::NotFound => "NotFound"@,
        StoreError::Conflict => "Conflict"@,
        StoreError::Unavailable => "Unavailable"@,
    }
}

/// Whether a response reports exactly the given outcome.
pub open spec fn spec_response_matches(err: Option<StoreError>, r: ModResponse) -> bool {
    match err {
        None => r.error is None,
        Some(e) => r.error matches Some(t) && t@ == spec_error_text(e),
    }
}

fn respond(err: Option<StoreError>) -> (r: ModResponse)
    ensures
        spec_response_matches(err, r),
{
    match err {
        None => ModResponse { error: None },
        Some(StoreError::NotFound) => ModResponse { error: Some("NotFound".to_owned()) },
        Some(StoreError::Conflict) => ModResponse { error: Some("Conflict".to_owned()) },
        Some(StoreError::Unavailable) => ModResponse { error: Some("Unavailable".to_owned()) },
    }
}

fn invalid_token_response() -> (r: ModResponse)
    ensures
        r.error matches Some(t) && t@ == "Invalid token"@,
{
    ModResponse { error: Some("Invalid token".to_owned()) }
}

// ---------------------------------------------------------------------------
// Referential predicates.
// ---------------------------------------------------------------------------

/// No stored edge has `name` as its source or target.
pub open spec fn no_edge_refs_node(edges: Map<KeyPair, EdgeData>, name: Seq<char>) -> bool {
    forall|k: KeyPair| #[trigger] edges.contains_key(k) ==> k.0 != name && k.1 != name
}

/// No stored node belongs to the category `name`.
pub open spec fn no_node_refs_category(nodes: Map<KeyPair, NodeData>, name: Seq<char>) -> bool {
    forall|k: KeyPair| #[trigger] nodes.contains_key(k) ==> nodes[k].category_id@ != name
}

/// No stored article sits on the edge from `source` to `target`.
pub open spec fn no_article_refs_edge(
    articles: Map<KeyPair, ArticleData>,
    source: Seq<char>,
    target: Seq<char>,
) -> bool {
    forall|k: KeyPair| #[trigger] articles.contains_key(k)
        ==> !(articles[k].edge_source_id@ == source && articles[k].edge_target_id@ == target)
}

/// No stored article belongs to the discipline `name`.
pub open spec fn no_article_refs_discipline(
    articles: Map<KeyPair, ArticleData>,
    name: Seq<char>,
) -> bool {
    forall|k: KeyPair| #[trigger] articles.contains_key(k) ==> articles[k].discipline_id@ != name
}

fn node_references_category(nodes: &Table<NodeData>, name: &String) -> (r: bool)
    requires
        nodes.wf(),
    ensures
        r == !no_node_refs_category(nodes@, name@),
{
    proof {
        nodes.lemma_view_rows();
    }
    let n = nodes.row_count();
    let mut i: usize = 0;
    while i < n
        invariant
            nodes.wf(),
            nodes@ == crate::store::seq_to_map(nodes.rows_seq()),
            n == nodes.rows_seq().len(),
            i <= n,
            forall|j: int| 0 <= j < i ==> (#[trigger] nodes.rows_seq()[j]).category_id@ != name@,
        decreases n - i,
    {
        proof {
            nodes.lemma_view_rows();
        }
        if string_key_eq(&nodes.row_at(i).category_id, name) {
            proof {
                let s = nodes.rows_seq();
                let k = s[i as int].key();
                assert(crate::store::seq_contains_key(s, k));
                assert(nodes@.contains_key(k));
                let w = crate::store::seq_key_index(s, k);
                if w < i {
                    assert(s[w].key() != s[i as int].key());
                }
                if i < w {
                    assert(s[i as int].key() != s[w].key());
                }
                assert(nodes@[k] == s[i as int]);
            }
            return true;
        }
        i = i + 1;
    }
    proof {
        let s = nodes.rows_seq();
        assert forall|k: KeyPair| #[trigger] nodes@.contains_key(k)
            implies nodes@[k].category_id@ != name@ by {
            assert(crate::store::seq_contains_key(s, k));
            let w = crate::store::seq_key_index(s, k);
            assert(nodes@[k] == s[w]);
        }
    }
    false
}

fn edge_references_node(edges: &Table<EdgeData>, name: &String) -> (r: bool)
    requires
        edges.wf(),
    ensures
        r == !no_edge_refs_node(edges@, name@),
{
    proof {
        edges.lemma_view_rows();
    }
    let n = edges.row_count();
    let mut i: usize = 0;
    while i < n
        invariant
            edges.wf(),
            edges@ == crate::store::seq_to_map(edges.rows_seq()),
            n == edges.rows_seq().len(),
            i <= n,
            forall|j: int| 0 <= j < i ==> (#[trigger] edges.rows_seq()[j]).source_id@ != name@
                && edges.rows_seq()[j].target_id@ != name@,
        decreases n - i,
    {
        let row = edges.row_at(i);
        if string_key_eq(&row.source_id, name) || string_key_eq(&row.target_id, name) {
            proof {
                let s = edges.rows_seq();
                let k = s[i as int].key();
                assert(crate::store::seq_contains_key(s, k));
                assert(edges@.contains_key(k));
                assert(k.0 == s[i as int].source_id@ && k.1 == s[i as int].target_id@);
            }
            return true;
        }
        i = i + 1;
    }
    proof {
        let s = edges.rows_seq();
        assert forall|k: KeyPair| #[trigger] edges@.contains_key(k) implies k.0 != name@ && k.1
            != name@ by {
            assert(crate::store::seq_contains_key(s, k));
            let w = crate::store::seq_key_index(s, k);
            assert(s[w].key() == k);
        }
    }
    false
}

fn article_references_edge(
    articles: &Table<ArticleData>,
    source: &String,
    target: &String,
) -> (r: bool)
    requires
        articles.wf(),
    ensures
        r == !no_article_refs_edge(articles@, source@, target@),
{
    proof {
        articles.lemma_view_rows();
    }
    let n = articles.row_count();
    let mut i: usize = 0;
    while i < n
        invariant
            articles.wf(),
            articles@ == crate::store::seq_to_map(articles.rows_seq()),
            n == articles.rows_seq().len(),
            i <= n,
            forall|j: int| 0 <= j < i
                ==> !((#[trigger] articles.rows_seq()[j]).edge_source_id@ == source@
                && articles.rows_seq()[j].edge_target_id@ == target@),
        decreases n - i,
    {
        let row = articles.row_at(i);
        if string_key_eq(&row.edge_source_id, source) && string_key_eq(&row.edge_target_id, target) {
            proof {
                articles.lemma_view_rows();
                let s = articles.rows_seq();
                let k = s[i as int].key();
                assert(crate::store::seq_contains_key(s, k));
                assert(articles@.contains_key(k));
                let w = crate::store::seq_key_index(s, k);
                if w < i {
                    assert(s[w].key() != s[i as int].key());
                }
                if i < w {
                    assert(s[i as int].key() != s[w].key());
                }
                assert(articles@[k] == s[i as int]);
            }
            return true;
        }
        i = i + 1;
    }
    proof {
        let s = articles.rows_seq();
        assert forall|k: KeyPair| #[trigger] articles@.contains_key(k)
            implies !(articles@[k].edge_source_id@ == source@ && articles@[k].edge_target_id@
            == target@) by {
            assert(crate::store::seq_contains_key(s, k));
            let w = crate::store::seq_key_index(s, k);
            assert(articles@[k] == s[w]);
        }
    }
    false
}

fn article_references_discipline(articles: &Table<ArticleData>, name: &String) -> (r: bool)
    requires
        articles.wf(),
    ensures
        r == !no_article_refs_discipline(articles@, name@),
{
    proof {
        articles.lemma_view_rows();
    }
    let n = articles.row_count();
    let mut i: usize = 0;
    while i < n
        invariant
            articles.wf(),
            articles@ == crate::store::seq_to_map(articles.rows_seq()),
            n == articles.rows_seq().len(),
            i <= n,
            forall|j: int| 0 <= j < i ==> (#[trigger] articles.rows_seq()[j]).discipline_id@
                != name@,
        decreases n - i,
    {
        if string_key_eq(&articles.row_at(i).discipline_id, name) {
            proof {
                articles.lemma_view_rows();
                let s = articles.rows_seq();
                let k = s[i as int].key();
                assert(crate::store::seq_contains_key(s, k));
                assert(articles@.contains_key(k));
                let w = crate::store::seq_key_index(s, k);
                if w < i {
                    assert(s[w].key() != s[i as int].key());
                }
                if i < w {
                    assert(s[i as int].key() != s[w].key());
                }
                assert(articles@[k] == s[i as int]);
            }
            return true;
        }
        i = i + 1;
    }
    proof {
        let s = articles.rows_seq();
        assert forall|k: KeyPair| #[trigger] articles@.contains_key(k)
            implies articles@[k].discipline_id@ != name@ by {
            assert(crate::store::seq_contains_key(s, k));
            let w = crate::store::seq_key_index(s, k);
            assert(articles@[k] == s[w]);
        }
    }
    false
}

// ---------------------------------------------------------------------------
// The store.
// ---------------------------------------------------------------------------

/// The persistence state of the whole glossary: one keyed table per
/// resource kind, plus the credentials.
pub struct GlossaryStore {
    pub nodes: Table<NodeData>,
    pub categories: Table<CategoryData>,
    pub disciplines: Table<DisciplineData>,
    pub edges: Table<EdgeData>,
    pub articles: Table<ArticleData>,
    pub users: Table<Credential>,
}

impl GlossaryStore {
    /// Every table keeps unique keys, and no stored record dangles: a node's
    /// category, an edge's two nodes, and an article's edge and discipline
    /// all exist.
    pub open spec fn wf(&self) -> bool {
        &&& self.nodes.wf()
        &&& self.categories.wf()
        &&& self.disciplines.wf()
        &&& self.edges.wf()
        &&& self.articles.wf()
        &&& self.users.wf()
        &&& forall|k: KeyPair| #[trigger] self.nodes@.contains_key(k)
            ==> self.categories@.contains_key(single_key(self.nodes@[k].category_id@))
        &&& forall|k: KeyPair| #[trigger] self.edges@.contains_key(k)
            ==> self.nodes@.contains_key(single_key(k.0)) && self.nodes@.contains_key(
            single_key(k.1),
        )
        &&& forall|k: KeyPair| #[trigger] self.articles@.contains_key(k)
            ==> self.edges@.contains_key(
            (self.articles@[k].edge_source_id@, self.articles@[k].edge_target_id@),
        ) && self.disciplines@.contains_key(single_key(self.articles@[k].discipline_id@))
    }

    /// An empty store.
    pub fn new() -> (r: GlossaryStore)
        ensures
            r.wf(),
            r.nodes@ == Map::<KeyPair, NodeData>::empty(),
            r.categories@ == Map::<KeyPair, CategoryData>::empty(),
            r.disciplines@ == Map::<KeyPair, DisciplineData>::empty(),
            r.edges@ == Map::<KeyPair, EdgeData>::empty(),
            r.articles@ == Map::<KeyPair, ArticleData>::empty(),
            r.users@ == Map::<KeyPair, Credential>::empty(),
    {
        GlossaryStore {
            nodes: Table::new(),
            categories: Table::new(),
            disciplines: Table::new(),
            edges: Table::new(),
            articles: Table::new(),
            users: Table::new(),
        }
    }

    /// The outcome of a category mutation: deleting a category that still
    /// has nodes is a conflict; everything else follows the dispatch
    /// protocol.
    pub open spec fn spec_mod_category(self, op: ModType, data: CategoryData) -> (
        Map<KeyPair, CategoryData>,
        Option<StoreError>,
    ) {
        if op == ModType::Delete && self.categories@.contains_key(data.key())
            && !no_node_refs_category(self.nodes@, data.name@) {
            (self.categories@, Some(StoreError::Conflict))
        } else {
            spec_dispatch(self.categories@, op, data)
        }
    }

    /// Mutates one category.  The admin gate is the first action: on a
    /// token that is not a valid, unexpired admin token, the store is
    /// untouched and the response says "Invalid token".
    pub fn mod_category(
        &mut self,
        secret: &[u8],
        now: usize,
        token: &str,
        op: ModType,
        data: CategoryData,
    ) -> (r: ModResponse)
        requires
            old(self).wf(),
        ensures
            final(self).wf(),
            final(self).nodes == old(self).nodes,
            final(self).disciplines == old(self).disciplines,
            final(self).edges == old(self).edges,
            final(self).articles == old(self).articles,
            final(self).users == old(self).users,
            !spec_is_admin(secret@, now, token@) ==> *final(self) == *old(self) && (
            r.error matches Some(t) && t@ == "Invalid token"@),
            spec_is_admin(secret@, now, token@) ==> final(self).categories@
                == old(self).spec_mod_category(op, data).0 && spec_response_matches(
                old(self).spec_mod_category(op, data).1,
                r,
            ),
    {
        if !check_admin(secret, now, token) {
            return invalid_token_response();
        }
        if op == ModType::Delete && self.categories.contains(&data) && node_references_category(
            &self.nodes,
            &data.name,
        ) {
            return respond(Some(StoreError::Conflict));
        }
        let ghost pre = *self;
        let err = dispatch(&mut self.categories, op, data);
        proof {
            assert forall|k: KeyPair| #[trigger] self.nodes@.contains_key(k)
                implies self.categories@.contains_key(
                single_key(self.nodes@[k].category_id@),
            ) by {
                let ck = single_key(pre.nodes@[k].category_id@);
                assert(pre.categories@.contains_key(ck));
                match op {
                    ModType::Delete => {
                        if pre.categories@.contains_key(data.key()) {
                            assert(no_node_refs_category(pre.nodes@, data.name@));
                            assert(pre.nodes@[k].category_id@ != data.name@);
                        }
                    },
                    _ => {},
                }
            }
        }
        respond(err)
    }

    /// The outcome of a discipline mutation: deleting a discipline that
    /// still has articles is a conflict; everything else follows the
    /// dispatch protocol.
    pub open spec fn spec_mod_discipline(self, op: ModType, data: DisciplineData) -> (
        Map<KeyPair, DisciplineData>,
        Option<StoreError>,
    ) {
        if op == ModType::Delete && self.disciplines@.contains_key(data.key())
            && !no_article_refs_discipline(self.articles@, data.name@) {
            (self.disciplines@, Some(StoreError::Conflict))
        } else {
            spec_dispatch(self.disciplines@, op, data)
        }
    }

    /// Mutates one discipline, behind the admin gate.
    pub fn mod_discipline(
        &mut self,
        secret: &[u8],
        now: usize,
        token: &str,
        op: ModType,
        data: DisciplineData,
    ) -> (r: ModResponse)
        requires
            old(self).wf(),
        ensures
            final(self).wf(),
            final(self).nodes == old(self).nodes,
            final(self).categories == old(self).categories,
            final(self).edges == old(self).edges,
            final(self).articles == old(self).articles,
            final(self).users == old(self).users,
            !spec_is_admin(secret@, now, token@) ==> *final(self) == *old(self) && (
            r.error matches Some(t) && t@ == "Invalid token"@),
            spec_is_admin(secret@, now, token@) ==> final(self).disciplines@
                == old(self).spec_mod_discipline(op, data).0 && spec_response_matches(
                old(self).spec_mod_discipline(op, data).1,
                r,
            ),
    {
        if !check_admin(secret, now, token) {
            return invalid_token_response();
        }
        if op == ModType::Delete && self.disciplines.contains(&data)
            && article_references_discipline(&self.articles, &data.name) {
            return respond(Some(StoreError::Conflict));
        }
        let ghost pre = *self;
        let err = dispatch(&mut self.disciplines, op, data);
        proof {
            assert forall|k: KeyPair| #[trigger] self.articles@.contains_key(k)
                implies self.disciplines@.contains_key(
                single_key(self.articles@[k].discipline_id@),
            ) by {
                let dk = single_key(pre.articles@[k].discipline_id@);
                assert(pre.disciplines@.contains_key(dk));
                match op {
                    ModType::Delete => {
                        if pre.disciplines@.contains_key(data.key()) {
                            assert(no_article_refs_discipline(pre.articles@, data.name@));
                            assert(pre.articles@[k].discipline_id@ != data.name@);
                        }
                    },
                    _ => {},
                }
            }
        }
        respond(err)
    }

    /// The outcome of a node mutation: a write whose category does not
    /// exist is refused as `NotFound`; deleting a node that still has edges
    /// is a conflict; everything else follows the dispatch protocol.
    pub open spec fn spec_mod_node(self, op: ModType, data: NodeData) -> (
        Map<KeyPair, NodeData>,
        Option<StoreError>,
    ) {
        if op == ModType::Delete {
            if self.nodes@.contains_key(data.key()) && !no_edge_refs_node(
                self.edges@,
                data.name@,
            ) {
                (self.nodes@, Some(StoreError::Conflict))
            } else {
                spec_dispatch(self.nodes@, op, data)
            }
        } else {
            if !self.categories@.contains_key(single_key(data.category_id@)) {
                (self.nodes@, Some(StoreError::NotFound))
            } else {
                spec_dispatch(self.nodes@, op, data)
            }
        }
    }

    /// Mutates one node, behind the admin gate.
    pub fn mod_node(
        &mut self,
        secret: &[u8],
        now: usize,
        token: &str,
        op: ModType,
        data: NodeData,
    ) -> (r: ModResponse)
        requires
            old(self).wf(),
        ensures
            final(self).wf(),
            final(self).categories == old(self).categories,
            final(self).disciplines == old(self).disciplines,
            final(self).edges == old(self).edges,
            final(self).articles == old(self).articles,
            final(self).users == old(self).users,
            !spec_is_admin(secret@, now, token@) ==> *final(self) == *old(self) && (
            r.error matches Some(t) && t@ == "Invalid token"@),
            spec_is_admin(secret@, now, token@) ==> final(self).nodes@
                == old(self).spec_mod_node(op, data).0 && spec_response_matches(
                old(self).spec_mod_node(op, data).1,
                r,
            ),
    {
        if !check_admin(secret, now, token) {
            return invalid_token_response();
        }
        if op == ModType::Delete {
            if self.nodes.contains(&data) && edge_references_node(&self.edges, &data.name) {
                return respond(Some(StoreError::Conflict));
            }
            let ghost pre = *self;
            let err = dispatch(&mut self.nodes, op, data);
            proof {
                assert forall|k: KeyPair| #[trigger] self.nodes@.contains_key(k)
                    implies self.categories@.contains_key(
                    single_key(self.nodes@[k].category_id@),
                ) by {
                    assert(pre.nodes@.contains_key(k));
                    assert(self.nodes@[k] == pre.nodes@[k]);
                }
                assert forall|k: KeyPair| #[trigger] self.edges@.contains_key(k)
                    implies self.nodes@.contains_key(single_key(k.0))
                    && self.nodes@.contains_key(single_key(k.1)) by {
                    if pre.nodes@.contains_key(data.key()) {
                        assert(no_edge_refs_node(pre.edges@, data.name@));
                        assert(k.0 != data.name@ && k.1 != data.name@);
                        assert(single_key(k.0) != data.key() && single_key(k.1) != data.key());
                    }
                }
            }
            respond(err)
        } else {
            let probe = CategoryData { name: data.category_id.clone() };
            if !self.categories.contains(&probe) {
                return respond(Some(StoreError::NotFound));
            }
            let ghost pre = *self;
            let err = dispatch(&mut self.nodes, op, data);
            proof {
                assert forall|k: KeyPair| #[trigger] self.nodes@.contains_key(k)
                    implies self.categories@.contains_key(
                    single_key(self.nodes@[k].category_id@),
                ) by {
                    if k != data.key() {
                        assert(pre.nodes@.contains_key(k));
                        assert(self.nodes@[k] == pre.nodes@[k]);
                    } else if self.nodes@ == pre.nodes@ {
                        assert(pre.nodes@.contains_key(k));
                    } else {
                        assert(self.nodes@[k] == data || self.nodes@[k] == NodeData::merge_spec(
                            pre.nodes@[data.key()],
                            data,
                        ));
                        assert(self.nodes@[k].category_id@ == data.category_id@);
                    }
                }
                assert forall|k: KeyPair| #[trigger] self.edges@.contains_key(k)
                    implies self.nodes@.contains_key(single_key(k.0))
                    && self.nodes@.contains_key(single_key(k.1)) by {
                    assert(pre.nodes@.contains_key(single_key(k.0)));
                    assert(pre.nodes@.contains_key(single_key(k.1)));
                }
            }
            respond(err)
        }
    }

    /// The outcome of an edge mutation: a write whose source or target node
    /// does not exist is refused as `NotFound`; deleting an edge that still
    /// has articles is a conflict; everything else follows the dispatch
    /// protocol.
    pub open spec fn spec_mod_edge(self, op: ModType, data: EdgeData) -> (
        Map<KeyPair, EdgeData>,
        Option<StoreError>,
    ) {
        if op == ModType::Delete {
            if self.edges@.contains_key(data.key()) && !no_article_refs_edge(
                self.articles@,
                data.source_id@,
                data.target_id@,
            ) {
                (self.edges@, Some(StoreError::Conflict))
            } else {
                spec_dispatch(self.edges@, op, data)
            }
        } else {
            if !(self.nodes@.contains_key(single_key(data.source_id@))
                && self.nodes@.contains_key(single_key(data.target_id@))) {
                (self.edges@, Some(StoreError::NotFound))
            } else {
                spec_dispatch(self.edges@, op, data)
            }
        }
    }

    /// Mutates one edge, behind the admin gate.
    pub fn mod_edge(
        &mut self,
        secret: &[u8],
        now: usize,
        token: &str,
        op: ModType,
        data: EdgeData,
    ) -> (r: ModResponse)
        requires
            old(self).wf(),
        ensures
            final(self).wf(),
            final(self).nodes == old(self).nodes,
            final(self).categories == old(self).categories,
            final(self).disciplines == old(self).disciplines,
            final(self).articles == old(self).articles,
            final(self).users == old(self).users,
            !spec_is_admin(secret@, now, token@) ==> *final(self) == *old(self) && (
            r.error matches Some(t) && t@ == "Invalid token"@),
            spec_is_admin(secret@, now, token@) ==> final(self).edges@
                == old(self).spec_mod_edge(op, data).0 && spec_response_matches(
                old(self).spec_mod_edge(op, data).1,
                r,
            ),
    {
        if !check_admin(secret, now, token) {
            return invalid_token_response();
        }
        if op == ModType::Delete {
            if self.edges.contains(&data) && article_references_edge(
                &self.articles,
                &data.source_id,
                &data.target_id,
            ) {
                return respond(Some(StoreError::Conflict));
            }
            let ghost pre = *self;
            let err = dispatch(&mut self.edges, op, data);
            proof {
                assert forall|k: KeyPair| #[trigger] self.edges@.contains_key(k)
                    implies self.nodes@.contains_key(single_key(k.0))
                    && self.nodes@.contains_key(single_key(k.1)) by {
                    assert(pre.edges@.contains_key(k));
                }
                assert forall|k: KeyPair| #[trigger] self.articles@.contains_key(k)
                    implies self.edges@.contains_key(
                    (self.articles@[k].edge_source_id@, self.articles@[k].edge_target_id@),
                ) by {
                    let a = pre.articles@[k];
                    if pre.edges@.contains_key(data.key()) {
                        assert(no_article_refs_edge(
                            pre.articles@,
                            data.source_id@,
                            data.target_id@,
                        ));
                        assert(!(a.edge_source_id@ == data.source_id@ && a.edge_target_id@
                            == data.target_id@));
                        assert((a.edge_source_id@, a.edge_target_id@) != data.key());
                    }
                }
            }
            respond(err)
        } else {
            let source_probe = NodeData {
                name: data.source_id.clone(),
                url: String::new(),
                category_id: String::new(),
                author: String::new(),
                teaser_text: String::new(),
                views: 0,
                wlk_hovers: 0,
                wlk_clicks: 0,
                read_time: String::new(),
            };
            let source_known = self.nodes.contains(&source_probe);
            let target_probe = NodeData { name: data.target_id.clone(), ..source_probe };
            if !(source_known && self.nodes.contains(&target_probe)) {
                return respond(Some(StoreError::NotFound));
            }
            let ghost pre = *self;
            let err = dispatch(&mut self.edges, op, data);
            proof {
                assert forall|k: KeyPair| #[trigger] self.edges@.contains_key(k)
                    implies self.nodes@.contains_key(single_key(k.0))
                    && self.nodes@.contains_key(single_key(k.1)) by {
                    if k != data.key() {
                        assert(pre.edges@.contains_key(k));
                    } else {
                        assert(k.0 == data.source_id@ && k.1 == data.target_id@);
                    }
                }
                assert forall|k: KeyPair| #[trigger] self.articles@.contains_key(k)
                    implies self.edges@.contains_key(
                    (self.articles@[k].edge_source_id@, self.articles@[k].edge_target_id@),
                ) by {
                    assert(pre.edges@.contains_key(
                        (pre.articles@[k].edge_source_id@, pre.articles@[k].edge_target_id@),
                    ));
                }
            }
            respond(err)
        }
    }

    /// The outcome of an article mutation: a write whose edge or discipline
    /// does not exist is refused as `NotFound`; everything else follows the
    /// dispatch protocol.  Nothing references articles, so deletion needs no
    /// further check.
    pub open spec fn spec_mod_article(self, op: ModType, data: ArticleData) -> (
        Map<KeyPair, ArticleData>,
        Option<StoreError>,
    ) {
        if op == ModType::Delete {
            spec_dispatch(self.articles@, op, data)
        } else {
            if !(self.edges@.contains_key((data.edge_source_id@, data.edge_target_id@))
                && self.disciplines@.contains_key(single_key(data.discipline_id@))) {
                (self.articles@, Some(StoreError::NotFound))
            } else {
                spec_dispatch(self.articles@, op, data)
            }
        }
    }

    /// Mutates one article, behind the admin gate.
    pub fn mod_article(
        &mut self,
        secret: &[u8],
        now: usize,
        token: &str,
        op: ModType,
        data: ArticleData,
    ) -> (r: ModResponse)
        requires
            old(self).wf(),
        ensures
            final(self).wf(),
            final(self).nodes == old(self).nodes,
            final(self).categories == old(self).categories,
            final(self).disciplines == old(self).disciplines,
            final(self).edges == old(self).edges,
            final(self).users == old(self).users,
            !spec_is_admin(secret@, now, token@) ==> *final(self) == *old(self) && (
            r.error matches Some(t) && t@ == "Invalid token"@),
            spec_is_admin(secret@, now, token@) ==> final(self).articles@
                == old(self).spec_mod_article(op, data).0 && spec_response_matches(
                old(self).spec_mod_article(op, data).1,
                r,
            ),
    {
        if !check_admin(secret, now, token) {
            return invalid_token_response();
        }
        if op == ModType::Delete {
            let ghost pre = *self;
            let err = dispatch(&mut self.articles, op, data);
            proof {
                assert forall|k: KeyPair| #[trigger] self.articles@.contains_key(k)
                    implies self.edges@.contains_key(
                    (self.articles@[k].edge_source_id@, self.articles@[k].edge_target_id@),
                ) && self.disciplines@.contains_key(
                    single_key(self.articles@[k].discipline_id@),
                ) by {
                    assert(pre.articles@.contains_key(k));
                    assert(self.articles@[k] == pre.articles@[k]);
                }
            }
            respond(err)
        } else {
            let edge_probe = EdgeData {
                source_id: data.edge_source_id.clone(),
                target_id: data.edge_target_id.clone(),
            };
            let discipline_probe = DisciplineData { name: data.discipline_id.clone() };
            if !(self.edges.contains(&edge_probe) && self.disciplines.contains(
                &discipline_probe,
            )) {
                return respond(Some(StoreError::NotFound));
            }
            let ghost pre = *self;
            let err = dispatch(&mut self.articles, op, data);
            proof {
                assert forall|k: KeyPair| #[trigger] self.articles@.contains_key(k)
                    implies self.edges@.contains_key(
                    (self.articles@[k].edge_source_id@, self.articles@[k].edge_target_id@),
                ) && self.disciplines@.contains_key(
                    single_key(self.articles@[k].discipline_id@),
                ) by {
                    if k != data.key() {
                        assert(pre.articles@.contains_key(k));
                        assert(self.articles@[k] == pre.articles@[k]);
                    } else if self.articles@ == pre.articles@ {
                        assert(pre.articles@.contains_key(k));
                    } else {
                        assert(self.articles@[k] == data || self.articles@[k]
                            == ArticleData::merge_spec(pre.articles@[data.key()], data));
                    }
                }
            }
            respond(err)
        }
    }

    /// Registers a credential under a fresh random salt.  The stored hash
    /// verifies the given password; a taken email is a conflict, reported
    /// before any salt is drawn; a failing random generator reports the
    /// store vocabulary's unavailability code.
    pub fn register(&mut self, email: String, password: String, role: Role) -> (r: ModResponse)
        requires
            old(self).wf(),
        ensures
            final(self).wf(),
            final(self).nodes == old(self).nodes,
            final(self).categories == old(self).categories,
            final(self).disciplines == old(self).disciplines,
            final(self).edges == old(self).edges,
            final(self).articles == old(self).articles,
            r.error is None ==> !old(self).users@.contains_key(single_key(email@)) && (
            exists|cred: Credential|
                {
                    &&& final(self).users@ == #[trigger] old(self).users@.insert(
                        single_key(email@),
                        cred,
                    )
                    &&& cred.email@ == email@
                    &&& cred.role == role
                    &&& spec_verify(password@, cred.hash@) == Ok::<(), CredentialError>(())
                }),
            old(self).users@.contains_key(single_key(email@)) <==> (r.error matches Some(t) && t@
                == spec_error_text(StoreError::Conflict)),
            r.error matches Some(t) ==> final(self).users@ == old(self).users@ && (t@
                == spec_error_text(StoreError::Conflict) || t@ == spec_error_text(
                StoreError::Unavailable,
            )),
    {
        let probe = Credential { email: email.clone(), hash: String::new(), role };
        if self.users.contains(&probe) {
            return respond(Some(StoreError::Conflict));
        }
        proof {
            reveal_strlit("Conflict");
            reveal_strlit("Unavailable");
            assert("Unavailable"@.len() != "Conflict"@.len());
        }
        let salt = match gen_salt() {
            None => {
                return respond(Some(StoreError::Unavailable));
            },
            Some(s) => s,
        };
        let hash = gen_salt_hash(salt.as_str(), password.as_str());
        let cred = Credential { email, hash, role };
        let ghost stored = cred;
        match self.users.create(cred) {
            None => {
                proof {
                    assert(self.users@ == old(self).users@.insert(single_key(email@), stored));
                }
                respond(None)
            },
            Some(_) => respond(Some(StoreError::Conflict)),
        }
    }

    /// Checks a password against the stored credential and issues a fresh
    /// session token.  An unknown email or a wrong password yields no
    /// token; so does a failure of the signing library.
    pub fn login(&self, secret: &[u8], now: usize, email: &String, password: &str) -> (r:
        LoginResponse)
        requires
            self.wf(),
            now + TOKEN_LIFETIME_SECS <= usize::MAX,
        ensures
            r.token matches Some(t) ==> {
                &&& self.users@.contains_key(single_key(email@))
                &&& spec_verify(password@, self.users@[single_key(email@)].hash@) == Ok::<
                    (),
                    CredentialError,
                >(())
                &&& spec_token_claims(secret@, t@) == Some(
                    (
                        email@,
                        self.users@[single_key(email@)].role,
                        (now + TOKEN_LIFETIME_SECS) as usize,
                    ),
                )
            },
            !self.users@.contains_key(single_key(email@)) ==> r.token is None,
            self.users@.contains_key(single_key(email@)) && spec_verify(
                password@,
                self.users@[single_key(email@)].hash@,
            ) != Ok::<(), CredentialError>(()) ==> r.token is None,
            self.users@.contains_key(single_key(email@)) && spec_verify(
                password@,
                self.users@[single_key(email@)].hash@,
            ) == Ok::<(), CredentialError>(()) ==> r.token is Some,
    {
        let probe = Credential { email: email.clone(), hash: String::new(), role: Role::User };
        proof {
            if self.users@.contains_key(single_key(email@)) {
                self.users.lemma_value_key(single_key(email@));
            }
        }
        match self.users.get(&probe) {
            None => LoginResponse { token: None },
            Some(user) => {
                if cmp_salt_hash(password, user.hash.as_str()) {
                    let token = gen_jwt(secret, now, user.email.as_str(), &user.role).unwrap();
                    LoginResponse { token: Some(token) }
                } else {
                    LoginResponse { token: None }
                }
            },
        }
    }

    /// Removes every article.  Nothing references articles, so this is the
    /// first step of a full wipe.
    pub fn delete_all_articles(&mut self)
        requires
            old(self).wf(),
        ensures
            final(self).wf(),
            final(self).articles@ == Map::<KeyPair, ArticleData>::empty(),
            final(self).nodes == old(self).nodes,
            final(self).categories == old(self).categories,
            final(self).disciplines == old(self).disciplines,
            final(self).edges == old(self).edges,
            final(self).users == old(self).users,
    {
        self.articles.clear();
    }

    /// Removes every edge.  Demands that the articles are already gone, so
    /// that no article is left pointing at a vanished edge.
    pub fn delete_all_edges(&mut self)
        requires
            old(self).wf(),
            old(self).articles@ == Map::<KeyPair, ArticleData>::empty(),
        ensures
            final(self).wf(),
            final(self).edges@ == Map::<KeyPair, EdgeData>::empty(),
            final(self).nodes == old(self).nodes,
            final(self).categories == old(self).categories,
            final(self).disciplines == old(self).disciplines,
            final(self).articles == old(self).articles,
            final(self).users == old(self).users,
    {
        self.edges.clear();
    }

    /// Removes every node.  Demands that the edges are already gone, so
    /// that no edge is left pointing at a vanished node.
    pub fn delete_all_nodes(&mut self)
        requires
            old(self).wf(),
            old(self).edges@ == Map::<KeyPair, EdgeData>::empty(),
        ensures
            final(self).wf(),
            final(self).nodes@ == Map::<KeyPair, NodeData>::empty(),
            final(self).categories == old(self).categories,
            final(self).disciplines == old(self).disciplines,
            final(self).edges == old(self).edges,
            final(self).articles == old(self).articles,
            final(self).users == old(self).users,
    {
        self.nodes.clear();
    }

    /// Removes every category.  Demands that the nodes are already gone.
    pub fn delete_all_categories(&mut self)
        requires
            old(self).wf(),
            old(self).nodes@ == Map::<KeyPair, NodeData>::empty(),
        ensures
            final(self).wf(),
            final(self).categories@ == Map::<KeyPair, CategoryData>::empty(),
            final(self).nodes == old(self).nodes,
            final(self).disciplines == old(self).disciplines,
            final(self).edges == old(self).edges,
            final(self).articles == old(self).articles,
            final(self).users == old(self).users,
    {
        self.categories.clear();
    }

    /// Removes every discipline.  Demands that the articles are already
    /// gone.
    pub fn delete_all_disciplines(&mut self)
        requires
            old(self).wf(),
            old(self).articles@ == Map::<KeyPair, ArticleData>::empty(),
        ensures
            final(self).wf(),
            final(self).disciplines@ == Map::<KeyPair, DisciplineData>::empty(),
            final(self).nodes == old(self).nodes,
            final(self).categories == old(self).categories,
            final(self).edges == old(self).edges,
            final(self).articles == old(self).articles,
            final(self).users == old(self).users,
    {
        self.disciplines.clear();
    }

    /// Wipes the whole graph behind the admin gate, in dependency order:
    /// articles first, then edges, then nodes, then the independent leaves
    /// categories and disciplines.  Credentials stay.  In-memory removal
    /// cannot fail, so a gated wipe always reports success.
    pub fn delete_all_data(&mut self, secret: &[u8], now: usize, token: &str) -> (r: ModResponse)
        requires
            old(self).wf(),
        ensures
            final(self).wf(),
            final(self).users == old(self).users,
            !spec_is_admin(secret@, now, token@) ==> *final(self) == *old(self) && (
            r.error matches Some(t) && t@ == "Invalid token"@),
            spec_is_admin(secret@, now, token@) ==> {
                &&& r.error is None
                &&& final(self).articles@ =~= Map::<KeyPair, ArticleData>::empty()
                &&& final(self).edges@ =~= Map::<KeyPair, EdgeData>::empty()
                &&& final(self).nodes@ =~= Map::<KeyPair, NodeData>::empty()
                &&& final(self).categories@ =~= Map::<KeyPair, CategoryData>::empty()
                &&& final(self).disciplines@ =~= Map::<KeyPair, DisciplineData>::empty()
            },
    {
        if !check_admin(secret, now, token) {
            return invalid_token_response();
        }
        self.delete_all_articles();
        self.delete_all_edges();
        self.delete_all_nodes();
        self.delete_all_categories();
        self.delete_all_disciplines();
        respond(None)
    }

    /// The stored node of that name, if any.
    pub fn find_node(&self, name: &String) -> (r: Option<&NodeData>)
        requires
            self.wf(),
        ensures
            match r {
                Some(row) => self.nodes@.contains_key(single_key(name@)) && *row
                    == self.nodes@[single_key(name@)],
                None => !self.nodes@.contains_key(single_key(name@)),
            },
    {
        let probe = NodeData {
            name: name.clone(),
            url: String::new(),
            category_id: String::new(),
            author: String::new(),
            teaser_text: String::new(),
            views: 0,
            wlk_hovers: 0,
            wlk_clicks: 0,
            read_time: String::new(),
        };
        self.nodes.get(&probe)
    }

    /// The stored category of that name, if any.
    pub fn find_category(&self, name: &String) -> (r: Option<&CategoryData>)
        requires
            self.wf(),
        ensures
            match r {
                Some(row) => self.categories@.contains_key(single_key(name@)) && *row
                    == self.categories@[single_key(name@)],
                None => !self.categories@.contains_key(single_key(name@)),
            },
    {
        let probe = CategoryData { name: name.clone() };
        self.categories.get(&probe)
    }

    /// The stored discipline of that name, if any.
    pub fn find_discipline(&self, name: &String) -> (r: Option<&DisciplineData>)
        requires
            self.wf(),
        ensures
            match r {
                Some(row) => self.disciplines@.contains_key(single_key(name@)) && *row
                    == self.disciplines@[single_key(name@)],
                None => !self.disciplines@.contains_key(single_key(name@)),
            },
    {
        let probe = DisciplineData { name: name.clone() };
        self.disciplines.get(&probe)
    }

    /// The stored edge between those two nodes, if any.
    pub fn find_edge(&self, source: &String, target: &String) -> (r: Option<&EdgeData>)
        requires
            self.wf(),
        ensures
            match r {
                Some(row) => self.edges@.contains_key((source@, target@)) && *row
                    == self.edges@[(source@, target@)],
                None => !self.edges@.contains_key((source@, target@)),
            },
    {
        let probe = EdgeData { source_id: source.clone(), target_id: target.clone() };
        self.edges.get(&probe)
    }

    /// The stored article of that name, if any.
    pub fn find_article(&self, name: &String) -> (r: Option<&ArticleData>)
        requires
            self.wf(),
        ensures
            match r {
                Some(row) => self.articles@.contains_key(single_key(name@)) && *row
                    == self.articles@[single_key(name@)],
                None => !self.articles@.contains_key(single_key(name@)),
            },
    {
        let probe = ArticleData {
            name: name.clone(),
            edge_source_id: String::new(),
            edge_target_id: String::new(),
            discipline_id: String::new(),
            author: String::new(),
            teaser_text: String::new(),
            date: String::new(),
            url: String::new(),
            views: 0,
            wlk_hovers: 0,
            wlk_clicks: 0,
            read_time: String::new(),
        };
        self.articles.get(&probe)
    }

    /// How many nodes are stored.
    pub fn node_count(&self) -> (r: usize)
        requires
            self.wf(),
        ensures
            r == self.nodes@.dom().len(),
    {
        self.nodes.len()
    }

    /// How many edges are stored.
    pub fn edge_count(&self) -> (r: usize)
        requires
            self.wf(),
        ensures
            r == self.edges@.dom().len(),
    {
        self.edges.len()
    }

    /// How many articles are stored.
    pub fn article_count(&self) -> (r: usize)
        requires
            self.wf(),
        ensures
            r == self.articles@.dom().len(),
    {
        self.articles.len()
    }

    /// How many categories are stored.
    pub fn category_count(&self) -> (r: usize)
        requires
            self.wf(),
        ensures
            r == self.categories@.dom().len(),
    {
        self.categories.len()
    }

    /// How many disciplines are stored.
    pub fn discipline_count(&self) -> (r: usize)
        requires
            self.wf(),
        ensures
            r == self.disciplines@.dom().len(),
    {
        self.disciplines.len()
    }
}

} // verus!
