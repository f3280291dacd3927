use bidt_glossar_server::auth::{gen_jwt, Role, TOKEN_LIFETIME_SECS};
use bidt_glossar_server::resources::{ArticleData, CategoryData, DisciplineData, EdgeData, NodeData};
use bidt_glossar_server::routes::GlossaryStore;
use bidt_glossar_server::store::ModType;

const SECRET: &[u8] = b"unit-test-signing-secret";
const NOW: usize = 1_700_000_000;

fn admin_token() -> String {
    gen_jwt(SECRET, NOW, "admin@example.org", &Role::Admin).unwrap()
}

fn node(name: &str, category: &str, views: i32) -> NodeData {
    NodeData {
        name: name.to_string(),
        url: format!("https://example.org/{}", name),
        category_id: category.to_string(),
        author: "Author".to_string(),
        teaser_text: "Teaser".to_string(),
        views,
        wlk_hovers: 0,
        wlk_clicks: 0,
        read_time: "5min".to_string(),
    }
}

fn category(name: &str) -> CategoryData {
    CategoryData { name: name.to_string() }
}

fn discipline(name: &str) -> DisciplineData {
    DisciplineData { name: name.to_string() }
}

fn edge(source: &str, target: &str) -> EdgeData {
    EdgeData { source_id: source.to_string(), target_id: target.to_string() }
}

fn article(name: &str, source: &str, target: &str, disc: &str) -> ArticleData {
    ArticleData {
        name: name.to_string(),
        edge_source_id: source.to_string(),
        edge_target_id: target.to_string(),
        discipline_id: disc.to_string(),
        author: "Author".to_string(),
        teaser_text: "Teaser".to_string(),
        date: "1/1/2022".to_string(),
        url: "https://example.org/a".to_string(),
        views: 0,
        wlk_hovers: 0,
        wlk_clicks: 0,
        read_time: "7min".to_string(),
    }
}

/// A store holding one category, two nodes, one edge, one discipline and
/// one article, written through the gated mutations.
fn populated_store(token: &str) -> GlossaryStore {
    let mut store = GlossaryStore::new();
    assert!(store.mod_category(SECRET, NOW, token, ModType::Create, category("C1")).error.is_none());
    assert!(store.mod_node(SECRET, NOW, token, ModType::Create, node("N1", "C1", 0)).error.is_none());
    assert!(store.mod_node(SECRET, NOW, token, ModType::Create, node("N2", "C1", 0)).error.is_none());
    assert!(store.mod_edge(SECRET, NOW, token, ModType::Create, edge("N1", "N2")).error.is_none());
    assert!(store.mod_discipline(SECRET, NOW, token, ModType::Create, discipline("D1")).error.is_none());
    assert!(store.mod_article(SECRET, NOW, token, ModType::Create, article("A1", "N1", "N2", "D1")).error.is_none());
    store
}

#[test]
fn register_then_login() {
    let mut store = GlossaryStore::new();
    let r = store.register("a@b.com".to_string(), "pw1".to_string(), Role::Admin);
    assert!(r.error.is_none());
    let ok = store.login(SECRET, NOW, &"a@b.com".to_string(), "pw1");
    assert!(ok.token.is_some());
    let wrong = store.login(SECRET, NOW, &"a@b.com".to_string(), "wrong");
    assert!(wrong.token.is_none());
    let unknown = store.login(SECRET, NOW, &"nobody@b.com".to_string(), "pw1");
    assert!(unknown.token.is_none());
}

#[test]
fn register_duplicate_email_is_a_conflict() {
    let mut store = GlossaryStore::new();
    assert!(store.register("a@b.com".to_string(), "pw1".to_string(), Role::User).error.is_none());
    let again = store.register("a@b.com".to_string(), "pw2".to_string(), Role::User);
    assert_eq!(again.error.as_deref(), Some("Conflict"));
}

#[test]
fn login_token_passes_the_gate_only_for_admins() {
    let mut store = GlossaryStore::new();
    store.register("root@b.com".to_string(), "pw".to_string(), Role::Admin);
    store.register("user@b.com".to_string(), "pw".to_string(), Role::User);
    let admin = store.login(SECRET, NOW, &"root@b.com".to_string(), "pw").token.unwrap();
    let user = store.login(SECRET, NOW, &"user@b.com".to_string(), "pw").token.unwrap();
    let r = store.mod_category(SECRET, NOW, &admin, ModType::Create, category("C1"));
    assert!(r.error.is_none());
    let r = store.mod_category(SECRET, NOW, &user, ModType::Create, category("C2"));
    assert_eq!(r.error.as_deref(), Some("Invalid token"));
}

#[test]
fn create_node_then_read_it_back() {
    let token = admin_token();
    let mut store = GlossaryStore::new();
    assert!(store.mod_category(SECRET, NOW, &token, ModType::Create, category("C1")).error.is_none());
    let r = store.mod_node(SECRET, NOW, &token, ModType::Create, node("N1", "C1", 0));
    assert!(r.error.is_none());
    let read = store.find_node(&"N1".to_string()).unwrap();
    assert_eq!(read.name, "N1");
    assert_eq!(read.category_id, "C1");
    assert_eq!(read.views, 0);
    assert_eq!(read.url, "https://example.org/N1");
}

#[test]
fn update_node_changes_fields_but_keeps_url() {
    let token = admin_token();
    let mut store = GlossaryStore::new();
    store.mod_category(SECRET, NOW, &token, ModType::Create, category("C1"));
    store.mod_node(SECRET, NOW, &token, ModType::Create, node("N1", "C1", 0));
    let mut payload = node("N1", "C1", 5);
    payload.url = "https://example.org/elsewhere".to_string();
    let r = store.mod_node(SECRET, NOW, &token, ModType::Update, payload);
    assert!(r.error.is_none());
    let read = store.find_node(&"N1".to_string()).unwrap();
    assert_eq!(read.views, 5);
    assert_eq!(read.category_id, "C1");
    // the url is written at creation and not overwritten by updates
    assert_eq!(read.url, "https://example.org/N1");
}

#[test]
fn create_with_invalid_token_writes_nothing() {
    let mut store = GlossaryStore::new();
    let token = admin_token();
    store.mod_category(SECRET, NOW, &token, ModType::Create, category("C1"));
    let r = store.mod_node(SECRET, NOW, "not-a-token", ModType::Create, node("N1", "C1", 0));
    assert_eq!(r.error.as_deref(), Some("Invalid token"));
    assert!(store.find_node(&"N1".to_string()).is_none());
    // an expired admin token is refused just the same
    let r = store.mod_node(
        SECRET,
        NOW + TOKEN_LIFETIME_SECS,
        &token,
        ModType::Create,
        node("N1", "C1", 0),
    );
    assert_eq!(r.error.as_deref(), Some("Invalid token"));
    assert_eq!(store.node_count(), 0);
}

#[test]
fn upsert_is_idempotent() {
    let token = admin_token();
    let mut store = GlossaryStore::new();
    store.mod_category(SECRET, NOW, &token, ModType::Create, category("C1"));
    let r = store.mod_node(SECRET, NOW, &token, ModType::Upsert, node("N1", "C1", 7));
    assert!(r.error.is_none());
    let r = store.mod_node(SECRET, NOW, &token, ModType::Upsert, node("N1", "C1", 7));
    assert!(r.error.is_none());
    assert_eq!(store.node_count(), 1);
    let read = store.find_node(&"N1".to_string()).unwrap();
    assert_eq!(read.views, 7);
    assert_eq!(read.url, "https://example.org/N1");
}

#[test]
fn create_conflicts_update_and_delete_need_presence() {
    let token = admin_token();
    let mut store = GlossaryStore::new();
    store.mod_category(SECRET, NOW, &token, ModType::Create, category("C1"));
    store.mod_node(SECRET, NOW, &token, ModType::Create, node("N1", "C1", 0));
    let r = store.mod_node(SECRET, NOW, &token, ModType::Create, node("N1", "C1", 0));
    assert_eq!(r.error.as_deref(), Some("Conflict"));
    let r = store.mod_node(SECRET, NOW, &token, ModType::Update, node("N9", "C1", 0));
    assert_eq!(r.error.as_deref(), Some("NotFound"));
    let r = store.mod_node(SECRET, NOW, &token, ModType::Delete, node("N9", "C1", 0));
    assert_eq!(r.error.as_deref(), Some("NotFound"));
}

#[test]
fn writes_against_missing_references_are_refused() {
    let token = admin_token();
    let mut store = GlossaryStore::new();
    // node without its category
    let r = store.mod_node(SECRET, NOW, &token, ModType::Create, node("N1", "C1", 0));
    assert_eq!(r.error.as_deref(), Some("NotFound"));
    // edge without its nodes
    let r = store.mod_edge(SECRET, NOW, &token, ModType::Create, edge("N1", "N2"));
    assert_eq!(r.error.as_deref(), Some("NotFound"));
    // article without its edge and discipline
    let r = store.mod_article(SECRET, NOW, &token, ModType::Create, article("A1", "N1", "N2", "D1"));
    assert_eq!(r.error.as_deref(), Some("NotFound"));
}

#[test]
fn deleting_referenced_records_is_a_conflict() {
    let token = admin_token();
    let mut store = populated_store(&token);
    // N1 still carries an edge
    let r = store.mod_node(SECRET, NOW, &token, ModType::Delete, node("N1", "C1", 0));
    assert_eq!(r.error.as_deref(), Some("Conflict"));
    // C1 still has nodes
    let r = store.mod_category(SECRET, NOW, &token, ModType::Delete, category("C1"));
    assert_eq!(r.error.as_deref(), Some("Conflict"));
    // the edge still has an article
    let r = store.mod_edge(SECRET, NOW, &token, ModType::Delete, edge("N1", "N2"));
    assert_eq!(r.error.as_deref(), Some("Conflict"));
    // D1 still has an article
    let r = store.mod_discipline(SECRET, NOW, &token, ModType::Delete, discipline("D1"));
    assert_eq!(r.error.as_deref(), Some("Conflict"));
}

#[test]
fn deleting_in_dependency_order_never_dangles() {
    let token = admin_token();
    let mut store = populated_store(&token);
    // article first, then edge, then nodes, then the leaves
    assert!(store.mod_article(SECRET, NOW, &token, ModType::Delete, article("A1", "N1", "N2", "D1")).error.is_none());
    assert!(store.mod_edge(SECRET, NOW, &token, ModType::Delete, edge("N1", "N2")).error.is_none());
    assert!(store.mod_node(SECRET, NOW, &token, ModType::Delete, node("N1", "C1", 0)).error.is_none());
    assert!(store.mod_node(SECRET, NOW, &token, ModType::Delete, node("N2", "C1", 0)).error.is_none());
    assert!(store.mod_category(SECRET, NOW, &token, ModType::Delete, category("C1")).error.is_none());
    assert!(store.mod_discipline(SECRET, NOW, &token, ModType::Delete, discipline("D1")).error.is_none());
    assert_eq!(store.article_count(), 0);
    assert_eq!(store.edge_count(), 0);
    assert_eq!(store.node_count(), 0);
    assert_eq!(store.category_count(), 0);
    assert_eq!(store.discipline_count(), 0);
}

#[test]
fn delete_all_data_wipes_the_graph_and_keeps_users() {
    let token = admin_token();
    let mut store = populated_store(&token);
    store.register("a@b.com".to_string(), "pw1".to_string(), Role::Admin);
    let r = store.delete_all_data(SECRET, NOW, &token);
    assert!(r.error.is_none());
    assert_eq!(store.article_count(), 0);
    assert_eq!(store.edge_count(), 0);
    assert_eq!(store.node_count(), 0);
    assert_eq!(store.category_count(), 0);
    assert_eq!(store.discipline_count(), 0);
    // credentials survive a graph wipe
    assert!(store.login(SECRET, NOW, &"a@b.com".to_string(), "pw1").token.is_some());
    // a wipe of an already empty store also succeeds
    let r = store.delete_all_data(SECRET, NOW, &token);
    assert!(r.error.is_none());
}

#[test]
fn delete_all_data_is_gated() {
    let token = admin_token();
    let mut store = populated_store(&token);
    let r = store.delete_all_data(SECRET, NOW, "bogus");
    assert_eq!(r.error.as_deref(), Some("Invalid token"));
    assert_eq!(store.node_count(), 2);
    assert_eq!(store.article_count(), 1);
}

#[test]
fn reads_return_what_was_written() {
    let token = admin_token();
    let store = populated_store(&token);
    assert!(store.find_category(&"C1".to_string()).is_some());
    assert!(store.find_discipline(&"D1".to_string()).is_some());
    let e = store.find_edge(&"N1".to_string(), &"N2".to_string()).unwrap();
    assert_eq!(e.source_id, "N1");
    assert_eq!(e.target_id, "N2");
    assert!(store.find_edge(&"N2".to_string(), &"N1".to_string()).is_none());
    let a = store.find_article(&"A1".to_string()).unwrap();
    assert_eq!(a.discipline_id, "D1");
    assert_eq!(a.edge_source_id, "N1");
}
