use manga_core::keys::autocomplete_key;
use manga_core::keys::generate_cache_key;
use manga_core::keys::manga_chapters;
use manga_core::keys::manga_details;
use manga_core::keys::manga_search;
use manga_core::keys::user_library;
use manga_core::keys::user_profile;
use manga_core::keys::user_progress;
use manga_core::params::AdvancedSearchParams;

#[test]
fn test_cache_key_generation() {
    assert_eq!(manga_search("naruto", 20, 0), "manga:search:naruto:20:0");
    assert_eq!(manga_details("123"), "manga:details:123");
}

#[test]
fn entity_keys_have_their_namespaces() {
    assert_eq!(manga_chapters("42", "en"), "manga:chapters:42:en");
    assert_eq!(user_profile("u1"), "user:profile:u1");
    assert_eq!(user_library("u1"), "user:library:u1");
    assert_eq!(user_progress("u1", "m9"), "user:progress:u1:m9");
    assert_eq!(autocomplete_key("nar"), "autocomplete:nar");
}

fn base_params() -> AdvancedSearchParams {
    AdvancedSearchParams {
        query: Some(String::from("naruto")),
        ..Default::default()
    }
}

#[test]
fn advanced_key_is_deterministic_over_normalization() {
    // The same normalized values, reached from differently-shaped raw
    // parameters, derive the same key.
    let a = base_params();
    let mut b = base_params();
    b.page = None; // defaults to 1, the same as Some(1)
    b.limit = None; // defaults to 20, the same as Some(20)
    let mut c = base_params();
    c.tags = Some(Vec::new()); // an empty tag list constrains nothing
    let ka = generate_cache_key(&a.normalize());
    let kb = generate_cache_key(&b.normalize());
    let kc = generate_cache_key(&c.normalize());
    assert_eq!(ka, kb);
    assert_eq!(ka, kc);
}

#[test]
fn advanced_key_treats_tag_lists_as_sets() {
    // Tag and status lists are set-valued: order and duplicates do not
    // change the normalized request, so they do not change the key.
    let mut a = base_params();
    a.tags = Some(vec![String::from("action"), String::from("seinen")]);
    let mut b = base_params();
    b.tags = Some(vec![
        String::from("seinen"),
        String::from("action"),
        String::from("seinen"),
    ]);
    let ka = generate_cache_key(&a.normalize());
    let kb = generate_cache_key(&b.normalize());
    assert_eq!(ka, kb);
    assert_eq!(a.normalize().tags, vec!["action", "seinen"]);
}

#[test]
fn advanced_key_separates_requests() {
    let a = base_params();
    let mut b = base_params();
    b.query = Some(String::from("one piece"));
    let mut c = base_params();
    c.page = Some(2);
    let ka = generate_cache_key(&a.normalize());
    let kb = generate_cache_key(&b.normalize());
    let kc = generate_cache_key(&c.normalize());
    assert_ne!(ka, kb);
    assert_ne!(ka, kc);
    assert_ne!(kb, kc);
}

#[test]
fn advanced_key_is_namespaced_and_short() {
    let key = generate_cache_key(&base_params().normalize());
    assert!(key.starts_with("search:advanced:"));
    assert_eq!(key.len(), "search:advanced:".len() + 16);
    assert!(key["search:advanced:".len()..]
        .chars()
        .all(|c| c.is_ascii_hexdigit()));
}
