use manga_core::filtering::create_demo_data;
use manga_core::filtering::create_mock_manga_data;
use manga_core::filtering::filter_manga_by_language;
use manga_core::filtering::demo_title_contains;
use manga_core::filtering::has_english_content;
use manga_core::filtering::DemoManga;
use manga_core::filtering::LangText;

fn entry(lang: &str, text: &str) -> LangText {
    LangText {
        lang: String::from(lang),
        text: String::from(text),
    }
}

fn create_test_manga(
    title_en: Option<&str>,
    desc_en: Option<&str>,
    orig_lang: Option<&str>,
) -> DemoManga {
    let mut title = Vec::new();
    if let Some(en_title) = title_en {
        title.push(entry("en", en_title));
    }
    title.push(entry("ja", "JA TITLE"));
    let mut description = Vec::new();
    if let Some(en_desc) = desc_en {
        description.push(entry("en", en_desc));
    }
    description.push(entry("ja", "JA DESC"));
    DemoManga {
        id: String::from("test"),
        title,
        description,
        original_language: orig_lang.map(String::from),
    }
}

#[test]
fn test_has_english_title() {
    let manga = create_test_manga(Some("Naruto"), None, None);
    assert!(has_english_content(&manga));
}

#[test]
fn test_has_english_description() {
    let manga = create_test_manga(None, Some("English description"), None);
    assert!(has_english_content(&manga));
}

#[test]
fn test_has_english_original_language() {
    let manga = create_test_manga(None, None, Some("en"));
    assert!(has_english_content(&manga));
}

#[test]
fn test_no_english_content() {
    let manga = create_test_manga(None, None, Some("ja"));
    assert!(!has_english_content(&manga));
}

#[test]
fn test_filter_manga_by_language() {
    let manga_list = vec![
        create_test_manga(Some("Naruto"), None, None),       // English
        create_test_manga(None, None, Some("ko")),           // Korean
        create_test_manga(None, Some("English desc"), None), // English
    ];

    let (english, non_english) = filter_manga_by_language(&manga_list);

    assert_eq!(english.len(), 2);
    assert_eq!(non_english.len(), 1);
}

#[test]
fn demo_data_splits_two_to_one() {
    let all = create_demo_data();
    assert_eq!(all.len(), 3);
    let (english, other) = filter_manga_by_language(&all);
    assert_eq!(english.len(), 2);
    assert_eq!(other.len(), 1);
    assert_eq!(other[0].id, "2");
}

#[test]
fn demo_title_match_is_case_insensitive() {
    let manga = create_test_manga(Some("Naruto"), None, None);
    assert!(demo_title_contains(&manga, "NARU"));
    assert!(demo_title_contains(&manga, "naru"));
    assert!(!demo_title_contains(&manga, "piece"));
    assert!(demo_title_contains(&manga, ""));
}

#[test]
fn mock_data_has_three_entries() {
    let all = create_mock_manga_data();
    assert_eq!(all.len(), 3);
    assert_eq!(all[0].id, "1");
    assert_eq!(all[0].attributes.status, "completed");
    assert_eq!(all[1].attributes.original_language.as_deref(), Some("ko"));
}
