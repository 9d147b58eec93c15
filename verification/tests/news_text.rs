use lemicraft_launcher::news::{
    category_label, generate_excerpt, news_api_url, news_cache_path, news_item_from_api,
    news_page, news_query, NewsApiItem, UNSUCCESSFUL_MESSAGE,
};
use lemicraft_launcher::text::{join_strings, split_ws, str_contains, str_ends_with, str_starts_with};

#[test]
fn excerpt_removes_markdown() {
    assert_eq!(generate_excerpt("# Title\n**Bold** text", 160), "Title\nBold text");
    assert_eq!(generate_excerpt("  ## Sub  \r\n~~gone~~ `code` __u__", 160), "Sub  \ngone code u");
    assert_eq!(generate_excerpt("   ", 160), "");
}

#[test]
fn excerpt_cuts_long_text() {
    assert_eq!(generate_excerpt("abcdefghij", 5), "abcde...");
    assert_eq!(generate_excerpt("abcd efgh", 5), "abcd...");
    assert_eq!(generate_excerpt("abcde", 5), "abcde");
}

#[test]
fn excerpt_is_never_longer_than_asked_plus_dots() {
    let long = "слово ".repeat(100);
    let e = generate_excerpt(&long, 160);
    assert!(e.chars().count() <= 163);
    assert!(e.ends_with("..."));
}

#[test]
fn category_labels() {
    assert_eq!(category_label("update"), "Обновление");
    assert_eq!(category_label("event"), "Ивент");
    assert_eq!(category_label("announcement"), "Объявление");
    assert_eq!(category_label("maintenance"), "Сервер");
    assert_eq!(category_label("whatever"), "Комьюнити");
}

fn api_item(content: Option<&str>, preview: Option<&str>) -> NewsApiItem {
    NewsApiItem {
        id: "7".to_string(),
        title: "T".to_string(),
        content: content.map(|c| c.to_string()),
        preview: preview.map(|p| p.to_string()),
        image_url: None,
        author_name: "Lemi".to_string(),
        author_role: None,
        author_avatar_url: None,
        published_at: "2025-01-01".to_string(),
        category: "event".to_string(),
        url: "https://lemicraft.ru/news/7".to_string(),
    }
}

#[test]
fn news_items_from_api() {
    let n = news_item_from_api(api_item(Some("**Hi**"), None));
    assert_eq!(n.content, "**Hi**");
    assert_eq!(n.excerpt, "Hi");
    assert_eq!(n.tag, "Ивент");
    assert_eq!(n.author, "Lemi");
    assert_eq!(n.author_role, "");

    let p = "p".repeat(200);
    let n = news_item_from_api(api_item(None, Some(&p)));
    assert_eq!(n.content, "");
    assert_eq!(n.excerpt, "p".repeat(160));
}

#[test]
fn news_page_requires_success() {
    match news_page(false, vec![], false, None) {
        Err(e) => assert_eq!(e, UNSUCCESSFUL_MESSAGE),
        Ok(_) => panic!("an unsuccessful answer must fail"),
    }
    let page = news_page(true, vec![api_item(Some("x"), None)], true, Some("7".to_string())).unwrap();
    assert_eq!(page.items.len(), 1);
    assert!(page.has_more);
    assert_eq!(page.last_id, Some("7".to_string()));
}

#[test]
fn news_request_and_cache() {
    assert_eq!(news_api_url(), "https://lemicraft.ru/api/launcher/news");
    assert_eq!(news_query(&None), vec![("limit".to_string(), "8".to_string())]);
    assert_eq!(
        news_query(&Some("42".to_string())),
        vec![("limit".to_string(), "8".to_string()), ("before".to_string(), "42".to_string())]
    );
    assert_eq!(news_cache_path("/g"), vec!["/g".to_string(), "news_cache.json".to_string()]);
}

#[test]
fn text_helpers() {
    assert_eq!(split_ws("  -Xmx2G \t -Dfoo=bar\n"), vec!["-Xmx2G".to_string(), "-Dfoo=bar".to_string()]);
    assert_eq!(join_strings(&vec!["a".to_string(), "b".to_string()], ", "), "a, b");
    assert!(str_contains("authlib-injector-1.2.5.jar", "injector"));
    assert!(!str_contains("abc", "abd"));
    assert!(str_starts_with("https://x", "https://"));
    assert!(str_ends_with("file.jar", ".jar"));
}
