use forum::text::{clip, compare};
use forum::{canonical_tags, Topic};

fn strings(v: &[&str]) -> Vec<String> {
    v.iter().map(|s| s.to_string()).collect()
}

#[test]
fn canonical_form_lowercases_sorts_and_dedups() {
    assert_eq!(
        canonical_tags(&strings(&["Rust", "web", "Async", "RUST"])),
        Some(strings(&["async", "rust", "web"]))
    );
    assert_eq!(canonical_tags(&strings(&[])), Some(vec![]));
    assert_eq!(canonical_tags(&strings(&["ÄBC", "abc"])), Some(strings(&["abc", "äbc"])));
    assert_eq!(canonical_tags(&strings(&["ok", ""])), None);
}

#[test]
fn comparison_is_by_code_point() {
    let s = |x: &str| x.to_string();
    assert!(compare(&s("ab"), &s("b")) < 0);
    assert!(compare(&s("b"), &s("ab")) > 0);
    assert!(compare(&s("ab"), &s("abc")) < 0);
    assert_eq!(compare(&s("héllo"), &s("héllo")), 0);
    assert!(compare(&s("Z"), &s("a")) < 0);
}

#[test]
fn clipping() {
    assert_eq!(clip(&"short".to_string(), 10), "short");
    assert_eq!(clip(&"abcdef".to_string(), 3), "abcd...");
    assert_eq!(clip(&"abcd".to_string(), 3), "abcd...");
    assert_eq!(clip(&"abc".to_string(), 3), "abc");
    assert_eq!(clip(&"ééééé".to_string(), 2), "é...");
    assert_eq!(clip(&"ééééé".to_string(), 3), "éé...");
    assert_eq!(clip(&"ab€".to_string(), 2), "ab...");
    assert_eq!(clip(&"ab€".to_string(), 4), "ab€...");
    assert_eq!(clip(&"ab€".to_string(), 5), "ab€");
    assert_eq!(clip(&"ab€".to_string(), 3), "ab...");
}

#[test]
fn listing_form_of_topics() {
    let t = Topic {
        id: 9,
        comments: vec![],
        content: "x".repeat(250),
        created_at: 0,
        favorite_count: 0,
        tags: vec![],
        title: "short title".to_string(),
        updated_at: 0,
        owner: 1,
    };
    let r = forum::summary::format(&vec![t]);
    assert_eq!(r.len(), 1);
    assert_eq!(r[0].id, 9);
    assert_eq!(r[0].content_clip, format!("{}...", "x".repeat(201)));
    assert_eq!(r[0].title_clip, "short title");
}
