use blog_core::markdown::extract_summary;
use blog_core::slug::{ensure_unique_slug, slugify};

#[test]
fn test_slugify() {
    assert_eq!(slugify("Hello World"), "hello-world");
    assert_eq!(slugify("测试文章"), "测试文章");
    assert_eq!(slugify("Hello, World!"), "hello-world");
    assert_eq!(slugify("   spaces   "), "spaces");
    assert_eq!(slugify(""), "post");
}

#[test]
fn test_slugify_idempotent() {
    let samples = [
        "Hello, World!",
        "  A  Very---Odd__Title  ",
        "",
        "42 is the answer",
        "测试文章",
        "Mixed 测试 Title!",
    ];
    for s in samples {
        let once = slugify(s);
        let twice = slugify(&once);
        assert_eq!(twice, once);
    }
}

#[test]
fn test_slugify_shapes() {
    assert_eq!(slugify("!!!"), "post");
    assert_eq!(slugify("--a--b--"), "a-b");
    assert_eq!(slugify("ALL CAPS 123"), "all-caps-123");
}

#[test]
fn test_ensure_unique_slug_free() {
    let existing = vec!["other".to_string(), "hello".to_string()];
    assert_eq!(ensure_unique_slug("hello-world", &existing), "hello-world");
}

#[test]
fn test_ensure_unique_slug_suffixes() {
    let existing = vec!["hello-world".to_string(), "hello-world-1".to_string()];
    assert_eq!(ensure_unique_slug("hello-world", &existing), "hello-world-2");
    let gapless = vec![
        "post".to_string(),
        "post-1".to_string(),
        "post-2".to_string(),
        "post-3".to_string(),
    ];
    assert_eq!(ensure_unique_slug("post", &gapless), "post-4");
}

#[test]
fn test_extract_summary_lines() {
    let md = "# Title\n\nFirst paragraph.\nSecond line.\nFourth is dropped.";
    assert_eq!(extract_summary(md, 200), "# Title First paragraph. Second line.");
}

#[test]
fn test_extract_summary_trim_and_crlf() {
    let md = "  \r\nfirst\r\n\r\nsecond\r\nthird\r\nfourth";
    assert_eq!(extract_summary(md, 200), "first second third");
}

#[test]
fn test_extract_summary_truncates() {
    let long = "a".repeat(250);
    let summary = extract_summary(&long, 200);
    assert_eq!(summary.chars().count(), 200);
    assert!(summary.ends_with("..."));
    assert_eq!(&summary[..197], &long[..197]);
}

#[test]
fn test_extract_summary_empty() {
    assert_eq!(extract_summary("", 200), "");
    assert_eq!(extract_summary("   \n  \n ", 200), "");
}
