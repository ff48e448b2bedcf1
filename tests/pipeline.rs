use blog_pipeline::date::{date_of_timestamp, format_date, today, Date};
use blog_pipeline::handlers::{find_by_slug, Reply};
use blog_pipeline::metadata::{body_of, parse_metadata};
use blog_pipeline::post::{
    assemble_post, choose_date, hyphenate, markdown_to_html, resolve_date, slugify,
};
use blog_pipeline::repository::{build_posts, is_markdown_file, SourceFile};

fn day(year: i32, month: u32, day: u32) -> Date {
    Date { year, month, day }
}

fn file(name: &str, text: &str) -> SourceFile {
    SourceFile {
        name: name.to_string(),
        text: Some(text.to_string()),
        modified: Some(day(2023, 3, 15)),
    }
}

fn post_text(title: &str, date: &str, body: &str) -> String {
    format!("---\ntitle: {}\ndate: {}\ntags: a, b\nsummary: s\n---\n{}", title, date, body)
}

#[test]
fn metadata_fields_are_read() {
    let text = [
        "---\ntitle: \"Hello World\"\ndate: 2024-01-02\n",
        "tags: rust, \"web\" ,  x \nsummary: A \"quoted\" summary\nauthor: me\n---\nBody",
    ]
    .concat();
    let m = parse_metadata(&text).unwrap();
    assert_eq!(m.title, "Hello World");
    assert_eq!(m.date, "2024-01-02");
    assert_eq!(m.tags, vec!["rust".to_string(), "web".to_string(), "x".to_string()]);
    assert_eq!(m.summary, "A quoted summary");
}

#[test]
fn metadata_last_key_wins() {
    let m = parse_metadata("---\ntitle: One\ntitle: Two\n---\n").unwrap();
    assert_eq!(m.title, "Two");
}

#[test]
fn metadata_defaults_are_empty() {
    let m = parse_metadata("---\nno colon here\n\n---\nbody").unwrap();
    assert_eq!(m.title, "");
    assert_eq!(m.date, "");
    assert!(m.tags.is_empty());
    assert_eq!(m.summary, "");
}

#[test]
fn metadata_value_keeps_later_colons_and_crlf_is_trimmed() {
    let m = parse_metadata("---\r\ntitle: a: b\r\nsummary:x\r\n---\r\n").unwrap();
    assert_eq!(m.title, "a: b");
    assert_eq!(m.summary, "x");
}

#[test]
fn empty_tags_value_gives_one_empty_tag() {
    let m = parse_metadata("---\ntags:\n---\n").unwrap();
    assert_eq!(m.tags, vec![String::new()]);
}

#[test]
fn metadata_absent_without_two_delimiters() {
    assert!(parse_metadata("# Just markdown\nNo header.").is_none());
    assert!(parse_metadata("---\ntitle: x\n").is_none());
    assert!(parse_metadata("").is_none());
}

#[test]
fn body_follows_second_delimiter() {
    assert_eq!(body_of("---\ntitle: x\n---\nHello --- there"), "\nHello --- there");
    assert_eq!(body_of("no header"), "");
}

#[test]
fn slug_lowercases_and_hyphenates_spaces() {
    assert_eq!(slugify("Hello  World Mixed CASE"), "hello--world-mixed-case");
    assert_eq!(slugify("Ünïcode, Punct!"), "ünïcode,-punct!");
    assert_eq!(slugify(""), "");
}

#[test]
fn hyphenate_replaces_only_spaces() {
    assert_eq!(hyphenate("a b\tc  d"), "a-b\tc--d");
}

#[test]
fn markdown_is_rendered() {
    assert_eq!(markdown_to_html("# Hi"), "<h1>Hi</h1>\n");
    assert_eq!(markdown_to_html("*x*"), "<p><em>x</em></p>\n");
}

#[test]
fn dates_are_displayed_month_first() {
    assert_eq!(format_date(day(2024, 1, 1)), "January 1, 2024");
    assert_eq!(format_date(day(2006, 12, 25)), "December 25, 2006");
    assert_eq!(format_date(day(5, 2, 9)), "February 9, 0005");
    assert_eq!(format_date(day(-44, 3, 15)), "March 15, -0044");
}

#[test]
fn date_choice_falls_back_in_order() {
    let a = day(2024, 1, 1);
    let b = day(2023, 5, 6);
    let c = day(2022, 7, 8);
    assert_eq!(choose_date(Some(a), Some(b), c), a);
    assert_eq!(choose_date(None, Some(b), c), b);
    assert_eq!(choose_date(None, None, c), c);
}

#[test]
fn date_field_beats_modification_day() {
    let modified = Some(day(2020, 2, 2));
    let now = day(2021, 1, 1);
    assert_eq!(resolve_date("2024-06-01", modified, now), day(2024, 6, 1));
    assert_eq!(resolve_date("2024-02-29", modified, now), day(2024, 2, 29));
}

#[test]
fn bad_date_field_falls_back() {
    let now = day(2021, 1, 1);
    assert_eq!(resolve_date("June 1st", Some(day(2020, 2, 2)), now), day(2020, 2, 2));
    assert_eq!(resolve_date("2023-02-29", Some(day(2020, 2, 2)), now), day(2020, 2, 2));
    assert_eq!(resolve_date("", None, now), now);
}

#[test]
fn local_dates_are_real_days() {
    let d = date_of_timestamp(86_400 * 365).unwrap();
    assert!(d.year == 1970 || d.year == 1971);
    let t = today();
    assert!((1..=12).contains(&t.month));
    assert!(t.year >= 2024);
}

#[test]
fn markdown_names() {
    assert!(is_markdown_file("post.md"));
    assert!(is_markdown_file("..md"));
    assert!(!is_markdown_file(".md"));
    assert!(!is_markdown_file("post.MD"));
    assert!(!is_markdown_file("post.markdown"));
    assert!(!is_markdown_file("md"));
}

#[test]
fn assembled_post_has_all_fields() {
    let text = post_text("My First Post", "2024-01-01", "Some *text*");
    let meta = parse_metadata(&text).unwrap();
    let p = assemble_post(&text, "first.md", &meta, Some(day(2020, 1, 1)), day(2025, 1, 1));
    assert_eq!(p.title, "My First Post");
    assert_eq!(p.slug, "my-first-post");
    assert_eq!(p.date, "January 1, 2024");
    assert_eq!(p.content, "<p>Some <em>text</em></p>\n");
    assert_eq!(p.summary, "s");
    assert_eq!(p.tags, vec!["a".to_string(), "b".to_string()]);
    assert_eq!(p.filename, "first.md");
}

#[test]
fn assembled_post_without_date_uses_modification_day() {
    let text = "---\ntitle: T\n---\nx";
    let meta = parse_metadata(text).unwrap();
    let p = assemble_post(text, "t.md", &meta, Some(day(2023, 3, 15)), day(2025, 1, 1));
    assert_eq!(p.date, "March 15, 2023");
    let q = assemble_post(text, "t.md", &meta, None, day(2025, 1, 1));
    assert_eq!(q.date, "January 1, 2025");
}

#[test]
fn two_posts_listed_and_found_by_slug() {
    let files = vec![
        file("post-a.md", &post_text("First", "2024-01-01", "Alpha")),
        file("post-b.md", &post_text("Second", "2024-06-01", "Beta")),
    ];
    let posts = build_posts(&files, day(2025, 1, 1));
    assert_eq!(posts.len(), 2);
    assert_eq!(posts[0].title, "Second");
    assert_eq!(posts[1].title, "First");
    let i = find_by_slug(&posts, "first").unwrap();
    assert_eq!(posts[i].filename, "post-a.md");
    assert_eq!(posts[i].content, "<p>Alpha</p>\n");
    assert!(find_by_slug(&posts, "missing").is_none());
    assert_eq!(Reply::NotFound.status(), 404);
    assert_eq!(Reply::NotFound.body(), "Post not found");
}

#[test]
fn file_without_delimiters_is_excluded() {
    let files = vec![
        file("plain.md", "# No header\nJust text"),
        file("post-a.md", &post_text("First", "2024-01-01", "Alpha")),
    ];
    let posts = build_posts(&files, day(2025, 1, 1));
    assert_eq!(posts.len(), 1);
    assert_eq!(posts[0].filename, "post-a.md");
    assert!(find_by_slug(&posts, "plain").is_none());
    assert!(find_by_slug(&posts, "").is_none());
}

#[test]
fn other_and_unreadable_files_are_skipped() {
    let mut unreadable = file("gone.md", "");
    unreadable.text = None;
    let files = vec![
        file("notes.txt", &post_text("Txt", "2024-01-01", "x")),
        unreadable,
        file(".md", &post_text("Hidden", "2024-01-01", "x")),
    ];
    assert!(build_posts(&files, day(2025, 1, 1)).is_empty());
}

#[test]
fn empty_directory_lists_nothing() {
    assert!(build_posts(&Vec::new(), day(2025, 1, 1)).is_empty());
}

#[test]
fn identical_titles_share_a_slug_and_first_listed_wins() {
    let files = vec![
        file("one.md", &post_text("Same Title", "2024-01-01", "one")),
        file("two.md", &post_text("Same Title", "2024-01-01", "two")),
    ];
    let posts = build_posts(&files, day(2025, 1, 1));
    assert_eq!(posts.len(), 2);
    assert_eq!(posts[0].slug, "same-title");
    assert_eq!(posts[1].slug, "same-title");
    assert_eq!(posts[0].filename, "two.md");
    assert_eq!(find_by_slug(&posts, "same-title"), Some(0));
}

#[test]
fn listing_is_newest_first_by_calendar_day() {
    let files = vec![
        file("a.md", &post_text("A", "2024-04-01", "")),
        file("b.md", &post_text("B", "2024-01-15", "")),
        file("c.md", &post_text("C", "2023-12-31", "")),
        file("d.md", &post_text("D", "2024-11-02", "")),
    ];
    let posts = build_posts(&files, day(2025, 1, 1));
    let order: Vec<&str> = posts.iter().map(|p| p.title.as_str()).collect();
    assert_eq!(order, vec!["D", "A", "B", "C"]);
    assert_eq!(posts[0].date, "November 2, 2024");
}

#[test]
fn listing_twice_gives_equal_posts() {
    let files = vec![
        file("post-a.md", &post_text("First", "2024-01-01", "Alpha")),
        file("post-b.md", &post_text("Second", "bad", "Beta")),
    ];
    let a = build_posts(&files, day(2025, 1, 1));
    let b = build_posts(&files, day(2026, 5, 5));
    assert_eq!(a.len(), b.len());
    for (p, q) in a.iter().zip(b.iter()) {
        assert_eq!(p.title, q.title);
        assert_eq!(p.content, q.content);
        assert_eq!(p.date, q.date);
        assert_eq!(p.slug, q.slug);
        assert_eq!(p.tags, q.tags);
        assert_eq!(p.filename, q.filename);
        assert_eq!(p.summary, q.summary);
    }
}

#[test]
fn replies_carry_status_and_body() {
    let page = Reply::from_render(Some("<p>x</p>".to_string()));
    assert_eq!(page.status(), 200);
    assert_eq!(page.body(), "<p>x</p>");
    let failed = Reply::from_render(None);
    assert_eq!(failed.status(), 500);
    assert_eq!(failed.body(), "Template rendering error");
}


#[test]
fn one_post_slug_keeps_each_space() {
    let files = vec![file("a.md", "---\ntitle: Hello  World FOO\n---\nbody\n")];
    let posts = build_posts(&files, day(2025, 1, 1));
    assert_eq!(posts.len(), 1);
    assert_eq!(posts[0].title, "Hello  World FOO");
    assert_eq!(posts[0].slug, "hello--world-foo");
}

#[test]
fn scenario_index_and_lookup_replies() {
    let files = vec![
        file("post-a.md", "---\ntitle: First\ndate: 2024-01-01\n---\nAlpha"),
        file("post-b.md", "---\ntitle: Second\ndate: 2024-06-01\n---\nBeta"),
    ];
    let posts = build_posts(&files, day(2025, 1, 1));
    let mut titles: Vec<&str> = posts.iter().map(|p| p.title.as_str()).collect();
    titles.sort();
    assert_eq!(titles, vec!["First", "Second"]);
    let found = find_by_slug(&posts, "first").unwrap();
    assert_eq!(posts[found].filename, "post-a.md");
    assert_eq!(posts[found].title, "First");
    assert_eq!(posts[found].content, markdown_to_html(&body_of(&files[0].text.clone().unwrap())));
    let missing = match find_by_slug(&posts, "missing") {
        Some(_) => Reply::from_render(Some(String::new())),
        None => Reply::NotFound,
    };
    assert_eq!(missing.status(), 404);
    assert_eq!(missing.body(), "Post not found");
}

#[test]
fn file_without_delimiters_never_found_by_any_slug() {
    let files = vec![file("plain.md", "Plain Title\nno header at all")];
    let posts = build_posts(&files, day(2025, 1, 1));
    assert!(posts.is_empty());
    for slug in ["plain", "plain-title", "", "no-header-at-all"] {
        assert!(find_by_slug(&posts, slug).is_none());
    }
}

#[test]
fn listing_twice_with_today_fallback_differs_only_in_date() {
    let mut f = file("t.md", "---\ntitle: Undated\n---\nx");
    f.modified = None;
    let a = build_posts(&vec![f], day(2025, 1, 1));
    let mut g = file("t.md", "---\ntitle: Undated\n---\nx");
    g.modified = None;
    let b = build_posts(&vec![g], day(2026, 2, 2));
    assert_eq!(a.len(), b.len());
    assert_eq!(a[0].title, b[0].title);
    assert_eq!(a[0].slug, b[0].slug);
    assert_eq!(a[0].content, b[0].content);
    assert_eq!(a[0].date, "January 1, 2025");
    assert_eq!(b[0].date, "February 2, 2026");
}

#[test]
fn in_range_timestamps_always_give_a_day() {
    assert!(date_of_timestamp(0).is_some());
    assert!(date_of_timestamp(-86_400 * 365 * 3000).is_some());
    assert!(date_of_timestamp(1_099_511_627_776).is_some());
}
