use bookforge::archive::{add_extracted, entry_action, ArchiveError};
use bookforge::capture::{capture_text, capture_time, moment};
use bookforge::config::{parse_bool_exec, Config, ConfigError};
use bookforge::epub::{book_entries_exec, escape, page_size, progress_bar, EpubEntry};
use bookforge::natural::natural_cmp;
use bookforge::order::{order_by_time, sort_by_time, sort_pictures};
use bookforge::output::{configured_output, output_path, OutputError};
use bookforge::picture::{
    is_picture, numbered_sequence, sequence_parts, ImageKind, Picture, PictureError, Sort,
    Timestamp,
};
use bookforge::plan::{book_title, input_kind, open_in_books, right_to_left, InputError, InputKind};
use bookforge::title::{japanese_title, url_title};
use std::cmp::Ordering;

fn page(name: &str) -> Picture {
    Picture::new(name.to_string(), name.to_string(), ImageKind::Png, 10, 20).unwrap()
}

fn timed(name: &str, secs: i64, exif: bool) -> Picture {
    let mut p = page(name);
    p.timestamp = Some((Timestamp { secs, nanos: 0 }, exif));
    p
}

fn names(ps: &[Picture]) -> Vec<&str> {
    ps.iter().map(|p| p.name.as_str()).collect()
}

#[test]
fn natural_order_compares_numbers_by_value() {
    assert_eq!(natural_cmp("a2", "a10"), Ordering::Less);
    assert_eq!(natural_cmp("a10", "a2"), Ordering::Greater);
    assert_eq!(natural_cmp("2", "02"), Ordering::Equal);
    assert_eq!(natural_cmp("007", "7"), Ordering::Equal);
    assert_eq!(natural_cmp("x", "x"), Ordering::Equal);
    assert_eq!(natural_cmp("", "a"), Ordering::Less);
    assert_eq!(natural_cmp("b", "a1"), Ordering::Greater);
    assert_eq!(natural_cmp("1a", "1"), Ordering::Greater);
    assert_eq!(natural_cmp("B", "a"), Ordering::Less);
    assert_eq!(natural_cmp("9", "a"), Ordering::Less);
}

#[test]
fn name_sort_breaks_ties_by_path() {
    let mut ps = vec![page("1.png"), page("01.png"), page("10.png"), page("2.png")];
    let message = sort_pictures(&mut ps, Sort::Name, false);
    assert_eq!(message.as_deref(), Some("name：文件名自然排序"));
    assert_eq!(names(&ps), ["01.png", "1.png", "2.png", "10.png"]);
    let mut nested = vec![page("a/b.png"), page("a-b.png"), page("a/a.png")];
    sort_pictures(&mut nested, Sort::Name, false);
    assert_eq!(names(&nested), ["a-b.png", "a/a.png", "a/b.png"]);
}

#[test]
fn auto_sort_decisions() {
    let mut archive = vec![page("b.png"), page("a.png")];
    assert_eq!(
        sort_pictures(&mut archive, Sort::Auto, true).as_deref(),
        Some("auto → name：压缩包按内部路径自然排序（时间戳可能不可靠）")
    );
    assert_eq!(names(&archive), ["a.png", "b.png"]);
    let mut single = vec![page("x.png")];
    assert_eq!(
        sort_pictures(&mut single, Sort::Auto, false).as_deref(),
        Some("auto → name：单张图片或统一且不重复的文件名序号")
    );
    let mut numbered = vec![page("p10.png"), page("p2.png"), page("p1.png")];
    assert_eq!(
        sort_pictures(&mut numbered, Sort::Auto, false).as_deref(),
        Some("auto → name：单张图片或统一且不重复的文件名序号")
    );
    assert_eq!(names(&numbered), ["p1.png", "p2.png", "p10.png"]);
    let mut loose = vec![page("b.png"), page("a.png")];
    assert_eq!(sort_pictures(&mut loose, Sort::Auto, false), None);
    let mut by_time = vec![page("b.png"), page("a.png")];
    assert_eq!(sort_pictures(&mut by_time, Sort::Time, true), None);
}

#[test]
fn time_order_is_stable_and_counts_sources() {
    let mut ps = vec![
        timed("a.png", 30, true),
        timed("b.png", 10, false),
        timed("c.png", 30, false),
        timed("d.png", 20, true),
    ];
    let message = order_by_time(&mut ps, Sort::Time);
    assert_eq!(names(&ps), ["b.png", "d.png", "a.png", "c.png"]);
    assert_eq!(
        message,
        "time：从早到晚，同时间按自然名称排序（EXIF 2 张，修改时间 2 张；无时区 EXIF 按本机时区解释）"
    );
}

#[test]
fn auto_time_order_falls_back_on_equal_times() {
    let mut ps = vec![timed("a.png", 30, false), timed("b.png", 10, false), timed("c.png", 30, true)];
    let message = order_by_time(&mut ps, Sort::Auto);
    assert_eq!(names(&ps), ["a.png", "b.png", "c.png"]);
    assert_eq!(
        message,
        "auto → name：无可靠序号且存在相同时间，退回自然排序（EXIF 1 张，修改时间 2 张；无时区 EXIF 按本机时区解释）；请检查预览"
    );
    let mut distinct = vec![timed("a.png", 30, false), timed("b.png", 10, false)];
    let message = order_by_time(&mut distinct, Sort::Auto);
    assert_eq!(names(&distinct), ["b.png", "a.png"]);
    assert_eq!(
        message,
        "auto → time：从早到晚，同时间按自然名称排序（EXIF 0 张，修改时间 2 张；无时区 EXIF 按本机时区解释）；时间可能因复制或编辑改变，请检查预览"
    );
}

#[test]
fn time_sort_orders_nanoseconds() {
    let mut a = page("a.png");
    a.timestamp = Some((Timestamp { secs: 5, nanos: 9 }, true));
    let mut b = page("b.png");
    b.timestamp = Some((Timestamp { secs: 5, nanos: 1 }, true));
    let mut c = page("c.png");
    c.timestamp = Some((Timestamp { secs: -1, nanos: 999 }, true));
    let mut ps = vec![a, b, c];
    sort_by_time(&mut ps);
    assert_eq!(names(&ps), ["c.png", "b.png", "a.png"]);
}

#[test]
fn output_path_rules() {
    assert_eq!(output_path("书", None, None).unwrap(), "书.epub");
    assert_eq!(output_path("书", Some("out"), None).unwrap(), "out.epub");
    assert_eq!(output_path("书", Some("out.txt"), None).unwrap(), "out.txt");
    assert_eq!(output_path("书", Some("dir/out/"), None).unwrap(), "dir/out.epub");
    assert_eq!(output_path("书", Some(".hidden"), None).unwrap(), ".hidden.epub");
    assert_eq!(output_path("书", Some("a."), None).unwrap(), "a.");
    assert_eq!(output_path("书", Some("name"), Some("/d/")).unwrap(), "/d/name.epub");
    assert_eq!(output_path("书", Some("/"), None), Err(OutputError::NotAFile));
    assert_eq!(output_path("书", Some("a/.."), None), Err(OutputError::NotAFile));
    assert_eq!(
        output_path("书", Some("a/b"), Some("/d")),
        Err(OutputError::NameOnlyOnDesktop)
    );
}

#[test]
fn configured_output_precedence() {
    let mut config = Config::new();
    // Default: the desktop.
    assert_eq!(
        configured_output("book", false, None, &config, Some("/home/u/Desktop"), Some("/home/u")).unwrap(),
        "/home/u/Desktop/book.epub"
    );
    assert_eq!(
        configured_output("book", false, None, &config, None, Some("/home/u")),
        Err(OutputError::NoDesktop)
    );
    // A configured directory, with `~` for the home directory.
    config.set("output_dir", "~/Books").unwrap();
    assert_eq!(config.desktop, Some(false));
    assert_eq!(
        configured_output("book", false, None, &config, Some("/d"), Some("/home/u")).unwrap(),
        "/home/u/Books/book.epub"
    );
    assert_eq!(
        configured_output("book", false, None, &config, Some("/d"), None),
        Err(OutputError::NoHome)
    );
    config.set("output_dir", "~").unwrap();
    assert_eq!(
        configured_output("book", false, None, &config, None, Some("/home/u")).unwrap(),
        "/home/u/book.epub"
    );
    config.set("output_dir", "/srv/books/").unwrap();
    assert_eq!(
        configured_output("book", false, None, &config, None, None).unwrap(),
        "/srv/books/book.epub"
    );
    config.set("output_dir", "~other").unwrap();
    assert_eq!(
        configured_output("book", false, None, &config, None, None).unwrap(),
        "~other/book.epub"
    );
    // `--output` wins over the configured directory; `--desktop` over both.
    assert_eq!(
        configured_output("book", false, Some("other"), &config, None, None).unwrap(),
        "other.epub"
    );
    assert_eq!(
        configured_output("book", true, None, &config, Some("/d"), None).unwrap(),
        "/d/book.epub"
    );
    assert_eq!(
        configured_output("book", true, Some("x"), &config, Some("/d"), None).unwrap(),
        "/d/x.epub"
    );
    // Turning the desktop off without a directory writes next to the caller.
    config.set("desktop", "false").unwrap();
    assert_eq!(config.output_dir, None);
    assert_eq!(
        configured_output("book", false, None, &config, Some("/d"), None).unwrap(),
        "book.epub"
    );
}

#[test]
fn config_set_rules() {
    let mut config = Config::new();
    assert_eq!(config.set("books", "true"), Ok(()));
    assert!(config.books);
    assert_eq!(config.set("books", "maybe"), Err(ConfigError::BooksNotBool));
    assert!(config.books);
    assert_eq!(config.set("desktop", "yes"), Err(ConfigError::DesktopNotBool));
    assert_eq!(config.set("output_dir", ""), Err(ConfigError::EmptyOutputDir));
    assert_eq!(config.set("colour", "red"), Err(ConfigError::UnknownKey));
    assert_eq!(config.desktop, None);
    assert_eq!(config.set("desktop", "true"), Ok(()));
    assert_eq!(config.desktop, Some(true));
    assert_eq!(parse_bool_exec("false"), Some(false));
    assert_eq!(parse_bool_exec("True"), None);
    assert_eq!(ConfigError::UnknownKey.message(), "未知配置项；可用：books、desktop、output_dir");
}

#[test]
fn link_titles() {
    assert_eq!(url_title("https://example.com/gallery/My%20Book/?page=2"), "My%20Book");
    assert_eq!(url_title("https://example.com/"), "example.com");
    assert_eq!(url_title("https://example.com/a#b/c"), "a");
    assert_eq!(url_title("https://example.com/user@host"), "book");
    assert_eq!(url_title("https://example.com/.."), "book");
    assert_eq!(url_title("https://example.com/a:b*c\u{7}d"), "abcd");
    assert_eq!(url_title("?"), "book");
}

#[test]
fn kana_marks_japanese_titles() {
    assert!(japanese_title("ひらがな"));
    assert!(japanese_title("カタカナ"));
    assert!(!japanese_title("中文"));
    assert!(right_to_left(false, false, "まんが"));
    assert!(!right_to_left(false, true, "まんが"));
    assert!(right_to_left(true, false, "Comic"));
    assert!(!right_to_left(false, false, "Comic"));
}

#[test]
fn escape_and_progress() {
    assert_eq!(escape("Tom & Jerry"), "Tom &amp; Jerry");
    assert_eq!(escape("plain"), "plain");
    assert_eq!(escape("&amp;"), "&amp;amp;");
    assert_eq!(progress_bar(1, 3), "[######--------------] 1/3");
    assert_eq!(progress_bar(0, 1), "[--------------------] 0/1");
    assert_eq!(progress_bar(19, 20), "[###################-] 19/20");
}

#[test]
fn page_geometry() {
    assert_eq!(page_size(100, 50), (100, 150));
    assert_eq!(page_size(101, 101), (101, 152));
    assert_eq!(page_size(50, 100), (50, 100));
    assert_eq!(page_size(u32::MAX, 1), (u32::MAX, u32::MAX));
}

#[test]
fn book_entries_in_order() {
    let mut first = Picture::new("/in/b.jpg".into(), "b.jpg".into(), ImageKind::Jpeg, 200, 100).unwrap();
    first.timestamp = None;
    let second = Picture::new("/in/c.webp".into(), "c.webp".into(), ImageKind::WebP, 30, 60).unwrap();
    let pictures = vec![first, second];
    let entries = book_entries_exec("A&B", &pictures, true, 42, 0).unwrap();
    let described: Vec<String> = entries
        .iter()
        .map(|e| match e {
            EpubEntry::Text { name, .. } => name.clone(),
            EpubEntry::Image { name, page } => format!("{name}#{page}"),
        })
        .collect();
    assert_eq!(
        described,
        [
            "mimetype",
            "META-INF/container.xml",
            "EPUB/pages/1.xhtml",
            "EPUB/images/1.jpg#0",
            "EPUB/pages/2.xhtml",
            "EPUB/images/2.png#1",
            "EPUB/nav.xhtml",
            "EPUB/package.opf",
        ]
    );
    let text = |i: usize| match &entries[i] {
        EpubEntry::Text { content, .. } => content.clone(),
        EpubEntry::Image { .. } => String::new(),
    };
    assert_eq!(text(0), "application/epub+zip");
    assert_eq!(
        text(2),
        "<?xml version=\"1.0\" encoding=\"UTF-8\"?>\n<html xmlns=\"http://www.w3.org/1999/xhtml\" lang=\"zh\" xml:lang=\"zh\"><head><title>第 1 页</title><meta name=\"viewport\" content=\"width=200, height=300\"/><style>html,body{margin:0;padding:0;width:200px;height:300px;}img{display:block;width:200px;height:300px;object-fit:contain;}</style></head><body><img src=\"../images/1.jpg\" alt=\"第 1 页\"/></body></html>"
    );
    let opf = text(7);
    assert!(opf.contains("<dc:identifier id=\"book-id\">urn:bookforge:42</dc:identifier><dc:title>A&amp;B</dc:title>"));
    assert!(opf.contains("<meta property=\"dcterms:modified\">1970-01-01T00:00:00Z</meta>"));
    assert!(opf.contains("<manifest><item id=\"nav\" href=\"nav.xhtml\" media-type=\"application/xhtml+xml\" properties=\"nav\"/><item id=\"image1\" href=\"images/1.jpg\" media-type=\"image/jpeg\" properties=\"cover-image\"/><item id=\"page1\" href=\"pages/1.xhtml\" media-type=\"application/xhtml+xml\"/><item id=\"image2\" href=\"images/2.png\" media-type=\"image/png\"/>"));
    assert!(opf.contains("<spine page-progression-direction=\"rtl\"><itemref idref=\"page1\" properties=\"rendition:spread-none\"/><itemref idref=\"page2\" properties=\"rendition:spread-none\"/></spine>"));
    let nav = text(6);
    assert!(nav.contains("<title>A&amp;B</title>"));
    assert!(nav.contains("<ol><li><a href=\"pages/1.xhtml\">第 1 页</a></li><li><a href=\"pages/2.xhtml\">第 2 页</a></li></ol>"));
    let later = book_entries_exec("t", &pictures, false, 1, 86_400 + 3_661).unwrap();
    match &later[7] {
        EpubEntry::Text { content, .. } => {
            assert!(content.contains("1970-01-02T01:01:01Z"));
            assert!(content.contains("page-progression-direction=\"ltr\""));
        }
        EpubEntry::Image { .. } => panic!("package document expected"),
    }
}

#[test]
fn capture_time_fields() {
    assert_eq!(capture_text("2020:01:02 03:04:05", None).unwrap(), "2020:01:02 03:04:05");
    assert_eq!(
        capture_text("2020:01:02 03:04:05", Some("1234567891")).unwrap(),
        "2020:01:02 03:04:05.123456789"
    );
    assert!(capture_text("d", Some("")).is_none());
    assert!(capture_text("d", Some("1a")).is_none());
    assert_eq!(moment(5, 1_500_000_000), Some(Timestamp { secs: 6, nanos: 500_000_000 }));
    assert_eq!(moment(i64::MAX, 1_000_000_000), None);
    assert_eq!(
        capture_time("1970:01:01 09:00:00", Some("+09:00"), Some("5")),
        Some(Timestamp { secs: 0, nanos: 500_000_000 })
    );
    assert_eq!(
        capture_time("1970:01:01 00:00:00", Some("-01:30"), None),
        Some(Timestamp { secs: 5400, nanos: 0 })
    );
    assert!(capture_time("not a date", Some("+00:00"), None).is_none());
    assert!(capture_time("1970:01:01 00:00:00", None, Some("x")).is_none());
}

#[test]
fn sequence_parts_and_extensions() {
    assert_eq!(
        sequence_parts("dir/页02.jpg"),
        Some(("页".to_string(), "02".to_string(), String::new()))
    );
    assert_eq!(
        sequence_parts("12"),
        Some((String::new(), "12".to_string(), String::new()))
    );
    assert_eq!(
        sequence_parts("p-7-x.png"),
        Some(("p-".to_string(), "7".to_string(), "-x".to_string()))
    );
    assert_eq!(sequence_parts("ch1p1.png"), None);
    assert_eq!(sequence_parts("a.png"), None);
    assert_eq!(sequence_parts(".."), None);
    assert!(is_picture("a.JPG"));
    assert!(is_picture("b.jpeg"));
    assert!(is_picture("c.WebP"));
    assert!(is_picture("d/e.png"));
    assert!(!is_picture("a.gif"));
    assert!(!is_picture(".png"));
    assert!(!is_picture("png"));
    assert!(!numbered_sequence(&[]));
}

#[test]
fn picture_formats() {
    let jpeg = Picture::new("p".into(), "p".into(), ImageKind::Jpeg, 1, 2).unwrap();
    assert_eq!((jpeg.extension.as_str(), jpeg.media_type.as_str(), jpeg.convert_png), ("jpg", "image/jpeg", false));
    let webp = Picture::new("p".into(), "p".into(), ImageKind::WebP, 1, 2).unwrap();
    assert_eq!((webp.extension.as_str(), webp.media_type.as_str(), webp.convert_png), ("png", "image/png", true));
    let png = Picture::new("p".into(), "p".into(), ImageKind::Png, 1, 2).unwrap();
    assert!(!png.convert_png);
    assert_eq!(
        Picture::new("p".into(), "p".into(), ImageKind::Other, 1, 2).err(),
        Some(PictureError::UnsupportedFormat)
    );
}

#[test]
fn archive_entry_limits() {
    let mib = 1024 * 1024;
    assert_eq!(entry_action(true, "a.png", true, None, 1, 0), Ok(false));
    assert_eq!(entry_action(false, "notes.txt", true, None, 1, 0), Ok(false));
    assert_eq!(entry_action(false, "../a.png", false, None, 1, 0), Err(ArchiveError::UnsafePath));
    assert_eq!(entry_action(false, "a.png", true, Some(0o120777), 1, 0), Err(ArchiveError::Symlink));
    assert_eq!(entry_action(false, "a.png", true, Some(0o100644), 1, 0), Ok(true));
    assert_eq!(entry_action(false, "a.png", true, None, 512 * mib + 1, 0), Err(ArchiveError::TooLarge));
    assert_eq!(entry_action(false, "a.png", true, None, 512 * mib, 0), Ok(true));
    assert_eq!(
        entry_action(false, "a.png", true, None, 2, 2048 * mib - 1),
        Err(ArchiveError::TooLarge)
    );
    assert_eq!(add_extracted(10, 5), Ok(15));
    assert_eq!(add_extracted(2048 * mib, 1), Err(ArchiveError::TotalTooLarge));
    assert_eq!(ArchiveError::TooLarge.message("x.png"), "ZIP 图片过大：x.png");
}

#[test]
fn input_kinds_and_titles() {
    assert_eq!(input_kind("https://a.com/x", false), Ok(InputKind::Link));
    assert_eq!(input_kind("http://a.com/x", true), Ok(InputKind::Link));
    assert_eq!(input_kind("/in/comic.ZIP", true), Ok(InputKind::Archive));
    assert_eq!(input_kind("/in/comic.rar", true), Err(InputError::NotZip));
    assert_eq!(input_kind("/in/comic", true), Err(InputError::NotZip));
    assert_eq!(input_kind("/in/pictures", false), Ok(InputKind::Directory));
    assert_eq!(book_title("/in/comic.zip", InputKind::Archive), "comic");
    assert_eq!(book_title("/in/my.pictures", InputKind::Directory), "my.pictures");
    assert_eq!(book_title("/", InputKind::Directory), "book");
    assert_eq!(book_title("https://a.com/x?y", InputKind::Link), "x");
    assert!(open_in_books(false, false, true));
    assert!(!open_in_books(true, true, true));
    assert!(!open_in_books(false, false, false));
}

#[test]
fn local_capture_time_keeps_fraction() {
    let t = capture_time("2001:06:15 12:00:00", None, Some("25")).unwrap();
    assert_eq!(t.nanos, 250_000_000);
    let utc = capture_time("2001:06:15 12:00:00", Some("+00:00"), Some("25")).unwrap();
    assert!((t.secs - utc.secs).abs() <= 26 * 3600);
}
