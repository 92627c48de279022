use bookforge::epub::{book_entries_exec, EpubEntry, PackageError};
use bookforge::picture::{numbered_sequence, ImageKind, Picture, Timestamp};
use bookforge::plan::{check_books, check_pictures, InputError, InputKind};
use bookforge::preview::{preview_line, shown_name};
use bookforge::tool::{
    accepts_install, after_check, after_install, after_recheck, offers_install, RunOutcome,
    ToolError,
};

#[test]
fn install_is_offered_only_on_interactive_macos() {
    assert!(offers_install(true, true, true));
    assert!(!offers_install(false, true, true));
    assert!(!offers_install(true, false, true));
    assert!(!offers_install(true, true, false));
}

#[test]
fn install_answers() {
    for yes in ["y", "Y", "yes", "YES", "Yes\n", "  y \r\n", "\u{3000}yes\u{a0}", "\tyEs\u{2028}"] {
        assert!(accepts_install(yes), "{yes:?}");
    }
    for no in ["", "\n", "n", "no", "ye", "yess", "y e s", "yes please", "是", "ｙ", "\u{200b}y"] {
        assert!(!accepts_install(no), "{no:?}");
    }
}

#[test]
fn tool_run_verdicts_and_messages() {
    assert!(matches!(after_check(RunOutcome::Succeeded), Ok(true)));
    assert!(matches!(after_check(RunOutcome::Missing("nf".to_string())), Ok(false)));
    match after_check(RunOutcome::Exited("exit status: 2".to_string())) {
        Err(e) => assert_eq!(e.message(), "gallery-dl 无法运行（exit status: 2）"),
        Ok(_) => panic!("a failing tool was accepted"),
    }
    match after_check(RunOutcome::Unstartable("denied".to_string())) {
        Err(e) => assert_eq!(e.message(), "无法启动 gallery-dl：denied"),
        Ok(_) => panic!("an unstartable tool was accepted"),
    }
    assert!(after_install(RunOutcome::Succeeded).is_ok());
    assert_eq!(
        after_install(RunOutcome::Exited("exit status: 1".to_string())).unwrap_err().message(),
        "brew install gallery-dl 失败（exit status: 1）"
    );
    assert_eq!(
        after_install(RunOutcome::Missing("not found".to_string())).unwrap_err().message(),
        "无法运行 brew：not found；请手动安装 gallery-dl"
    );
    assert!(after_recheck(RunOutcome::Succeeded).is_ok());
    assert_eq!(
        after_recheck(RunOutcome::Exited("exit status: 1".to_string())).unwrap_err().message(),
        "安装后 gallery-dl 仍无法运行"
    );
    assert_eq!(
        after_recheck(RunOutcome::Unstartable("io".to_string())).unwrap_err().message(),
        "io"
    );
    assert_eq!(
        ToolError::NotInstalled.message(),
        "未找到 gallery-dl；请先安装（macOS 可运行 brew install gallery-dl）"
    );
    assert_eq!(ToolError::Declined.message(), "已取消安装 gallery-dl");
}

#[test]
fn books_and_empty_inputs() {
    assert_eq!(check_books(true, false), Err(InputError::BooksUnsupported));
    assert_eq!(check_books(true, true), Ok(()));
    assert_eq!(check_books(false, false), Ok(()));
    assert_eq!(InputError::BooksUnsupported.message(), "--books 仅支持 macOS");
    assert_eq!(check_pictures(0), Err(InputError::NoPictures));
    assert_eq!(check_pictures(3), Ok(()));
    assert_eq!(InputError::NoPictures.message(), "输入中没有 JPEG、PNG 或 WebP 图片");
}

#[test]
fn preview_lines() {
    assert_eq!(
        shown_name(InputKind::Archive, "/in/comic.zip", "a/1.png", "/tmp/x/a/1.png"),
        "/in/comic.zip!a/1.png"
    );
    assert_eq!(shown_name(InputKind::Link, "https://x", "001.png", "/tmp/y/001.png"), "001.png");
    assert_eq!(shown_name(InputKind::Directory, "/in", "1.png", "/in/1.png"), "/in/1.png");
    assert_eq!(
        preview_line(1, "/in/1.WeBp", true, None).unwrap(),
        "1: /in/1.WeBp [封面] [WebP → PNG]"
    );
    assert_eq!(preview_line(12, "b.png", false, None).unwrap(), "12: b.png");
    assert_eq!(
        preview_line(2, "b.png", false, Some((Timestamp { secs: 1, nanos: 0 }, true))).unwrap(),
        "2: b.png [EXIF 1970-01-01T00:00:01+00:00]"
    );
    assert_eq!(
        preview_line(3, "c.png", false, Some((Timestamp { secs: 0, nanos: 123_000_000 }, false)))
            .unwrap(),
        "3: c.png [mtime 1970-01-01T00:00:00.123+00:00]"
    );
    assert!(preview_line(3, "c.png", false, Some((Timestamp { secs: i64::MAX, nanos: 0 }, false)))
        .is_none());
}

#[test]
fn numbered_detection_ignores_page_order() {
    let make = |names: &[&str]| -> Vec<Picture> {
        names
            .iter()
            .map(|n| Picture::new(n.to_string(), n.to_string(), ImageKind::Png, 1, 1).unwrap())
            .collect()
    };
    assert!(numbered_sequence(&make(&["p10.png", "p2.png", "p1.png"])));
    assert!(numbered_sequence(&make(&["p1.png", "p2.png", "p10.png"])));
    assert!(!numbered_sequence(&make(&["p01.png", "p2.png", "p1.png"])));
    assert!(!numbered_sequence(&make(&["p1.png", "p01.png", "p2.png"])));
}

#[test]
fn modification_time_in_rfc3339() {
    let pages = vec![Picture::new("a.png".into(), "a.png".into(), ImageKind::Png, 2, 3).unwrap()];
    let opf = |secs: i64| -> Option<String> {
        let entries = book_entries_exec("t", &pages, false, 1, secs).ok()?;
        entries.into_iter().find_map(|e| match e {
            EpubEntry::Text { name, content } if name == "EPUB/package.opf" => Some(content),
            _ => None,
        })
    };
    assert!(opf(1_709_251_199).unwrap().contains(">2024-02-29T23:59:59Z<"));
    assert!(opf(-1).unwrap().contains(">1969-12-31T23:59:59Z<"));
    assert!(opf(253_402_300_799).unwrap().contains(">9999-12-31T23:59:59Z<"));
    assert!(matches!(
        book_entries_exec("t", &pages, false, 1, 253_402_300_800),
        Err(PackageError::BadTime)
    ));
    assert!(matches!(
        book_entries_exec("t", &pages, false, 1, -62_167_219_201),
        Err(PackageError::BadTime)
    ));
    assert!(opf(-62_167_219_200).unwrap().contains(">0000-01-01T00:00:00Z<"));
}
