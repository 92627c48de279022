use bookforge::capture::capture_time;
use bookforge::epub::{escape, progress_bar};
use bookforge::natural::natural_cmp;
use bookforge::output::output_path;
use bookforge::picture::{numbered_sequence, Picture, Timestamp};
use bookforge::title::japanese_title;
use std::cmp::Ordering;
use std::time::{Duration, SystemTime, UNIX_EPOCH};

fn system_time(t: Timestamp) -> SystemTime {
    if t.secs >= 0 {
        UNIX_EPOCH + Duration::new(t.secs as u64, t.nanos)
    } else {
        UNIX_EPOCH - Duration::new(t.secs.unsigned_abs(), 0) + Duration::new(0, t.nanos)
    }
}

#[test]
fn ordering_and_metadata() {
    let mut names = ["10.png", "2.png", "1.png", "0002.png"];
    names.sort_by(|a, b| natural_cmp(a, b).then_with(|| a.cmp(b)));
    assert_eq!(names, ["1.png", "0002.png", "2.png", "10.png"]);
    assert_eq!(
        natural_cmp("999999999999999999999999", "1000000000000000000000000"),
        Ordering::Less
    );
    assert_eq!(escape("A&B<\"'>"), "A&amp;B&lt;&quot;&apos;&gt;");
    assert_eq!(progress_bar(0, 2), "[--------------------] 0/2");
    assert_eq!(progress_bar(1, 2), "[##########----------] 1/2");
    assert_eq!(progress_bar(2, 2), "[####################] 2/2");
}

#[test]
fn options_paths_and_capture_times() {
    assert!(japanese_title("まんが"));
    assert!(japanese_title("ｶﾀｶﾅ.zip"));
    assert!(!japanese_title("漫画"));
    assert!(!japanese_title("Comic"));
    let desktop = "/test/Desktop";
    assert_eq!(
        output_path("书", None, Some(desktop)).unwrap(),
        "/test/Desktop/书.epub"
    );
    assert_eq!(
        output_path("书", Some("漫画"), Some(desktop)).unwrap(),
        "/test/Desktop/漫画.epub"
    );
    assert_eq!(
        output_path("书", Some("other/漫画.epub"), None).unwrap(),
        "other/漫画.epub"
    );
    for name in ["../书", "/tmp/书", "./书", "", ".", ".."] {
        assert!(output_path("书", Some(name), Some(desktop)).is_err());
    }
    let expected = UNIX_EPOCH + Duration::new(1, 123_000_000);
    assert_eq!(
        capture_time("1970:01:01 08:00:01", Some("+08:00"), Some("123")).map(system_time),
        Some(expected)
    );
    assert_eq!(
        capture_time("1970:01:01 00:00:01", Some("+00:00"), None).map(system_time),
        Some(UNIX_EPOCH + Duration::from_secs(1))
    );
    assert!(capture_time("2025:02:30 00:00:00", Some("+00:00"), None).is_none());
    assert!(capture_time("2025:01:01 00:00:00", Some("bad"), None).is_none());
    assert!(capture_time("2025:01:01 00:00:00", Some("+00:00"), Some("bad")).is_none());
}

#[test]
fn conservative_sequence_detection() {
    for (names, expected) in [
        (["页1.png", "页02.jpg", "页10.png"], true),
        (["页1.png", "页01.png", "页2.png"], false),
        (["a1.png", "b2.png", "c3.png"], false),
        (["ch1p1.png", "ch1p2.png", "ch1p3.png"], false),
        (["a.png", "b.png", "c.png"], false),
    ] {
        let pictures: Vec<Picture> = names
            .iter()
            .map(|name| Picture {
                path: String::from(*name),
                name: String::from(*name),
                extension: String::from("png"),
                media_type: String::from("image/png"),
                width: 1,
                height: 1,
                convert_png: false,
                timestamp: None,
            })
            .collect();
        assert_eq!(numbered_sequence(&pictures), expected, "{names:?}");
    }
}
