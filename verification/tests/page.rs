use base64::{engine::general_purpose::STANDARD, Engine as _};
use compare_svg::escape::escape_html;
use compare_svg::page::{
    can_render, file_entry, render_html, render_page, show_path, SnapshotVersions,
};
use compare_svg::path::{Syntax, SystemPath};

fn unix(path: &[u8]) -> SystemPath {
    SystemPath { syntax: Syntax::Unix, bytes: path.to_vec() }
}

fn windows(path: &[u8]) -> SystemPath {
    SystemPath { syntax: Syntax::Windows, bytes: path.to_vec() }
}

fn snapshot(path: &[u8], previous: Option<&[u8]>, current: &[u8]) -> SnapshotVersions {
    SnapshotVersions {
        repository_relative_path: unix(path),
        previous: previous.map(|bytes| bytes.to_vec()),
        current: current.to_vec(),
    }
}

#[test]
fn renders_self_contained_comparisons() {
    let versions = [
        SnapshotVersions {
            repository_relative_path: unix(b"snapshots/<example>&.svg"),
            previous: Some(b"previous".to_vec()),
            current: b"current".to_vec(),
        },
        SnapshotVersions {
            repository_relative_path: unix(b"icons/other.svg"),
            previous: None,
            current: b"other current".to_vec(),
        },
    ];

    let html = render_html(&versions);

    assert!(html.contains("snapshots/&lt;example&gt;&amp;.svg"));
    assert!(html.contains("icons/other.svg"));
    assert!(html.contains("2 files"));
    assert!(html.contains("Previous (HEAD)"));
    assert!(html.contains("Current (working tree)"));
    assert_eq!(html.matches("class=\"file-button\"").count(), 2);
    assert!(html.contains("data-file-index=\"0\" aria-current=\"true\""));
    assert!(html.contains("data-file-index=\"1\" aria-current=\"false\""));
    assert!(html.contains("aria-current=\"true\">&lt;example&gt;&amp;.svg</button>"));
    assert!(html.contains("aria-current=\"false\">other.svg</button>"));
    assert!(!html.contains(">snapshots/&lt;example&gt;&amp;.svg</button>"));
    assert!(!html.contains(">icons/other.svg</button>"));
    assert!(html.contains("data-mode=\"side-by-side\""));
    assert!(html.contains("data-mode-button=\"onion\""));
    assert!(html.contains("data-mode-button=\"swipe\""));
    assert!(html.contains("id=\"onion-opacity\""));
    assert!(html.contains("id=\"swipe-position\""));
    assert!(html.contains("data-has-previous=\"true\" data-previous="));
    assert!(html.contains(
        "data-path=\"icons/other.svg\" data-has-previous=\"false\" data-previous=\"\""
    ));
    assert!(html.contains(".comparison[data-has-previous=\"false\"]"));
    assert!(html.contains("modeSwitcher.hidden = !hasPrevious"));
    assert!(html.contains(
        "id=\"sidebar-toggle\" type=\"button\" aria-controls=\"file-sidebar\" aria-expanded=\"true\">Hide files</button>"
    ));
    assert!(html.contains(".app-shell[data-sidebar-hidden=\"true\"]"));
    assert!(html.contains("setSidebarVisible(true)"));
    assert!(html.contains("setFile(0)"));
    assert!(html.contains("<script src=\"/lifecycle.js\"></script>"));
    assert!(!html.contains("connectLifecycleSocket"));
    assert!(html.contains("document.addEventListener(\"keydown\""));
    assert!(html.contains("event.key !== \"ArrowDown\""));
    assert!(html.contains("event.key !== \"ArrowUp\""));
    assert!(html.contains("event.key !== \"j\""));
    assert!(html.contains("event.key !== \"k\""));
    assert!(html.contains("event.key === \"ArrowDown\" || event.key === \"j\" ? 1 : -1"));
    assert!(html.contains("fileButtons[nextIndex].scrollIntoView"));
    assert_eq!(
        html.matches(&format!(
            "data-previous=\"{}\"",
            STANDARD.encode(b"previous")
        ))
        .count(),
        1
    );
    assert_eq!(
        html.matches(&format!("data-current=\"{}\"", STANDARD.encode(b"current")))
            .count(),
        1
    );
    assert_eq!(
        html.matches(&format!(
            "data-current=\"{}\"",
            STANDARD.encode(b"other current")
        ))
        .count(),
        1
    );
    assert_eq!(html.matches("draggable=\"false\"").count(), 4);
    assert!(html.contains("pointer-events: none"));
    assert!(!html.contains("<example>"));
}

#[test]
fn renders_an_untracked_initial_file_as_current_only() {
    let versions = [SnapshotVersions {
        repository_relative_path: unix(b"icons/new.svg"),
        previous: None,
        current: b"new current".to_vec(),
    }];

    let html = render_html(&versions);

    assert!(
        html.contains("id=\"mode-switcher\" role=\"group\" aria-label=\"Comparison mode\" hidden")
    );
    assert!(html
        .contains("id=\"comparison\" data-mode=\"side-by-side\" data-has-previous=\"false\""));
    assert!(html.contains(
        "data-path=\"icons/new.svg\" data-has-previous=\"false\" data-previous=\"\""
    ));
    assert_eq!(
        html.matches(&format!(
            "data-current=\"{}\"",
            STANDARD.encode(b"new current")
        ))
        .count(),
        1
    );
}

#[test]
fn escapes_html_special_characters() {
    assert_eq!(escape_html("<&>\"'"), "&lt;&amp;&gt;&quot;&#39;");
}

#[test]
fn leaves_other_characters_alone() {
    assert_eq!(escape_html(""), "");
    assert_eq!(escape_html("a b/c;#—↔"), "a b/c;#—↔");
    assert_eq!(escape_html("a&amp;b"), "a&amp;amp;b");
}

#[test]
fn renders_nothing_for_no_files() {
    assert_eq!(render_html(&[]), "");
    assert_eq!(render_page(&[]), "");
}

#[test]
fn renders_a_tracked_first_file_with_its_modes() {
    let html = render_html(&[snapshot(b"a.svg", Some(b"x"), b"y")]);

    assert!(html.starts_with("<!doctype html>\n<html lang=\"en\">\n"));
    assert!(html.ends_with("</body>\n</html>\n"));
    assert!(html.contains("<title>SVG comparison — a.svg</title>"));
    assert!(html.contains("<span class=\"file-count\">1 file</span>"));
    assert!(html.contains("<div class=\"path\" id=\"selected-path\">a.svg</div>"));
    assert!(html.contains("aria-label=\"Comparison mode\">\n"));
    assert!(html.contains("data-mode=\"side-by-side\" data-has-previous=\"true\">"));
    assert!(html.contains(
        "<div id=\"file-data\" hidden><div data-file data-path=\"a.svg\" data-has-previous=\"true\" data-previous=\"eA==\" data-current=\"eQ==\"></div></div>"
    ));
}

#[test]
fn tells_an_empty_previous_version_from_none() {
    let html = render_html(&[snapshot(b"a.svg", Some(b""), b"")]);
    assert!(html.contains("data-has-previous=\"true\" data-previous=\"\" data-current=\"\""));
}

#[test]
fn numbers_many_files() {
    let versions: Vec<SnapshotVersions> =
        (0..12).map(|i| snapshot(format!("f{i}.svg").as_bytes(), None, b"x")).collect();
    let html = render_html(&versions);

    assert!(html.contains("<span class=\"file-count\">12 files</span>"));
    for i in 0..12 {
        assert!(html.contains(&format!(
            "<button class=\"file-button\" type=\"button\" data-file-index=\"{i}\" aria-current=\"{}\">f{i}.svg</button>",
            i == 0
        )));
    }
}

#[test]
fn encodes_all_bytes_and_lengths() {
    for len in 0..=256usize {
        let bytes: Vec<u8> = (0..len).map(|i| (i * 7 % 256) as u8).collect();
        let html = render_html(&[snapshot(b"a.svg", None, &bytes)]);
        assert!(html.contains(&format!("data-current=\"{}\"", STANDARD.encode(&bytes))));
    }
    let html = render_html(&[snapshot(b"a.svg", Some(&[0xfb, 0xff, 0xbf]), b"ab")]);
    assert!(html.contains("data-previous=\"+/+/\" data-current=\"YWI=\""));
}

#[test]
fn shows_the_file_name_or_the_path() {
    let shown = |path: &[u8]| {
        let versions = snapshot(path, None, b"");
        let entry = file_entry(&versions);
        (entry.path, entry.name)
    };
    let same = |text: &str| (text.to_string(), text.to_string());

    assert_eq!(shown(b"icons/a.svg"), ("icons/a.svg".to_string(), "a.svg".to_string()));
    assert_eq!(shown("ikony/ž.svg".as_bytes()), ("ikony/ž.svg".to_string(), "ž.svg".to_string()));
    assert_eq!(shown(b"a.svg"), same("a.svg"));
    assert_eq!(shown(b""), same(""));
    assert_eq!(shown(b"a/.."), same("a/.."));
    assert_eq!(
        shown(b"a/\xff.svg"),
        ("a/\u{fffd}.svg".to_string(), "\u{fffd}.svg".to_string())
    );
}

#[test]
fn squashes_with_enter() {
    let html = render_html(&[snapshot(b"a.svg", None, b"x")]);
    assert!(html.contains("event.key !== \"Enter\""));
    assert!(html.contains("fetch(\"/squash/\" + currentFileIndex, {"));
}

#[test]
fn small_files_can_be_rendered() {
    assert!(can_render(&[]));
    assert!(can_render(&[snapshot(b"a.svg", Some(b"x"), b"y")]));
}

/// The characters of `html` that can begin or end a tag or a quoted value.
fn markup(html: &str) -> String {
    html.chars().filter(|c| "<>\"'".contains(*c)).collect()
}

#[test]
fn no_file_adds_markup_to_the_page() {
    let plain = [
        snapshot(b"a.svg", Some(b""), b""),
        snapshot(b"b.svg", None, b"<svg/>"),
    ];
    let hostile = [
        snapshot(b"x'\"></title><script>&.svg", None, b"\"><script>"),
        snapshot(b"<b>/\" onclick='y'.svg", Some(b"</div>"), b"''"),
    ];
    assert_eq!(markup(&render_html(&plain)), markup(&render_html(&hostile)));
    assert_ne!(markup(&render_html(&plain)), markup(&render_html(&plain[..1])));
}

#[test]
fn shows_windows_paths() {
    let versions = SnapshotVersions {
        repository_relative_path: windows(br"icons\a.svg"),
        previous: None,
        current: Vec::new(),
    };
    let entry = file_entry(&versions);
    assert_eq!(entry.path, r"icons\a.svg");
    assert_eq!(entry.name, "a.svg");

    assert_eq!(show_path(&windows(b"a\xed\xa0\x80b\xed\xbf\xbf")), "a\u{fffd}b\u{fffd}");
    assert_eq!(show_path(&windows("\u{d7ff}\u{e000}ž".as_bytes())), "\u{d7ff}\u{e000}ž");
    assert_eq!(show_path(&unix(b"a\xed\xa0\x80")), "a\u{fffd}\u{fffd}\u{fffd}");
}
