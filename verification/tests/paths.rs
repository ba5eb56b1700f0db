use std::path::{Path, PathBuf};

use compare_svg::os_path::system_paths;
use compare_svg::path::{
    file_name, has_parent, is_svg, same_path, split_path, strip_prefix, Component, Prefix, Syntax,
    SystemPath,
};

fn unix(path: &[u8]) -> SystemPath {
    SystemPath { syntax: Syntax::Unix, bytes: path.to_vec() }
}

fn windows(path: &str) -> SystemPath {
    SystemPath { syntax: Syntax::Windows, bytes: path.as_bytes().to_vec() }
}

/// The system that the tests run on.
const HOST: Syntax = if std::path::MAIN_SEPARATOR == '/' { Syntax::Unix } else { Syntax::Windows };

fn host(path: &str) -> SystemPath {
    SystemPath { syntax: HOST, bytes: path.as_bytes().to_vec() }
}

fn relative(path: &str, base: &str) -> Option<String> {
    strip_prefix(&windows(path), &windows(base))
        .map(|relative| String::from_utf8(relative.bytes).unwrap())
}

/// The components of a Windows path, written down one by one.
fn parts(path: &str) -> Vec<String> {
    let text = |bytes: &Vec<u8>| String::from_utf8(bytes.clone()).unwrap();
    split_path(&windows(path))
        .iter()
        .map(|part| match part {
            Component::Prefix(Prefix::Verbatim(name)) => format!("verbatim {}", text(name)),
            Component::Prefix(Prefix::VerbatimUnc { server, share }) => {
                format!("verbatim share {} {}", text(server), text(share))
            }
            Component::Prefix(Prefix::VerbatimDisk(drive)) => {
                format!("verbatim disk {}", *drive as char)
            }
            Component::Prefix(Prefix::Device(name)) => format!("device {}", text(name)),
            Component::Prefix(Prefix::Unc { server, share }) => {
                format!("share {} {}", text(server), text(share))
            }
            Component::Prefix(Prefix::Disk(drive)) => format!("disk {}", *drive as char),
            Component::Root => "root".to_string(),
            Component::Current => ".".to_string(),
            Component::Parent => "..".to_string(),
            Component::Normal(name) => format!("={}", text(name)),
        })
        .collect()
}

const PATHS: [&str; 38] = [
    "", "/", "//", ".", "./", "..", "../", "a", "a/", "/a", "a/b", "a//b", "a/./b", "a/../b",
    "./a", "././a", "a/.", "a/..", "/.", "/..", "/./a", "/a/b/c", "/a/b/", "a.svg", "/x/.svg",
    "a/b.SvG", "a.svg/", "a.svg/.", "...", "a/.b.svg",
    "a//b/./c/", "./.", ".//a/.", "/a//b//", "//a/./", "a/.//b", "./a/..//b", "/././/",
];

fn bytes(path: &Path) -> &[u8] {
    path.as_os_str().as_encoded_bytes()
}

#[test]
fn reads_file_names_as_the_system_does() {
    for text in PATHS {
        let path = Path::new(text);
        assert_eq!(
            file_name(&host(text)),
            path.file_name().map(|name| name.as_encoded_bytes().to_vec()),
            "{text}"
        );
        assert_eq!(has_parent(&host(text)), path.parent().is_some(), "{text}");
        assert_eq!(
            is_svg(&host(text)),
            path.extension()
                .and_then(|extension| extension.to_str())
                .is_some_and(|extension| extension.eq_ignore_ascii_case("svg")),
            "{text}"
        );
    }
}

#[test]
fn compares_paths_as_the_system_does() {
    for a in PATHS {
        for b in PATHS {
            let (a_path, b_path) = (Path::new(a), Path::new(b));
            assert_eq!(same_path(&host(a), &host(b)), a_path == b_path, "{a} {b}");
            let relative = strip_prefix(&host(a), &host(b));
            let expected = a_path.strip_prefix(b_path).ok();
            assert_eq!(relative.is_some(), expected.is_some(), "{a} {b}");
            if let (Some(relative), Some(expected)) = (relative, expected) {
                assert_eq!(relative.bytes, bytes(expected), "{a} {b}");
            }
        }
    }
}

#[test]
fn strips_a_working_tree() {
    let strip = |path: &[u8], base: &[u8]| {
        strip_prefix(&unix(path), &unix(base)).map(|relative| relative.bytes)
    };
    assert_eq!(strip(b"/repo/icons/a.svg", b"/repo"), Some(b"icons/a.svg".to_vec()));
    assert_eq!(strip(b"/repo/icons/a.svg", b"/repo/"), Some(b"icons/a.svg".to_vec()));
    assert_eq!(strip(b"/repo/a.svg", b"/rep"), None);
    assert_eq!(strip(b"/repo", b"/repo/a.svg"), None);
    assert_eq!(strip(b"/repo", b"/repo"), Some(Vec::new()));
    assert_eq!(strip(b"/a/b", b"/"), Some(b"a/b".to_vec()));
    assert_eq!(strip(b"a/../b", b""), Some(b"a/../b".to_vec()));
    assert_eq!(strip(br"/repo/C:\a.svg", b"/repo"), Some(br"C:\a.svg".to_vec()));
}

#[test]
fn recognises_svg_files() {
    assert!(is_svg(&unix(b"a.svg")));
    assert!(is_svg(&unix(b"dir/a.b.SVG")));
    assert!(is_svg(&unix(b"\xff.sVg")));
    assert!(!is_svg(&unix(b"a.svgz")));
    assert!(!is_svg(&unix(b"asvg")));
    assert!(!is_svg(&unix(b".svg")));
    assert!(!is_svg(&unix(b"dir/.svg")));
    assert!(!is_svg(&unix(b"a.png")));
    assert!(!is_svg(&unix(b"a.svg/..")));
}

#[test]
fn reads_the_bytes_of_paths() {
    let paths = vec![PathBuf::from("a.svg"), PathBuf::from("/ž/b.svg")];
    let paths = system_paths(&paths, Syntax::Windows);
    assert_eq!(paths.len(), 2);
    assert_eq!(paths[0].bytes, b"a.svg");
    assert_eq!(paths[1].bytes, "/ž/b.svg".as_bytes());
    assert_eq!(paths[1].syntax, Syntax::Windows);
}

#[test]
fn reads_windows_prefixes() {
    assert_eq!(parts(r"\\?\pictures\kittens"), ["verbatim pictures", "root", "=kittens"]);
    assert_eq!(
        parts(r"\\?\UNC\server\share\a"),
        ["verbatim share server share", "root", "=a"]
    );
    assert_eq!(parts(r"\\?\UNC\server"), ["verbatim share server "]);
    assert_eq!(parts(r"\\?\c:\"), ["verbatim disk C", "root"]);
    assert_eq!(parts(r"\\?\C:x\a"), ["verbatim C:x", "root", "=a"]);
    assert_eq!(parts(r"\\.\NUL"), ["device NUL", "root"]);
    assert_eq!(parts(r"\\server\share"), ["share server share", "root"]);
    assert_eq!(parts("//server/share/a"), ["share server share", "root", "=a"]);
    assert_eq!(parts("//?/C:/a"), ["share ? C:", "root", "=a"]);
    assert_eq!(parts(r"\\server"), ["root", "=server"]);
    assert_eq!(
        parts(r"C:\Users\Rust\Pictures\Ferris"),
        ["disk C", "root", "=Users", "=Rust", "=Pictures", "=Ferris"]
    );
    assert_eq!(parts(r"c:a\.\b/..\"), ["disk C", "=a", "=b", ".."]);
    assert_eq!(parts("C:."), ["disk C"]);
    assert_eq!(parts(r".\a"), [".", "=a"]);
    assert_eq!(parts("1:a"), ["=1:a"]);
    assert_eq!(parts(""), [""; 0]);
}

#[test]
fn takes_verbatim_windows_paths_as_they_are() {
    assert_eq!(parts(r"\\?\C:\a/b\.\c"), ["verbatim disk C", "root", "=a/b", ".", "=c"]);
    assert_eq!(parts(r"\\?\C:/a/b"), ["verbatim disk C", "root", "=a/b"]);
}

#[test]
fn reads_windows_file_names() {
    assert!(is_svg(&windows(r"C:\icons\a.SVG")));
    assert!(is_svg(&windows("C:a.svg")));
    assert!(is_svg(&windows("icons/a.svg")));
    assert!(!is_svg(&windows(r"icons\.svg")));
    assert!(!is_svg(&windows(r"\\server\a.svg")));
    assert_eq!(file_name(&windows(r"icons\a.svg")), Some(b"a.svg".to_vec()));
    assert_eq!(file_name(&unix(br"icons\a.svg")), Some(br"icons\a.svg".to_vec()));
    assert!(has_parent(&windows(r"C:\a")));
    assert!(has_parent(&windows("C:a")));
    assert!(!has_parent(&windows(r"C:\")));
    assert!(!has_parent(&windows("C:")));
    assert!(!has_parent(&windows(r"\\server\share")));
}

#[test]
fn compares_windows_paths() {
    assert!(same_path(&windows(r"c:\repo"), &windows("C:/repo/")));
    assert!(!same_path(&windows(r"C:\repo"), &windows(r"C:repo")));
    assert!(!same_path(&windows(r"C:\repo"), &windows(r"C:\Repo")));
    assert!(!same_path(&windows(r"C:\repo"), &windows(r"\\?\C:\repo")));
    assert!(same_path(&windows(r"\\server\share"), &windows(r"\\server\share\")));

    let relative_path = Some(r"icons\a.svg".to_string());
    assert_eq!(relative(r"\\?\C:\repo\icons\a.svg", r"\\?\c:\repo"), relative_path);
    assert_eq!(relative(r"\\?\UNC\s\t\repo\icons\a.svg", r"\\?\UNC\s\t\repo"), relative_path);
    let written = Some("icons//a.svg".to_string());
    assert_eq!(relative(r"C:\repo\.\icons//a.svg/.\", "C:/repo"), written);
    assert_eq!(relative(r"C:\repo\a.svg", r"D:\repo"), None);
    assert_eq!(relative(r"C:\repo\a.svg", r"C:\rep"), None);
    assert_eq!(relative(r"C:\a", "C:"), Some(r"\a".to_string()));
    assert_eq!(relative(r"C:\a", ""), Some(r"C:\a".to_string()));
    assert_eq!(relative("c:a/", ""), Some("c:a".to_string()));
    assert_eq!(relative(r"C:.\a", "C:"), Some(r".\a".to_string()));
    assert_eq!(relative("C:.", "C:"), Some(".".to_string()));
    assert_eq!(relative(r"C:\\a", r"C:\"), Some("a".to_string()));
    assert_eq!(relative(r"\\s\t\a", ""), Some(r"\\s\t\a".to_string()));
    assert_eq!(relative(r"\\?\UNC\s\t\a", ""), Some(r"\\?\UNC\s\t\a".to_string()));
    assert_eq!(relative(r"\\?\x\a", ""), Some(r"\\?\x\a".to_string()));
    assert_eq!(relative(r"\\.\x\a", ""), Some(r"\\.\x\a".to_string()));
    assert_eq!(relative(r"\\?\C:\a", ""), Some(r"\\?\C:\a".to_string()));
}
