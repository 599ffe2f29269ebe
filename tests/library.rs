use media_index::album::{album_dirs, get_media_entry, get_sub_dirs, is_visible_dir_name, media_kind, ListedEntry, MediaEntry, MediaKind};
use media_index::order::{path_le, sort_paths};
use media_index::page::{build_index_html, image_item, index_html_path, join_lines_exec, video_item};
use media_index::paths::{extension_of, file_name_of, find_last, join_path, same_chars, StripPrefixError};

fn dir(name: &str) -> ListedEntry {
    ListedEntry { name: Some(name.to_string()), is_dir: true }
}

fn file(name: &str) -> ListedEntry {
    ListedEntry { name: Some(name.to_string()), is_dir: false }
}

fn strings(v: &[&str]) -> Vec<String> {
    v.iter().map(|s| s.to_string()).collect()
}

const HEAD: &str = "<!DOCTYPE html>\n<html>\n<head>\n<meta charset=\"utf-8\">\n<meta name=\"viewport\" content=\"width=device-width, initial-scale=1.0, maximum-scale=1.0, user-scalable=0\">\n<title>Video Index</title>\n</head>\n<body>";

#[test]
fn hidden_directory_is_not_an_album() {
    let listing = vec![dir("photos"), dir(".trash")];
    assert_eq!(get_sub_dirs("/base", &listing), strings(&["/base/photos"]));
}

#[test]
fn sub_dirs_skip_files_empty_and_undecodable_names() {
    let listing = vec![
        file("index.html"),
        dir(""),
        ListedEntry { name: None, is_dir: true },
        dir("trip"),
        dir(".git"),
        dir("b.c"),
    ];
    assert_eq!(get_sub_dirs("/base/", &listing), strings(&["/base/trip", "/base/b.c"]));
}

#[test]
fn visible_names() {
    assert!(is_visible_dir_name("photos"));
    assert!(!is_visible_dir_name(".trash"));
    assert!(!is_visible_dir_name(""));
}

#[test]
fn extension_classification_is_exact_and_case_sensitive() {
    assert_eq!(media_kind("a.jpg"), MediaKind::Image);
    assert_eq!(media_kind("a.jpeg"), MediaKind::Image);
    assert_eq!(media_kind("a.png"), MediaKind::Image);
    assert_eq!(media_kind("b.JPEG"), MediaKind::Other);
    assert_eq!(media_kind("c.mp4"), MediaKind::Video);
    assert_eq!(media_kind("d.txt"), MediaKind::Other);
    assert_eq!(media_kind("png"), MediaKind::Other);
    assert_eq!(media_kind(".png"), MediaKind::Image);
    assert_eq!(media_kind(".mp4"), MediaKind::Video);
    assert_eq!(media_kind("a."), MediaKind::Other);
    assert_eq!(media_kind(".."), MediaKind::Other);
    assert_eq!(media_kind("x.tar.mp4"), MediaKind::Video);
}

#[test]
fn media_entry_classifies_files() {
    let listing = vec![file("a.jpg"), file("b.JPEG"), file("c.mp4"), file("d.txt"), dir("e.png")];
    let e = get_media_entry("/data/trip", &listing);
    assert_eq!(e.dir_path, "/data/trip");
    assert_eq!(e.images, strings(&["/data/trip/a.jpg"]));
    assert_eq!(e.videos, strings(&["/data/trip/c.mp4"]));
}

#[test]
fn images_are_sorted() {
    let listing = vec![file("z.png"), file("a.png"), file("m.png")];
    let e = get_media_entry("/d/al", &listing);
    assert_eq!(e.images, strings(&["/d/al/a.png", "/d/al/m.png", "/d/al/z.png"]));
    let html = build_index_html(&vec![e], "/d").unwrap();
    let a = html.find("al/a.png").unwrap();
    let m = html.find("al/m.png").unwrap();
    let z = html.find("al/z.png").unwrap();
    assert!(a < m && m < z);
}

#[test]
fn albums_are_sorted() {
    let listing = vec![dir("zebra"), dir("alpha")];
    let dirs = album_dirs("/b", &listing);
    assert_eq!(dirs, strings(&["/b/alpha", "/b/zebra"]));
    let albums: Vec<MediaEntry> = dirs.iter().map(|d| get_media_entry(d, &vec![])).collect();
    let html = build_index_html(&albums, "/b").unwrap();
    assert!(html.find("<h1>alpha</h1>").unwrap() < html.find("<h1>zebra</h1>").unwrap());
}

#[test]
fn sort_keeps_duplicates_and_orders_prefixes_first() {
    let v = strings(&["ab", "a", "b", "ab", "B"]);
    assert_eq!(sort_paths(&v), strings(&["B", "a", "ab", "ab", "b"]));
    assert!(path_le("a", "ab"));
    assert!(!path_le("ab", "a"));
    assert!(path_le("", ""));
}

fn image_src(base: &str, album: &str, file_name: &str) -> Result<String, StripPrefixError> {
    let e = get_media_entry(album, &vec![file(file_name)]);
    let html = build_index_html(&vec![e], base)?;
    let start = html.find("<img src=\"").unwrap() + "<img src=\"".len();
    let end = start + html[start..].find('"').unwrap();
    Ok(html[start..end].to_string())
}

#[test]
fn relative_path_drops_base() {
    assert_eq!(image_src("/data", "/data/trip1", "img.png"), Ok("trip1/img.png".to_string()));
    assert_eq!(image_src("/data/", "/data/trip1", "img.png"), Ok("trip1/img.png".to_string()));
    assert_eq!(image_src("/data", "/data//t", "a.png"), Ok("t/a.png".to_string()));
    assert_eq!(image_src("/data", "/data/./t", "a.png"), Ok("t/a.png".to_string()));
    assert_eq!(image_src("data", "data/t", "a.png"), Ok("t/a.png".to_string()));
    assert_eq!(image_src("/data", "/datax/t", "a.png"), Err(StripPrefixError));
    let e = get_media_entry("/data/trip1", &vec![file("img.png")]);
    let html = build_index_html(&vec![e], "/data").unwrap();
    assert!(html.contains("<li><img src=\"trip1/img.png\" height=\"250em\"></li>"));
}

#[test]
fn list_items() {
    assert_eq!(image_item("t/a.png"), "<li><img src=\"t/a.png\" height=\"250em\"></li>");
    assert_eq!(video_item("t/v.mp4", "v.mp4"), "<li><a href=\"t/v.mp4\">v.mp4</li>");
}

#[test]
fn heading_uses_final_component() {
    let e = get_media_entry("/data/trip1/", &vec![]);
    let html = build_index_html(&vec![e], "/data").unwrap();
    assert!(html.contains("<h1>trip1</h1>"));
}

#[test]
fn whole_document() {
    let e = get_media_entry("/data/trip1", &vec![file("v.mp4"), file("img.png")]);
    let html = build_index_html(&vec![e], "/data").unwrap();
    let expected = format!(
        "{}\n<h1>trip1</h1>\n<ul>\n<li><img src=\"trip1/img.png\" height=\"250em\"></li>\n<li><a href=\"trip1/v.mp4\">v.mp4</li>\n</ul>\n</body>\n</html>",
        HEAD
    );
    assert_eq!(html, expected);
}

#[test]
fn no_albums() {
    let html = build_index_html(&vec![], "/data").unwrap();
    assert_eq!(html, format!("{}\n</body>\n</html>", HEAD));
}

#[test]
fn empty_album_keeps_heading_and_list() {
    let e = get_media_entry("/data/empty", &vec![file("notes.txt")]);
    let html = build_index_html(&vec![e], "/data").unwrap();
    assert_eq!(html, format!("{}\n<h1>empty</h1>\n<ul>\n</ul>\n</body>\n</html>", HEAD));
}

#[test]
fn same_tree_gives_same_document() {
    let one = vec![file("b.png"), file("a.mp4"), file("c.jpg")];
    let two = vec![file("c.jpg"), file("a.mp4"), file("b.png")];
    let first = build_index_html(&vec![get_media_entry("/x/al", &one)], "/x").unwrap();
    let second = build_index_html(&vec![get_media_entry("/x/al", &one)], "/x").unwrap();
    let third = build_index_html(&vec![get_media_entry("/x/al", &two)], "/x").unwrap();
    assert_eq!(first, second);
    assert_eq!(first, third);
}

#[test]
fn media_outside_base_is_an_error() {
    let e = get_media_entry("/elsewhere/al", &vec![file("a.png")]);
    assert_eq!(build_index_html(&vec![e], "/data"), Err(StripPrefixError));
    let v = get_media_entry("/elsewhere/al", &vec![file("a.mp4")]);
    assert_eq!(build_index_html(&vec![v], "/data"), Err(StripPrefixError));
}

#[test]
fn path_helpers() {
    assert_eq!(join_path("/data", "trip"), "/data/trip");
    assert_eq!(join_path("/data/", "trip"), "/data/trip");
    assert_eq!(join_path("", "trip"), "trip");
    assert_eq!(file_name_of("/data/trip1"), "trip1");
    assert_eq!(file_name_of("trip1"), "trip1");
    assert_eq!(file_name_of("/data/trip1/"), "trip1");
    assert_eq!(file_name_of("/data/trip1//"), "trip1");
    assert_eq!(file_name_of("a/."), "a");
    assert_eq!(file_name_of("a/.."), "");
    assert_eq!(file_name_of("/"), "");
    assert_eq!(file_name_of("."), "");
    assert_eq!(file_name_of("a/.b"), ".b");
    assert_eq!(find_last("a/b/c", '/'), Some(3));
    assert_eq!(find_last("abc", '/'), None);
    assert_eq!(index_html_path("/data"), "/data/index.html");
    assert_eq!(index_html_path("out/"), "out/index.html");
    assert!(same_chars("ab", "ab"));
    assert!(!same_chars("ab", "abc"));
}

#[test]
fn extensions() {
    assert_eq!(extension_of("a.png"), Some("png".to_string()));
    assert_eq!(extension_of("a.tar.gz"), Some("gz".to_string()));
    assert_eq!(extension_of("a."), Some("".to_string()));
    assert_eq!(extension_of(".png"), Some("png".to_string()));
    assert_eq!(extension_of(".."), Some("".to_string()));
    assert_eq!(extension_of("README"), None);
}

#[test]
fn lines_join_with_newlines() {
    assert_eq!(join_lines_exec(&strings(&[])), "");
    assert_eq!(join_lines_exec(&strings(&["a"])), "a");
    assert_eq!(join_lines_exec(&strings(&["a", "b", "c"])), "a\nb\nc");
}
