use sanity::fs::Timestamp;
use sanity::minify::Type;
use sanity::order::{bytes_le, sort_paths};
use sanity::walk::{
    classify, minify_kind, process_file, with_css, Action, Entry, Kind, WalkError, Walker,
};

const OLD: Timestamp = Timestamp { secs: 10, nanos: 0 };
const NEW: Timestamp = Timestamp { secs: 20, nanos: 0 };

fn file(changed: Timestamp, output_changed: Option<Timestamp>) -> Entry {
    Entry::File { changed, output_changed }
}

fn paths(names: &[&str]) -> Vec<Vec<u8>> {
    names.iter().map(|n| n.as_bytes().to_vec()).collect()
}

#[test]
fn classify_goes_by_the_extension() {
    assert_eq!(classify(b"/w/index.html.j2", false), Kind::Template);
    assert_eq!(classify(b"/w/main.scss", false), Kind::Stylesheet);
    assert_eq!(classify(b"/w/site.lua", false), Kind::Script);
    assert_eq!(classify(b"/w/app.js", false), Kind::Asset);
    assert_eq!(classify(b"/w/logo.png", false), Kind::Asset);
    assert_eq!(classify(b"/w/page.html", false), Kind::Asset);
}

#[test]
fn classify_is_total() {
    assert_eq!(classify(b"", false), Kind::Asset);
    assert_eq!(classify(b"/w/README", false), Kind::Asset);
    assert_eq!(classify(b"/w/.j2", false), Kind::Asset);
    assert_eq!(classify(b"/w/a.b.c.d.lua", false), Kind::Script);
    assert_eq!(classify(b"/w/a.lua.bak", false), Kind::Asset);
    assert_eq!(classify(b"/w/a.J2", false), Kind::Asset);
    assert_eq!(classify(b"/w/j2", false), Kind::Asset);
}

#[test]
fn classify_takes_the_file_systems_word_for_a_directory() {
    assert_eq!(classify(b"/w/posts", true), Kind::Directory);
    assert_eq!(classify(b"/w/odd.j2", true), Kind::Directory);
}

#[test]
fn minify_kind_knows_pages_and_scripts() {
    assert_eq!(minify_kind(b"/w/a.js"), Some(Type::Js));
    assert_eq!(minify_kind(b"/w/a.html"), Some(Type::Html));
    assert_eq!(minify_kind(b"/w/a.css"), None);
    assert_eq!(minify_kind(b"/w/a"), None);
}

#[test]
fn with_css_replaces_the_extension() {
    assert_eq!(with_css(b"/d/css/main.scss".to_vec()), b"/d/css/main.css".to_vec());
    assert_eq!(with_css(b"/d/main".to_vec()), b"/d/main.css".to_vec());
    assert_eq!(with_css(b"/d/a.b.scss".to_vec()), b"/d/a.b.css".to_vec());
}

#[test]
fn a_template_is_collected_hidden_or_not() {
    let a = process_file(b"/w/index.html.j2", b"/w", b"/d/index.html.j2".to_vec(), NEW, None);
    assert!(matches!(a, Ok(Action::Collect { name }) if name == "index.html"));
    let a = process_file(b"/w/_base.html.j2", b"/w", b"/d/_base.html.j2".to_vec(), NEW, None);
    assert!(matches!(a, Ok(Action::Collect { name }) if name == "_base.html"));
}

#[test]
fn a_stylesheet_is_compiled_into_a_css_file() {
    let a = process_file(b"/w/css/main.scss", b"/w", b"/d/css/main.scss".to_vec(), NEW, None);
    assert!(matches!(
        a,
        Ok(Action::Compile { dest, load_path }) if dest == b"/d/css/main.css" && load_path == b"/w"
    ));
}

#[test]
fn a_hidden_stylesheet_gets_no_output() {
    let a = process_file(b"/w/css/_base.scss", b"/w", b"/d/css/_base.scss".to_vec(), NEW, None);
    assert!(matches!(a, Ok(Action::Nothing)));
}

#[test]
fn a_script_is_run_unless_hidden() {
    let a = process_file(b"/w/site.lua", b"/w", b"/d/site.lua".to_vec(), NEW, None);
    assert!(matches!(a, Ok(Action::Execute)));
    let a = process_file(b"/w/_lib.lua", b"/w", b"/d/_lib.lua".to_vec(), NEW, None);
    assert!(matches!(a, Ok(Action::Nothing)));
}

#[test]
fn an_asset_is_copied() {
    let a = process_file(b"/w/img/logo.png", b"/w", b"/d/img/logo.png".to_vec(), NEW, Some(OLD));
    assert!(matches!(a, Ok(Action::Copy { dest }) if dest == b"/d/img/logo.png"));
    let a = process_file(b"/w/LICENSE", b"/w", b"/d/LICENSE".to_vec(), NEW, None);
    assert!(matches!(a, Ok(Action::Copy { dest }) if dest == b"/d/LICENSE"));
}

#[test]
fn a_hidden_asset_gets_no_output() {
    let a = process_file(b"/w/_data.json", b"/w", b"/d/_data.json".to_vec(), NEW, None);
    assert!(matches!(a, Ok(Action::Nothing)));
    let a = process_file(b"/w/_x.js", b"/w", b"/d/_x.js".to_vec(), NEW, None);
    assert!(matches!(a, Ok(Action::Nothing)));
}

#[test]
fn a_page_or_script_is_made_smaller_when_its_output_is_stale() {
    let a = process_file(b"/w/app.js", b"/w", b"/d/app.js".to_vec(), NEW, None);
    assert!(matches!(a, Ok(Action::Minify { dest, kind: Type::Js }) if dest == b"/d/app.js"));
    let a = process_file(b"/w/p.html", b"/w", b"/d/p.html".to_vec(), NEW, Some(OLD));
    assert!(matches!(a, Ok(Action::Minify { dest, kind: Type::Html }) if dest == b"/d/p.html"));
}

#[test]
fn a_page_or_script_is_copied_when_its_output_is_fresh() {
    let a = process_file(b"/w/app.js", b"/w", b"/d/app.js".to_vec(), OLD, Some(NEW));
    assert!(matches!(a, Ok(Action::Copy { dest }) if dest == b"/d/app.js"));
    let a = process_file(b"/w/p.html", b"/w", b"/d/p.html".to_vec(), NEW, Some(NEW));
    assert!(matches!(a, Ok(Action::Copy { dest }) if dest == b"/d/p.html"));
}

#[test]
fn bytes_le_orders_like_a_dictionary() {
    assert!(bytes_le(b"", b""));
    assert!(bytes_le(b"", b"a"));
    assert!(!bytes_le(b"a", b""));
    assert!(bytes_le(b"a", b"ab"));
    assert!(!bytes_le(b"ab", b"a"));
    assert!(bytes_le(b"ab", b"b"));
    assert!(bytes_le(b"B", b"a"));
    assert!(!bytes_le(b"a", b"B"));
    assert!(bytes_le(b"a-b", b"a/b"));
    assert!(bytes_le(b"a\x7f", b"a\x80"));
    assert!(bytes_le(b"abc", b"abc"));
}

#[test]
fn sort_paths_sorts_by_bytes() {
    let sorted = sort_paths(paths(&["/w/b", "/w/a", "/w/B", "/w/a.txt", "/w/_z", "/w/10", "/w/9"]));
    assert_eq!(sorted, paths(&["/w/10", "/w/9", "/w/B", "/w/_z", "/w/a", "/w/a.txt", "/w/b"]));
}

#[test]
fn sort_paths_keeps_every_path() {
    assert_eq!(sort_paths(Vec::new()), Vec::<Vec<u8>>::new());
    assert_eq!(sort_paths(paths(&["x"])), paths(&["x"]));
    assert_eq!(sort_paths(paths(&["b", "a", "b", "a"])), paths(&["a", "a", "b", "b"]));
}

#[test]
fn sort_paths_agrees_with_the_order_of_byte_strings() {
    let listed = paths(&["/w/zeta", "/w/Alpha", "/w/beta/", "/w/beta", "/w/\u{e9}", "/w/e", "/w/~"]);
    let mut expected = listed.clone();
    expected.sort();
    assert_eq!(sort_paths(listed), expected);
}

#[test]
fn the_walk_starts_at_the_source_tree() {
    let mut walker = Walker::new(b"/s/www".to_vec(), b"/s/dist".to_vec());
    assert_eq!(walker.next(), Some(b"/s/www".to_vec()));
    assert_eq!(walker.next(), None);
    assert_eq!(walker.next(), None);
}

#[test]
fn the_walk_enters_a_directory_by_making_its_mirror() {
    let mut walker = Walker::new(b"/s/www".to_vec(), b"/s/dist".to_vec());
    let a = walker.enter(b"/s/www", Entry::Directory);
    assert!(matches!(a, Ok(Action::Descend { dest }) if dest == b"/s/dist/"));
    let a = walker.enter(b"/s/www/blog/2024", Entry::Directory);
    assert!(matches!(a, Ok(Action::Descend { dest }) if dest == b"/s/dist/blog/2024"));
}

#[test]
fn the_walk_stops_outside_the_source_tree() {
    let mut walker = Walker::new(b"/s/www".to_vec(), b"/s/dist".to_vec());
    assert!(matches!(walker.enter(b"/etc/passwd", file(NEW, None)), Err(WalkError::Outside)));
    assert!(matches!(walker.enter(b"/etc", Entry::Directory), Err(WalkError::Outside)));
    assert!(!walker.is_processed(b"/etc/passwd"));
}

#[test]
fn the_walk_stops_at_a_template_whose_name_is_no_text() {
    let mut walker = Walker::new(b"/s/www".to_vec(), b"/s/dist".to_vec());
    let a = walker.enter(b"/s/www/\xff.j2", file(NEW, None));
    assert!(matches!(a, Err(WalkError::NotText)));
    assert!(walker.is_processed(b"/s/www/\xff.j2"));
}

#[test]
fn the_walk_handles_a_file_once() {
    let mut walker = Walker::new(b"/s/www".to_vec(), b"/s/dist".to_vec());
    assert!(!walker.is_processed(b"/s/www/a.png"));
    let first = walker.enter(b"/s/www/a.png", file(NEW, None));
    assert!(matches!(first, Ok(Action::Copy { dest }) if dest == b"/s/dist/a.png"));
    assert!(walker.is_processed(b"/s/www/a.png"));
    let second = walker.enter(b"/s/www/a.png", file(NEW, None));
    assert!(matches!(second, Ok(Action::Skip)));
    assert!(!walker.is_processed(b"/s/www/b.png"));
}

#[test]
fn the_walk_enters_a_directory_again() {
    let mut walker = Walker::new(b"/s/www".to_vec(), b"/s/dist".to_vec());
    assert!(matches!(walker.enter(b"/s/www/d", Entry::Directory), Ok(Action::Descend { .. })));
    assert!(matches!(walker.enter(b"/s/www/d", Entry::Directory), Ok(Action::Descend { .. })));
    assert!(!walker.is_processed(b"/s/www/d"));
}

#[test]
fn the_walk_goes_depth_first_in_the_order_of_the_bytes() {
    let mut walker = Walker::new(b"/w".to_vec(), b"/d".to_vec());
    let mut visited: Vec<Vec<u8>> = Vec::new();
    while let Some(path) = walker.next() {
        let listed = match path.as_slice() {
            b"/w" => Some(paths(&["/w/c.lua", "/w/a", "/w/b.lua", "/w/Z.txt"])),
            b"/w/a" => Some(paths(&["/w/a/2.lua", "/w/a/1.lua", "/w/a/sub"])),
            b"/w/a/sub" => Some(paths(&["/w/a/sub/x"])),
            _ => None,
        };
        match listed {
            Some(entries) => {
                assert!(matches!(walker.enter(&path, Entry::Directory), Ok(Action::Descend { .. })));
                walker.children(entries);
            }
            None => {
                walker.enter(&path, file(NEW, None)).unwrap();
            }
        }
        visited.push(path);
    }
    assert_eq!(
        visited,
        paths(&[
            "/w",
            "/w/Z.txt",
            "/w/a",
            "/w/a/1.lua",
            "/w/a/2.lua",
            "/w/a/sub",
            "/w/a/sub/x",
            "/w/b.lua",
            "/w/c.lua"
        ])
    );
}

#[test]
fn the_walk_of_an_empty_directory_goes_on_with_what_was_waiting() {
    let mut walker = Walker::new(b"/w".to_vec(), b"/d".to_vec());
    assert_eq!(walker.next(), Some(b"/w".to_vec()));
    walker.children(paths(&["/w/b", "/w/a"]));
    assert_eq!(walker.next(), Some(b"/w/a".to_vec()));
    walker.children(Vec::new());
    assert_eq!(walker.next(), Some(b"/w/b".to_vec()));
    assert_eq!(walker.next(), None);
}
