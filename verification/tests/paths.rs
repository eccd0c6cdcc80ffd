use sanity::fs::{is_stale, more_recent_than, PathExt, Timestamp};
use sanity::fsutil::{
    assemble, bytes_eq, extension_of_path, file_name_of, find_last, has_extension,
    is_underscored, only_names, parent_of, replace_extension, split,
};
use sanity::paths::{dist, join, mirror, place_within, strip_prefix, www};

#[test]
fn find_last_finds_the_last_occurrence() {
    assert_eq!(find_last(b"a/b/c", b'/'), Some(3));
    assert_eq!(find_last(b"abc", b'/'), None);
    assert_eq!(find_last(b"", b'/'), None);
    assert_eq!(find_last(b"/", b'/'), Some(0));
}

fn parts(names: &[&str]) -> Vec<Vec<u8>> {
    names.iter().map(|n| n.as_bytes().to_vec()).collect()
}

#[test]
fn split_gives_the_components() {
    assert_eq!(split(b"/site/www/index.html"), parts(&["site", "www", "index.html"]));
    assert_eq!(split(b"a/b"), parts(&["a", "b"]));
    assert_eq!(split(b"a"), parts(&["a"]));
}

#[test]
fn split_leaves_out_empty_components_and_dots() {
    assert_eq!(split(b"/site/www//blog/./post.j2"), parts(&["site", "www", "blog", "post.j2"]));
    assert_eq!(split(b"//a///b//"), parts(&["a", "b"]));
    assert_eq!(split(b"./a/."), parts(&["a"]));
    assert_eq!(split(b"a/../b"), parts(&["a", "..", "b"]));
    assert_eq!(split(b".../.a/a."), parts(&["...", ".a", "a."]));
    assert_eq!(split(b""), parts(&[]));
    assert_eq!(split(b"/"), parts(&[]));
    assert_eq!(split(b"."), parts(&[]));
    assert_eq!(split(b"././/"), parts(&[]));
}

#[test]
fn assemble_puts_one_separator_between() {
    assert_eq!(assemble(true, &parts(&["a", "b", "c"])), b"/a/b/c".to_vec());
    assert_eq!(assemble(false, &parts(&["a", "b"])), b"a/b".to_vec());
    assert_eq!(assemble(false, &parts(&["a"])), b"a".to_vec());
    assert_eq!(assemble(true, &parts(&[])), b"/".to_vec());
    assert_eq!(assemble(false, &parts(&[])), b"".to_vec());
}

#[test]
fn split_and_assemble_normalise_a_path() {
    let comps = split(b"/site//www/./x/");
    assert_eq!(assemble(true, &comps), b"/site/www/x".to_vec());
}

#[test]
fn file_name_is_the_last_component() {
    assert_eq!(file_name_of(b"/site/www/index.html"), Some(b"index.html".to_vec()));
    assert_eq!(file_name_of(b"index.html"), Some(b"index.html".to_vec()));
    assert_eq!(file_name_of(b"/a/_b/"), Some(b"_b".to_vec()));
    assert_eq!(file_name_of(b"/a/b/."), Some(b"b".to_vec()));
    assert_eq!(file_name_of(b"/a/b//"), Some(b"b".to_vec()));
}

#[test]
fn some_paths_have_no_file_name() {
    assert_eq!(file_name_of(b""), None);
    assert_eq!(file_name_of(b"/"), None);
    assert_eq!(file_name_of(b".."), None);
    assert_eq!(file_name_of(b"/a/.."), None);
    assert_eq!(file_name_of(b"."), None);
}

#[test]
fn hidden_files_start_with_an_underscore() {
    assert!(is_underscored(b"/site/www/_base.scss"));
    assert!(is_underscored(b"_partial.html.j2"));
    assert!(!is_underscored(b"/site/www/main.scss"));
    assert!(!is_underscored(b"/site/_www/main.scss"));
    assert!(!is_underscored(b"/site/www/a_b"));
    assert!(!is_underscored(b""));
    assert!(!is_underscored(b"/site/www/"));
    assert!(!is_underscored(b"/site/www/_partials/main.scss"));
}

#[test]
fn hidden_goes_by_the_last_component_whatever_follows_it() {
    assert!(is_underscored(b"/a/_b/"));
    assert!(is_underscored(b"/a/_b//"));
    assert!(is_underscored(b"/a/_b/."));
    assert!(is_underscored(b"_"));
    assert!(!is_underscored(b"/a/_b/c/"));
}

#[test]
fn paths_without_a_file_name_are_not_hidden() {
    assert!(!is_underscored(b"/"));
    assert!(!is_underscored(b".."));
    assert!(!is_underscored(b""));
    assert!(!is_underscored(b"/_a/.."));
}

#[test]
fn a_name_that_is_no_text_is_not_hidden() {
    assert!(!is_underscored(b"/a/_\xff"));
    assert!(!is_underscored(b"/a/_b\xc3"));
    assert!(is_underscored("/a/_caf\u{e9}".as_bytes()));
}

#[test]
fn extension_is_what_follows_the_last_dot_of_the_name() {
    assert_eq!(extension_of_path(b"index.html"), Some(b"html".to_vec()));
    assert_eq!(extension_of_path(b"/a/index.html.j2"), Some(b"j2".to_vec()));
    assert_eq!(extension_of_path(b"/a.b/index"), None);
    assert_eq!(extension_of_path(b".hidden"), None);
    assert_eq!(extension_of_path(b"/a/.hidden"), None);
    assert_eq!(extension_of_path(b"name."), Some(Vec::new()));
    assert_eq!(extension_of_path(b""), None);
    assert_eq!(extension_of_path(b"/a/b.css/"), Some(b"css".to_vec()));
    assert_eq!(extension_of_path(b"/a/b.css/.."), None);
}

#[test]
fn replace_extension_puts_a_new_one_on_the_file_name() {
    assert_eq!(replace_extension(b"/d/css/main.scss", b"css"), b"/d/css/main.css".to_vec());
    assert_eq!(replace_extension(b"main", b"css"), b"main.css".to_vec());
    assert_eq!(replace_extension(b"/d/.profile", b"css"), b"/d/.profile.css".to_vec());
    assert_eq!(replace_extension(b"/d/a.b.scss/", b"css"), b"/d/a.b.css".to_vec());
    assert_eq!(replace_extension(b"/", b"css"), b"/".to_vec());
    assert_eq!(replace_extension(b"/a/..", b"css"), b"/a/..".to_vec());
}

#[test]
fn has_extension_compares_the_whole_extension() {
    assert!(has_extension(b"a/b.html", b"html"));
    assert!(!has_extension(b"a/b.xhtml", b"html"));
    assert!(!has_extension(b"a/b.htm", b"html"));
    assert!(!has_extension(b"a/html", b"html"));
    assert!(has_extension(b"a/b.tar.gz", b"gz"));
    assert!(has_extension(b"a/b.", b""));
    assert!(!has_extension(b"a/b", b""));
}

#[test]
fn bytes_eq_is_equality() {
    assert!(bytes_eq(b"", b""));
    assert!(bytes_eq(b"abc", b"abc"));
    assert!(!bytes_eq(b"abc", b"abd"));
    assert!(!bytes_eq(b"abc", b"ab"));
}

#[test]
fn parent_is_the_directory_of_the_file() {
    assert_eq!(parent_of(b"/site/dist/about/team.html"), Some(b"/site/dist/about".to_vec()));
    assert_eq!(parent_of(b"/index.html"), Some(b"/".to_vec()));
    assert_eq!(parent_of(b"index.html"), Some(b"".to_vec()));
    assert_eq!(parent_of(b"/site/dist/about/"), Some(b"/site/dist".to_vec()));
    assert_eq!(parent_of(b"/site//dist/./about"), Some(b"/site/dist".to_vec()));
    assert_eq!(parent_of(b"/"), None);
    assert_eq!(parent_of(b""), None);
}

#[test]
fn join_puts_one_separator_between() {
    assert_eq!(join(b"/site/dist", b"about/team.html"), b"/site/dist/about/team.html".to_vec());
    assert_eq!(join(b"/site/dist/", b"index.html"), b"/site/dist/index.html".to_vec());
    assert_eq!(join(b"/site/dist", b""), b"/site/dist/".to_vec());
    assert_eq!(join(b"", b"index.html"), b"index.html".to_vec());
}

#[test]
fn join_lets_an_absolute_path_stand() {
    assert_eq!(join(b"/site/dist", b"/elsewhere/x"), b"/elsewhere/x".to_vec());
}

#[test]
fn strip_prefix_gives_the_path_as_seen_from_the_root() {
    assert_eq!(strip_prefix(b"/site/www/a/b.html", b"/site/www"), Some(parts(&["a", "b.html"])));
    assert_eq!(strip_prefix(b"/site/www/a/b.html", b"/site/www/"), Some(parts(&["a", "b.html"])));
    assert_eq!(strip_prefix(b"/site/www", b"/site/www"), Some(parts(&[])));
    assert_eq!(strip_prefix(b"a/b", b""), Some(parts(&["a", "b"])));
    assert_eq!(strip_prefix(b"/site//www/./a//b", b"/site/www"), Some(parts(&["a", "b"])));
    assert_eq!(strip_prefix(b"/site/www/../x", b"/site/www"), Some(parts(&["..", "x"])));
}

#[test]
fn strip_prefix_wants_whole_components() {
    assert_eq!(strip_prefix(b"/site/www2/a", b"/site/www"), None);
    assert_eq!(strip_prefix(b"/other/a", b"/site/www"), None);
    assert_eq!(strip_prefix(b"/site", b"/site/www"), None);
    assert_eq!(strip_prefix(b"site/www/a", b"/site/www"), None);
    assert_eq!(strip_prefix(b"/site/www/a", b"site/www"), None);
}

#[test]
fn strip_prefix_undoes_join() {
    let root: &[u8] = b"/site/www";
    for rel in [&b"index.html.j2"[..], b"about/team.html", b"a/b/c", b"", b"a//b/./c/"] {
        let joined = join(root, rel);
        assert_eq!(strip_prefix(&joined, root), Some(split(rel)));
    }
}

#[test]
fn mirror_moves_a_path_to_the_other_tree() {
    assert_eq!(
        mirror(b"/site/www/css/main.scss", b"/site/www", b"/site/dist"),
        Some(b"/site/dist/css/main.scss".to_vec())
    );
    assert_eq!(mirror(b"/site/www", b"/site/www", b"/site/dist"), Some(b"/site/dist/".to_vec()));
    assert_eq!(mirror(b"/tmp/x", b"/site/www", b"/site/dist"), None);
    assert_eq!(
        mirror(b"/site/www//css/./main.scss", b"/site/www/", b"/site/dist"),
        Some(b"/site/dist/css/main.scss".to_vec())
    );
}

#[test]
fn the_two_trees_lie_in_the_root() {
    assert_eq!(www(b"/site"), b"/site/www".to_vec());
    assert_eq!(dist(b"/site"), b"/site/dist".to_vec());
    assert_eq!(www(b"/"), b"/www".to_vec());
    assert_eq!(dist(b""), b"dist".to_vec());
}

#[test]
fn path_ext_reads_the_extension_as_text() {
    assert_eq!(b"/a/index.html.j2"[..].extension_str(), Some("j2".to_string()));
    assert_eq!(b"/a/index"[..].extension_str(), None);
    assert_eq!(b"/a/.profile"[..].extension_str(), None);
    assert_eq!(b"/a/name."[..].extension_str(), Some(String::new()));
}

#[test]
fn path_ext_gives_no_extension_that_is_not_text() {
    assert_eq!(b"/a/file.\xff\xfe"[..].extension_str(), None);
}

#[test]
fn path_ext_agrees_with_the_free_functions() {
    let path: &[u8] = b"/site/www/_partials/_head.html.j2";
    assert!(path.is_underscored());
    assert_eq!(path.template_name(b"/site/www"), Ok("_partials/_head.html".to_string()));
    assert!(!b"/site/www/x.css"[..].is_underscored());
}

#[test]
fn an_absent_output_is_stale() {
    let source = Timestamp { secs: 100, nanos: 0 };
    assert!(is_stale(source, None));
    assert!(!more_recent_than(source, None));
}

#[test]
fn an_older_output_is_stale() {
    let source = Timestamp { secs: 100, nanos: 500 };
    assert!(is_stale(source, Some(Timestamp { secs: 99, nanos: 999_999_999 })));
    assert!(is_stale(source, Some(Timestamp { secs: 100, nanos: 499 })));
    assert!(!more_recent_than(source, Some(Timestamp { secs: 100, nanos: 499 })));
}

#[test]
fn an_output_as_new_as_its_source_or_newer_is_kept() {
    let source = Timestamp { secs: 100, nanos: 500 };
    assert!(!is_stale(source, Some(Timestamp { secs: 100, nanos: 500 })));
    assert!(!is_stale(source, Some(Timestamp { secs: 100, nanos: 501 })));
    assert!(!is_stale(source, Some(Timestamp { secs: 101, nanos: 0 })));
    assert!(more_recent_than(source, Some(Timestamp { secs: 100, nanos: 500 })));
    assert!(!is_stale(
        Timestamp { secs: -5, nanos: 0 },
        Some(Timestamp { secs: -5, nanos: 0 })
    ));
}

#[test]
fn timestamps_order_by_seconds_then_nanoseconds() {
    let a = Timestamp { secs: 1, nanos: 900 };
    let b = Timestamp { secs: 2, nanos: 0 };
    assert!(a.before(&b));
    assert!(!b.before(&a));
    assert!(!a.before(&a));
}

#[test]
fn times_after_1970_are_taken_as_they_are() {
    assert_eq!(Timestamp::after_epoch(0, 0), Some(Timestamp { secs: 0, nanos: 0 }));
    assert_eq!(
        Timestamp::after_epoch(1_700_000_000, 123_456_789),
        Some(Timestamp { secs: 1_700_000_000, nanos: 123_456_789 })
    );
    assert_eq!(
        Timestamp::after_epoch(i64::MAX as u64, 999_999_999),
        Some(Timestamp { secs: i64::MAX, nanos: 999_999_999 })
    );
}

#[test]
fn times_before_1970_count_their_nanoseconds_forward() {
    assert_eq!(Timestamp::before_epoch(0, 0), Some(Timestamp { secs: 0, nanos: 0 }));
    assert_eq!(Timestamp::before_epoch(5, 0), Some(Timestamp { secs: -5, nanos: 0 }));
    assert_eq!(
        Timestamp::before_epoch(0, 1),
        Some(Timestamp { secs: -1, nanos: 999_999_999 })
    );
    assert_eq!(
        Timestamp::before_epoch(5, 250_000_000),
        Some(Timestamp { secs: -6, nanos: 750_000_000 })
    );
}

#[test]
fn times_that_cannot_be_held_are_refused() {
    assert_eq!(Timestamp::after_epoch(i64::MAX as u64 + 1, 0), None);
    assert_eq!(Timestamp::after_epoch(0, 1_000_000_000), None);
    assert_eq!(Timestamp::before_epoch(i64::MAX as u64, 0), None);
    assert_eq!(Timestamp::before_epoch(0, 1_000_000_000), None);
    assert_eq!(Timestamp::before_epoch(u64::MAX, 5), None);
}

#[test]
fn a_time_before_1970_lies_before_one_after() {
    let before = Timestamp::before_epoch(0, 1).unwrap();
    let at = Timestamp::after_epoch(0, 0).unwrap();
    let after = Timestamp::after_epoch(0, 1).unwrap();
    assert!(before.before(&at));
    assert!(at.before(&after));
    assert!(before.before(&after));
    assert!(!after.before(&before));
}

#[test]
fn only_names_leaves_out_steps_up() {
    assert_eq!(only_names(&parts(&["a", "..", "b", ".", "", "c"])), parts(&["a", "b", "c"]));
    assert_eq!(only_names(&parts(&["..", ".."])), parts(&[]));
    assert_eq!(only_names(&parts(&["...", "..a"])), parts(&["...", "..a"]));
}

#[test]
fn place_within_stays_under_the_tree() {
    assert_eq!(place_within(b"/s/dist", b"about/team.html"), b"/s/dist/about/team.html".to_vec());
    assert_eq!(place_within(b"/s/dist", b"/etc/passwd"), b"/s/dist/etc/passwd".to_vec());
    assert_eq!(place_within(b"/s/dist", b"../../etc/passwd"), b"/s/dist/etc/passwd".to_vec());
    assert_eq!(place_within(b"/s/dist", b"a//b/./c/"), b"/s/dist/a/b/c".to_vec());
    assert_eq!(place_within(b"/s/dist/", b"x"), b"/s/dist/x".to_vec());
    assert_eq!(place_within(b"/s/dist", b""), b"/s/dist/".to_vec());
}
