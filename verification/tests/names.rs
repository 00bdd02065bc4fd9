use std::cmp::Ordering;

use gacho::file::extension::Extension;
use gacho::file::number::{read_number, read_text};
use gacho::file::path::{extension, file_name, file_stem, parent, strip_prefix};
use gacho::file::{cmp_natural, is_archive, is_hidden_entry, is_image, sort_path};
use gacho::text::{str_equal, trim};

fn chars(s: &str) -> Vec<char> {
    s.chars().collect()
}

fn strings(v: &[&str]) -> Vec<String> {
    v.iter().map(|s| s.to_string()).collect()
}

#[test]
fn natural_order_compares_numbers_by_value() {
    assert_eq!(cmp_natural("page2", "page10"), Ordering::Less);
    assert_eq!(cmp_natural("page10", "page2"), Ordering::Greater);
    assert_eq!(cmp_natural("10", "9"), Ordering::Greater);
}

#[test]
fn natural_order_equal_and_prefix() {
    assert_eq!(cmp_natural("abc", "abc"), Ordering::Equal);
    assert_eq!(cmp_natural("", ""), Ordering::Equal);
    assert_eq!(cmp_natural("", "a"), Ordering::Less);
    assert_eq!(cmp_natural("a", ""), Ordering::Greater);
    assert_eq!(cmp_natural("file01", "file1"), Ordering::Equal);
}

#[test]
fn natural_order_text_runs() {
    assert_eq!(cmp_natural("a1b", "a1c"), Ordering::Less);
    assert_eq!(cmp_natural("abc1", "ab1"), Ordering::Greater);
    // a digit run against a text run: the text read from the digit side is empty
    assert_eq!(cmp_natural("1a", "a1"), Ordering::Less);
}

#[test]
fn natural_order_is_antisymmetric_on_samples() {
    let samples = ["", "a", "a1", "a01", "a2", "a10", "b", "10", "9", "x1y2", "x1y10"];
    for a in samples.iter() {
        for b in samples.iter() {
            assert_eq!(cmp_natural(a, b), cmp_natural(b, a).reverse());
        }
    }
}

#[test]
fn sort_path_orders_naturally() {
    let sorted = sort_path(&strings(&["b10.png", "b2.png", "a.png"]));
    assert_eq!(sorted, strings(&["a.png", "b2.png", "b10.png"]));
}

#[test]
fn sort_path_breaks_ties_by_text() {
    let sorted = sort_path(&strings(&["x1.png", "x01.png"]));
    assert_eq!(sorted, strings(&["x01.png", "x1.png"]));
}

#[test]
fn sort_path_keeps_every_path() {
    let input = strings(&["c/3.jpg", "c/1.jpg", "c/20.jpg", "c/2.jpg", "c/1.jpg"]);
    let sorted = sort_path(&input);
    assert_eq!(sorted, strings(&["c/1.jpg", "c/1.jpg", "c/2.jpg", "c/3.jpg", "c/20.jpg"]));
    assert!(sort_path(&Vec::new()).is_empty());
}

#[test]
fn read_number_reads_a_digit_run() {
    let c = chars("ab123cd");
    assert_eq!(read_number(&c, 2), (123, 5));
    assert_eq!(read_number(&c, 0), (0, 0));
    assert_eq!(read_number(&c, 7), (0, 7));
}

#[test]
fn read_number_wraps_on_overflow() {
    // 2^64 + 5 wraps to 5
    let c = chars("18446744073709551621");
    assert_eq!(read_number(&c, 0), (5, 20));
}

#[test]
fn read_text_reads_up_to_a_digit() {
    let c = chars("ab123cd");
    assert_eq!(read_text(&c, 0), 2);
    assert_eq!(read_text(&c, 2), 2);
    assert_eq!(read_text(&c, 5), 7);
}

#[test]
fn image_and_archive_extensions() {
    assert!(is_image("a/b.jpg"));
    assert!(is_image("a/b.JPG"));
    assert!(is_image("b.png"));
    assert!(!is_image("b.jpeg"));
    assert!(!is_image("b.zip"));
    assert!(!is_image("noext"));
    assert!(!is_image(".png"));
    assert!(is_archive("x.zip"));
    assert!(is_archive("x.CBZ"));
    assert!(!is_archive("x.rar"));
    assert!(!is_archive("x.png"));
}

#[test]
fn hidden_entries() {
    assert!(is_hidden_entry("a/.hidden/b.png"));
    assert!(is_hidden_entry("__MACOSX/a.png"));
    assert!(is_hidden_entry("dir/__MACOSX/a.png"));
    assert!(is_hidden_entry(".png"));
    assert!(!is_hidden_entry("a/b.png"));
    assert!(!is_hidden_entry("a/__MACOSX2/b.png"));
}

#[test]
fn extension_kinds() {
    assert_eq!(Extension::from_str("jpg"), Extension::Jpeg);
    assert_eq!(Extension::from_str("JPEG"), Extension::Jpeg);
    assert_eq!(Extension::from_str("Png"), Extension::Png);
    assert_eq!(Extension::from_str("zip"), Extension::Zip);
    assert_eq!(Extension::from_str("cbz"), Extension::Cbz);
    assert_eq!(Extension::from_str("gif"), Extension::Unknown);
    assert_eq!(Extension::from_str(""), Extension::Unknown);
    assert_eq!(Extension::Jpeg.to_str(), "jpg");
    assert_eq!(Extension::Unknown.to_str(), "");
    assert_eq!(Extension::to_image_vec(), vec!["jpg", "png"]);
    assert_eq!(Extension::to_archive_vec(), vec!["zip", "cbz"]);
}

#[test]
fn extension_round_trip() {
    for e in [Extension::Jpeg, Extension::Png, Extension::Zip, Extension::Cbz, Extension::Unknown] {
        assert_eq!(Extension::from_str(e.to_str()), e);
    }
}

#[test]
fn path_file_names() {
    assert_eq!(file_name("a/b.png"), Some("b.png".to_string()));
    assert_eq!(file_name("b.png"), Some("b.png".to_string()));
    assert_eq!(file_name("a/b/"), Some("b".to_string()));
    assert_eq!(file_name("a/b/."), Some("b".to_string()));
    assert_eq!(file_name("/"), None);
    assert_eq!(file_name(""), None);
    assert_eq!(file_name("a/.."), None);
}

#[test]
fn path_extensions_and_stems() {
    assert_eq!(extension("a/b.tar.gz"), Some("gz".to_string()));
    assert_eq!(extension("a/.hidden"), None);
    assert_eq!(extension("a/noext"), None);
    assert_eq!(extension("a/b."), Some("".to_string()));
    assert_eq!(file_stem("b.tar.gz"), "b.tar");
    assert_eq!(file_stem(".hidden"), ".hidden");
    assert_eq!(file_stem("plain"), "plain");
}

#[test]
fn path_parents() {
    assert_eq!(parent("a/b/c.png"), Some("a/b".to_string()));
    assert_eq!(parent("c.png"), Some("".to_string()));
    assert_eq!(parent("/c.png"), Some("/".to_string()));
    assert_eq!(parent("/"), None);
    assert_eq!(parent(""), None);
    assert_eq!(parent("a//b"), Some("a".to_string()));
}

#[test]
fn path_prefixes() {
    assert_eq!(strip_prefix("a/b/c.png", "a/b"), Some("c.png".to_string()));
    assert_eq!(strip_prefix("a/b/c.png", "a/b/"), Some("c.png".to_string()));
    assert_eq!(strip_prefix("a/bc/d.png", "a/b"), None);
    assert_eq!(strip_prefix("a/b", "a/b"), Some("".to_string()));
    assert_eq!(strip_prefix("x/y", ""), Some("x/y".to_string()));
    assert_eq!(strip_prefix("x/y/", ""), Some("x/y".to_string()));
    assert_eq!(strip_prefix("/", ""), Some("/".to_string()));
    assert_eq!(strip_prefix("a/./sub/x.jpg", "a"), Some("sub/x.jpg".to_string()));
    assert_eq!(strip_prefix("a/sub/./x.jpg", "a"), Some("sub/./x.jpg".to_string()));
    assert_eq!(strip_prefix("a//b", "a"), Some("b".to_string()));
    assert_eq!(strip_prefix("a/b/./", "a"), Some("b".to_string()));
    assert_eq!(strip_prefix("/a/b", "/"), Some("a/b".to_string()));
    assert_eq!(strip_prefix("./a", "."), Some("a".to_string()));
    assert_eq!(strip_prefix("/a", "a"), None);
    assert_eq!(strip_prefix("a/./b/c", "a/b"), Some("c".to_string()));
}

#[test]
fn text_helpers() {
    assert_eq!(trim("  title \n"), "title");
    assert_eq!(trim(""), "");
    assert_eq!(trim("\u{3000}title\u{00A0}\t"), "title");
    assert_eq!(trim("\u{200B}x"), "\u{200B}x");
    assert_eq!(trim(" a b "), "a b");
    assert_eq!(gacho::text::concat("ab", "cd"), "abcd");
    assert!(str_equal("x", "x"));
    assert!(!str_equal("x", "y"));
}

#[test]
fn sort_path_breaks_ties_by_path() {
    // natural order finds these equal; path order puts the shorter part first
    let sorted = sort_path(&strings(&["a1/b.png", "a01/b.png"]));
    assert_eq!(sorted, strings(&["a01/b.png", "a1/b.png"]));
}
