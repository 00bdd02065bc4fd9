use gacho::app::{CoverLayout, PageLayout, ReadFrom};
use gacho::file::book::{Book, DirEntry, EntryKind, Listing, Loaded, TargetKind};
use gacho::file::open_file::{OpenFile, Spread, Turn};
use gacho::file::OpenFiles;
use gacho::{App, GachoError};

fn entry(path: &str, kind: EntryKind) -> DirEntry {
    DirEntry { path: path.to_string(), kind }
}

/// Loads the files a book opened from `path` is read from, as the
/// application does: `kind` and `listing` describe the folder scanned, and
/// every image file is `dims` wide and high unless it is in `landscape`.
fn load(book: &mut Book, path: &str, kind: EntryKind, listing: Listing, landscape: &[&str]) -> Option<GachoError> {
    let root = Book::scan_root(path).expect("a root");
    let base = Book::base_dir(path);
    let (targets, err) = Book::find_file(&root, &kind, &listing);
    for t in targets.iter() {
        let loaded = match book.target_kind(t) {
            TargetKind::Image => {
                if landscape.contains(&t.as_str()) {
                    Loaded::Image(Ok((200, 100)))
                } else {
                    Loaded::Image(Ok((100, 200)))
                }
            }
            TargetKind::Archive => Loaded::Archive(Err("no archive here".to_string())),
            TargetKind::Skip => Loaded::Nothing,
        };
        if let Err(e) = book.image_new(t, &base, loaded) {
            return Some(e);
        }
    }
    err
}

fn folder(names: &[&str]) -> Listing {
    let mut es = Vec::new();
    for n in names {
        if n.ends_with('/') {
            es.push(entry(n.trim_end_matches('/'), EntryKind::Dir));
        } else {
            es.push(entry(n, EntryKind::File));
        }
    }
    Listing::Entries(es)
}

fn five_pages() -> Listing {
    folder(&["dir/5.png", "dir/3.png", "dir/1.png", "dir/sub/", "dir/notes.txt", "dir/4.png", "dir/2.png"])
}

fn open(path: &str, listing: Listing, landscape: &[&str]) -> OpenFile {
    let mut of = OpenFile::new();
    assert!(load(of.book_mut(), path, EntryKind::Dir, listing, landscape).is_none());
    let lib_listing = five_pages();
    let opened = of.open_book(path, true, &EntryKind::Dir, &lib_listing).unwrap();
    assert!(opened);
    of
}

#[test]
fn scan_root_and_base_dir() {
    assert_eq!(Book::scan_root("a/b/1.png"), Some("a/b".to_string()));
    assert_eq!(Book::scan_root("a/b"), Some("a/b".to_string()));
    assert_eq!(Book::scan_root("a/book.zip"), Some("a/book.zip".to_string()));
    assert_eq!(Book::base_dir("a/b/1.png"), "a/b");
    assert_eq!(Book::base_dir("a"), "");
}

#[test]
fn find_file_lists_files_of_a_folder() {
    let listing = folder(&["d/1.png", "d/sub/", "d/x.txt"]);
    let (targets, err) = Book::find_file("d", &EntryKind::Dir, &listing);
    assert_eq!(targets, vec!["d/1.png".to_string(), "d/x.txt".to_string()]);
    assert!(err.is_none());
    let (targets, err) = Book::find_file("d/1.png", &EntryKind::File, &Listing::Entries(Vec::new()));
    assert_eq!(targets, vec!["d/1.png".to_string()]);
    assert!(err.is_none());
}

#[test]
fn find_file_stops_at_a_broken_entry() {
    let listing = Listing::Entries(vec![
        entry("d/1.png", EntryKind::File),
        entry("d/2.png", EntryKind::Broken("denied".to_string())),
        entry("d/3.png", EntryKind::File),
    ]);
    let (targets, err) = Book::find_file("d", &EntryKind::Dir, &listing);
    assert_eq!(targets, vec!["d/1.png".to_string()]);
    match err {
        Some(GachoError::FileError(m, p)) => {
            assert_eq!(m, "denied");
            assert_eq!(p, "d");
        }
        _ => panic!("expected a file error"),
    }
    let (targets, err) = Book::find_file("d", &EntryKind::Dir, &Listing::Unreadable("gone".to_string()));
    assert!(targets.is_empty());
    assert!(matches!(err, Some(GachoError::FileError(_, _))));
    let (targets, err) = Book::find_file("d", &EntryKind::Unreadable("no".to_string()), &Listing::Entries(Vec::new()));
    assert!(targets.is_empty());
    assert!(matches!(err, Some(GachoError::FileError(_, _))));
}

#[test]
fn target_kinds() {
    let mut book = Book::new();
    assert_eq!(book.target_kind("a/b.zip"), TargetKind::Archive);
    assert_eq!(book.target_kind("a/b.png"), TargetKind::Image);
    assert_eq!(book.target_kind("a/b.txt"), TargetKind::Skip);
    book.image_new("a/b.png", "a", Loaded::Image(Ok((1, 1)))).unwrap();
    // once the book has an image, archives are skipped
    assert_eq!(book.target_kind("a/c.cbz"), TargetKind::Skip);
}

#[test]
fn image_new_reports_unreadable_images() {
    let mut book = Book::new();
    let r = book.image_new("a/b.png", "a", Loaded::Image(Err("bad header".to_string())));
    match r {
        Err(GachoError::FileError(m, p)) => {
            assert_eq!(m, "bad header");
            assert_eq!(p, "a/b.png");
        }
        _ => panic!("expected a file error"),
    }
    assert_eq!(book.len(), 0);
}

#[test]
fn image_new_reports_unreadable_archives() {
    let mut book = Book::new();
    let r = book.image_new("a/b.zip", "a", Loaded::Archive(Err("cannot open".to_string())));
    assert!(matches!(r, Err(GachoError::ArchiveError(_))));
    assert_eq!(book.len(), 0);
}

#[test]
fn book_opens_a_folder_in_path_order() {
    let mut book = Book::new();
    assert!(load(&mut book, "dir", EntryKind::Dir, five_pages(), &[]).is_none());
    assert_eq!(book.open_from_path("dir", true), None);
    assert_eq!(book.len(), 5);
    let names: Vec<String> = (0..5).map(|i| book.get_image_by_index(i).unwrap().file_name().clone()).collect();
    assert_eq!(names, vec!["1.png", "2.png", "3.png", "4.png", "5.png"]);
    // identifiers follow the listing: 5, 3, 1, 4, 2 got 1, 2, 3, 4, 5
    assert_eq!(book.image_ids(), vec![3, 5, 2, 4, 1]);
    assert_eq!(book.title(), "dir");
    assert_eq!(book.path(), "dir");
    assert_eq!(book.get_index_by_filename("4.png"), Some(3));
    assert_eq!(book.get_index_by_filename("6.png"), None);
    assert!(!book.is_empty());
    assert!(book.get_image_by_index(5).is_none());
}

#[test]
fn book_orders_paths_as_text() {
    let mut book = Book::new();
    let listing = folder(&["d/2.png", "d/10.png", "d/1.png"]);
    assert!(load(&mut book, "d", EntryKind::Dir, listing, &[]).is_none());
    book.open_from_path("d", true);
    let names: Vec<String> = (0..3).map(|i| book.get_image_by_index(i).unwrap().file_name().clone()).collect();
    assert_eq!(names, vec!["1.png", "10.png", "2.png"]);
}

#[test]
fn book_opened_from_an_image_remembers_its_name() {
    let mut book = Book::new();
    assert!(load(&mut book, "dir/3.png", EntryKind::Dir, five_pages(), &[]).is_none());
    assert_eq!(book.open_from_path("dir/3.png", true), Some("3.png".to_string()));
    assert_eq!(book.title(), "dir");
}

#[test]
fn ensure_image_past_the_end_is_none() {
    let mut book = Book::new();
    assert!(load(&mut book, "dir", EntryKind::Dir, five_pages(), &[]).is_none());
    book.open_from_path("dir", true);
    assert!(book.ensure_image_by_index(5).unwrap().is_none());
    let img = book.ensure_image_by_index(0).unwrap().unwrap();
    assert_eq!(img.file_name(), "1.png");
    assert_eq!(img.size(), (100, 200));
    assert!(!img.is_landscape());
}

#[test]
fn titles_are_extracted_from_names() {
    let book = Book::new();
    assert_eq!(book.extract_book_title("(C99)[Author]My Title(Genre)"), "My Title");
    assert_eq!(book.extract_book_title("(C99) [Author (Alias)] My Title (Genre) [Notes]"), "My Title");
    assert_eq!(book.extract_book_title("[Author] Title "), "Title");
    assert_eq!(book.extract_book_title("(Cat)[Author]Other"), "Other");
    assert_eq!(book.extract_book_title("  plain name "), "plain name");
}

#[test]
fn clear_empties_the_book() {
    let mut book = Book::new();
    assert!(load(&mut book, "dir", EntryKind::Dir, five_pages(), &[]).is_none());
    book.open_from_path("dir", true);
    book.clear();
    assert_eq!(book.len(), 0);
    assert_eq!(book.title(), "");
    assert!(book.is_empty());
}

#[test]
fn spreads_with_a_single_cover() {
    let mut of = open("dir", five_pages(), &[]);
    of.build_spreads(CoverLayout::Single, PageLayout::Spread);
    assert_eq!(
        of.spreads(),
        &vec![
            Spread::Single { index: 0 },
            Spread::Pair { left: 2, right: 1 },
            Spread::Pair { left: 4, right: 3 },
        ]
    );
    assert_eq!(of.current_spread(), Some(0));
    assert_eq!(of.page(), Some(0));
}

#[test]
fn spreads_without_a_single_cover() {
    let mut of = open("dir", five_pages(), &[]);
    of.build_spreads(CoverLayout::Spread, PageLayout::Spread);
    assert_eq!(
        of.spreads(),
        &vec![
            Spread::Pair { left: 1, right: 0 },
            Spread::Pair { left: 3, right: 2 },
            Spread::Single { index: 4 },
        ]
    );
}

#[test]
fn spreads_keep_landscape_pages_alone() {
    let mut of = open("dir", five_pages(), &["dir/3.png"]);
    of.build_spreads(CoverLayout::Single, PageLayout::Spread);
    assert_eq!(
        of.spreads(),
        &vec![
            Spread::Single { index: 0 },
            Spread::Single { index: 1 },
            Spread::Single { index: 2 },
            Spread::Pair { left: 4, right: 3 },
        ]
    );
}

#[test]
fn single_page_layout_shows_one_page_at_a_time() {
    let mut of = open("dir", five_pages(), &[]);
    of.build_spreads(CoverLayout::Spread, PageLayout::Single);
    assert_eq!(of.spreads_len(), 5);
    for (k, s) in of.spreads().iter().enumerate() {
        assert_eq!(*s, Spread::Single { index: k });
    }
}

#[test]
fn rebuilding_keeps_the_page_on_screen() {
    let mut of = open("dir/4.png", five_pages(), &[]);
    assert_eq!(of.page(), Some(3));
    of.build_spreads(CoverLayout::Single, PageLayout::Spread);
    // page 3 is the right page of the pair (4, 3)
    assert_eq!(of.current_spread(), Some(2));
    assert_eq!(of.page(), Some(3));
    of.build_spreads(CoverLayout::Spread, PageLayout::Spread);
    // page 3 is now the left page of the pair (3, 2): the page becomes 2
    assert_eq!(of.current_spread(), Some(1));
    assert_eq!(of.page(), Some(2));
}

#[test]
fn get_current_by_page_finds_the_spread() {
    let mut of = open("dir", five_pages(), &[]);
    of.build_spreads(CoverLayout::Single, PageLayout::Spread);
    assert_eq!(of.get_current_by_page(0), Some(0));
    assert_eq!(of.get_current_by_page(2), Some(1));
    assert_eq!(of.get_current_by_page(3), Some(2));
    assert_eq!(of.get_current_by_page(9), None);
}

#[test]
fn turning_pages_within_the_book() {
    let mut of = open("dir", five_pages(), &[]);
    of.build_spreads(CoverLayout::Single, PageLayout::Spread);
    let app = App::with(5, CoverLayout::Single, ReadFrom::RightToLeft, PageLayout::Spread);
    // right to left: the left page moves forward
    assert!(matches!(of.left_page(&app), Turn::Page(Some(1))));
    assert_eq!(of.current_spread(), Some(1));
    assert!(matches!(of.left_page(&app), Turn::Page(Some(3))));
    // the last spread: the library has one volume, so the page stays
    assert!(matches!(of.left_page(&app), Turn::Page(Some(3))));
    assert_eq!(of.current_spread(), Some(2));
    assert!(matches!(of.right_page(&app), Turn::Page(Some(1))));
    assert!(matches!(of.right_page(&app), Turn::Page(Some(0))));
    assert!(matches!(of.right_page(&app), Turn::Page(Some(0))));
    assert_eq!(of.current_spread(), Some(0));
}

#[test]
fn turning_forward_then_back_returns() {
    let mut of = open("dir", five_pages(), &[]);
    of.build_spreads(CoverLayout::Single, PageLayout::Spread);
    let app = App::with(5, CoverLayout::Single, ReadFrom::LeftToRight, PageLayout::Spread);
    of.set_current_spread(1);
    assert_eq!(of.page(), Some(1));
    // left to right: the right page moves forward
    of.right_page(&app);
    assert_eq!(of.current_spread(), Some(2));
    of.left_page(&app);
    assert_eq!(of.current_spread(), Some(1));
    assert_eq!(of.page(), Some(1));
}

#[test]
fn page_images_of_a_pair_are_left_then_right() {
    let mut of = open("dir", five_pages(), &[]);
    of.build_spreads(CoverLayout::Single, PageLayout::Spread);
    of.set_current_spread(1);
    let images = of.page_images(None).unwrap();
    let names: Vec<&str> = images.iter().map(|i| i.file_name().as_str()).collect();
    assert_eq!(names, vec!["3.png", "2.png"]);
    let next = of.page_images(Some(1)).unwrap();
    let names: Vec<&str> = next.iter().map(|i| i.file_name().as_str()).collect();
    assert_eq!(names, vec!["5.png", "4.png"]);
    assert!(matches!(of.page_images(Some(2)), Err(GachoError::IndexError(3))));
    assert!(of.page_images(Some(-2)).unwrap().is_empty());
    let first = of.page_images(Some(-1)).unwrap();
    assert_eq!(first.len(), 1);
    assert_eq!(first[0].file_name(), "1.png");
}

#[test]
fn page_images_without_a_book_are_empty() {
    let mut of = OpenFile::new();
    assert!(of.page_images(None).unwrap().is_empty());
    assert_eq!(of.book_len(), 0);
    assert_eq!(of.book_title(), "");
    assert!(of.book_image_ids().is_empty());
}

#[test]
fn open_book_without_pages_answers_false() {
    let mut of = OpenFile::new();
    let r = of.open_book("empty", true, &EntryKind::Dir, &Listing::Entries(Vec::new())).unwrap();
    assert!(!r);
    assert_eq!(of.page(), None);
    assert_eq!(of.library().len(), 0);
}

#[test]
fn a_folder_of_images_is_its_own_volume() {
    let of = open("dir", five_pages(), &[]);
    assert_eq!(of.library().len(), 1);
    assert_eq!(of.library().get(0).unwrap().path(), "dir");
    assert_eq!(of.library().get(0).unwrap().file_name(), "dir");
    assert_eq!(of.book_title(), "dir");
    assert_eq!(of.book_len(), 5);
}

#[test]
fn clear_closes_the_book_and_the_library() {
    let mut of = open("dir", five_pages(), &[]);
    of.build_spreads(CoverLayout::Single, PageLayout::Spread);
    of.clear();
    assert_eq!(of.book_len(), 0);
    assert_eq!(of.spreads_len(), 0);
    assert_eq!(of.page(), None);
    assert_eq!(of.current_spread(), None);
    assert_eq!(of.library().len(), 0);
}

fn open_files(path: &str, landscape: &[&str]) -> OpenFiles {
    let mut of = OpenFiles::new();
    assert!(load(of.book_mut(), path, EntryKind::Dir, five_pages(), landscape).is_none());
    of.add_book(path, true).unwrap();
    of
}

#[test]
fn open_files_starts_at_the_named_image() {
    let of = open_files("dir/4.png", &[]);
    assert_eq!(*of.page(), Some(3));
    let of = open_files("dir", &[]);
    assert_eq!(*of.page(), Some(0));
    assert_eq!(of.book_len(), 5);
    assert_eq!(of.book_title(), "dir");
    assert_eq!(of.book_image_ids(), vec![3, 5, 2, 4, 1]);
}

#[test]
fn open_files_single_page_turns() {
    let mut of = open_files("dir", &[]);
    let app = App::new();
    assert_eq!(of.next_index(&app).unwrap(), Some(1));
    assert_eq!(of.next_index(&app).unwrap(), Some(2));
    assert_eq!(of.prev_index(&app).unwrap(), Some(1));
    assert_eq!(of.prev_index(&app).unwrap(), Some(0));
    assert_eq!(of.prev_index(&app).unwrap(), Some(0));
    of.set_page(Some(4));
    assert_eq!(of.next_index(&app).unwrap(), Some(4));
}

#[test]
fn open_files_spread_turns_land_on_even_pages() {
    let mut of = open_files("dir", &[]);
    let app = App::with(5, CoverLayout::Single, ReadFrom::RightToLeft, PageLayout::Spread);
    assert_eq!(of.next_index(&app).unwrap(), Some(2));
    assert_eq!(of.next_index(&app).unwrap(), Some(4));
    assert_eq!(of.next_index(&app).unwrap(), Some(4));
    assert_eq!(of.prev_index(&app).unwrap(), Some(2));
    let ltr = App::with(5, CoverLayout::Single, ReadFrom::LeftToRight, PageLayout::Spread);
    assert_eq!(of.next_index(&ltr).unwrap(), Some(0));
    assert_eq!(of.prev_index(&ltr).unwrap(), Some(2));
}

#[test]
fn open_files_align_moves_odd_pages_back() {
    let mut of = open_files("dir/4.png", &[]);
    assert_eq!(*of.page(), Some(3));
    of.align(PageLayout::Single);
    assert_eq!(*of.page(), Some(3));
    of.align(PageLayout::Spread);
    assert_eq!(*of.page(), Some(2));
}

#[test]
fn open_files_page_images() {
    let mut of = open_files("dir", &[]);
    let single = App::new();
    let images = of.page_images(&single).unwrap();
    assert_eq!(images.len(), 1);
    assert_eq!(images[0].file_name(), "1.png");
    let spread = App::with(5, CoverLayout::Single, ReadFrom::RightToLeft, PageLayout::Spread);
    let images = of.page_images(&spread).unwrap();
    let names: Vec<&str> = images.iter().map(|i| i.file_name().as_str()).collect();
    assert_eq!(names, vec!["1.png", "2.png"]);
    of.set_page(Some(4));
    let images = of.page_images(&spread).unwrap();
    assert_eq!(images.len(), 1);
    of.set_page(None);
    assert!(of.page_images(&spread).unwrap().is_empty());
}

#[test]
fn open_files_neighbouring_images() {
    let mut of = open_files("dir", &[]);
    of.set_page(Some(1));
    assert_eq!(of.selected_next_image(2).unwrap().unwrap().file_name(), "4.png");
    assert!(of.selected_next_image(10).unwrap().is_none());
    assert!(of.selected_next_image(usize::MAX).unwrap().is_none());
    assert_eq!(of.selected_prev_image(1).unwrap().unwrap().file_name(), "1.png");
    assert!(of.selected_prev_image(2).unwrap().is_none());
    of.clear();
    assert!(of.selected_next_image(0).unwrap().is_none());
    assert_eq!(of.book_len(), 0);
}

#[test]
fn book_images_are_in_path_order() {
    let mut book = Book::new();
    book.image_new("x/a-b.png", "x", Loaded::Image(Ok((1, 1)))).unwrap();
    book.image_new("x/a/c.png", "x", Loaded::Image(Ok((1, 1)))).unwrap();
    book.image_new("x/./a/b.png", "x", Loaded::Image(Ok((1, 1)))).unwrap();
    book.open_from_path("x", true);
    let paths: Vec<String> = (0..3).map(|i| book.get_image_by_index(i).unwrap().path().clone()).collect();
    assert_eq!(paths, vec!["x/./a/b.png", "x/a/c.png", "x/a-b.png"]);
}

#[test]
fn first_path_is_the_first_in_path_order() {
    let mut book = Book::new();
    assert_eq!(book.first_path(), None);
    book.image_new("x/b.png", "x", Loaded::Image(Ok((1, 1)))).unwrap();
    book.image_new("x/a.png", "x", Loaded::Image(Ok((1, 1)))).unwrap();
    book.image_new("x/a.png", "x", Loaded::Image(Ok((2, 2)))).unwrap();
    assert_eq!(book.first_path(), Some("x/a.png".to_string()));
    book.open_from_path("x", true);
    assert_eq!(book.get_image_by_index(0).unwrap().path(), "x/a.png");
    // the sort is stable: of two images at one path, the first added comes first
    assert_eq!(book.get_image_by_index(0).unwrap().size(), (1, 1));
}

#[test]
fn a_title_from_an_image_no_longer_on_disk() {
    let mut book = Book::new();
    book.image_new("x/[Me] Gone/sub/1.png", "x", Loaded::Image(Ok((1, 1)))).unwrap();
    let img = book.get_image_by_index(0).unwrap();
    assert_eq!(img.relative_path(), "[Me] Gone/sub/1.png");
    assert_eq!(book.find_title(img, true), "sub");
    assert_eq!(book.find_title(img, false), "[Me] Gone/sub");
    book.open_from_path("x/[Me] Gone/sub/1.png", false);
    assert_eq!(book.title(), "Gone/sub");
}

#[test]
fn previous_in_one_direction_is_next_in_the_other() {
    let rtl = App::with(5, CoverLayout::Single, ReadFrom::RightToLeft, PageLayout::Spread);
    let ltr = App::with(5, CoverLayout::Single, ReadFrom::LeftToRight, PageLayout::Spread);
    let mut a = open_files("dir", &[]);
    let mut b = open_files("dir", &[]);
    a.set_page(Some(2));
    b.set_page(Some(2));
    assert_eq!(a.prev_index(&rtl).unwrap(), b.next_index(&ltr).unwrap());
    assert_eq!(a.prev_index(&ltr).unwrap(), b.next_index(&rtl).unwrap());
    assert_eq!(*a.page(), *b.page());
}
