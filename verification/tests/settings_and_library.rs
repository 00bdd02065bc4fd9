use gacho::app::{CoverLayout, PageLayout, ReadFrom};
use gacho::file::book::{DirEntry, EntryKind, Listing};
use gacho::file::library::{Library, LibraryEntry};
use gacho::launch::{argv_paths, take_path};
use gacho::{App, GachoError};

fn strings(v: &[&str]) -> Vec<String> {
    v.iter().map(|s| s.to_string()).collect()
}

fn files(names: &[&str]) -> Listing {
    Listing::Entries(
        names
            .iter()
            .map(|n| DirEntry { path: n.to_string(), kind: EntryKind::File })
            .collect(),
    )
}

fn paths(lib: &Library) -> Vec<String> {
    (0..lib.len()).map(|i| lib.get(i).unwrap().path().clone()).collect()
}

#[test]
fn default_settings() {
    let app = App::new();
    assert_eq!(*app.preloading(), 5);
    assert_eq!(*app.cover_layout(), CoverLayout::Single);
    assert_eq!(*app.read_from(), ReadFrom::RightToLeft);
    assert_eq!(*app.page_layout(), PageLayout::Single);
    let d = App::default();
    assert_eq!(*d.page_layout(), PageLayout::Single);
}

#[test]
fn settings_can_be_changed() {
    let mut app = App::with(2, CoverLayout::Spread, ReadFrom::LeftToRight, PageLayout::Spread);
    assert_eq!(*app.preloading(), 2);
    app.set_preloading(9);
    app.set_cover_layout(CoverLayout::Single);
    app.set_read_from(ReadFrom::RightToLeft);
    app.set_page_layout(PageLayout::Single);
    assert_eq!(*app.preloading(), 9);
    assert_eq!(*app.cover_layout(), CoverLayout::Single);
    assert_eq!(*app.read_from(), ReadFrom::RightToLeft);
    assert_eq!(*app.page_layout(), PageLayout::Single);
}

#[test]
fn setting_names() {
    assert_eq!(CoverLayout::Single.to_string(), "Single Cover");
    assert_eq!(CoverLayout::Spread.to_string(), "No Single Cover");
    assert_eq!(ReadFrom::RightToLeft.to_string(), "Right to Left");
    assert_eq!(ReadFrom::LeftToRight.to_string(), "Left to Right");
    assert_eq!(PageLayout::Single.to_string(), "Single Page");
    assert_eq!(PageLayout::Spread.to_string(), "Two-Page Spread");
    assert_eq!(PageLayout::Single.to_offset(), 0);
    assert_eq!(PageLayout::Spread.to_offset(), 1);
}

#[test]
fn error_messages() {
    let e = GachoError::FileNotFound("gone".to_string(), "a/b".to_string());
    assert_eq!(e.message(), "File does not exist: gone\n\na/b");
    let e = GachoError::FileError("denied".to_string(), "a/b".to_string());
    assert_eq!(e.message(), "File error: denied\n\na/b");
    assert_eq!(GachoError::ArchiveError("bad".to_string()).message(), "Archive error: bad");
    assert_eq!(GachoError::InvalidVersion.message(), "Invalid version");
    assert_eq!(GachoError::IndexError(0).message(), "Index error: 0");
    assert_eq!(GachoError::IndexError(1203).message(), "Index error: 1203");
    assert_eq!(
        GachoError::IndexError(usize::MAX).message(),
        format!("Index error: {}", usize::MAX)
    );
}

#[test]
fn command_line_paths_skip_the_program_and_options() {
    let args = strings(&["gacho", "-v", "a/book.zip", "--x", "b"]);
    assert_eq!(argv_paths(&args), strings(&["a/book.zip", "b"]));
    assert!(argv_paths(&Vec::new()).is_empty());
    assert!(argv_paths(&strings(&["gacho"])).is_empty());
    assert_eq!(argv_paths(&strings(&["gacho", ""])), strings(&[""]));
}

#[test]
fn take_path_reads_the_command_line_once() {
    let args = strings(&["gacho", "-v", "a/book.zip"]);
    let opened = strings(&["c/other.zip"]);
    let mut read = false;
    assert_eq!(take_path(&mut read, &args, &opened), Some("a/book.zip".to_string()));
    assert!(read);
    assert_eq!(take_path(&mut read, &args, &opened), Some("c/other.zip".to_string()));
    assert_eq!(take_path(&mut read, &args, &Vec::new()), None);
    let mut fresh = false;
    assert_eq!(take_path(&mut fresh, &strings(&["gacho", "-v"]), &opened), Some("c/other.zip".to_string()));
    assert!(fresh);
}

#[test]
fn library_entries() {
    let e = LibraryEntry::new("a/b.zip".to_string(), "b.zip".to_string(), 7);
    assert_eq!(e.path(), "a/b.zip");
    assert_eq!(e.file_name(), "b.zip");
    assert_eq!(e.id(), 7);
    let lib = Library::new();
    assert_eq!(lib.len(), 0);
    assert!(lib.get(0).is_none());
    assert_eq!(lib.get_index_by_path("a"), None);
}

#[test]
fn an_archive_brings_its_neighbours() {
    let mut lib = Library::new();
    let listing = files(&["s/vol10.zip", "s/vol2.cbz", "s/cover.png", "s/vol1.zip"]);
    assert_eq!(Library::listing_dir("s/vol2.cbz", &EntryKind::File), Some("s".to_string()));
    lib.add_entry("s/vol2.cbz", &EntryKind::File, &listing).unwrap();
    // path order, as text
    assert_eq!(paths(&lib), strings(&["s/vol1.zip", "s/vol10.zip", "s/vol2.cbz"]));
    assert_eq!(lib.get_index_by_path("s/vol2.cbz"), Some(2));
    assert_eq!(lib.get(0).unwrap().file_name(), "vol1.zip");
    // already there: nothing changes
    lib.add_entry("s/vol1.zip", &EntryKind::File, &listing).unwrap();
    assert_eq!(lib.len(), 3);
}

#[test]
fn an_image_brings_its_folder_once() {
    let mut lib = Library::new();
    lib.add_entry("s/a/1.png", &EntryKind::File, &Listing::Entries(Vec::new())).unwrap();
    assert_eq!(paths(&lib), strings(&["s/a"]));
    lib.add_entry("s/a/2.png", &EntryKind::File, &Listing::Entries(Vec::new())).unwrap();
    assert_eq!(paths(&lib), strings(&["s/a"]));
    assert_eq!(lib.get(0).unwrap().file_name(), "a");
}

#[test]
fn a_folder_of_archives_and_an_empty_folder() {
    let mut lib = Library::new();
    assert_eq!(Library::listing_dir("s", &EntryKind::Dir), Some("s".to_string()));
    lib.add_entry("s", &EntryKind::Dir, &files(&["s/b.zip", "s/a.zip"])).unwrap();
    assert_eq!(paths(&lib), strings(&["s/a.zip", "s/b.zip"]));
    let mut lib = Library::new();
    lib.add_entry("t", &EntryKind::Dir, &files(&["t/1.png"])).unwrap();
    assert_eq!(paths(&lib), strings(&["t"]));
}

#[test]
fn library_errors() {
    let mut lib = Library::new();
    let r = lib.add_entry("s/a.zip", &EntryKind::File, &Listing::Unreadable("nope".to_string()));
    match r {
        Err(GachoError::FileError(m, p)) => {
            assert_eq!(m, "nope");
            assert_eq!(p, "s");
        }
        _ => panic!("expected a file error"),
    }
    let broken = Listing::Entries(vec![
        DirEntry { path: "s/a.zip".to_string(), kind: EntryKind::File },
        DirEntry { path: "s/b.zip".to_string(), kind: EntryKind::Broken("io".to_string()) },
        DirEntry { path: "s/c.zip".to_string(), kind: EntryKind::File },
    ]);
    let r = lib.add_entry("s/a.zip", &EntryKind::File, &broken);
    assert!(matches!(r, Err(GachoError::FileError(_, _))));
    // what was listed before the broken entry stays
    assert_eq!(paths(&lib), strings(&["s/a.zip"]));
    let r = lib.add_entry("u", &EntryKind::Unreadable("x".to_string()), &Listing::Entries(Vec::new()));
    assert!(matches!(r, Err(GachoError::FileError(_, _))));
    assert_eq!(Library::listing_dir("u", &EntryKind::Other), None);
    lib.clear();
    assert_eq!(lib.len(), 0);
}

#[test]
fn volumes_are_in_path_order() {
    let mut lib = Library::new();
    lib.add_entry("/x/a/c/1.png", &EntryKind::File, &Listing::Entries(Vec::new())).unwrap();
    lib.add_entry("/x/a-b/2.png", &EntryKind::File, &Listing::Entries(Vec::new())).unwrap();
    // component by component: "a" comes before "a-b"
    assert_eq!(paths(&lib), strings(&["/x/a/c", "/x/a-b"]));
    assert_eq!(lib.get_index_by_path("/x/a-b"), Some(1));
}

#[test]
fn a_parent_directory_comes_before_names() {
    let mut lib = Library::new();
    lib.add_entry("-x/1.png", &EntryKind::File, &Listing::Entries(Vec::new())).unwrap();
    lib.add_entry("../q/1.png", &EntryKind::File, &Listing::Entries(Vec::new())).unwrap();
    lib.add_entry("/r/1.png", &EntryKind::File, &Listing::Entries(Vec::new())).unwrap();
    // the root, then "..", then names
    assert_eq!(paths(&lib), strings(&["/r", "../q", "-x"]));
}
