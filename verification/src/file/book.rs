//! A book: the images read from an archive, a folder or the folder of an
//! image file, in path order, and the title read from their names.
use vstd::prelude::*;
use crate::error::{GachoError, GachoErrorView};
use crate::text::{trim, trimmed, concat, removed, remove_all};
use crate::file::{is_image, is_archive, is_image_path, is_archive_path};
use crate::file::archive::{
    Archive, ArchiveFileView, position_of, file_id, all_unread, pages_upto, page_id, file_ids,
    sorted_files, zip_parse, is_page_entry,
};
use crate::file::image::{Image, ImageView, is_archive_image, new_image_spec, dims_view};
use crate::file::path::{
    opt_view, file_name, file_stem, parent, strip_prefix, path_file_name, path_parent, name_stem,
    path_strip_prefix, name_extension, last_dot, lemma_last_dot_is_dot,
};
use crate::file::sort::{
    SortKey, KeyOrder, sort_by_key, sorted_by_key, is_sorted_by_key, first_sorted_index,
    lemma_sorted_first, exec_key_order,
};
use crate::text::chars_of;

verus! {

/// Titles written as "(category)[author]title(genre)[notes]".
pub const RE_DOJIN_NAME_PATTERN: &'static str = r"^\((?P<category>[^)]+)\)\s*\[(?P<author>[^\]]+)\]\s*(?P<title>.+)\((?P<genre>[^)]+)\)(?P<notes>(?:\s*\[[^\]]+\])*)\s*$";

/// Titles written as "[author]title", with an optional "(category)" first.
pub const RE_BOOK_NAME_PATTERN: &'static str = r"^(?:\((?P<category>[^)]+)\)\s*)?\[(?P<author>[^\]]+)\]\s*(?P<title>.+)\s*$";

/// What the `regex` crate captures as group `group` when the pattern is
/// matched against the haystack (`Regex::new`, `Regex::captures`,
/// `Captures::name`): `None` when the pattern does not compile, does not match,
/// or the group takes part in no match.
pub uninterp spec fn regex_group(pattern: Seq<char>, haystack: Seq<char>, group: Seq<char>) -> Option<
    Seq<char>,
>;

/// Matches a pattern against a text and returns the named group.
#[verifier::external_body]
fn capture_group(pattern: &str, haystack: &str, group: &str) -> (res: Option<String>)
    ensures
        opt_view(res) == regex_group(pattern@, haystack@, group@),
{
    let re = regex::Regex::new(pattern).ok()?;
    let caps = re.captures(haystack)?;
    caps.name(group).map(|m| m.as_str().to_string())
}

/// The title in a name: the "title" group of the first pattern that matches,
/// trimmed, or the whole name trimmed.
pub open spec fn book_title_of(name: Seq<char>) -> Seq<char> {
    match regex_group(RE_DOJIN_NAME_PATTERN@, name, "title"@) {
        Some(t) => trimmed(t),
        None => match regex_group(RE_BOOK_NAME_PATTERN@, name, "title"@) {
            Some(t) => trimmed(t),
            None => trimmed(name),
        },
    }
}

/// The name a title is read from: for an archive page, the archive's file
/// name without extension, trimmed; for an image file on disk (`is_file`),
/// the name of its folder; for one no longer on disk, its relative path with
/// every "/" followed by its file name removed; the image's file name when
/// these are missing.
pub open spec fn title_source(img: ImageView, is_file: bool) -> Seq<char> {
    if is_archive_image(img) {
        match path_file_name(img.path) {
            Some(n) => trimmed(name_stem(n)),
            None => img.file_name,
        }
    } else if is_file {
        match path_parent(img.path) {
            Some(par) => match path_file_name(par) {
                Some(n) => n,
                None => img.file_name,
            },
            None => img.file_name,
        }
    } else {
        removed(img.relative_path, seq!['/'] + img.file_name)
    }
}

impl SortKey for Image {
    open spec fn sort_key(&self) -> Seq<char> {
        self@.path
    }

    fn sort_key_chars(&self) -> (res: Vec<char>) {
        chars_of(self.path().as_str())
    }
}

/// What the file system says of a path.
pub enum EntryKind {
    /// A file.
    File,
    /// A folder.
    Dir,
    /// Something else.
    Other,
    /// The path could not be examined; the message says why.
    Unreadable(String),
    /// Listing the folder failed at this entry; the message says why.
    Broken(String),
}

/// An entry of a folder.
pub struct DirEntry {
    pub path: String,
    pub kind: EntryKind,
}

/// The entries of a folder, in the order the file system lists them.
pub enum Listing {
    Entries(Vec<DirEntry>),
    /// The folder could not be listed; the message says why.
    Unreadable(String),
}

/// What reading a file gave.
pub enum Loaded {
    /// The bytes of an archive, or why it could not be read.
    Archive(Result<Vec<u8>, String>),
    /// The width and height of an image file, or why they could not be read.
    Image(Result<(u32, u32), String>),
    /// Nothing was read.
    Nothing,
}

/// What a file found while opening a book becomes.
#[derive(Clone, Copy, PartialEq, Eq, Structural, Debug)]
pub enum TargetKind {
    /// An archive to unpack.
    Archive,
    /// An image file.
    Image,
    /// Nothing.
    Skip,
}

/// The files a book is read from, and the error that stops the reading: a
/// file stands for itself; of a folder, the files listed before the first
/// entry that cannot be examined; sub-folders and other entries are skipped.
pub open spec fn scan_targets(root: Seq<char>, kind: EntryKind, listing: Listing) -> (Seq<Seq<char>>, Option<GachoErrorView>) {
    match kind {
        EntryKind::Unreadable(m) => (Seq::empty(), Some(GachoErrorView::FileError(m@, root))),
        EntryKind::Broken(m) => (Seq::empty(), Some(GachoErrorView::FileError(m@, root))),
        EntryKind::File => (seq![root], None),
        EntryKind::Other => (Seq::empty(), None),
        EntryKind::Dir => match listing {
            Listing::Unreadable(m) => (Seq::empty(), Some(GachoErrorView::FileError(m@, root))),
            Listing::Entries(es) => listing_targets(es@, root, es@.len() as int),
        },
    }
}

/// The files among the first `n` entries, and the error of the first entry
/// that cannot be examined.
pub open spec fn listing_targets(es: Seq<DirEntry>, root: Seq<char>, n: int) -> (Seq<Seq<char>>, Option<GachoErrorView>)
    decreases n,
{
    if n <= 0 {
        (Seq::empty(), None)
    } else {
        let prev = listing_targets(es, root, n - 1);
        if prev.1 is Some {
            prev
        } else {
            match es[n - 1].kind {
                EntryKind::Unreadable(m) => (prev.0, Some(GachoErrorView::FileError(m@, root))),
                EntryKind::Broken(m) => (prev.0, Some(GachoErrorView::FileError(m@, root))),
                EntryKind::File => (prev.0.push(es[n - 1].path@), None),
                _ => prev,
            }
        }
    }
}

/// The views of optional errors.
pub open spec fn opt_error_view(e: Option<GachoError>) -> Option<GachoErrorView> {
    match e {
        Some(x) => Some(x@),
        None => None,
    }
}

/// The views of a list of strings.
pub open spec fn string_views(v: Seq<String>) -> Seq<Seq<char>> {
    v.map_values(|s: String| s@)
}

/// The identifiers of images are fresh: the next identifier is at least 1,
/// every image's identifier is at least 1 and below it, and no two images
/// share one.
pub open spec fn ids_fresh(images: Seq<ImageView>, next_id: u64) -> bool {
    &&& next_id >= 1
    &&& forall|k: int| 0 <= k < images.len() ==> 1 <= #[trigger] images[k].id < next_id
    &&& forall|i: int, j: int|
        0 <= i < j < images.len() ==> #[trigger] images[i].id != #[trigger] images[j].id
}

proof fn lemma_fresh_push(images: Seq<ImageView>, next_id: u64, img: ImageView)
    requires
        ids_fresh(images, next_id),
        next_id < u64::MAX,
        img.id == next_id,
    ensures
        ids_fresh(images.push(img), id_after(next_id, 1)),
{
    assert(id_after(next_id, 1) == next_id + 1);
    let t = images.push(img);
    assert forall|i: int, j: int| 0 <= i < j < t.len() implies #[trigger] t[i].id != #[trigger] t[j].id by {
        if j < images.len() {
            assert(t[i] == images[i] && t[j] == images[j]);
        } else {
            assert(t[i] == images[i]);
        }
    }
    assert forall|k: int| 0 <= k < t.len() implies 1 <= #[trigger] t[k].id < id_after(next_id, 1) by {
        if k < images.len() {
            assert(t[k] == images[k]);
        }
    }
}

proof fn lemma_fresh_update(images: Seq<ImageView>, next_id: u64, i: int, img: ImageView)
    requires
        ids_fresh(images, next_id),
        0 <= i < images.len(),
        img.id == images[i].id,
    ensures
        ids_fresh(images.update(i, img), next_id),
{
    let t = images.update(i, img);
    assert forall|a: int, b: int| 0 <= a < b < t.len() implies #[trigger] t[a].id != #[trigger] t[b].id by {
        assert(t[a].id == images[a].id);
        assert(t[b].id == images[b].id);
    }
    assert forall|k: int| 0 <= k < t.len() implies 1 <= #[trigger] t[k].id < next_id by {
        assert(t[k].id == images[k].id);
    }
}

proof fn lemma_fresh_permuted(s: Seq<Image>, t: Seq<Image>, next_id: u64)
    requires
        ids_fresh(s.map_values(|x: Image| x@), next_id),
        t.to_multiset() == s.to_multiset(),
    ensures
        ids_fresh(t.map_values(|x: Image| x@), next_id),
{
    broadcast use vstd::seq_lib::group_to_multiset_ensures;

    let sv = s.map_values(|x: Image| x@);
    let tv = t.map_values(|x: Image| x@);
    assert(s.no_duplicates()) by {
        assert forall|i: int, j: int| 0 <= i < s.len() && 0 <= j < s.len() && i != j implies s[i]
            != s[j] by {
            if i < j {
                assert(sv[i].id != sv[j].id);
            } else {
                assert(sv[j].id != sv[i].id);
            }
        }
    }
    s.lemma_multiset_has_no_duplicates();
    t.lemma_multiset_has_no_duplicates_conv();
    assert forall|k: int| #![trigger t[k]] 0 <= k < t.len() implies exists|m: int| 0 <= m < s.len() && #[trigger] s[m] == t[k] by {
        assert(t.contains(t[k]));
        assert(s.to_multiset().count(t[k]) > 0);
        assert(s.contains(t[k]));
    }
    assert forall|k: int| 0 <= k < tv.len() implies 1 <= #[trigger] tv[k].id < next_id by {
        let m = choose|m: int| 0 <= m < s.len() && #[trigger] s[m] == t[k];
        assert(sv[m] == tv[k]);
    }
    assert forall|i: int, j: int| 0 <= i < j < tv.len() implies #[trigger] tv[i].id != #[trigger] tv[j].id by {
        let a = choose|m: int| 0 <= m < s.len() && #[trigger] s[m] == t[i];
        let b = choose|m: int| 0 <= m < s.len() && #[trigger] s[m] == t[j];
        assert(t[i] != t[j]);
        assert(a != b);
        if a < b {
            assert(sv[a].id != sv[b].id);
        } else {
            assert(sv[b].id != sv[a].id);
        }
    }
}

proof fn lemma_fresh_archive_pages(t: Seq<char>, files: Seq<ArchiveFileView>, start: u64)
    requires
        start >= 1,
        start + files.len() <= u64::MAX,
    ensures
        ids_fresh(archive_page_images(t, files, start), id_after(start, files.len() as int)),
{
    let imgs = archive_page_images(t, files, start);
    assert(id_after(start, files.len() as int) == start + files.len());
    assert forall|k: int| 0 <= k < imgs.len() implies #[trigger] imgs[k].id == start + k by {
        assert(id_after(start, k) == start + k);
    }
    assert forall|i: int, j: int| 0 <= i < j < imgs.len() implies #[trigger] imgs[i].id
        != #[trigger] imgs[j].id by {
        assert(imgs[i].id == start + i);
        assert(imgs[j].id == start + j);
    }
    assert forall|k: int| 0 <= k < imgs.len() implies 1 <= #[trigger] imgs[k].id < id_after(
        start,
        files.len() as int,
    ) by {
        assert(imgs[k].id == start + k);
    }
}

/// A book.
pub struct Book {
    /// The images, in path order.
    images: Vec<Image>,
    /// The archive the images come from, if they do.
    archive: Option<Archive>,
    /// The title.
    title: String,
    /// The path the book was opened from.
    path: String,
    /// The identifier the next image gets.
    next_id: u64,
}

impl Book {
    /// The images.
    pub closed spec fn spec_images(&self) -> Seq<ImageView> {
        self.images@.map_values(|i: Image| i@)
    }

    /// The images as values.
    pub closed spec fn spec_image_values(&self) -> Seq<Image> {
        self.images@
    }

    /// The title.
    pub closed spec fn spec_title(&self) -> Seq<char> {
        self.title@
    }

    /// The path the book was opened from.
    pub closed spec fn spec_path(&self) -> Seq<char> {
        self.path@
    }

    /// The identifier the next image gets.
    pub closed spec fn spec_next_id(&self) -> u64 {
        self.next_id
    }

    /// Whether an archive is open.
    pub closed spec fn has_archive(&self) -> bool {
        self.archive is Some
    }

    /// The pages of the open archive.
    pub closed spec fn spec_archive_files(&self) -> Seq<ArchiveFileView> {
        match self.archive {
            Some(a) => a.spec_files(),
            None => Seq::empty(),
        }
    }

    /// What the open archive holds.
    pub closed spec fn spec_archive_contents(&self) -> Seq<(bool, bool, Seq<u8>, Option<Seq<u8>>)> {
        match self.archive {
            Some(a) => match a.spec_contents() {
                Some(c) => c,
                None => Seq::empty(),
            },
            None => Seq::empty(),
        }
    }

    /// The open archive, if any, is well formed.
    pub closed spec fn wf(&self) -> bool {
        self.archive matches Some(a) ==> a.wf()
    }

    /// The number of images.
    pub open spec fn spec_len(&self) -> nat {
        self.spec_images().len()
    }

    /// The identifiers of the images are fresh (see `ids_fresh`).
    pub open spec fn fresh_ids(&self) -> bool {
        ids_fresh(self.spec_images(), self.spec_next_id())
    }

    /// An empty book.
    pub fn new() -> (res: Self)
        ensures
            res.spec_images() == Seq::<ImageView>::empty(),
            !res.has_archive(),
            res.spec_title() == Seq::<char>::empty(),
            res.spec_path() == Seq::<char>::empty(),
            res.spec_next_id() == 1,
            res.wf(),
            res.fresh_ids(),
    {
        Book {
            images: Vec::new(),
            archive: None,
            title: String::new(),
            path: String::new(),
            next_id: 1,
        }
    }

    /// The number of images (pages).
    pub fn len(&self) -> (res: usize)
        ensures
            res == self.spec_len(),
    {
        self.images.len()
    }

    /// Whether the book has no image.
    pub fn is_empty(&self) -> (res: bool)
        ensures
            res == (self.spec_len() == 0),
    {
        self.images.len() == 0
    }

    /// Empties the book: no image, no archive, no title.
    pub fn clear(&mut self)
        ensures
            final(self).spec_images() == Seq::<ImageView>::empty(),
            !final(self).has_archive(),
            final(self).spec_title() == Seq::<char>::empty(),
            final(self).spec_path() == old(self).spec_path(),
            final(self).spec_next_id() == old(self).spec_next_id(),
            final(self).wf(),
            old(self).fresh_ids() ==> final(self).fresh_ids(),
    {
        self.title = String::new();
        self.images.clear();
        self.archive = None;
        proof {
            assert(self.spec_images() =~= Seq::<ImageView>::empty());
        }
    }

    /// The title.
    pub fn title(&self) -> (res: &String)
        ensures
            res@ == self.spec_title(),
    {
        &self.title
    }

    /// The path the book was opened from.
    pub fn path(&self) -> (res: &String)
        ensures
            res@ == self.spec_path(),
    {
        &self.path
    }

    /// The identifiers of the images, in order.
    pub fn image_ids(&self) -> (res: Vec<u64>)
        ensures
            res@ == self.spec_images().map_values(|i: ImageView| i.id),
    {
        let mut ids: Vec<u64> = Vec::new();
        let n = self.images.len();
        for k in 0..n
            invariant
                n == self.images@.len(),
                ids@ == self.spec_images().take(k as int).map_values(|i: ImageView| i.id),
        {
            ids.push(*self.images[k].id());
            proof {
                assert(self.spec_images().take(k + 1) =~= self.spec_images().take(k as int).push(
                    self.spec_images()[k as int],
                ));
                assert(ids@ =~= self.spec_images().take(k + 1).map_values(|i: ImageView| i.id));
            }
        }
        proof {
            assert(self.spec_images().take(n as int) =~= self.spec_images());
        }
        ids
    }

    /// The image at an index, if there is one.
    pub fn get_image_by_index(&self, index: usize) -> (res: Option<&Image>)
        ensures
            match res {
                Some(i) => index < self.spec_len() && i@ == self.spec_images()[index as int],
                None => index >= self.spec_len(),
            },
    {
        if index < self.images.len() {
            Some(&self.images[index])
        } else {
            None
        }
    }
}

/// The identifier `k` places after `start`, counting in wrapping `u64`
/// arithmetic as an atomic counter does.
pub open spec fn id_after(start: u64, k: int) -> u64 {
    ((start + k) % 0x1_0000_0000_0000_0000) as u64
}

/// What a found file becomes: an archive is unpacked only while the book has
/// no image yet; an image file is added.
pub open spec fn target_kind_spec(images_empty: bool, t: Seq<char>) -> TargetKind {
    if is_archive_path(t) && images_empty {
        TargetKind::Archive
    } else if is_image_path(t) {
        TargetKind::Image
    } else {
        TargetKind::Skip
    }
}

/// What was read fits the kind of the file.
pub open spec fn loaded_fits(l: Loaded, k: TargetKind) -> bool {
    match k {
        TargetKind::Archive => l is Archive,
        TargetKind::Image => l is Image,
        TargetKind::Skip => true,
    }
}

/// The path of an image file relative to the folder the book was opened
/// from, or the path itself.
pub open spec fn relative_to(t: Seq<char>, base: Seq<char>) -> Seq<char> {
    match path_strip_prefix(t, base) {
        Some(r) => r,
        None => t,
    }
}

/// The images made of the pages of an archive at path `t`, numbered from
/// `start`.
pub open spec fn archive_page_images(t: Seq<char>, files: Seq<ArchiveFileView>, start: u64) -> Seq<ImageView> {
    Seq::new(
        files.len(),
        |k: int|
            ImageView {
                id: id_after(start, k),
                path: t,
                relative_path: files[k].relative_path,
                file_name: files[k].file_name,
                extension: crate::file::extension::extension_kind(
                    crate::file::path::path_extension(t).unwrap(),
                ),
                width: 0,
                height: 0,
                bytes: files[k].bytes,
                archive_index: files[k].index,
            },
    )
}

impl Book {
    /// The folder or file a book opened from `path` is read from: the folder
    /// of an image file (none if it has no parent), else the path itself.
    pub fn scan_root(path: &str) -> (res: Option<String>)
        ensures
            opt_view(res) == (if is_image_path(path@) {
                path_parent(path@)
            } else {
                Some(path@)
            }),
    {
        if is_image(path) {
            parent(path)
        } else {
            Some(String::from_str(path))
        }
    }

    /// The folder image paths are made relative to: the parent of the path,
    /// or the path when it has none.
    pub fn base_dir(path: &str) -> (res: String)
        ensures
            res@ == match path_parent(path@) {
                Some(p) => p,
                None => path@,
            },
    {
        match parent(path) {
            Some(p) => p,
            None => String::from_str(path),
        }
    }

    /// The files a book is read from: `root` itself when it is a file, the
    /// files listed in it when it is a folder; with the error that stops the
    /// reading, if any.
    pub fn find_file(root: &str, kind: &EntryKind, listing: &Listing) -> (res: (
        Vec<String>,
        Option<GachoError>,
    ))
        ensures
            (string_views(res.0@), opt_error_view(res.1)) == scan_targets(root@, *kind, *listing),
    {
        match kind {
            EntryKind::Unreadable(m) | EntryKind::Broken(m) => {
                let v: Vec<String> = Vec::new();
                proof {
                    assert(string_views(v@) =~= Seq::<Seq<char>>::empty());
                }
                (v, Some(GachoError::FileError(m.clone(), String::from_str(root))))
            },
            EntryKind::File => {
                let mut v = Vec::new();
                v.push(String::from_str(root));
                proof {
                    assert(string_views(v@) =~= seq![root@]);
                }
                (v, None)
            },
            EntryKind::Other => {
                let v: Vec<String> = Vec::new();
                proof {
                    assert(string_views(v@) =~= Seq::<Seq<char>>::empty());
                }
                (v, None)
            },
            EntryKind::Dir => match listing {
                Listing::Unreadable(m) => {
                    let v: Vec<String> = Vec::new();
                    proof {
                        assert(string_views(v@) =~= Seq::<Seq<char>>::empty());
                    }
                    (v, Some(GachoError::FileError(m.clone(), String::from_str(root))))
                },
                Listing::Entries(es) => {
                    let mut v: Vec<String> = Vec::new();
                    let n = es.len();
                    let mut i: usize = 0;
                    proof {
                        assert(string_views(v@) =~= Seq::<Seq<char>>::empty());
                    }
                    while i < n
                        invariant
                            n == es@.len(),
                            i <= n,
                            scan_targets(root@, *kind, *listing) == listing_targets(
                                es@,
                                root@,
                                n as int,
                            ),
                            listing_targets(es@, root@, i as int) == (string_views(v@), None::<
                                GachoErrorView,
                            >),
                        decreases n - i,
                    {
                        match &es[i].kind {
                            EntryKind::Unreadable(m) | EntryKind::Broken(m) => {
                                let err = GachoError::FileError(m.clone(), String::from_str(root));
                                proof {
                                    assert(listing_targets(es@, root@, i + 1) == (
                                        string_views(v@),
                                        Some(err@),
                                    ));
                                    lemma_listing_targets_stops(es@, root@, i + 1, n as int);
                                }
                                return (v, Some(err));
                            },
                            EntryKind::File => {
                                let ghost before = v@;
                                v.push(es[i].path.clone());
                                proof {
                                    assert(string_views(v@) =~= string_views(before).push(
                                        es@[i as int].path@,
                                    ));
                                }
                            },
                            _ => {},
                        }
                        i = i + 1;
                    }
                    (v, None)
                },
            },
        }
    }

    /// What a found file becomes.
    pub fn target_kind(&self, target: &str) -> (res: TargetKind)
        ensures
            res == target_kind_spec(self.spec_len() == 0, target@),
    {
        if is_archive(target) && self.images.len() == 0 {
            TargetKind::Archive
        } else if is_image(target) {
            TargetKind::Image
        } else {
            TargetKind::Skip
        }
    }
}

proof fn lemma_listing_targets_stops(es: Seq<DirEntry>, root: Seq<char>, i: int, n: int)
    requires
        0 <= i <= n,
        listing_targets(es, root, i).1 is Some,
    ensures
        listing_targets(es, root, n) == listing_targets(es, root, i),
    decreases n - i,
{
    if i < n {
        lemma_listing_targets_stops(es, root, i, n - 1);
    }
}

proof fn lemma_archive_not_image(p: Seq<char>)
    requires
        is_archive_path(p),
    ensures
        !is_image_path(p),
        crate::file::path::path_extension(p) is Some,
{
    let e = crate::file::path::path_extension(p).unwrap();
    let l = crate::file::extension::lower(e);
    let ae = crate::file::archive_extensions();
    let ie = crate::file::image_extensions();
    let i = choose|i: int| 0 <= i < ae.len() && crate::file::extension::eq_ignore_case(#[trigger] ae[i], e);
    assert(crate::file::extension::lower(ae[0]) =~= ae[0]);
    assert(crate::file::extension::lower(ae[1]) =~= ae[1]);
    assert(crate::file::extension::lower(ie[0]) =~= ie[0]);
    assert(crate::file::extension::lower(ie[1]) =~= ie[1]);
    if is_image_path(p) {
        let j = choose|j: int| 0 <= j < ie.len() && crate::file::extension::eq_ignore_case(#[trigger] ie[j], e);
        assert(ae[i] == ie[j]);
        assert(ae[i][0] == ie[j][0]);
        assert(false);
    }
}

impl Book {
    /// Adds what a found file holds: the pages of an archive, or an image
    /// file. `loaded` is what reading the file gave, as `target_kind` asked.
    pub fn image_new(&mut self, path: &str, base_dir: &str, loaded: Loaded) -> (res: Result<(), GachoError>)
        requires
            old(self).wf(),
            loaded_fits(loaded, target_kind_spec(old(self).spec_len() == 0, path@)),
        ensures
            final(self).wf(),
            final(self).spec_title() == old(self).spec_title(),
            final(self).spec_path() == old(self).spec_path(),
            old(self).fresh_ids() && old(self).spec_next_id() + (final(self).spec_len()
                - old(self).spec_len()) <= u64::MAX ==> final(self).fresh_ids(),
            res is Err ==> {
                &&& final(self).spec_images() == old(self).spec_images()
                &&& final(self).spec_next_id() == old(self).spec_next_id()
                &&& final(self).has_archive() == old(self).has_archive()
                &&& final(self).spec_archive_files() == old(self).spec_archive_files()
                &&& final(self).spec_archive_contents() == old(self).spec_archive_contents()
            },
            match target_kind_spec(old(self).spec_len() == 0, path@) {
                TargetKind::Skip => res is Ok && final(self).spec_images() == old(self).spec_images()
                    && final(self).spec_next_id() == old(self).spec_next_id()
                    && final(self).has_archive() == old(self).has_archive()
                    && final(self).spec_archive_files() == old(self).spec_archive_files()
                    && final(self).spec_archive_contents() == old(self).spec_archive_contents(),
                TargetKind::Image => {
                    let r = new_image_spec(
                        path@,
                        relative_to(path@, base_dir@),
                        None,
                        None,
                        None,
                        old(self).spec_next_id(),
                        dims_view(loaded->Image_0),
                    );
                    &&& res is Ok <==> r is Ok
                    &&& res matches Err(e) ==> e@ == r->Err_0
                    &&& res is Ok ==> final(self).spec_images() == old(self).spec_images().push(
                        r->Ok_0,
                    ) && final(self).spec_next_id() == id_after(old(self).spec_next_id(), 1)
                        && final(self).has_archive() == old(self).has_archive()
                        && final(self).spec_archive_files() == old(self).spec_archive_files()
                        && final(self).spec_archive_contents() == old(
                        self,
                    ).spec_archive_contents()
                },
                TargetKind::Archive => match loaded->Archive_0 {
                    Err(m) => res matches Err(e) && e@ == GachoErrorView::ArchiveError(m@),
                    Ok(bytes) => {
                        &&& zip_parse(bytes@) is None ==> res is Err
                        &&& (zip_parse(bytes@) matches Some(c) && exists|i: int|
                            0 <= i < c.len() && !(#[trigger] c[i]).0) ==> res is Err
                        &&& (zip_parse(bytes@) matches Some(c) && forall|i: int|
                            0 <= i < c.len() ==> (#[trigger] c[i]).0 && (is_page_entry(c[i])
                                ==> c[i].3 is Some)) ==> res is Ok
                        &&& res matches Err(e) ==> e@ is ArchiveError
                        &&& res is Ok ==> {
                            let c = zip_parse(bytes@).unwrap();
                            let files = final(self).spec_archive_files();
                            &&& zip_parse(bytes@) is Some
                            &&& final(self).has_archive()
                            &&& final(self).spec_archive_contents() == c
                            &&& exists|added: Seq<ArchiveFileView>|
                                {
                                    &&& file_ids(added) == pages_upto(c, c.len() as int).map_values(
                                        |p: (usize, Seq<char>)| page_id(p),
                                    )
                                    &&& all_unread(added)
                                    &&& files == sorted_files(added)
                                }
                            &&& final(self).spec_images() == old(self).spec_images()
                                + archive_page_images(path@, files, old(self).spec_next_id())
                            &&& final(self).spec_next_id() == id_after(
                                old(self).spec_next_id(),
                                files.len() as int,
                            )
                        }
                    },
                },
            },
    {
        let rel = match strip_prefix(path, base_dir) {
            Some(r) => r,
            None => String::from_str(path),
        };
        match loaded {
            Loaded::Archive(read) => {
                if !(is_archive(path) && self.images.len() == 0) {
                    return Ok(());
                }
                let bytes = match read {
                    Ok(b) => b,
                    Err(m) => {
                        return Err(GachoError::ArchiveError(m));
                    },
                };
                let mut archive = Archive::new();
                match archive.unarchive(bytes) {
                    Ok(()) => {},
                    Err(m) => {
                        return Err(GachoError::ArchiveError(m));
                    },
                }
                proof {
                    lemma_archive_not_image(path@);
                }
                let ghost old_images = self.spec_images();
                let ghost start = self.next_id;
                let ghost files = archive.spec_files();
                let n = archive.files().len();
                let mut k: usize = 0;
                while k < n
                    invariant
                        k <= n,
                        n == files.len(),
                        archive.spec_files() == files,
                        is_archive_path(path@),
                        !is_image_path(path@),
                        crate::file::path::path_extension(path@) is Some,
                        self.next_id == id_after(start, k as int),
                        self.spec_images() == old_images + archive_page_images(path@, files, start).take(
                            k as int,
                        ),
                        self.archive == old(self).archive,
                        self.title == old(self).title,
                        self.path == old(self).path,
                    decreases n - k,
                {
                    let f = &archive.files()[k];
                    let image = Image::new(
                        String::from_str(path),
                        f.relative_path().clone(),
                        Some(f.file_name().clone()),
                        Some(f.bytes().clone()),
                        Some(*f.index()),
                        self.next_id,
                        Ok((0, 0)),
                    );
                    let image = match image {
                        Ok(i) => i,
                        Err(e) => {
                            proof {
                                assert(false);
                            }
                            return Err(e);
                        },
                    };
                    let ghost before = self.images@;
                    let ghost before_views = self.spec_images();
                    proof {
                        let want = archive_page_images(path@, files, start)[k as int];
                        assert(image@ == want);
                    }
                    self.images.push(image);
                    self.next_id = self.next_id.wrapping_add(1);
                    k = k + 1;
                    proof {
                        assert(self.images@ == before.push(image));
                        assert(self.spec_images() =~= before_views.push(image@));
                        assert(archive_page_images(path@, files, start).take(k as int) =~= archive_page_images(
                            path@,
                            files,
                            start,
                        ).take(k - 1).push(archive_page_images(path@, files, start)[k - 1]));
                        assert(self.spec_images() =~= old_images + archive_page_images(
                            path@,
                            files,
                            start,
                        ).take(k as int));
                    }
                }
                proof {
                    assert(archive_page_images(path@, files, start).take(n as int) =~= archive_page_images(
                        path@,
                        files,
                        start,
                    ));
                    assert(files =~= Seq::<ArchiveFileView>::empty() + files) by {
                    }
                    assert(old_images =~= Seq::<ImageView>::empty());
                    assert(self.spec_images() =~= archive_page_images(path@, files, start));
                    if old(self).fresh_ids() && start + files.len() <= u64::MAX {
                        lemma_fresh_archive_pages(path@, files, start);
                    }
                }
                self.archive = Some(archive);
                Ok(())
            },
            Loaded::Image(dims) => {
                if !(is_image(path) && !(is_archive(path) && self.images.len() == 0)) {
                    return Ok(());
                }
                let image = Image::new(
                    String::from_str(path),
                    rel,
                    None,
                    None,
                    None,
                    self.next_id,
                    dims,
                )?;
                let ghost before = self.images@;
                self.images.push(image);
                self.next_id = self.next_id.wrapping_add(1);
                proof {
                    assert(self.images@ == before.push(image));
                    assert(self.spec_images() =~= old(self).spec_images().push(image@));
                    if old(self).fresh_ids() && old(self).spec_next_id() < u64::MAX {
                        lemma_fresh_push(old(self).spec_images(), old(self).spec_next_id(), image@);
                    }
                }
                Ok(())
            },
            Loaded::Nothing => Ok(()),
        }
    }
}

/// The position of the first image whose path has file name `name`.
pub open spec fn index_by_filename(images: Seq<ImageView>, name: Seq<char>) -> Option<int>
    decreases images.len(),
{
    if images.len() == 0 {
        None
    } else if path_file_name(images[0].path) == Some(name) {
        Some(0)
    } else {
        match index_by_filename(images.drop_first(), name) {
            Some(i) => Some(i + 1),
            None => None,
        }
    }
}

/// What `open_from_path` answers: the file name of the path when it names an
/// image file inside a folder.
pub open spec fn opened_image_name(path: Seq<char>) -> Option<Seq<char>> {
    if is_image_path(path) && path_parent(path) is Some {
        path_file_name(path)
    } else {
        None
    }
}

/// The images in path order (stable, so the pages of one archive keep their
/// order).
pub open spec fn sorted_images(images: Seq<Image>) -> Seq<ImageView> {
    sorted_by_key(images, KeyOrder::Path).map_values(|i: Image| i@)
}

proof fn lemma_index_by_filename(images: Seq<ImageView>, name: Seq<char>, j: int)
    requires
        0 <= j <= images.len(),
        j < images.len() ==> path_file_name(images[j].path) == Some(name),
        forall|m: int| 0 <= m < j ==> path_file_name((#[trigger] images[m]).path) != Some(name),
    ensures
        index_by_filename(images, name) == (if j < images.len() {
            Some(j)
        } else {
            None::<int>
        }),
    decreases j,
{
    if j > 0 {
        assert forall|m: int| 0 <= m < j - 1 implies path_file_name(
            (#[trigger] images.drop_first()[m]).path,
        ) != Some(name) by {
            assert(images.drop_first()[m] == images[m + 1]);
        }
        lemma_index_by_filename(images.drop_first(), name, j - 1);
    }
}

impl Book {
    /// The index of the first image whose file name is `name`.
    pub fn get_index_by_filename(&self, name: &str) -> (res: Option<usize>)
        ensures
            match res {
                Some(i) => index_by_filename(self.spec_images(), name@) == Some(i as int),
                None => index_by_filename(self.spec_images(), name@) is None,
            },
    {
        let n = self.images.len();
        let mut k: usize = 0;
        while k < n
            invariant
                k <= n,
                n == self.images@.len(),
                forall|m: int|
                    0 <= m < k ==> path_file_name((#[trigger] self.spec_images()[m]).path) != Some(
                        name@,
                    ),
            decreases n - k,
        {
            let hit = match file_name(self.images[k].path().as_str()) {
                Some(f) => crate::text::str_equal(f.as_str(), name),
                None => false,
            };
            if hit {
                proof {
                    lemma_index_by_filename(self.spec_images(), name@, k as int);
                }
                return Some(k);
            }
            k = k + 1;
        }
        proof {
            lemma_index_by_filename(self.spec_images(), name@, n as int);
        }
        None
    }

    /// The title in a name: the "title" part of "(category)[author]title(genre)"
    /// or of "[author]title", else the whole name, trimmed.
    pub fn extract_book_title(&self, name: &str) -> (res: String)
        ensures
            res@ == book_title_of(name@),
    {
        if let Some(title) = capture_group(RE_DOJIN_NAME_PATTERN, name, "title") {
            return trim(title.as_str());
        }
        if let Some(title) = capture_group(RE_BOOK_NAME_PATTERN, name, "title") {
            return trim(title.as_str());
        }
        trim(name)
    }

    /// The name a title is read from; `is_file` says whether the image's path
    /// names a file on disk.
    pub fn find_title(&self, image: &Image, is_file: bool) -> (res: String)
        ensures
            res@ == title_source(image@, is_file),
    {
        if image.is_archive() {
            match file_name(image.path().as_str()) {
                Some(n) => {
                    let stem = file_stem(n.as_str());
                    trim(stem.as_str())
                },
                None => image.file_name().clone(),
            }
        } else if is_file {
            match parent(image.path().as_str()) {
                Some(par) => match file_name(par.as_str()) {
                    Some(n) => n,
                    None => image.file_name().clone(),
                },
                None => image.file_name().clone(),
            }
        } else {
            let pattern = concat("/", image.file_name().as_str());
            proof {
                reveal_strlit("/");
                assert("/"@ =~= seq!['/']);
            }
            remove_all(image.relative_path().as_str(), pattern.as_str())
        }
    }

    /// The path of the image the book shows first once it is put in path
    /// order, if it has any: the one whose `is_file` `open_from_path` asks.
    pub fn first_path(&self) -> (res: Option<String>)
        ensures
            opt_view(res) == if self.spec_len() > 0 {
                Some(sorted_images(self.spec_image_values())[0].path)
            } else {
                None
            },
    {
        let n = self.images.len();
        if n == 0 {
            return None;
        }
        let ghost vals = self.images@;
        let mut j: usize = 0;
        let mut jk = self.images[0].sort_key_chars();
        for k in 1..n
            invariant
                n == vals.len(),
                vals == self.images@,
                j < k,
                j == first_sorted_index(vals.take(k as int), KeyOrder::Path),
                jk@ == vals[j as int].sort_key(),
        {
            let kk = self.images[k].sort_key_chars();
            proof {
                assert(vals.take(k + 1).drop_last() =~= vals.take(k as int));
                assert(vals.take(k + 1).last() == vals[k as int]);
                assert(vals.take(k + 1)[j as int] == vals[j as int]);
            }
            if exec_key_order(KeyOrder::Path, &kk, &jk) < 0 {
                j = k;
                jk = kk;
            }
        }
        proof {
            assert(vals.take(n as int) =~= vals);
            lemma_sorted_first(vals, KeyOrder::Path);
        }
        Some(self.images[j].path().clone())
    }

    /// Puts the images in path order.
    fn sort(&mut self)
        ensures
            final(self).spec_image_values() == sorted_by_key(
                old(self).spec_image_values(),
                KeyOrder::Path,
            ),
            final(self).spec_images() == sorted_images(old(self).spec_image_values()),
            final(self).title == old(self).title,
            final(self).path == old(self).path,
            final(self).archive == old(self).archive,
            final(self).next_id == old(self).next_id,
    {
        let mut images: Vec<Image> = Vec::new();
        std::mem::swap(&mut images, &mut self.images);
        self.images = sort_by_key(images, KeyOrder::Path);
    }

    /// Finishes opening a book from `path` once its files have been added:
    /// puts the images in path order, reads the title from the first image
    /// (`first_is_file` says whether its path, `first_path`, names a file on
    /// disk), and remembers the path. Answers the file name of the path when it
    /// names an image file inside a folder, so that reading can start there.
    pub fn open_from_path(&mut self, path: &str, first_is_file: bool) -> (res: Option<String>)
        requires
            old(self).wf(),
        ensures
            final(self).wf(),
            final(self).spec_image_values() == sorted_by_key(
                old(self).spec_image_values(),
                KeyOrder::Path,
            ),
            final(self).spec_images() == sorted_images(old(self).spec_image_values()),
            is_sorted_by_key(final(self).spec_image_values(), KeyOrder::Path),
            final(self).spec_title() == if final(self).spec_len() > 0 {
                book_title_of(title_source(final(self).spec_images()[0], first_is_file))
            } else {
                old(self).spec_title()
            },
            final(self).spec_path() == path@,
            final(self).spec_next_id() == old(self).spec_next_id(),
            old(self).fresh_ids() ==> final(self).fresh_ids(),
            final(self).has_archive() == old(self).has_archive(),
            final(self).spec_archive_files() == old(self).spec_archive_files(),
            final(self).spec_archive_contents() == old(self).spec_archive_contents(),
            opt_view(res) == opened_image_name(path@),
    {
        let mut file_name_copy: Option<String> = None;
        if is_image(path) {
            if parent(path).is_some() {
                file_name_copy = file_name(path);
            }
        }
        self.sort();
        proof {
            crate::file::sort::lemma_sorted_by_key_permutes(old(self).images@, KeyOrder::Path);
            crate::file::sort::lemma_sorted_by_key_sorted(old(self).images@, KeyOrder::Path);
            if old(self).fresh_ids() {
                lemma_fresh_permuted(old(self).images@, self.images@, self.next_id);
            }
        }
        if self.images.len() > 0 {
            let title = self.find_title(&self.images[0], first_is_file);
            self.title = self.extract_book_title(title.as_str());
        }
        self.path = String::from_str(path);
        file_name_copy
    }
}

/// The image once its bytes have been read from the archive.
pub open spec fn loaded_image(img: ImageView, f: ArchiveFileView, data: Seq<u8>) -> ImageView {
    ImageView { bytes: data, width: f.width, height: f.height, ..img }
}

/// An image needs its bytes read from the archive.
pub open spec fn needs_bytes(img: ImageView) -> bool {
    is_archive_image(img) && img.bytes.len() == 0
}

/// The view of the outcome of `ensure_image_by_index`.
pub open spec fn ensure_view(r: Result<Option<Image>, GachoError>) -> Result<Option<ImageView>, GachoErrorView> {
    match r {
        Ok(Some(i)) => Ok(Some(i@)),
        Ok(None) => Ok(None),
        Err(e) => Err(e@),
    }
}

impl Book {
    /// The image at an index, with its bytes read from the archive first if it
    /// is an archive page that has none yet; `None` past the last image.
    pub fn ensure_image_by_index(&mut self, index: usize) -> (res: Result<Option<Image>, GachoError>)
        requires
            old(self).wf(),
        ensures
            final(self).wf(),
            final(self).spec_title() == old(self).spec_title(),
            final(self).spec_path() == old(self).spec_path(),
            final(self).spec_next_id() == old(self).spec_next_id(),
            final(self).has_archive() == old(self).has_archive(),
            final(self).spec_archive_contents() == old(self).spec_archive_contents(),
            final(self).spec_len() == old(self).spec_len(),
            old(self).fresh_ids() ==> final(self).fresh_ids(),
            res is Err ==> final(self).spec_images() == old(self).spec_images()
                && final(self).spec_archive_files() == old(self).spec_archive_files(),
            match ensure_step(book_state(*old(self)), index as int) {
                Some((img, st)) => {
                    &&& res matches Ok(o) && match o {
                        Some(i) => img == Some(i@),
                        None => img is None,
                    }
                    &&& book_state(*final(self)) == st
                },
                None => {
                    &&& res matches Err(e) && e@ is ArchiveError
                    &&& book_state(*final(self)) == book_state(*old(self))
                },
            },
            index >= old(self).spec_len() ==> ensure_view(res) == Ok::<Option<ImageView>, GachoErrorView>(None)
                && final(self).spec_images() == old(self).spec_images()
                && final(self).spec_archive_files() == old(self).spec_archive_files(),
            index < old(self).spec_len() ==> ({
                let img = old(self).spec_images()[index as int];
                let files = old(self).spec_archive_files();
                let p = position_of(files, img.archive_index);
                let f = files[p];
                let entry = old(self).spec_archive_contents()[f.index as int];
                if !needs_bytes(img) {
                    &&& ensure_view(res) == Ok::<Option<ImageView>, GachoErrorView>(Some(img))
                    &&& final(self).spec_images() == old(self).spec_images()
                    &&& final(self).spec_archive_files() == files
                } else if !old(self).has_archive() {
                    ensure_view(res) == Err::<Option<ImageView>, GachoErrorView>(
                        GachoErrorView::ArchiveError("Archive not found: "@ + img.relative_path),
                    )
                } else {
                    &&& (res is Ok) == (p < files.len() && (f.bytes.len() > 0 || (entry.0
                        && !entry.1 && entry.3 is Some)))
                    &&& res matches Err(e) ==> e@ is ArchiveError
                    &&& res is Ok ==> {
                        let new_img = loaded_image(img, f, entry.3.unwrap());
                        &&& ensure_view(res) == Ok::<Option<ImageView>, GachoErrorView>(Some(new_img))
                        &&& final(self).spec_images() == old(self).spec_images().update(
                            index as int,
                            new_img,
                        )
                        &&& final(self).spec_archive_files() == files.update(
                            p,
                            ArchiveFileView { bytes: entry.3.unwrap(), ..f },
                        )
                    }
                }
            }),
    {
        proof {
            reveal_strlit("Archive not found: ");
            reveal_strlit(" : ");
        }
        if index >= self.images.len() {
            return Ok(None);
        }
        let mut image = self.images[index].clone();
        if image.is_archive() && image.is_empty_bytes() {
            let archive = match self.archive.as_mut() {
                Some(a) => a,
                None => {
                    return Err(
                        GachoError::ArchiveError(
                            concat("Archive not found: ", image.relative_path().as_str()),
                        ),
                    );
                },
            };
            let file = match archive.get_zipfile(*image.archive_index()) {
                Ok(f) => f,
                Err(e) => {
                    let m = concat(e.as_str(), " : ");
                    return Err(
                        GachoError::ArchiveError(concat(m.as_str(), image.relative_path().as_str())),
                    );
                },
            };
            image.set_bytes(file.bytes().clone());
            image.set_size(file.size());
            let ghost before = self.images@;
            let stored = image.clone();
            let ghost stored_v = stored;
            self.images.set(index, stored);
            proof {
                assert(self.images@ == before.update(index as int, stored_v));
                assert(self.spec_images() =~= old(self).spec_images().update(index as int, image@));
                if old(self).fresh_ids() {
                    lemma_fresh_update(old(self).spec_images(), self.next_id, index as int, image@);
                }
            }
        }
        Ok(Some(image))
    }
}

/// What reading an image's bytes can change in a book.
pub ghost struct BookState {
    pub images: Seq<ImageView>,
    pub files: Seq<ArchiveFileView>,
    pub contents: Seq<(bool, bool, Seq<u8>, Option<Seq<u8>>)>,
    pub has_archive: bool,
}

/// The state of a book.
pub open spec fn book_state(b: Book) -> BookState {
    BookState {
        images: b.spec_images(),
        files: b.spec_archive_files(),
        contents: b.spec_archive_contents(),
        has_archive: b.has_archive(),
    }
}

/// `ensure_image_by_index` on a book state: the image (or `None` past the
/// end) and the state after, or `None` when reading the bytes fails.
pub open spec fn ensure_step(st: BookState, index: int) -> Option<(Option<ImageView>, BookState)> {
    if index < 0 || index >= st.images.len() {
        Some((None, st))
    } else {
        let img = st.images[index];
        if !needs_bytes(img) {
            Some((Some(img), st))
        } else if !st.has_archive {
            None
        } else {
            let p = position_of(st.files, img.archive_index);
            let f = st.files[p];
            let entry = st.contents[f.index as int];
            if p < st.files.len() && (f.bytes.len() > 0 || (entry.0 && !entry.1
                && entry.3 is Some)) {
                let new_img = loaded_image(img, f, entry.3.unwrap());
                Some(
                    (
                        Some(new_img),
                        BookState {
                            images: st.images.update(index, new_img),
                            files: st.files.update(p, ArchiveFileView { bytes: entry.3.unwrap(), ..f }),
                            ..st
                        },
                    ),
                )
            } else {
                None
            }
        }
    }
}

proof fn lemma_position_of_found(files: Seq<ArchiveFileView>, index: usize)
    requires
        position_of(files, index) < files.len(),
    ensures
        0 <= position_of(files, index),
        files[position_of(files, index)].index == index,
    decreases files.len(),
{
    if files[0].index != index {
        let rest = files.drop_first();
        let q = position_of(rest, index);
        lemma_position_of_found(rest, index);
        assert(rest[q] == files[q + 1]);
    }
}

proof fn lemma_position_of_update(files: Seq<ArchiveFileView>, index: usize, f: ArchiveFileView)
    requires
        position_of(files, index) < files.len(),
        f.index == index,
    ensures
        position_of(files.update(position_of(files, index), f), index) == position_of(files, index),
    decreases files.len(),
{
    let p = position_of(files, index);
    if files[0].index != index {
        let rest = files.drop_first();
        let q = position_of(rest, index);
        lemma_position_of_found(rest, index);
        lemma_position_of_update(rest, index, f);
        assert(files.update(p, f).drop_first() =~= rest.update(q, f));
        assert(files.update(p, f)[0] == files[0]);
    }
}

/// Law: in a well formed book, reading the image of a page again gives the
/// same image and leaves the book as the first read left it.
pub proof fn lemma_ensure_again(b: Book, index: int)
    requires
        b.wf(),
        ensure_step(book_state(b), index) is Some,
    ensures
        ({
            let (img, st2) = ensure_step(book_state(b), index).unwrap();
            ensure_step(st2, index) == Some((img, st2))
        }),
{
    let st = book_state(b);
    if 0 <= index < st.images.len() {
        let img = st.images[index];
        if needs_bytes(img) && st.has_archive {
            let p = position_of(st.files, img.archive_index);
            let f = st.files[p];
            let entry = st.contents[f.index as int];
            let data = entry.3.unwrap();
            let new_img = loaded_image(img, f, data);
            let f2 = ArchiveFileView { bytes: data, ..f };
            let st2 = ensure_step(st, index).unwrap().1;
            lemma_position_of_found(st.files, img.archive_index);
            assert(f.bytes.len() > 0 ==> entry.3 == Some(f.bytes));
            lemma_position_of_update(st.files, img.archive_index, f2);
            assert(st2.files == st.files.update(p, f2));
            assert(loaded_image(new_img, f2, data) == new_img);
            assert(st2.images.update(index, new_img) =~= st2.images);
            assert(st2.files.update(p, ArchiveFileView { bytes: data, ..f2 }) =~= st2.files);
            let st3 = BookState {
                images: st2.images.update(index, new_img),
                files: st2.files.update(p, ArchiveFileView { bytes: data, ..f2 }),
                ..st2
            };
            assert(st3 == st2);
            assert(st2.contents[f2.index as int] == entry);
            if needs_bytes(new_img) {
                assert(ensure_step(st2, index) == Some((Some(new_img), st3)));
            }
        }
    }
}

/// Law: the page a book opened from an image file starts at shows an image
/// of that file name, and an earlier page has no image of that name; when no
/// page does, no page is found.
pub proof fn lemma_index_by_filename_found(images: Seq<ImageView>, name: Seq<char>)
    ensures
        match index_by_filename(images, name) {
            Some(i) => {
                &&& 0 <= i < images.len()
                &&& path_file_name(images[i].path) == Some(name)
                &&& forall|m: int| 0 <= m < i ==> path_file_name((#[trigger] images[m]).path) != Some(name)
            },
            None => forall|m: int|
                0 <= m < images.len() ==> path_file_name((#[trigger] images[m]).path) != Some(name),
        },
    decreases images.len(),
{
    if images.len() > 0 && path_file_name(images[0].path) != Some(name) {
        let rest = images.drop_first();
        lemma_index_by_filename_found(rest, name);
        match index_by_filename(rest, name) {
            Some(j) => {
                assert(images[j + 1] == rest[j]);
                assert forall|m: int| 0 <= m < j + 1 implies path_file_name(
                    (#[trigger] images[m]).path,
                ) != Some(name) by {
                    if m > 0 {
                        assert(images[m] == rest[m - 1]);
                    }
                }
            },
            None => {
                assert forall|m: int| 0 <= m < images.len() implies path_file_name(
                    (#[trigger] images[m]).path,
                ) != Some(name) by {
                    if m > 0 {
                        assert(images[m] == rest[m - 1]);
                    }
                }
            },
        }
    }
}

/// Law: in a book whose identifiers are fresh, as `Book::new` makes them and
/// every method of `Book` keeps them while the counter does not wrap, the
/// identifiers `image_ids` lists are pairwise distinct.
pub proof fn lemma_fresh_ids_distinct(b: Book)
    requires
        b.fresh_ids(),
    ensures
        b.spec_images().map_values(|i: ImageView| i.id).no_duplicates(),
{
    let ids = b.spec_images().map_values(|i: ImageView| i.id);
    assert forall|i: int, j: int| 0 <= i < ids.len() && 0 <= j < ids.len() && i != j implies ids[i]
        != ids[j] by {
        if i < j {
            assert(b.spec_images()[i].id != b.spec_images()[j].id);
        } else {
            assert(b.spec_images()[j].id != b.spec_images()[i].id);
        }
    }
}

/// Law: the title of a book opened from an archive is read from the
/// archive's file name with exactly its last extension taken off: that part,
/// a '.' and the extension make up the whole file name, and the title is that
/// part trimmed. A name without an extension is taken whole.
pub proof fn lemma_archive_title_drops_only_extension(img: ImageView, is_file: bool, n: Seq<char>)
    requires
        is_archive_image(img),
        path_file_name(img.path) == Some(n),
    ensures
        match name_extension(n) {
            Some(e) => {
                let base = n.take(n.len() - e.len() - 1);
                &&& base + seq!['.'] + e == n
                &&& title_source(img, is_file) == trimmed(base)
            },
            None => title_source(img, is_file) == trimmed(n),
        },
{
    lemma_last_dot_is_dot(n);
    if let Some(e) = name_extension(n) {
        let d = last_dot(n);
        assert(n.len() - e.len() - 1 == d);
        assert(n.take(d) + seq!['.'] + n.skip(d + 1) =~= n);
    }
}

} // verus!
