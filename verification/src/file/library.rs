//! The library: the archives next to the book that is open, the volumes that
//! reading on past the last page (or back past the first) opens.
use vstd::prelude::*;
use crate::error::{GachoError, GachoErrorView};
use crate::text::chars_of;
use crate::file::{is_image, is_archive, is_image_path, is_archive_path};
use crate::file::path::{file_name, parent, path_file_name, path_parent};
use crate::file::book::{EntryKind, Listing, DirEntry, id_after};
use crate::file::sort::{
    SortKey, KeyOrder, sort_by_key, sorted_by_key, sorted_views, lemma_sorted_by_key_views,
    is_sorted_views, lemma_sorted_views_sorted,
};

verus! {

/// A volume of the library.
pub struct LibraryEntry {
    id: u64,
    path: String,
    file_name: String,
}

/// What a volume holds.
pub ghost struct LibraryEntryView {
    pub id: u64,
    pub path: Seq<char>,
    pub file_name: Seq<char>,
}

impl View for LibraryEntry {
    type V = LibraryEntryView;

    closed spec fn view(&self) -> LibraryEntryView {
        LibraryEntryView { id: self.id, path: self.path@, file_name: self.file_name@ }
    }
}

impl SortKey for LibraryEntry {
    open spec fn sort_key(&self) -> Seq<char> {
        self@.path
    }

    fn sort_key_chars(&self) -> (res: Vec<char>) {
        chars_of(self.path.as_str())
    }
}

impl LibraryEntry {
    /// A volume at `path` named `file_name`, with identifier `id`.
    pub fn new(path: String, file_name: String, id: u64) -> (res: Self)
        ensures
            res@ == (LibraryEntryView { id, path: path@, file_name: file_name@ }),
    {
        LibraryEntry { id, path, file_name }
    }

    /// The path of the volume.
    pub fn path(&self) -> (res: &String)
        ensures
            res@ == self@.path,
    {
        &self.path
    }

    /// The name of the volume.
    pub fn file_name(&self) -> (res: &String)
        ensures
            res@ == self@.file_name,
    {
        &self.file_name
    }

    /// The identifier of the volume.
    pub fn id(&self) -> (res: u64)
        ensures
            res == self@.id,
    {
        self.id
    }
}

/// The name of a volume: the file name of its path, or nothing.
pub open spec fn entry_name(p: Seq<char>) -> Seq<char> {
    match path_file_name(p) {
        Some(n) => n,
        None => Seq::empty(),
    }
}

/// The folder a path is read against: its parent, or itself.
pub open spec fn base_of(p: Seq<char>) -> Seq<char> {
    match path_parent(p) {
        Some(q) => q,
        None => p,
    }
}

/// Volumes in path order.
pub open spec fn sorted_entries(s: Seq<LibraryEntryView>) -> Seq<LibraryEntryView> {
    sorted_views(s, |v: LibraryEntryView| v.path, KeyOrder::Path)
}

/// The position of the first volume at path `p`.
pub open spec fn index_of_path(s: Seq<LibraryEntryView>, p: Seq<char>) -> Option<int>
    decreases s.len(),
{
    if s.len() == 0 {
        None
    } else if s[0].path == p {
        Some(0)
    } else {
        match index_of_path(s.drop_first(), p) {
            Some(i) => Some(i + 1),
            None => None,
        }
    }
}

/// The volumes after adding the archives among the first `n` listed entries
/// of folder `dir`, the next identifier, and the error that stopped the
/// listing.
pub open spec fn add_listing(
    entries: Seq<LibraryEntryView>,
    next_id: u64,
    es: Seq<DirEntry>,
    dir: Seq<char>,
    n: int,
) -> (Seq<LibraryEntryView>, u64, Option<GachoErrorView>)
    decreases n,
{
    if n <= 0 {
        (entries, next_id, None)
    } else {
        let prev = add_listing(entries, next_id, es, dir, n - 1);
        if prev.2 is Some {
            prev
        } else {
            match es[n - 1].kind {
                EntryKind::Broken(m) => (prev.0, prev.1, Some(GachoErrorView::FileError(m@, dir))),
                _ => if is_archive_path(es[n - 1].path@) {
                    (
                        prev.0.push(
                            LibraryEntryView {
                                id: prev.1,
                                path: es[n - 1].path@,
                                file_name: entry_name(es[n - 1].path@),
                            },
                        ),
                        id_after(prev.1, 1),
                        None,
                    )
                } else {
                    prev
                },
            }
        }
    }
}

/// What `add_entry` does: the outcome, the volumes and the next identifier.
pub open spec fn add_entry_spec(
    entries: Seq<LibraryEntryView>,
    next_id: u64,
    path: Seq<char>,
    kind: EntryKind,
    listing: Listing,
) -> (Result<(), GachoErrorView>, Seq<LibraryEntryView>, u64) {
    let base = base_of(path);
    if is_image_path(path) {
        if index_of_path(entries, base) is Some {
            (Ok(()), entries, next_id)
        } else {
            (
                Ok(()),
                sorted_entries(
                    entries.push(
                        LibraryEntryView { id: next_id, path: base, file_name: entry_name(base) },
                    ),
                ),
                id_after(next_id, 1),
            )
        }
    } else if index_of_path(entries, path) is Some {
        (Ok(()), entries, next_id)
    } else {
        match kind {
            EntryKind::Unreadable(m) => (Err(GachoErrorView::FileError(m@, path)), entries, next_id),
            EntryKind::Broken(m) => (Err(GachoErrorView::FileError(m@, path)), entries, next_id),
            EntryKind::Other => (Ok(()), sorted_entries(entries), next_id),
            EntryKind::File => match listing {
                Listing::Unreadable(m) => (
                    Err(GachoErrorView::FileError(m@, base)),
                    entries,
                    next_id,
                ),
                Listing::Entries(es) => {
                    let r = add_listing(entries, next_id, es@, base, es@.len() as int);
                    if r.2 is Some {
                        (Err(r.2.unwrap()), r.0, r.1)
                    } else {
                        (Ok(()), sorted_entries(r.0), r.1)
                    }
                },
            },
            EntryKind::Dir => match listing {
                Listing::Unreadable(m) => (
                    Err(GachoErrorView::FileError(m@, path)),
                    entries,
                    next_id,
                ),
                Listing::Entries(es) => {
                    let r = add_listing(entries, next_id, es@, path, es@.len() as int);
                    if r.2 is Some {
                        (Err(r.2.unwrap()), r.0, r.1)
                    } else if r.0.len() == 0 {
                        (
                            Ok(()),
                            sorted_entries(
                                r.0.push(
                                    LibraryEntryView {
                                        id: r.1,
                                        path: path,
                                        file_name: entry_name(path),
                                    },
                                ),
                            ),
                            id_after(r.1, 1),
                        )
                    } else {
                        (Ok(()), sorted_entries(r.0), r.1)
                    }
                },
            },
        }
    }
}

/// The view of a unit result.
pub open spec fn unit_view(r: Result<(), GachoError>) -> Result<(), GachoErrorView> {
    match r {
        Ok(()) => Ok(()),
        Err(e) => Err(e@),
    }
}

/// The volumes of a library.
pub struct Library {
    entries: Vec<LibraryEntry>,
    next_id: u64,
}

impl Library {
    /// The volumes, in order.
    pub closed spec fn spec_entries(&self) -> Seq<LibraryEntryView> {
        self.entries@.map_values(|e: LibraryEntry| e@)
    }

    /// The identifier the next volume gets.
    pub closed spec fn spec_next_id(&self) -> u64 {
        self.next_id
    }

    /// A library never holds more volumes than an index can count.
    pub proof fn lemma_entries_fit(&self)
        ensures
            self.spec_entries().len() <= usize::MAX,
    {
        assert(self.entries.len() == self.entries@.len());
    }

    /// An empty library.
    pub fn new() -> (res: Self)
        ensures
            res.spec_entries() == Seq::<LibraryEntryView>::empty(),
            res.spec_next_id() == 1,
    {
        Library { entries: Vec::new(), next_id: 1 }
    }

    /// The number of volumes.
    pub fn len(&self) -> (res: usize)
        ensures
            res == self.spec_entries().len(),
    {
        self.entries.len()
    }

    /// Removes every volume.
    pub fn clear(&mut self)
        ensures
            final(self).spec_entries() == Seq::<LibraryEntryView>::empty(),
            final(self).spec_next_id() == old(self).spec_next_id(),
    {
        self.entries.clear();
        proof {
            assert(self.spec_entries() =~= Seq::<LibraryEntryView>::empty());
        }
    }

    /// The volume at an index, if there is one.
    pub fn get(&self, index: usize) -> (res: Option<&LibraryEntry>)
        ensures
            match res {
                Some(e) => index < self.spec_entries().len() && e@ == self.spec_entries()[index as int],
                None => index >= self.spec_entries().len(),
            },
    {
        if index < self.entries.len() {
            Some(&self.entries[index])
        } else {
            None
        }
    }

    /// The index of the first volume at `path`.
    pub fn get_index_by_path(&self, path: &str) -> (res: Option<usize>)
        ensures
            match res {
                Some(i) => index_of_path(self.spec_entries(), path@) == Some(i as int) && i
                    < self.spec_entries().len(),
                None => index_of_path(self.spec_entries(), path@) is None,
            },
    {
        let n = self.entries.len();
        let mut k: usize = 0;
        while k < n
            invariant
                k <= n,
                n == self.entries@.len(),
                forall|m: int| 0 <= m < k ==> (#[trigger] self.spec_entries()[m]).path != path@,
            decreases n - k,
        {
            if crate::text::str_equal(self.entries[k].path.as_str(), path) {
                proof {
                    lemma_index_of_path(self.spec_entries(), path@, k as int);
                }
                return Some(k);
            }
            k = k + 1;
        }
        proof {
            lemma_index_of_path(self.spec_entries(), path@, n as int);
        }
        None
    }

    /// The name of a volume at `path`: its file name, or nothing.
    fn get_file_name(&self, path: &str) -> (res: String)
        ensures
            res@ == entry_name(path@),
    {
        match file_name(path) {
            Some(n) => n,
            None => String::new(),
        }
    }

    /// Puts the volumes in path order.
    fn sort(&mut self)
        ensures
            final(self).spec_entries() == sorted_entries(old(self).spec_entries()),
            final(self).spec_next_id() == old(self).spec_next_id(),
    {
        let mut entries: Vec<LibraryEntry> = Vec::new();
        std::mem::swap(&mut entries, &mut self.entries);
        let ghost before = entries@;
        self.entries = sort_by_key(entries, KeyOrder::Path);
        proof {
            let key = |v: LibraryEntryView| v.path;
            assert forall|y: LibraryEntry| #[trigger] y.sort_key() == key(y@) by {
            }
            lemma_sorted_by_key_views(before, key, KeyOrder::Path);
        }
    }

    /// Adds a volume with the next identifier.
    fn push_entry(&mut self, path: String, file_name: String)
        ensures
            final(self).spec_entries() == old(self).spec_entries().push(
                LibraryEntryView { id: old(self).spec_next_id(), path: path@, file_name: file_name@ },
            ),
            final(self).spec_next_id() == id_after(old(self).spec_next_id(), 1),
    {
        let e = LibraryEntry::new(path, file_name, self.next_id);
        let ghost before = self.entries@;
        self.entries.push(e);
        self.next_id = self.next_id.wrapping_add(1);
        proof {
            assert(self.entries@ == before.push(e));
            assert(self.spec_entries() =~= old(self).spec_entries().push(e@));
        }
    }
}

proof fn lemma_index_of_path(s: Seq<LibraryEntryView>, p: Seq<char>, j: int)
    requires
        0 <= j <= s.len(),
        j < s.len() ==> s[j].path == p,
        forall|m: int| 0 <= m < j ==> (#[trigger] s[m]).path != p,
    ensures
        index_of_path(s, p) == (if j < s.len() {
            Some(j)
        } else {
            None::<int>
        }),
    decreases j,
{
    if j > 0 {
        assert forall|m: int| 0 <= m < j - 1 implies (#[trigger] s.drop_first()[m]).path != p by {
            assert(s.drop_first()[m] == s[m + 1]);
        }
        lemma_index_of_path(s.drop_first(), p, j - 1);
    }
}

/// The folder whose listing `add_entry` reads for a path of the given kind:
/// the folder of a file, the folder itself.
pub open spec fn listing_dir_spec(path: Seq<char>, kind: EntryKind) -> Option<Seq<char>> {
    match kind {
        EntryKind::File => Some(base_of(path)),
        EntryKind::Dir => Some(path),
        _ => None,
    }
}

impl Library {
    /// The folder whose listing `add_entry` reads for a path of this kind.
    pub fn listing_dir(path: &str, kind: &EntryKind) -> (res: Option<String>)
        ensures
            crate::file::path::opt_view(res) == listing_dir_spec(path@, *kind),
    {
        match kind {
            EntryKind::File => Some(Self::base_dir(path)),
            EntryKind::Dir => Some(String::from_str(path)),
            _ => None,
        }
    }

    fn base_dir(path: &str) -> (res: String)
        ensures
            res@ == base_of(path@),
    {
        match parent(path) {
            Some(p) => p,
            None => String::from_str(path),
        }
    }

    /// Adds the archives listed in folder `dir`, stopping at an entry the
    /// listing could not give.
    fn find_file(&mut self, dir: &str, es: &Vec<DirEntry>) -> (res: Result<(), GachoError>)
        ensures
            ({
                let r = add_listing(
                    old(self).spec_entries(),
                    old(self).spec_next_id(),
                    es@,
                    dir@,
                    es@.len() as int,
                );
                &&& final(self).spec_entries() == r.0
                &&& final(self).spec_next_id() == r.1
                &&& unit_view(res) == match r.2 {
                    Some(e) => Err(e),
                    None => Ok(()),
                }
            }),
    {
        let n = es.len();
        let mut i: usize = 0;
        while i < n
            invariant
                i <= n,
                n == es@.len(),
                add_listing(old(self).spec_entries(), old(self).spec_next_id(), es@, dir@, i as int)
                    == (self.spec_entries(), self.spec_next_id(), None::<GachoErrorView>),
            decreases n - i,
        {
            match &es[i].kind {
                EntryKind::Broken(m) => {
                    let err = GachoError::FileError(m.clone(), String::from_str(dir));
                    proof {
                        lemma_add_listing_stops(
                            old(self).spec_entries(),
                            old(self).spec_next_id(),
                            es@,
                            dir@,
                            i + 1,
                            n as int,
                        );
                    }
                    return Err(err);
                },
                _ => {
                    if is_archive(es[i].path.as_str()) {
                        let name = self.get_file_name(es[i].path.as_str());
                        self.push_entry(es[i].path.clone(), name);
                    }
                },
            }
            i = i + 1;
        }
        Ok(())
    }

    /// Adds the volume or volumes a book opened from `path` belongs to: for an
    /// image file its folder; for an archive every archive in its folder; for
    /// a folder every archive in it, or the folder itself when the library is
    /// still empty. Nothing is added when the volume is already there. `kind`
    /// is what the file system says of `path`, `listing` the listing of the
    /// folder `listing_dir` names.
    pub fn add_entry(&mut self, path: &str, kind: &EntryKind, listing: &Listing) -> (res: Result<(), GachoError>)
        ensures
            ({
                let r = add_entry_spec(
                    old(self).spec_entries(),
                    old(self).spec_next_id(),
                    path@,
                    *kind,
                    *listing,
                );
                &&& unit_view(res) == r.0
                &&& final(self).spec_entries() == r.1
                &&& final(self).spec_next_id() == r.2
            }),
    {
        let base_dir = Self::base_dir(path);
        if is_image(path) {
            if self.get_index_by_path(base_dir.as_str()).is_some() {
                return Ok(());
            }
            let name = self.get_file_name(base_dir.as_str());
            self.push_entry(base_dir, name);
            self.sort();
            return Ok(());
        }
        if self.get_index_by_path(path).is_some() {
            return Ok(());
        }
        match kind {
            EntryKind::Unreadable(m) | EntryKind::Broken(m) => {
                return Err(GachoError::FileError(m.clone(), String::from_str(path)));
            },
            EntryKind::Other => {},
            EntryKind::File => match listing {
                Listing::Unreadable(m) => {
                    return Err(GachoError::FileError(m.clone(), base_dir));
                },
                Listing::Entries(es) => {
                    self.find_file(base_dir.as_str(), es)?;
                },
            },
            EntryKind::Dir => match listing {
                Listing::Unreadable(m) => {
                    return Err(GachoError::FileError(m.clone(), String::from_str(path)));
                },
                Listing::Entries(es) => {
                    self.find_file(path, es)?;
                    if self.entries.len() == 0 {
                        let name = self.get_file_name(path);
                        self.push_entry(String::from_str(path), name);
                    }
                },
            },
        }
        self.sort();
        Ok(())
    }
}

proof fn lemma_add_listing_stops(
    entries: Seq<LibraryEntryView>,
    next_id: u64,
    es: Seq<DirEntry>,
    dir: Seq<char>,
    i: int,
    n: int,
)
    requires
        0 <= i <= n,
        add_listing(entries, next_id, es, dir, i).2 is Some,
    ensures
        add_listing(entries, next_id, es, dir, n) == add_listing(entries, next_id, es, dir, i),
    decreases n - i,
{
    if i < n {
        lemma_add_listing_stops(entries, next_id, es, dir, i, n - 1);
    }
}

proof fn lemma_sorted_views_len<V>(s: Seq<V>, key: spec_fn(V) -> Seq<char>, o: KeyOrder)
    ensures
        sorted_views(s, key, o).len() == s.len(),
    decreases s.len(),
{
    if s.len() > 0 {
        lemma_sorted_views_len(s.drop_last(), key, o);
        let r = sorted_views(s.drop_last(), key, o);
        lemma_view_insert_pos_bounds(r, s.last(), key, o, 0);
    }
}

proof fn lemma_view_insert_pos_bounds<V>(s: Seq<V>, x: V, key: spec_fn(V) -> Seq<char>, o: KeyOrder, k: int)
    requires
        0 <= k <= s.len(),
    ensures
        k <= crate::file::sort::view_insert_pos_from(s, x, key, o, k) <= s.len(),
    decreases s.len() - k,
{
    if k < s.len() {
        lemma_view_insert_pos_bounds(s, x, key, o, k + 1);
    }
}

proof fn lemma_add_listing_grows(
    entries: Seq<LibraryEntryView>,
    next_id: u64,
    es: Seq<DirEntry>,
    dir: Seq<char>,
    n: int,
)
    ensures
        add_listing(entries, next_id, es, dir, n).0.len() >= entries.len(),
    decreases n,
{
    if n > 0 {
        lemma_add_listing_grows(entries, next_id, es, dir, n - 1);
    }
}

/// Adding an entry never removes a volume.
pub proof fn lemma_add_entry_grows(
    entries: Seq<LibraryEntryView>,
    next_id: u64,
    path: Seq<char>,
    kind: EntryKind,
    listing: Listing,
)
    ensures
        add_entry_spec(entries, next_id, path, kind, listing).1.len() >= entries.len(),
{
    let key = |v: LibraryEntryView| v.path;
    lemma_sorted_views_len(entries, key, KeyOrder::Path);
    let base = base_of(path);
    lemma_sorted_views_len(
        entries.push(LibraryEntryView { id: next_id, path: base, file_name: entry_name(base) }),
        key,
        KeyOrder::Path,
    );
    match listing {
        Listing::Entries(es) => {
            let r1 = add_listing(entries, next_id, es@, base, es@.len() as int);
            let r2 = add_listing(entries, next_id, es@, path, es@.len() as int);
            lemma_add_listing_grows(entries, next_id, es@, base, es@.len() as int);
            lemma_add_listing_grows(entries, next_id, es@, path, es@.len() as int);
            lemma_sorted_views_len(r1.0, key, KeyOrder::Path);
            lemma_sorted_views_len(r2.0, key, KeyOrder::Path);
            lemma_sorted_views_len(
                r2.0.push(LibraryEntryView { id: r2.1, path: path, file_name: entry_name(path) }),
                key,
                KeyOrder::Path,
            );
        },
        _ => {},
    }
}

proof fn lemma_index_of_path_found(s: Seq<LibraryEntryView>, p: Seq<char>, k: int)
    requires
        0 <= k < s.len(),
        s[k].path == p,
    ensures
        index_of_path(s, p) is Some,
    decreases s.len(),
{
    if s[0].path != p {
        assert(s.drop_first()[k - 1] == s[k]);
        lemma_index_of_path_found(s.drop_first(), p, k - 1);
    }
}

proof fn lemma_sorted_views_keeps<V>(s: Seq<V>, key: spec_fn(V) -> Seq<char>, o: KeyOrder, x: V)
    requires
        s.contains(x),
    ensures
        sorted_views(s, key, o).contains(x),
    decreases s.len(),
{
    let r = sorted_views(s.drop_last(), key, o);
    lemma_sorted_views_len(s.drop_last(), key, o);
    let pos = crate::file::sort::view_insert_pos_from(r, s.last(), key, o, 0);
    lemma_view_insert_pos_bounds(r, s.last(), key, o, 0);
    let out = r.insert(pos, s.last());
    if x == s.last() {
        assert(out[pos] == x);
    } else {
        let k = choose|k: int| 0 <= k < s.len() && s[k] == x;
        assert(s.drop_last()[k] == x);
        lemma_sorted_views_keeps(s.drop_last(), key, o, x);
        let j = choose|j: int| 0 <= j < r.len() && r[j] == x;
        if j < pos {
            assert(out[j] == x);
        } else {
            assert(out[j + 1] == x);
        }
    }
}

/// Law: opening an image file adds the volume of its folder, so opening an
/// image file of that folder again changes nothing.
pub proof fn lemma_add_image_volume_once(
    entries: Seq<LibraryEntryView>,
    next_id: u64,
    path: Seq<char>,
    kind: EntryKind,
    listing: Listing,
    again: Seq<char>,
    kind2: EntryKind,
    listing2: Listing,
)
    requires
        is_image_path(path),
        is_image_path(again),
        base_of(again) == base_of(path),
    ensures
        ({
            let r = add_entry_spec(entries, next_id, path, kind, listing);
            &&& r.0 is Ok
            &&& index_of_path(r.1, base_of(path)) is Some
            &&& add_entry_spec(r.1, r.2, again, kind2, listing2) == (
                Ok::<(), GachoErrorView>(()),
                r.1,
                r.2,
            )
        }),
{
    let base = base_of(path);
    if index_of_path(entries, base) is None {
        let e = LibraryEntryView { id: next_id, path: base, file_name: entry_name(base) };
        let pushed = entries.push(e);
        assert(pushed[entries.len() as int] == e);
        lemma_sorted_views_keeps(pushed, |v: LibraryEntryView| v.path, KeyOrder::Path, e);
        let sorted = sorted_entries(pushed);
        let k = choose|k: int| 0 <= k < sorted.len() && sorted[k] == e;
        lemma_index_of_path_found(sorted, base, k);
    }
}

/// Law: when the volumes are in path order, a successful `add_entry` leaves
/// them in path order.
pub proof fn lemma_add_entry_sorted(
    entries: Seq<LibraryEntryView>,
    next_id: u64,
    path: Seq<char>,
    kind: EntryKind,
    listing: Listing,
)
    requires
        is_sorted_views(entries, |v: LibraryEntryView| v.path, KeyOrder::Path),
    ensures
        ({
            let r = add_entry_spec(entries, next_id, path, kind, listing);
            r.0 is Ok ==> is_sorted_views(r.1, |v: LibraryEntryView| v.path, KeyOrder::Path)
        }),
{
    let key = |v: LibraryEntryView| v.path;
    let base = base_of(path);
    lemma_sorted_views_sorted(entries, key, KeyOrder::Path);
    lemma_sorted_views_sorted(
        entries.push(LibraryEntryView { id: next_id, path: base, file_name: entry_name(base) }),
        key,
        KeyOrder::Path,
    );
    match listing {
        Listing::Entries(es) => {
            let r1 = add_listing(entries, next_id, es@, base, es@.len() as int);
            let r2 = add_listing(entries, next_id, es@, path, es@.len() as int);
            lemma_sorted_views_sorted(r1.0, key, KeyOrder::Path);
            lemma_sorted_views_sorted(r2.0, key, KeyOrder::Path);
            lemma_sorted_views_sorted(
                r2.0.push(LibraryEntryView { id: r2.1, path: path, file_name: entry_name(path) }),
                key,
                KeyOrder::Path,
            );
        },
        _ => {},
    }
}

} // verus!
