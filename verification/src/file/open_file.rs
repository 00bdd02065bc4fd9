//! The open book as the reader shows it: its pages grouped into single pages
//! and two-page spreads, the spread on screen, and the volume of the library
//! it belongs to.
use vstd::prelude::*;
use crate::app::{App, CoverLayout, PageLayout, ReadFrom};
use crate::error::{GachoError, GachoErrorView};
use crate::file::book::{
    Book, BookState, EntryKind, Listing, index_by_filename, opened_image_name, ensure_view, ensure_step,
    book_state,
};
use crate::file::image::{Image, ImageView, is_landscape_image};
use crate::file::library::{Library, LibraryEntryView, index_of_path, add_entry_spec};
use crate::file::path::opt_view;
use crate::file::isize_sign::{index_is_positive, unsigned_abs};

verus! {

/// What the screen shows at once.
#[derive(Clone, Copy, PartialEq, Eq, Structural, Debug)]
pub enum Spread {
    /// One page.
    Single { index: usize },
    /// Two facing pages; `right` is read first (right-to-left order), the
    /// screen mirrors them for left-to-right reading.
    Pair { left: usize, right: usize },
}

/// The spread shows page `p`.
pub open spec fn spread_shows(s: Spread, p: int) -> bool {
    match s {
        Spread::Single { index } => index == p,
        Spread::Pair { left, right } => left == p || right == p,
    }
}

/// The page a spread stands for: its only page, or the right page of a pair.
pub open spec fn spread_page(s: Spread) -> usize {
    match s {
        Spread::Single { index } => index,
        Spread::Pair { left, right } => right,
    }
}

/// The spreads of the pages from `i` on: a page goes alone when pages are
/// shown one at a time or when it is landscape; else it pairs with the next
/// page when that page is portrait, and goes alone when it does not.
pub open spec fn spreads_from(landscape: Seq<bool>, single: bool, i: int) -> Seq<Spread>
    decreases landscape.len() - i,
{
    if i < 0 || i >= landscape.len() {
        Seq::empty()
    } else if single || landscape[i] {
        seq![Spread::Single { index: i as usize }] + spreads_from(landscape, single, i + 1)
    } else if i + 1 < landscape.len() && !landscape[i + 1] {
        seq![Spread::Pair { left: (i + 1) as usize, right: i as usize }] + spreads_from(
            landscape,
            single,
            i + 2,
        )
    } else {
        seq![Spread::Single { index: i as usize }] + spreads_from(landscape, single, i + 1)
    }
}

/// The spreads of a book whose pages are landscape as `landscape` says: the
/// cover alone first when the cover layout asks for it.
pub open spec fn build_spreads_spec(
    landscape: Seq<bool>,
    cover: CoverLayout,
    layout: PageLayout,
) -> Seq<Spread> {
    let single = layout == PageLayout::Single;
    if landscape.len() > 0 && cover == CoverLayout::Single {
        seq![Spread::Single { index: 0 }] + spreads_from(landscape, single, 1)
    } else {
        spreads_from(landscape, single, 0)
    }
}

/// Which pages of the book are landscape.
pub open spec fn landscape_of(images: Seq<ImageView>) -> Seq<bool> {
    images.map_values(|i: ImageView| is_landscape_image(i))
}

/// The first spread that shows page `p`.
pub open spec fn spread_of_page(spreads: Seq<Spread>, p: int) -> Option<int>
    decreases spreads.len(),
{
    if spreads.len() == 0 {
        None
    } else if spread_shows(spreads[0], p) {
        Some(0)
    } else {
        match spread_of_page(spreads.drop_first(), p) {
            Some(k) => Some(k + 1),
            None => None,
        }
    }
}

/// The page after `update_page`: the page of the current spread, when there
/// is one.
pub open spec fn updated_page(spreads: Seq<Spread>, current: Option<usize>, page: Option<usize>) -> Option<usize> {
    match current {
        Some(i) => if spreads.len() > 0 && i < spreads.len() {
            Some(spread_page(spreads[i as int]))
        } else {
            page
        },
        None => page,
    }
}

/// The current spread after the spreads are rebuilt: the spread that shows
/// the page, or the first.
pub open spec fn current_after_build(spreads: Seq<Spread>, page: Option<usize>) -> Option<usize> {
    if spreads.len() == 0 {
        None
    } else {
        match page {
            Some(p) => match spread_of_page(spreads, p as int) {
                Some(k) => Some(k as usize),
                None => Some(0),
            },
            None => Some(0),
        }
    }
}

proof fn lemma_spread_of_page(spreads: Seq<Spread>, p: int, j: int)
    requires
        0 <= j <= spreads.len(),
        j < spreads.len() ==> spread_shows(spreads[j], p),
        forall|m: int| 0 <= m < j ==> !spread_shows(#[trigger] spreads[m], p),
    ensures
        spread_of_page(spreads, p) == (if j < spreads.len() {
            Some(j)
        } else {
            None::<int>
        }),
    decreases j,
{
    if j > 0 {
        assert forall|m: int| 0 <= m < j - 1 implies !spread_shows(
            #[trigger] spreads.drop_first()[m],
            p,
        ) by {
            assert(spreads.drop_first()[m] == spreads[m + 1]);
        }
        lemma_spread_of_page(spreads.drop_first(), p, j - 1);
    }
}

/// Two states have the same spreads and the same spread on screen.
pub open spec fn same_spreads(a: OpenFile, b: OpenFile) -> bool {
    a.spec_spreads() == b.spec_spreads() && a.spec_current() == b.spec_current()
}

/// Two states have the same library and volume.
pub open spec fn same_library(a: OpenFile, b: OpenFile) -> bool {
    a.spec_library() == b.spec_library() && a.spec_volume() == b.spec_volume()
}

/// The open book.
pub struct OpenFile {
    book: Book,
    page: Option<usize>,
    spreads: Vec<Spread>,
    current_spread: Option<usize>,
    library: Library,
    volume: Option<usize>,
}

impl OpenFile {
    pub closed spec fn spec_book(&self) -> Book {
        self.book
    }

    pub closed spec fn spec_page(&self) -> Option<usize> {
        self.page
    }

    pub closed spec fn spec_spreads(&self) -> Seq<Spread> {
        self.spreads@
    }

    pub closed spec fn spec_current(&self) -> Option<usize> {
        self.current_spread
    }

    pub closed spec fn spec_library(&self) -> Library {
        self.library
    }

    pub closed spec fn spec_volume(&self) -> Option<usize> {
        self.volume
    }

    /// The book is well formed and the volume, if any, is one of the library.
    pub open spec fn wf(&self) -> bool {
        &&& self.spec_book().wf()
        &&& self.spec_volume() matches Some(v) ==> v < self.spec_library().spec_entries().len()
    }

    /// Nothing open.
    pub fn new() -> (res: Self)
        ensures
            res.wf(),
            res.spec_book().spec_images() == Seq::<ImageView>::empty(),
            !res.spec_book().has_archive(),
            res.spec_book().spec_title() == Seq::<char>::empty(),
            res.spec_book().spec_path() == Seq::<char>::empty(),
            res.spec_book().spec_next_id() == 1,
            res.spec_page() is None,
            res.spec_spreads() == Seq::<Spread>::empty(),
            res.spec_current() is None,
            res.spec_library().spec_entries() == Seq::<LibraryEntryView>::empty(),
            res.spec_library().spec_next_id() == 1,
            res.spec_volume() is None,
    {
        OpenFile {
            book: Book::new(),
            page: None,
            spreads: Vec::new(),
            current_spread: None,
            library: Library::new(),
            volume: None,
        }
    }

    /// Closes the book and empties the library.
    pub fn clear(&mut self)
        ensures
            final(self).wf(),
            final(self).spec_book().spec_images() == Seq::<ImageView>::empty(),
            !final(self).spec_book().has_archive(),
            final(self).spec_book().spec_title() == Seq::<char>::empty(),
            final(self).spec_page() is None,
            final(self).spec_spreads() == Seq::<Spread>::empty(),
            final(self).spec_current() is None,
            final(self).spec_library().spec_entries() == Seq::<LibraryEntryView>::empty(),
            final(self).spec_volume() is None,
    {
        self.book.clear();
        self.page = None;
        self.spreads.clear();
        self.current_spread = None;
        self.library.clear();
        self.volume = None;
    }

    /// The title of the book.
    pub fn book_title(&self) -> (res: &str)
        ensures
            res@ == self.spec_book().spec_title(),
    {
        self.book.title().as_str()
    }

    /// The identifiers of the pages, in order.
    pub fn book_image_ids(&self) -> (res: Vec<u64>)
        ensures
            res@ == self.spec_book().spec_images().map_values(|i: ImageView| i.id),
    {
        self.book.image_ids()
    }

    /// The number of pages.
    pub fn book_len(&self) -> (res: usize)
        ensures
            res == self.spec_book().spec_len(),
    {
        self.book.len()
    }

    /// The number of spreads.
    pub fn spreads_len(&self) -> (res: usize)
        ensures
            res == self.spec_spreads().len(),
    {
        self.spreads.len()
    }

    /// The page shown, as an index into the book.
    pub fn page(&self) -> (res: Option<usize>)
        ensures
            res == self.spec_page(),
    {
        self.page
    }

    /// Sets the page shown.
    pub fn set_page(&mut self, page: Option<usize>)
        ensures
            final(self).spec_page() == page,
            final(self).spec_book() == old(self).spec_book(),
            same_spreads(*final(self), *old(self)),
            same_library(*final(self), *old(self)),
    {
        self.page = page;
    }

    /// The index of the spread on screen.
    pub fn current_spread(&self) -> (res: Option<usize>)
        ensures
            res == self.spec_current(),
    {
        self.current_spread
    }

    /// The spreads.
    pub fn spreads(&self) -> (res: &Vec<Spread>)
        ensures
            res@ == self.spec_spreads(),
    {
        &self.spreads
    }

    /// The book.
    pub fn book(&self) -> (res: &Book)
        ensures
            *res == self.spec_book(),
    {
        &self.book
    }

    /// The book, to add what is read from files to it.
    pub fn book_mut(&mut self) -> (res: &mut Book)
        ensures
            *res == old(self).spec_book(),
            final(self).spec_book() == *final(res),
            final(self).spec_page() == old(self).spec_page(),
            same_spreads(*final(self), *old(self)),
            same_library(*final(self), *old(self)),
    {
        &mut self.book
    }

    /// The library.
    pub fn library(&self) -> (res: &Library)
        ensures
            *res == self.spec_library(),
    {
        &self.library
    }

    /// The index of the first spread that shows `page`.
    pub fn get_current_by_page(&self, page: usize) -> (res: Option<usize>)
        ensures
            match res {
                Some(k) => spread_of_page(self.spec_spreads(), page as int) == Some(k as int),
                None => spread_of_page(self.spec_spreads(), page as int) is None,
            },
    {
        let n = self.spreads.len();
        let mut k: usize = 0;
        while k < n
            invariant
                k <= n,
                n == self.spreads@.len(),
                forall|m: int| 0 <= m < k ==> !spread_shows(#[trigger] self.spreads@[m], page as int),
            decreases n - k,
        {
            let hit = match self.spreads[k] {
                Spread::Single { index } => index == page,
                Spread::Pair { left, right } => left == page || right == page,
            };
            if hit {
                proof {
                    lemma_spread_of_page(self.spreads@, page as int, k as int);
                }
                return Some(k);
            }
            k = k + 1;
        }
        proof {
            lemma_spread_of_page(self.spreads@, page as int, n as int);
        }
        None
    }

    /// Sets the page to the page of the current spread.
    fn update_page(&mut self)
        ensures
            final(self).spec_page() == updated_page(
                old(self).spec_spreads(),
                old(self).spec_current(),
                old(self).spec_page(),
            ),
            final(self).spec_book() == old(self).spec_book(),
            same_spreads(*final(self), *old(self)),
            same_library(*final(self), *old(self)),
    {
        if self.spreads.len() > 0 {
            let Some(index) = self.current_spread else {
                return;
            };
            if index >= self.spreads.len() {
                return;
            }
            self.page = Some(
                match self.spreads[index] {
                    Spread::Single { index } => index,
                    Spread::Pair { right, .. } => right,
                },
            );
        }
    }

    /// Shows spread `index`.
    pub fn set_current_spread(&mut self, index: usize)
        ensures
            final(self).spec_current() == Some(index),
            final(self).spec_page() == updated_page(
                old(self).spec_spreads(),
                Some(index),
                old(self).spec_page(),
            ),
            final(self).spec_book() == old(self).spec_book(),
            final(self).spec_spreads() == old(self).spec_spreads(),
            same_library(*final(self), *old(self)),
    {
        self.current_spread = Some(index);
        self.update_page();
    }
}

proof fn lemma_spreads_from_step(ls: Seq<bool>, single: bool, i: int)
    requires
        0 <= i < ls.len(),
    ensures
        spreads_from(ls, single, i) == if single || ls[i] {
            seq![Spread::Single { index: i as usize }] + spreads_from(ls, single, i + 1)
        } else if i + 1 < ls.len() && !ls[i + 1] {
            seq![Spread::Pair { left: (i + 1) as usize, right: i as usize }] + spreads_from(
                ls,
                single,
                i + 2,
            )
        } else {
            seq![Spread::Single { index: i as usize }] + spreads_from(ls, single, i + 1)
        },
{
}

impl OpenFile {
    /// Groups the pages into spreads for the given layouts, then shows the
    /// spread of the current page (the first spread when the page is in none)
    /// and sets the page to that spread's page.
    pub fn build_spreads(&mut self, cover_layout: CoverLayout, page_layout: PageLayout)
        ensures
            final(self).spec_spreads() == build_spreads_spec(
                landscape_of(old(self).spec_book().spec_images()),
                cover_layout,
                page_layout,
            ),
            final(self).spec_current() == current_after_build(
                final(self).spec_spreads(),
                old(self).spec_page(),
            ),
            final(self).spec_page() == updated_page(
                final(self).spec_spreads(),
                final(self).spec_current(),
                old(self).spec_page(),
            ),
            final(self).spec_book() == old(self).spec_book(),
            same_library(*final(self), *old(self)),
    {
        let ghost ls = landscape_of(self.book.spec_images());
        let ghost target = build_spreads_spec(ls, cover_layout, page_layout);
        let ghost single = page_layout == PageLayout::Single;
        self.spreads.clear();
        let n = self.book.len();
        let mut page_index: usize = 0;
        if !self.book.is_empty() && cover_layout == CoverLayout::Single {
            self.spreads.push(Spread::Single { index: 0 });
            page_index = 1;
        }
        proof {
            if page_index == 0 {
                assert(self.spreads@ + spreads_from(ls, single, 0) =~= target);
            } else {
                assert(self.spreads@ =~= seq![Spread::Single { index: 0 }]);
            }
        }
        while page_index < n
            invariant
                page_index <= n,
                n == self.book.spec_len(),
                ls == landscape_of(self.book.spec_images()),
                ls.len() == n,
                single == (page_layout == PageLayout::Single),
                self.spreads@ + spreads_from(ls, single, page_index as int) == target,
                self.page == old(self).page,
                self.book == old(self).book,
                self.library == old(self).library,
                self.volume == old(self).volume,
            decreases n - page_index,
        {
            proof {
                lemma_spreads_from_step(ls, single, page_index as int);
            }
            let ghost before = self.spreads@;
            let image = self.book.get_image_by_index(page_index).unwrap();
            if page_layout == PageLayout::Single || image.is_landscape() {
                self.spreads.push(Spread::Single { index: page_index });
                page_index = page_index + 1;
                proof {
                    assert(before + (seq![Spread::Single { index: (page_index - 1) as usize }]
                        + spreads_from(ls, single, page_index as int)) =~= self.spreads@
                        + spreads_from(ls, single, page_index as int));
                }
            } else {
                let pair = match self.book.get_image_by_index(page_index + 1) {
                    Some(next) => !next.is_landscape(),
                    None => false,
                };
                if pair {
                    self.spreads.push(Spread::Pair { left: page_index + 1, right: page_index });
                    page_index = page_index + 2;
                    proof {
                        assert(before + (seq![
                            Spread::Pair {
                                left: (page_index - 1) as usize,
                                right: (page_index - 2) as usize,
                            },
                        ] + spreads_from(ls, single, page_index as int)) =~= self.spreads@
                            + spreads_from(ls, single, page_index as int));
                    }
                } else {
                    self.spreads.push(Spread::Single { index: page_index });
                    page_index = page_index + 1;
                    proof {
                        assert(before + (seq![Spread::Single { index: (page_index - 1) as usize }]
                            + spreads_from(ls, single, page_index as int)) =~= self.spreads@
                            + spreads_from(ls, single, page_index as int));
                    }
                }
            }
        }
        proof {
            assert(spreads_from(ls, single, page_index as int) =~= Seq::<Spread>::empty());
            assert(self.spreads@ =~= target);
        }
        self.current_spread = if self.spreads.len() == 0 {
            None
        } else {
            match self.page {
                Some(p) => match self.get_current_by_page(p) {
                    Some(k) => Some(k),
                    None => Some(0),
                },
                None => Some(0),
            }
        };
        self.update_page();
    }
}

/// The current spread is the first.
pub open spec fn first_page_spec(current: Option<usize>) -> bool {
    current == Some(0usize)
}

/// The current spread is the last (or past it); with no spread, any current
/// spread counts as the last.
pub open spec fn last_page_spec(current: Option<usize>, len: nat) -> bool {
    match current {
        Some(i) => i >= (if len > 0 {
            len - 1
        } else {
            0
        }),
        None => false,
    }
}

/// The spread after moving one forward: the next, or the last.
pub open spec fn page_added(current: Option<usize>, len: nat) -> Option<usize> {
    match current {
        Some(i) => if i < len - 1 {
            Some((i + 1) as usize)
        } else {
            Some((len - 1) as usize)
        },
        None => None,
    }
}

/// The spread after moving one back: the previous, or the first. An index
/// that is negative as an `isize` counts as the first.
pub open spec fn page_subtracted(current: Option<usize>) -> Option<usize> {
    match current {
        Some(i) => if 0 < i <= isize::MAX {
            Some((i - 1) as usize)
        } else {
            Some(0usize)
        },
        None => None,
    }
}

/// The volume after moving one forward: the next, or the last.
pub open spec fn volume_added(volume: Option<usize>, len: nat) -> Option<usize> {
    match volume {
        Some(i) => if i + 1 < len {
            Some((i + 1) as usize)
        } else {
            Some((len - 1) as usize)
        },
        None => None,
    }
}

/// The volume after moving one back: the previous, or the first.
pub open spec fn volume_subtracted(volume: Option<usize>) -> Option<usize> {
    match volume {
        Some(i) => if i > 0 {
            Some((i - 1) as usize)
        } else {
            Some(0usize)
        },
        None => None,
    }
}

/// There is a next volume to read.
pub open spec fn has_next_volume(volume: Option<usize>, len: nat) -> bool {
    &&& len > 0
    &&& volume matches Some(i) && i != len - 1
}

/// There is a previous volume to read.
pub open spec fn has_prev_volume(volume: Option<usize>, len: nat) -> bool {
    &&& len > 0
    &&& volume matches Some(i) && i != 0
}

/// What turning a page asks for.
#[derive(Debug)]
pub enum Turn {
    /// The page turned within the book: the page now shown.
    Page(Option<usize>),
    /// The book was closed to read the volume at this path: open it with
    /// `open_book`, then call `volume_loaded`.
    Open(String),
}

impl OpenFile {
    /// Whether the first spread is on screen.
    fn is_first_page(&self) -> (res: bool)
        ensures
            res == first_page_spec(self.spec_current()),
    {
        let Some(index) = self.current_spread else {
            return false;
        };
        index == 0
    }

    /// Whether the last spread is on screen.
    fn is_last_page(&self) -> (res: bool)
        ensures
            res == last_page_spec(self.spec_current(), self.spec_spreads().len()),
    {
        let Some(index) = self.current_spread else {
            return false;
        };
        index >= self.spreads.len().saturating_sub(1)
    }

    /// Moves one spread forward; whether there was a spread on screen.
    fn page_add(&mut self) -> (res: bool)
        requires
            old(self).spec_current() is Some ==> old(self).spec_spreads().len() > 0,
        ensures
            res == old(self).spec_current() is Some,
            final(self).spec_current() == page_added(
                old(self).spec_current(),
                old(self).spec_spreads().len(),
            ),
            final(self).spec_page() == old(self).spec_page(),
            final(self).spec_spreads() == old(self).spec_spreads(),
            final(self).spec_book() == old(self).spec_book(),
            same_library(*final(self), *old(self)),
    {
        if let Some(index) = self.current_spread {
            if index < self.spreads.len() - 1 {
                self.current_spread = Some(index + 1);
            } else {
                self.current_spread = Some(self.spreads.len() - 1);
            }
            return true;
        }
        return false;
    }

    /// Moves one spread back; whether there was a spread on screen.
    fn page_subtract(&mut self) -> (res: bool)
        ensures
            res == old(self).spec_current() is Some,
            final(self).spec_current() == page_subtracted(old(self).spec_current()),
            final(self).spec_page() == old(self).spec_page(),
            final(self).spec_spreads() == old(self).spec_spreads(),
            final(self).spec_book() == old(self).spec_book(),
            same_library(*final(self), *old(self)),
    {
        if let Some(index) = self.current_spread {
            if index_is_positive(index) {
                self.current_spread = Some(index - 1);
            } else {
                self.current_spread = Some(0);
            }
            return true;
        }
        return false;
    }

    /// Moves to the next volume.
    fn volume_add(&mut self)
        requires
            old(self).wf(),
            old(self).spec_library().spec_entries().len() > 0,
        ensures
            final(self).wf(),
            final(self).spec_volume() == volume_added(
                old(self).spec_volume(),
                old(self).spec_library().spec_entries().len(),
            ),
            final(self).spec_library() == old(self).spec_library(),
            final(self).spec_page() == old(self).spec_page(),
            final(self).spec_book() == old(self).spec_book(),
            same_spreads(*final(self), *old(self)),
    {
        if let Some(index) = self.volume {
            let len = self.library.len();
            if index + 1 < len {
                self.volume = Some(index + 1);
            } else {
                self.volume = Some(len - 1);
            }
        }
    }

    /// Moves to the previous volume.
    fn volume_subtract(&mut self)
        requires
            old(self).wf(),
        ensures
            final(self).wf(),
            final(self).spec_volume() == volume_subtracted(old(self).spec_volume()),
            final(self).spec_library() == old(self).spec_library(),
            final(self).spec_page() == old(self).spec_page(),
            final(self).spec_book() == old(self).spec_book(),
            same_spreads(*final(self), *old(self)),
    {
        if let Some(index) = self.volume {
            if index > 0 {
                self.volume = Some(index - 1);
            } else {
                self.volume = Some(0);
            }
        }
    }
}

/// The book was closed: no image, no archive, no title; the path and the
/// numbering of images are kept.
pub open spec fn book_closed(after: Book, before: Book) -> bool {
    &&& after.spec_images() == Seq::<ImageView>::empty()
    &&& !after.has_archive()
    &&& after.spec_title() == Seq::<char>::empty()
    &&& after.spec_path() == before.spec_path()
    &&& after.spec_next_id() == before.spec_next_id()
    &&& after.wf()
}

/// Turning a page moves forward through the book (toward its end).
pub open spec fn turns_forward(read_from: ReadFrom, left: bool) -> bool {
    (read_from == ReadFrom::RightToLeft) == left
}

/// What turning a page does, when it stays within the book or cannot leave
/// it: the spread on screen and the page after the turn.
pub open spec fn turned_current(s: OpenFile, forward: bool) -> Option<usize> {
    if forward {
        if last_page_spec(s.spec_current(), s.spec_spreads().len()) {
            s.spec_current()
        } else {
            page_added(s.spec_current(), s.spec_spreads().len())
        }
    } else {
        if first_page_spec(s.spec_current()) {
            s.spec_current()
        } else {
            page_subtracted(s.spec_current())
        }
    }
}

/// Turning a page leaves the book for a neighbouring volume: the book is at
/// its edge in that direction and there is a volume there.
pub open spec fn leaves_book(s: OpenFile, forward: bool) -> bool {
    let n = s.spec_library().spec_entries().len();
    if forward {
        last_page_spec(s.spec_current(), s.spec_spreads().len()) && has_next_volume(s.spec_volume(), n)
    } else {
        first_page_spec(s.spec_current()) && has_prev_volume(s.spec_volume(), n)
    }
}

/// The volume turning a page moves to.
pub open spec fn next_volume_of(s: OpenFile, forward: bool) -> usize {
    let n = s.spec_library().spec_entries().len();
    if forward {
        volume_added(s.spec_volume(), n).unwrap()
    } else {
        volume_subtracted(s.spec_volume()).unwrap()
    }
}

/// The outcome of turning a page in direction `forward` from state `old`.
pub open spec fn turn_spec(old: OpenFile, new: OpenFile, forward: bool, res: Turn) -> bool {
    if leaves_book(old, forward) {
        let v = next_volume_of(old, forward);
        &&& res matches Turn::Open(p) && p@ == old.spec_library().spec_entries()[v as int].path
        &&& new.spec_volume() == Some(v)
        &&& new.spec_library() == old.spec_library()
        &&& book_closed(new.spec_book(), old.spec_book())
        &&& new.spec_page() is None
        &&& new.spec_current() is None
        &&& new.spec_spreads() == old.spec_spreads()
    } else {
        let at_edge = if forward {
            last_page_spec(old.spec_current(), old.spec_spreads().len())
        } else {
            first_page_spec(old.spec_current())
        };
        &&& new.spec_current() == turned_current(old, forward)
        &&& new.spec_page() == if at_edge {
            old.spec_page()
        } else {
            updated_page(old.spec_spreads(), new.spec_current(), old.spec_page())
        }
        &&& res == Turn::Page(new.spec_page())
        &&& new.spec_book() == old.spec_book()
        &&& new.spec_spreads() == old.spec_spreads()
        &&& same_library(new, old)
    }
}

impl OpenFile {
    /// Closes the book to read the current volume: answers its path.
    fn read_book_from_library(&mut self) -> (res: Option<String>)
        requires
            old(self).wf(),
        ensures
            final(self).wf(),
            match old(self).spec_volume() {
                Some(v) => {
                    &&& res matches Some(p) && p@ == old(self).spec_library().spec_entries()[v as int].path
                    &&& book_closed(final(self).spec_book(), old(self).spec_book())
                    &&& final(self).spec_page() is None
                    &&& final(self).spec_current() is None
                    &&& final(self).spec_spreads() == old(self).spec_spreads()
                    &&& same_library(*final(self), *old(self))
                },
                None => res is None && *final(self) == *old(self),
            },
    {
        let Some(index) = self.volume else {
            return None;
        };
        let Some(entry) = self.library.get(index) else {
            return None;
        };
        let path = entry.path().clone();
        self.book.clear();
        self.page = None;
        self.current_spread = None;
        Some(path)
    }

    /// Moves to the next volume and closes the book to read it: answers its
    /// path, or `None` when there is no next volume.
    fn read_next_library(&mut self) -> (res: Option<String>)
        requires
            old(self).wf(),
        ensures
            final(self).wf(),
            !has_next_volume(old(self).spec_volume(), old(self).spec_library().spec_entries().len())
                ==> res is None && *final(self) == *old(self),
            has_next_volume(old(self).spec_volume(), old(self).spec_library().spec_entries().len())
                ==> {
                let v = volume_added(
                    old(self).spec_volume(),
                    old(self).spec_library().spec_entries().len(),
                ).unwrap();
                &&& res matches Some(p) && p@ == old(self).spec_library().spec_entries()[v as int].path
                &&& final(self).spec_volume() == Some(v)
                &&& final(self).spec_library() == old(self).spec_library()
                &&& book_closed(final(self).spec_book(), old(self).spec_book())
                &&& final(self).spec_page() is None
                &&& final(self).spec_current() is None
                &&& final(self).spec_spreads() == old(self).spec_spreads()
            },
    {
        if self.library.len() == 0 {
            return None;
        }
        let Some(index) = self.volume else {
            return None;
        };
        if index == self.library.len() - 1 {
            return None;
        }
        self.volume_add();
        self.read_book_from_library()
    }

    /// Moves to the previous volume and closes the book to read it: answers
    /// its path, or `None` when there is no previous volume.
    fn read_prev_library(&mut self) -> (res: Option<String>)
        requires
            old(self).wf(),
        ensures
            final(self).wf(),
            !has_prev_volume(old(self).spec_volume(), old(self).spec_library().spec_entries().len())
                ==> res is None && *final(self) == *old(self),
            has_prev_volume(old(self).spec_volume(), old(self).spec_library().spec_entries().len())
                ==> {
                let v = volume_subtracted(old(self).spec_volume()).unwrap();
                &&& res matches Some(p) && p@ == old(self).spec_library().spec_entries()[v as int].path
                &&& final(self).spec_volume() == Some(v)
                &&& final(self).spec_library() == old(self).spec_library()
                &&& book_closed(final(self).spec_book(), old(self).spec_book())
                &&& final(self).spec_page() is None
                &&& final(self).spec_current() is None
                &&& final(self).spec_spreads() == old(self).spec_spreads()
            },
    {
        if self.library.len() == 0 {
            return None;
        }
        let Some(index) = self.volume else {
            return None;
        };
        if index == 0 {
            return None;
        }
        self.volume_subtract();
        self.read_book_from_library()
    }

    /// Turns forward (toward the end of the book) or back; at the edge of
    /// the book, moves to the neighbouring volume.
    fn turn(&mut self, forward: bool) -> (res: Turn)
        requires
            old(self).wf(),
        ensures
            final(self).wf(),
            turn_spec(*old(self), *final(self), forward, res),
    {
        if forward {
            if self.is_last_page() {
                match self.read_next_library() {
                    Some(p) => Turn::Open(p),
                    None => Turn::Page(self.page),
                }
            } else {
                if self.page_add() {
                    self.update_page();
                }
                Turn::Page(self.page)
            }
        } else {
            if self.is_first_page() {
                match self.read_prev_library() {
                    Some(p) => Turn::Open(p),
                    None => Turn::Page(self.page),
                }
            } else {
                if self.page_subtract() {
                    self.update_page();
                }
                Turn::Page(self.page)
            }
        }
    }

    /// Turns the page to the left: forward when reading right to left, back
    /// when reading left to right. When the book is at its edge and the
    /// library has a volume in that direction, the book is closed and the
    /// path of that volume is answered, to be opened with `open_book` and
    /// shown with `volume_loaded`.
    pub fn left_page(&mut self, app: &App) -> (res: Turn)
        requires
            old(self).wf(),
        ensures
            final(self).wf(),
            turn_spec(*old(self), *final(self), turns_forward(app.spec_read_from(), true), res),
    {
        let forward = match app.read_from() {
            ReadFrom::RightToLeft => true,
            ReadFrom::LeftToRight => false,
        };
        self.turn(forward)
    }

    /// Turns the page to the right: back when reading right to left, forward
    /// when reading left to right.
    pub fn right_page(&mut self, app: &App) -> (res: Turn)
        requires
            old(self).wf(),
        ensures
            final(self).wf(),
            turn_spec(*old(self), *final(self), turns_forward(app.spec_read_from(), false), res),
    {
        let forward = match app.read_from() {
            ReadFrom::RightToLeft => false,
            ReadFrom::LeftToRight => true,
        };
        self.turn(forward)
    }

    /// Shows the volume opened after a turn: rebuilds the spreads for the
    /// settings and answers the page shown.
    pub fn volume_loaded(&mut self, app: &App) -> (res: Option<usize>)
        ensures
            final(self).spec_spreads() == build_spreads_spec(
                landscape_of(old(self).spec_book().spec_images()),
                app.spec_cover_layout(),
                app.spec_page_layout(),
            ),
            final(self).spec_current() == current_after_build(
                final(self).spec_spreads(),
                old(self).spec_page(),
            ),
            final(self).spec_page() == updated_page(
                final(self).spec_spreads(),
                final(self).spec_current(),
                old(self).spec_page(),
            ),
            final(self).spec_book() == old(self).spec_book(),
            same_library(*final(self), *old(self)),
            res == final(self).spec_page(),
    {
        self.build_spreads(*app.cover_layout(), *app.page_layout());
        self.page
    }
}

impl OpenFile {
    /// Finishes opening a book from `path` once its files have been added to
    /// the book (see `Book::image_new`): puts the book in order, and when it
    /// has pages, starts at the image file the path names (or at the first
    /// page), adds the path's volumes to the library (`kind` is what the file
    /// system says of `path`, `listing` the listing of the folder
    /// `Library::listing_dir` names) and finds the book's volume.
    /// `first_is_file` says whether the path of the image shown first
    /// (`Book::first_path`) names a file on disk. Answers whether the book
    /// has pages.
    pub fn open_book(
        &mut self,
        path: &str,
        first_is_file: bool,
        kind: &EntryKind,
        listing: &Listing,
    ) -> (res: Result<bool, GachoError>)
        requires
            old(self).wf(),
        ensures
            final(self).wf(),
            final(self).spec_book().spec_images() == crate::file::book::sorted_images(
                old(self).spec_book().spec_image_values(),
            ),
            final(self).spec_book().spec_path() == path@,
            final(self).spec_book().spec_title() == if final(self).spec_book().spec_len() > 0 {
                crate::file::book::book_title_of(
                    crate::file::book::title_source(final(self).spec_book().spec_images()[0], first_is_file),
                )
            } else {
                old(self).spec_book().spec_title()
            },
            final(self).spec_book().has_archive() == old(self).spec_book().has_archive(),
            final(self).spec_book().spec_archive_files() == old(self).spec_book().spec_archive_files(),
            final(self).spec_book().spec_archive_contents() == old(
                self,
            ).spec_book().spec_archive_contents(),
            same_spreads(*final(self), *old(self)),
            final(self).spec_book().spec_len() == 0 ==> {
                &&& res matches Ok(b) && !b
                &&& final(self).spec_page() == old(self).spec_page()
                &&& same_library(*final(self), *old(self))
            },
            final(self).spec_book().spec_len() > 0 ==> {
                let r = add_entry_spec(
                    old(self).spec_library().spec_entries(),
                    old(self).spec_library().spec_next_id(),
                    path@,
                    *kind,
                    *listing,
                );
                &&& final(self).spec_page() == match opened_image_name(path@) {
                    Some(n) => match index_by_filename(final(self).spec_book().spec_images(), n) {
                        Some(i) => Some(i as usize),
                        None => None,
                    },
                    None => Some(0usize),
                }
                &&& final(self).spec_library().spec_entries() == r.1
                &&& final(self).spec_library().spec_next_id() == r.2
                &&& match r.0 {
                    Ok(()) => {
                        &&& res matches Ok(b) && b
                        &&& final(self).spec_volume() == match index_of_path(r.1, path@) {
                            Some(i) => Some(i as usize),
                            None => None,
                        }
                    },
                    Err(e) => {
                        &&& res matches Err(x) && x@ == e
                        &&& final(self).spec_volume() == old(self).spec_volume()
                    },
                }
            },
    {
        let image_name = self.book.open_from_path(path, first_is_file);
        if self.book.is_empty() {
            return Ok(false);
        }
        self.page = match image_name {
            Some(name) => self.book.get_index_by_filename(name.as_str()),
            None => Some(0),
        };
        proof {
            crate::file::library::lemma_add_entry_grows(
                self.library.spec_entries(),
                self.library.spec_next_id(),
                path@,
                *kind,
                *listing,
            );
        }
        self.library.add_entry(path, kind, listing)?;
        self.volume = self.library.get_index_by_path(self.book.path().as_str());
        Ok(true)
    }
}

/// The spread `page_images` reads: the current one moved by the offset;
/// `None` when there is no current spread or the move leaves the range of
/// `usize`.
pub open spec fn offset_spread(current: Option<usize>, offset: Option<isize>) -> Option<int> {
    match current {
        None => None,
        Some(c) => match offset {
            None => Some(c as int),
            Some(o) => if 0 <= c + o <= usize::MAX {
                Some(c + o)
            } else {
                None
            },
        },
    }
}

/// The pages of a spread in the order they are read from the book.
pub open spec fn spread_pages(s: Spread) -> Seq<int> {
    match s {
        Spread::Single { index } => seq![index as int],
        Spread::Pair { left, right } => seq![left as int, right as int],
    }
}

/// Reading the images of some pages in turn: the images found (`None` when a
/// read fails) and the state after.
pub open spec fn ensure_all(st: BookState, pages: Seq<int>) -> (Option<Seq<ImageView>>, BookState)
    decreases pages.len(),
{
    if pages.len() == 0 {
        (Some(Seq::empty()), st)
    } else {
        match ensure_step(st, pages[0]) {
            None => (None, st),
            Some((img, st2)) => {
                let r = ensure_all(st2, pages.drop_first());
                (
                    match r.0 {
                        Some(rest) => Some(
                            match img {
                                Some(i) => seq![i] + rest,
                                None => rest,
                            },
                        ),
                        None => None,
                    },
                    r.1,
                )
            },
        }
    }
}

/// The views of a list of images.
pub open spec fn image_views(v: Seq<Image>) -> Seq<ImageView> {
    v.map_values(|i: Image| i@)
}

impl OpenFile {
    /// The images of the spread `offset` spreads away from the current one
    /// (the current one when `offset` is `None`), their bytes read from the
    /// archive if needed: one image, or the left then the right image of a
    /// pair. Empty when no spread is on screen or the offset leaves the range
    /// of indices; an index error when there is no such spread.
    pub fn page_images(&mut self, offset: Option<isize>) -> (res: Result<Vec<Image>, GachoError>)
        requires
            old(self).wf(),
        ensures
            final(self).wf(),
            final(self).spec_page() == old(self).spec_page(),
            same_spreads(*final(self), *old(self)),
            same_library(*final(self), *old(self)),
            final(self).spec_book().spec_title() == old(self).spec_book().spec_title(),
            final(self).spec_book().spec_path() == old(self).spec_book().spec_path(),
            final(self).spec_book().spec_next_id() == old(self).spec_book().spec_next_id(),
            match offset_spread(old(self).spec_current(), offset) {
                None => res matches Ok(v) && v@.len() == 0 && book_state(final(self).spec_book())
                    == book_state(old(self).spec_book()),
                Some(t) => if t >= old(self).spec_spreads().len() {
                    &&& res matches Err(e) && e@ == GachoErrorView::IndexError(t as usize)
                    &&& book_state(final(self).spec_book()) == book_state(old(self).spec_book())
                } else {
                    let r = ensure_all(
                        book_state(old(self).spec_book()),
                        spread_pages(old(self).spec_spreads()[t]),
                    );
                    &&& book_state(final(self).spec_book()) == r.1
                    &&& match r.0 {
                        Some(v) => res matches Ok(images) && image_views(images@) == v,
                        None => res matches Err(e) && e@ is ArchiveError,
                    }
                },
            },
    {
        let Some(mut current_index) = self.current_spread else {
            return Ok(Vec::new());
        };
        if let Some(offset) = offset {
            if offset > 0 {
                let Some(add_index) = current_index.checked_add(unsigned_abs(offset)) else {
                    return Ok(Vec::new());
                };
                current_index = add_index;
            } else {
                let Some(sub_index) = current_index.checked_sub(unsigned_abs(offset)) else {
                    return Ok(Vec::new());
                };
                current_index = sub_index;
            }
        }
        if current_index >= self.spreads.len() {
            return Err(GachoError::IndexError(current_index));
        }
        let ghost st0 = book_state(self.book);
        proof {
            reveal_with_fuel(ensure_all, 3);
        }
        let mut images: Vec<Image> = Vec::new();
        match self.spreads[current_index] {
            Spread::Single { index } => {
                let image = self.book.ensure_image_by_index(index)?;
                if let Some(image) = image {
                    images.push(image);
                }
                proof {
                    let pages = spread_pages(self.spreads@[current_index as int]);
                    assert(pages.drop_first() =~= Seq::<int>::empty());
                    assert(image_views(images@) =~= ensure_all(st0, pages).0.unwrap());
                }
            },
            Spread::Pair { left, right } => {
                let ghost pages = spread_pages(self.spreads@[current_index as int]);
                let image = self.book.ensure_image_by_index(left)?;
                let ghost st1 = book_state(self.book);
                if let Some(image) = image {
                    images.push(image);
                }
                let ghost first = images@;
                proof {
                    assert(pages.drop_first() =~= seq![right as int]);
                    assert(pages.drop_first().drop_first() =~= Seq::<int>::empty());
                }
                let image = match self.book.ensure_image_by_index(right) {
                    Ok(i) => i,
                    Err(e) => {
                        return Err(e);
                    },
                };
                if let Some(image) = image {
                    images.push(image);
                }
                proof {
                    assert(image_views(images@) =~= ensure_all(st0, pages).0.unwrap());
                }
            },
        }
        Ok(images)
    }
}

/// The pages of a spread in page order.
pub open spec fn spread_page_order(s: Spread) -> Seq<int> {
    match s {
        Spread::Single { index } => seq![index as int],
        Spread::Pair { left, right } => seq![right as int, left as int],
    }
}

/// The pages the spreads show, spread after spread.
pub open spec fn shown_pages(spreads: Seq<Spread>) -> Seq<int>
    decreases spreads.len(),
{
    if spreads.len() == 0 {
        Seq::empty()
    } else {
        spread_page_order(spreads[0]) + shown_pages(spreads.drop_first())
    }
}

/// The pages from `lo` up to `hi`, in order.
pub open spec fn page_range(lo: int, hi: int) -> Seq<int> {
    Seq::new((if hi > lo {
        hi - lo
    } else {
        0
    }) as nat, |k: int| lo + k)
}

/// A pair holds two facing portrait pages, the left one after the right one,
/// and only appears when pages are shown as spreads.
pub open spec fn pair_fits(s: Spread, landscape: Seq<bool>, layout: PageLayout) -> bool {
    match s {
        Spread::Pair { left, right } => {
            &&& layout == PageLayout::Spread
            &&& left == right + 1
            &&& left < landscape.len()
            &&& !landscape[left as int]
            &&& !landscape[right as int]
        },
        Spread::Single { .. } => true,
    }
}

/// Every pair of the spreads fits.
pub open spec fn well_paired(spreads: Seq<Spread>, landscape: Seq<bool>, layout: PageLayout) -> bool {
    forall|k: int| 0 <= k < spreads.len() ==> pair_fits(#[trigger] spreads[k], landscape, layout)
}

proof fn lemma_shown_pages_cons(s: Spread, rest: Seq<Spread>)
    ensures
        shown_pages(seq![s] + rest) == spread_page_order(s) + shown_pages(rest),
{
    assert((seq![s] + rest).drop_first() =~= rest);
}

proof fn lemma_well_paired_cons(s: Spread, rest: Seq<Spread>, ls: Seq<bool>, layout: PageLayout)
    requires
        pair_fits(s, ls, layout),
        well_paired(rest, ls, layout),
    ensures
        well_paired(seq![s] + rest, ls, layout),
{
    let all = seq![s] + rest;
    assert forall|k: int| 0 <= k < all.len() implies pair_fits(#[trigger] all[k], ls, layout) by {
        if k > 0 {
            assert(all[k] == rest[k - 1]);
        }
    }
}

proof fn lemma_spreads_from_pages(ls: Seq<bool>, single: bool, i: int)
    requires
        0 <= i <= ls.len(),
        ls.len() <= usize::MAX,
    ensures
        shown_pages(spreads_from(ls, single, i)) == page_range(i, ls.len() as int),
        well_paired(
            spreads_from(ls, single, i),
            ls,
            if single {
                PageLayout::Single
            } else {
                PageLayout::Spread
            },
        ),
    decreases ls.len() - i,
{
    let layout = if single {
        PageLayout::Single
    } else {
        PageLayout::Spread
    };
    let n = ls.len() as int;
    if i == n {
        assert(page_range(i, n) =~= Seq::<int>::empty());
    } else {
        lemma_spreads_from_step(ls, single, i);
        if single || ls[i] || !(i + 1 < n && !ls[i + 1]) {
            let head = Spread::Single { index: i as usize };
            let rest = spreads_from(ls, single, i + 1);
            lemma_spreads_from_pages(ls, single, i + 1);
            lemma_shown_pages_cons(head, rest);
            assert(seq![i] + page_range(i + 1, n) =~= page_range(i, n));
            lemma_well_paired_cons(head, rest, ls, layout);
        } else {
            let head = Spread::Pair { left: (i + 1) as usize, right: i as usize };
            let rest = spreads_from(ls, single, i + 2);
            lemma_spreads_from_pages(ls, single, i + 2);
            lemma_shown_pages_cons(head, rest);
            assert(seq![i, i + 1] + page_range(i + 2, n) =~= page_range(i, n));
            lemma_well_paired_cons(head, rest, ls, layout);
        }
    }
}

/// Law: the spreads show every page of the book exactly once, in page order;
/// a pair holds two facing portrait pages and only appears when pages are
/// shown as spreads; with a single cover, the cover is shown alone.
pub proof fn lemma_spreads_partition(ls: Seq<bool>, cover: CoverLayout, layout: PageLayout)
    requires
        ls.len() <= usize::MAX,
    ensures
        shown_pages(build_spreads_spec(ls, cover, layout)) == page_range(0, ls.len() as int),
        well_paired(build_spreads_spec(ls, cover, layout), ls, layout),
        ls.len() > 0 && cover == CoverLayout::Single ==> build_spreads_spec(ls, cover, layout)[0]
            == (Spread::Single { index: 0 }),
{
    let single = layout == PageLayout::Single;
    let n = ls.len() as int;
    assert(layout == if single {
        PageLayout::Single
    } else {
        PageLayout::Spread
    });
    if n > 0 && cover == CoverLayout::Single {
        lemma_spreads_from_pages(ls, single, 1);
        let rest = spreads_from(ls, single, 1);
        lemma_shown_pages_cons(Spread::Single { index: 0 }, rest);
        assert(seq![0int] + page_range(1, n) =~= page_range(0, n));
        lemma_well_paired_cons(Spread::Single { index: 0 }, rest, ls, layout);
    } else {
        lemma_spreads_from_pages(ls, single, 0);
    }
}

proof fn lemma_shown_page_found(spreads: Seq<Spread>, p: int, j: int)
    requires
        0 <= j < shown_pages(spreads).len(),
        shown_pages(spreads)[j] == p,
    ensures
        spread_of_page(spreads, p) matches Some(k) && 0 <= k < spreads.len() && spread_shows(
            spreads[k],
            p,
        ),
    decreases spreads.len(),
{
    if spreads.len() > 0 {
        let head = spread_page_order(spreads[0]);
        assert(shown_pages(spreads) == head + shown_pages(spreads.drop_first()));
        if spread_shows(spreads[0], p) {
        } else if j < head.len() {
            assert(spread_shows(spreads[0], p));
        } else {
            lemma_shown_page_found(spreads.drop_first(), p, j - head.len());
            let k = spread_of_page(spreads.drop_first(), p).unwrap();
            assert(spreads.drop_first()[k] == spreads[k + 1]);
        }
    }
}

proof fn lemma_shown_pages_len(spreads: Seq<Spread>)
    ensures
        spreads.len() <= shown_pages(spreads).len(),
    decreases spreads.len(),
{
    if spreads.len() > 0 {
        lemma_shown_pages_len(spreads.drop_first());
    }
}

/// Law: after the spreads are rebuilt, the spread on screen shows the page
/// that was current, and the page becomes that page or, when it was the left
/// page of a pair, the page before it.
pub proof fn lemma_build_keeps_page(ls: Seq<bool>, cover: CoverLayout, layout: PageLayout, p: usize)
    requires
        p < ls.len(),
        ls.len() <= usize::MAX,
    ensures
        ({
            let spreads = build_spreads_spec(ls, cover, layout);
            let current = current_after_build(spreads, Some(p));
            let page = updated_page(spreads, current, Some(p));
            &&& current matches Some(k) && k < spreads.len() && spread_shows(spreads[k as int], p as int)
            &&& page == Some(p) || (p > 0 && page == Some((p - 1) as usize))
        }),
{
    let spreads = build_spreads_spec(ls, cover, layout);
    lemma_spreads_partition(ls, cover, layout);
    assert(shown_pages(spreads)[p as int] == p as int);
    lemma_shown_page_found(spreads, p as int, p as int);
    let k = spread_of_page(spreads, p as int).unwrap();
    lemma_shown_pages_len(spreads);
    assert(k as usize as int == k);
    let current = current_after_build(spreads, Some(p));
    assert(current == Some(k as usize));
    assert(pair_fits(spreads[k], ls, layout));
    assert(updated_page(spreads, current, Some(p)) == Some(spread_page(spreads[k])));
}

/// Law: inside the book, turning forward and then back returns to the same
/// spread, and the page is that spread's page.
pub proof fn lemma_turn_round_trip(s0: OpenFile, s1: OpenFile, s2: OpenFile, r1: Turn, r2: Turn, i: usize)
    requires
        s0.spec_current() == Some(i),
        i + 1 < s0.spec_spreads().len(),
        i + 1 <= isize::MAX,
        turn_spec(s0, s1, true, r1),
        turn_spec(s1, s2, false, r2),
    ensures
        s2.spec_current() == Some(i),
        s2.spec_page() == Some(spread_page(s0.spec_spreads()[i as int])),
        s2.spec_spreads() == s0.spec_spreads(),
        s2.spec_book() == s0.spec_book(),
        same_library(s2, s0),
{
}

/// Law: when a forward turn (`left_page` reading right to left, `right_page`
/// reading left to right) leaves the book, it opens the volume right after
/// the current one in the library: the volume index goes up by exactly one.
pub proof fn lemma_forward_turn_opens_next_volume(s0: OpenFile, s1: OpenFile, res: Turn, v: usize)
    requires
        s0.wf(),
        turn_spec(s0, s1, true, res),
        leaves_book(s0, true),
        s0.spec_volume() == Some(v),
    ensures
        v + 1 < s0.spec_library().spec_entries().len(),
        s1.spec_volume() matches Some(w) && w == v + 1,
        res matches Turn::Open(p) && p@ == s0.spec_library().spec_entries()[v + 1].path,
        s1.spec_library() == s0.spec_library(),
{
    s0.spec_library().lemma_entries_fit();
    assert(next_volume_of(s0, true) == (v + 1) as usize);
}

/// Law: when a backward turn leaves the book, it opens the volume right
/// before the current one in the library: the volume index goes down by
/// exactly one.
pub proof fn lemma_backward_turn_opens_previous_volume(s0: OpenFile, s1: OpenFile, res: Turn, v: usize)
    requires
        s0.wf(),
        turn_spec(s0, s1, false, res),
        leaves_book(s0, false),
        s0.spec_volume() == Some(v),
    ensures
        v >= 1,
        s1.spec_volume() matches Some(w) && w == v - 1,
        res matches Turn::Open(p) && p@ == s0.spec_library().spec_entries()[v - 1].path,
        s1.spec_library() == s0.spec_library(),
{
    s0.spec_library().lemma_entries_fit();
    assert(next_volume_of(s0, false) == (v - 1) as usize);
}

/// Law: a page wider than it is high is never one of the two pages of a
/// pair: `build_spreads` shows it on its own.
pub proof fn lemma_wide_pages_stand_alone(images: Seq<ImageView>, cover: CoverLayout, layout: PageLayout)
    requires
        images.len() <= usize::MAX,
    ensures
        ({
            let spreads = build_spreads_spec(landscape_of(images), cover, layout);
            &&& forall|k: int|
                0 <= k < spreads.len() ==> (#[trigger] spreads[k] matches Spread::Pair { left, right } ==> {
                    &&& left < images.len() && right < images.len()
                    &&& images[left as int].width <= images[left as int].height
                    &&& images[right as int].width <= images[right as int].height
                })
            &&& forall|p: int|
                0 <= p < images.len() && #[trigger] images[p].width > images[p].height ==> exists|k: int|
                    0 <= k < spreads.len() && spreads[k] == (Spread::Single { index: p as usize })
        }),
{
    let ls = landscape_of(images);
    let spreads = build_spreads_spec(ls, cover, layout);
    lemma_spreads_partition(ls, cover, layout);
    assert forall|k: int|
        0 <= k < spreads.len() implies (#[trigger] spreads[k] matches Spread::Pair { left, right } ==> {
            &&& left < images.len() && right < images.len()
            &&& images[left as int].width <= images[left as int].height
            &&& images[right as int].width <= images[right as int].height
        }) by {
        assert(pair_fits(spreads[k], ls, layout));
        if let Spread::Pair { left, right } = spreads[k] {
            assert(ls[left as int] == is_landscape_image(images[left as int]));
            assert(ls[right as int] == is_landscape_image(images[right as int]));
        }
    }
    assert forall|p: int|
        0 <= p < images.len() && #[trigger] images[p].width > images[p].height implies exists|k: int|
            0 <= k < spreads.len() && spreads[k] == (Spread::Single { index: p as usize }) by {
        assert(shown_pages(spreads)[p] == p);
        lemma_shown_page_found(spreads, p, p);
        let k = spread_of_page(spreads, p).unwrap();
        assert(pair_fits(spreads[k], ls, layout));
        assert(ls[p] == is_landscape_image(images[p]));
        match spreads[k] {
            Spread::Single { index } => {
                assert(index == p);
                assert(spreads[k] == (Spread::Single { index: p as usize }));
            },
            Spread::Pair { left, right } => {
                assert(false);
            },
        }
    }
}

/// Shown as spreads from page `i` on, a page alone is one of those pages,
/// and when it is portrait it is the last page or the next page is landscape.
proof fn lemma_lone_pages_from(ls: Seq<bool>, i: int)
    requires
        0 <= i <= ls.len(),
        ls.len() <= usize::MAX,
    ensures
        forall|k: int|
            0 <= k < spreads_from(ls, false, i).len() ==> (#[trigger] spreads_from(ls, false, i)[k] matches Spread::Single { index } ==> {
                &&& i <= index < ls.len()
                &&& !ls[index as int] ==> index + 1 == ls.len() || ls[index + 1]
            }),
    decreases ls.len() - i,
{
    if i < ls.len() {
        lemma_spreads_from_step(ls, false, i);
        let all = spreads_from(ls, false, i);
        if ls[i] || !(i + 1 < ls.len() && !ls[i + 1]) {
            lemma_lone_pages_from(ls, i + 1);
            let rest = spreads_from(ls, false, i + 1);
            assert(all[0] == (Spread::Single { index: i as usize }));
            assert forall|k: int| 0 <= k < all.len() implies (#[trigger] all[k] matches Spread::Single { index } ==> {
                &&& i <= index < ls.len()
                &&& !ls[index as int] ==> index + 1 == ls.len() || ls[index + 1]
            }) by {
                if k > 0 {
                    assert(all[k] == rest[k - 1]);
                }
            }
        } else {
            lemma_lone_pages_from(ls, i + 2);
            let rest = spreads_from(ls, false, i + 2);
            assert forall|k: int| 0 <= k < all.len() implies (#[trigger] all[k] matches Spread::Single { index } ==> {
                &&& i <= index < ls.len()
                &&& !ls[index as int] ==> index + 1 == ls.len() || ls[index + 1]
            }) by {
                if k > 0 {
                    assert(all[k] == rest[k - 1]);
                }
            }
        }
    }
}

/// Law: when pages are shown as spreads, a page that is not wider than it is
/// high stands alone only when it is the cover shown alone, when it is the
/// last page, or when the page after it is wider than it is high; every other
/// such page shares its spread with a neighbour.
pub proof fn lemma_tall_pages_pair_up(images: Seq<ImageView>, cover: CoverLayout)
    requires
        images.len() <= usize::MAX,
    ensures
        ({
            let spreads = build_spreads_spec(landscape_of(images), cover, PageLayout::Spread);
            forall|k: int|
                0 <= k < spreads.len() ==> (#[trigger] spreads[k] matches Spread::Single { index } ==> {
                    &&& index < images.len()
                    &&& images[index as int].width <= images[index as int].height ==> {
                        ||| cover == CoverLayout::Single && index == 0
                        ||| index + 1 == images.len()
                        ||| images[index + 1].width > images[index + 1].height
                    }
                })
        }),
{
    let ls = landscape_of(images);
    let spreads = build_spreads_spec(ls, cover, PageLayout::Spread);
    assert forall|k: int| 0 <= k < spreads.len() implies (#[trigger] spreads[k] matches Spread::Single { index } ==> {
        &&& index < images.len()
        &&& images[index as int].width <= images[index as int].height ==> {
            ||| cover == CoverLayout::Single && index == 0
            ||| index + 1 == images.len()
            ||| images[index + 1].width > images[index + 1].height
        }
    }) by {
        if ls.len() > 0 && cover == CoverLayout::Single {
            lemma_lone_pages_from(ls, 1);
            if k > 0 {
                assert(spreads[k] == spreads_from(ls, false, 1)[k - 1]);
            }
        } else {
            lemma_lone_pages_from(ls, 0);
        }
        if let Spread::Single { index } = spreads[k] {
            if index < images.len() {
                assert(ls[index as int] == is_landscape_image(images[index as int]));
                if index + 1 < images.len() {
                    assert(ls[index + 1] == is_landscape_image(images[index + 1]));
                }
            }
        }
    }
}

} // verus!
