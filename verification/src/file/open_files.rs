//! The dropped book as the page-by-page reader shows it: the book and the
//! index of the page on screen, moved a page (or a spread of two pages) at a
//! time.
use vstd::prelude::*;
use crate::app::{App, PageLayout, ReadFrom, layout_offset};
use crate::error::{GachoError, GachoErrorView};
use crate::file::book::{
    Book, BookState, book_state, ensure_step, index_by_filename, opened_image_name,
};
use crate::file::image::{Image, ImageView};
use crate::file::open_file::{ensure_all, image_views};

verus! {

/// The page a book opens at when the path names no image of it.
pub const DEFAULT_PAGE: usize = 0;

/// The images in order, each image dropped when an earlier one has its
/// identifier.
pub open spec fn first_by_id(s: Seq<ImageView>) -> Seq<ImageView>
    decreases s.len(),
{
    if s.len() == 0 {
        Seq::empty()
    } else {
        let prev = first_by_id(s.drop_last());
        if s.drop_last().map_values(|i: ImageView| i.id).contains(s.last().id) {
            prev
        } else {
            prev.push(s.last())
        }
    }
}

/// The pages `page_images` reads from page `i`: that page alone, or, for a
/// spread, that page and the next one when the next one has an index.
pub open spec fn shown_from(i: usize, layout: PageLayout) -> Seq<int> {
    match layout {
        PageLayout::Single => seq![i as int],
        PageLayout::Spread => if i < usize::MAX {
            seq![i as int, i + 1]
        } else {
            seq![i as int]
        },
    }
}

/// The page after moving forward by `offset` pages past `i` in a book of
/// `len` pages: the page `offset + 1` on, or the last page.
pub open spec fn next_target(i: usize, offset: usize, len: nat) -> usize {
    if i + offset < len - 1 {
        (i + offset + 1) as usize
    } else {
        (len - 1) as usize
    }
}

/// The page after moving back by `offset` pages before `i`: the page
/// `offset + 1` back, or the first page. An index past `isize::MAX` counts as
/// negative and goes to the first page.
pub open spec fn prev_target(i: usize, offset: usize) -> usize {
    if i <= isize::MAX && i > offset {
        (i - offset - 1) as usize
    } else {
        0
    }
}

/// Moving forward from the page is defined: the book has a page and the
/// index plus the offset fits in `usize`.
pub open spec fn next_defined(page: Option<usize>, offset: usize, len: nat) -> bool {
    page matches Some(i) ==> len > 0 && i + offset <= usize::MAX
}

/// Moving back from the page is defined: the offset is at most one page, and
/// the index read as `isize` minus the offset does not leave `isize`.
pub open spec fn prev_defined(page: Option<usize>, offset: usize) -> bool {
    &&& offset <= 1
    &&& page matches Some(i) ==> !(offset == 1 && i == isize::MAX + 1)
}

/// The page once turned forward (`forward`) or back by `offset` pages.
pub open spec fn moved(page: Option<usize>, forward: bool, offset: usize, len: nat) -> Option<usize> {
    match page {
        None => None,
        Some(i) => Some(
            if forward {
                next_target(i, offset, len)
            } else {
                prev_target(i, offset)
            },
        ),
    }
}

/// An odd page of a spread goes back to the even page it is shown with.
pub open spec fn aligned(page: Option<usize>, layout: PageLayout) -> Option<usize> {
    match page {
        Some(i) => if layout == PageLayout::Spread && i % 2 != 0 {
            Some((i - 1) as usize)
        } else {
            Some(i)
        },
        None => None,
    }
}

/// Whether turning to the next page moves forward through the book:
/// right-to-left books are read from the first page on.
pub open spec fn next_is_forward(read_from: ReadFrom) -> bool {
    read_from == ReadFrom::RightToLeft
}

/// The book dropped on the reader and the page on screen.
pub struct OpenFiles {
    book: Book,
    page: Option<usize>,
}

impl OpenFiles {
    pub closed spec fn spec_book(&self) -> Book {
        self.book
    }

    pub closed spec fn spec_page(&self) -> Option<usize> {
        self.page
    }

    /// The book is well formed.
    pub open spec fn wf(&self) -> bool {
        self.spec_book().wf()
    }

    /// No book and no page.
    pub fn new() -> (res: Self)
        ensures
            res.wf(),
            res.spec_book().spec_images() == Seq::<ImageView>::empty(),
            res.spec_page() is None,
    {
        OpenFiles { book: Book::new(), page: None }
    }

    /// Closes the book.
    pub fn clear(&mut self)
        ensures
            final(self).wf(),
            final(self).spec_book().spec_images() == Seq::<ImageView>::empty(),
            !final(self).spec_book().has_archive(),
            final(self).spec_book().spec_title() == Seq::<char>::empty(),
            final(self).spec_page() is None,
    {
        self.book.clear();
        self.page = None;
    }

    /// The title of the book.
    pub fn book_title(&self) -> (res: &str)
        ensures
            res@ == self.spec_book().spec_title(),
    {
        self.book.title().as_str()
    }

    /// The number of pages.
    pub fn book_len(&self) -> (res: usize)
        ensures
            res == self.spec_book().spec_len(),
    {
        self.book.len()
    }

    /// The identifiers of the pages, in order.
    pub fn book_image_ids(&self) -> (res: Vec<u64>)
        ensures
            res@ == self.spec_book().spec_images().map_values(|i: ImageView| i.id),
    {
        self.book.image_ids()
    }

    /// The index of the page on screen.
    pub fn page(&self) -> (res: &Option<usize>)
        ensures
            *res == self.spec_page(),
    {
        &self.page
    }

    /// Sets the index of the page on screen.
    pub fn set_page(&mut self, page: Option<usize>)
        ensures
            final(self).spec_page() == page,
            final(self).spec_book() == old(self).spec_book(),
    {
        self.page = page;
    }

    /// The book, to add what is read from files to it.
    pub fn book_mut(&mut self) -> (res: &mut Book)
        ensures
            *res == old(self).spec_book(),
            final(self).spec_book() == *final(res),
            final(self).spec_page() == old(self).spec_page(),
    {
        &mut self.book
    }
}

fn contains_id(ids: &Vec<u64>, id: u64) -> (res: bool)
    ensures
        res == ids@.contains(id),
{
    let n = ids.len();
    for k in 0..n
        invariant
            n == ids@.len(),
            forall|m: int| 0 <= m < k ==> ids@[m] != id,
    {
        if ids[k] == id {
            return true;
        }
    }
    false
}

/// Keeps the first image of each identifier, in order.
fn keep_first_by_id(images: Vec<Image>) -> (res: Vec<Image>)
    ensures
        image_views(res@) == first_by_id(image_views(images@)),
{
    let ghost all = image_views(images@);
    let mut seen: Vec<u64> = Vec::new();
    let mut kept: Vec<Image> = Vec::new();
    let n = images.len();
    for j in 0..n
        invariant
            n == images@.len(),
            all == image_views(images@),
            seen@ == all.take(j as int).map_values(|i: ImageView| i.id),
            image_views(kept@) == first_by_id(all.take(j as int)),
    {
        let image = &images[j];
        let id = *image.id();
        let ghost before = kept@;
        proof {
            assert(all.take(j + 1).drop_last() =~= all.take(j as int));
            assert(all.take(j + 1).last() == all[j as int]);
        }
        if !contains_id(&seen, id) {
            let copy = image.clone();
            kept.push(copy);
            proof {
                assert(kept@ == before.push(copy));
                assert(image_views(kept@) =~= image_views(before).push(all[j as int]));
            }
        }
        seen.push(id);
        proof {
            assert(all.take(j + 1) =~= all.take(j as int).push(all[j as int]));
            assert(seen@ =~= all.take(j + 1).map_values(|i: ImageView| i.id));
        }
    }
    proof {
        assert(all.take(n as int) =~= all);
    }
    kept
}

impl OpenFiles {
    /// The images of the page on screen, their bytes read from the archive if
    /// needed: the page alone, or for a spread the page and the next one, an
    /// image that appears twice kept once. Empty when no page is on screen.
    pub fn page_images(&mut self, app: &App) -> (res: Result<Vec<Image>, GachoError>)
        requires
            old(self).wf(),
        ensures
            final(self).wf(),
            final(self).spec_page() == old(self).spec_page(),
            final(self).spec_book().spec_title() == old(self).spec_book().spec_title(),
            final(self).spec_book().spec_path() == old(self).spec_book().spec_path(),
            final(self).spec_book().spec_next_id() == old(self).spec_book().spec_next_id(),
            match old(self).spec_page() {
                None => res matches Ok(v) && v@.len() == 0 && book_state(final(self).spec_book())
                    == book_state(old(self).spec_book()),
                Some(i) => {
                    let r = ensure_all(
                        book_state(old(self).spec_book()),
                        shown_from(i, app.spec_page_layout()),
                    );
                    &&& book_state(final(self).spec_book()) == r.1
                    &&& match r.0 {
                        Some(v) => res matches Ok(images) && image_views(images@) == if app.spec_page_layout()
                            == PageLayout::Spread {
                            first_by_id(v)
                        } else {
                            v
                        },
                        None => res matches Err(e) && e@ is ArchiveError,
                    }
                },
            },
    {
        let Some(index) = self.page else {
            return Ok(Vec::new());
        };
        let ghost st0 = book_state(self.book);
        let ghost pages = shown_from(index, app.spec_page_layout());
        proof {
            reveal_with_fuel(ensure_all, 3);
        }
        let mut images: Vec<Image> = Vec::new();
        match app.page_layout() {
            PageLayout::Single => {
                let image = self.book.ensure_image_by_index(index)?;
                if let Some(image) = image {
                    images.push(image);
                }
                proof {
                    assert(pages.drop_first() =~= Seq::<int>::empty());
                    assert(image_views(images@) =~= ensure_all(st0, pages).0.unwrap());
                }
            },
            PageLayout::Spread => {
                let step = app.page_layout().to_offset();
                let image = self.book.ensure_image_by_index(index)?;
                if let Some(image) = image {
                    images.push(image);
                }
                match index.checked_add(step) {
                    Some(next) => {
                        proof {
                            assert(pages.drop_first() =~= seq![next as int]);
                            assert(pages.drop_first().drop_first() =~= Seq::<int>::empty());
                        }
                        let image = match self.book.ensure_image_by_index(next) {
                            Ok(i) => i,
                            Err(e) => {
                                return Err(e);
                            },
                        };
                        if let Some(image) = image {
                            images.push(image);
                        }
                        proof {
                            assert(image_views(images@) =~= ensure_all(st0, pages).0.unwrap());
                        }
                    },
                    None => {
                        proof {
                            assert(pages.drop_first() =~= Seq::<int>::empty());
                            assert(image_views(images@) =~= ensure_all(st0, pages).0.unwrap());
                        }
                    },
                }
                images = keep_first_by_id(images);
            },
        }
        Ok(images)
    }

    /// The image `offset` pages after the page on screen, its bytes read from
    /// the archive if needed; `None` when no page is on screen, the index
    /// leaves `usize`, or it is past the last page.
    pub fn selected_next_image(&mut self, offset: usize) -> (res: Result<Option<Image>, GachoError>)
        requires
            old(self).wf(),
        ensures
            final(self).wf(),
            final(self).spec_page() == old(self).spec_page(),
            final(self).spec_book().spec_title() == old(self).spec_book().spec_title(),
            final(self).spec_book().spec_path() == old(self).spec_book().spec_path(),
            match old(self).spec_page() {
                Some(i) if i + offset <= usize::MAX => image_step(
                    book_state(old(self).spec_book()),
                    i + offset,
                    res,
                    book_state(final(self).spec_book()),
                ),
                _ => res matches Ok(o) && o is None && book_state(final(self).spec_book()) == book_state(
                    old(self).spec_book(),
                ),
            },
    {
        let Some(index) = self.page else {
            return Ok(None);
        };
        let Some(add_index) = index.checked_add(offset) else {
            return Ok(None);
        };
        self.book.ensure_image_by_index(add_index)
    }

    /// The image `offset` pages before the page on screen, its bytes read from
    /// the archive if needed; `None` when no page is on screen or the index
    /// would be negative.
    pub fn selected_prev_image(&mut self, offset: usize) -> (res: Result<Option<Image>, GachoError>)
        requires
            old(self).wf(),
        ensures
            final(self).wf(),
            final(self).spec_page() == old(self).spec_page(),
            final(self).spec_book().spec_title() == old(self).spec_book().spec_title(),
            final(self).spec_book().spec_path() == old(self).spec_book().spec_path(),
            match old(self).spec_page() {
                Some(i) if i >= offset => image_step(
                    book_state(old(self).spec_book()),
                    i - offset,
                    res,
                    book_state(final(self).spec_book()),
                ),
                _ => res matches Ok(o) && o is None && book_state(final(self).spec_book()) == book_state(
                    old(self).spec_book(),
                ),
            },
    {
        let Some(index) = self.page else {
            return Ok(None);
        };
        let Some(sub_index) = index.checked_sub(offset) else {
            return Ok(None);
        };
        self.book.ensure_image_by_index(sub_index)
    }
}

/// Reading the image at `index` from state `st` gave `res` and left `after`.
pub open spec fn image_step(
    st: BookState,
    index: int,
    res: Result<Option<Image>, GachoError>,
    after: BookState,
) -> bool {
    match ensure_step(st, index) {
        Some((img, st2)) => {
            &&& res matches Ok(o) && match o {
                Some(i) => img == Some(i@),
                None => img is None,
            }
            &&& after == st2
        },
        None => {
            &&& res matches Err(e) && e@ is ArchiveError
            &&& after == st
        },
    }
}

impl OpenFiles {
    /// Moves forward by `offset` pages plus one, stopping at the last page.
    fn from_next(&mut self, offset: usize)
        requires
            next_defined(old(self).spec_page(), offset, old(self).spec_book().spec_len()),
        ensures
            final(self).spec_page() == moved(
                old(self).spec_page(),
                true,
                offset,
                old(self).spec_book().spec_len(),
            ),
            final(self).spec_book() == old(self).spec_book(),
    {
        if let Some(index) = self.page {
            if index + offset < self.book.len() - 1 {
                self.page = Some(index + offset + 1);
            } else {
                self.page = Some(self.book.len() - 1);
            }
        }
    }

    /// Moves back by `offset` pages plus one, stopping at the first page.
    fn from_prev(&mut self, offset: usize)
        requires
            prev_defined(old(self).spec_page(), offset),
        ensures
            final(self).spec_page() == moved(
                old(self).spec_page(),
                false,
                offset,
                old(self).spec_book().spec_len(),
            ),
            final(self).spec_book() == old(self).spec_book(),
    {
        if let Some(index) = self.page {
            if index <= isize::MAX as usize && index > offset {
                self.page = Some(index - offset - 1);
            } else {
                self.page = Some(0);
            }
        }
    }

    /// Brings an odd page of a spread back to the even page it is shown with.
    pub fn align(&mut self, layout: PageLayout)
        ensures
            final(self).spec_page() == aligned(old(self).spec_page(), layout),
            final(self).spec_book() == old(self).spec_book(),
    {
        if layout == PageLayout::Spread {
            if let Some(index) = self.page {
                if index % 2 != 0 {
                    self.page = Some(index - 1);
                }
            }
        }
    }

    /// Turns to the next page (the next spread for two-page spreads): forward
    /// through the book when it reads right to left, back when it reads left
    /// to right. Answers the new page.
    pub fn next_index(&mut self, app: &App) -> (res: Result<Option<usize>, GachoError>)
        requires
            next_is_forward(app.spec_read_from()) ==> next_defined(
                old(self).spec_page(),
                layout_offset(app.spec_page_layout()) as usize,
                old(self).spec_book().spec_len(),
            ),
            !next_is_forward(app.spec_read_from()) ==> prev_defined(
                old(self).spec_page(),
                layout_offset(app.spec_page_layout()) as usize,
            ),
        ensures
            final(self).spec_page() == aligned(
                moved(
                    old(self).spec_page(),
                    next_is_forward(app.spec_read_from()),
                    layout_offset(app.spec_page_layout()) as usize,
                    old(self).spec_book().spec_len(),
                ),
                app.spec_page_layout(),
            ),
            final(self).spec_book() == old(self).spec_book(),
            res == Ok::<Option<usize>, GachoError>(final(self).spec_page()),
    {
        match app.read_from() {
            ReadFrom::RightToLeft => self.from_next(app.page_layout().to_offset()),
            ReadFrom::LeftToRight => self.from_prev(app.page_layout().to_offset()),
        }
        self.align(*app.page_layout());
        Ok(self.page)
    }

    /// Turns to the previous page (the previous spread for two-page
    /// spreads): back through the book when it reads right to left, forward
    /// when it reads left to right. Answers the new page.
    pub fn prev_index(&mut self, app: &App) -> (res: Result<Option<usize>, GachoError>)
        requires
            next_is_forward(app.spec_read_from()) ==> prev_defined(
                old(self).spec_page(),
                layout_offset(app.spec_page_layout()) as usize,
            ),
            !next_is_forward(app.spec_read_from()) ==> next_defined(
                old(self).spec_page(),
                layout_offset(app.spec_page_layout()) as usize,
                old(self).spec_book().spec_len(),
            ),
        ensures
            final(self).spec_page() == aligned(
                moved(
                    old(self).spec_page(),
                    !next_is_forward(app.spec_read_from()),
                    layout_offset(app.spec_page_layout()) as usize,
                    old(self).spec_book().spec_len(),
                ),
                app.spec_page_layout(),
            ),
            final(self).spec_book() == old(self).spec_book(),
            res == Ok::<Option<usize>, GachoError>(final(self).spec_page()),
    {
        match app.read_from() {
            ReadFrom::RightToLeft => self.from_prev(app.page_layout().to_offset()),
            ReadFrom::LeftToRight => self.from_next(app.page_layout().to_offset()),
        }
        self.align(*app.page_layout());
        Ok(self.page)
    }

    /// Finishes adding a book from `path` once its files have been added to
    /// the book (see `Book::image_new`): puts the book in order and, when it
    /// has pages, shows the image file the path names (no page when the book
    /// has no image of that name) or the first page. `first_is_file` says
    /// whether the path of the image shown first (`Book::first_path`) names a
    /// file on disk.
    pub fn add_book(&mut self, path: &str, first_is_file: bool) -> (res: Result<(), GachoError>)
        requires
            old(self).wf(),
        ensures
            final(self).wf(),
            res is Ok,
            final(self).spec_book().spec_images() == crate::file::book::sorted_images(
                old(self).spec_book().spec_image_values(),
            ),
            final(self).spec_book().spec_path() == path@,
            final(self).spec_book().spec_title() == if final(self).spec_book().spec_len() > 0 {
                crate::file::book::book_title_of(
                    crate::file::book::title_source(final(self).spec_book().spec_images()[0], first_is_file),
                )
            } else {
                old(self).spec_book().spec_title()
            },
            final(self).spec_book().has_archive() == old(self).spec_book().has_archive(),
            final(self).spec_book().spec_archive_files() == old(self).spec_book().spec_archive_files(),
            final(self).spec_page() == if final(self).spec_book().spec_len() > 0 {
                match opened_image_name(path@) {
                    Some(n) => match index_by_filename(final(self).spec_book().spec_images(), n) {
                        Some(i) => Some(i as usize),
                        None => None,
                    },
                    None => Some(DEFAULT_PAGE),
                }
            } else {
                old(self).spec_page()
            },
    {
        let file_name = self.book.open_from_path(path, first_is_file);
        if self.book.len() > 0 {
            if let Some(file_name) = file_name {
                self.page = self.book.get_index_by_filename(file_name.as_str());
            } else {
                self.page = Some(DEFAULT_PAGE);
            }
        }
        Ok(())
    }
}

/// Law: turning a page of a book from a page inside it, either way, lands
/// on a page inside it; with two-page spreads the page is the even page a
/// spread starts at.
pub proof fn lemma_turn_stays_in_book(
    page: Option<usize>,
    forward: bool,
    layout: PageLayout,
    len: nat,
)
    requires
        page matches Some(i) && i < len,
    ensures
        ({
            let offset = layout_offset(layout) as usize;
            aligned(moved(page, forward, offset, len), layout) matches Some(j) && j < len && (
            layout == PageLayout::Spread ==> j % 2 == 0)
        }),
{
}

/// Law: turning forward and then back from a page that a turn can land on
/// (any page one at a time, an even page with spreads) returns to it when
/// the forward turn stays inside the book.
pub proof fn lemma_turn_back_returns(i: usize, layout: PageLayout, len: nat)
    requires
        i + layout_offset(layout) + 1 < len,
        i + layout_offset(layout) + 1 <= isize::MAX,
        layout == PageLayout::Spread ==> i % 2 == 0,
    ensures
        ({
            let offset = layout_offset(layout) as usize;
            let there = aligned(moved(Some(i), true, offset, len), layout);
            aligned(moved(there, false, offset, len), layout) == Some(i)
        }),
{
}

/// The other reading direction.
pub open spec fn opposite(r: ReadFrom) -> ReadFrom {
    match r {
        ReadFrom::RightToLeft => ReadFrom::LeftToRight,
        ReadFrom::LeftToRight => ReadFrom::RightToLeft,
    }
}

/// Law: turning to the previous page in one reading direction is turning to
/// the next page in the other: the same preconditions, the same page.
pub proof fn lemma_prev_is_next_reversed(page: Option<usize>, layout: PageLayout, len: nat, r: ReadFrom)
    ensures
        ({
            let offset = layout_offset(layout) as usize;
            &&& ((next_is_forward(r) ==> prev_defined(page, offset)) && (!next_is_forward(r)
                ==> next_defined(page, offset, len))) == ((next_is_forward(opposite(r))
                ==> next_defined(page, offset, len)) && (!next_is_forward(opposite(r))
                ==> prev_defined(page, offset)))
            &&& aligned(moved(page, !next_is_forward(r), offset, len), layout) == aligned(
                moved(page, next_is_forward(opposite(r)), offset, len),
                layout,
            )
        }),
{
}

} // verus!
