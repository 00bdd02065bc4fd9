//! The reader's settings: how the cover and the pages are laid out, which
//! way pages turn, and how many neighbouring images are prepared.
use vstd::prelude::*;

verus! {

/// How many images ahead of and behind the current page are prepared.
pub const DEFAULT_PRELOADING: usize = 5;

/// Whether the cover (page 0) is shown on its own.
#[derive(Clone, Copy, PartialEq, Eq, Structural, Debug)]
pub enum CoverLayout {
    Single,
    Spread,
}

impl CoverLayout {
    /// The label shown in the settings.
    pub fn to_string(&self) -> (res: &'static str)
        ensures
            res@ == match *self {
                CoverLayout::Single => "Single Cover"@,
                CoverLayout::Spread => "No Single Cover"@,
            },
    {
        match self {
            CoverLayout::Single => "Single Cover",
            CoverLayout::Spread => "No Single Cover",
        }
    }
}

/// The direction in which pages are turned.
#[derive(Clone, Copy, PartialEq, Eq, Structural, Debug)]
pub enum ReadFrom {
    RightToLeft,
    LeftToRight,
}

impl ReadFrom {
    /// The label shown in the settings.
    pub fn to_string(&self) -> (res: &'static str)
        ensures
            res@ == match *self {
                ReadFrom::RightToLeft => "Right to Left"@,
                ReadFrom::LeftToRight => "Left to Right"@,
            },
    {
        match self {
            ReadFrom::RightToLeft => "Right to Left",
            ReadFrom::LeftToRight => "Left to Right",
        }
    }
}

/// Whether one page or a two-page spread is shown at a time.
#[derive(Clone, Copy, PartialEq, Eq, Structural, Debug)]
pub enum PageLayout {
    Single,
    Spread,
}

/// The number of pages beyond the first that a layout shows at once.
pub open spec fn layout_offset(layout: PageLayout) -> nat {
    match layout {
        PageLayout::Single => 0,
        PageLayout::Spread => 1,
    }
}

impl PageLayout {
    /// The label shown in the settings.
    pub fn to_string(&self) -> (res: &'static str)
        ensures
            res@ == match *self {
                PageLayout::Single => "Single Page"@,
                PageLayout::Spread => "Two-Page Spread"@,
            },
    {
        match self {
            PageLayout::Single => "Single Page",
            PageLayout::Spread => "Two-Page Spread",
        }
    }

    /// The number of pages shown beyond the first one: 0 for a single page,
    /// 1 for a spread.
    pub fn to_offset(&self) -> (res: usize)
        ensures
            res == layout_offset(*self),
    {
        match self {
            PageLayout::Single => 0,
            PageLayout::Spread => 1,
        }
    }
}

/// The reader's settings.
pub struct App {
    preloading: usize,
    cover_layout: CoverLayout,
    read_from: ReadFrom,
    page_layout: PageLayout,
}

impl App {
    /// A new set of settings: the defaults.
    pub fn new() -> (res: Self)
        ensures
            res.spec_preloading() == DEFAULT_PRELOADING,
            res.spec_cover_layout() == CoverLayout::Single,
            res.spec_read_from() == ReadFrom::RightToLeft,
            res.spec_page_layout() == PageLayout::Single,
    {
        App::default()
    }

    /// Settings with the given values.
    pub fn with(
        preloading: usize,
        cover_layout: CoverLayout,
        read_from: ReadFrom,
        page_layout: PageLayout,
    ) -> (res: Self)
        ensures
            res.spec_preloading() == preloading,
            res.spec_cover_layout() == cover_layout,
            res.spec_read_from() == read_from,
            res.spec_page_layout() == page_layout,
    {
        App { preloading, cover_layout, read_from, page_layout }
    }

    /// How many neighbouring images are prepared.
    pub fn preloading(&self) -> (res: &usize)
        ensures
            *res == self.spec_preloading(),
    {
        &self.preloading
    }

    /// Whether the cover is shown on its own.
    pub fn cover_layout(&self) -> (res: &CoverLayout)
        ensures
            *res == self.spec_cover_layout(),
    {
        &self.cover_layout
    }

    /// The reading direction.
    pub fn read_from(&self) -> (res: &ReadFrom)
        ensures
            *res == self.spec_read_from(),
    {
        &self.read_from
    }

    /// The page layout.
    pub fn page_layout(&self) -> (res: &PageLayout)
        ensures
            *res == self.spec_page_layout(),
    {
        &self.page_layout
    }

    /// Changes how many neighbouring images are prepared.
    pub fn set_preloading(&mut self, preloading: usize)
        ensures
            final(self).spec_preloading() == preloading,
            final(self).spec_cover_layout() == old(self).spec_cover_layout(),
            final(self).spec_read_from() == old(self).spec_read_from(),
            final(self).spec_page_layout() == old(self).spec_page_layout(),
    {
        self.preloading = preloading;
    }

    /// Changes whether the cover is shown on its own.
    pub fn set_cover_layout(&mut self, cover_layout: CoverLayout)
        ensures
            final(self).spec_preloading() == old(self).spec_preloading(),
            final(self).spec_cover_layout() == cover_layout,
            final(self).spec_read_from() == old(self).spec_read_from(),
            final(self).spec_page_layout() == old(self).spec_page_layout(),
    {
        self.cover_layout = cover_layout;
    }

    /// Changes the reading direction.
    pub fn set_read_from(&mut self, read_from: ReadFrom)
        ensures
            final(self).spec_preloading() == old(self).spec_preloading(),
            final(self).spec_cover_layout() == old(self).spec_cover_layout(),
            final(self).spec_read_from() == read_from,
            final(self).spec_page_layout() == old(self).spec_page_layout(),
    {
        self.read_from = read_from;
    }

    /// Changes the page layout.
    pub fn set_page_layout(&mut self, page_layout: PageLayout)
        ensures
            final(self).spec_preloading() == old(self).spec_preloading(),
            final(self).spec_cover_layout() == old(self).spec_cover_layout(),
            final(self).spec_read_from() == old(self).spec_read_from(),
            final(self).spec_page_layout() == page_layout,
    {
        self.page_layout = page_layout;
    }

    pub closed spec fn spec_preloading(&self) -> usize {
        self.preloading
    }

    pub closed spec fn spec_cover_layout(&self) -> CoverLayout {
        self.cover_layout
    }

    pub closed spec fn spec_read_from(&self) -> ReadFrom {
        self.read_from
    }

    pub closed spec fn spec_page_layout(&self) -> PageLayout {
        self.page_layout
    }
}

impl Default for App {
    /// The default settings: five preloaded images, the cover on its own,
    /// right-to-left reading, one page at a time.
    fn default() -> (res: Self)
        ensures
            res.spec_preloading() == DEFAULT_PRELOADING,
            res.spec_cover_layout() == CoverLayout::Single,
            res.spec_read_from() == ReadFrom::RightToLeft,
            res.spec_page_layout() == PageLayout::Single,
    {
        App {
            preloading: DEFAULT_PRELOADING,
            cover_layout: CoverLayout::Single,
            read_from: ReadFrom::RightToLeft,
            page_layout: PageLayout::Single,
        }
    }
}

} // verus!
