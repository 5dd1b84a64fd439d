use vstd::prelude::*;

verus! {

/// Page number used when none (or a non-positive one) is given.
pub const DEFAULT_PAGE_NO: i32 = 1;

/// Page size used when none (or a non-positive one) is given.
pub const DEFAULT_PAGE_SIZE: i32 = 20;

/// A page request: page number and page size, both normalised on read.
#[derive(Debug, Clone, Copy)]
pub struct Page {
    page: i32,
    page_size: i32,
}

/// Pagination data returned next to a page of results.
#[derive(Debug, Clone, Copy, PartialEq, Eq)]
pub struct Pagination {
    pub page: i32,
    pub page_size: i32,
    pub total: u64,
    pub total_pages: u64,
}

pub fn default_page_no() -> (r: i32)
    ensures
        r == DEFAULT_PAGE_NO,
{
    DEFAULT_PAGE_NO
}

pub fn default_page_size() -> (r: i32)
    ensures
        r == DEFAULT_PAGE_SIZE,
{
    DEFAULT_PAGE_SIZE
}

/// Normalised page number: the raw one when positive, else the default.
pub open spec fn norm_page(raw: i32) -> i32 {
    if raw > 0 { raw } else { DEFAULT_PAGE_NO }
}

/// Normalised page size: the raw one when positive, else the default.
pub open spec fn norm_page_size(raw: i32) -> i32 {
    if raw > 0 { raw } else { DEFAULT_PAGE_SIZE }
}

impl Page {
    pub closed spec fn raw_page(&self) -> i32 {
        self.page
    }

    pub closed spec fn raw_page_size(&self) -> i32 {
        self.page_size
    }

    /// Number of items that precede the page, as an unbounded integer.
    pub open spec fn offset_spec(&self) -> int {
        (norm_page(self.raw_page()) - 1) * norm_page_size(self.raw_page_size())
    }

    pub fn new(page: i32, page_size: i32) -> (r: Page)
        ensures
            r.raw_page() == page,
            r.raw_page_size() == page_size,
    {
        Page { page, page_size }
    }

    /// The default page request: first page, default size.
    pub fn first() -> (r: Page)
        ensures
            r.raw_page() == DEFAULT_PAGE_NO,
            r.raw_page_size() == DEFAULT_PAGE_SIZE,
    {
        Page { page: default_page_no(), page_size: default_page_size() }
    }

    /// Offset of the first item of the page.
    pub fn offset(&self) -> (r: i32)
        requires
            self.offset_spec() <= i32::MAX,
        ensures
            r as int == self.offset_spec(),
            r >= 0,
    {
        let p = self.page();
        let s = self.page_size();
        let before: i32 = if p - 1 > 0 { p - 1 } else { 0 };
        assert(before as int * s as int >= 0) by (nonlinear_arith)
            requires before >= 0, s > 0;
        before * s
    }

    pub fn page(&self) -> (r: i32)
        ensures
            r == norm_page(self.raw_page()),
            r >= 1,
    {
        if self.page > 0 {
            self.page
        } else {
            DEFAULT_PAGE_NO
        }
    }

    pub fn page_size(&self) -> (r: i32)
        ensures
            r == norm_page_size(self.raw_page_size()),
            r >= 1,
    {
        if self.page_size > 0 {
            self.page_size
        } else {
            DEFAULT_PAGE_SIZE
        }
    }
}

/// Offset and limit of an optional page request where each part may be
/// missing: `None` when neither is given (no pagination).
pub open spec fn loose_window_spec(page: Option<i32>, page_size: Option<i32>) -> Option<(int, int)> {
    if page.is_none() && page_size.is_none() {
        None
    } else {
        let p = page.unwrap_or(DEFAULT_PAGE_NO) as int;
        let s = page_size.unwrap_or(DEFAULT_PAGE_SIZE) as int;
        let before = if p - 1 > 0 { p - 1 } else { 0 };
        Some((before * s, s))
    }
}

/// Offset and limit for a listing whose page number and size are both
/// optional: the missing one takes its default, and with neither given the
/// listing is not paginated.
pub fn loose_window(page: Option<i32>, page_size: Option<i32>) -> (r: Option<(i32, i32)>)
    requires
        loose_window_spec(page, page_size) is Some ==> {
            let w = loose_window_spec(page, page_size).unwrap();
            i32::MIN <= w.0 <= i32::MAX
        },
    ensures
        r is None <==> loose_window_spec(page, page_size) is None,
        r is Some ==> r.unwrap().0 as int == loose_window_spec(page, page_size).unwrap().0
            && r.unwrap().1 as int == loose_window_spec(page, page_size).unwrap().1,
{
    if page.is_none() && page_size.is_none() {
        return None;
    }
    let p: i32 = match page {
        Some(v) => v,
        None => DEFAULT_PAGE_NO,
    };
    let s: i32 = match page_size {
        Some(v) => v,
        None => DEFAULT_PAGE_SIZE,
    };
    let before: i32 = if p > 1 { p - 1 } else { 0 };
    Some((before * s, s))
}

impl Pagination {
    /// Pagination data for one page of a paginated listing.
    pub fn paged(page: &Page, total: u64) -> (r: Pagination)
        ensures
            r.page == norm_page(page.raw_page()),
            r.page_size == norm_page_size(page.raw_page_size()),
            r.total == total,
            r.total_pages == total / (norm_page_size(page.raw_page_size()) as u64),
    {
        let size = page.page_size();
        Pagination { page: page.page(), page_size: size, total, total_pages: total / (size as u64) }
    }

    /// Pagination data for a listing returned whole: one page that holds
    /// everything (its size is the total, cut to 32 bits).
    pub fn unpaged(total: u64) -> (r: Pagination)
        ensures
            r.page == 1,
            r.page_size == total as i32,
            r.total == total,
            r.total_pages == 1,
    {
        Pagination { page: 1, page_size: total as i32, total, total_pages: 1 }
    }

    /// Pagination data for a listing whose page number and size are
    /// optional; a non-positive size gives no page count.
    pub fn loose(page: Option<i32>, page_size: Option<i32>, total: u64) -> (r: Pagination)
        ensures
            (page is None && page_size is None) ==> r == Pagination::unpaged_spec(total),
            !(page is None && page_size is None) ==> {
                let s = page_size.unwrap_or(DEFAULT_PAGE_SIZE);
                &&& r.page == page.unwrap_or(DEFAULT_PAGE_NO)
                &&& r.page_size == s
                &&& r.total == total
                &&& r.total_pages == if s > 0 { total / (s as u64) } else { 0 }
            },
    {
        if page.is_none() && page_size.is_none() {
            return Pagination::unpaged(total);
        }
        let p: i32 = match page {
            Some(v) => v,
            None => DEFAULT_PAGE_NO,
        };
        let s: i32 = match page_size {
            Some(v) => v,
            None => DEFAULT_PAGE_SIZE,
        };
        let pages: u64 = if s > 0 { total / (s as u64) } else { 0 };
        Pagination { page: p, page_size: s, total, total_pages: pages }
    }

    pub open spec fn unpaged_spec(total: u64) -> Pagination {
        Pagination { page: 1, page_size: total as i32, total, total_pages: 1 }
    }
}

impl Page {
    /// Offset and limit for a listing, `None` when pagination is switched off.
    pub fn window(&self, ignore_pagination: Option<bool>) -> (r: Option<(i32, i32)>)
        requires
            self.offset_spec() <= i32::MAX,
        ensures
            ignore_pagination == Some(true) ==> r is None,
            ignore_pagination != Some(true) ==> r == Some(
                (self.offset_spec() as i32, norm_page_size(self.raw_page_size())),
            ),
    {
        let ignore = match ignore_pagination {
            Some(b) => b,
            None => false,
        };
        if ignore {
            None
        } else {
            Some((self.offset(), self.page_size()))
        }
    }
}

} // verus!
