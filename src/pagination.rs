use vstd::prelude::*;

use crate::error::Error;

verus! {

/// Number of positions on one page of the remote ranking.
pub const PAGE_SIZE: usize = 100;

/// Number of pages that hold positions `1..=n`: the ceiling of `n / PAGE_SIZE`.
pub open spec fn pages_needed(n: int) -> int {
    (n + PAGE_SIZE - 1) / (PAGE_SIZE as int)
}

/// The positions that pages `first..=last` hold, in page order, when every
/// page is full.
pub open spec fn page_positions(first: int, last: int) -> Seq<int> {
    Seq::new(
        ((last - first + 1) * PAGE_SIZE) as nat,
        |o: int| (first - 1) * PAGE_SIZE + o + 1,
    )
}

/// The positions `start..start + len`.
pub open spec fn position_range(start: int, len: int) -> Seq<int> {
    Seq::new(len as nat, |j: int| start + j)
}

/// Pages to fetch for a range of positions, and how to cut the range out of
/// their concatenation.
#[derive(Debug, Clone, Copy, PartialEq, Eq, Structural)]
pub struct PagePlan {
    pub first_page: usize,
    pub last_page: usize,
    /// Entries to drop from the front of the concatenated pages.
    pub leading_skip: usize,
    /// Entries to keep after the skipped ones.
    pub take: usize,
}

/// The plan for positions `start..start + len`.
pub open spec fn plan_of(start: int, len: int) -> PagePlan {
    let first = pages_needed(start);
    PagePlan {
        first_page: first as usize,
        last_page: pages_needed(start + len - 1) as usize,
        leading_skip: (start - (first - 1) * PAGE_SIZE - 1) as usize,
        take: len as usize,
    }
}

proof fn lemma_pages_needed_bounds(n: int)
    requires
        n >= 1,
    ensures
        pages_needed(n) >= 1,
        (pages_needed(n) - 1) * PAGE_SIZE < n <= pages_needed(n) * PAGE_SIZE,
{
    let q = pages_needed(n);
    assert(q * 100 <= n + 99 < q * 100 + 100) by (nonlinear_arith)
        requires
            q == (n + 99) / 100,
    ;
}

/// The plan for the `offset` positions that follow a top list of `depth`
/// positions. It fetches no page that the top list already covered, unless
/// the window ends on that page: it starts at the page after the top list's
/// last one, or at the window's last page if that comes first, and then skips
/// what lies before position `depth + 1` on it, if anything.
pub open spec fn window_plan_of(depth: int, offset: int) -> PagePlan {
    let last = pages_needed(depth + offset);
    let after = pages_needed(depth) + 1;
    let first = if after <= last { after } else { last };
    let skip = depth - (first - 1) * PAGE_SIZE;
    PagePlan {
        first_page: first as usize,
        last_page: last as usize,
        leading_skip: if skip < 0 { 0 } else { skip as usize },
        take: offset as usize,
    }
}

/// Plans the window of `offset` positions after a top list of `depth`.
pub fn window_plan(depth: usize, offset: usize) -> (r: PagePlan)
    requires
        depth >= 1,
        offset >= 1,
        depth + offset <= usize::MAX,
    ensures
        r == window_plan_of(depth as int, offset as int),
{
    let last = page_count(depth + offset);
    let after = page_count(depth) + 1;
    let first = if after <= last { after } else { last };
    proof {
        lemma_pages_needed_bounds(depth + offset);
    }
    let skip = if (first - 1) * PAGE_SIZE > depth { 0 } else { depth - (first - 1) * PAGE_SIZE };
    PagePlan { first_page: first, last_page: last, leading_skip: skip, take: offset }
}

/// The window plan names a non-empty run of pages that ends on the page of
/// position `depth + offset`, starts no earlier than the page of position
/// `depth + 1`, and whose first page is not wholly inside positions `1..=depth`.
pub proof fn window_plan_bounds(depth: usize, offset: usize)
    requires
        depth >= 1,
        offset >= 1,
        depth + offset <= usize::MAX,
    ensures
        ({
            let p = window_plan_of(depth as int, offset as int);
            &&& 1 <= p.first_page <= p.last_page
            &&& p.last_page == pages_needed(depth + offset)
            &&& p.first_page >= pages_needed(depth + 1)
            &&& p.first_page * PAGE_SIZE > depth
            &&& p.take == offset
        }),
{
    lemma_pages_needed_bounds(depth as int);
    lemma_pages_needed_bounds(depth + 1);
    lemma_pages_needed_bounds(depth + offset);
    let a = pages_needed(depth as int);
    let b = pages_needed(depth + 1);
    let c = pages_needed(depth + offset);
    assert(b <= a + 1 && b <= c && a <= c) by (nonlinear_arith)
        requires
            (a - 1) * 100 < depth <= a * 100,
            (b - 1) * 100 < depth + 1 <= b * 100,
            (c - 1) * 100 < depth + offset <= c * 100,
            offset >= 1,
    ;
}

/// Where the top list ends on a page boundary, or the window ends on the top
/// list's last page, the window plan is the plan of positions
/// `depth + 1 ..= depth + offset`, and so yields exactly those positions.
pub proof fn window_matches_range(depth: usize, offset: usize)
    requires
        depth >= 1,
        offset >= 1,
        depth + offset < usize::MAX,
        depth % PAGE_SIZE == 0 || pages_needed(depth + offset) == pages_needed(depth as int),
    ensures
        window_plan_of(depth as int, offset as int) == plan_of(depth + 1, offset as int),
{
    lemma_pages_needed_bounds(depth as int);
    lemma_pages_needed_bounds(depth + 1);
    lemma_pages_needed_bounds(depth + offset);
    let a = pages_needed(depth as int);
    let b = pages_needed(depth + 1);
    let c = pages_needed(depth + offset);
    if depth % PAGE_SIZE == 0 {
        assert(b == a + 1) by (nonlinear_arith)
            requires
                depth % 100 == 0,
                (a - 1) * 100 < depth <= a * 100,
                (b - 1) * 100 < depth + 1 <= b * 100,
        ;
        assert(a + 1 <= c) by (nonlinear_arith)
            requires
                b == a + 1,
                (c - 1) * 100 < depth + offset,
                depth + 1 <= depth + offset <= c * 100,
                (b - 1) * 100 < depth + 1,
        ;
    } else {
        assert(b == a) by (nonlinear_arith)
            requires
                depth % 100 != 0,
                (a - 1) * 100 < depth <= a * 100,
                (b - 1) * 100 < depth + 1 <= b * 100,
        ;
    }
}

/// The pages that a walk of the top `depth` positions fetches are just
/// enough: when full they hold at least `depth` entries, and without the last
/// one they would hold fewer.
pub proof fn top_pages_cover_depth(depth: usize)
    ensures
        pages_needed(depth as int) * PAGE_SIZE >= depth,
        depth >= 1 ==> (pages_needed(depth as int) - 1) * PAGE_SIZE < depth,
{
    if depth >= 1 {
        lemma_pages_needed_bounds(depth as int);
    }
}

/// Number of pages that hold positions `1..=n`.
pub fn page_count(n: usize) -> (r: usize)
    ensures
        r == pages_needed(n as int),
{
    let q = n / PAGE_SIZE;
    if n % PAGE_SIZE == 0 {
        q
    } else {
        q + 1
    }
}

/// Plans the fetch of positions `start..start + len` (1-based).
pub fn plan(start: usize, len: usize) -> (r: Result<PagePlan, Error>)
    requires
        start + len <= usize::MAX,
    ensures
        start == 0 || len == 0 <==> r == Err::<PagePlan, Error>(Error::InvalidRange),
        start >= 1 && len >= 1 ==> r == Ok::<PagePlan, Error>(plan_of(start as int, len as int)),
{
    if start == 0 || len == 0 {
        return Err(Error::InvalidRange);
    }
    let first = page_count(start);
    let last = page_count(start + len - 1);
    proof {
        lemma_pages_needed_bounds(start as int);
    }
    let skip = start - (first - 1) * PAGE_SIZE - 1;
    Ok(PagePlan { first_page: first, last_page: last, leading_skip: skip, take: len })
}

/// The entries of `pages`, one page after the other.
pub open spec fn flat_pages<T>(pages: Seq<Vec<T>>) -> Seq<T> {
    pages.map_values(|p: Vec<T>| p@).flatten()
}

/// Concatenates pages in their order.
pub fn concat_pages<T>(pages: Vec<Vec<T>>) -> (r: Vec<T>)
    ensures
        r@ == flat_pages(pages@),
{
    let ghost whole = flat_pages(pages@);
    let mut rest = pages;
    let mut all: Vec<T> = Vec::new();
    while rest.len() > 0
        invariant
            all@ + flat_pages(rest@) == whole,
        decreases rest.len(),
    {
        let ghost before = rest@;
        let mut page = rest.remove(0);
        proof {
            assert(before.map_values(|p: Vec<T>| p@).drop_first() =~= rest@.map_values(
                |p: Vec<T>| p@,
            ));
            assert(all@ + page@ + flat_pages(rest@) =~= all@ + flat_pages(before));
        }
        all.append(&mut page);
    }
    assert(flat_pages(rest@) =~= Seq::<T>::empty());
    assert(all@ =~= whole);
    all
}

impl PagePlan {
    /// The entries that the plan selects out of the fetched pages `first_page..=last_page`,
    /// given in page order: the concatenation, less `leading_skip` entries in front,
    /// cut to `take` entries. Short pages give a shorter result.
    pub fn extract<T>(&self, pages: Vec<Vec<T>>) -> (r: Vec<T>)
        ensures
            ({
                let all = flat_pages(pages@);
                let lo = if self.leading_skip <= all.len() { self.leading_skip as int } else { all.len() as int };
                let hi = if lo + self.take <= all.len() { lo + self.take } else { all.len() as int };
                r@ == all.subrange(lo, hi)
            }),
    {
        let mut all = concat_pages(pages);
        let lo = if self.leading_skip <= all.len() { self.leading_skip } else { all.len() };
        let mut kept = all.split_off(lo);
        kept.truncate(self.take);
        kept
    }
}

/// For every range of positions the plan names a non-empty run of pages, and
/// cutting its skip and take out of those pages' positions gives back exactly
/// the range asked for.
pub proof fn plan_reproduces_range(start: usize, len: usize)
    requires
        start >= 1,
        len >= 1,
        start + len <= usize::MAX,
    ensures
        ({
            let p = plan_of(start as int, len as int);
            &&& 1 <= p.first_page <= p.last_page
            &&& p.leading_skip < PAGE_SIZE
            &&& p.leading_skip + len <= page_positions(
                p.first_page as int,
                p.last_page as int,
            ).len()
            &&& page_positions(p.first_page as int, p.last_page as int).skip(
                p.leading_skip as int,
            ).take(len as int) == position_range(start as int, len as int)
        }),
{
    let (start, len) = (start as int, len as int);
    lemma_pages_needed_bounds(start);
    lemma_pages_needed_bounds(start + len - 1);
    let first = pages_needed(start);
    let last = pages_needed(start + len - 1);
    assert(first <= last) by (nonlinear_arith)
        requires
            (first - 1) * 100 < start,
            start + len - 1 <= last * 100,
            start <= first * 100,
            (last - 1) * 100 < start + len - 1,
            len >= 1,
    ;
    let p = plan_of(start, len);
    assert(p.first_page == first && p.last_page == last);
    let cut = page_positions(first, last).skip(p.leading_skip as int).take(len);
    assert(cut =~= position_range(start, len));
}

} // verus!
