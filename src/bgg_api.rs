use vstd::prelude::*;

use crate::error::Error;
use crate::game::{game_from_link, link_game, Game, RawLink};
use crate::pagination::{page_count, pages_needed, window_plan, window_plan_of, PagePlan};

verus! {

/// Walks the pages that hold the top `depth` positions, one page per step.
///
/// The caller fetches each page that `next_page` names (waiting `delay`
/// milliseconds before each fetch) and hands the outcome to `yield_page`.
/// A failed fetch ends the walk: no page is named after it.
pub struct TopIterator {
    /// Milliseconds to wait before each fetch.
    pub delay: u64,
    pub num_pages: usize,
    /// Pages named so far; the last one named is page `count`.
    pub count: usize,
    pub failed: bool,
}

impl TopIterator {
    pub open spec fn wf(&self) -> bool {
        self.count <= self.num_pages
    }

    pub fn new(delay: u64, depth: usize) -> (r: TopIterator)
        ensures
            r.wf(),
            r.delay == delay,
            r.num_pages == pages_needed(depth as int),
            r.count == 0,
            !r.failed,
    {
        TopIterator { delay, num_pages: page_count(depth), count: 0, failed: false }
    }

    /// The page to fetch next, or `None` once every page was named or a
    /// fetch failed.
    pub fn next_page(&mut self) -> (r: Option<usize>)
        requires
            old(self).wf(),
        ensures
            final(self).wf(),
            final(self).delay == old(self).delay,
            final(self).num_pages == old(self).num_pages,
            final(self).failed == old(self).failed,
            !old(self).failed && old(self).count < old(self).num_pages ==> r == Some(
                (old(self).count + 1) as usize,
            ) && final(self).count == old(self).count + 1,
            old(self).failed || old(self).count >= old(self).num_pages ==> r is None
                && final(self).count == old(self).count,
    {
        if self.failed || self.count >= self.num_pages {
            return None;
        }
        self.count = self.count + 1;
        Some(self.count)
    }

    /// Takes the outcome of fetching the page last named: its entries with
    /// the page's number and the number of pages, or the failure, which ends
    /// the walk.
    pub fn yield_page<E>(&mut self, fetched: Result<Vec<Game>, E>) -> (r: Result<
        (Vec<Game>, usize, usize),
        E,
    >)
        requires
            old(self).wf(),
        ensures
            final(self).wf(),
            final(self).delay == old(self).delay,
            final(self).num_pages == old(self).num_pages,
            final(self).count == old(self).count,
            final(self).failed == (old(self).failed || fetched is Err),
            r == match fetched {
                Ok(g) => Ok((g, old(self).count, old(self).num_pages)),
                Err(e) => Err(e),
            },
    {
        match fetched {
            Ok(games) => Ok((games, self.count, self.num_pages)),
            Err(e) => {
                self.failed = true;
                Err(e)
            },
        }
    }
}

pub struct Config {
    /// Milliseconds between requests.
    pub delay: u64,
}

impl Config {
    pub fn new(delay: u64) -> (r: Config)
        ensures
            r.delay == delay,
    {
        Config { delay }
    }
}

pub struct API {
    pub config: Config,
}

/// The games of a listing, or the failure of its first bad link.
pub open spec fn links_games(links: Seq<RawLink>, r: Result<Vec<Game>, Error>) -> bool {
    match r {
        Ok(games) => games@.len() == links.len() && forall|i: int|
            0 <= i < links.len() ==> link_game(#[trigger] links[i]) == Ok::<Game, Error>(
                games@[i],
            ),
        Err(e) => exists|i: int|
            0 <= i < links.len() && link_game(#[trigger] links[i]) == Err::<Game, Error>(e)
                && forall|j: int| 0 <= j < i ==> link_game(#[trigger] links[j]) is Ok,
    }
}

impl API {
    pub fn new(config: Config) -> (r: API)
        ensures
            r.config == config,
    {
        API { config }
    }

    /// Walks the pages of the top `depth` positions, with this API's delay.
    pub fn get_top(&self, depth: usize) -> (r: TopIterator)
        ensures
            r.wf(),
            r.delay == self.config.delay,
            r.num_pages == pages_needed(depth as int),
            r.count == 0,
            !r.failed,
    {
        TopIterator::new(self.config.delay, depth)
    }

    /// Plans the fetch of the `offset` positions that follow the top `depth`
    /// ones, without fetching again a page that the top list covered (see
    /// `window_plan_of`). Where `depth` is not a multiple of `PAGE_SIZE` and the
    /// window runs past the top list's last page, that page's remaining
    /// positions are not fetched: the window then holds positions
    /// `ceil(depth / PAGE_SIZE) * PAGE_SIZE + 1 ..` (for depth 150 and offset
    /// 100, positions 201..=300). Otherwise it holds positions
    /// `depth + 1 ..= depth + offset`.
    pub fn get_next(depth: usize, offset: usize) -> (r: Result<PagePlan, Error>)
        requires
            depth + offset <= usize::MAX,
        ensures
            depth == 0 || offset == 0 <==> r == Err::<PagePlan, Error>(Error::InvalidRange),
            depth >= 1 && offset >= 1 ==> r == Ok::<PagePlan, Error>(
                window_plan_of(depth as int, offset as int),
            ),
    {
        if depth == 0 || offset == 0 {
            return Err(Error::InvalidRange);
        }
        Ok(window_plan(depth, offset))
    }

    /// The games that a listing page's links describe, in order; fails at the
    /// first link that describes none.
    pub fn filter_games(links: &Vec<RawLink>) -> (r: Result<Vec<Game>, Error>)
        ensures
            links_games(links@, r),
    {
        let mut games: Vec<Game> = Vec::new();
        let mut i: usize = 0;
        while i < links.len()
            invariant
                i <= links@.len(),
                games@.len() == i,
                forall|j: int|
                    0 <= j < i ==> link_game(#[trigger] links@[j]) == Ok::<Game, Error>(
                        games@[j],
                    ),
            decreases links@.len() - i,
        {
            match game_from_link(&links[i]) {
                Ok(g) => games.push(g),
                Err(e) => {
                    assert(forall|j: int| 0 <= j < i ==> link_game(#[trigger] links@[j]) is Ok);
                    return Err(e);
                },
            }
            i = i + 1;
        }
        Ok(games)
    }
}

} // verus!
