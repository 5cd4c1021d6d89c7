use bgg_tracker::bgg_api::{Config as ApiConfig, API};
use bgg_tracker::error::Error;
use bgg_tracker::game::{game_from_link, href_to_id, parse_year, Game, RawLink};
use bgg_tracker::number::{parse_signed, parse_unsigned};
use bgg_tracker::pagination::{concat_pages, page_count, plan, PagePlan, PAGE_SIZE};
use bgg_tracker::progress::Progress;
use bgg_tracker::reconcile::{
    get_future, get_slice, get_top, mark_games, summarize_window, Config, Container,
};
use std::cell::Cell;

fn game(id: usize) -> Game {
    Game::new(id, format!("game {}", id), 2000 + id as isize)
}

/// A remote ranking of `total` games: position p holds game p.
fn remote_page(total: usize, page: usize) -> Vec<Game> {
    let first = (page - 1) * PAGE_SIZE + 1;
    let last = std::cmp::min(page * PAGE_SIZE, total);
    (first..=last).map(game).collect()
}

fn containers(n: usize, ignored: &[usize]) -> Vec<Container> {
    (0..n)
        .map(|i| Container::new(game(i + 1), ignored.contains(&i)))
        .collect()
}

#[test]
fn page_count_rounds_up() {
    assert_eq!(page_count(0), 0);
    assert_eq!(page_count(1), 1);
    assert_eq!(page_count(100), 1);
    assert_eq!(page_count(101), 2);
    assert_eq!(page_count(250), 3);
}

#[test]
fn plan_first_page_range() {
    let p = plan(1, 250).unwrap();
    assert_eq!(
        p,
        PagePlan { first_page: 1, last_page: 3, leading_skip: 0, take: 250 }
    );
}

#[test]
fn plan_mid_page_range() {
    let p = plan(151, 100).unwrap();
    assert_eq!(
        p,
        PagePlan { first_page: 2, last_page: 3, leading_skip: 50, take: 100 }
    );
}

#[test]
fn plan_rejects_empty_bounds() {
    assert_eq!(plan(0, 10), Err(Error::InvalidRange));
    assert_eq!(plan(10, 0), Err(Error::InvalidRange));
}

#[test]
fn plan_reproduces_positions_on_concrete_ranges() {
    for &(start, len) in &[(1usize, 1usize), (1, 100), (100, 1), (100, 2), (37, 450), (201, 99)] {
        let p = plan(start, len).unwrap();
        assert!(p.first_page <= p.last_page);
        let pages: Vec<Vec<Game>> = (p.first_page..=p.last_page)
            .map(|n| remote_page(10_000, n))
            .collect();
        let got: Vec<usize> = p.extract(pages).iter().map(|g| g.id).collect();
        let want: Vec<usize> = (start..start + len).collect();
        assert_eq!(got, want);
    }
}

#[test]
fn top_iterator_depth_250_yields_three_pages() {
    let api = API::new(ApiConfig::new(0));
    let mut it = api.get_top(250);
    let mut pages = Vec::new();
    let mut seen = Vec::new();
    while let Some(n) = it.next_page() {
        let fetched: Result<Vec<Game>, String> = Ok(remote_page(1000, n));
        let (games, i, total) = it.yield_page(fetched).unwrap();
        seen.push((i, total));
        pages.push(games);
    }
    assert_eq!(seen, vec![(1, 3), (2, 3), (3, 3)]);
    let top = get_top(250, pages).unwrap();
    assert_eq!(top.len(), 250);
    assert_eq!(top[0].id, 1);
    assert_eq!(top[249].id, 250);
}

#[test]
fn top_iterator_stops_after_failure() {
    let mut it = API::new(ApiConfig::new(0)).get_top(500);
    assert_eq!(it.next_page(), Some(1));
    let ok: Result<Vec<Game>, String> = Ok(remote_page(1000, 1));
    assert!(it.yield_page(ok).is_ok());
    assert_eq!(it.next_page(), Some(2));
    let failed: Result<Vec<Game>, String> = Err(String::from("down"));
    assert_eq!(it.yield_page(failed).unwrap_err(), "down");
    assert_eq!(it.next_page(), None);
    assert_eq!(it.next_page(), None);
}

#[test]
fn get_top_keeps_short_source_whole() {
    let pages = vec![remote_page(130, 1), remote_page(130, 2)];
    let top = get_top(250, pages).unwrap();
    assert_eq!(top.len(), 130);
    assert_eq!(top[129].id, 130);
}

#[test]
fn get_top_rejects_zero_depth() {
    assert!(matches!(get_top(0, Vec::new()), Err(Error::InvalidRange)));
}

#[test]
fn get_next_rejects_zero_bounds() {
    assert_eq!(API::get_next(0, 10), Err(Error::InvalidRange));
    assert_eq!(API::get_next(10, 0), Err(Error::InvalidRange));
}

fn window_ids(depth: usize, prospect: usize, total: usize) -> Vec<usize> {
    let p = API::get_next(depth, prospect).unwrap();
    let pages: Vec<Vec<Game>> = (p.first_page..=p.last_page)
        .map(|n| remote_page(total, n))
        .collect();
    p.extract(pages).iter().map(|g| g.id).collect()
}

#[test]
fn get_next_window_follows_depth() {
    assert_eq!(window_ids(200, 100, 1000), (201..=300).collect::<Vec<usize>>());
    assert_eq!(window_ids(150, 30, 1000), (151..=180).collect::<Vec<usize>>());
}

#[test]
fn get_next_window_skips_covered_page() {
    let p = API::get_next(150, 100).unwrap();
    assert_eq!(
        p,
        PagePlan { first_page: 3, last_page: 3, leading_skip: 0, take: 100 }
    );
    assert_eq!(window_ids(150, 100, 1000), (201..=300).collect::<Vec<usize>>());
}

#[test]
fn get_next_window_short_remote() {
    let p = API::get_next(100, 100).unwrap();
    assert_eq!(p.first_page, 2);
    let pages: Vec<Vec<Game>> = (p.first_page..=p.last_page)
        .map(|n| remote_page(130, n))
        .collect();
    let ids: Vec<usize> = p.extract(pages).iter().map(|g| g.id).collect();
    assert_eq!(ids, (101..=130).collect::<Vec<usize>>());
}

#[test]
fn concat_keeps_page_order() {
    let all = concat_pages(vec![vec![1, 2], vec![], vec![3]]);
    assert_eq!(all, vec![1, 2, 3]);
}

#[test]
fn reconcile_marks_ignored_entries() {
    let games: Vec<Game> = (1..=5).map(game).collect();
    let ignored = vec![game(2), game(5), game(9)];
    let marked = mark_games(games, &ignored);
    assert_eq!(marked.len(), 5);
    let flags: Vec<bool> = marked.iter().map(|c| c.ignored).collect();
    assert_eq!(flags, vec![false, true, false, false, true]);
    let ids: Vec<usize> = marked.iter().map(|c| c.game.id).collect();
    assert_eq!(ids, vec![1, 2, 3, 4, 5]);
}

#[test]
fn reconcile_compares_name_and_year() {
    let games = vec![game(1), game(2)];
    let ignored = vec![Game::new(1, String::from("renamed"), 2001), Game::new(2, String::from("game 2"), 1999)];
    let marked = mark_games(games, &ignored);
    assert!(!marked[0].ignored);
    assert!(!marked[1].ignored);
}

#[test]
fn reconcile_twice_gives_same_output() {
    let ignored = vec![game(3)];
    let a = mark_games((1..=4).map(game).collect(), &ignored);
    let b = mark_games((1..=4).map(game).collect(), &ignored);
    assert_eq!(a.len(), b.len());
    for (x, y) in a.iter().zip(b.iter()) {
        assert!(x.game == y.game);
        assert_eq!(x.ignored, y.ignored);
    }
    assert_eq!(ignored.len(), 1);
}

#[test]
fn slice_hides_ignored_and_keeps_positions() {
    let cs = containers(10, &[2, 4]);
    let s = get_slice(&cs, 1, 5, false).unwrap();
    let positions: Vec<usize> = s.iter().map(|(p, _)| *p).collect();
    assert_eq!(positions, vec![0, 1, 3, 5, 6]);
    assert!(s.iter().all(|(p, c)| !c.ignored && c.game.id == p + 1));
}

#[test]
fn slice_verbose_shows_all() {
    let cs = containers(10, &[2, 4]);
    let s = get_slice(&cs, 2, 4, true).unwrap();
    let positions: Vec<usize> = s.iter().map(|(p, _)| *p).collect();
    assert_eq!(positions, vec![1, 2, 3]);
    assert!(s[1].1.ignored);
}

#[test]
fn slice_past_end_is_short() {
    let cs = containers(3, &[]);
    assert_eq!(get_slice(&cs, 2, 9, false).unwrap().len(), 2);
    assert_eq!(get_slice(&cs, 5, 9, false).unwrap().len(), 0);
}

#[test]
fn slice_rejects_bad_bounds() {
    let cs = containers(10, &[]);
    assert!(matches!(get_slice(&cs, 0, 5, false), Err(Error::InvalidRange)));
    assert!(matches!(get_slice(&cs, 3, 3, false), Err(Error::InvalidRange)));
    assert!(matches!(get_slice(&cs, 4, 3, true), Err(Error::InvalidRange)));
}

#[test]
fn summarize_window_counts_seen_and_new() {
    let ignored: Vec<usize> = (0..30).map(|i| i * 3).collect();
    let cs = containers(100, &ignored);
    assert_eq!(summarize_window(&cs), (30, 70));
    assert_eq!(summarize_window(&Vec::new()), (0, 0));
}

#[test]
fn future_counts_against_ignore_set() {
    let window: Vec<Game> = (101..=110).map(game).collect();
    let ignored = vec![game(101), game(105), game(7)];
    assert_eq!(get_future(window, &ignored), (2, 8));
}

#[test]
fn href_id_is_next_to_last_part() {
    assert_eq!(href_to_id("/boardgame/174430/gloomhaven"), Ok(174430));
    assert_eq!(href_to_id("174430/gloomhaven"), Ok(174430));
    assert_eq!(href_to_id("/boardgame/+7/x"), Ok(7));
}

#[test]
fn href_without_id_fails() {
    assert_eq!(href_to_id("gloomhaven"), Err(Error::BadId));
    assert_eq!(href_to_id("/boardgame/abc/x"), Err(Error::BadId));
    assert_eq!(href_to_id("/boardgame//x"), Err(Error::BadId));
    assert_eq!(href_to_id("/boardgame/99999999999999999999999/x"), Err(Error::BadId));
}

#[test]
fn year_is_read_inside_parentheses() {
    assert_eq!(parse_year("(2017)"), Ok(2017));
    assert_eq!(parse_year("(-500)"), Ok(-500));
    assert_eq!(parse_year("(0)"), Ok(0));
    assert_eq!(parse_year("()"), Err(Error::BadYear));
    assert_eq!(parse_year("7"), Err(Error::BadYear));
    assert_eq!(parse_year("(19x5)"), Err(Error::BadYear));
    assert_eq!(parse_year("\u{e9}1995\u{e9}"), Err(Error::BadYear));
    assert_eq!(parse_year("[1995]"), Err(Error::BadYear));
    assert_eq!(parse_year("(1995"), Err(Error::BadYear));
}

#[test]
fn numbers_parse_like_std() {
    for s in ["0", "+12", "18446744073709551615", "", "+", "-1", "1 ", "18446744073709551616"] {
        assert_eq!(parse_unsigned(s), s.parse::<usize>().ok(), "{}", s);
    }
    for s in ["0", "-0", "+5", "-9223372036854775808", "9223372036854775807", "9223372036854775808", "-", "--1"] {
        assert_eq!(parse_signed(s), s.parse::<isize>().ok(), "{}", s);
    }
}

#[test]
fn links_become_games() {
    let links = vec![
        RawLink { href: Some(String::from("/boardgame/13/catan")), text: String::from("Catan"), year: Some(String::from("(1995)")) },
        RawLink { href: Some(String::from("/boardgame/5/acquire")), text: String::from("Acquire"), year: None },
    ];
    let games = API::filter_games(&links).unwrap();
    assert!(games[0] == Game::new(13, String::from("Catan"), 1995));
    assert!(games[1] == Game::new(5, String::from("Acquire"), 0));
}

#[test]
fn bad_links_fail_at_first() {
    let good = RawLink { href: Some(String::from("/boardgame/13/catan")), text: String::from("Catan"), year: None };
    let no_href = RawLink { href: None, text: String::from("x"), year: None };
    let bad_year = RawLink { href: Some(String::from("/boardgame/1/a")), text: String::from("a"), year: Some(String::from("(abc)")) };
    let bad_id = RawLink { href: Some(String::from("/boardgame/a/a")), text: String::from("a"), year: None };
    assert!(matches!(API::filter_games(&vec![no_href]), Err(Error::MissingId)));
    assert!(matches!(game_from_link(&bad_id), Err(Error::BadId)));
    let both = vec![RawLink { href: good.href.clone(), text: good.text.clone(), year: None }, bad_year, bad_id];
    assert!(matches!(API::filter_games(&both), Err(Error::BadYear)));
}

#[test]
fn game_url_holds_id() {
    assert_eq!(game(174430).url(), "https://boardgamegeek.com/boardgame/174430");
    assert_eq!(game(0).url(), "https://boardgamegeek.com/boardgame/0");
    assert_eq!(game(9).url(), "https://boardgamegeek.com/boardgame/9");
    assert_eq!(game(1000).url(), "https://boardgamegeek.com/boardgame/1000");
}

#[test]
fn project_defaults() {
    let c = Config::default();
    assert_eq!((c.depth, c.batch_size, c.prospect), (100, 5, 100));
}

#[test]
fn progress_reports_values() {
    let total = Cell::new(0usize);
    let p = Progress::new(|v: usize| total.set(total.get() + v));
    p.report(3);
    p.report(4);
    assert_eq!(total.get(), 7);
}


#[test]
fn url_with_name_part_gives_back_id() {
    for id in [0usize, 7, 13, 174430] {
        let href = format!("{}/some-name", game(id).url());
        assert_eq!(href_to_id(&href), Ok(id));
    }
}
