use vstd::prelude::*;

use crate::error::Error;
use crate::game::{same_game, Game};
use crate::pagination::{concat_pages, flat_pages};

verus! {

/// A ranked game with whether it was already seen.
#[derive(Debug)]
pub struct Container {
    pub game: Game,
    pub ignored: bool,
}

impl Container {
    pub fn new(game: Game, ignored: bool) -> (r: Container)
        ensures
            r.game == game,
            r.ignored == ignored,
    {
        Container { game, ignored }
    }

    /// A copy of this container.
    pub fn duplicate(&self) -> (r: Container)
        ensures
            r == *self,
    {
        Container { game: self.game.duplicate(), ignored: self.ignored }
    }
}

/// Settings of a tracking project.
#[derive(Debug)]
pub struct Config {
    /// Positions of the ranking that are tracked.
    pub depth: usize,
    /// Games shown at a time while reviewing.
    pub batch_size: usize,
    /// Positions past `depth` that are probed for newcomers.
    pub prospect: usize,
}

impl Config {
    pub fn new(depth: usize, batch_size: usize, prospect: usize) -> (r: Config)
        ensures
            r.depth == depth,
            r.batch_size == batch_size,
            r.prospect == prospect,
    {
        Config { depth, batch_size, prospect }
    }
}

impl Default for Config {
    /// The settings a new project starts with.
    fn default() -> (r: Config)
        ensures
            r.depth == 100,
            r.batch_size == 5,
            r.prospect == 100,
    {
        Config::new(100, 5, 100)
    }
}

/// Whether `g` is one of the entries of `set`.
pub open spec fn is_listed(set: Seq<Game>, g: Game) -> bool {
    exists|j: int| 0 <= j < set.len() && same_game(#[trigger] set[j], g)
}

/// The ranking with each game marked by whether the ignore set holds it.
pub open spec fn reconciled(games: Seq<Game>, ignored: Seq<Game>) -> Seq<Container> {
    Seq::new(
        games.len(),
        |i: int| Container { game: games[i], ignored: is_listed(ignored, games[i]) },
    )
}

fn is_ignored(ignored: &Vec<Game>, g: &Game) -> (r: bool)
    ensures
        r == is_listed(ignored@, *g),
{
    let mut j: usize = 0;
    while j < ignored.len()
        invariant
            j <= ignored@.len(),
            forall|m: int| 0 <= m < j ==> !same_game(#[trigger] ignored@[m], *g),
        decreases ignored@.len() - j,
    {
        let e = &ignored[j];
        if e.id == g.id && e.name == g.name && e.year == g.year {
            assert(same_game(ignored@[j as int], *g));
            return true;
        }
        j = j + 1;
    }
    false
}

/// Marks each game of the ranking, in order, by whether `ignored` holds it.
pub fn mark_games(games: Vec<Game>, ignored: &Vec<Game>) -> (r: Vec<Container>)
    ensures
        r@ == reconciled(games@, ignored@),
{
    let mut containers: Vec<Container> = Vec::new();
    let mut i: usize = 0;
    while i < games.len()
        invariant
            i <= games@.len(),
            containers@ == reconciled(games@, ignored@).take(i as int),
        decreases games@.len() - i,
    {
        let game = games[i].duplicate();
        let ign = is_ignored(ignored, &game);
        containers.push(Container::new(game, ign));
        i = i + 1;
        assert(containers@ =~= reconciled(games@, ignored@).take(i as int));
    }
    assert(containers@ =~= reconciled(games@, ignored@));
    containers
}

/// Reconciling keeps the ranking's length and order, and marks an entry
/// ignored exactly when the ignore set holds it.
pub proof fn reconcile_marks_each_entry(games: Seq<Game>, ignored: Seq<Game>)
    ensures
        reconciled(games, ignored).len() == games.len(),
        forall|i: int|
            0 <= i < games.len() ==> (#[trigger] reconciled(games, ignored)[i]).game == games[i]
                && (reconciled(games, ignored)[i].ignored <==> exists|j: int|
                0 <= j < ignored.len() && same_game(ignored[j], games[i])),
{
}

/// Reconciling holds no state: reconciling the games of a reconciled ranking
/// against the same ignore set gives the same ranking again.
pub proof fn reconcile_idempotent(games: Seq<Game>, ignored: Seq<Game>)
    ensures
        reconciled(reconciled(games, ignored).map_values(|c: Container| c.game), ignored)
            == reconciled(games, ignored),
{
    let once = reconciled(games, ignored);
    assert(once.map_values(|c: Container| c.game) =~= games);
}

/// Positions (0-based) among the first `n` containers that are shown:
/// all of them when `verbose`, else those not ignored.
pub open spec fn shown(cs: Seq<Container>, verbose: bool, n: int) -> Seq<int>
    decreases n,
{
    if n <= 0 {
        Seq::empty()
    } else {
        let p = shown(cs, verbose, n - 1);
        if verbose || !cs[n - 1].ignored {
            p.push(n - 1)
        } else {
            p
        }
    }
}

pub open spec fn min_of(a: int, b: int) -> int {
    if a <= b {
        a
    } else {
        b
    }
}

/// Positions of the shown containers ranked `from..=to` among the shown ones.
pub open spec fn slice_positions(cs: Seq<Container>, from: int, to: int, verbose: bool) -> Seq<
    int,
> {
    let s = shown(cs, verbose, cs.len() as int);
    s.subrange(min_of(from - 1, s.len() as int), min_of(to, s.len() as int))
}

/// The slice `from..=to` of the shown containers, each with its position in
/// the whole ranking.
pub open spec fn sliced(cs: Seq<Container>, from: int, to: int, verbose: bool) -> Seq<
    (usize, Container),
> {
    let ps = slice_positions(cs, from, to, verbose);
    Seq::new(ps.len(), |k: int| (ps[k] as usize, cs[ps[k]]))
}

proof fn lemma_shown_bounds(cs: Seq<Container>, verbose: bool, n: int)
    ensures
        shown(cs, verbose, n).len() <= if n < 0 { 0 } else { n },
        forall|k: int|
            0 <= k < shown(cs, verbose, n).len() ==> 0 <= #[trigger] shown(cs, verbose, n)[k]
                < n,
    decreases n,
{
    if n > 0 {
        lemma_shown_bounds(cs, verbose, n - 1);
    }
}

proof fn lemma_shown_visible(cs: Seq<Container>, n: int)
    requires
        n <= cs.len(),
    ensures
        forall|k: int|
            0 <= k < shown(cs, false, n).len() ==> !cs[#[trigger] shown(cs, false, n)[k]].ignored,
        forall|a: int, b: int|
            0 <= a < b < shown(cs, false, n).len() ==> #[trigger] shown(cs, false, n)[a]
                < #[trigger] shown(cs, false, n)[b],
    decreases n,
{
    if n > 0 {
        lemma_shown_visible(cs, n - 1);
        lemma_shown_bounds(cs, false, n - 1);
    }
}

/// Without `verbose` a slice holds no ignored container, and its positions
/// rise strictly, so each container appears once and in ranking order.
pub proof fn slice_hides_ignored(cs: Seq<Container>, from: int, to: int)
    requires
        1 <= from < to,
        cs.len() <= usize::MAX,
    ensures
        forall|k: int|
            0 <= k < sliced(cs, from, to, false).len() ==> !(#[trigger] sliced(
                cs,
                from,
                to,
                false,
            )[k]).1.ignored,
        forall|a: int, b: int|
            0 <= a < b < sliced(cs, from, to, false).len() ==> (#[trigger] sliced(
                cs,
                from,
                to,
                false,
            )[a]).0 < (#[trigger] sliced(cs, from, to, false)[b]).0,
{
    let n = cs.len() as int;
    lemma_shown_visible(cs, n);
    lemma_shown_bounds(cs, false, n);
    let s = shown(cs, false, n);
    let lo = min_of(from - 1, s.len() as int);
    let ps = slice_positions(cs, from, to, false);
    assert forall|k: int| 0 <= k < ps.len() implies ps[k] == s[lo + k] && 0 <= ps[k] < n
        && !cs[ps[k]].ignored by {}
    assert forall|a: int, b: int| 0 <= a < b < ps.len() implies ps[a] < ps[b] by {
        assert(s[lo + a] < s[lo + b]);
    }
}

/// The containers ranked `from..=to` (1-based, inclusive) among those shown,
/// each with its 0-based position in the whole ranking. Ignored containers
/// are shown only when `verbose`.
pub fn get_slice(containers: &Vec<Container>, from: usize, to: usize, verbose: bool) -> (r: Result<
    Vec<(usize, Container)>,
    Error,
>)
    ensures
        from == 0 || to <= from <==> r == Err::<Vec<(usize, Container)>, Error>(
            Error::InvalidRange,
        ),
        from >= 1 && to > from ==> (r matches Ok(v) && v@ == sliced(
            containers@,
            from as int,
            to as int,
            verbose,
        )),
{
    if from == 0 || to <= from {
        return Err(Error::InvalidRange);
    }
    let ghost cs = containers@;
    let mut out: Vec<(usize, Container)> = Vec::new();
    let mut k: usize = 0;
    let mut i: usize = 0;
    while i < containers.len()
        invariant
            i <= cs.len(),
            cs == containers@,
            1 <= from < to,
            k == shown(cs, verbose, i as int).len(),
            out@.len() == min_of(to as int, k as int) - min_of(from - 1, k as int),
            forall|m: int|
                0 <= m < out@.len() ==> (#[trigger] out@[m]).0 as int == shown(
                    cs,
                    verbose,
                    i as int,
                )[min_of(from - 1, k as int) + m] && out@[m].1 == cs[out@[m].0 as int],
        decreases cs.len() - i,
    {
        proof {
            lemma_shown_bounds(cs, verbose, i as int);
        }
        let c = &containers[i];
        if verbose || !c.ignored {
            if from - 1 <= k && k < to {
                out.push((i, c.duplicate()));
            }
            k = k + 1;
        }
        i = i + 1;
    }
    assert(out@ =~= sliced(cs, from as int, to as int, verbose));
    Ok(out)
}

/// Number of ignored containers.
pub open spec fn ignored_count(cs: Seq<Container>) -> nat
    decreases cs.len(),
{
    if cs.len() == 0 {
        0
    } else {
        ignored_count(cs.drop_last()) + if cs.last().ignored {
            1nat
        } else {
            0nat
        }
    }
}

/// How many containers were already seen, and how many are new.
pub fn summarize_window(containers: &Vec<Container>) -> (r: (usize, usize))
    ensures
        r.0 == ignored_count(containers@),
        r.0 + r.1 == containers@.len(),
{
    let mut seen: usize = 0;
    let mut i: usize = 0;
    while i < containers.len()
        invariant
            i <= containers@.len(),
            seen == ignored_count(containers@.take(i as int)),
            seen <= i,
        decreases containers@.len() - i,
    {
        assert(containers@.take(i + 1).drop_last() =~= containers@.take(i as int));
        if containers[i].ignored {
            seen = seen + 1;
        }
        i = i + 1;
    }
    assert(containers@.take(i as int) =~= containers@);
    (seen, containers.len() - seen)
}

/// How many of the games found past the tracked positions were already seen,
/// and how many are new.
pub fn get_future(window: Vec<Game>, ignored: &Vec<Game>) -> (r: (usize, usize))
    ensures
        r.0 == ignored_count(reconciled(window@, ignored@)),
        r.0 + r.1 == window@.len(),
{
    let marked = mark_games(window, ignored);
    summarize_window(&marked)
}

/// The top `depth` games out of the fetched pages of the ranking, given in
/// page order; trailing entries of the last page are dropped. Where the
/// pages hold fewer than `depth` games, all of them are kept.
pub fn get_top(depth: usize, pages: Vec<Vec<Game>>) -> (r: Result<Vec<Game>, Error>)
    ensures
        depth == 0 <==> r == Err::<Vec<Game>, Error>(Error::InvalidRange),
        depth >= 1 && flat_pages(pages@).len() >= depth ==> (r matches Ok(v) && v@
            == flat_pages(pages@).take(depth as int)),
        depth >= 1 && flat_pages(pages@).len() < depth ==> (r matches Ok(v) && v@ == flat_pages(
            pages@,
        )),
{
    if depth == 0 {
        return Err(Error::InvalidRange);
    }
    let mut all = concat_pages(pages);
    all.truncate(depth);
    Ok(all)
}

} // verus!
