use vstd::prelude::*;
use vstd::string::*;

use crate::error::Error;
use crate::number::{
    all_digits, decimal, digits_number, digits_value, is_digit, parse_signed, parse_unsigned,
    signed_number, unsigned_number,
};

verus! {

/// One ranked board game.
#[derive(Debug)]
pub struct Game {
    pub id: usize,
    pub name: String,
    pub year: isize,
}

/// Two entries are the same game when identifier, name and year all agree.
pub open spec fn same_game(a: Game, b: Game) -> bool {
    a.id == b.id && a.name@ == b.name@ && a.year == b.year
}

/// The page of a game on the remote site.
pub open spec fn game_url(id: usize) -> Seq<char> {
    "https://boardgamegeek.com/boardgame/"@ + decimal(id as nat)
}

/// The one-character text of digit `d`.
fn digit_text(d: usize) -> (r: &'static str)
    requires
        d < 10,
    ensures
        r@ == seq![(('0' as u32) + d) as char],
{
    let digits = "0123456789";
    proof {
        reveal_strlit("0123456789");
    }
    let r = digits.substring_char(d, d + 1);
    assert(r@ =~= seq![(('0' as u32) + d) as char]);
    r
}

/// The decimal text of `n`.
fn decimal_text(n: usize) -> (r: String)
    ensures
        r@ == decimal(n as nat),
    decreases n,
{
    if n < 10 {
        String::from_str(digit_text(n))
    } else {
        let high = decimal_text(n / 10);
        high.concat(digit_text(n % 10))
    }
}

impl Game {
    pub fn new(id: usize, name: String, year: isize) -> (r: Game)
        ensures
            r.id == id,
            r.name == name,
            r.year == year,
    {
        Game { id, name, year }
    }

    /// A copy of this game.
    pub fn duplicate(&self) -> (r: Game)
        ensures
            r == *self,
    {
        Game { id: self.id, name: self.name.clone(), year: self.year }
    }

    /// The address of this game's page.
    pub fn url(&self) -> (r: String)
        ensures
            r@ == game_url(self.id),
    {
        let base = String::from_str("https://boardgamegeek.com/boardgame/");
        let digits = decimal_text(self.id);
        base.concat(digits.as_str())
    }
}

impl PartialEq for Game {
    fn eq(&self, other: &Game) -> (r: bool) {
        self.id == other.id && self.name == other.name && self.year == other.year
    }
}

impl vstd::std_specs::cmp::PartialEqSpecImpl for Game {
    open spec fn obeys_eq_spec() -> bool {
        true
    }

    open spec fn eq_spec(&self, other: &Game) -> bool {
        same_game(*self, *other)
    }
}

/// What the listing shows of one game: the link's target and text, and the
/// text beside it that holds the year, if any.
#[derive(Debug)]
pub struct RawLink {
    pub href: Option<String>,
    pub text: String,
    pub year: Option<String>,
}

/// Index of the last `c` before `end` in `s`, or -1.
pub open spec fn last_index_before(s: Seq<char>, c: char, end: int) -> int
    decreases end,
{
    if end <= 0 {
        -1
    } else if s[end - 1] == c {
        end - 1
    } else {
        last_index_before(s, c, end - 1)
    }
}

/// The next-to-last `/`-separated part of a link target, if it has two parts.
pub open spec fn id_segment(h: Seq<char>) -> Option<Seq<char>> {
    let k = last_index_before(h, '/', h.len() as int);
    if k < 0 {
        None
    } else {
        Some(h.subrange(last_index_before(h, '/', k) + 1, k))
    }
}

/// The identifier that a link target such as `/boardgame/13/catan` holds.
pub open spec fn href_id(h: Seq<char>) -> Option<nat> {
    match id_segment(h) {
        Some(seg) => unsigned_number(seg),
        None => None,
    }
}

/// The year that text such as `(1995)` holds: a signed integer between
/// parentheses.
pub open spec fn year_value(t: Seq<char>) -> Option<int> {
    if t.len() < 2 || t[0] != '(' || t[t.len() - 1] != ')' {
        None
    } else {
        signed_number(t.subrange(1, t.len() - 1))
    }
}

/// The year of a listing; one shown with no year counts as year 0.
pub open spec fn listed_year(y: Option<String>) -> Option<int> {
    match y {
        Some(t) => year_value(t@),
        None => Some(0),
    }
}

/// The game that one listing link describes, or why it describes none.
pub open spec fn link_game(l: RawLink) -> Result<Game, Error> {
    match l.href {
        None => Err(Error::MissingId),
        Some(h) => match href_id(h@) {
            None => Err(Error::BadId),
            Some(id) => match listed_year(l.year) {
                None => Err(Error::BadYear),
                Some(y) => Ok(Game { id: id as usize, name: l.text, year: y as isize }),
            },
        },
    }
}

fn last_index_of(s: &str, c: char, end: usize) -> (r: Option<usize>)
    requires
        end <= s@.len(),
    ensures
        r matches Some(k) ==> k < end && last_index_before(s@, c, end as int) == k as int,
        r is None ==> last_index_before(s@, c, end as int) == -1,
{
    let mut i: usize = end;
    while i > 0
        invariant
            i <= end <= s@.len(),
            last_index_before(s@, c, end as int) == last_index_before(s@, c, i as int),
        decreases i,
    {
        if s.get_char(i - 1) == c {
            return Some(i - 1);
        }
        i = i - 1;
    }
    None
}

proof fn lemma_decimal_digits(n: nat)
    ensures
        decimal(n).len() >= 1,
        all_digits(decimal(n)),
        digits_value(decimal(n)) == n,
    decreases n,
{
    if n >= 10 {
        lemma_decimal_digits(n / 10);
        let d = decimal(n);
        assert(d.drop_last() =~= decimal(n / 10));
        let c = (('0' as u32) + n % 10) as char;
        assert(d.last() == c);
        assert((c as u32) == ('0' as u32) + n % 10);
        assert(all_digits(d));
        assert(digits_value(d) == digits_value(decimal(n / 10)) * 10 + n % 10);
        assert((n / 10) * 10 + n % 10 == n);
    } else {
        let d = decimal(n);
        let c = (('0' as u32) + n) as char;
        assert(d.drop_last() =~= Seq::<char>::empty());
        assert((c as u32) == ('0' as u32) + n);
        assert(digits_value(d) == digits_value(d.drop_last()) * 10 + n);
    }
}

proof fn lemma_last_index_skips(s: Seq<char>, c: char, j: int, end: int)
    requires
        0 <= j <= end <= s.len(),
        forall|i: int| j <= i < end ==> s[i] != c,
    ensures
        last_index_before(s, c, end) == last_index_before(s, c, j),
    decreases end - j,
{
    if end > j {
        lemma_last_index_skips(s, c, j, end - 1);
    }
}

/// A link target made of a game's page address, a `/` and a name part
/// without `/` gives back the game's identifier.
pub proof fn url_link_gives_id(id: usize, slug: Seq<char>)
    requires
        forall|i: int| 0 <= i < slug.len() ==> slug[i] != '/',
    ensures
        href_id(game_url(id) + seq!['/'] + slug) == Some(id as nat),
{
    reveal_strlit("https://boardgamegeek.com/boardgame/");
    let base = "https://boardgamegeek.com/boardgame/"@;
    let d = decimal(id as nat);
    lemma_decimal_digits(id as nat);
    let h = game_url(id) + seq!['/'] + slug;
    let k: int = (base.len() + d.len()) as int;
    assert(h.len() == k + 1 + slug.len());
    assert(h[k] == '/');
    assert forall|i: int| k + 1 <= i < h.len() implies h[i] != '/' by {
        assert(h[i] == slug[i - k - 1]);
    }
    lemma_last_index_skips(h, '/', k + 1, h.len() as int);
    assert(last_index_before(h, '/', k + 1) == k);
    assert forall|i: int| base.len() <= i < k implies h[i] != '/' by {
        assert(h[i] == d[i - base.len()]);
        assert(is_digit(d[i - base.len()]));
    }
    lemma_last_index_skips(h, '/', base.len() as int, k);
    assert(base.len() == 36);
    assert(h[35] == '/');
    assert(last_index_before(h, '/', 36) == 35);
    assert(h.subrange(36, k) =~= d);
    assert(is_digit(d[0]));
    assert(digits_number(d) == Some(id as nat));
}

/// Different games have different page addresses.
pub proof fn url_distinguishes_ids(a: usize, b: usize)
    ensures
        game_url(a) == game_url(b) ==> a == b,
{
    lemma_decimal_digits(a as nat);
    lemma_decimal_digits(b as nat);
    let base = "https://boardgamegeek.com/boardgame/"@;
    if game_url(a) == game_url(b) {
        assert(game_url(a).skip(base.len() as int) =~= decimal(a as nat));
        assert(game_url(b).skip(base.len() as int) =~= decimal(b as nat));
    }
}

/// Reads the game identifier out of a link target such as
/// `/boardgame/13/catan`: the next-to-last `/`-separated part.
pub fn href_to_id(href: &str) -> (r: Result<usize, Error>)
    ensures
        r matches Ok(id) ==> href_id(href@) == Some(id as nat),
        r is Err ==> href_id(href@) is None && r == Err::<usize, Error>(Error::BadId),
{
    let n = href.unicode_len();
    match last_index_of(href, '/', n) {
        None => Err(Error::BadId),
        Some(k) => {
            let start = match last_index_of(href, '/', k) {
                Some(j) => j + 1,
                None => 0,
            };
            let seg = href.substring_char(start, k);
            match parse_unsigned(seg) {
                Some(id) => Ok(id),
                None => Err(Error::BadId),
            }
        },
    }
}

/// Reads a year shown as `(1995)`.
pub fn parse_year(text: &str) -> (r: Result<isize, Error>)
    ensures
        r matches Ok(y) ==> year_value(text@) == Some(y as int),
        r is Err ==> year_value(text@) is None && r == Err::<isize, Error>(Error::BadYear),
{
    let n = text.unicode_len();
    if n < 2 || text.get_char(0) != '(' || text.get_char(n - 1) != ')' {
        return Err(Error::BadYear);
    }
    let inner = text.substring_char(1, n - 1);
    match parse_signed(inner) {
        Some(y) => Ok(y),
        None => Err(Error::BadYear),
    }
}

/// The game that one listing link describes.
pub fn game_from_link(link: &RawLink) -> (r: Result<Game, Error>)
    ensures
        r == link_game(*link),
{
    let href = match &link.href {
        Some(h) => h,
        None => return Err(Error::MissingId),
    };
    let id = match href_to_id(href.as_str()) {
        Ok(id) => id,
        Err(e) => return Err(e),
    };
    let year: isize = match &link.year {
        Some(t) => match parse_year(t.as_str()) {
            Ok(y) => y,
            Err(e) => return Err(e),
        },
        None => 0,
    };
    Ok(Game::new(id, link.text.clone(), year))
}

} // verus!
