use vstd::prelude::*;
use crate::game::{Tags, TagsView, lookup_tag};
use crate::text::{spec_parse_i32, parse_i32};

verus! {

/// What `str::to_lowercase` makes of a text.
pub uninterp spec fn lower_of(s: Seq<char>) -> Seq<char>;

/// Relies on `str::to_lowercase`: the result depends on the characters
/// alone.
#[verifier::external_body]
fn to_lowercase(s: &str) -> (r: String)
    ensures
        r@ == lower_of(s@),
{
    s.to_lowercase()
}

pub open spec fn result_key() -> Seq<char> {
    seq!['R', 'e', 's', 'u', 'l', 't']
}

pub open spec fn ply_count_key() -> Seq<char> {
    seq!['P', 'l', 'y', 'C', 'o', 'u', 'n', 't']
}

pub open spec fn white_key() -> Seq<char> {
    seq!['W', 'h', 'i', 't', 'e']
}

pub open spec fn black_key() -> Seq<char> {
    seq!['B', 'l', 'a', 'c', 'k']
}

pub open spec fn white_won() -> Seq<char> {
    seq!['1', '-', '0']
}

pub open spec fn black_won() -> Seq<char> {
    seq!['0', '-', '1']
}

pub open spec fn drawn() -> Seq<char> {
    seq!['1', '/', '2', '-', '1', '/', '2']
}

/// Whether the `Result` tag is `r`.
pub open spec fn result_is(tags: TagsView, r: Seq<char>) -> bool {
    lookup_tag(tags, result_key()) == Some(r)
}

/// Whether `needle` occurs in `hay` as a run of consecutive characters.
pub open spec fn contains_text(hay: Seq<char>, needle: Seq<char>) -> bool {
    exists|i: int| 0 <= i && i + needle.len() <= hay.len() && #[trigger] hay.subrange(i, i + needle.len()) == needle
}

/// The parts of `s` between commas, as `str::split(',')` gives them.
pub open spec fn comma_split(s: Seq<char>) -> Seq<Seq<char>>
    decreases s.len(),
{
    if s.len() == 0 {
        seq![Seq::empty()]
    } else {
        let p = comma_split(s.drop_last());
        if s.last() == ',' {
            p.push(Seq::empty())
        } else {
            p.update(p.len() - 1, p.last().push(s.last()))
        }
    }
}

proof fn lemma_comma_split_nonempty(s: Seq<char>)
    ensures
        comma_split(s).len() >= 1,
    decreases s.len(),
{
    if s.len() > 0 {
        lemma_comma_split_nonempty(s.drop_last());
    }
}

/// One player of the list, with the sides matched so far and the answer so
/// far. `+name` matches a side played by `name` that won, `-name` one that
/// lost, `=name` one drawn, and a bare name any side `name` played; a name
/// matches a player whose lower-cased name contains it. The answer holds
/// once both sides have matched (`between`) or either has.
pub open spec fn player_step(
    acc: (bool, bool, bool),
    p: Seq<char>,
    white: Seq<char>,
    black: Seq<char>,
    tags: TagsView,
    between: bool,
) -> (bool, bool, bool) {
    let name = if p.len() > 0 && (p[0] == '+' || p[0] == '-' || p[0] == '=') { p.drop_first() } else { p };
    let (w_ok, b_ok) = if p.len() > 0 && p[0] == '+' {
        (result_is(tags, white_won()), result_is(tags, black_won()))
    } else if p.len() > 0 && p[0] == '-' {
        (result_is(tags, black_won()), result_is(tags, white_won()))
    } else if p.len() > 0 && p[0] == '=' {
        (result_is(tags, drawn()), result_is(tags, drawn()))
    } else {
        (true, true)
    };
    let w = acc.0 || (contains_text(white, name) && w_ok);
    let b = acc.1 || (contains_text(black, name) && b_ok);
    (w, b, acc.2 || (if between { w && b } else { w || b }))
}

pub open spec fn players_fold(
    parts: Seq<Seq<char>>,
    white: Seq<char>,
    black: Seq<char>,
    tags: TagsView,
    between: bool,
) -> (bool, bool, bool)
    decreases parts.len(),
{
    if parts.len() == 0 {
        (false, false, false)
    } else {
        player_step(players_fold(parts.drop_last(), white, black, tags, between), parts.last(), white, black, tags, between)
    }
}

/// Filters games on their tags: by result, by a least ply count, by players.
pub struct TagsFilter {
    pub white_wins: bool,
    pub black_wins: bool,
    pub draw: bool,
    pub min_ply_count: Option<i32>,
    pub players: Option<String>,
}

impl TagsFilter {
    /// Whether some result is asked for.
    pub open spec fn spec_apply_result(&self) -> bool {
        self.white_wins || self.black_wins || self.draw
    }

    /// Whether the `Result` tag is one of the results asked for.
    pub open spec fn spec_filter_result(&self, tags: TagsView) -> bool {
        (self.white_wins && result_is(tags, white_won())) || (self.black_wins && result_is(tags, black_won()))
            || (self.draw && result_is(tags, drawn()))
    }

    /// Whether the `PlyCount` tag is a number no less than the least asked for.
    pub open spec fn spec_filter_ply_count(&self, tags: TagsView) -> bool {
        match (self.min_ply_count, lookup_tag(tags, ply_count_key())) {
            (Some(min), Some(v)) => match spec_parse_i32(v) {
                Some(n) => n >= min,
                None => false,
            },
            _ => false,
        }
    }

    /// Whether the players' names match the comma-separated player list; a
    /// list that starts with `*` asks for games between listed players.
    pub open spec fn spec_filter_players(&self, tags: TagsView) -> bool {
        match (self.players, lookup_tag(tags, white_key()), lookup_tag(tags, black_key())) {
            (Some(players), Some(w), Some(b)) => {
                let list = lower_of(players@);
                let between = list.len() > 0 && list[0] == '*';
                let body = if between { list.drop_first() } else { list };
                players_fold(comma_split(body), lower_of(w), lower_of(b), tags, between).2
            },
            _ => false,
        }
    }

    /// Whether a game with these tags passes each filter that is asked for.
    pub open spec fn spec_filter(&self, tags: TagsView) -> bool {
        (!self.spec_apply_result() || self.spec_filter_result(tags)) && (self.min_ply_count is None
            || self.spec_filter_ply_count(tags)) && (self.players is None || self.spec_filter_players(tags))
    }

    /// Whether `o` filters as this filter does.
    pub open spec fn same_as(&self, o: &TagsFilter) -> bool {
        &&& self.white_wins == o.white_wins
        &&& self.black_wins == o.black_wins
        &&& self.draw == o.draw
        &&& self.min_ply_count == o.min_ply_count
        &&& match (self.players, o.players) {
            (Some(a), Some(b)) => a@ == b@,
            (None, None) => true,
            _ => false,
        }
    }

    /// A copy of this filter.
    pub fn copy(&self) -> (r: TagsFilter)
        ensures
            r.same_as(self),
            forall|t: TagsView| r.spec_filter(t) == self.spec_filter(t),
    {
        let players = match &self.players {
            Some(p) => Some(p.clone()),
            None => None,
        };
        TagsFilter {
            white_wins: self.white_wins,
            black_wins: self.black_wins,
            draw: self.draw,
            min_ply_count: self.min_ply_count,
            players,
        }
    }

    pub fn new(white_wins: bool, black_wins: bool, draw: bool, min_ply_count: Option<i32>, players: Option<String>) -> (r: TagsFilter)
        ensures
            r.white_wins == white_wins,
            r.black_wins == black_wins,
            r.draw == draw,
            r.min_ply_count == min_ply_count,
            r.players == players,
    {
        TagsFilter { white_wins, black_wins, draw, min_ply_count, players }
    }

    pub fn filter(&self, tags: &Tags) -> (r: bool)
        ensures
            r == self.spec_filter(tags@),
    {
        (!self.apply_result() || self.filter_result(tags)) && (!self.apply_ply_count() || self.filter_ply_count(tags))
            && (!self.apply_players() || self.filter_players(tags))
    }

    pub fn filter_result(&self, tags: &Tags) -> (r: bool)
        ensures
            r == self.spec_filter_result(tags@),
    {
        (self.white_wins && white_wins(tags)) || (self.black_wins && black_wins(tags)) || (self.draw && draw(tags))
    }

    pub fn filter_ply_count(&self, tags: &Tags) -> (r: bool)
        ensures
            r == self.spec_filter_ply_count(tags@),
    {
        let key = "PlyCount";
        proof {
            reveal_strlit("PlyCount");
        }
        assert(key@ =~= ply_count_key());
        match (self.min_ply_count, tags.get(key)) {
            (Some(min), Some(v)) => match parse_i32(&crate::text::to_chars(v.as_str())) {
                Some(n) => n >= min,
                None => false,
            },
            _ => false,
        }
    }

    pub fn filter_players(&self, tags: &Tags) -> (r: bool)
        ensures
            r == self.spec_filter_players(tags@),
    {
        let wkey = "White";
        let bkey = "Black";
        proof {
            reveal_strlit("White");
            reveal_strlit("Black");
        }
        assert(wkey@ =~= white_key());
        assert(bkey@ =~= black_key());
        let players = match &self.players {
            Some(p) => p,
            None => {
                return false;
            },
        };
        let wp = match tags.get(wkey) {
            Some(w) => w,
            None => {
                return false;
            },
        };
        let bp = match tags.get(bkey) {
            Some(b) => b,
            None => {
                return false;
            },
        };
        let list = crate::text::to_chars(to_lowercase(players.as_str()).as_str());
        let white = crate::text::to_chars(to_lowercase(wp.as_str()).as_str());
        let black = crate::text::to_chars(to_lowercase(bp.as_str()).as_str());
        players_match(&list, &white, &black, tags)
    }

    pub fn apply(&self) -> (r: bool)
        ensures
            r == (self.spec_apply_result() || self.min_ply_count is Some || self.players is Some),
    {
        self.apply_result() || self.apply_ply_count() || self.apply_players()
    }

    pub fn apply_result(&self) -> (r: bool)
        ensures
            r == self.spec_apply_result(),
    {
        self.white_wins || self.black_wins || self.draw
    }

    pub fn apply_ply_count(&self) -> (r: bool)
        ensures
            r == self.min_ply_count is Some,
    {
        self.min_ply_count.is_some()
    }

    pub fn apply_players(&self) -> (r: bool)
        ensures
            r == self.players is Some,
    {
        self.players.is_some()
    }
}

/// Whether the players match a lower-cased player list: `white` and `black`
/// are the lower-cased names; a list that starts with `*` asks for games
/// between listed players.
pub fn players_match(list: &Vec<char>, white: &Vec<char>, black: &Vec<char>, tags: &Tags) -> (r: bool)
    ensures
        ({
            let between = list@.len() > 0 && list@[0] == '*';
            let body = if between { list@.drop_first() } else { list@ };
            r == players_fold(comma_split(body), white@, black@, tags@, between).2
        }),
{
    let between = list.len() > 0 && list[0] == '*';
    let start: usize = if between { 1 } else { 0 };
    let ghost body = if between { list@.drop_first() } else { list@ };
    let mut acc: (bool, bool, bool) = (false, false, false);
    let mut cur: Vec<char> = Vec::new();
    let mut i: usize = start;
    proof {
        assert(list@.subrange(start as int, start as int) =~= Seq::<char>::empty());
    }
    while i < list.len()
        invariant
            start <= i <= list@.len(),
            body == list@.subrange(start as int, list@.len() as int),
            ({
                let parts = comma_split(list@.subrange(start as int, i as int));
                acc == players_fold(parts.drop_last(), white@, black@, tags@, between) && cur@ == parts.last()
            }),
        decreases list@.len() - i,
    {
        let c = list[i];
        let ghost prefix = list@.subrange(start as int, i + 1);
        proof {
            assert(prefix.drop_last() =~= list@.subrange(start as int, i as int));
            lemma_comma_split_nonempty(prefix.drop_last());
        }
        if c == ',' {
            acc = player_matches(acc, &cur, &white, &black, tags, between);
            cur = Vec::new();
            assert(comma_split(prefix).drop_last() =~= comma_split(prefix.drop_last()));
        } else {
            cur.push(c);
            assert(comma_split(prefix).drop_last() =~= comma_split(prefix.drop_last()).drop_last());
        }
        i = i + 1;
    }
    proof {
        assert(list@.subrange(start as int, list@.len() as int) == body);
        if between {
            assert(body =~= list@.drop_first());
        } else {
            assert(body =~= list@);
        }
        lemma_comma_split_nonempty(body);
    }
    let last = player_matches(acc, &cur, &white, &black, tags, between);
last.2
}

/// One step of the player list, as `player_step` says.
fn player_matches(
    acc: (bool, bool, bool),
    p: &Vec<char>,
    white: &Vec<char>,
    black: &Vec<char>,
    tags: &Tags,
    between: bool,
) -> (r: (bool, bool, bool))
    ensures
        r == player_step(acc, p@, white@, black@, tags@, between),
{
    let marked = p.len() > 0 && (p[0] == '+' || p[0] == '-' || p[0] == '=');
    let name = if marked { crate::text::slice_chars(p, 1, p.len()) } else { crate::text::slice_chars(p, 0, p.len()) };
    assert(marked ==> name@ =~= p@.drop_first());
    assert(!marked ==> name@ =~= p@);
    let (w_ok, b_ok) = if p.len() > 0 && p[0] == '+' {
        (white_wins(tags), black_wins(tags))
    } else if p.len() > 0 && p[0] == '-' {
        (black_wins(tags), white_wins(tags))
    } else if p.len() > 0 && p[0] == '=' {
        (draw(tags), draw(tags))
    } else {
        (true, true)
    };
    let w = acc.0 || (contains_seq(white, &name) && w_ok);
    let b = acc.1 || (contains_seq(black, &name) && b_ok);
    (w, b, acc.2 || (if between { w && b } else { w || b }))
}

/// Whether `needle` occurs in `hay`.
fn contains_seq(hay: &Vec<char>, needle: &Vec<char>) -> (r: bool)
    ensures
        r == contains_text(hay@, needle@),
{
    if needle.len() > hay.len() {
        return false;
    }
    let hay_len = hay.len();
    let last = hay_len - needle.len();
    let mut i: usize = 0;
    while i <= last
        invariant
            hay_len == hay@.len(),
            needle@.len() <= hay@.len(),
            last == hay@.len() - needle@.len(),
            i <= last + 1,
            forall|k: int| 0 <= k < i ==> #[trigger] hay@.subrange(k, k + needle@.len()) != needle@,
        decreases hay@.len() - i,
    {
        let mut j: usize = 0;
        let mut same = true;
        while j < needle.len()
            invariant
                hay_len == hay@.len(),
                last == hay@.len() - needle@.len(),
                i <= last,
                needle@.len() <= hay@.len(),
                j <= needle@.len(),
                same == (forall|m: int| 0 <= m < j ==> hay@[i + m] == needle@[m]),
            decreases needle@.len() - j,
        {
            let k = i + j;
            if hay[k] != needle[j] {
                same = false;
            }
            j = j + 1;
        }
        if same {
            assert(hay@.subrange(i as int, i + needle@.len()) =~= needle@);
            return true;
        }
        assert(hay@.subrange(i as int, i + needle@.len()) != needle@) by {
            let k = choose|m: int| 0 <= m < needle@.len() && hay@[i + m] != needle@[m];
            assert(hay@.subrange(i as int, i + needle@.len())[k] != needle@[k]);
        }
        if i == last {
            return false;
        }
        i = i + 1;
    }
    false
}

/// Whether the `Result` tag is `1-0`.
pub fn white_wins(tags: &Tags) -> (r: bool)
    ensures
        r == result_is(tags@, white_won()),
{
    let expected = "1-0";
    proof {
        reveal_strlit("1-0");
    }
    assert(expected@ =~= white_won());
    result_tag_is(tags, expected)
}

/// Whether the `Result` tag is `0-1`.
pub fn black_wins(tags: &Tags) -> (r: bool)
    ensures
        r == result_is(tags@, black_won()),
{
    let expected = "0-1";
    proof {
        reveal_strlit("0-1");
    }
    assert(expected@ =~= black_won());
    result_tag_is(tags, expected)
}

/// Whether the `Result` tag is `1/2-1/2`.
pub fn draw(tags: &Tags) -> (r: bool)
    ensures
        r == result_is(tags@, drawn()),
{
    let expected = "1/2-1/2";
    proof {
        reveal_strlit("1/2-1/2");
    }
    assert(expected@ =~= drawn());
    result_tag_is(tags, expected)
}

fn result_tag_is(tags: &Tags, expected: &str) -> (r: bool)
    ensures
        r == result_is(tags@, expected@),
{
    let key = "Result";
    proof {
        reveal_strlit("Result");
    }
    assert(key@ =~= result_key());
    match tags.get(key) {
        Some(v) => v.as_str().to_owned() == expected.to_owned(),
        None => false,
    }
}

/// A filter on the given player list alone.
pub fn tags_filter_players(players: &str) -> (r: TagsFilter)
    ensures
        !r.white_wins && !r.black_wins && !r.draw,
        r.min_ply_count is None,
        r.players matches Some(p) && p@ == players@,
{
    TagsFilter { white_wins: false, black_wins: false, draw: false, min_ply_count: None, players: Some(players.to_owned()) }
}

/// The tags of a game between `white` and `black`, with its result if given.
pub fn white_vs_black(white: &str, black: &str, result: Option<&str>) -> (r: Tags)
    ensures
        lookup_tag(r@, white_key()) == Some(white@),
        lookup_tag(r@, black_key()) == Some(black@),
        lookup_tag(r@, result_key()) == match result {
            Some(x) => Some(x@),
            None => None::<Seq<char>>,
        },
{
    let mut tags = Tags::new();
    let wk = "White";
    let bk = "Black";
    let rk = "Result";
    proof {
        reveal_strlit("White");
        reveal_strlit("Black");
        reveal_strlit("Result");
    }
    assert(wk@ =~= white_key());
    assert(bk@ =~= black_key());
    assert(rk@ =~= result_key());
    assert(white_key()[0] != black_key()[0]);
    assert(white_key()[0] != result_key()[0]);
    assert(black_key()[0] != result_key()[0]);
    tags.insert(wk.to_owned(), white.to_owned());
    assert(tags@ =~= seq![(white_key(), white@)]);
    assert(tags@.drop_last() =~= Seq::<(Seq<char>, Seq<char>)>::empty());
    assert(crate::game::key_index(tags@.drop_last(), black_key()) == -1);
    assert(crate::game::key_index(tags@, black_key()) == -1);
    tags.insert(bk.to_owned(), black.to_owned());
    assert(tags@ =~= seq![(white_key(), white@), (black_key(), black@)]);
    assert(tags@.drop_last() =~= seq![(white_key(), white@)]);
    assert(tags@.drop_last().drop_last() =~= Seq::<(Seq<char>, Seq<char>)>::empty());
    assert(crate::game::key_index(tags@.drop_last().drop_last(), result_key()) == -1);
    assert(crate::game::key_index(tags@.drop_last(), result_key()) == -1);
    assert(crate::game::key_index(tags@, result_key()) == -1);
    if let Some(x) = result {
        tags.insert(rk.to_owned(), x.to_owned());
        assert(tags@ =~= seq![(white_key(), white@), (black_key(), black@), (result_key(), x@)]);
        assert(tags@.drop_last() =~= seq![(white_key(), white@), (black_key(), black@)]);
        assert(tags@.drop_last().drop_last() =~= seq![(white_key(), white@)]);
        let ghost t = tags@;
        assert(crate::game::key_index(t.drop_last().drop_last(), white_key()) == 0);
        assert(crate::game::key_index(t.drop_last(), white_key()) == 0);
        assert(crate::game::key_index(t, white_key()) == 0);
        assert(crate::game::key_index(t.drop_last(), black_key()) == 1);
        assert(crate::game::key_index(t, black_key()) == 1);
        assert(crate::game::key_index(t, result_key()) == 2);
    } else {
        assert(tags@.drop_last() =~= seq![(white_key(), white@)]);
        let ghost t = tags@;
        assert(crate::game::key_index(t.drop_last(), white_key()) == 0);
        assert(crate::game::key_index(t, white_key()) == 0);
        assert(crate::game::key_index(t, black_key()) == 1);
    }
    tags
}

} // verus!
