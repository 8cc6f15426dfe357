use vstd::prelude::*;
use crate::error::FenError;
use crate::position::ChessPosition;

verus! {

/// A tag list, keys as text and values as text.
pub type TagsView = Seq<(Seq<char>, Seq<char>)>;

/// The index of the last pair whose key is `key`, or -1.
pub open spec fn key_index(t: TagsView, key: Seq<char>) -> int
    decreases t.len(),
{
    if t.len() == 0 {
        -1
    } else if t.last().0 == key {
        t.len() - 1
    } else {
        key_index(t.drop_last(), key)
    }
}

/// The value of `key` in `t`.
pub open spec fn lookup_tag(t: TagsView, key: Seq<char>) -> Option<Seq<char>> {
    if key_index(t, key) >= 0 {
        Some(t[key_index(t, key)].1)
    } else {
        None
    }
}

/// `t` with `key` set to `value`: the pair replaced where the key is
/// present, appended where it is not.
pub open spec fn insert_tag(t: TagsView, key: Seq<char>, value: Seq<char>) -> TagsView {
    if key_index(t, key) >= 0 {
        t.update(key_index(t, key), (key, value))
    } else {
        t.push((key, value))
    }
}

pub proof fn lemma_key_index_bounds(t: TagsView, key: Seq<char>)
    ensures
        -1 <= key_index(t, key) < t.len(),
        key_index(t, key) >= 0 ==> t[key_index(t, key)].0 == key,
    decreases t.len(),
{
    if t.len() > 0 && t.last().0 != key {
        lemma_key_index_bounds(t.drop_last(), key);
    }
}

/// Whether no key occurs twice.
pub open spec fn keys_unique(t: TagsView) -> bool {
    forall|i: int, j: int| 0 <= i < j < t.len() ==> #[trigger] t[i].0 != #[trigger] t[j].0
}

proof fn lemma_key_index_none(t: TagsView, key: Seq<char>)
    requires
        key_index(t, key) == -1,
    ensures
        forall|i: int| 0 <= i < t.len() ==> #[trigger] t[i].0 != key,
    decreases t.len(),
{
    if t.len() > 0 {
        lemma_key_index_none(t.drop_last(), key);
        assert forall|i: int| 0 <= i < t.len() implies #[trigger] t[i].0 != key by {
            if i < t.len() - 1 {
                assert(t[i] == t.drop_last()[i]);
            }
        }
    }
}

pub open spec fn pair_view(p: (String, String)) -> (Seq<char>, Seq<char>) {
    (p.0@, p.1@)
}

/// The tags of a game: a map from key to value, each key once.
pub struct Tags {
    entries: Vec<(String, String)>,
}

impl View for Tags {
    type V = TagsView;

    closed spec fn view(&self) -> TagsView {
        self.entries@.map_values(|p: (String, String)| pair_view(p))
    }
}

impl Tags {
    /// Each key once.
    pub open spec fn wf(&self) -> bool {
        keys_unique(self@)
    }

    pub fn new() -> (r: Tags)
        ensures
            r@ == Seq::<(Seq<char>, Seq<char>)>::empty(),
            r.wf(),
    {
        let r = Tags { entries: Vec::new() };
        assert(r@ =~= Seq::<(Seq<char>, Seq<char>)>::empty());
        r
    }

    pub fn len(&self) -> (r: usize)
        ensures
            r == self@.len(),
    {
        self.entries.len()
    }

    pub fn is_empty(&self) -> (r: bool)
        ensures
            r == (self@.len() == 0),
    {
        self.entries.len() == 0
    }

    /// The `i`-th pair.
    pub fn entry(&self, i: usize) -> (r: (&String, &String))
        requires
            i < self@.len(),
        ensures
            r.0@ == self@[i as int].0,
            r.1@ == self@[i as int].1,
    {
        let e = &self.entries[i];
        (&e.0, &e.1)
    }

    fn find_key(&self, key: &String) -> (r: Option<usize>)
        ensures
            r matches Some(i) ==> key_index(self@, key@) == i,
            r is None ==> key_index(self@, key@) == -1,
    {
        let mut j: usize = self.entries.len();
        assert(self@.subrange(0, j as int) =~= self@);
        while j > 0
            invariant
                j <= self@.len(),
                self@.len() == self.entries@.len(),
                key_index(self@.subrange(0, j as int), key@) == key_index(self@, key@),
            decreases j,
        {
            let ghost sub = self@.subrange(0, j as int);
            assert(sub.last() == pair_view(self.entries@[j - 1]));
            if self.entries[j - 1].0 == *key {
                return Some(j - 1);
            }
            assert(sub.drop_last() =~= self@.subrange(0, j - 1));
            j = j - 1;
        }
        None
    }

    /// A copy of these tags.
    pub fn copy(&self) -> (r: Tags)
        ensures
            r@ == self@,
    {
        let mut entries: Vec<(String, String)> = Vec::new();
        let mut i: usize = 0;
        while i < self.entries.len()
            invariant
                i <= self.entries@.len(),
                entries@.map_values(|p: (String, String)| pair_view(p)) =~= self@.subrange(0, i as int),
            decreases self.entries@.len() - i,
        {
            let e = &self.entries[i];
            let ghost before = entries@;
            entries.push((e.0.clone(), e.1.clone()));
            assert(entries@.map_values(|p: (String, String)| pair_view(p)) =~= before.map_values(
                |p: (String, String)| pair_view(p),
            ).push(self@[i as int]));
            assert(self@.subrange(0, i + 1) =~= self@.subrange(0, i as int).push(self@[i as int]));
            i = i + 1;
        }
        Tags { entries }
    }

    /// The value of `key`.
    pub fn get(&self, key: &str) -> (r: Option<String>)
        ensures
            r matches Some(v) ==> lookup_tag(self@, key@) == Some(v@),
            r is None ==> lookup_tag(self@, key@) is None,
    {
        proof {
            lemma_key_index_bounds(self@, key@);
        }
        let owned = key.to_owned();
        match self.find_key(&owned) {
            Some(i) => Some(self.entries[i].1.clone()),
            None => None,
        }
    }

    /// Sets `key` to `value`.
    pub fn insert(&mut self, key: String, value: String)
        ensures
            final(self)@ == insert_tag(old(self)@, key@, value@),
            old(self).wf() ==> final(self).wf(),
    {
        proof {
            lemma_key_index_bounds(self@, key@);
            if key_index(self@, key@) == -1 {
                lemma_key_index_none(self@, key@);
            }
        }
        match self.find_key(&key) {
            Some(i) => {
                self.entries.set(i, (key, value));
                assert(self@ =~= insert_tag(old(self)@, key@, value@));
            },
            None => {
                self.entries.push((key, value));
                assert(self@ =~= insert_tag(old(self)@, key@, value@));
            },
        }
    }
}

/// An entry keyed by a move position: `k` stands after the move of index
/// `k - 1`, and `0` before the first move.
pub type Keyed = Seq<(usize, Seq<char>)>;

/// The text of the last entry with key `k`.
pub open spec fn last_text(e: Keyed, k: int) -> Option<Seq<char>>
    decreases e.len(),
{
    if e.len() == 0 {
        None
    } else if e.last().0 == k {
        Some(e.last().1)
    } else {
        last_text(e.drop_last(), k)
    }
}

/// The texts of all entries with key `k`, in order.
pub open spec fn texts_for(e: Keyed, k: int) -> Seq<Seq<char>>
    decreases e.len(),
{
    if e.len() == 0 {
        Seq::empty()
    } else if e.last().0 == k {
        texts_for(e.drop_last(), k).push(e.last().1)
    } else {
        texts_for(e.drop_last(), k)
    }
}

/// The text of the last entry with keys `(k, v)`.
pub open spec fn last_pair_text(e: Seq<(usize, usize, Seq<char>)>, k: int, v: int) -> Option<Seq<char>>
    decreases e.len(),
{
    if e.len() == 0 {
        None
    } else if e.last().0 == k && e.last().1 == v {
        Some(e.last().2)
    } else {
        last_pair_text(e.drop_last(), k, v)
    }
}

pub open spec fn keyed_view(v: Seq<(usize, String)>) -> Keyed {
    v.map_values(|p: (usize, String)| (p.0, p.1@))
}

pub open spec fn pair_keyed_view(v: Seq<(usize, usize, String)>) -> Seq<(usize, usize, Seq<char>)> {
    v.map_values(|p: (usize, usize, String)| (p.0, p.1, p.2@))
}

pub open spec fn strs(v: Seq<String>) -> Seq<Seq<char>> {
    v.map_values(|s: String| s@)
}

/// A parsed game, as text.
pub struct GameView {
    pub tags: TagsView,
    pub moves: Seq<Seq<char>>,
    pub comments: Keyed,
    pub variations: Keyed,
    pub after_variation_comments: Seq<(usize, usize, Seq<char>)>,
    pub nags: Keyed,
    pub game_result: Seq<char>,
}

/// A game: its tags, its moves, the comments, variations and glyphs attached
/// to them, and its result.
pub struct ChessGameImpl {
    pub tags: Tags,
    pub moves: Vec<String>,
    pub comments: Vec<(usize, String)>,
    pub variations: Vec<(usize, String)>,
    pub after_variations_comments: Vec<(usize, usize, String)>,
    pub game_result: String,
    pub nags: Vec<(usize, String)>,
}

/// The key of the entries after the move of index `after_move`.
pub open spec fn key_of(after_move: i64) -> int {
    after_move + 1
}

impl ChessGameImpl {
    pub open spec fn view(&self) -> GameView {
        GameView {
            tags: self.tags@,
            moves: strs(self.moves@),
            comments: keyed_view(self.comments@),
            variations: keyed_view(self.variations@),
            after_variation_comments: pair_keyed_view(self.after_variations_comments@),
            nags: keyed_view(self.nags@),
            game_result: self.game_result@,
        }
    }

    pub fn new(
        tags: Tags,
        moves: Vec<String>,
        comments: Vec<(usize, String)>,
        variations: Vec<(usize, String)>,
        after_variations_comments: Vec<(usize, usize, String)>,
        game_result: String,
        nags: Vec<(usize, String)>,
    ) -> (r: ChessGameImpl)
        ensures
            r.tags@ == tags@,
            r.moves@ == moves@,
            r.comments@ == comments@,
            r.variations@ == variations@,
            r.after_variations_comments@ == after_variations_comments@,
            r.game_result@ == game_result@,
            r.nags@ == nags@,
    {
        ChessGameImpl { tags, moves, comments, variations, after_variations_comments, game_result, nags }
    }

    pub fn get_tags(&self) -> (r: &Tags)
        ensures
            r@ == self.tags@,
    {
        &self.tags
    }

    pub fn get_moves(&self) -> (r: &Vec<String>)
        ensures
            r@ == self.moves@,
    {
        &self.moves
    }

    pub fn get_game_result(&self) -> (r: &String)
        ensures
            r@ == self.game_result@,
    {
        &self.game_result
    }

    /// The comment before the first move.
    pub fn get_before_moves_comment(&self) -> (r: Option<String>)
        ensures
            r matches Some(s) ==> last_text(keyed_view(self.comments@), 0) == Some(s@),
            r is None ==> last_text(keyed_view(self.comments@), 0) is None,
    {
        self.get_comment(-1)
    }

    /// The comment after the move of index `after_move` (zero based; -1 for
    /// before the first move).
    pub fn get_comment(&self, after_move: i64) -> (r: Option<String>)
        ensures
            r matches Some(s) ==> last_text(keyed_view(self.comments@), key_of(after_move)) == Some(s@),
            r is None ==> last_text(keyed_view(self.comments@), key_of(after_move)) is None,
    {
        last_text_at(&self.comments, after_move as i128 + 1)
    }

    /// The variations after the move of index `after_move`, in order; none
    /// where there are none.
    pub fn get_variations(&self, after_move: i64) -> (r: Option<Vec<String>>)
        ensures
            r matches Some(v) ==> strs(v@) == texts_for(keyed_view(self.variations@), key_of(after_move))
                && v@.len() > 0,
            r is None ==> texts_for(keyed_view(self.variations@), key_of(after_move)).len() == 0,
    {
        texts_at(&self.variations, after_move as i128 + 1)
    }

    /// The glyphs after the move of index `after_move`, in order; none where
    /// there are none.
    pub fn get_nags(&self, after_move: i64) -> (r: Option<Vec<String>>)
        ensures
            r matches Some(v) ==> strs(v@) == texts_for(keyed_view(self.nags@), key_of(after_move)) && v@.len()
                > 0,
            r is None ==> texts_for(keyed_view(self.nags@), key_of(after_move)).len() == 0,
    {
        texts_at(&self.nags, after_move as i128 + 1)
    }

    /// The comment after variation `after_variation_move` (zero based) of the
    /// move of index `after_move`.
    pub fn get_after_variation_comment(&self, after_move: i64, after_variation_move: usize) -> (r: Option<String>)
        ensures
            r matches Some(s) ==> last_pair_text(
                pair_keyed_view(self.after_variations_comments@),
                key_of(after_move),
                after_variation_move as int,
            ) == Some(s@),
            r is None ==> last_pair_text(
                pair_keyed_view(self.after_variations_comments@),
                key_of(after_move),
                after_variation_move as int,
            ) is None,
    {
        last_pair_at(&self.after_variations_comments, after_move as i128 + 1, after_variation_move as i128)
    }

    /// The position the game starts from: the one its `FEN` tag gives, or
    /// the standard initial position.
    pub fn initial_position(&self) -> (r: Result<ChessPosition, FenError>)
        ensures
            ({
                let fen = lookup_tag(self.tags@, seq!['F', 'E', 'N']);
                match fen {
                    Some(t) => r == crate::fen::spec_parse_fen(t),
                    None => r matches Ok(p) && crate::position::is_initial_position(p),
                }
            }),
    {
        game_initial_position(&self.tags)
    }
}

/// The position a game with these tags starts from.
pub fn game_initial_position(tags: &Tags) -> (r: Result<ChessPosition, FenError>)
    ensures
        ({
            let fen = lookup_tag(tags@, seq!['F', 'E', 'N']);
            match fen {
                Some(t) => r == crate::fen::spec_parse_fen(t),
                None => r matches Ok(p) && crate::position::is_initial_position(p),
            }
        }),
{
    let key = "FEN";
    proof {
        reveal_strlit("FEN");
    }
    assert(key@ =~= seq!['F', 'E', 'N']);
    match tags.get(key) {
        Some(fen) => crate::fen::FENParser::parse_fen(fen.as_str()),
        None => Ok(ChessPosition::initial_position()),
    }
}

/// The texts of the entries with key `k`, none where there are none.
pub fn texts_at(entries: &Vec<(usize, String)>, k: i128) -> (r: Option<Vec<String>>)
    ensures
        r matches Some(v) ==> strs(v@) == texts_for(keyed_view(entries@), k as int) && v@.len() > 0,
        r is None ==> texts_for(keyed_view(entries@), k as int).len() == 0,
{
    let mut out: Vec<String> = Vec::new();
    let mut i: usize = 0;
    while i < entries.len()
        invariant
            i <= entries@.len(),
            strs(out@) == texts_for(keyed_view(entries@.subrange(0, i as int)), k as int),
        decreases entries@.len() - i,
    {
        let ghost sub = keyed_view(entries@.subrange(0, i + 1));
        assert(sub.drop_last() =~= keyed_view(entries@.subrange(0, i as int)));
        if entries[i].0 as i128 == k {
            let ghost before = out@;
            out.push(entries[i].1.clone());
            assert(strs(out@) =~= strs(before).push(entries@[i as int].1@));
        }
        i = i + 1;
    }
    assert(entries@.subrange(0, entries@.len() as int) =~= entries@);
    if out.len() == 0 {
        None
    } else {
        Some(out)
    }
}

/// Appends `s`.
pub fn push_string(v: &mut Vec<String>, s: String)
    ensures
        strs(final(v)@) == strs(old(v)@).push(s@),
{
    v.push(s);
    assert(strs(v@) =~= strs(old(v)@).push(s@));
}

/// Appends the entry `(k, s)`.
pub fn push_keyed(v: &mut Vec<(usize, String)>, k: usize, s: String)
    ensures
        keyed_view(final(v)@) == keyed_view(old(v)@).push((k, s@)),
{
    v.push((k, s));
    assert(keyed_view(v@) =~= keyed_view(old(v)@).push((k, s@)));
}

/// Appends the entry `(k, j, s)`.
pub fn push_pair_keyed(v: &mut Vec<(usize, usize, String)>, k: usize, j: usize, s: String)
    ensures
        pair_keyed_view(final(v)@) == pair_keyed_view(old(v)@).push((k, j, s@)),
{
    v.push((k, j, s));
    assert(pair_keyed_view(v@) =~= pair_keyed_view(old(v)@).push((k, j, s@)));
}

/// A copy of the texts.
pub fn copy_strings(v: &Vec<String>) -> (r: Vec<String>)
    ensures
        strs(r@) == strs(v@),
{
    let mut r: Vec<String> = Vec::new();
    let mut i: usize = 0;
    while i < v.len()
        invariant
            i <= v@.len(),
            strs(r@) =~= strs(v@.subrange(0, i as int)),
        decreases v@.len() - i,
    {
        let ghost before = r@;
        r.push(v[i].clone());
        assert(strs(r@) =~= strs(before).push(v@[i as int]@));
        assert(strs(v@.subrange(0, i + 1)) =~= strs(v@.subrange(0, i as int)).push(v@[i as int]@));
        i = i + 1;
    }
    assert(v@.subrange(0, v@.len() as int) =~= v@);
    r
}

/// A copy of the entries.
pub fn copy_keyed(v: &Vec<(usize, String)>) -> (r: Vec<(usize, String)>)
    ensures
        keyed_view(r@) == keyed_view(v@),
{
    let mut r: Vec<(usize, String)> = Vec::new();
    let mut i: usize = 0;
    while i < v.len()
        invariant
            i <= v@.len(),
            keyed_view(r@) =~= keyed_view(v@.subrange(0, i as int)),
        decreases v@.len() - i,
    {
        let ghost before = r@;
        r.push((v[i].0, v[i].1.clone()));
        assert(keyed_view(r@) =~= keyed_view(before).push((v@[i as int].0, v@[i as int].1@)));
        assert(keyed_view(v@.subrange(0, i + 1)) =~= keyed_view(v@.subrange(0, i as int)).push(
            (v@[i as int].0, v@[i as int].1@),
        ));
        i = i + 1;
    }
    assert(v@.subrange(0, v@.len() as int) =~= v@);
    r
}

/// A copy of the entries.
pub fn copy_pair_keyed(v: &Vec<(usize, usize, String)>) -> (r: Vec<(usize, usize, String)>)
    ensures
        pair_keyed_view(r@) == pair_keyed_view(v@),
{
    let mut r: Vec<(usize, usize, String)> = Vec::new();
    let mut i: usize = 0;
    while i < v.len()
        invariant
            i <= v@.len(),
            pair_keyed_view(r@) =~= pair_keyed_view(v@.subrange(0, i as int)),
        decreases v@.len() - i,
    {
        let ghost before = r@;
        r.push((v[i].0, v[i].1, v[i].2.clone()));
        assert(pair_keyed_view(r@) =~= pair_keyed_view(before).push((v@[i as int].0, v@[i as int].1, v@[i as int].2@)));
        assert(pair_keyed_view(v@.subrange(0, i + 1)) =~= pair_keyed_view(v@.subrange(0, i as int)).push(
            (v@[i as int].0, v@[i as int].1, v@[i as int].2@),
        ));
        i = i + 1;
    }
    assert(v@.subrange(0, v@.len() as int) =~= v@);
    r
}

/// The text of the last entry with key `k`.
pub fn last_text_at(entries: &Vec<(usize, String)>, k: i128) -> (r: Option<String>)
    ensures
        r matches Some(s) ==> last_text(keyed_view(entries@), k as int) == Some(s@),
        r is None ==> last_text(keyed_view(entries@), k as int) is None,
{
    let mut j: usize = entries.len();
    assert(entries@.subrange(0, j as int) =~= entries@);
    while j > 0
        invariant
            j <= entries@.len(),
            last_text(keyed_view(entries@.subrange(0, j as int)), k as int) == last_text(keyed_view(entries@), k as int),
        decreases j,
    {
        let ghost sub = keyed_view(entries@.subrange(0, j as int));
        assert(sub.drop_last() =~= keyed_view(entries@.subrange(0, j - 1)));
        if entries[j - 1].0 as i128 == k {
            return Some(entries[j - 1].1.clone());
        }
        j = j - 1;
    }
    assert(keyed_view(entries@.subrange(0, 0)) =~= Seq::<(usize, Seq<char>)>::empty());
    None
}

/// The text of the last entry with keys `(k, v)`.
pub fn last_pair_at(entries: &Vec<(usize, usize, String)>, k: i128, v: i128) -> (r: Option<String>)
    ensures
        r matches Some(s) ==> last_pair_text(pair_keyed_view(entries@), k as int, v as int) == Some(s@),
        r is None ==> last_pair_text(pair_keyed_view(entries@), k as int, v as int) is None,
{
    let mut j: usize = entries.len();
    assert(entries@.subrange(0, j as int) =~= entries@);
    while j > 0
        invariant
            j <= entries@.len(),
            last_pair_text(pair_keyed_view(entries@.subrange(0, j as int)), k as int, v as int) == last_pair_text(
                pair_keyed_view(entries@),
                k as int,
                v as int,
            ),
        decreases j,
    {
        let ghost sub = pair_keyed_view(entries@.subrange(0, j as int));
        assert(sub.drop_last() =~= pair_keyed_view(entries@.subrange(0, j - 1)));
        let entry = &entries[j - 1];
        if entry.0 as i128 == k && entry.1 as i128 == v {
            return Some(entry.2.clone());
        }
        j = j - 1;
    }
    assert(pair_keyed_view(entries@.subrange(0, 0)) =~= Seq::<(usize, usize, Seq<char>)>::empty());
    None
}

} // verus!
