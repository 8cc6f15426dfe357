use vstd::prelude::*;
use crate::filter::TagsFilter;
use crate::game::{
    ChessGameImpl, GameView, Keyed, Tags, TagsView, copy_keyed, copy_pair_keyed, copy_strings, insert_tag, keyed_view,
    pair_keyed_view, push_keyed, push_pair_keyed, push_string, strs,
};
use crate::text::{from_chars, is_digit, is_whitespace, is_ws, to_chars};

verus! {

/// Where the parser stands in the text of a game.
#[derive(Debug, Clone, Copy, PartialEq, Eq, Structural)]
pub enum Status {
    Headings,
    Heading,
    HeadingValue,
    Moves,
    Variation,
    Comment,
    /// Digits that are a move number or the start of a result.
    MoveUnknown,
    MoveNumber,
    GameResult,
    Move,
    NumericAnnotationGlyph,
    /// Nothing but white space read yet.
    Ready,
}

/// How a game ended, as its `Termination` tag says.
#[derive(Debug, Clone, Copy, PartialEq, Eq, Structural)]
pub enum GameResultReason {
    Abandoned,
    Adjudication,
    Death,
    Emergency,
    Normal,
    RulesInfraction,
    TimeForfait,
    Undeterminated,
    /// A value outside the vocabulary above.
    Unrecognized,
}

pub open spec fn spec_reason(s: Seq<char>) -> GameResultReason {
    if s == "abandoned"@ {
        GameResultReason::Abandoned
    } else if s == "adjudication"@ {
        GameResultReason::Adjudication
    } else if s == "death"@ {
        GameResultReason::Death
    } else if s == "emergency"@ {
        GameResultReason::Emergency
    } else if s == "normal"@ {
        GameResultReason::Normal
    } else if s == "rules infraction"@ {
        GameResultReason::RulesInfraction
    } else if s == "time forfait"@ {
        GameResultReason::TimeForfait
    } else if s == "undeterminated"@ {
        GameResultReason::Undeterminated
    } else {
        GameResultReason::Unrecognized
    }
}

/// Whether the characters `v` are the text `lit`.
fn text_is(v: &Vec<char>, lit: &str) -> (r: bool)
    ensures
        r == (v@ == lit@),
{
    let l = to_chars(lit);
    if v.len() != l.len() {
        return false;
    }
    let mut i: usize = 0;
    while i < v.len()
        invariant
            i <= v@.len(),
            v@.len() == l@.len(),
            l@ == lit@,
            forall|j: int| 0 <= j < i ==> v@[j] == l@[j],
        decreases v@.len() - i,
    {
        if v[i] != l[i] {
            assert(v@[i as int] != l@[i as int]);
            return false;
        }
        i = i + 1;
    }
    assert(v@ =~= l@);
    true
}

/// The reason a `Termination` value names.
pub fn result_from_pgn(s: &Vec<char>) -> (r: GameResultReason)
    ensures
        r == spec_reason(s@),
{
    if text_is(s, "abandoned") {
        GameResultReason::Abandoned
    } else if text_is(s, "adjudication") {
        GameResultReason::Adjudication
    } else if text_is(s, "death") {
        GameResultReason::Death
    } else if text_is(s, "emergency") {
        GameResultReason::Emergency
    } else if text_is(s, "normal") {
        GameResultReason::Normal
    } else if text_is(s, "rules infraction") {
        GameResultReason::RulesInfraction
    } else if text_is(s, "time forfait") {
        GameResultReason::TimeForfait
    } else if text_is(s, "undeterminated") {
        GameResultReason::Undeterminated
    } else {
        GameResultReason::Unrecognized
    }
}

/// `s` without its trailing white space.
pub open spec fn trim_end(s: Seq<char>) -> Seq<char>
    decreases s.len(),
{
    if s.len() > 0 && is_ws(s.last()) {
        trim_end(s.drop_last())
    } else {
        s
    }
}

/// `s` without its leading white space.
pub open spec fn trim_start(s: Seq<char>) -> Seq<char>
    decreases s.len(),
{
    if s.len() > 0 && is_ws(s[0]) {
        trim_start(s.drop_first())
    } else {
        s
    }
}

/// `s` without leading and trailing white space.
pub open spec fn trim(s: Seq<char>) -> Seq<char> {
    trim_start(trim_end(s))
}

fn trim_chars(v: &Vec<char>) -> (r: Vec<char>)
    ensures
        r@ == trim(v@),
{
    let e = trim_end_chars(v);
    let mut k: usize = 0;
    assert(e@.subrange(0, e@.len() as int) =~= e@);
    while k < e.len() && is_whitespace(e[k])
        invariant
            k <= e@.len(),
            trim_start(e@.subrange(k as int, e@.len() as int)) == trim_start(e@),
        decreases e@.len() - k,
    {
        assert(e@.subrange(k as int, e@.len() as int).drop_first() =~= e@.subrange(k + 1, e@.len() as int));
        k = k + 1;
    }
    crate::text::slice_chars(&e, k, e.len())
}

fn trim_end_chars(v: &Vec<char>) -> (r: Vec<char>)
    ensures
        r@ == trim_end(v@),
{
    let mut n: usize = v.len();
    assert(v@.subrange(0, n as int) =~= v@);
    while n > 0 && is_whitespace(v[n - 1])
        invariant
            n <= v@.len(),
            trim_end(v@.subrange(0, n as int)) == trim_end(v@),
        decreases n,
    {
        assert(v@.subrange(0, n as int).drop_last() =~= v@.subrange(0, n - 1));
        n = n - 1;
    }
    crate::text::slice_chars(v, 0, n)
}

/// How the parser is set up.
pub struct ChessParserConfig {
    /// Comment text is read past and not kept.
    pub ignore_comments: bool,
    /// Variation text is read past and not kept.
    pub ignore_variations: bool,
    /// Games whose tags this filter refuses are skipped.
    pub tag_filter: Option<TagsFilter>,
    pub debug: bool,
    pub file_size: u64,
    pub progress: bool,
}

/// Whether the configuration skips a game with these tags.
pub open spec fn rejects(cfg: ChessParserConfig, tags: TagsView) -> bool {
    match cfg.tag_filter {
        Some(f) => !f.spec_filter(tags),
        None => false,
    }
}

/// The parser's state between characters, as text.
pub struct ParserView {
    pub status: Status,
    /// The last character read, carriage returns aside.
    pub prev: char,
    /// Whether the current game is being skipped up to the next blank line.
    pub skip: bool,
    pub not_parsed: Seq<char>,
    pub tag_key: Seq<char>,
    pub tag_value: Seq<char>,
    pub tags: TagsView,
    pub moves: Seq<Seq<char>>,
    pub result_from_moves: Seq<char>,
    pub result_from_tag: Seq<char>,
    pub reason: GameResultReason,
    /// How deep inside nested variations the text is.
    pub depth: nat,
    /// How many variations follow the last move.
    pub vars_on_last: nat,
    pub comments: Keyed,
    pub variations: Keyed,
    pub after_variation_comments: Seq<(usize, usize, Seq<char>)>,
    pub nags: Keyed,
}

/// The key that entries after the last move carry.
pub open spec fn last_key(v: ParserView) -> usize {
    v.moves.len() as usize
}

/// The state at the start of a game: nothing gathered, status `Ready`.
pub open spec fn cleared(v: ParserView) -> ParserView {
    ParserView {
        status: Status::Ready,
        not_parsed: Seq::empty(),
        tag_key: Seq::empty(),
        tag_value: Seq::empty(),
        tags: Seq::empty(),
        moves: Seq::empty(),
        result_from_moves: Seq::empty(),
        result_from_tag: Seq::empty(),
        reason: GameResultReason::Normal,
        depth: 0,
        vars_on_last: 0,
        comments: Seq::empty(),
        variations: Seq::empty(),
        after_variation_comments: Seq::empty(),
        nags: Seq::empty(),
        ..v
    }
}

/// The pending move text becomes the last move.
pub open spec fn push_move(v: ParserView) -> ParserView {
    ParserView {
        moves: v.moves.push(v.not_parsed),
        not_parsed: Seq::empty(),
        status: Status::Moves,
        vars_on_last: 0,
        ..v
    }
}

/// A pending move or result at the end of a game is kept.
pub open spec fn flush(v: ParserView) -> ParserView {
    if v.status == Status::Move && v.not_parsed.len() > 0 {
        push_move(v)
    } else if v.status == Status::GameResult && v.not_parsed.len() > 0 {
        ParserView {
            result_from_moves: v.not_parsed,
            not_parsed: Seq::empty(),
            status: Status::Moves,
            ..v
        }
    } else {
        v
    }
}

pub open spec fn push_char(v: ParserView, c: char) -> ParserView {
    ParserView { not_parsed: v.not_parsed.push(c), ..v }
}

pub open spec fn with_status(v: ParserView, s: Status) -> ParserView {
    ParserView { status: s, ..v }
}

/// A character in move text: `{` opens a comment, `(` a variation, `$` a
/// glyph; `*` starts a result, a digit a move number or result; white space
/// is skipped; anything else starts a move.
pub open spec fn moves_char(v: ParserView, c: char) -> ParserView {
    if c == '{' {
        with_status(v, Status::Comment)
    } else if c == '(' {
        with_status(v, Status::Variation)
    } else if c == '$' {
        with_status(v, Status::NumericAnnotationGlyph)
    } else if c == '*' {
        push_char(with_status(v, Status::GameResult), c)
    } else if is_digit(c) {
        push_char(with_status(v, Status::MoveUnknown), c)
    } else if is_ws(c) {
        v
    } else {
        push_char(with_status(v, Status::Move), c)
    }
}

/// A character in a comment: `}` closes it and attaches the trimmed text
/// after the last variation of the last move if it has
/// one, else after the last move; newlines become spaces.
pub open spec fn comment_char(v: ParserView, c: char, cfg: ChessParserConfig) -> ParserView {
    if c == '}' {
        let text = trim(v.not_parsed);
        let w = if cfg.ignore_comments {
            v
        } else if v.vars_on_last > 0 {
            ParserView {
                after_variation_comments: v.after_variation_comments.push(
                    (last_key(v), (v.vars_on_last - 1) as usize, text),
                ),
                ..v
            }
        } else {
            ParserView { comments: v.comments.push((last_key(v), text)), ..v }
        };
        ParserView { not_parsed: Seq::empty(), status: Status::Moves, ..w }
    } else if cfg.ignore_comments {
        v
    } else if c == '\n' {
        push_char(v, ' ')
    } else {
        push_char(v, c)
    }
}

/// A character in a variation: `(` nests deeper and `)` comes back up, both
/// kept; the `)` at the outermost level closes the variation at the outermost level, appending the
/// trimmed text to the last move's variations; newlines become spaces.
pub open spec fn variation_char(v: ParserView, c: char, cfg: ChessParserConfig) -> ParserView {
    if c == ')' {
        if v.depth == 0 {
            let w = if cfg.ignore_variations {
                v
            } else {
                ParserView { variations: v.variations.push((last_key(v), trim(v.not_parsed))), ..v }
            };
            ParserView {
                vars_on_last: v.vars_on_last + 1,
                not_parsed: Seq::empty(),
                status: Status::Moves,
                ..w
            }
        } else {
            let w = ParserView { depth: (v.depth - 1) as nat, ..v };
            if cfg.ignore_variations {
                w
            } else {
                push_char(w, c)
            }
        }
    } else if c == '(' {
        let w = ParserView { depth: v.depth + 1, ..v };
        if cfg.ignore_variations {
            w
        } else {
            push_char(w, c)
        }
    } else if cfg.ignore_variations {
        v
    } else if c == '\n' {
        push_char(v, ' ')
    } else {
        push_char(v, c)
    }
}

/// A character in a tag: `]` stores the pair if key and value are both
/// there; `"` ends the key; white space is skipped.
pub open spec fn heading_char(v: ParserView, c: char) -> ParserView {
    if c == ']' {
        let w = if v.tag_key.len() > 0 && v.tag_value.len() > 0 {
            ParserView {
                tags: insert_tag(v.tags, v.tag_key, v.tag_value),
                reason: if v.tag_key == "Termination"@ { spec_reason(v.tag_value) } else { v.reason },
                result_from_tag: if v.tag_key == "Result"@ { v.tag_value } else { v.result_from_tag },
                ..v
            }
        } else {
            v
        };
        ParserView {
            status: Status::Headings,
            tag_key: Seq::empty(),
            tag_value: Seq::empty(),
            not_parsed: Seq::empty(),
            ..w
        }
    } else if c == '"' {
        ParserView {
            tag_key: v.tag_key + v.not_parsed,
            status: Status::HeadingValue,
            not_parsed: Seq::empty(),
            ..v
        }
    } else if is_ws(c) {
        v
    } else {
        push_char(v, c)
    }
}

/// A character of a tag value: `"` ends it.
pub open spec fn heading_value_char(v: ParserView, c: char) -> ParserView {
    if c == '"' {
        ParserView {
            tag_value: v.tag_value + v.not_parsed,
            status: Status::Heading,
            not_parsed: Seq::empty(),
            ..v
        }
    } else {
        push_char(v, c)
    }
}

/// A character between tags: `[` opens one, white space is skipped, and
/// anything else ends the tags, decides on skipping, and is read as move
/// text.
pub open spec fn headings_char(v: ParserView, c: char, cfg: ChessParserConfig) -> ParserView {
    if c == '[' {
        ParserView { not_parsed: Seq::empty(), status: Status::Heading, ..v }
    } else if is_ws(c) {
        v
    } else {
        let w = ParserView { skip: rejects(cfg, v.tags), status: Status::Moves, ..v };
        if w.skip {
            w
        } else {
            moves_char(w, c)
        }
    }
}

/// A character after digits: `.` makes them a move number, `-` or `*` a
/// result.
pub open spec fn move_unknown_char(v: ParserView, c: char) -> ParserView {
    if c == '.' {
        ParserView { status: Status::MoveNumber, not_parsed: Seq::empty(), ..v }
    } else if c == '-' || c == '*' {
        push_char(with_status(v, Status::GameResult), c)
    } else {
        push_char(v, c)
    }
}

pub open spec fn game_result_char(v: ParserView, c: char) -> ParserView {
    if is_ws(c) {
        ParserView { result_from_moves: v.not_parsed, not_parsed: Seq::empty(), status: Status::Moves, ..v }
    } else {
        push_char(v, c)
    }
}

pub open spec fn move_number_char(v: ParserView, c: char) -> ParserView {
    if is_ws(c) || c == '.' {
        v
    } else {
        push_char(with_status(v, Status::Move), c)
    }
}

pub open spec fn move_char(v: ParserView, c: char) -> ParserView {
    if is_ws(c) {
        push_move(v)
    } else {
        push_char(v, c)
    }
}

/// A character of a glyph: digits gather; anything else stores the digits
/// as a glyph of the last move and is read as move text.
pub open spec fn glyph_char(v: ParserView, c: char) -> ParserView {
    if is_digit(c) {
        push_char(v, c)
    } else {
        let w = if v.not_parsed.len() > 0 {
            ParserView { nags: v.nags.push((last_key(v), v.not_parsed)), ..v }
        } else {
            v
        };
        moves_char(ParserView { not_parsed: Seq::empty(), status: Status::Moves, ..w }, c)
    }
}

/// One character of input: the new state, and whether it completes a game.
/// Carriage returns are ignored. A blank line (two newlines in a row) ends
/// the tags, deciding on skipping, or, after move text, completes the game;
/// in a skipped game it ends the skipping and starts afresh.
pub open spec fn step(v0: ParserView, c: char, cfg: ChessParserConfig) -> (ParserView, bool) {
    if c == '\r' {
        (v0, false)
    } else {
        let blank = c == '\n' && v0.prev == '\n';
        let v1 = ParserView { prev: c, ..v0 };
        if v1.skip {
            if blank {
                (ParserView { skip: false, ..cleared(v1) }, false)
            } else {
                (v1, false)
            }
        } else {
            let v = if v1.status == Status::Ready && !is_ws(c) { with_status(v1, Status::Headings) } else { v1 };
            if v.status == Status::Ready {
                (v, false)
            } else if blank && v.status == Status::Headings {
                (ParserView { status: Status::Moves, skip: rejects(cfg, v.tags), ..v }, false)
            } else if blank {
                (flush(v), true)
            } else {
                (match v.status {
                    Status::Comment => comment_char(v, c, cfg),
                    Status::Variation => variation_char(v, c, cfg),
                    Status::Headings => headings_char(v, c, cfg),
                    Status::Heading => heading_char(v, c),
                    Status::HeadingValue => heading_value_char(v, c),
                    Status::MoveUnknown => move_unknown_char(v, c),
                    Status::GameResult => game_result_char(v, c),
                    Status::MoveNumber => move_number_char(v, c),
                    Status::Move => move_char(v, c),
                    Status::NumericAnnotationGlyph => glyph_char(v, c),
                    _ => moves_char(v, c),
                }, false)
            }
        }
    }
}

/// Reading from `pos` on: the state, position and answer when a game is
/// complete or the input ends. At the end a pending move or result is kept,
/// and there is a game if it has moves and is not skipped.
pub open spec fn run(v: ParserView, input: Seq<char>, pos: int, cfg: ChessParserConfig) -> (ParserView, int, bool)
    decreases input.len() - pos,
{
    if pos >= input.len() || pos < 0 {
        let f = flush(v);
        (f, pos, f.moves.len() > 0 && !f.skip)
    } else {
        let (w, complete) = step(v, input[pos], cfg);
        if complete {
            (w, pos + 1, true)
        } else {
            run(w, input, pos + 1, cfg)
        }
    }
}

/// Whether reading from `pos` on, as `run` does, reaches the end of the
/// input rather than stopping at a completed game.
pub open spec fn run_ends(v: ParserView, input: Seq<char>, pos: int, cfg: ChessParserConfig) -> bool
    decreases input.len() - pos,
{
    if pos >= input.len() || pos < 0 {
        true
    } else {
        let (w, complete) = step(v, input[pos], cfg);
        if complete {
            false
        } else {
            run_ends(w, input, pos + 1, cfg)
        }
    }
}

/// How many games are left to read from a state at `pos`, each read as
/// `run` says from a fresh game; none once the end has been reached. `fuel`
/// bounds the count.
pub open spec fn games_from(
    v: ParserView,
    input: Seq<char>,
    pos: int,
    ended: bool,
    cfg: ChessParserConfig,
    fuel: nat,
) -> nat
    decreases fuel,
{
    if ended || fuel == 0 {
        0
    } else {
        let (w, p, complete) = run(cleared(v), input, pos, cfg);
        if complete {
            1 + games_from(w, input, p, run_ends(cleared(v), input, pos, cfg), cfg, (fuel - 1) as nat)
        } else {
            0
        }
    }
}

/// The game that a state holds: the result from the move text, or from the
/// `Result` tag where the move text has none.
pub open spec fn record_of(v: ParserView) -> GameView {
    GameView {
        tags: v.tags,
        moves: v.moves,
        comments: v.comments,
        variations: v.variations,
        after_variation_comments: v.after_variation_comments,
        nags: v.nags,
        game_result: if v.result_from_moves.len() > 0 { v.result_from_moves } else { v.result_from_tag },
    }
}

/// Reads games one at a time from a text, as `run` says.
pub struct ChessParserIterator {
    config: ChessParserConfig,
    input: Vec<char>,
    pos: usize,
    end_parse: bool,
    status: Status,
    prev: char,
    skip: bool,
    not_parsed: Vec<char>,
    tag_key: Vec<char>,
    tag_value: Vec<char>,
    tags: Tags,
    moves: Vec<String>,
    result_from_moves: Vec<char>,
    result_from_tag: Vec<char>,
    reason: GameResultReason,
    depth: usize,
    vars_on_last: usize,
    comments: Vec<(usize, String)>,
    variations: Vec<(usize, String)>,
    after_variations_comments: Vec<(usize, usize, String)>,
    nags: Vec<(usize, String)>,
}

impl ChessParserIterator {
    pub closed spec fn pview(&self) -> ParserView {
        ParserView {
            status: self.status,
            prev: self.prev,
            skip: self.skip,
            not_parsed: self.not_parsed@,
            tag_key: self.tag_key@,
            tag_value: self.tag_value@,
            tags: self.tags@,
            moves: strs(self.moves@),
            result_from_moves: self.result_from_moves@,
            result_from_tag: self.result_from_tag@,
            reason: self.reason,
            depth: self.depth as nat,
            vars_on_last: self.vars_on_last as nat,
            comments: keyed_view(self.comments@),
            variations: keyed_view(self.variations@),
            after_variation_comments: pair_keyed_view(self.after_variations_comments@),
            nags: keyed_view(self.nags@),
        }
    }

    pub closed spec fn config(&self) -> ChessParserConfig {
        self.config
    }

    pub closed spec fn input(&self) -> Seq<char> {
        self.input@
    }

    pub closed spec fn pos(&self) -> int {
        self.pos as int
    }

    /// Whether the end of the input has been reached.
    pub closed spec fn ended(&self) -> bool {
        self.end_parse
    }

    /// A measure that each game read makes smaller.
    pub closed spec fn remaining(&self) -> nat {
        ((self.input@.len() - self.pos) * 2 + if self.end_parse { 0int } else { 1int }) as nat
    }

    pub closed spec fn wf(&self) -> bool {
        &&& self.pos <= self.input@.len()
        &&& self.depth <= self.pos
        &&& self.vars_on_last <= self.pos
        &&& self.end_parse ==> self.pos == self.input@.len()
    }

    closed spec fn frame(&self, o: &Self) -> bool {
        &&& self.config == o.config
        &&& self.input == o.input
        &&& self.pos == o.pos
        &&& self.end_parse == o.end_parse
    }

    /// A parser at the start of `input`.
    pub fn new(config: ChessParserConfig, input: &str) -> (r: ChessParserIterator)
        ensures
            r.wf(),
            r.config() == config,
            r.input() == input@,
            r.pos() == 0,
            !r.ended(),
            r.pview().status == Status::Ready,
            !r.pview().skip,
    {
        ChessParserIterator {
            config,
            input: to_chars(input),
            pos: 0,
            end_parse: false,
            status: Status::Ready,
            prev: '0',
            skip: false,
            not_parsed: Vec::new(),
            tag_key: Vec::new(),
            tag_value: Vec::new(),
            tags: Tags::new(),
            moves: Vec::new(),
            result_from_moves: Vec::new(),
            result_from_tag: Vec::new(),
            reason: GameResultReason::Normal,
            depth: 0,
            vars_on_last: 0,
            comments: Vec::new(),
            variations: Vec::new(),
            after_variations_comments: Vec::new(),
            nags: Vec::new(),
        }
    }

    fn clear(&mut self)
        ensures
            final(self).pview() == cleared(old(self).pview()),
            final(self).frame(old(self)),
            final(self).depth == 0,
            final(self).vars_on_last == 0,
    {
        self.status = Status::Ready;
        self.not_parsed = Vec::new();
        self.tag_key = Vec::new();
        self.tag_value = Vec::new();
        self.tags = Tags::new();
        self.moves = Vec::new();
        self.result_from_moves = Vec::new();
        self.result_from_tag = Vec::new();
        self.reason = GameResultReason::Normal;
        self.depth = 0;
        self.vars_on_last = 0;
        self.comments = Vec::new();
        self.variations = Vec::new();
        self.after_variations_comments = Vec::new();
        self.nags = Vec::new();
        assert(strs(self.moves@) =~= Seq::<Seq<char>>::empty());
        assert(keyed_view(self.comments@) =~= Seq::<(usize, Seq<char>)>::empty());
        assert(keyed_view(self.variations@) =~= Seq::<(usize, Seq<char>)>::empty());
        assert(keyed_view(self.nags@) =~= Seq::<(usize, Seq<char>)>::empty());
        assert(pair_keyed_view(self.after_variations_comments@) =~= Seq::<(usize, usize, Seq<char>)>::empty());
    }

    fn push_move(&mut self)
        ensures
            final(self).pview() == push_move(old(self).pview()),
            final(self).frame(old(self)),
            final(self).depth == old(self).depth,
            final(self).vars_on_last == 0,
    {
        let m = from_chars(&self.not_parsed);
        push_string(&mut self.moves, m);
        self.not_parsed = Vec::new();
        self.status = Status::Moves;
        self.vars_on_last = 0;
    }

    fn flush(&mut self)
        ensures
            final(self).pview() == flush(old(self).pview()),
            final(self).frame(old(self)),
            final(self).depth == old(self).depth,
            final(self).vars_on_last <= old(self).vars_on_last,
    {
        if self.status == Status::Move && self.not_parsed.len() > 0 {
            self.push_move();
        } else if self.status == Status::GameResult && self.not_parsed.len() > 0 {
            self.result_from_moves = self.not_parsed.clone();
            self.not_parsed = Vec::new();
            self.status = Status::Moves;
        }
    }

    fn moves_char(&mut self, c: char)
        ensures
            final(self).pview() == moves_char(old(self).pview(), c),
            final(self).frame(old(self)),
            final(self).depth == old(self).depth,
            final(self).vars_on_last == old(self).vars_on_last,
    {
        if c == '{' {
            self.status = Status::Comment;
        } else if c == '(' {
            self.status = Status::Variation;
        } else if c == '$' {
            self.status = Status::NumericAnnotationGlyph;
        } else if c == '*' {
            self.status = Status::GameResult;
            self.not_parsed.push(c);
        } else if '0' <= c && c <= '9' {
            self.status = Status::MoveUnknown;
            self.not_parsed.push(c);
        } else if is_whitespace(c) {
        } else {
            self.status = Status::Move;
            self.not_parsed.push(c);
        }
    }

    fn comment_char(&mut self, c: char)
        ensures
            final(self).pview() == comment_char(old(self).pview(), c, old(self).config),
            final(self).frame(old(self)),
            final(self).depth == old(self).depth,
            final(self).vars_on_last == old(self).vars_on_last,
    {
        if c == '}' {
            if !self.config.ignore_comments {
                let text = from_chars(&trim_chars(&self.not_parsed));
                let key = self.moves.len();
                if self.vars_on_last > 0 {
                    push_pair_keyed(&mut self.after_variations_comments, key, self.vars_on_last - 1, text);
                } else {
                    push_keyed(&mut self.comments, key, text);
                }
            }
            self.not_parsed = Vec::new();
            self.status = Status::Moves;
        } else if self.config.ignore_comments {
        } else if c == '\n' {
            self.not_parsed.push(' ');
        } else {
            self.not_parsed.push(c);
        }
    }

    fn variation_char(&mut self, c: char)
        requires
            old(self).depth < usize::MAX,
            old(self).vars_on_last < usize::MAX,
        ensures
            final(self).pview() == variation_char(old(self).pview(), c, old(self).config),
            final(self).frame(old(self)),
            final(self).depth <= old(self).depth + 1,
            final(self).vars_on_last <= old(self).vars_on_last + 1,
    {
        if c == ')' {
            if self.depth == 0 {
                if !self.config.ignore_variations {
                    let text = from_chars(&trim_chars(&self.not_parsed));
                    push_keyed(&mut self.variations, self.moves.len(), text);
                }
                self.vars_on_last = self.vars_on_last + 1;
                self.not_parsed = Vec::new();
                self.status = Status::Moves;
            } else {
                self.depth = self.depth - 1;
                if !self.config.ignore_variations {
                    self.not_parsed.push(c);
                }
            }
        } else if c == '(' {
            self.depth = self.depth + 1;
            if !self.config.ignore_variations {
                self.not_parsed.push(c);
            }
        } else if self.config.ignore_variations {
        } else if c == '\n' {
            self.not_parsed.push(' ');
        } else {
            self.not_parsed.push(c);
        }
    }

    fn heading_char(&mut self, c: char)
        ensures
            final(self).pview() == heading_char(old(self).pview(), c),
            final(self).frame(old(self)),
            final(self).depth == old(self).depth,
            final(self).vars_on_last == old(self).vars_on_last,
    {
        if c == ']' {
            if self.tag_key.len() > 0 && self.tag_value.len() > 0 {
                self.tags.insert(from_chars(&self.tag_key), from_chars(&self.tag_value));
                if text_is(&self.tag_key, "Termination") {
                    self.reason = result_from_pgn(&self.tag_value);
                } else if text_is(&self.tag_key, "Result") {
                    self.result_from_tag = self.tag_value.clone();
                }
                proof {
                    reveal_strlit("Termination");
                    reveal_strlit("Result");
                }
                assert("Termination"@ != "Result"@) by {
                    assert("Termination"@.len() != "Result"@.len());
                }
            }
            self.status = Status::Headings;
            self.tag_key = Vec::new();
            self.tag_value = Vec::new();
            self.not_parsed = Vec::new();
        } else if c == '"' {
            self.tag_key.append(&mut self.not_parsed);
            self.status = Status::HeadingValue;
        } else if is_whitespace(c) {
        } else {
            self.not_parsed.push(c);
        }
    }

    fn heading_value_char(&mut self, c: char)
        ensures
            final(self).pview() == heading_value_char(old(self).pview(), c),
            final(self).frame(old(self)),
            final(self).depth == old(self).depth,
            final(self).vars_on_last == old(self).vars_on_last,
    {
        if c == '"' {
            self.tag_value.append(&mut self.not_parsed);
            self.status = Status::Heading;
        } else {
            self.not_parsed.push(c);
        }
    }

    fn headings_char(&mut self, c: char)
        ensures
            final(self).pview() == headings_char(old(self).pview(), c, old(self).config),
            final(self).frame(old(self)),
            final(self).depth == old(self).depth,
            final(self).vars_on_last == old(self).vars_on_last,
    {
        if c == '[' {
            self.not_parsed = Vec::new();
            self.status = Status::Heading;
        } else if is_whitespace(c) {
        } else {
            self.skip = self.rejects();
            self.status = Status::Moves;
            if !self.skip {
                self.moves_char(c);
            }
        }
    }

    fn rejects(&self) -> (r: bool)
        ensures
            r == rejects(self.config, self.tags@),
    {
        match &self.config.tag_filter {
            Some(f) => !f.filter(&self.tags),
            None => false,
        }
    }

    fn glyph_char(&mut self, c: char)
        ensures
            final(self).pview() == glyph_char(old(self).pview(), c),
            final(self).frame(old(self)),
            final(self).depth == old(self).depth,
            final(self).vars_on_last == old(self).vars_on_last,
    {
        if '0' <= c && c <= '9' {
            self.not_parsed.push(c);
        } else {
            if self.not_parsed.len() > 0 {
                let glyph = from_chars(&self.not_parsed);
                push_keyed(&mut self.nags, self.moves.len(), glyph);
            }
            self.not_parsed = Vec::new();
            self.status = Status::Moves;
            self.moves_char(c);
        }
    }

    /// Reads one character, as `step` says; true when it completes a game.
    fn process_char(&mut self, c: char) -> (r: bool)
        requires
            old(self).depth < usize::MAX,
            old(self).vars_on_last < usize::MAX,
        ensures
            (final(self).pview(), r) == step(old(self).pview(), c, old(self).config),
            final(self).frame(old(self)),
            final(self).depth <= old(self).depth + 1,
            final(self).vars_on_last <= old(self).vars_on_last + 1,
    {
        if c == '\r' {
            return false;
        }
        let blank = c == '\n' && self.prev == '\n';
        self.prev = c;
        if self.skip {
            if blank {
                self.clear();
                self.skip = false;
            }
            return false;
        }
        if self.status == Status::Ready && !is_whitespace(c) {
            self.status = Status::Headings;
        }
        if self.status == Status::Ready {
            return false;
        }
        if blank && self.status == Status::Headings {
            self.status = Status::Moves;
            self.skip = self.rejects();
            return false;
        }
        if blank {
            self.flush();
            return true;
        }
        match self.status {
            Status::Comment => self.comment_char(c),
            Status::Variation => self.variation_char(c),
            Status::Headings => self.headings_char(c),
            Status::Heading => self.heading_char(c),
            Status::HeadingValue => self.heading_value_char(c),
            Status::MoveUnknown => {
                if c == '.' {
                    self.status = Status::MoveNumber;
                    self.not_parsed = Vec::new();
                } else if c == '-' || c == '*' {
                    self.status = Status::GameResult;
                    self.not_parsed.push(c);
                } else {
                    self.not_parsed.push(c);
                }
            },
            Status::GameResult => {
                if is_whitespace(c) {
                    self.result_from_moves = self.not_parsed.clone();
                    self.not_parsed = Vec::new();
                    self.status = Status::Moves;
                } else {
                    self.not_parsed.push(c);
                }
            },
            Status::MoveNumber => {
                if is_whitespace(c) || c == '.' {
                } else {
                    self.status = Status::Move;
                    self.not_parsed.push(c);
                }
            },
            Status::Move => {
                if is_whitespace(c) {
                    self.push_move();
                } else {
                    self.not_parsed.push(c);
                }
            },
            Status::NumericAnnotationGlyph => self.glyph_char(c),
            _ => self.moves_char(c),
        }
        false
    }

    /// Reads the next game; true when there is one, which `to_game` then
    /// gives. The state starts afresh and reading goes on as `run` says.
    pub fn next_temp(&mut self) -> (r: bool)
        requires
            old(self).wf(),
        ensures
            final(self).wf(),
            final(self).config() == old(self).config(),
            final(self).input() == old(self).input(),
            old(self).ended() ==> !r && final(self).pos() == old(self).pos() && final(self).ended(),
            !old(self).ended() ==> ({
                let (v, p, e) = run(cleared(old(self).pview()), old(self).input(), old(self).pos(), old(self).config());
                final(self).pview() == v && final(self).pos() == p && r == e && final(self).ended() == run_ends(
                    cleared(old(self).pview()),
                    old(self).input(),
                    old(self).pos(),
                    old(self).config(),
                )
            }),
            r ==> final(self).remaining() < old(self).remaining(),
    {
        if self.end_parse {
            return false;
        }
        let ghost start = cleared(self.pview());
        let ghost pos0 = self.pos as int;
        self.clear();
        while self.pos < self.input.len()
            invariant
                self.pos <= self.input@.len(),
                self.depth <= self.pos,
                self.vars_on_last <= self.pos,
                !self.end_parse,
                !old(self).end_parse,
                self.config == old(self).config,
                self.input == old(self).input,
                pos0 == old(self).pos,
                start == cleared(old(self).pview()),
                pos0 <= self.pos,
                run(self.pview(), self.input@, self.pos as int, self.config) == run(start, self.input@, pos0, self.config),
                run_ends(self.pview(), self.input@, self.pos as int, self.config) == run_ends(start, self.input@, pos0, self.config),
            decreases self.input@.len() - self.pos,
        {
            let c = self.input[self.pos];
            let ghost before = self.pview();
            let ghost p = self.pos as int;
            let complete = self.process_char(c);
            self.pos = self.pos + 1;
            assert(run(before, self.input@, p, self.config) == if complete {
                (self.pview(), p + 1, true)
            } else {
                run(self.pview(), self.input@, p + 1, self.config)
            });
            assert(run_ends(before, self.input@, p, self.config) == if complete {
                false
            } else {
                run_ends(self.pview(), self.input@, p + 1, self.config)
            });
            if complete {
                return true;
            }
        }
        self.flush();
        self.end_parse = true;
        self.moves.len() > 0 && !self.skip
    }

    /// How many games are left to read (at most `u64::MAX`).
    pub fn size(self) -> (r: u64)
        requires
            self.wf(),
        ensures
            r as nat == vstd::math::min(
                games_from(self.pview(), self.input(), self.pos(), self.ended(), self.config(), self.remaining()) as int,
                u64::MAX as int,
            ),
    {
        let mut it = self;
        let ghost total = games_from(it.pview(), it.input(), it.pos(), it.ended(), it.config(), it.remaining());
        let ghost input = it.input();
        let ghost cfg = it.config();
        let ghost mut fuel: nat = it.remaining();
        let ghost mut n: nat = 0;
        let mut count: u64 = 0;
        loop
            invariant
                it.wf(),
                it.input() == input,
                it.config() == cfg,
                it.remaining() <= fuel,
                total == games_from(self.pview(), self.input(), self.pos(), self.ended(), self.config(), self.remaining()),
                n + games_from(it.pview(), input, it.pos(), it.ended(), cfg, fuel) == total,
                count as int == vstd::math::min(n as int, u64::MAX as int),
            decreases it.remaining(),
        {
            let ghost before = it.pview();
            let ghost pos = it.pos();
            let ghost ended = it.ended();
            let more = it.next_temp();
            if !more {
                assert(games_from(before, input, pos, ended, cfg, fuel) == 0);
                return count;
            }
            assert(games_from(before, input, pos, ended, cfg, fuel) == 1 + games_from(
                it.pview(),
                input,
                it.pos(),
                it.ended(),
                cfg,
                (fuel - 1) as nat,
            ));
            if count < u64::MAX {
                count = count + 1;
            }
            proof {
                n = n + 1;
                fuel = (fuel - 1) as nat;
            }
        }
    }

    /// How many characters of the input have been read.
    pub fn position(&self) -> (r: usize)
        ensures
            r == self.pos(),
    {
        self.pos
    }

    /// How the game read last ended, as its `Termination` tag says.
    pub fn termination(&self) -> (r: GameResultReason)
        ensures
            r == self.pview().reason,
    {
        self.reason
    }

    /// The game read last.
    pub fn to_game(&self) -> (r: ChessGameImpl)
        ensures
            r.view() == record_of(self.pview()),
    {
        let result = if self.result_from_moves.len() > 0 {
            from_chars(&self.result_from_moves)
        } else {
            from_chars(&self.result_from_tag)
        };
        ChessGameImpl {
            tags: self.tags.copy(),
            moves: copy_strings(&self.moves),
            comments: copy_keyed(&self.comments),
            variations: copy_keyed(&self.variations),
            after_variations_comments: copy_pair_keyed(&self.after_variations_comments),
            game_result: result,
            nags: copy_keyed(&self.nags),
        }
    }

    /// The next game, if there is one.
    pub fn next_game(&mut self) -> (r: Option<ChessGameImpl>)
        requires
            old(self).wf(),
        ensures
            final(self).wf(),
            final(self).config() == old(self).config(),
            final(self).input() == old(self).input(),
            old(self).ended() ==> r is None && final(self).ended(),
            !old(self).ended() ==> ({
                let (v, p, e) = run(cleared(old(self).pview()), old(self).input(), old(self).pos(), old(self).config());
                final(self).pview() == v && final(self).pos() == p && (e <==> r is Some) && (r matches Some(g)
                    ==> g.view() == record_of(v))
            }),
            r is Some ==> final(self).remaining() < old(self).remaining(),
    {
        if self.next_temp() {
            Some(self.to_game())
        } else {
            None
        }
    }
}

/// Whether `a` reads as `b` does.
pub open spec fn same_config(a: ChessParserConfig, b: ChessParserConfig) -> bool {
    &&& a.ignore_comments == b.ignore_comments
    &&& a.ignore_variations == b.ignore_variations
    &&& a.debug == b.debug
    &&& a.file_size == b.file_size
    &&& a.progress == b.progress
    &&& match (a.tag_filter, b.tag_filter) {
        (Some(f), Some(g)) => f.same_as(&g) && forall|t: TagsView| f.spec_filter(t) == g.spec_filter(t),
        (None, None) => true,
        _ => false,
    }
}

impl ChessParserConfig {
    pub fn copy(&self) -> (r: ChessParserConfig)
        ensures
            same_config(r, *self),
    {
        let tag_filter = match &self.tag_filter {
            Some(f) => Some(f.copy()),
            None => None,
        };
        ChessParserConfig {
            ignore_comments: self.ignore_comments,
            ignore_variations: self.ignore_variations,
            tag_filter,
            debug: self.debug,
            file_size: self.file_size,
            progress: self.progress,
        }
    }
}

/// Sets up a parser.
pub struct ChessParserBuilder {
    pub config: ChessParserConfig,
}

impl ChessParserBuilder {
    /// Comments and variations kept, no filter.
    pub fn new() -> (r: ChessParserBuilder)
        ensures
            !r.config.ignore_comments,
            !r.config.ignore_variations,
            r.config.tag_filter is None,
            !r.config.debug,
            r.config.file_size == 0,
            !r.config.progress,
    {
        ChessParserBuilder {
            config: ChessParserConfig {
                ignore_comments: false,
                ignore_variations: false,
                tag_filter: None,
                debug: false,
                file_size: 0,
                progress: false,
            },
        }
    }

    pub fn ignore_comments(&mut self)
        ensures
            final(self).config == (ChessParserConfig { ignore_comments: true, ..old(self).config }),
    {
        self.config.ignore_comments = true;
    }

    pub fn ignore_variations(&mut self)
        ensures
            final(self).config == (ChessParserConfig { ignore_variations: true, ..old(self).config }),
    {
        self.config.ignore_variations = true;
    }

    pub fn tag_filter(&mut self, filter: TagsFilter)
        ensures
            final(self).config == (ChessParserConfig { tag_filter: Some(filter), ..old(self).config }),
    {
        self.config.tag_filter = Some(filter);
    }

    pub fn debug(&mut self)
        ensures
            final(self).config == (ChessParserConfig { debug: true, ..old(self).config }),
    {
        self.config.debug = true;
    }

    pub fn file_size(&mut self, size: u64)
        ensures
            final(self).config == (ChessParserConfig { file_size: size, ..old(self).config }),
    {
        self.config.file_size = size;
    }

    pub fn progress(&mut self, progress: bool)
        ensures
            final(self).config == (ChessParserConfig { progress, ..old(self).config }),
    {
        self.config.progress = progress;
    }

    pub fn build(&self) -> (r: ChessParserImpl)
        ensures
            same_config(r.config, self.config),
    {
        ChessParserImpl::new(self.config.copy())
    }
}

/// A parser, ready to read texts.
pub struct ChessParserImpl {
    pub config: ChessParserConfig,
}

impl ChessParserImpl {
    pub fn new(config: ChessParserConfig) -> (r: ChessParserImpl)
        ensures
            r.config == config,
    {
        ChessParserImpl { config }
    }

    /// A reader of the games in `s`.
    pub fn parse_string(&self, s: &str) -> (r: ChessParserIterator)
        ensures
            r.wf(),
            same_config(r.config(), self.config),
            r.input() == s@,
            r.pos() == 0,
            !r.ended(),
            r.pview().status == Status::Ready,
            !r.pview().skip,
    {
        ChessParserIterator::new(self.config.copy(), s)
    }
}

} // verus!
