use vstd::prelude::*;
use crate::game::{GameView, TagsView, insert_tag, key_index, last_text, texts_for};
use crate::parser::{ChessParserConfig, ParserView, Status, cleared, push_char, rejects, run, step, with_status};
use crate::text::{is_digit, is_ws};
use crate::writer::{decimal_text, digit_char, game_text, move_text, moves_text, nags_text, tags_text, variations_text};

verus! {

/// The states after reading `s` from `v`, and whether no character of `s`
/// completed a game.
pub open spec fn steps(v: ParserView, s: Seq<char>, cfg: ChessParserConfig) -> (ParserView, bool)
    decreases s.len(),
{
    if s.len() == 0 {
        (v, true)
    } else {
        let (w, quiet) = steps(v, s.drop_last(), cfg);
        let (x, complete) = step(w, s.last(), cfg);
        (x, quiet && !complete)
    }
}

proof fn lemma_steps_concat(v: ParserView, a: Seq<char>, b: Seq<char>, cfg: ChessParserConfig)
    ensures
        steps(v, a + b, cfg) == ({
            let (w, q1) = steps(v, a, cfg);
            let (x, q2) = steps(w, b, cfg);
            (x, q1 && q2)
        }),
    decreases b.len(),
{
    if b.len() == 0 {
        assert(a + b =~= a);
    } else {
        lemma_steps_concat(v, a, b.drop_last(), cfg);
        assert((a + b).drop_last() =~= a + b.drop_last());
        assert((a + b).last() == b.last());
    }
}

proof fn lemma_run_steps(v: ParserView, input: Seq<char>, pos: int, k: int, cfg: ChessParserConfig)
    requires
        0 <= pos,
        0 <= k,
        pos + k <= input.len(),
        steps(v, input.subrange(pos, pos + k), cfg).1,
    ensures
        run(v, input, pos, cfg) == run(steps(v, input.subrange(pos, pos + k), cfg).0, input, pos + k, cfg),
    decreases k,
{
    if k > 0 {
        let s = input.subrange(pos, pos + k);
        assert(s.drop_last() =~= input.subrange(pos, pos + k - 1));
        lemma_run_steps(v, input, pos, k - 1, cfg);
        assert(s.last() == input[pos + k - 1]);
    }
}

/// Whether `c` is gathered into the pending text in status `st`.
pub open spec fn gathers(st: Status, c: char) -> bool {
    c != '\n' && c != '\r' && match st {
        Status::Heading => !is_ws(c) && c != '"' && c != ']',
        Status::HeadingValue => c != '"',
        Status::Move => !is_ws(c),
        Status::MoveUnknown => c != '.' && c != '-' && c != '*',
        Status::GameResult => !is_ws(c),
        _ => false,
    }
}

proof fn lemma_gather(v: ParserView, s: Seq<char>, cfg: ChessParserConfig)
    requires
        !v.skip,
        forall|i: int| 0 <= i < s.len() ==> gathers(v.status, #[trigger] s[i]),
    ensures
        steps(v, s, cfg) == (ParserView {
            not_parsed: v.not_parsed + s,
            prev: if s.len() > 0 { s.last() } else { v.prev },
            ..v
        }, true),
    decreases s.len(),
{
    if s.len() == 0 {
        assert(v.not_parsed + s =~= v.not_parsed);
    } else {
        lemma_gather(v, s.drop_last(), cfg);
        assert(gathers(v.status, s[s.len() - 1]));
        assert(v.not_parsed + s =~= (v.not_parsed + s.drop_last()).push(s.last()));
    }
}

proof fn lemma_decimal_digits(n: nat)
    ensures
        decimal_text(n).len() > 0,
        forall|i: int| 0 <= i < decimal_text(n).len() ==> is_digit(#[trigger] decimal_text(n)[i]),
    decreases n,
{
    if n >= 10 {
        lemma_decimal_digits(n / 10);
    }
    assert(is_digit(digit_char((n % 10) as int)));
}

/// A move that reads back as itself: not empty, no white space, and not
/// starting with a digit or with a character that opens something else.
pub open spec fn clean_move(m: Seq<char>) -> bool {
    &&& m.len() > 0
    &&& forall|i: int| 0 <= i < m.len() ==> !is_ws(#[trigger] m[i])
    &&& !is_digit(m[0])
    &&& m[0] != '{' && m[0] != '(' && m[0] != '$' && m[0] != '*' && m[0] != '.'
}

/// A tag pair that reads back as itself: a key of characters that are
/// neither white space nor `"` nor `]`, and a value without `"` or line
/// breaks, neither empty.
pub open spec fn clean_tag(k: Seq<char>, v: Seq<char>) -> bool {
    &&& k.len() > 0 && v.len() > 0
    &&& forall|i: int| 0 <= i < k.len() ==> gathers(Status::Heading, #[trigger] k[i])
    &&& forall|i: int| 0 <= i < v.len() ==> gathers(Status::HeadingValue, #[trigger] v[i])
}

pub open spec fn clean_tags(t: TagsView) -> bool {
    &&& forall|i: int| 0 <= i < t.len() ==> clean_tag(#[trigger] t[i].0, t[i].1)
    &&& forall|i: int, j: int| 0 <= i < j < t.len() ==> #[trigger] t[i].0 != #[trigger] t[j].0
}

/// Between moves: everything read so far is the first `m` moves and the tags.
pub open spec fn at_boundary(v: ParserView, g: GameView, m: int) -> bool {
    &&& v.status == Status::Moves
    &&& !v.skip
    &&& v.not_parsed.len() == 0
    &&& v.moves == g.moves.subrange(0, m)
    &&& v.tags == g.tags
    &&& v.result_from_moves.len() == 0
    &&& (m > 0 ==> v.prev == ' ')
    &&& v.prev != '\n' || m == 0
}

proof fn lemma_one(v: ParserView, c: char, cfg: ChessParserConfig)
    ensures
        steps(v, seq![c], cfg) == (step(v, c, cfg).0, !step(v, c, cfg).1),
{
    assert(seq![c].drop_last() =~= Seq::<char>::empty());
    assert(steps(v, Seq::<char>::empty(), cfg) == (v, true));
}

proof fn lemma_break_in_moves(v: ParserView, cfg: ChessParserConfig)
    requires
        v.status == Status::Moves,
        !v.skip,
        v.prev != '\n',
    ensures
        step(v, '\n', cfg) == (ParserView { prev: '\n', ..v }, false),
{
}

proof fn lemma_number_start(v: ParserView, d: char, cfg: ChessParserConfig)
    requires
        v.status == Status::Moves,
        !v.skip,
        is_digit(d),
    ensures
        step(v, d, cfg) == (push_char(with_status(ParserView { prev: d, ..v }, Status::MoveUnknown), d), false),
{
}

proof fn lemma_number_dot(v: ParserView, cfg: ChessParserConfig)
    requires
        v.status == Status::MoveUnknown,
        !v.skip,
    ensures
        step(v, '.', cfg) == (ParserView { prev: '.', status: Status::MoveNumber, not_parsed: Seq::empty(), ..v }, false),
{
}

proof fn lemma_number_space(v: ParserView, cfg: ChessParserConfig)
    requires
        v.status == Status::MoveNumber,
        !v.skip,
    ensures
        step(v, ' ', cfg) == (ParserView { prev: ' ', ..v }, false),
{
}

proof fn lemma_move_start(v: ParserView, c: char, cfg: ChessParserConfig)
    requires
        v.status == Status::Moves || v.status == Status::MoveNumber,
        !v.skip,
        !is_ws(c),
        !is_digit(c),
        c != '{' && c != '(' && c != '$' && c != '*' && c != '.',
    ensures
        step(v, c, cfg) == (push_char(with_status(ParserView { prev: c, ..v }, Status::Move), c), false),
{
}

proof fn lemma_move_end(v: ParserView, cfg: ChessParserConfig)
    requires
        v.status == Status::Move,
        !v.skip,
    ensures
        step(v, ' ', cfg) == (crate::parser::push_move(ParserView { prev: ' ', ..v }), false),
{
}

/// The move number: `v2` is the state after it.
proof fn lemma_number(v1: ParserView, full: nat, cfg: ChessParserConfig)
    requires
        v1.status == Status::Moves,
        !v1.skip,
        v1.not_parsed.len() == 0,
    ensures
        steps(v1, decimal_text(full) + seq!['.', ' '], cfg).1,
        steps(v1, decimal_text(full) + seq!['.', ' '], cfg).0 == (ParserView {
            prev: ' ',
            status: Status::MoveNumber,
            not_parsed: Seq::empty(),
            ..v1
        }),
{
    let d = decimal_text(full);
    lemma_decimal_digits(full);
    let first = seq![d[0]];
    let rest = d.drop_first();
    assert(d + seq!['.', ' '] =~= first + rest + seq!['.'] + seq![' ']);
    lemma_one(v1, d[0], cfg);
    lemma_number_start(v1, d[0], cfg);
    let u1 = steps(v1, first, cfg).0;
    assert forall|i: int| 0 <= i < rest.len() implies gathers(u1.status, #[trigger] rest[i]) by {
        assert(rest[i] == d[i + 1]);
        assert(is_digit(d[i + 1]));
    }
    lemma_gather(u1, rest, cfg);
    lemma_steps_concat(v1, first, rest, cfg);
    let u2 = steps(v1, first + rest, cfg).0;
    lemma_one(u2, '.', cfg);
    lemma_number_dot(u2, cfg);
    lemma_steps_concat(v1, first + rest, seq!['.'], cfg);
    let u3 = steps(v1, first + rest + seq!['.'], cfg).0;
    lemma_one(u3, ' ', cfg);
    lemma_number_space(u3, cfg);
    lemma_steps_concat(v1, first + rest + seq!['.'], seq![' '], cfg);
}

/// The move itself and the space after it.
proof fn lemma_move_word(v2: ParserView, mv: Seq<char>, cfg: ChessParserConfig)
    requires
        v2.status == Status::Moves || v2.status == Status::MoveNumber,
        !v2.skip,
        v2.not_parsed.len() == 0,
        clean_move(mv),
    ensures
        steps(v2, mv + seq![' '], cfg).1,
        steps(v2, mv + seq![' '], cfg).0 == crate::parser::push_move(ParserView {
            prev: ' ',
            not_parsed: mv,
            status: Status::Move,
            ..v2
        }),
{
    let first = seq![mv[0]];
    let rest = mv.drop_first();
    assert(mv + seq![' '] =~= first + rest + seq![' ']);
    lemma_one(v2, mv[0], cfg);
    lemma_move_start(v2, mv[0], cfg);
    let w1 = steps(v2, first, cfg).0;
    assert forall|i: int| 0 <= i < rest.len() implies gathers(w1.status, #[trigger] rest[i]) by {
        assert(rest[i] == mv[i + 1]);
        assert(!is_ws(mv[i + 1]));
    }
    lemma_gather(w1, rest, cfg);
    lemma_steps_concat(v2, first, rest, cfg);
    let w2 = steps(v2, first + rest, cfg).0;
    assert(w2.not_parsed =~= mv);
    lemma_one(w2, ' ', cfg);
    lemma_move_end(w2, cfg);
    lemma_steps_concat(v2, first + rest, seq![' '], cfg);
    assert(ParserView { prev: ' ', ..w2 } == ParserView { prev: ' ', not_parsed: mv, status: Status::Move, ..v2 });
}

proof fn lemma_move_text_shape(g: GameView, m: int, white: bool, full: nat)
    requires
        0 <= m < g.moves.len(),
        g.nags.len() == 0,
        g.comments.len() == 0,
        g.variations.len() == 0,
    ensures
        move_text(g, m, white, full as int) == (if m % 6 == 0 && m > 0 { seq!['\n'] } else { Seq::empty() }) + (if white {
            decimal_text(full) + seq!['.', ' ']
        } else {
            Seq::empty()
        }) + (g.moves[m] + seq![' ']),
{
    assert(texts_for(g.nags, m + 1) =~= Seq::<Seq<char>>::empty());
    assert(texts_for(g.variations, m + 1) =~= Seq::<Seq<char>>::empty());
    assert(last_text(g.comments, m + 1) is None);
    assert(nags_text(Seq::<Seq<char>>::empty()) =~= Seq::<char>::empty());
    assert(variations_text(g, m, Seq::<Seq<char>>::empty()) =~= Seq::<char>::empty());
    let brk: Seq<char> = if m % 6 == 0 && m > 0 { seq!['\n'] } else { Seq::empty() };
    let number: Seq<char> = if white { decimal_text(full) + seq!['.', ' '] } else { Seq::empty() };
    assert(move_text(g, m, white, full as int) =~= brk + number + (g.moves[m] + seq![' ']));
}

#[verifier::rlimit(60)]
proof fn lemma_move(v: ParserView, g: GameView, m: int, white: bool, full: nat, cfg: ChessParserConfig)
    requires
        0 <= m < g.moves.len(),
        at_boundary(v, g, m),
        clean_move(g.moves[m]),
        g.nags.len() == 0,
        g.comments.len() == 0,
        g.variations.len() == 0,
    ensures
        steps(v, move_text(g, m, white, full as int), cfg).1,
        at_boundary(steps(v, move_text(g, m, white, full as int), cfg).0, g, m + 1),
{
    let mv = g.moves[m];
    let brk: Seq<char> = if m % 6 == 0 && m > 0 { seq!['\n'] } else { Seq::empty() };
    let number: Seq<char> = if white { decimal_text(full) + seq!['.', ' '] } else { Seq::empty() };
    lemma_move_text_shape(g, m, white, full);
    lemma_steps_concat(v, brk, number, cfg);
    lemma_steps_concat(v, brk + number, mv + seq![' '], cfg);
    let v1 = steps(v, brk, cfg).0;
    if m % 6 == 0 && m > 0 {
        lemma_one(v, '\n', cfg);
        lemma_break_in_moves(v, cfg);
    } else {
        assert(steps(v, brk, cfg) == (v, true));
    }
    if white {
        lemma_number(v1, full, cfg);
    } else {
        assert(steps(v1, number, cfg) == (v1, true));
    }
    let v2 = steps(v1, number, cfg).0;
    lemma_move_word(v2, mv, cfg);
    let w = steps(v2, mv + seq![' '], cfg).0;
    assert(w.moves =~= g.moves.subrange(0, m + 1));
}

proof fn lemma_moves(v: ParserView, g: GameView, m: int, white: bool, full: nat, cfg: ChessParserConfig)
    requires
        0 <= m <= g.moves.len(),
        at_boundary(v, g, m),
        forall|i: int| 0 <= i < g.moves.len() ==> clean_move(#[trigger] g.moves[i]),
        g.nags.len() == 0,
        g.comments.len() == 0,
        g.variations.len() == 0,
    ensures
        steps(v, moves_text(g, m, white, full as int), cfg).1,
        at_boundary(steps(v, moves_text(g, m, white, full as int), cfg).0, g, g.moves.len() as int),
    decreases g.moves.len() - m,
{
    if m == g.moves.len() {
        assert(moves_text(g, m, white, full as int) =~= Seq::<char>::empty());
        assert(steps(v, Seq::<char>::empty(), cfg) == (v, true));
    } else {
        let next_full: nat = if white { full + 1 } else { full };
        assert(moves_text(g, m, white, full as int) == move_text(g, m, white, full as int) + moves_text(
            g,
            m + 1,
            !white,
            next_full as int,
        ));
        lemma_move(v, g, m, white, full, cfg);
        let w = steps(v, move_text(g, m, white, full as int), cfg).0;
        lemma_moves(w, g, m + 1, !white, next_full, cfg);
        lemma_steps_concat(v, move_text(g, m, white, full as int), moves_text(g, m + 1, !white, next_full as int), cfg);
    }
}

/// The text of one tag pair.
pub open spec fn tag_line(k: Seq<char>, val: Seq<char>) -> Seq<char> {
    seq!['['] + k + seq![' ', '"'] + val + seq!['"', ']', '\n']
}

/// Reading tags: nothing else gathered, the tags so far in `tags`.
pub open spec fn in_tags(v: ParserView) -> bool {
    &&& !v.skip
    &&& v.not_parsed.len() == 0
    &&& v.tag_key.len() == 0
    &&& v.tag_value.len() == 0
    &&& v.moves.len() == 0
    &&& v.result_from_moves.len() == 0
}

proof fn lemma_tag_open(v: ParserView, cfg: ChessParserConfig)
    requires
        v.status == Status::Ready || v.status == Status::Headings,
        !v.skip,
    ensures
        step(v, '[', cfg) == (ParserView { prev: '[', status: Status::Heading, not_parsed: Seq::empty(), ..v }, false),
{
}

proof fn lemma_tag_space(v: ParserView, cfg: ChessParserConfig)
    requires
        v.status == Status::Heading,
        !v.skip,
    ensures
        step(v, ' ', cfg) == (ParserView { prev: ' ', ..v }, false),
{
}

proof fn lemma_key_quote(v: ParserView, cfg: ChessParserConfig)
    requires
        v.status == Status::Heading,
        !v.skip,
    ensures
        step(v, '"', cfg) == (ParserView {
            prev: '"',
            tag_key: v.tag_key + v.not_parsed,
            status: Status::HeadingValue,
            not_parsed: Seq::empty(),
            ..v
        }, false),
{
}

proof fn lemma_value_quote(v: ParserView, cfg: ChessParserConfig)
    requires
        v.status == Status::HeadingValue,
        !v.skip,
    ensures
        step(v, '"', cfg) == (ParserView {
            prev: '"',
            tag_value: v.tag_value + v.not_parsed,
            status: Status::Heading,
            not_parsed: Seq::empty(),
            ..v
        }, false),
{
}

proof fn lemma_tag_close(v: ParserView, cfg: ChessParserConfig)
    requires
        v.status == Status::Heading,
        !v.skip,
        v.tag_key.len() > 0,
        v.tag_value.len() > 0,
    ensures
        step(v, ']', cfg).1 == false,
        step(v, ']', cfg).0.status == Status::Headings,
        step(v, ']', cfg).0.prev == ']',
        step(v, ']', cfg).0.skip == false,
        step(v, ']', cfg).0.tags == insert_tag(v.tags, v.tag_key, v.tag_value),
        step(v, ']', cfg).0.not_parsed.len() == 0,
        step(v, ']', cfg).0.tag_key.len() == 0,
        step(v, ']', cfg).0.tag_value.len() == 0,
        step(v, ']', cfg).0.moves == v.moves,
        step(v, ']', cfg).0.result_from_moves == v.result_from_moves,
{
}

proof fn lemma_tag_newline(v: ParserView, cfg: ChessParserConfig)
    requires
        v.status == Status::Headings,
        !v.skip,
        v.prev != '\n',
    ensures
        step(v, '\n', cfg) == (ParserView { prev: '\n', ..v }, false),
{
}

/// The opening bracket, the key and the opening quote.
proof fn lemma_tag_key(v: ParserView, k: Seq<char>, cfg: ChessParserConfig)
    requires
        v.status == Status::Ready || v.status == Status::Headings,
        in_tags(v),
        k.len() > 0,
        forall|i: int| 0 <= i < k.len() ==> gathers(Status::Heading, #[trigger] k[i]),
    ensures
        steps(v, seq!['['] + k + seq![' ', '"'], cfg) == (ParserView {
            prev: '"',
            status: Status::HeadingValue,
            tag_key: k,
            not_parsed: Seq::empty(),
            ..v
        }, true),
{
    let s1 = seq!['['];
    lemma_one(v, '[', cfg);
    lemma_tag_open(v, cfg);
    let a = steps(v, s1, cfg).0;
    lemma_gather(a, k, cfg);
    lemma_steps_concat(v, s1, k, cfg);
    let b = steps(v, s1 + k, cfg).0;
    assert(b.not_parsed =~= k);
    lemma_one(b, ' ', cfg);
    lemma_tag_space(b, cfg);
    let b1 = step(b, ' ', cfg).0;
    lemma_one(b1, '"', cfg);
    lemma_key_quote(b1, cfg);
    lemma_steps_concat(b, seq![' '], seq!['"'], cfg);
    assert(seq![' '] + seq!['"'] =~= seq![' ', '"']);
    lemma_steps_concat(v, s1 + k, seq![' ', '"'], cfg);
    assert(v.tag_key + k =~= k);
}

/// The value, the closing quote and bracket, and the line break.
proof fn lemma_tag_value(c: ParserView, val: Seq<char>, cfg: ChessParserConfig)
    requires
        c.status == Status::HeadingValue,
        !c.skip,
        c.not_parsed.len() == 0,
        c.tag_key.len() > 0,
        c.tag_value.len() == 0,
        val.len() > 0,
        forall|i: int| 0 <= i < val.len() ==> gathers(Status::HeadingValue, #[trigger] val[i]),
    ensures
        steps(c, val + seq!['"', ']', '\n'], cfg).1,
        steps(c, val + seq!['"', ']', '\n'], cfg).0.status == Status::Headings,
        steps(c, val + seq!['"', ']', '\n'], cfg).0.prev == '\n',
        !steps(c, val + seq!['"', ']', '\n'], cfg).0.skip,
        steps(c, val + seq!['"', ']', '\n'], cfg).0.not_parsed.len() == 0,
        steps(c, val + seq!['"', ']', '\n'], cfg).0.tag_key.len() == 0,
        steps(c, val + seq!['"', ']', '\n'], cfg).0.tag_value.len() == 0,
        steps(c, val + seq!['"', ']', '\n'], cfg).0.moves == c.moves,
        steps(c, val + seq!['"', ']', '\n'], cfg).0.result_from_moves == c.result_from_moves,
        steps(c, val + seq!['"', ']', '\n'], cfg).0.tags == insert_tag(c.tags, c.tag_key, val),
{
    let s5 = seq!['"', ']', '\n'];
    lemma_gather(c, val, cfg);
    let d = steps(c, val, cfg).0;
    assert(d.not_parsed =~= val);
    lemma_one(d, '"', cfg);
    lemma_value_quote(d, cfg);
    let d1 = step(d, '"', cfg).0;
    assert(d1.tag_value =~= val);
    lemma_one(d1, ']', cfg);
    lemma_tag_close(d1, cfg);
    let d2 = step(d1, ']', cfg).0;
    lemma_one(d2, '\n', cfg);
    lemma_tag_newline(d2, cfg);
    lemma_steps_concat(d, seq!['"'], seq![']'], cfg);
    lemma_steps_concat(d, seq!['"'] + seq![']'], seq!['\n'], cfg);
    assert(seq!['"'] + seq![']'] + seq!['\n'] =~= s5);
    lemma_steps_concat(c, val, s5, cfg);
}

proof fn lemma_tag_line(v: ParserView, k: Seq<char>, val: Seq<char>, cfg: ChessParserConfig)
    requires
        v.status == Status::Ready || v.status == Status::Headings,
        in_tags(v),
        clean_tag(k, val),
    ensures
        steps(v, tag_line(k, val), cfg).1,
        in_tags(steps(v, tag_line(k, val), cfg).0),
        steps(v, tag_line(k, val), cfg).0.status == Status::Headings,
        steps(v, tag_line(k, val), cfg).0.prev == '\n',
        steps(v, tag_line(k, val), cfg).0.tags == insert_tag(v.tags, k, val),
{
    let head = seq!['['] + k + seq![' ', '"'];
    let tail = val + seq!['"', ']', '\n'];
    lemma_tag_key(v, k, cfg);
    let c = steps(v, head, cfg).0;
    lemma_tag_value(c, val, cfg);
    lemma_steps_concat(v, head, tail, cfg);
    assert(tag_line(k, val) =~= head + tail);
}

proof fn lemma_key_absent(t: TagsView, k: Seq<char>)
    requires
        forall|i: int| 0 <= i < t.len() ==> #[trigger] t[i].0 != k,
    ensures
        key_index(t, k) == -1,
    decreases t.len(),
{
    if t.len() > 0 {
        assert(t.last().0 != k);
        lemma_key_absent(t.drop_last(), k);
    }
}

proof fn lemma_tags(v: ParserView, t: TagsView, cfg: ChessParserConfig)
    requires
        v.status == Status::Ready,
        in_tags(v),
        v.tags.len() == 0,
        clean_tags(t),
        t.len() > 0,
    ensures
        steps(v, tags_text(t), cfg).1,
        in_tags(steps(v, tags_text(t), cfg).0),
        steps(v, tags_text(t), cfg).0.status == Status::Headings,
        steps(v, tags_text(t), cfg).0.prev == '\n',
        steps(v, tags_text(t), cfg).0.tags == t,
    decreases t.len(),
{
    let last = t.last();
    assert(clean_tag(t[t.len() - 1].0, t[t.len() - 1].1));
    assert(tags_text(t) == tags_text(t.drop_last()) + tag_line(last.0, last.1)) by {
        assert(tags_text(t) =~= tags_text(t.drop_last()) + tag_line(last.0, last.1));
    }
    if t.len() == 1 {
        assert(tags_text(t.drop_last()) =~= Seq::<char>::empty());
        assert(tags_text(t) =~= tag_line(last.0, last.1));
        lemma_tag_line(v, last.0, last.1, cfg);
        assert(key_index(v.tags, last.0) == -1);
        assert(insert_tag(v.tags, last.0, last.1) =~= t);
    } else {
        let prefix = t.drop_last();
        assert(clean_tags(prefix)) by {
            assert forall|i: int, j: int| 0 <= i < j < prefix.len() implies #[trigger] prefix[i].0 != #[trigger] prefix[j].0 by {
                assert(prefix[i] == t[i] && prefix[j] == t[j]);
            }
            assert forall|i: int| 0 <= i < prefix.len() implies clean_tag(#[trigger] prefix[i].0, prefix[i].1) by {
                assert(prefix[i] == t[i]);
            }
        }
        lemma_tags(v, prefix, cfg);
        let w = steps(v, tags_text(prefix), cfg).0;
        lemma_tag_line(w, last.0, last.1, cfg);
        lemma_steps_concat(v, tags_text(prefix), tag_line(last.0, last.1), cfg);
        assert forall|i: int| 0 <= i < prefix.len() implies #[trigger] prefix[i].0 != last.0 by {
            assert(prefix[i] == t[i]);
            assert(t[i].0 != t[t.len() - 1].0);
        }
        lemma_key_absent(prefix, last.0);
        assert(insert_tag(prefix, last.0, last.1) =~= t);
    }
}

/// One of the four results of the archive format.
pub open spec fn is_result_token(r: Seq<char>) -> bool {
    r == seq!['*'] || r == seq!['1', '-', '0'] || r == seq!['0', '-', '1'] || r == seq!['1', '/', '2', '-', '1', '/', '2']
}

proof fn lemma_star(v: ParserView, cfg: ChessParserConfig)
    requires
        v.status == Status::Moves,
        !v.skip,
    ensures
        step(v, '*', cfg) == (push_char(with_status(ParserView { prev: '*', ..v }, Status::GameResult), '*'), false),
{
}

proof fn lemma_dash(v: ParserView, cfg: ChessParserConfig)
    requires
        v.status == Status::MoveUnknown,
        !v.skip,
    ensures
        step(v, '-', cfg) == (push_char(with_status(ParserView { prev: '-', ..v }, Status::GameResult), '-'), false),
{
}

proof fn lemma_result_end(v: ParserView, cfg: ChessParserConfig)
    requires
        v.status == Status::GameResult,
        !v.skip,
        v.prev != '\n',
    ensures
        step(v, '\n', cfg) == (ParserView {
            prev: '\n',
            result_from_moves: v.not_parsed,
            not_parsed: Seq::empty(),
            status: Status::Moves,
            ..v
        }, false),
{
}

proof fn lemma_game_end(v: ParserView, cfg: ChessParserConfig)
    requires
        v.status == Status::Moves,
        !v.skip,
        v.prev == '\n',
    ensures
        step(v, '\n', cfg) == (v, true),
{
}

/// A result of the form `a-b`, `a` starting with a digit.
proof fn lemma_result_dash(v: ParserView, a: Seq<char>, b: Seq<char>, cfg: ChessParserConfig)
    requires
        v.status == Status::Moves,
        !v.skip,
        v.not_parsed.len() == 0,
        a.len() > 0,
        is_digit(a[0]),
        forall|i: int| 1 <= i < a.len() ==> gathers(Status::MoveUnknown, #[trigger] a[i]),
        b.len() > 0,
        forall|i: int| 0 <= i < b.len() ==> gathers(Status::GameResult, #[trigger] b[i]),
    ensures
        steps(v, a + seq!['-'] + b, cfg) == (ParserView {
            prev: b.last(),
            status: Status::GameResult,
            not_parsed: a + seq!['-'] + b,
            ..v
        }, true),
{
    let first = seq![a[0]];
    let rest = a.drop_first();
    lemma_one(v, a[0], cfg);
    lemma_number_start(v, a[0], cfg);
    let u1 = steps(v, first, cfg).0;
    assert forall|i: int| 0 <= i < rest.len() implies gathers(u1.status, #[trigger] rest[i]) by {
        assert(rest[i] == a[i + 1]);
    }
    lemma_gather(u1, rest, cfg);
    lemma_steps_concat(v, first, rest, cfg);
    assert(first + rest =~= a);
    let u2 = steps(v, a, cfg).0;
    lemma_one(u2, '-', cfg);
    lemma_dash(u2, cfg);
    lemma_steps_concat(v, a, seq!['-'], cfg);
    let u3 = steps(v, a + seq!['-'], cfg).0;
    lemma_gather(u3, b, cfg);
    lemma_steps_concat(v, a + seq!['-'], b, cfg);
    assert(u3.not_parsed + b =~= a + seq!['-'] + b);
    assert(seq![a[0]] + rest =~= a);
}

proof fn lemma_result(v: ParserView, res: Seq<char>, cfg: ChessParserConfig)
    requires
        v.status == Status::Moves,
        !v.skip,
        v.not_parsed.len() == 0,
        is_result_token(res),
    ensures
        steps(v, res, cfg) == (ParserView {
            prev: res.last(),
            status: Status::GameResult,
            not_parsed: res,
            ..v
        }, true),
{
    if res == seq!['*'] {
        lemma_one(v, '*', cfg);
        lemma_star(v, cfg);
        assert(v.not_parsed.push('*') =~= res);
    } else if res == seq!['1', '-', '0'] {
        lemma_result_dash(v, seq!['1'], seq!['0'], cfg);
        assert(seq!['1'] + seq!['-'] + seq!['0'] =~= res);
    } else if res == seq!['0', '-', '1'] {
        lemma_result_dash(v, seq!['0'], seq!['1'], cfg);
        assert(seq!['0'] + seq!['-'] + seq!['1'] =~= res);
    } else {
        let a = seq!['1', '/', '2'];
        assert forall|i: int| 1 <= i < a.len() implies gathers(Status::MoveUnknown, #[trigger] a[i]) by {}
        lemma_result_dash(v, a, a, cfg);
        assert(a + seq!['-'] + a =~= res);
    }
}

/// The first character of a text without tags: read from `Ready` it does
/// what it does in move text.
proof fn lemma_untagged_start(v: ParserView, c: char, cfg: ChessParserConfig)
    requires
        v.status == Status::Ready,
        !v.skip,
        !is_ws(c),
        c != '[',
        !rejects(cfg, v.tags),
    ensures
        step(v, c, cfg) == step(with_status(v, Status::Moves), c, cfg),
{
}

/// The state before the first move: after the tags and the blank line, or
/// the fresh state itself when there are no tags.
pub open spec fn start_boundary(s0: ParserView, g: GameView, cfg: ChessParserConfig) -> ParserView {
    if g.tags.len() == 0 {
        with_status(s0, Status::Moves)
    } else {
        ParserView { prev: '\n', status: Status::Moves, skip: false, ..steps(s0, tags_text(g.tags), cfg).0 }
    }
}

/// The text before the first move.
pub open spec fn head_text(g: GameView) -> Seq<char> {
    if g.tags.len() == 0 { Seq::empty() } else { tags_text(g.tags) + seq!['\n'] }
}

/// The text after the tags, but for its last line break.
pub open spec fn body_text(g: GameView) -> Seq<char> {
    moves_text(g, 0, true, 1) + (g.game_result + seq!['\n'])
}

proof fn lemma_head(v0: ParserView, g: GameView, cfg: ChessParserConfig)
    requires
        clean_tags(g.tags),
        !rejects(cfg, g.tags),
        !v0.skip,
    ensures
        at_boundary(start_boundary(cleared(v0), g, cfg), g, 0),
        g.tags.len() > 0 ==> steps(cleared(v0), head_text(g), cfg) == (start_boundary(cleared(v0), g, cfg), true),
{
    let s0 = cleared(v0);
    let b0 = start_boundary(s0, g, cfg);
    assert(g.moves.subrange(0, 0) =~= Seq::<Seq<char>>::empty());
    if g.tags.len() > 0 {
        lemma_tags(s0, g.tags, cfg);
        let h = steps(s0, tags_text(g.tags), cfg).0;
        assert(h.moves =~= Seq::<Seq<char>>::empty());
        lemma_one(h, '\n', cfg);
        assert(step(h, '\n', cfg) == (b0, false));
        lemma_steps_concat(s0, tags_text(g.tags), seq!['\n'], cfg);
    } else {
        assert(g.tags =~= Seq::<(Seq<char>, Seq<char>)>::empty());
        assert(s0.moves =~= Seq::<Seq<char>>::empty());
    }
}

proof fn lemma_body(b0: ParserView, g: GameView, cfg: ChessParserConfig)
    requires
        at_boundary(b0, g, 0),
        g.comments.len() == 0,
        g.variations.len() == 0,
        g.nags.len() == 0,
        forall|i: int| 0 <= i < g.moves.len() ==> clean_move(#[trigger] g.moves[i]),
        is_result_token(g.game_result),
    ensures
        steps(b0, body_text(g), cfg).1,
        steps(b0, body_text(g), cfg).0.status == Status::Moves,
        !steps(b0, body_text(g), cfg).0.skip,
        steps(b0, body_text(g), cfg).0.prev == '\n',
        steps(b0, body_text(g), cfg).0.moves == g.moves,
        steps(b0, body_text(g), cfg).0.tags == g.tags,
        steps(b0, body_text(g), cfg).0.result_from_moves == g.game_result,
{
    let mt = moves_text(g, 0, true, 1);
    let res = g.game_result;
    lemma_moves(b0, g, 0, true, 1, cfg);
    let bm = steps(b0, mt, cfg).0;
    lemma_result(bm, res, cfg);
    let r1 = steps(bm, res, cfg).0;
    lemma_one(r1, '\n', cfg);
    assert(res.last() != '\n');
    lemma_result_end(r1, cfg);
    lemma_steps_concat(bm, res, seq!['\n'], cfg);
    lemma_steps_concat(b0, mt, res + seq!['\n'], cfg);
    assert(bm.moves =~= g.moves);
}

proof fn lemma_first_char(g: GameView)
    requires
        g.tags.len() == 0,
        forall|i: int| 0 <= i < g.moves.len() ==> clean_move(#[trigger] g.moves[i]),
        g.nags.len() == 0,
        g.comments.len() == 0,
        g.variations.len() == 0,
        is_result_token(g.game_result),
    ensures
        body_text(g).len() > 0,
        body_text(g)[0] == '1' || body_text(g)[0] == '*' || body_text(g)[0] == '0',
{
    let mt = moves_text(g, 0, true, 1);
    if g.moves.len() > 0 {
        lemma_move_text_shape(g, 0, true, 1);
        assert(decimal_text(1) =~= seq!['1']);
        assert(mt == move_text(g, 0, true, 1) + moves_text(g, 1, false, 2));
        assert(mt[0] == '1');
    } else {
        assert(mt =~= Seq::<char>::empty());
        assert(body_text(g) =~= g.game_result + seq!['\n']);
    }
}

proof fn lemma_start(v0: ParserView, g: GameView, cfg: ChessParserConfig)
    requires
        clean_tags(g.tags),
        !rejects(cfg, g.tags),
        !v0.skip,
        forall|i: int| 0 <= i < g.moves.len() ==> clean_move(#[trigger] g.moves[i]),
        g.nags.len() == 0,
        g.comments.len() == 0,
        g.variations.len() == 0,
        is_result_token(g.game_result),
    ensures
        steps(cleared(v0), head_text(g) + body_text(g), cfg) == steps(start_boundary(cleared(v0), g, cfg), body_text(g), cfg),
{
    let s0 = cleared(v0);
    let b0 = start_boundary(s0, g, cfg);
    let body = body_text(g);
    lemma_head(v0, g, cfg);
    if g.tags.len() == 0 {
        lemma_first_char(g);
        let c = body[0];
        assert(g.tags =~= s0.tags);
        lemma_untagged_start(s0, c, cfg);
        lemma_one(s0, c, cfg);
        lemma_one(b0, c, cfg);
        lemma_steps_concat(s0, seq![c], body.drop_first(), cfg);
        lemma_steps_concat(b0, seq![c], body.drop_first(), cfg);
        assert(seq![c] + body.drop_first() =~= body);
        assert(head_text(g) + body =~= body);
    } else {
        lemma_steps_concat(s0, head_text(g), body, cfg);
    }
}

/// A game with no comments, variations or glyphs, whose tags, moves and
/// result are written plainly, written out by `game_text` (as `format_game`
/// writes a game that starts with White to move at move 1) and read back by
/// a fresh parser that does not skip it, gives the same tags, moves and
/// result.
pub proof fn lemma_round_trip(g: GameView, v0: ParserView, cfg: ChessParserConfig)
    requires
        g.comments.len() == 0,
        g.variations.len() == 0,
        g.nags.len() == 0,
        clean_tags(g.tags),
        forall|i: int| 0 <= i < g.moves.len() ==> clean_move(#[trigger] g.moves[i]),
        is_result_token(g.game_result),
        !rejects(cfg, g.tags),
        !v0.skip,
    ensures
        ({
            let (v, p, complete) = run(cleared(v0), game_text(g, false, false, 1), 0, cfg);
            &&& complete
            &&& v.tags == g.tags
            &&& v.moves == g.moves
            &&& crate::parser::record_of(v).game_result == g.game_result
        }),
{
    let s0 = cleared(v0);
    let text = game_text(g, false, false, 1);
    assert(last_text(g.comments, 0) is None);
    assert(text =~= head_text(g) + body_text(g) + seq!['\n']);
    lemma_start(v0, g, cfg);
    lemma_head(v0, g, cfg);
    let b0 = start_boundary(s0, g, cfg);
    lemma_body(b0, g, cfg);
    let w = steps(b0, body_text(g), cfg).0;
    assert(text.subrange(0, text.len() - 1) =~= head_text(g) + body_text(g));
    lemma_run_steps(s0, text, 0, text.len() - 1, cfg);
    lemma_game_end(w, cfg);
    assert(text[text.len() - 1] == '\n');
}

} // verus!
