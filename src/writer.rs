use vstd::prelude::*;
use crate::error::FenError;
use crate::game::{
    ChessGameImpl, GameView, TagsView, last_pair_at, last_pair_text, last_text, last_text_at, lookup_tag, texts_at,
    texts_for, strs,
};
use crate::position::ChessColor;
use crate::text::{from_chars, push_chars, to_chars};

verus! {

/// The decimal digit of `d`.
pub open spec fn digit_char(d: int) -> char {
    ('0' as int + d) as char
}

/// `n` written in decimal.
pub open spec fn decimal_text(n: nat) -> Seq<char>
    decreases n,
{
    if n < 10 {
        seq![digit_char(n as int)]
    } else {
        decimal_text(n / 10).push(digit_char((n % 10) as int))
    }
}

/// `n` written in decimal.
pub fn decimal(n: u128) -> (r: Vec<char>)
    ensures
        r@ == decimal_text(n as nat),
    decreases n,
{
    let d = char_of_digit((n % 10) as u8);
    if n < 10 {
        let mut v: Vec<char> = Vec::new();
        v.push(d);
        assert(v@ =~= seq![digit_char(n as int)]);
        v
    } else {
        let mut v = decimal(n / 10);
        v.push(d);
        v
    }
}

fn char_of_digit(d: u8) -> (r: char)
    requires
        d < 10,
    ensures
        r == digit_char(d as int),
{
    match d {
        0 => '0',
        1 => '1',
        2 => '2',
        3 => '3',
        4 => '4',
        5 => '5',
        6 => '6',
        7 => '7',
        8 => '8',
        _ => '9',
    }
}

/// The tag lines `[Key "Value"]`, in order.
pub open spec fn tags_text(t: TagsView) -> Seq<char>
    decreases t.len(),
{
    if t.len() == 0 {
        Seq::empty()
    } else {
        tags_text(t.drop_last()) + seq!['['] + t.last().0 + seq![' ', '"'] + t.last().1 + seq!['"', ']', '\n']
    }
}

/// The glyphs, each as `$n` and a space.
pub open spec fn nags_text(ns: Seq<Seq<char>>) -> Seq<char>
    decreases ns.len(),
{
    if ns.len() == 0 {
        Seq::empty()
    } else {
        nags_text(ns.drop_last()) + seq!['$'] + ns.last() + seq![' ']
    }
}

/// The variations of the move of index `m`, each as `(text) ` followed by
/// its after-variation comment in braces, if any.
pub open spec fn variations_text(g: GameView, m: int, vs: Seq<Seq<char>>) -> Seq<char>
    decreases vs.len(),
{
    if vs.len() == 0 {
        Seq::empty()
    } else {
        variations_text(g, m, vs.drop_last()) + seq!['('] + vs.last() + seq![')', ' '] + match last_pair_text(
            g.after_variation_comments,
            m + 1,
            vs.len() - 1,
        ) {
            Some(c) => seq!['{'] + c + seq!['}'],
            None => Seq::empty(),
        }
    }
}

/// The text of the move of index `m`: a line break before every sixth
/// move, the move number before White's moves, the move, its glyphs, its
/// comment and its variations.
pub open spec fn move_text(g: GameView, m: int, white: bool, full: int) -> Seq<char> {
    (if m % 6 == 0 && m > 0 { seq!['\n'] } else { Seq::empty() }) + (if white {
        decimal_text(full as nat) + seq!['.', ' ']
    } else {
        Seq::empty()
    }) + g.moves[m] + seq![' '] + nags_text(texts_for(g.nags, m + 1)) + match last_text(g.comments, m + 1) {
        Some(c) => seq!['{'] + c + seq!['}', ' '],
        None => Seq::empty(),
    } + variations_text(g, m, texts_for(g.variations, m + 1))
}

/// The moves from index `m` on, White to move at `m` or not, with move
/// number `full`; the number grows after each of White's moves.
pub open spec fn moves_text(g: GameView, m: int, white: bool, full: int) -> Seq<char>
    decreases g.moves.len() - m,
{
    if m >= g.moves.len() || m < 0 {
        Seq::empty()
    } else {
        move_text(g, m, white, full) + moves_text(g, m + 1, !white, if white { full + 1 } else { full })
    }
}

/// A game in the archive format, with or without its tags, for a start
/// position with the given side to move and move number.
pub open spec fn game_text(g: GameView, notags: bool, black: bool, full: int) -> Seq<char> {
    (if notags || g.tags.len() == 0 { Seq::empty() } else { tags_text(g.tags) + seq!['\n'] }) + match last_text(
        g.comments,
        0,
    ) {
        Some(c) => c + seq!['\n'],
        None => Seq::empty(),
    } + (if black { decimal_text(full as nat) + seq!['.', '.', '.', ' '] } else { Seq::empty() }) + moves_text(
        g,
        0,
        !black,
        full,
    ) + g.game_result + seq!['\n', '\n']
}

/// How games are written.
pub struct ChessWriterConfig {
    /// Tags are left out.
    pub notags: bool,
}

fn push_str(out: &mut Vec<char>, s: &String)
    ensures
        final(out)@ == old(out)@ + s@,
{
    push_chars(out, &to_chars(s.as_str()));
}

fn write_tags(out: &mut Vec<char>, g: &ChessGameImpl)
    ensures
        final(out)@ == old(out)@ + tags_text(g.view().tags),
{
    let tags = &g.tags;
    let mut i: usize = 0;
    assert(tags@.subrange(0, 0) =~= Seq::<(Seq<char>, Seq<char>)>::empty());
    while i < tags.len()
        invariant
            i <= tags@.len(),
            out@ == old(out)@ + tags_text(tags@.subrange(0, i as int)),
        decreases tags@.len() - i,
    {
        let (k, v) = tags.entry(i);
        let ghost before = out@;
        out.push('[');
        push_str(out, k);
        out.push(' ');
        out.push('"');
        push_str(out, v);
        out.push('"');
        out.push(']');
        out.push('\n');
        assert(tags@.subrange(0, i + 1).drop_last() =~= tags@.subrange(0, i as int));
        assert(out@ =~= before + seq!['['] + k@ + seq![' ', '"'] + v@ + seq!['"', ']', '\n']);
        i = i + 1;
    }
    assert(tags@.subrange(0, tags@.len() as int) =~= tags@);
}

fn write_nags(out: &mut Vec<char>, g: &ChessGameImpl, m: i128)
    requires
        0 <= m <= usize::MAX,
    ensures
        final(out)@ == old(out)@ + nags_text(texts_for(g.view().nags, m + 1)),
{
    match texts_at(&g.nags, m + 1) {
        Some(ns) => {
            let mut i: usize = 0;
            assert(strs(ns@).subrange(0, 0) =~= Seq::<Seq<char>>::empty());
            while i < ns.len()
                invariant
                    i <= ns@.len(),
                    out@ == old(out)@ + nags_text(strs(ns@).subrange(0, i as int)),
                decreases ns@.len() - i,
            {
                let ghost before = out@;
                out.push('$');
                push_str(out, &ns[i]);
                out.push(' ');
                assert(strs(ns@).subrange(0, i + 1).drop_last() =~= strs(ns@).subrange(0, i as int));
                assert(out@ =~= before + seq!['$'] + ns@[i as int]@ + seq![' ']);
                i = i + 1;
            }
            assert(strs(ns@).subrange(0, ns@.len() as int) =~= strs(ns@));
        },
        None => {
            assert(texts_for(g.view().nags, m + 1) =~= Seq::<Seq<char>>::empty());
        },
    }
}

fn write_comment(out: &mut Vec<char>, g: &ChessGameImpl, m: i128)
    requires
        0 <= m <= usize::MAX,
    ensures
        final(out)@ == old(out)@ + match last_text(g.view().comments, m + 1) {
            Some(c) => seq!['{'] + c + seq!['}', ' '],
            None => Seq::empty(),
        },
{
    match last_text_at(&g.comments, m + 1) {
        Some(c) => {
            let ghost before = out@;
            out.push('{');
            push_str(out, &c);
            out.push('}');
            out.push(' ');
            assert(out@ =~= before + seq!['{'] + c@ + seq!['}', ' ']);
        },
        None => {
            assert(out@ =~= old(out)@ + Seq::<char>::empty());
        },
    }
}

fn write_variations(out: &mut Vec<char>, g: &ChessGameImpl, m: i128)
    requires
        0 <= m <= usize::MAX,
    ensures
        final(out)@ == old(out)@ + variations_text(g.view(), m as int, texts_for(g.view().variations, m + 1)),
{
    match texts_at(&g.variations, m + 1) {
        Some(vs) => {
            let ghost all = strs(vs@);
            let mut i: usize = 0;
            assert(all.subrange(0, 0) =~= Seq::<Seq<char>>::empty());
            while i < vs.len()
                invariant
                    i <= vs@.len(),
                    all == strs(vs@),
                    0 <= m <= usize::MAX,
                    out@ == old(out)@ + variations_text(g.view(), m as int, all.subrange(0, i as int)),
                decreases vs@.len() - i,
            {
                let ghost before = out@;
                out.push('(');
                push_str(out, &vs[i]);
                out.push(')');
                out.push(' ');
                let ghost mid = out@;
                match last_pair_at(&g.after_variations_comments, m + 1, i as i128) {
                    Some(c) => {
                        out.push('{');
                        push_str(out, &c);
                        out.push('}');
                        assert(out@ =~= mid + (seq!['{'] + c@ + seq!['}']));
                    },
                    None => {
                        assert(out@ =~= mid + Seq::<char>::empty());
                    },
                }
                assert(all.subrange(0, i + 1).drop_last() =~= all.subrange(0, i as int));
                assert(all.subrange(0, i + 1).last() == vs@[i as int]@);
                assert(out@ =~= before + seq!['('] + vs@[i as int]@ + seq![')', ' '] + (out@.subrange(mid.len() as int, out@.len() as int)));
                i = i + 1;
            }
            assert(all.subrange(0, vs@.len() as int) =~= all);
        },
        None => {
            assert(texts_for(g.view().variations, m + 1) =~= Seq::<Seq<char>>::empty());
        },
    }
}

#[verifier::rlimit(40)]
fn write_move(out: &mut Vec<char>, g: &ChessGameImpl, m: usize, white: bool, full: u128)
    requires
        m < g.moves@.len(),
    ensures
        final(out)@ == old(out)@ + move_text(g.view(), m as int, white, full as int),
{
    let ghost start = out@;
    if m % 6 == 0 && m > 0 {
        out.push('\n');
    }
    let ghost a = out@;
    if white {
        push_chars(out, &decimal(full));
        out.push('.');
        out.push(' ');
    }
    let ghost b = out@;
    push_str(out, &g.moves[m]);
    out.push(' ');
    let ghost c = out@;
    write_nags(out, g, m as i128);
    let ghost d = out@;
    write_comment(out, g, m as i128);
    let ghost e = out@;
    write_variations(out, g, m as i128);
    let ghost gv = g.view();
    let ghost brk: Seq<char> = if m % 6 == 0 && m > 0 { seq!['\n'] } else { Seq::empty() };
    let ghost number: Seq<char> = if white { decimal_text(full as nat) + seq!['.', ' '] } else { Seq::empty() };
    let ghost word: Seq<char> = gv.moves[m as int] + seq![' '];
    let ghost glyphs = nags_text(texts_for(gv.nags, m + 1));
    let ghost remark: Seq<char> = match last_text(gv.comments, m + 1) {
        Some(t) => seq!['{'] + t + seq!['}', ' '],
        None => Seq::empty(),
    };
    let ghost vars = variations_text(gv, m as int, texts_for(gv.variations, m + 1));
    assert(a =~= start + brk);
    assert(b =~= a + number);
    assert(c =~= b + word);
    assert(d == c + glyphs);
    assert(e == d + remark);
    assert(out@ == e + vars);
    assert(move_text(gv, m as int, white, full as int) =~= brk + number + gv.moves[m as int] + seq![' '] + glyphs + remark + vars);
    assert(out@ =~= start + (brk + number + gv.moves[m as int] + seq![' '] + glyphs + remark + vars));
}

/// Where the game starts: whether Black is to move, and the move number;
/// or why its `FEN` tag cannot be read.
pub open spec fn start_of(tags: TagsView) -> Result<(bool, int), FenError> {
    match lookup_tag(tags, seq!['F', 'E', 'N']) {
        Some(t) => match crate::fen::spec_parse_fen(t) {
            Ok(p) => Ok((p.active_color == ChessColor::Black, p.full_move_number as int)),
            Err(e) => Err(e),
        },
        None => Ok((false, 1)),
    }
}

/// The game in the archive format, as `game_text` says; an error where its
/// `FEN` tag cannot be read.
#[verifier::rlimit(80)]
pub fn format_game(g: &ChessGameImpl, config: &ChessWriterConfig) -> (r: Result<String, FenError>)
    ensures
        match start_of(g.view().tags) {
            Ok((black, full)) => r matches Ok(s) && s@ == game_text(g.view(), config.notags, black, full),
            Err(e) => r == Err::<String, FenError>(e),
        },
{
    let position = match g.initial_position() {
        Ok(p) => p,
        Err(e) => {
            return Err(e);
        },
    };
    let black = match position.active_color {
        ChessColor::Black => true,
        ChessColor::White => false,
    };
    let mut out: Vec<char> = Vec::new();
    if !config.notags && !g.tags.is_empty() {
        write_tags(&mut out, g);
        out.push('\n');
    }
    let ghost a = out@;
    match last_text_at(&g.comments, 0) {
        Some(c) => {
            push_str(&mut out, &c);
            out.push('\n');
            assert(out@ =~= a + (c@ + seq!['\n']));
        },
        None => {
            assert(out@ =~= a + Seq::<char>::empty());
        },
    }
    let ghost b = out@;
    let full0 = position.full_move_number as u128;
    if black {
        push_chars(&mut out, &decimal(full0));
        out.push('.');
        out.push('.');
        out.push('.');
        out.push(' ');
    }
    let ghost c = out@;
    assert(c =~= b + (if black { decimal_text(full0 as nat) + seq!['.', '.', '.', ' '] } else { Seq::empty() }));
    let mut white = !black;
    let mut full: u128 = full0;
    let mut m: usize = 0;
    while m < g.moves.len()
        invariant
            m <= g.moves@.len(),
            full <= full0 + m,
            full0 <= 0xffff,
            out@ + moves_text(g.view(), m as int, white, full as int) == c + moves_text(g.view(), 0, !black, full0 as int),
        decreases g.moves@.len() - m,
    {
        let ghost before = out@;
        write_move(&mut out, g, m, white, full);
        assert(before + moves_text(g.view(), m as int, white, full as int) =~= out@ + moves_text(
            g.view(),
            m + 1,
            !white,
            if white { full + 1 } else { full as int },
        ));
        if white {
            full = full + 1;
        }
        white = !white;
        m = m + 1;
    }
    assert(moves_text(g.view(), m as int, white, full as int) =~= Seq::<char>::empty());
    let ghost d = out@;
    push_str(&mut out, &g.game_result);
    out.push('\n');
    out.push('\n');
    assert(out@ =~= d + g.view().game_result + seq!['\n', '\n']);
    let ghost fen = lookup_tag(g.view().tags, seq!['F', 'E', 'N']);
    assert(fen is None ==> !black && full0 == 1);
    assert(out@ =~= game_text(g.view(), config.notags, black, full0 as int));
    Ok(from_chars(&out))
}

} // verus!
