//! The restricted grammar: emoji and plain text only.
use vstd::prelude::*;
use crate::chars::substring;
use crate::lex::{after_alnum, alnum, is_alnum, preceded_by_alnum};
use crate::merge::{char_pieces, leaf_pieces, merge_text_simple, pieces, text_merged, Piece, TextLeaf};
use crate::node::{EmojiCode, Simple, Text, UnicodeEmoji};

verus! {

/// A pictographic character: the symbol and dingbat blocks, and the emoji planes.
pub open spec fn is_emoji(c: char) -> bool {
    ('\u{1f000}' <= c && c <= '\u{1faff}') || ('\u{2600}' <= c && c <= '\u{27bf}')
}

/// Length of the unicode emoji at `p`, with its presentation selector if one follows; 0
/// where there is none.
pub open spec fn emoji_len(s: Seq<char>, p: int) -> int {
    if 0 <= p < s.len() && is_emoji(s[p]) {
        if p + 1 < s.len() && s[p + 1] == '\u{fe0f}' {
            2
        } else {
            1
        }
    } else {
        0
    }
}

pub open spec fn is_emoji_name_char(c: char) -> bool {
    is_alnum(c) || c == '_' || c == '+' || c == '-'
}

/// End of the run of emoji name characters from `p`.
pub open spec fn name_run_end(s: Seq<char>, p: int) -> int
    decreases s.len() - p,
{
    if 0 <= p < s.len() && is_emoji_name_char(s[p]) {
        name_run_end(s, p + 1)
    } else {
        p
    }
}

/// End of the emoji code `:name:` at `p`, or -1: a non-empty name, and no ASCII letter or
/// digit right before the first colon or right after the second.
pub open spec fn emoji_code_end(s: Seq<char>, p: int) -> int {
    if 0 <= p < s.len() && s[p] == ':' && !after_alnum(s, p) {
        let i = name_run_end(s, p + 1);
        if i > p + 1 && i < s.len() && s[i] == ':' && !(i + 1 < s.len() && is_alnum(s[i + 1])) {
            i + 1
        } else {
            -1
        }
    } else {
        -1
    }
}

/// What the restricted grammar reads: characters of text, emoji codes and unicode emoji.
pub ghost enum SimpleToken {
    Char(char),
    Code(Seq<char>),
    Emoji(Seq<char>),
}

/// The tokens of `s` from `p`: at each position a unicode emoji, else an emoji code, else
/// one character.
pub open spec fn simple_tokens(s: Seq<char>, p: int) -> Seq<SimpleToken>
    decreases s.len() - p,
{
    if p < 0 || p >= s.len() {
        seq![]
    } else if emoji_len(s, p) > 0 {
        seq![SimpleToken::Emoji(s.subrange(p, p + emoji_len(s, p)))] + simple_tokens(
            s,
            p + emoji_len(s, p),
        )
    } else if emoji_code_end(s, p) > 0 {
        seq![SimpleToken::Code(s.subrange(p + 1, emoji_code_end(s, p) - 1))] + simple_tokens(
            s,
            emoji_code_end(s, p),
        )
    } else {
        seq![SimpleToken::Char(s[p])] + simple_tokens(s, p + 1)
    }
}

pub open spec fn piece_token(p: Piece<Simple>) -> SimpleToken {
    match p {
        Piece::Char(c) => SimpleToken::Char(c),
        Piece::Item(Simple::EmojiCode(e)) => SimpleToken::Code(e.name@),
        Piece::Item(Simple::UnicodeEmoji(u)) => SimpleToken::Emoji(u.emoji@),
        Piece::Item(Simple::Text(t)) => SimpleToken::Code(t.text@),
    }
}

/// The tokens that a sequence of simple nodes stands for.
pub open spec fn simple_view(v: Seq<Simple>) -> Seq<SimpleToken> {
    pieces(v).map_values(|x: Piece<Simple>| piece_token(x))
}

/// A pictographic character, with its emoji presentation selector if one follows.
pub(crate) fn parse_unicode_emoji(s: &Vec<char>, pos: usize) -> (r: Option<(UnicodeEmoji, usize)>)
    requires
        pos < s.len(),
    ensures
        r is Some <==> emoji_len(s@, pos as int) > 0,
        r matches Some((n, e)) ==> e == pos + emoji_len(s@, pos as int) && e <= s.len()
            && n.emoji@ == s@.subrange(pos as int, e as int),
{
    let c = s[pos];
    if !(('\u{1f000}' <= c && c <= '\u{1faff}') || ('\u{2600}' <= c && c <= '\u{27bf}')) {
        return None;
    }
    let mut e = pos + 1;
    if e < s.len() && s[e] == '\u{fe0f}' {
        e = e + 1;
    }
    Some((UnicodeEmoji { emoji: substring(s, pos, e) }, e))
}

/// `:name:` with a name of ASCII letters, digits, `_`, `+` and `-`, with no ASCII letter
/// or digit right before or after it.
pub(crate) fn parse_emoji_code(s: &Vec<char>, pos: usize) -> (r: Option<(EmojiCode, usize)>)
    requires
        pos < s.len(),
    ensures
        r is Some <==> emoji_code_end(s@, pos as int) > 0,
        r matches Some((n, e)) ==> e == emoji_code_end(s@, pos as int) && pos < e <= s.len()
            && n.name@ == s@.subrange(pos + 1, e - 1),
{
    if s[pos] != ':' || preceded_by_alnum(s, pos) {
        return None;
    }
    let mut i = pos + 1;
    while i < s.len() && (alnum(s[i]) || s[i] == '_' || s[i] == '+' || s[i] == '-')
        invariant
            pos < i <= s.len(),
            name_run_end(s@, pos + 1) == name_run_end(s@, i as int),
        decreases s.len() - i,
    {
        i = i + 1;
    }
    if i == pos + 1 || i >= s.len() || s[i] != ':' {
        return None;
    }
    if i + 1 < s.len() && alnum(s[i + 1]) {
        return None;
    }
    Some((EmojiCode { name: substring(s, pos + 1, i) }, i + 1))
}

proof fn lemma_view_push(v: Seq<Simple>, n: Simple)
    ensures
        simple_view(v.push(n)) == simple_view(v) + leaf_pieces(n).map_values(
            |x: Piece<Simple>| piece_token(x),
        ),
{
    assert(v.push(n).drop_last() =~= v);
    let f = |x: Piece<Simple>| piece_token(x);
    assert((pieces(v) + leaf_pieces(n)).map_values(f) =~= pieces(v).map_values(f) + leaf_pieces(
        n,
    ).map_values(f));
}

proof fn lemma_char_token(c: char, n: Simple)
    requires
        n.leaf_text() == Some(seq![c]),
    ensures
        leaf_pieces(n).map_values(|x: Piece<Simple>| piece_token(x)) == seq![SimpleToken::Char(c)],
{
    let one = seq![c];
    assert(one.drop_last() =~= Seq::<char>::empty());
    let cp = char_pieces::<Simple>(one);
    assert(cp == char_pieces::<Simple>(one.drop_last()).push(Piece::Char(c)));
    assert(cp =~= seq![Piece::<Simple>::Char(c)]);
    let m = cp.map_values(|x: Piece<Simple>| piece_token(x));
    assert(m =~= seq![SimpleToken::Char(c)]);
}

/// Unicode emoji, then emoji codes, then single characters of text, at each position.
pub fn parse_simple_chars(s: &Vec<char>) -> (r: Vec<Simple>)
    ensures
        simple_view(r@) == simple_tokens(s@, 0),
        text_merged(r@),
{
    let mut items: Vec<Simple> = Vec::new();
    let mut pos: usize = 0;
    proof {
        assert(simple_view(items@) =~= seq![]);
        assert(simple_view(items@) + simple_tokens(s@, 0) =~= simple_tokens(s@, 0));
    }
    while pos < s.len()
        invariant
            pos <= s.len(),
            simple_view(items@) + simple_tokens(s@, pos as int) == simple_tokens(s@, 0),
        decreases s.len() - pos,
    {
        let ghost before = items@;
        let ghost p = pos as int;
        if let Some((n, e)) = parse_unicode_emoji(s, pos) {
            let node = Simple::UnicodeEmoji(n);
            items.push(node);
            pos = e;
            proof {
                lemma_view_push(before, node);
                assert(leaf_pieces(node).map_values(|x: Piece<Simple>| piece_token(x))
                    =~= seq![SimpleToken::Emoji(s@.subrange(p, p + emoji_len(s@, p)))]);
                assert(simple_view(items@) + simple_tokens(s@, pos as int) =~= simple_view(before)
                    + simple_tokens(s@, p));
            }
        } else if let Some((n, e)) = parse_emoji_code(s, pos) {
            let node = Simple::EmojiCode(n);
            items.push(node);
            pos = e;
            proof {
                lemma_view_push(before, node);
                assert(leaf_pieces(node).map_values(|x: Piece<Simple>| piece_token(x))
                    =~= seq![SimpleToken::Code(s@.subrange(p + 1, emoji_code_end(s@, p) - 1))]);
                assert(simple_view(items@) + simple_tokens(s@, pos as int) =~= simple_view(before)
                    + simple_tokens(s@, p));
            }
        } else {
            let node = Simple::Text(Text { text: substring(s, pos, pos + 1) });
            items.push(node);
            pos = pos + 1;
            proof {
                lemma_view_push(before, node);
                let one = s@.subrange(p, p + 1);
                assert(one =~= seq![s@[p]]);
                lemma_char_token(s@[p], node);
                assert(simple_view(items@) + simple_tokens(s@, pos as int) =~= simple_view(before)
                    + simple_tokens(s@, p));
            }
        }
    }
    let ghost all = items@;
    let r = merge_text_simple(items);
    proof {
        assert(simple_tokens(s@, pos as int) =~= seq![]);
        assert(simple_view(all) =~= simple_tokens(s@, 0));
    }
    r
}

} // verus!
