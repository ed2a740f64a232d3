//! What a parsed tree stands for: a ghost model of the node types, and the view of each
//! node into it.
use vstd::prelude::*;
use crate::merge::{char_pieces, leaf_pieces, lemma_push_after_add, pieces, Piece};
use crate::node::{Block, Inline, Node};

verus! {

broadcast use vstd::std_specs::vec::axiom_vec_decreases_to_view,
    vstd::std_specs::vec::axiom_vec_index_decreases;

/// A parsed element, with text spelled out one character at a time.
pub ghost enum Tree {
    Char(char),
    Quote(Seq<Tree>),
    Search(Seq<char>, Seq<char>),
    CodeBlock(Seq<char>, Option<Seq<char>>),
    MathBlock(Seq<char>),
    Center(Seq<Tree>),
    UnicodeEmoji(Seq<char>),
    EmojiCode(Seq<char>),
    Bold(Seq<Tree>),
    Small(Seq<Tree>),
    Italic(Seq<Tree>),
    Strike(Seq<Tree>),
    InlineCode(Seq<char>),
    MathInline(Seq<char>),
    Mention(Seq<char>, Option<Seq<char>>, Seq<char>),
    Hashtag(Seq<char>),
    Url(Seq<char>, bool),
    Link(Seq<char>, bool, Seq<Tree>),
    Fn(Seq<char>, Seq<(Seq<char>, Option<Seq<char>>)>, Seq<Tree>),
    Plain(Seq<char>),
}

/// One character tree for each character of `s`.
pub open spec fn chars_trees(s: Seq<char>) -> Seq<Tree>
    decreases s.len(),
{
    if s.len() == 0 {
        seq![]
    } else {
        chars_trees(s.drop_last()).push(Tree::Char(s.last()))
    }
}

pub open spec fn opt_view(o: Option<String>) -> Option<Seq<char>> {
    match o {
        Some(s) => Some(s@),
        None => None,
    }
}

pub open spec fn args_view(a: Seq<(String, Option<String>)>) -> Seq<(Seq<char>, Option<Seq<char>>)> {
    a.map_values(|x: (String, Option<String>)| (x.0@, opt_view(x.1)))
}

/// The tree of an inline node that is not text.
pub open spec fn inline_tree(n: Inline) -> Tree
    decreases n, 0int,
{
    match n {
        Inline::UnicodeEmoji(e) => Tree::UnicodeEmoji(e.emoji@),
        Inline::EmojiCode(e) => Tree::EmojiCode(e.name@),
        Inline::Bold(b) => Tree::Bold(inlines_view(b.0@)),
        Inline::Small(b) => Tree::Small(inlines_view(b.0@)),
        Inline::Italic(b) => Tree::Italic(inlines_view(b.0@)),
        Inline::Strike(b) => Tree::Strike(inlines_view(b.0@)),
        Inline::InlineCode(c) => Tree::InlineCode(c.code@),
        Inline::MathInline(m) => Tree::MathInline(m.formula@),
        Inline::Mention(m) => Tree::Mention(m.username@, opt_view(m.host), m.acct@),
        Inline::Hashtag(h) => Tree::Hashtag(h.hashtag@),
        Inline::Url(u) => Tree::Url(u.url@, u.brackets),
        Inline::Link(l) => Tree::Link(l.url@, l.silent, inlines_view(l.children@)),
        Inline::Fn(f) => Tree::Fn(f.name@, args_view(f.args@), inlines_view(f.children@)),
        Inline::Plain(p) => Tree::Plain(if p.0.len() > 0 {
            p.0@[0].text@
        } else {
            seq![]
        }),
        Inline::Text(t) => Tree::Char(' '),
    }
}

/// The trees an inline node stands for: the characters of a text leaf, else one tree.
pub open spec fn inline_view(n: Inline) -> Seq<Tree>
    decreases n, 1int,
{
    match n {
        Inline::Text(t) => chars_trees(t.text@),
        _ => seq![inline_tree(n)],
    }
}

pub open spec fn inlines_view(s: Seq<Inline>) -> Seq<Tree>
    decreases s, 0int,
{
    if s.len() == 0 {
        seq![]
    } else {
        inlines_view(s.drop_last()) + inline_view(s.last())
    }
}

pub open spec fn block_tree(b: Block) -> Tree
    decreases b, 0int,
{
    match b {
        Block::Quote(q) => Tree::Quote(nodes_view(q.0@)),
        Block::Search(s) => Tree::Search(s.query@, s.content@),
        Block::CodeBlock(c) => Tree::CodeBlock(c.code@, opt_view(c.lang)),
        Block::MathBlock(m) => Tree::MathBlock(m.formula@),
        Block::Center(c) => Tree::Center(inlines_view(c.0@)),
    }
}

pub open spec fn node_view(n: Node) -> Seq<Tree>
    decreases n, 1int,
{
    match n {
        Node::Block(b) => seq![block_tree(b)],
        Node::Inline(i) => inline_view(i),
    }
}

/// The trees a node sequence stands for.
pub open spec fn nodes_view(s: Seq<Node>) -> Seq<Tree>
    decreases s, 0int,
{
    if s.len() == 0 {
        seq![]
    } else {
        nodes_view(s.drop_last()) + node_view(s.last())
    }
}

/// The tree of one piece of a flattened sequence, `f` giving the tree of a whole node.
pub open spec fn piece_tree<T>(p: Piece<T>, f: spec_fn(T) -> Tree) -> Tree {
    match p {
        Piece::Char(c) => Tree::Char(c),
        Piece::Item(n) => f(n),
    }
}

/// One tree for each piece of a flattened sequence.
pub open spec fn pieces_trees<T>(ps: Seq<Piece<T>>, f: spec_fn(T) -> Tree) -> Seq<Tree>
    decreases ps.len(),
{
    if ps.len() == 0 {
        seq![]
    } else {
        pieces_trees(ps.drop_last(), f).push(piece_tree(ps.last(), f))
    }
}

/// The tree of a node that is not text.
pub open spec fn node_item_tree() -> spec_fn(Node) -> Tree {
    |n: Node|
        match n {
            Node::Block(b) => block_tree(b),
            Node::Inline(i) => inline_tree(i),
        }
}

/// The tree of an inline that is not text.
pub open spec fn inline_item_tree() -> spec_fn(Inline) -> Tree {
    |n: Inline| inline_tree(n)
}

pub proof fn lemma_inlines_view_push(v: Seq<Inline>, n: Inline)
    ensures
        inlines_view(v.push(n)) == inlines_view(v) + inline_view(n),
{
    lemma_push_drop(v, n);
}

pub proof fn lemma_nodes_view_push(v: Seq<Node>, n: Node)
    ensures
        nodes_view(v.push(n)) == nodes_view(v) + node_view(n),
{
    lemma_push_drop(v, n);
}

pub proof fn lemma_chars_trees_one(c: char)
    ensures
        chars_trees(seq![c]) == seq![Tree::Char(c)],
{
    lemma_push_drop(Seq::<char>::empty(), c);
    assert(chars_trees(Seq::<char>::empty()) == Seq::<Tree>::empty());
}

pub proof fn lemma_push_drop<A>(a: Seq<A>, x: A)
    ensures
        a.push(x).drop_last() == a,
        a.push(x).last() == x,
        a.push(x).len() == a.len() + 1,
{
    assert(a.push(x).drop_last() =~= a);
}

proof fn lemma_pieces_trees_add<T>(a: Seq<Piece<T>>, b: Seq<Piece<T>>, f: spec_fn(T) -> Tree)
    ensures
        pieces_trees(a + b, f) == pieces_trees(a, f) + pieces_trees(b, f),
    decreases b.len(),
{
    if b.len() == 0 {
        assert(a + b =~= a);
        assert(pieces_trees(a, f) + pieces_trees(b, f) =~= pieces_trees(a, f));
    } else {
        lemma_pieces_trees_add(a, b.drop_last(), f);
        assert((a + b).drop_last() =~= a + b.drop_last());
        lemma_push_after_add(
            pieces_trees(a, f),
            pieces_trees(b.drop_last(), f),
            piece_tree(b.last(), f),
        );
    }
}

proof fn lemma_char_pieces_trees<T>(t: Seq<char>, f: spec_fn(T) -> Tree)
    ensures
        pieces_trees(char_pieces::<T>(t), f) == chars_trees(t),
    decreases t.len(),
{
    if t.len() > 0 {
        lemma_char_pieces_trees(t.drop_last(), f);
        let a = char_pieces::<T>(t.drop_last());
        lemma_push_drop(a, Piece::<T>::Char(t.last()));
        lemma_push_drop(chars_trees(t.drop_last()), Tree::Char(t.last()));
    }
}

/// The trees of a node that is not text, seen through its one piece.
proof fn lemma_item_pieces<T>(n: T, f: spec_fn(T) -> Tree)
    ensures
        pieces_trees(seq![Piece::Item(n)], f) == seq![f(n)],
{
    lemma_push_drop(Seq::<Piece<T>>::empty(), Piece::Item(n));
    assert(pieces_trees(Seq::<Piece<T>>::empty(), f) == Seq::<Tree>::empty());
    assert(pieces_trees(seq![Piece::Item(n)], f) == Seq::<Tree>::empty().push(f(n)));
    assert(Seq::<Tree>::empty().push(f(n)) =~= seq![f(n)]);
}

/// The view of a node sequence depends on its pieces alone.
pub proof fn lemma_nodes_view_pieces(s: Seq<Node>)
    ensures
        nodes_view(s) == pieces_trees(pieces(s), node_item_tree()),
    decreases s.len(),
{
    let f = node_item_tree();
    if s.len() > 0 {
        lemma_nodes_view_pieces(s.drop_last());
        let n = s.last();
        lemma_pieces_trees_add(pieces(s.drop_last()), leaf_pieces(n), f);
        assert(pieces(s) == pieces(s.drop_last()) + leaf_pieces(n));
        assert(nodes_view(s) == nodes_view(s.drop_last()) + node_view(n));
        match n {
            Node::Inline(Inline::Text(t)) => {
                lemma_char_pieces_trees(t.text@, f);
            },
            _ => {
                lemma_item_pieces(n, f);
                assert(node_view(n) == seq![f(n)]);
            },
        }
    }
}

/// The view of an inline sequence depends on its pieces alone.
pub proof fn lemma_inlines_view_pieces(s: Seq<Inline>)
    ensures
        inlines_view(s) == pieces_trees(pieces(s), inline_item_tree()),
    decreases s.len(),
{
    let f = inline_item_tree();
    if s.len() > 0 {
        lemma_inlines_view_pieces(s.drop_last());
        let n = s.last();
        lemma_pieces_trees_add(pieces(s.drop_last()), leaf_pieces(n), f);
        assert(pieces(s) == pieces(s.drop_last()) + leaf_pieces(n));
        assert(inlines_view(s) == inlines_view(s.drop_last()) + inline_view(n));
        match n {
            Inline::Text(t) => {
                lemma_char_pieces_trees(t.text@, f);
            },
            _ => {
                lemma_item_pieces(n, f);
                assert(inline_view(n) == seq![f(n)]);
            },
        }
    }
}

} // verus!
