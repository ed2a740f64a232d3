//! The full grammar: blocks and inlines under a bounded nesting depth.
use vstd::prelude::*;
use crate::chars::{chars_of, string_of, substring};
use crate::grammar;
use crate::lex::{
    alnum, at_line_begin, line_begin, line_break, line_end, preceded_by_alnum, space, starts_at,
    starts_with,
};
use crate::merge::{lemma_merged_keeps, merge_text, merge_text_inline, TextLeaf};
use crate::model::{
    args_view, chars_trees, inline_tree, inline_view, inlines_view, lemma_chars_trees_one,
    lemma_inlines_view_pieces, lemma_inlines_view_push, lemma_nodes_view_pieces,
    lemma_nodes_view_push, nodes_view, block_tree, Tree,
};
use crate::simple::{parse_emoji_code, parse_unicode_emoji};
use crate::node::{
    block_within, inline_ok, inline_within, inlines_ok, inlines_within, node_ok, node_within,
    nodes_ok, nodes_within, Block, Bold, Center, CodeBlock, EmojiCode, Hashtag,
    Inline, InlineCode, Italic, Link, MathBlock, MathInline, Mention, Node, Plain, Quote, Search,
    Small, Strike, Text, UnicodeEmoji, Url,
};

verus! {

/// Parser for full MFM syntax.
#[derive(Clone, Copy, Debug)]
pub struct FullParser {
    nest_limit: u32,
    depth: u32,
}

/// Text leaf holding `s[from..to]`.
fn text_of(s: &Vec<char>, from: usize, to: usize) -> (r: Text)
    requires
        from <= to <= s.len(),
    ensures
        r.text@ == s@.subrange(from as int, to as int),
{
    Text { text: substring(s, from, to) }
}

/// A sequence of one non-empty text leaf.
fn single_text(t: Text) -> (r: Vec<Inline>)
    requires
        t.text@.len() > 0,
    ensures
        inlines_ok(r@),
        forall|b: int| b >= 0 ==> #[trigger] inlines_within(r@, b),
        r@ == seq![Inline::Text(t)],
{
    let r = vec![Inline::Text(t)];
    assert(r@[0].leaf_text() == Some(t.text@));
    assert(inline_ok(r@[0]));
    assert forall|b: int| b >= 0 implies #[trigger] inlines_within(r@, b) by {
        assert(inline_within(r@[0], b));
    }
    r
}

/// Merges a list of well-formed inline items.
fn merge_items(items: Vec<Inline>, Ghost(b): Ghost<int>) -> (r: Vec<Inline>)
    requires
        b >= 0,
        forall|i: int| 0 <= i < items.len() ==> inline_ok(#[trigger] items@[i]),
        inlines_within(items@, b),
    ensures
        inlines_ok(r@),
        inlines_within(r@, b),
        inlines_view(r@) == inlines_view(items@),
{
    let ghost input = items@;
    let r = merge_text_inline(items);
    proof {
        let ok = |n: Inline| inline_ok(n) && inline_within(n, b);
        assert forall|i: int| 0 <= i < r.len() && (#[trigger] r@[i]).leaf_text() is Some implies ok(
            r@[i],
        ) by {}
        lemma_merged_keeps(input, r@, ok);
        assert forall|i: int| 0 <= i < r.len() implies inline_ok(#[trigger] r@[i]) by {
            assert(ok(r@[i]));
        }
        assert forall|i: int| 0 <= i < r.len() implies inline_within(#[trigger] r@[i], b) by {
            assert(ok(r@[i]));
        }
        lemma_inlines_view_pieces(input);
        lemma_inlines_view_pieces(r@);
    }
    r
}

impl Default for FullParser {
    fn default() -> (r: Self)
        ensures
            r.wf(),
            r.bound() == 20,
            r.limit() == 20,
            r.level() == 0,
    {
        FullParser { nest_limit: 20, depth: 0 }
    }
}

impl FullParser {
    /// The configuration can still count its depth against its limit.
    pub closed spec fn wf(&self) -> bool {
        self.depth <= self.nest_limit
    }

    pub closed spec fn limit(&self) -> nat {
        self.nest_limit as nat
    }

    pub closed spec fn level(&self) -> nat {
        self.depth as nat
    }

    /// The items that the grammar reads from `p` at this configuration's depth.
    spec fn items_spec(
        &self,
        s: Seq<char>,
        p: int,
        close: Seq<char>,
        break_before: bool,
        single_line: bool,
    ) -> (Seq<Tree>, int) {
        grammar::items_from(
            self.nest_limit as int,
            self.depth as int,
            s,
            p,
            close,
            break_before,
            single_line,
        )
    }

    spec fn enclosed_spec(
        &self,
        s: Seq<char>,
        p: int,
        open: Seq<char>,
        close: Seq<char>,
        single_line: bool,
    ) -> Option<(Seq<Tree>, int)> {
        grammar::enclosed_at(
            self.nest_limit as int,
            self.depth as int,
            s,
            p,
            open,
            close,
            single_line,
        )
    }

    /// The inline that the grammar reads at `p` at this configuration's depth.
    spec fn inline_spec(&self, s: Seq<char>, p: int) -> (Seq<Tree>, int) {
        grammar::inline_at(self.nest_limit as int, self.depth as int, s, p)
    }

    /// How deep containers may nest in what this configuration parses: the levels left
    /// before the limit, and at least one.
    pub open spec fn bound(&self) -> int {
        if self.level() + 1 < self.limit() {
            self.limit() - self.level()
        } else {
            1
        }
    }

    /// Creates a parser with nest limit.
    pub fn new(nest_limit: u32) -> (r: Self)
        ensures
            r.wf(),
            r.bound() == if nest_limit > 1 {
                nest_limit as int
            } else {
                1
            },
            r.limit() == nest_limit,
            r.level() == 0,
    {
        FullParser { nest_limit, depth: 0 }
    }

    /// Returns a parser if its depth does not reach the nest limit.
    fn nest(&self) -> (r: Option<Self>)
        requires
            self.wf(),
        ensures
            r is Some <==> self.depth + 1 < self.nest_limit,
            r matches Some(p) ==> p.wf() && p.nest_limit == self.nest_limit && p.depth == self.depth
                + 1 && p.bound() == self.bound() - 1,
    {
        if (self.depth as u64) + 1 < self.nest_limit as u64 {
            Some(FullParser { nest_limit: self.nest_limit, depth: self.depth + 1 })
        } else {
            None
        }
    }

    /// Returns a full MFM node tree.
    pub fn parse(&self, input: &str) -> (r: Vec<Node>)
        requires
            self.wf(),
        ensures
            nodes_view(r@) == grammar::parse_from(self.limit() as int, self.level() as int, input@, 0),
            nodes_ok(r@),
            nodes_within(r@, self.bound()),
    {
        let s = chars_of(input);
        self.parse_chars(&s)
    }

    /// Tries the blocks, then the inlines, at each position until the input is used up.
    fn parse_chars(&self, s: &Vec<char>) -> (r: Vec<Node>)
        requires
            self.wf(),
        ensures
            nodes_ok(r@),
            nodes_within(r@, self.bound()),
            nodes_view(r@) == grammar::parse_from(self.nest_limit as int, self.depth as int, s@, 0),
        decreases self.nest_limit - self.depth, 9int,
    {
        let ghost whole = grammar::parse_from(self.nest_limit as int, self.depth as int, s@, 0);
        let mut items: Vec<Node> = Vec::new();
        let mut pos: usize = 0;
        proof {
            assert(whole =~= nodes_view(items@) + grammar::parse_from(
                self.nest_limit as int,
                self.depth as int,
                s@,
                pos as int,
            ));
        }
        while pos < s.len()
            invariant
                self.wf(),
                pos <= s.len(),
                forall|i: int| 0 <= i < items.len() ==> node_ok(#[trigger] items@[i]),
                nodes_within(items@, self.bound()),
                whole == grammar::parse_from(self.nest_limit as int, self.depth as int, s@, 0),
                whole == nodes_view(items@) + grammar::parse_from(
                    self.nest_limit as int,
                    self.depth as int,
                    s@,
                    pos as int,
                ),
            decreases s.len() - pos,
        {
            proof {
                reveal(grammar::parse_from);
            }
            let ghost before = items@;
            match self.parse_block(s, pos) {
                Some((b, e)) => {
                    let x = Node::Block(b);
                    items.push(x);
                    pos = e;
                    proof {
                        lemma_nodes_view_push(before, x);
                    }
                },
                None => {
                    let (n, e) = self.parse_inline(s, pos);
                    let x = Node::Inline(n);
                    items.push(x);
                    pos = e;
                    proof {
                        lemma_nodes_view_push(before, x);
                    }
                },
            }
            proof {
                assert(whole =~= nodes_view(items@) + grammar::parse_from(
                    self.nest_limit as int,
                    self.depth as int,
                    s@,
                    pos as int,
                ));
            }
        }
        proof {
            reveal(grammar::parse_from);
            assert(whole =~= nodes_view(items@));
        }
        let ghost input = items@;
        let r = merge_text(items);
        proof {
            let b = self.bound();
            let ok = |n: Node| node_ok(n) && node_within(n, b);
            assert forall|i: int| 0 <= i < r.len() && (#[trigger] r@[i]).leaf_text() is Some
                implies ok(r@[i]) by {}
            lemma_merged_keeps(input, r@, ok);
            assert forall|i: int| 0 <= i < r.len() implies node_ok(#[trigger] r@[i]) by {
                assert(ok(r@[i]));
            }
            assert forall|i: int| 0 <= i < r.len() implies node_within(#[trigger] r@[i], b) by {
                assert(ok(r@[i]));
            }
            lemma_nodes_view_pieces(input);
            lemma_nodes_view_pieces(r@);
        }
        r
    }

    fn parse_block(&self, s: &Vec<char>, pos: usize) -> (r: Option<(Block, usize)>)
        requires
            self.wf(),
            pos < s.len(),
        ensures
            r matches Some((b, e)) ==> pos < e <= s.len() && node_ok(Node::Block(b)) && block_within(
                b,
                self.bound(),
            ),
            r is Some <==> grammar::block_at(self.nest_limit as int, self.depth as int, s@, pos as int) is Some,
            r matches Some((b, e)) ==> grammar::block_at(
                self.nest_limit as int,
                self.depth as int,
                s@,
                pos as int,
            ) == Some((block_tree(b), e as int)),
        decreases self.nest_limit - self.depth, 8int,
    {
        if let Some((q, e)) = self.parse_quote(s, pos) {
            return Some((Block::Quote(q), e));
        }
        if let Some((b, e)) = Self::parse_search(s, pos) {
            return Some((Block::Search(b), e));
        }
        if let Some((b, e)) = Self::parse_code_block(s, pos) {
            proof {
                grammar::lemma_line_stop_bounds(s@, grammar::fence_open(s@, pos as int) + 3);
            }
            return Some((Block::CodeBlock(b), e));
        }
        if let Some((b, e)) = Self::parse_math_block(s, pos) {
            return Some((Block::MathBlock(b), e));
        }
        if let Some((b, e)) = self.parse_center(s, pos) {
            return Some((Block::Center(b), e));
        }
        None
    }

    /// Skips up to `max` line breaks from `pos`.
    fn skip_breaks(s: &Vec<char>, pos: usize, max: usize) -> (r: usize)
        requires
            pos <= s.len(),
        ensures
            pos <= r <= s.len(),
            r == grammar::skip_breaks(s@, pos as int, max as int),
    {
        let mut p = pos;
        let mut n: usize = 0;
        while n < max && line_break(s, p) > 0
            invariant
                pos <= p <= s.len(),
                n <= max,
                grammar::skip_breaks(s@, pos as int, max as int) == grammar::skip_breaks(
                    s@,
                    p as int,
                    max - n,
                ),
            decreases s.len() - p,
        {
            p = p + line_break(s, p);
            n = n + 1;
        }
        p
    }

    /// Appends the line of the quote marker at `p` to `content`, without the marker and
    /// the spaces after it; returns where the line ends.
    fn quote_line(s: &Vec<char>, p: usize, content: &mut Vec<char>) -> (r: usize)
        requires
            p < s.len(),
        ensures
            p < grammar::run_end(s@, p + 1, grammar::space_chars()) <= r <= s.len(),
            r == grammar::line_stop(s@, grammar::run_end(s@, p + 1, grammar::space_chars())),
            final(content)@ == old(content)@ + s@.subrange(
                grammar::run_end(s@, p + 1, grammar::space_chars()),
                r as int,
            ),
    {
        let mut q = p + 1;
        while q < s.len() && space(s[q])
            invariant
                p < q <= s.len(),
                grammar::run_end(s@, p + 1, grammar::space_chars()) == grammar::run_end(
                    s@,
                    q as int,
                    grammar::space_chars(),
                ),
            decreases s.len() - q,
        {
            q = q + 1;
        }
        let ghost q0 = q as int;
        let ghost before = content@;
        while q < s.len() && line_break(s, q) == 0
            invariant
                p < q0 <= q <= s.len(),
                q0 == grammar::run_end(s@, p + 1, grammar::space_chars()),
                content@ == before + s@.subrange(q0, q as int),
                grammar::line_stop(s@, q0) == grammar::line_stop(s@, q as int),
            decreases s.len() - q,
        {
            content.push(s[q]);
            q = q + 1;
            assert(content@ =~= before + s@.subrange(q0, q as int));
        }
        q
    }

    /// The lines of the quote at `pos` joined by line breaks, markers and leading spaces
    /// dropped, and where its last line ends; `None` where no quote starts there or its
    /// one line is empty.
    #[verifier::rlimit(50)]
    fn quote_content(s: &Vec<char>, pos: usize) -> (r: Option<(Vec<char>, usize)>)
        requires
            pos < s.len(),
        ensures
            ({
                let start = grammar::skip_breaks(s@, pos as int, 2);
                r is Some <==> at_line_begin(s@, start) && 0 <= start < s.len() && s@[start] == '>'
                    && grammar::quote_lines(s@, start).0.len() > 0
            }),
            r matches Some((c, p)) ==> ({
                let start = grammar::skip_breaks(s@, pos as int, 2);
                c@ == grammar::quote_lines(s@, start).0 && p == grammar::quote_lines(s@, start).1
                    && pos < p <= s.len() && c.len() > 0
            }),
    {
        let start = Self::skip_breaks(s, pos, 2);
        if !line_begin(s, start) || start >= s.len() || s[start] != '>' {
            return None;
        }
        let ghost whole = grammar::quote_lines(s@, start as int);
        let mut content: Vec<char> = Vec::new();
        let mut first = true;
        let mut more = true;
        let mut p = start;
        while more
            invariant
                pos <= start <= p <= s.len(),
                start as int == grammar::skip_breaks(s@, pos as int, 2),
                at_line_begin(s@, start as int) && start < s.len() && s@[start as int] == '>',
                whole == grammar::quote_lines(s@, start as int),
                more ==> p < s.len() && s@[p as int] == '>',
                first ==> more && content.len() == 0 && p == start,
                !more ==> content.len() > 0,
                !first ==> pos < p,
                more ==> whole.0 == content@ + (if first {
                    Seq::<char>::empty()
                } else {
                    seq!['\n']
                }) + grammar::quote_lines(s@, p as int).0 && whole.1 == grammar::quote_lines(
                    s@,
                    p as int,
                ).1,
                !more ==> whole.0 == content@ && whole.1 == p,
            decreases s.len() - p,
        {
            let ghost before = content@;
            let ghost sep = if first {
                Seq::<char>::empty()
            } else {
                seq!['\n']
            };
            if !first {
                content.push('\n');
            }
            proof {
                assert(content@ =~= before + sep);
            }
            let q = Self::quote_line(s, p, &mut content);
            let ghost q0 = grammar::run_end(s@, p + 1, grammar::space_chars());
            let bl = line_break(s, q);
            let cont = bl > 0 && s.len() - q > bl && s[q + bl] == '>';
            proof {
                assert(grammar::quote_lines(s@, p as int) == if cont {
                    (
                        s@.subrange(q0, q as int) + seq!['\n'] + grammar::quote_lines(s@, q + bl).0,
                        grammar::quote_lines(s@, q + bl).1,
                    )
                } else {
                    (s@.subrange(q0, q as int), q as int)
                });
            }
            let ghost line = s@.subrange(q0, q as int);
            proof {
                assert(content@ =~= before + sep + line);
            }
            if first && content.len() == 0 && !cont {
                proof {
                    assert(line =~= Seq::<char>::empty());
                    assert(whole == grammar::quote_lines(s@, p as int));
                    assert(whole.0 =~= Seq::<char>::empty());
                }
                return None;
            }
            first = false;
            if cont {
                p = q + bl;
                proof {
                    assert(whole.0 =~= content@ + seq!['\n'] + grammar::quote_lines(s@, p as int).0);
                }
            } else {
                p = q;
                more = false;
                proof {
                    assert(whole.0 =~= content@);
                }
            }
        }
        Some((content, p))
    }

    /// The content of a quote re-parsed one level deeper, or kept as one text leaf at the
    /// limit.
    fn quote_children(&self, content: Vec<char>) -> (r: Vec<Node>)
        requires
            self.wf(),
            content.len() > 0,
        ensures
            nodes_ok(r@),
            nodes_within(r@, self.bound() - 1),
            nodes_view(r@) == if grammar::nests(self.nest_limit as int, self.depth as int) {
                grammar::parse_from(self.nest_limit as int, self.depth as int + 1, content@, 0)
            } else {
                chars_trees(content@)
            },
        decreases self.nest_limit - self.depth, 6int,
    {
        match self.nest() {
            Some(inner) => inner.parse_chars(&content),
            None => {
                let t = Text { text: crate::chars::string_of(content.as_slice()) };
                let x = Node::Inline(Inline::Text(t));
                let v = vec![x];
                assert(v@[0].leaf_text() == Some(content@));
                proof {
                    lemma_nodes_view_push(Seq::<Node>::empty(), x);
                    assert(v@ =~= Seq::<Node>::empty().push(x));
                    assert(Seq::<Tree>::empty() + chars_trees(content@) =~= chars_trees(content@));
                    assert(node_within(x, 0));
                }
                v
            },
        }
    }

    /// One or more lines opening with `>`, re-parsed one level deeper.
    fn parse_quote(&self, s: &Vec<char>, pos: usize) -> (r: Option<(Quote, usize)>)
        requires
            self.wf(),
            pos < s.len(),
        ensures
            r matches Some((q, e)) ==> pos < e <= s.len() && nodes_ok(q.0@) && nodes_within(
                q.0@,
                self.bound() - 1,
            ),
            r is Some <==> grammar::quote_at(self.nest_limit as int, self.depth as int, s@, pos as int) is Some,
            r matches Some((q, e)) ==> grammar::quote_at(
                self.nest_limit as int,
                self.depth as int,
                s@,
                pos as int,
            ) == Some((Tree::Quote(nodes_view(q.0@)), e as int)),
        decreases self.nest_limit - self.depth, 7int,
    {
        let (content, p) = match Self::quote_content(s, pos) {
            Some(x) => x,
            None => {
                return None;
            },
        };
        let end = Self::skip_breaks(s, p, 2);
        let children = self.quote_children(content);
        proof {
            // quote_at shares its recursion group with parse_from
            reveal(grammar::parse_from);
        }
        Some((Quote(children), end))
    }

    #[verifier::rlimit(50)]
    fn parse_inline(&self, s: &Vec<char>, pos: usize) -> (r: (Inline, usize))
        requires
            self.wf(),
            pos < s.len(),
        ensures
            pos < r.1 <= s.len(),
            inline_ok(r.0),
            inline_within(r.0, self.bound()),
            inline_view(r.0) == self.inline_spec(s@, pos as int).0,
            r.1 == self.inline_spec(s@, pos as int).1,
        decreases self.nest_limit - self.depth, 6int,
    {
        if let Some((n, e)) = parse_unicode_emoji(s, pos) {
            return (Inline::UnicodeEmoji(n), e);
        }
        if let Some((n, e)) = parse_emoji_code(s, pos) {
            return (Inline::EmojiCode(n), e);
        }
        if let Some((n, e)) = self.parse_marked(s, pos) {
            return (n, e);
        }
        if let Some((n, e)) = self.parse_tagged(s, pos) {
            return (n, e);
        }
        if let Some((n, e)) = Self::parse_plain(s, pos) {
            return (Inline::Plain(n), e);
        }
        if let Some((n, e)) = Self::parse_inline_code(s, pos) {
            return (Inline::InlineCode(n), e);
        }
        if let Some((n, e)) = Self::parse_math_inline(s, pos) {
            return (Inline::MathInline(n), e);
        }
        if let Some((n, e)) = Self::parse_mention(s, pos) {
            return (Inline::Mention(n), e);
        }
        if let Some((n, e)) = Self::parse_hashtag(s, pos) {
            return (Inline::Hashtag(n), e);
        }
        if let Some((n, e)) = Self::parse_url(s, pos) {
            return (Inline::Url(n), e);
        }
        if let Some((n, e)) = self.parse_link(s, pos) {
            return (Inline::Link(n), e);
        }
        if let Some((n, e)) = self.parse_fn(s, pos) {
            return (Inline::Fn(n), e);
        }
        let t = text_of(s, pos, pos + 1);
        proof {
            assert(t.text@ =~= seq![s@[pos as int]]);
            lemma_chars_trees_one(s@[pos as int]);
        }
        (Inline::Text(t), pos + 1)
    }

    /// Containers written with opening and closing tags, each re-parsed one level deeper.
    fn parse_tagged(&self, s: &Vec<char>, pos: usize) -> (r: Option<(Inline, usize)>)
        requires
            self.wf(),
            pos < s.len(),
        ensures
            r matches Some((n, e)) ==> pos < e <= s.len() && inline_ok(n) && inline_within(
                n,
                self.bound(),
            ),
            r is Some <==> grammar::tagged_at(self.nest_limit as int, self.depth as int, s@, pos as int) is Some,
            r matches Some((n, e)) ==> !(n is Text) && grammar::tagged_at(
                self.nest_limit as int,
                self.depth as int,
                s@,
                pos as int,
            ) == Some((inline_tree(n), e as int)),
        decreases self.nest_limit - self.depth, 5int,
    {
        let b_open: &[char] = &['<', 'b', '>'];
        let b_close: &[char] = &['<', '/', 'b', '>'];
        let small_open: &[char] = &['<', 's', 'm', 'a', 'l', 'l', '>'];
        let small_close: &[char] = &['<', '/', 's', 'm', 'a', 'l', 'l', '>'];
        let i_open: &[char] = &['<', 'i', '>'];
        let i_close: &[char] = &['<', '/', 'i', '>'];
        let s_open: &[char] = &['<', 's', '>'];
        let s_close: &[char] = &['<', '/', 's', '>'];
        assert(b_open@ == seq!['<', 'b', '>']);
        assert(b_close@ == seq!['<', '/', 'b', '>']);
        assert(small_open@ == seq!['<', 's', 'm', 'a', 'l', 'l', '>']);
        assert(small_close@ == seq!['<', '/', 's', 'm', 'a', 'l', 'l', '>']);
        assert(i_open@ == seq!['<', 'i', '>']);
        assert(i_close@ == seq!['<', '/', 'i', '>']);
        assert(s_open@ == seq!['<', 's', '>']);
        assert(s_close@ == seq!['<', '/', 's', '>']);
        if let Some((c, e)) = self.enclosed(s, pos, b_open, b_close, false) {
            return Some((Inline::Bold(Bold(c)), e));
        }
        if let Some((c, e)) = self.enclosed(s, pos, small_open, small_close, false) {
            return Some((Inline::Small(Small(c)), e));
        }
        if let Some((c, e)) = self.enclosed(s, pos, i_open, i_close, false) {
            return Some((Inline::Italic(Italic(c)), e));
        }
        if let Some((c, e)) = self.enclosed(s, pos, s_open, s_close, false) {
            return Some((Inline::Strike(Strike(c)), e));
        }
        None
    }

    /// `open`, then one or more inline items up to `close`, then `close`.
    fn enclosed(
        &self,
        s: &Vec<char>,
        pos: usize,
        open: &[char],
        close: &[char],
        single_line: bool,
    ) -> (r: Option<(Vec<Inline>, usize)>)
        requires
            self.wf(),
            pos < s.len(),
            open@.len() > 0,
        ensures
            r matches Some((c, e)) ==> pos < e <= s.len() && inlines_ok(c@) && inlines_within(
                c@,
                self.bound() - 1,
            ),
            r is Some <==> self.enclosed_spec(s@, pos as int, open@, close@, single_line) is Some,
            r matches Some((c, e)) ==> self.enclosed_spec(s@, pos as int, open@, close@, single_line)
                == Some((inlines_view(c@), e as int)),
        decreases self.nest_limit - self.depth, 4int,
    {
        if !starts_with(s, pos, open) {
            return None;
        }
        let start = pos + open.len();
        match self.items_until(s, start, close, false, single_line) {
            Some((c, e)) => {
                if starts_with(s, e, close) {
                    Some((c, e + close.len()))
                } else {
                    None
                }
            },
            None => None,
        }
    }

    /// One or more inline items from `pos`, each starting where `close` does not occur
    /// (nor a line break before it, for `break_before`; nor any line break, for
    /// `single_line`); one level deeper, or single characters where the nesting limit
    /// is reached.
    fn items_until(
        &self,
        s: &Vec<char>,
        pos: usize,
        close: &[char],
        break_before: bool,
        single_line: bool,
    ) -> (r: Option<(Vec<Inline>, usize)>)
        requires
            self.wf(),
            pos <= s.len(),
        ensures
            r matches Some((c, e)) ==> pos < e <= s.len() && inlines_ok(c@) && inlines_within(
                c@,
                self.bound() - 1,
            ),
            r is Some <==> self.items_spec(s@, pos as int, close@, break_before, single_line).1
                > pos,
            r matches Some((c, e)) ==> inlines_view(c@) == self.items_spec(
                s@,
                pos as int,
                close@,
                break_before,
                single_line,
            ).0 && e == self.items_spec(s@, pos as int, close@, break_before, single_line).1,
        decreases self.nest_limit - self.depth, 3int,
    {
        let ghost whole = self.items_spec(s@, pos as int, close@, break_before, single_line);
        let inner = self.nest();
        let mut items: Vec<Inline> = Vec::new();
        let mut p = pos;
        while p < s.len() && !starts_with(s, p, close) && !(single_line && s[p] == '\n') && !(
        break_before && line_break(s, p) > 0 && starts_with(s, p + line_break(s, p), close))
            invariant
                self.wf(),
                pos <= p <= s.len(),
                inner matches Some(q) ==> q.wf() && q.nest_limit == self.nest_limit && q.depth
                    == self.depth + 1 && q.bound() == self.bound() - 1,
                inner is None ==> self.bound() == 1,
                items.len() == 0 <==> p == pos,
                forall|i: int| 0 <= i < items.len() ==> inline_ok(#[trigger] items@[i]),
                inlines_within(items@, self.bound() - 1),
                whole == self.items_spec(s@, pos as int, close@, break_before, single_line),
                whole.0 == inlines_view(items@) + self.items_spec(
                    s@,
                    p as int,
                    close@,
                    break_before,
                    single_line,
                ).0,
                whole.1 == self.items_spec(s@, p as int, close@, break_before, single_line).1,
            decreases s.len() - p,
        {
            let ghost before = items@;
            let ghost here = p as int;
            match &inner {
                Some(q) => {
                    let (n, e) = q.parse_inline(s, p);
                    items.push(n);
                    p = e;
                    proof {
                        lemma_inlines_view_push(before, n);
                    }
                },
                None => {
                    let t = text_of(s, p, p + 1);
                    proof {
                        assert(t.text@ =~= seq![s@[here]]);
                        lemma_chars_trees_one(s@[here]);
                    }
                    let n = Inline::Text(t);
                    items.push(n);
                    p = p + 1;
                    proof {
                        lemma_inlines_view_push(before, n);
                    }
                },
            }
            proof {
                assert(whole.0 =~= inlines_view(items@) + self.items_spec(
                    s@,
                    p as int,
                    close@,
                    break_before,
                    single_line,
                ).0);
            }
        }
        proof {
            assert(whole.0 =~= inlines_view(items@));
        }
        if items.len() == 0 {
            return None;
        }
        Some((merge_items(items, Ghost(self.bound() - 1)), p))
    }

    /// `<plain>` and `</plain>` around literal text, with one line break trimmed inside each.
    fn parse_plain(s: &Vec<char>, pos: usize) -> (r: Option<(Plain, usize)>)
        requires
            pos < s.len(),
        ensures
            r is Some <==> grammar::plain_end(s@, pos as int) >= 0,
            r matches Some((n, e)) ==> pos < e <= s.len() && e == grammar::plain_end(s@, pos as int)
                && n.0.len() == 1 && n.0@[0].text@ == s@.subrange(
                grammar::plain_start(s@, pos as int),
                grammar::plain_text_end(s@, pos as int),
            ),
    {
        let close: &[char] = &['<', '/', 'p', 'l', 'a', 'i', 'n', '>'];
        assert(close@ == grammar::plain_close());
        assert(['<', 'p', 'l', 'a', 'i', 'n', '>']@ == seq!['<', 'p', 'l', 'a', 'i', 'n', '>']);
        if !starts_with(s, pos, &['<', 'p', 'l', 'a', 'i', 'n', '>']) {
            return None;
        }
        let start = pos + 7 + line_break(s, pos + 7);
        let mut j = start;
        while j < s.len() && !starts_with(s, j, close) && !(line_break(s, j) > 0 && starts_with(
            s,
            j + line_break(s, j),
            close,
        ))
            invariant
                pos < start <= j <= s.len(),
                close@ == grammar::plain_close(),
                grammar::find_close(s@, start as int, close@, true) == grammar::find_close(
                    s@,
                    j as int,
                    close@,
                    true,
                ),
            decreases s.len() - j,
        {
            j = j + 1;
        }
        if j == start || j >= s.len() {
            return None;
        }
        let k = j + line_break(s, j);
        if !starts_with(s, k, close) {
            return None;
        }
        let t = text_of(s, start, j);
        let v = vec![t];
        assert(v@[0].text@ == s@.subrange(start as int, j as int));
        Some((Plain(v), k + 8))
    }

    /// The forms written with `*`, `_` and `~`.
    fn parse_marked(&self, s: &Vec<char>, pos: usize) -> (r: Option<(Inline, usize)>)
        requires
            self.wf(),
            pos < s.len(),
        ensures
            r matches Some((n, e)) ==> pos < e <= s.len() && inline_ok(n) && inline_within(
                n,
                self.bound(),
            ),
            r is Some <==> grammar::marked_at(self.nest_limit as int, self.depth as int, s@, pos as int) is Some,
            r matches Some((n, e)) ==> !(n is Text) && grammar::marked_at(
                self.nest_limit as int,
                self.depth as int,
                s@,
                pos as int,
            ) == Some((inline_tree(n), e as int)),
        decreases self.nest_limit - self.depth, 5int,
    {
        let three: &[char] = &['*', '*', '*'];
        let two: &[char] = &['*', '*'];
        let wave: &[char] = &['~', '~'];
        assert(three@ == seq!['*', '*', '*']);
        assert(two@ == seq!['*', '*']);
        assert(wave@ == seq!['~', '~']);
        if let Some((c, e)) = self.enclosed(s, pos, three, three, false) {
            let name = string_of(&['t', 'a', 'd', 'a']);
            assert(['t', 'a', 'd', 'a']@ == seq!['t', 'a', 'd', 'a']);
            let args: Vec<(String, Option<String>)> = Vec::new();
            assert(args_view(args@) =~= seq![]);
            let f = crate::node::Fn { name, args, children: c };
            return Some((Inline::Fn(f), e));
        }
        if let Some((c, e)) = self.enclosed(s, pos, two, two, false) {
            return Some((Inline::Bold(Bold(c)), e));
        }
        if let Some((t, e)) = word_marked(s, pos, '_', 2) {
            let c = single_text(t);
            assert(inlines_within(c@, self.bound() - 1));
            return Some((Inline::Bold(Bold(c)), e));
        }
        if let Some((t, e)) = word_marked(s, pos, '*', 1) {
            let c = single_text(t);
            assert(inlines_within(c@, self.bound() - 1));
            return Some((Inline::Italic(Italic(c)), e));
        }
        if let Some((t, e)) = word_marked(s, pos, '_', 1) {
            let c = single_text(t);
            assert(inlines_within(c@, self.bound() - 1));
            return Some((Inline::Italic(Italic(c)), e));
        }
        if let Some((c, e)) = self.enclosed(s, pos, wave, wave, true) {
            return Some((Inline::Strike(Strike(c)), e));
        }
        None
    }

    /// A code block fenced by lines of three backticks, with an optional language tag.
    fn parse_code_block(s: &Vec<char>, pos: usize) -> (r: Option<(CodeBlock, usize)>)
        requires
            pos < s.len(),
        ensures
            r is Some <==> grammar::code_block_end(s@, pos as int) >= 0,
            r matches Some((n, e)) ==> {
                let q = grammar::fence_open(s@, pos as int);
                let i = grammar::lang_end(s@, pos as int);
                &&& pos < e <= s.len()
                &&& e == grammar::code_block_end(s@, pos as int)
                &&& n.code@ == s@.subrange(
                    grammar::code_start(s@, pos as int),
                    grammar::code_end(s@, pos as int),
                )
                &&& i > q + 3 ==> (n.lang matches Some(l) && l@ == s@.subrange(q + 3, i))
                &&& i == q + 3 ==> n.lang is None
            },
    {
        let fence: &[char] = &['`', '`', '`'];
        assert(fence@ == seq!['`', '`', '`']);
        let q = Self::skip_breaks(s, pos, 1);
        if !line_begin(s, q) || !starts_with(s, q, fence) {
            return None;
        }
        let lang_start = q + 3;
        let mut i = lang_start;
        while i < s.len() && line_break(s, i) == 0
            invariant
                lang_start <= i <= s.len(),
                grammar::line_stop(s@, lang_start as int) == grammar::line_stop(s@, i as int),
            decreases s.len() - i,
        {
            i = i + 1;
        }
        let bl = line_break(s, i);
        if bl == 0 {
            return None;
        }
        let lang = if i > lang_start {
            Some(substring(s, lang_start, i))
        } else {
            None
        };
        let code_start = i + bl;
        let mut j = code_start;
        while j < s.len() && !(line_break(s, j) > 0 && starts_with(s, j + line_break(s, j), fence)
            && line_end(s, j + line_break(s, j) + 3))
            invariant
                code_start <= j <= s.len(),
                fence@ == seq!['`', '`', '`'],
                grammar::fence_close(s@, code_start as int) == grammar::fence_close(s@, j as int),
            decreases s.len() - j,
        {
            j = j + 1;
        }
        if j == code_start || j >= s.len() {
            return None;
        }
        let code = substring(s, code_start, j);
        let end = Self::skip_breaks(s, j + line_break(s, j) + 3, 1);
        Some((CodeBlock { code, lang }, end))
    }

    /// A formula between `\\[` and `\\]`, each at a line boundary.
    fn parse_math_block(s: &Vec<char>, pos: usize) -> (r: Option<(MathBlock, usize)>)
        requires
            pos < s.len(),
        ensures
            r is Some <==> grammar::math_block_end(s@, pos as int) >= 0,
            r matches Some((n, e)) ==> pos < e <= s.len() && e == grammar::math_block_end(
                s@,
                pos as int,
            ) && n.formula@ == s@.subrange(
                grammar::formula_start(s@, pos as int),
                grammar::formula_end(s@, pos as int),
            ),
    {
        let close: &[char] = &['\\', ']'];
        assert(close@ == grammar::math_close());
        assert(['\\', '[']@ == seq!['\\', '[']);
        let q = Self::skip_breaks(s, pos, 1);
        if !line_begin(s, q) || !starts_with(s, q, &['\\', '[']) {
            return None;
        }
        let start = q + 2 + line_break(s, q + 2);
        let mut j = start;
        while j < s.len() && !starts_with(s, j, close) && !(line_break(s, j) > 0 && starts_with(
            s,
            j + line_break(s, j),
            close,
        ))
            invariant
                start <= j <= s.len(),
                close@ == grammar::math_close(),
                grammar::find_close(s@, start as int, close@, true) == grammar::find_close(
                    s@,
                    j as int,
                    close@,
                    true,
                ),
            decreases s.len() - j,
        {
            j = j + 1;
        }
        if j == start || j >= s.len() {
            return None;
        }
        let k = j + line_break(s, j);
        if !starts_with(s, k, close) || !line_end(s, k + 2) {
            return None;
        }
        let formula = substring(s, start, j);
        let end = Self::skip_breaks(s, k + 2, 1);
        Some((MathBlock { formula }, end))
    }

    /// Inline content between `<center>` and `</center>`, each at a line boundary.
    fn parse_center(&self, s: &Vec<char>, pos: usize) -> (r: Option<(Center, usize)>)
        requires
            self.wf(),
            pos < s.len(),
        ensures
            r matches Some((n, e)) ==> pos < e <= s.len() && inlines_ok(n.0@) && inlines_within(
                n.0@,
                self.bound() - 1,
            ),
            r is Some <==> grammar::center_at(self.nest_limit as int, self.depth as int, s@, pos as int) is Some,
            r matches Some((n, e)) ==> grammar::center_at(
                self.nest_limit as int,
                self.depth as int,
                s@,
                pos as int,
            ) == Some((Tree::Center(inlines_view(n.0@)), e as int)),
        decreases self.nest_limit - self.depth, 7int,
    {
        let close: &[char] = &['<', '/', 'c', 'e', 'n', 't', 'e', 'r', '>'];
        assert(close@ == grammar::center_close());
        assert(['<', 'c', 'e', 'n', 't', 'e', 'r', '>']@ == seq!['<', 'c', 'e', 'n', 't', 'e', 'r', '>']);
        let q = Self::skip_breaks(s, pos, 1);
        if !line_begin(s, q) || !starts_with(s, q, &['<', 'c', 'e', 'n', 't', 'e', 'r', '>']) {
            return None;
        }
        let start = q + 8 + line_break(s, q + 8);
        match self.items_until(s, start, close, true, false) {
            Some((c, j)) => {
                let k = j + line_break(s, j);
                if !starts_with(s, k, close) || !line_end(s, k + 9) {
                    return None;
                }
                let end = Self::skip_breaks(s, k + 9, 1);
                Some((Center(c), end))
            },
            None => None,
        }
    }

    /// A line of query text, a space and a search button at the end of the line.
    fn parse_search(s: &Vec<char>, pos: usize) -> (r: Option<(Search, usize)>)
        requires
            pos < s.len(),
        ensures
            r is Some <==> grammar::search_end(s@, pos as int) >= 0,
            r matches Some((n, e)) ==> {
                let q = grammar::skip_breaks(s@, pos as int, 1);
                let i = grammar::query_end(s@, q);
                &&& pos < e <= s.len()
                &&& e == grammar::search_end(s@, pos as int)
                &&& n.query@ == s@.subrange(q, i)
                &&& n.content@ == s@.subrange(q, grammar::search_button_end(s@, i + 1))
            },
    {
        let q = Self::skip_breaks(s, pos, 1);
        if !line_begin(s, q) {
            return None;
        }
        let mut i = q;
        while i < s.len() && line_break(s, i) == 0 && !button_ahead(s, i)
            invariant
                q <= i <= s.len(),
                grammar::query_end(s@, q as int) == grammar::query_end(s@, i as int),
            decreases s.len() - i,
        {
            i = i + 1;
        }
        if i == q || i >= s.len() || line_break(s, i) > 0 {
            return None;
        }
        match search_button(s, i + 1) {
            Some(b) => {
                let query = substring(s, q, i);
                let content = substring(s, q, b);
                let end = Self::skip_breaks(s, b, 1);
                Some((Search { query, content }, end))
            },
            None => None,
        }
    }

    /// Code between backticks on one line, without an acute accent.
    fn parse_inline_code(s: &Vec<char>, pos: usize) -> (r: Option<(InlineCode, usize)>)
        requires
            pos < s.len(),
        ensures
            r is Some <==> grammar::inline_code_end(s@, pos as int) >= 0,
            r matches Some((n, e)) ==> pos < e <= s.len() && e == grammar::inline_code_end(
                s@,
                pos as int,
            ) && n.code@ == s@.subrange(pos + 1, e - 1),
    {
        if s[pos] != '`' {
            return None;
        }
        let mut j = pos + 1;
        while j < s.len() && s[j] != '`' && s[j] != '\u{b4}' && s[j] != '\n'
            invariant
                pos < j <= s.len(),
                grammar::run_end(s@, pos + 1, grammar::code_chars()) == grammar::run_end(
                    s@,
                    j as int,
                    grammar::code_chars(),
                ),
            decreases s.len() - j,
        {
            j = j + 1;
        }
        if j == pos + 1 || j >= s.len() || s[j] != '`' {
            return None;
        }
        Some((InlineCode { code: substring(s, pos + 1, j) }, j + 1))
    }

    /// A formula between `\(` and `\)` on one line.
    fn parse_math_inline(s: &Vec<char>, pos: usize) -> (r: Option<(MathInline, usize)>)
        requires
            pos < s.len(),
        ensures
            r is Some <==> grammar::math_inline_end(s@, pos as int) >= 0,
            r matches Some((n, e)) ==> pos < e <= s.len() && e == grammar::math_inline_end(
                s@,
                pos as int,
            ) && n.formula@ == s@.subrange(pos + 2, e - 2),
    {
        let close: &[char] = &['\\', ')'];
        assert(close@ == seq!['\\', ')']);
        assert(['\\', '(']@ == seq!['\\', '(']);
        if !starts_with(s, pos, &['\\', '(']) {
            return None;
        }
        let start = pos + 2;
        let mut j = start;
        while j < s.len() && !starts_with(s, j, close) && s[j] != '\n'
            invariant
                start <= j <= s.len(),
                close@ == seq!['\\', ')'],
                grammar::math_inline_stop(s@, start as int) == grammar::math_inline_stop(
                    s@,
                    j as int,
                ),
            decreases s.len() - j,
        {
            j = j + 1;
        }
        if j == start || !starts_with(s, j, close) {
            return None;
        }
        Some((MathInline { formula: substring(s, start, j) }, j + 2))
    }

    /// `@user` or `@user@host`, not right after an ASCII letter or digit.
    fn parse_mention(s: &Vec<char>, pos: usize) -> (r: Option<(Mention, usize)>)
        requires
            pos < s.len(),
        ensures
            r is Some <==> grammar::mention_user_end(s@, pos as int) >= 0,
            r matches Some((n, e)) ==> {
                let i = grammar::mention_user_end(s@, pos as int);
                let h = grammar::mention_host_end(s@, i);
                &&& pos < e <= s.len()
                &&& n.username@ == s@.subrange(pos + 1, i)
                &&& h >= 0 ==> e == h && (n.host matches Some(x) && x@ == s@.subrange(i + 1, h))
                &&& h < 0 ==> e == i && n.host is None
                &&& n.acct@ == s@.subrange(pos as int, e as int)
            },
    {
        if s[pos] != '@' || preceded_by_alnum(s, pos) {
            return None;
        }
        let mut i = pos + 1;
        while i < s.len() && (alnum(s[i]) || s[i] == '_' || s[i] == '-')
            invariant
                pos < i <= s.len(),
                grammar::run_end(s@, pos + 1, grammar::user_chars()) == grammar::run_end(
                    s@,
                    i as int,
                    grammar::user_chars(),
                ),
            decreases s.len() - i,
        {
            i = i + 1;
        }
        if i == pos + 1 {
            return None;
        }
        let username = substring(s, pos + 1, i);
        let mut end = i;
        let mut host = None;
        if i < s.len() && s[i] == '@' {
            let mut j = i + 1;
            while j < s.len() && (alnum(s[j]) || s[j] == '_' || s[j] == '.' || s[j] == '-')
                invariant
                    i < j <= s.len(),
                    grammar::run_end(s@, i + 1, grammar::host_chars()) == grammar::run_end(
                        s@,
                        j as int,
                        grammar::host_chars(),
                    ),
                decreases s.len() - j,
            {
                j = j + 1;
            }
            let ghost run = j as int;
            while j > i + 1 && (s[j - 1] == '.' || s[j - 1] == '-')
                invariant
                    i < j <= s.len(),
                    grammar::trim_back(s@, i + 1, run, grammar::host_trailing())
                        == grammar::trim_back(s@, i + 1, j as int, grammar::host_trailing()),
                decreases j,
            {
                j = j - 1;
            }
            if j > i + 1 {
                host = Some(substring(s, i + 1, j));
                end = j;
            }
        }
        let acct = substring(s, pos, end);
        Some((Mention { username, host, acct }, end))
    }

    /// `#tag`, not right after an ASCII letter or digit, and not all digits.
    fn parse_hashtag(s: &Vec<char>, pos: usize) -> (r: Option<(Hashtag, usize)>)
        requires
            pos < s.len(),
        ensures
            r is Some <==> grammar::hashtag_end(s@, pos as int) >= 0,
            r matches Some((n, e)) ==> pos < e <= s.len() && e == grammar::hashtag_end(
                s@,
                pos as int,
            ) && n.hashtag@ == s@.subrange(pos + 1, e as int),
    {
        if s[pos] != '#' || preceded_by_alnum(s, pos) {
            return None;
        }
        let mut i = pos + 1;
        let mut digits_only = true;
        while i < s.len() && hashtag_char(s[i])
            invariant
                pos < i <= s.len(),
                grammar::run_end(s@, pos + 1, grammar::hashtag_chars()) == grammar::run_end(
                    s@,
                    i as int,
                    grammar::hashtag_chars(),
                ),
                digits_only <==> forall|k: int| pos + 1 <= k < i ==> grammar::is_digit(#[trigger] s@[k]),
            decreases s.len() - i,
        {
            if !('0' <= s[i] && s[i] <= '9') {
                digits_only = false;
            }
            i = i + 1;
        }
        if i == pos + 1 || digits_only {
            proof {
                if i > pos + 1 {
                    assert(!exists|k: int| pos + 1 <= k < i && !grammar::is_digit(#[trigger] s@[k]));
                }
            }
            return None;
        }
        Some((Hashtag { hashtag: substring(s, pos + 1, i) }, i))
    }

    /// A URL, bare or between `<` and `>`.
    fn parse_url(s: &Vec<char>, pos: usize) -> (r: Option<(Url, usize)>)
        requires
            pos < s.len(),
        ensures
            r is Some <==> grammar::url_span_at(s@, pos as int) is Some,
            r matches Some((n, e)) ==> {
                let (a, b, end, brackets) = grammar::url_span_at(s@, pos as int)->0;
                &&& pos < e <= s.len()
                &&& e == end
                &&& n.url@ == s@.subrange(a, b)
                &&& n.brackets == brackets
            },
    {
        match url_span(s, pos) {
            Some((a, b, e, brackets)) => Some((Url { url: substring(s, a, b), brackets }, e)),
            None => None,
        }
    }

    /// `[label](url)`, or `?[label](url)` for a silent link.
    fn parse_link(&self, s: &Vec<char>, pos: usize) -> (r: Option<(Link, usize)>)
        requires
            self.wf(),
            pos < s.len(),
        ensures
            r matches Some((n, e)) ==> pos < e <= s.len() && inlines_ok(n.children@)
                && inlines_within(n.children@, self.bound() - 1),
            r is Some <==> grammar::link_at(self.nest_limit as int, self.depth as int, s@, pos as int) is Some,
            r matches Some((n, e)) ==> grammar::link_at(
                self.nest_limit as int,
                self.depth as int,
                s@,
                pos as int,
            ) == Some((inline_tree(Inline::Link(n)), e as int)),
        decreases self.nest_limit - self.depth, 5int,
    {
        let silent = s[pos] == '?';
        let open = if silent {
            pos + 1
        } else {
            pos
        };
        if open >= s.len() || s[open] != '[' {
            return None;
        }
        let close: &[char] = &[']'];
        assert(close@ == seq![']']);
        assert([']', '(']@ == seq![']', '(']);
        match self.items_until(s, open + 1, close, false, false) {
            Some((children, j)) => {
                if !starts_with(s, j, &[']', '(']) || j + 2 >= s.len() {
                    return None;
                }
                match url_span(s, j + 2) {
                    Some((a, b, e, _)) => {
                        if e < s.len() && s[e] == ')' {
                            Some((Link { url: substring(s, a, b), silent, children }, e + 1))
                        } else {
                            None
                        }
                    },
                    None => None,
                }
            },
            None => None,
        }
    }

    /// `$[name.key=value,key children]`.
    fn parse_fn(&self, s: &Vec<char>, pos: usize) -> (r: Option<(crate::node::Fn, usize)>)
        requires
            self.wf(),
            pos < s.len(),
        ensures
            r matches Some((n, e)) ==> pos < e <= s.len() && inlines_ok(n.children@)
                && inlines_within(n.children@, self.bound() - 1),
            r is Some <==> grammar::fn_at(self.nest_limit as int, self.depth as int, s@, pos as int) is Some,
            r matches Some((n, e)) ==> grammar::fn_at(
                self.nest_limit as int,
                self.depth as int,
                s@,
                pos as int,
            ) == Some((inline_tree(Inline::Fn(n)), e as int)),
        decreases self.nest_limit - self.depth, 5int,
    {
        assert(['$', '[']@ == seq!['$', '[']);
        if !starts_with(s, pos, &['$', '[']) {
            return None;
        }
        let name_end = ident_end(s, pos + 2, false);
        if name_end == pos + 2 {
            return None;
        }
        let name = substring(s, pos + 2, name_end);
        let mut args: Vec<(String, Option<String>)> = Vec::new();
        let mut i = name_end;
        let ghost start = name_end + 1;
        proof {
            assert(args_view(args@) =~= seq![]);
        }
        if i < s.len() && s[i] == '.' {
            let mut more = true;
            i = i + 1;
            while more
                invariant
                    name_end < i <= s.len(),
                    start == name_end + 1,
                    name_end < s.len() && s@[name_end as int] == '.',
                    name_end > pos + 2,
                    name_end as int == grammar::run_end(s@, pos + 2, grammar::name_chars()),
                    starts_at(s@, pos as int, seq!['$', '[']),
                    more ==> grammar::fn_args(s@, start) == match grammar::fn_args(s@, i as int) {
                        Some((rest, e)) => Some((args_view(args@) + rest, e)),
                        None => None,
                    },
                    !more ==> grammar::fn_args(s@, start) == Some((args_view(args@), i as int)),
                decreases s.len() - i,
            {
                let ghost i0 = i as int;
                let ghost before = args@;
                let key_end = ident_end(s, i, false);
                if key_end == i {
                    proof {
                        assert(grammar::fn_args(s@, i0) is None);
                        assert(grammar::fn_args(s@, start) is None);
                    }
                    return None;
                }
                let key = substring(s, i, key_end);
                let mut k = key_end;
                let mut value = None;
                if k < s.len() && s[k] == '=' {
                    let value_end = ident_end(s, k + 1, true);
                    if value_end == k + 1 {
                        proof {
                            assert(grammar::fn_args(s@, i0) is None);
                            assert(grammar::fn_args(s@, start) is None);
                        }
                        return None;
                    }
                    value = Some(substring(s, k + 1, value_end));
                    k = value_end;
                }
                let ghost arg = (key@, crate::model::opt_view(value));
                args.push((key, value));
                proof {
                    assert(args_view(args@) =~= args_view(before).push(arg));
                }
                if k < s.len() && s[k] == ',' {
                    i = k + 1;
                    proof {
                        match grammar::fn_args(s@, i as int) {
                            Some((rest, e)) => {
                                assert(args_view(before) + (seq![arg] + rest) =~= args_view(args@) + rest);
                            },
                            None => {},
                        }
                    }
                } else {
                    i = k;
                    more = false;
                    proof {
                        assert(args_view(before) + seq![arg] =~= args_view(args@));
                    }
                }
            }
        }
        if i >= s.len() || s[i] != ' ' {
            return None;
        }
        let close: &[char] = &[']'];
        assert(close@ == seq![']']);
        match self.items_until(s, i + 1, close, false, false) {
            Some((children, j)) => {
                if j < s.len() && s[j] == ']' {
                    Some((crate::node::Fn { name, args, children }, j + 1))
                } else {
                    None
                }
            },
            None => None,
        }
    }
}

/// End of the run of name characters from `p`: ASCII letters, digits and `_`, and for a
/// `value` also `.` and `-`.
fn ident_end(s: &Vec<char>, p: usize, value: bool) -> (r: usize)
    requires
        p <= s.len(),
    ensures
        p <= r <= s.len(),
        r == grammar::run_end(
            s@,
            p as int,
            if value {
                grammar::value_chars()
            } else {
                grammar::name_chars()
            },
        ),
{
    let ghost f = if value {
        grammar::value_chars()
    } else {
        grammar::name_chars()
    };
    let mut i = p;
    while i < s.len() && (alnum(s[i]) || s[i] == '_' || (value && (s[i] == '.' || s[i] == '-')))
        invariant
            p <= i <= s.len(),
            f == (if value {
                grammar::value_chars()
            } else {
                grammar::name_chars()
            }),
            grammar::run_end(s@, p as int, f) == grammar::run_end(s@, i as int, f),
        decreases s.len() - i,
    {
        i = i + 1;
    }
    i
}

/// `count` copies of `mark` around a run of ASCII letters, digits and spaces, the first
/// mark not right after an ASCII letter or digit.
fn word_marked(s: &Vec<char>, pos: usize, mark: char, count: usize) -> (r: Option<(Text, usize)>)
    requires
        pos < s.len(),
        1 <= count <= 2,
    ensures
        r is Some <==> grammar::word_marked_end(s@, pos as int, mark, count as int) >= 0,
        r matches Some((t, e)) ==> pos < e <= s.len() && t.text@.len() > 0 && e
            == grammar::word_marked_end(s@, pos as int, mark, count as int) && t.text@
            == s@.subrange(pos + count, e - count),
{
    if preceded_by_alnum(s, pos) || s.len() - pos < count {
        return None;
    }
    if s[pos] != mark || (count == 2 && s[pos + 1] != mark) {
        return None;
    }
    let start = pos + count;
    let mut j = start;
    while j < s.len() && (alnum(s[j]) || space(s[j]))
        invariant
            start <= j <= s.len(),
            grammar::run_end(s@, start as int, grammar::word_chars()) == grammar::run_end(
                s@,
                j as int,
                grammar::word_chars(),
            ),
        decreases s.len() - j,
    {
        j = j + 1;
    }
    if j == start || s.len() - j < count {
        return None;
    }
    if s[j] != mark || (count == 2 && s[j + 1] != mark) {
        return None;
    }
    Some((text_of(s, start, j), j + count))
}

fn hashtag_char(c: char) -> (r: bool)
    ensures
        r == grammar::is_hashtag_char(c),
{
    !(space(c) || c == '\n' || c == '.' || c == ',' || c == '!' || c == '?' || c == '\'' || c
        == '"' || c == '#' || c == ':' || c == '/' || c == '[' || c == ']' || c == '\u{3010}' || c
        == '\u{3011}' || c == '(' || c == ')' || c == '\u{300c}' || c == '\u{300d}' || c
        == '\u{ff08}' || c == '\u{ff09}' || c == '<' || c == '>')
}

fn url_char(c: char) -> (r: bool)
    ensures
        r == grammar::is_url_char(c),
{
    alnum(c) || c == '.' || c == ',' || c == '_' || c == '/' || c == ':' || c == '%' || c == '#'
        || c == '@' || c == '$' || c == '&' || c == '?' || c == '!' || c == '~' || c == '=' || c
        == '+' || c == '-'
}

/// Length of the `https://` or `http://` scheme at `p`, or 0.
fn scheme_len(s: &Vec<char>, p: usize) -> (r: usize)
    requires
        p <= s.len(),
    ensures
        r == grammar::scheme_len(s@, p as int),
        r == 0 || r == 7 || r == 8,
        r > 0 ==> p + r <= s.len(),
{
    assert(['h', 't', 't', 'p', 's', ':', '/', '/']@ == seq!['h', 't', 't', 'p', 's', ':', '/', '/']);
    assert(['h', 't', 't', 'p', ':', '/', '/']@ == seq!['h', 't', 't', 'p', ':', '/', '/']);
    if starts_with(s, p, &['h', 't', 't', 'p', 's', ':', '/', '/']) {
        8
    } else if starts_with(s, p, &['h', 't', 't', 'p', ':', '/', '/']) {
        7
    } else {
        0
    }
}

/// A URL at `p`: where its text starts and ends, where the match ends, and whether it
/// stands between `<` and `>`.
fn url_span(s: &Vec<char>, p: usize) -> (r: Option<(usize, usize, usize, bool)>)
    requires
        p <= s.len(),
    ensures
        r is Some <==> grammar::url_span_at(s@, p as int) is Some,
        r matches Some((a, b, e, k)) ==> grammar::url_span_at(s@, p as int) == Some(
            (a as int, b as int, e as int, k),
        ) && p <= a < b <= e <= s.len() && p < e,
{
    if p < s.len() && s[p] == '<' {
        let n = scheme_len(s, p + 1);
        if n == 0 {
            return None;
        }
        let mut j = p + 1 + n;
        while j < s.len() && s[j] != '>' && !space(s[j]) && s[j] != '\n'
            invariant
                p + 1 + n <= j <= s.len(),
                grammar::run_end(s@, p + 1 + n, grammar::bracket_url_chars()) == grammar::run_end(
                    s@,
                    j as int,
                    grammar::bracket_url_chars(),
                ),
            decreases s.len() - j,
        {
            j = j + 1;
        }
        if j == p + 1 + n || j >= s.len() || s[j] != '>' {
            return None;
        }
        return Some((p + 1, j, j + 1, true));
    }
    let n = scheme_len(s, p);
    if n == 0 {
        return None;
    }
    let mut j = p + n;
    while j < s.len() && url_char(s[j])
        invariant
            p + n <= j <= s.len(),
            grammar::run_end(s@, p + n, grammar::url_chars()) == grammar::run_end(
                s@,
                j as int,
                grammar::url_chars(),
            ),
        decreases s.len() - j,
    {
        j = j + 1;
    }
    let ghost run = j as int;
    while j > p + n && (s[j - 1] == '.' || s[j - 1] == ',')
        invariant
            p + n <= j <= s.len(),
            grammar::trim_back(s@, p + n, run, grammar::url_trailing()) == grammar::trim_back(
                s@,
                p + n,
                j as int,
                grammar::url_trailing(),
            ),
        decreases j,
    {
        j = j - 1;
    }
    if j == p + n {
        return None;
    }
    Some((p, j, j, false))
}

/// End of a search button at `p`: `search`, `Search` or `検索`, bare or in brackets.
fn search_button(s: &Vec<char>, p: usize) -> (r: Option<usize>)
    requires
        p <= s.len(),
    ensures
        r is Some <==> grammar::search_button_end(s@, p as int) >= 0,
        r matches Some(e) ==> e == grammar::search_button_end(s@, p as int) && p < e <= s.len(),
{
    if p < s.len() && s[p] == '[' {
        match search_word(s, p + 1) {
            Some(w) => {
                if w < s.len() && s[w] == ']' {
                    return Some(w + 1);
                }
            },
            None => {},
        }
    }
    search_word(s, p)
}

fn search_word(s: &Vec<char>, p: usize) -> (r: Option<usize>)
    requires
        p <= s.len(),
    ensures
        r is Some <==> grammar::search_word_end(s@, p as int) >= 0,
        r matches Some(e) ==> e == grammar::search_word_end(s@, p as int) && p < e <= s.len(),
{
    assert(['\u{691c}', '\u{7d22}']@ == seq!['\u{691c}', '\u{7d22}']);
    assert(['s', 'e', 'a', 'r', 'c', 'h']@ == seq!['s', 'e', 'a', 'r', 'c', 'h']);
    assert(['S', 'e', 'a', 'r', 'c', 'h']@ == seq!['S', 'e', 'a', 'r', 'c', 'h']);
    if starts_with(s, p, &['\u{691c}', '\u{7d22}']) {
        Some(p + 2)
    } else if starts_with(s, p, &['s', 'e', 'a', 'r', 'c', 'h']) || starts_with(
        s,
        p,
        &['S', 'e', 'a', 'r', 'c', 'h'],
    ) {
        Some(p + 6)
    } else {
        None
    }
}

/// A space, then a search button that ends its line.
fn button_ahead(s: &Vec<char>, i: usize) -> (r: bool)
    requires
        i < s.len(),
    ensures
        r == grammar::button_ahead(s@, i as int),
{
    if !space(s[i]) {
        return false;
    }
    match search_button(s, i + 1) {
        Some(b) => line_end(s, b),
        None => false,
    }
}

} // verus!
