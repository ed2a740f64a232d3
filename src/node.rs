//! The syntax tree: block and inline nodes, and the restricted "simple" alphabet.
use vstd::prelude::*;
use crate::merge::text_merged;

verus! {

/// A parsed element: either a block or an inline.
#[derive(Debug, Eq, Hash, PartialEq)]
pub enum Node {
    Block(Block),
    Inline(Inline),
}

/// An element that takes part in line-level layout.
#[derive(Debug, Eq, Hash, PartialEq)]
pub enum Block {
    Quote(Quote),
    Search(Search),
    CodeBlock(CodeBlock),
    MathBlock(MathBlock),
    Center(Center),
}

/// Quoted content, itself a full node sequence.
#[derive(Debug, Eq, Hash, PartialEq)]
pub struct Quote(pub Vec<Node>);

/// A search line: the query and the whole line as written.
#[derive(Debug, Eq, Hash, PartialEq)]
pub struct Search {
    pub query: String,
    pub content: String,
}

/// A fenced code block with an optional language tag.
#[derive(Debug, Eq, Hash, PartialEq)]
pub struct CodeBlock {
    pub code: String,
    pub lang: Option<String>,
}

/// A display formula.
#[derive(Debug, Eq, Hash, PartialEq)]
pub struct MathBlock {
    pub formula: String,
}

/// Centered content: inlines only.
#[derive(Debug, Eq, Hash, PartialEq)]
pub struct Center(pub Vec<Inline>);

/// A character-level element of running text.
#[derive(Debug, Eq, Hash, PartialEq)]
pub enum Inline {
    UnicodeEmoji(UnicodeEmoji),
    EmojiCode(EmojiCode),
    Bold(Bold),
    Small(Small),
    Italic(Italic),
    Strike(Strike),
    InlineCode(InlineCode),
    MathInline(MathInline),
    Mention(Mention),
    Hashtag(Hashtag),
    Url(Url),
    Link(Link),
    Fn(Fn),
    Plain(Plain),
    Text(Text),
}

/// The restricted alphabet: emoji and text only.
#[derive(Debug, Eq, Hash, PartialEq)]
pub enum Simple {
    UnicodeEmoji(UnicodeEmoji),
    EmojiCode(EmojiCode),
    Text(Text),
}

#[derive(Debug, Eq, Hash, PartialEq)]
pub struct UnicodeEmoji {
    pub emoji: String,
}

/// A custom emoji written `:name:`.
#[derive(Debug, Eq, Hash, PartialEq)]
pub struct EmojiCode {
    pub name: String,
}

#[derive(Debug, Eq, Hash, PartialEq)]
pub struct Bold(pub Vec<Inline>);

#[derive(Debug, Eq, Hash, PartialEq)]
pub struct Small(pub Vec<Inline>);

#[derive(Debug, Eq, Hash, PartialEq)]
pub struct Italic(pub Vec<Inline>);

#[derive(Debug, Eq, Hash, PartialEq)]
pub struct Strike(pub Vec<Inline>);

#[derive(Debug, Eq, Hash, PartialEq)]
pub struct InlineCode {
    pub code: String,
}

#[derive(Debug, Eq, Hash, PartialEq)]
pub struct MathInline {
    pub formula: String,
}

/// A mention; `acct` is the full written form.
#[derive(Debug, Eq, Hash, PartialEq)]
pub struct Mention {
    pub username: String,
    pub host: Option<String>,
    pub acct: String,
}

#[derive(Debug, Eq, Hash, PartialEq)]
pub struct Hashtag {
    pub hashtag: String,
}

/// A URL; `brackets` tells whether it was written between `<` and `>`.
#[derive(Debug, Eq, Hash, PartialEq)]
pub struct Url {
    pub url: String,
    pub brackets: bool,
}

#[derive(Debug, Eq, Hash, PartialEq)]
pub struct Link {
    pub url: String,
    pub silent: bool,
    pub children: Vec<Inline>,
}

/// A function call `$[name.key=value,key children]`.
#[derive(Debug, Eq, Hash, PartialEq)]
pub struct Fn {
    pub name: String,
    pub args: Vec<(String, Option<String>)>,
    pub children: Vec<Inline>,
}

/// Literal text between `<plain>` tags; it holds exactly one text leaf.
#[derive(Debug, Eq, Hash, PartialEq)]
pub struct Plain(pub Vec<Text>);

#[derive(Debug, Eq, Hash, PartialEq)]
pub struct Text {
    pub text: String,
}

#[derive(Clone, Debug, Eq, Hash, PartialEq)]
pub enum ValueOrText<T> {
    Value(T),
    Text(Text),
}


fn clone_opt(o: &Option<String>) -> (r: Option<String>)
    ensures
        r == *o,
{
    match o {
        Some(x) => Some(x.clone()),
        None => None,
    }
}

impl Clone for Text {
    fn clone(&self) -> (r: Self)
        ensures
            r == *self,
    {
        Text { text: self.text.clone() }
    }
}

impl Clone for Search {
    fn clone(&self) -> (r: Self)
        ensures
            r == *self,
    {
        Search { query: self.query.clone(), content: self.content.clone() }
    }
}

impl Clone for CodeBlock {
    fn clone(&self) -> (r: Self)
        ensures
            r == *self,
    {
        CodeBlock { code: self.code.clone(), lang: clone_opt(&self.lang) }
    }
}

impl Clone for MathBlock {
    fn clone(&self) -> (r: Self)
        ensures
            r == *self,
    {
        MathBlock { formula: self.formula.clone() }
    }
}

impl Clone for UnicodeEmoji {
    fn clone(&self) -> (r: Self)
        ensures
            r == *self,
    {
        UnicodeEmoji { emoji: self.emoji.clone() }
    }
}

impl Clone for EmojiCode {
    fn clone(&self) -> (r: Self)
        ensures
            r == *self,
    {
        EmojiCode { name: self.name.clone() }
    }
}

impl Clone for InlineCode {
    fn clone(&self) -> (r: Self)
        ensures
            r == *self,
    {
        InlineCode { code: self.code.clone() }
    }
}

impl Clone for MathInline {
    fn clone(&self) -> (r: Self)
        ensures
            r == *self,
    {
        MathInline { formula: self.formula.clone() }
    }
}

impl Clone for Mention {
    fn clone(&self) -> (r: Self)
        ensures
            r == *self,
    {
        Mention {
            username: self.username.clone(),
            host: clone_opt(&self.host),
            acct: self.acct.clone(),
        }
    }
}

impl Clone for Hashtag {
    fn clone(&self) -> (r: Self)
        ensures
            r == *self,
    {
        Hashtag { hashtag: self.hashtag.clone() }
    }
}

impl Clone for Url {
    fn clone(&self) -> (r: Self)
        ensures
            r == *self,
    {
        Url { url: self.url.clone(), brackets: self.brackets }
    }
}

impl Clone for Simple {
    fn clone(&self) -> (r: Self)
        ensures
            r == *self,
    {
        match self {
            Simple::UnicodeEmoji(x) => Simple::UnicodeEmoji(x.clone()),
            Simple::EmojiCode(x) => Simple::EmojiCode(x.clone()),
            Simple::Text(x) => Simple::Text(x.clone()),
        }
    }
}

impl Clone for Plain {
    fn clone(&self) -> (r: Self)
        ensures
            r.0@ == self.0@,
    {
        let mut out: Vec<Text> = Vec::new();
        let mut i: usize = 0;
        while i < self.0.len()
            invariant
                i <= self.0.len(),
                out@ == self.0@.take(i as int),
            decreases self.0.len() - i,
        {
            out.push(self.0[i].clone());
            i = i + 1;
            assert(out@ =~= self.0@.take(i as int));
        }
        assert(out@ =~= self.0@);
        Plain(out)
    }
}

/// `b` is a copy of `a`: the same variant and the same fields, at every level.
pub open spec fn inline_same(a: Inline, b: Inline) -> bool
    decreases a,
{
    match a {
        Inline::Bold(x) => match b {
            Inline::Bold(y) => inlines_same(x.0@, y.0@),
            _ => false,
        },
        Inline::Small(x) => match b {
            Inline::Small(y) => inlines_same(x.0@, y.0@),
            _ => false,
        },
        Inline::Italic(x) => match b {
            Inline::Italic(y) => inlines_same(x.0@, y.0@),
            _ => false,
        },
        Inline::Strike(x) => match b {
            Inline::Strike(y) => inlines_same(x.0@, y.0@),
            _ => false,
        },
        Inline::Link(x) => match b {
            Inline::Link(y) => x.url == y.url && x.silent == y.silent && inlines_same(
                x.children@,
                y.children@,
            ),
            _ => false,
        },
        Inline::Fn(x) => match b {
            Inline::Fn(y) => x.name == y.name && x.args@ == y.args@ && inlines_same(
                x.children@,
                y.children@,
            ),
            _ => false,
        },
        Inline::Plain(x) => match b {
            Inline::Plain(y) => x.0@ == y.0@,
            _ => false,
        },
        _ => a == b,
    }
}

/// `b` is an element-wise copy of `a`.
pub open spec fn inlines_same(a: Seq<Inline>, b: Seq<Inline>) -> bool
    decreases a,
{
    a.len() == b.len() && forall|i: int| 0 <= i < a.len() ==> inline_same(#[trigger] a[i], b[i])
}

pub open spec fn block_same(a: Block, b: Block) -> bool
    decreases a,
{
    match a {
        Block::Quote(x) => match b {
            Block::Quote(y) => nodes_same(x.0@, y.0@),
            _ => false,
        },
        Block::Center(x) => match b {
            Block::Center(y) => inlines_same(x.0@, y.0@),
            _ => false,
        },
        _ => a == b,
    }
}

pub open spec fn node_same(a: Node, b: Node) -> bool
    decreases a,
{
    match a {
        Node::Block(x) => match b {
            Node::Block(y) => block_same(x, y),
            _ => false,
        },
        Node::Inline(x) => match b {
            Node::Inline(y) => inline_same(x, y),
            _ => false,
        },
    }
}

/// `b` is an element-wise copy of `a`.
pub open spec fn nodes_same(a: Seq<Node>, b: Seq<Node>) -> bool
    decreases a,
{
    a.len() == b.len() && forall|i: int| 0 <= i < a.len() ==> node_same(#[trigger] a[i], b[i])
}

fn clone_inlines(v: &Vec<Inline>) -> (r: Vec<Inline>)
    ensures
        inlines_same(v@, r@),
    decreases v@,
{
    let mut out: Vec<Inline> = Vec::new();
    let mut i: usize = 0;
    while i < v.len()
        invariant
            i <= v.len(),
            out.len() == i,
            forall|k: int| 0 <= k < i ==> inline_same(#[trigger] v@[k], out@[k]),
        decreases v.len() - i,
    {
        out.push(clone_inline(&v[i]));
        i = i + 1;
    }
    out
}

fn clone_nodes(v: &Vec<Node>) -> (r: Vec<Node>)
    ensures
        nodes_same(v@, r@),
    decreases v@,
{
    let mut out: Vec<Node> = Vec::new();
    let mut i: usize = 0;
    while i < v.len()
        invariant
            i <= v.len(),
            out.len() == i,
            forall|k: int| 0 <= k < i ==> node_same(#[trigger] v@[k], out@[k]),
        decreases v.len() - i,
    {
        out.push(clone_node(&v[i]));
        i = i + 1;
    }
    out
}

fn clone_args(v: &Vec<(String, Option<String>)>) -> (r: Vec<(String, Option<String>)>)
    ensures
        r@ == v@,
{
    let mut out: Vec<(String, Option<String>)> = Vec::new();
    let mut i: usize = 0;
    while i < v.len()
        invariant
            i <= v.len(),
            out@ == v@.take(i as int),
        decreases v.len() - i,
    {
        let (key, value) = &v[i];
        out.push((key.clone(), clone_opt(value)));
        i = i + 1;
        assert(out@ =~= v@.take(i as int));
    }
    assert(out@ =~= v@);
    out
}

fn clone_inline(n: &Inline) -> (r: Inline)
    ensures
        inline_same(*n, r),
    decreases n,
{
    match n {
        Inline::UnicodeEmoji(x) => Inline::UnicodeEmoji(x.clone()),
        Inline::EmojiCode(x) => Inline::EmojiCode(x.clone()),
        Inline::Bold(x) => Inline::Bold(Bold(clone_inlines(&x.0))),
        Inline::Small(x) => Inline::Small(Small(clone_inlines(&x.0))),
        Inline::Italic(x) => Inline::Italic(Italic(clone_inlines(&x.0))),
        Inline::Strike(x) => Inline::Strike(Strike(clone_inlines(&x.0))),
        Inline::InlineCode(x) => Inline::InlineCode(x.clone()),
        Inline::MathInline(x) => Inline::MathInline(x.clone()),
        Inline::Mention(x) => Inline::Mention(x.clone()),
        Inline::Hashtag(x) => Inline::Hashtag(x.clone()),
        Inline::Url(x) => Inline::Url(x.clone()),
        Inline::Link(x) => Inline::Link(
            Link { url: x.url.clone(), silent: x.silent, children: clone_inlines(&x.children) },
        ),
        Inline::Fn(x) => Inline::Fn(
            Fn {
                name: x.name.clone(),
                args: clone_args(&x.args),
                children: clone_inlines(&x.children),
            },
        ),
        Inline::Plain(x) => Inline::Plain(x.clone()),
        Inline::Text(x) => Inline::Text(x.clone()),
    }
}

fn clone_block(b: &Block) -> (r: Block)
    ensures
        block_same(*b, r),
    decreases b,
{
    match b {
        Block::Quote(x) => Block::Quote(Quote(clone_nodes(&x.0))),
        Block::Search(x) => Block::Search(x.clone()),
        Block::CodeBlock(x) => Block::CodeBlock(x.clone()),
        Block::MathBlock(x) => Block::MathBlock(x.clone()),
        Block::Center(x) => Block::Center(Center(clone_inlines(&x.0))),
    }
}

fn clone_node(n: &Node) -> (r: Node)
    ensures
        node_same(*n, r),
    decreases n,
{
    match n {
        Node::Block(b) => Node::Block(clone_block(b)),
        Node::Inline(i) => Node::Inline(clone_inline(i)),
    }
}

impl Clone for Node {
    fn clone(&self) -> (r: Self)
        ensures
            node_same(*self, r),
    {
        clone_node(self)
    }
}

impl Clone for Block {
    fn clone(&self) -> (r: Self)
        ensures
            block_same(*self, r),
    {
        clone_block(self)
    }
}

impl Clone for Inline {
    fn clone(&self) -> (r: Self)
        ensures
            inline_same(*self, r),
    {
        clone_inline(self)
    }
}

impl Clone for Quote {
    fn clone(&self) -> (r: Self)
        ensures
            nodes_same(self.0@, r.0@),
    {
        Quote(clone_nodes(&self.0))
    }
}

impl Clone for Center {
    fn clone(&self) -> (r: Self)
        ensures
            inlines_same(self.0@, r.0@),
    {
        Center(clone_inlines(&self.0))
    }
}

impl Clone for Bold {
    fn clone(&self) -> (r: Self)
        ensures
            inlines_same(self.0@, r.0@),
    {
        Bold(clone_inlines(&self.0))
    }
}

impl Clone for Small {
    fn clone(&self) -> (r: Self)
        ensures
            inlines_same(self.0@, r.0@),
    {
        Small(clone_inlines(&self.0))
    }
}

impl Clone for Italic {
    fn clone(&self) -> (r: Self)
        ensures
            inlines_same(self.0@, r.0@),
    {
        Italic(clone_inlines(&self.0))
    }
}

impl Clone for Strike {
    fn clone(&self) -> (r: Self)
        ensures
            inlines_same(self.0@, r.0@),
    {
        Strike(clone_inlines(&self.0))
    }
}

impl Clone for Link {
    fn clone(&self) -> (r: Self)
        ensures
            r.url == self.url && r.silent == self.silent && inlines_same(self.children@, r.children@),
    {
        Link { url: self.url.clone(), silent: self.silent, children: clone_inlines(&self.children) }
    }
}

impl Clone for Fn {
    fn clone(&self) -> (r: Self)
        ensures
            r.name == self.name && r.args@ == self.args@ && inlines_same(self.children@, r.children@),
    {
        Fn {
            name: self.name.clone(),
            args: clone_args(&self.args),
            children: clone_inlines(&self.children),
        }
    }
}

broadcast use vstd::std_specs::vec::axiom_vec_decreases_to_view,
    vstd::std_specs::vec::axiom_vec_index_decreases;

/// Every container below `n` holds merged text, and a plain node holds one text leaf.
pub open spec fn inline_ok(n: Inline) -> bool
    decreases n,
{
    match n {
        Inline::Bold(b) => inlines_ok(b.0@),
        Inline::Small(b) => inlines_ok(b.0@),
        Inline::Italic(b) => inlines_ok(b.0@),
        Inline::Strike(b) => inlines_ok(b.0@),
        Inline::Link(l) => inlines_ok(l.children@),
        Inline::Fn(f) => inlines_ok(f.children@),
        Inline::Plain(p) => p.0.len() == 1,
        _ => true,
    }
}

/// No two text leaves stand side by side, at this level or below.
pub open spec fn inlines_ok(s: Seq<Inline>) -> bool
    decreases s,
{
    text_merged(s) && forall|i: int| 0 <= i < s.len() ==> inline_ok(#[trigger] s[i])
}

pub open spec fn block_ok(b: Block) -> bool
    decreases b,
{
    match b {
        Block::Quote(q) => nodes_ok(q.0@),
        Block::Center(c) => inlines_ok(c.0@),
        _ => true,
    }
}

pub open spec fn node_ok(n: Node) -> bool
    decreases n,
{
    match n {
        Node::Block(b) => block_ok(b),
        Node::Inline(i) => inline_ok(i),
    }
}

/// No two text leaves stand side by side, at this level or below.
pub open spec fn nodes_ok(s: Seq<Node>) -> bool
    decreases s,
{
    text_merged(s) && forall|i: int| 0 <= i < s.len() ==> node_ok(#[trigger] s[i])
}

/// Containers nest at most `b` deep below and including `n`.
pub open spec fn inline_within(n: Inline, b: int) -> bool
    decreases n,
{
    match n {
        Inline::Bold(x) => b >= 1 && inlines_within(x.0@, b - 1),
        Inline::Small(x) => b >= 1 && inlines_within(x.0@, b - 1),
        Inline::Italic(x) => b >= 1 && inlines_within(x.0@, b - 1),
        Inline::Strike(x) => b >= 1 && inlines_within(x.0@, b - 1),
        Inline::Link(l) => b >= 1 && inlines_within(l.children@, b - 1),
        Inline::Fn(f) => b >= 1 && inlines_within(f.children@, b - 1),
        _ => b >= 0,
    }
}

pub open spec fn inlines_within(s: Seq<Inline>, b: int) -> bool
    decreases s,
{
    forall|i: int| 0 <= i < s.len() ==> inline_within(#[trigger] s[i], b)
}

pub open spec fn block_within(n: Block, b: int) -> bool
    decreases n,
{
    match n {
        Block::Quote(q) => b >= 1 && nodes_within(q.0@, b - 1),
        Block::Center(c) => b >= 1 && inlines_within(c.0@, b - 1),
        _ => b >= 0,
    }
}

pub open spec fn node_within(n: Node, b: int) -> bool
    decreases n,
{
    match n {
        Node::Block(x) => block_within(x, b),
        Node::Inline(x) => inline_within(x, b),
    }
}

/// Containers nest at most `b` deep in `s`.
pub open spec fn nodes_within(s: Seq<Node>, b: int) -> bool
    decreases s,
{
    forall|i: int| 0 <= i < s.len() ==> node_within(#[trigger] s[i], b)
}

} // verus!
