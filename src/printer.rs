//! The canonical printer: a node tree back to MFM text.
use vstd::prelude::*;
use crate::chars::{push_str, string_of};
use crate::node::{Block, Inline, Node, Simple, Text};

verus! {

broadcast use vstd::std_specs::vec::axiom_vec_decreases_to_view,
    vstd::std_specs::vec::axiom_vec_index_decreases;

/// `"> "` before every line of `c`.
pub open spec fn quote_text(c: Seq<char>) -> Seq<char>
    decreases c.len(),
{
    if c.len() == 0 {
        seq!['>', ' ']
    } else if c.last() == '\n' {
        quote_text(c.drop_last()) + seq!['\n', '>', ' ']
    } else {
        quote_text(c.drop_last()).push(c.last())
    }
}

pub open spec fn opt_text(o: Option<String>) -> Seq<char> {
    match o {
        Some(s) => s@,
        None => seq![],
    }
}

/// One argument of a function: `key` or `key=value`.
pub open spec fn arg_text(a: (String, Option<String>)) -> Seq<char> {
    match a.1 {
        Some(v) => a.0@ + seq!['='] + v@,
        None => a.0@,
    }
}

/// The arguments of a function, separated by commas.
pub open spec fn args_text(s: Seq<(String, Option<String>)>) -> Seq<char>
    decreases s.len(),
{
    if s.len() == 0 {
        seq![]
    } else if s.len() == 1 {
        arg_text(s[0])
    } else {
        args_text(s.drop_last()) + seq![','] + arg_text(s.last())
    }
}

/// The body a plain node prints: its first text leaf, if it has one.
pub open spec fn plain_body(s: Seq<Text>) -> Seq<char> {
    if s.len() > 0 {
        s[0].text@
    } else {
        seq![]
    }
}

/// The canonical text of one inline node.
pub open spec fn inline_text(n: Inline) -> Seq<char>
    decreases n,
{
    match n {
        Inline::UnicodeEmoji(e) => e.emoji@,
        Inline::EmojiCode(e) => seq![':'] + e.name@ + seq![':'],
        Inline::Bold(b) => seq!['*', '*'] + inlines_text(b.0@) + seq!['*', '*'],
        Inline::Small(b) => seq!['<', 's', 'm', 'a', 'l', 'l', '>'] + inlines_text(b.0@) + seq![
            '<',
            '/',
            's',
            'm',
            'a',
            'l',
            'l',
            '>',
        ],
        Inline::Italic(b) => seq!['<', 'i', '>'] + inlines_text(b.0@) + seq!['<', '/', 'i', '>'],
        Inline::Strike(b) => seq!['~', '~'] + inlines_text(b.0@) + seq!['~', '~'],
        Inline::InlineCode(c) => seq!['`'] + c.code@ + seq!['`'],
        Inline::MathInline(m) => seq!['\\', '('] + m.formula@ + seq!['\\', ')'],
        Inline::Mention(m) => m.acct@,
        Inline::Hashtag(h) => seq!['#'] + h.hashtag@,
        Inline::Url(u) => if u.brackets {
            seq!['<'] + u.url@ + seq!['>']
        } else {
            u.url@
        },
        Inline::Link(l) => (if l.silent {
            seq!['?', '[']
        } else {
            seq!['[']
        }) + inlines_text(l.children@) + seq![']', '('] + l.url@ + seq![')'],
        Inline::Fn(f) => seq!['$', '['] + f.name@ + (if f.args.len() > 0 {
            seq!['.'] + args_text(f.args@)
        } else {
            seq![]
        }) + seq![' '] + inlines_text(f.children@) + seq![']'],
        Inline::Plain(p) => seq!['<', 'p', 'l', 'a', 'i', 'n', '>', '\n'] + plain_body(p.0@) + seq![
            '\n',
            '<',
            '/',
            'p',
            'l',
            'a',
            'i',
            'n',
            '>',
        ],
        Inline::Text(t) => t.text@,
    }
}

/// Inline nodes are printed one after another with no separator.
pub open spec fn inlines_text(s: Seq<Inline>) -> Seq<char>
    decreases s,
{
    if s.len() == 0 {
        seq![]
    } else {
        inlines_text(s.drop_last()) + inline_text(s.last())
    }
}

/// The canonical text of one block node.
pub open spec fn block_text(b: Block) -> Seq<char>
    decreases b,
{
    match b {
        Block::Quote(q) => quote_text(nodes_text(q.0@)),
        Block::Search(s) => s.content@,
        Block::CodeBlock(c) => seq!['`', '`', '`'] + opt_text(c.lang) + seq!['\n'] + c.code@ + seq![
            '\n',
            '`',
            '`',
            '`',
        ],
        Block::MathBlock(m) => seq!['\\', '[', '\n'] + m.formula@ + seq!['\n', '\\', ']'],
        Block::Center(c) => seq!['<', 'c', 'e', 'n', 't', 'e', 'r', '>', '\n'] + inlines_text(c.0@)
            + seq!['\n', '<', '/', 'c', 'e', 'n', 't', 'e', 'r', '>'],
    }
}

pub open spec fn node_text(n: Node) -> Seq<char>
    decreases n,
{
    match n {
        Node::Block(b) => block_text(b),
        Node::Inline(i) => inline_text(i),
    }
}

/// A line break stands before each block and before the first inline after a block.
pub open spec fn needs_break(s: Seq<Node>) -> bool {
    s.len() > 1 && (s.last() is Block || s[s.len() - 2] is Block)
}

/// The canonical text of a node sequence.
pub open spec fn nodes_text(s: Seq<Node>) -> Seq<char>
    decreases s,
{
    if s.len() == 0 {
        seq![]
    } else {
        nodes_text(s.drop_last()) + (if needs_break(s) {
            seq!['\n']
        } else {
            seq![]
        }) + node_text(s.last())
    }
}

fn write_inlines(v: &Vec<Inline>, out: &mut Vec<char>)
    ensures
        final(out)@ == old(out)@ + inlines_text(v@),
    decreases v@,
{
    let ghost start = out@;
    let mut i: usize = 0;
    while i < v.len()
        invariant
            i <= v.len(),
            out@ == start + inlines_text(v@.take(i as int)),
        decreases v.len() - i,
    {
        let ghost before = out@;
        write_inline(&v[i], out);
        proof {
            assert(v@.take(i + 1).drop_last() =~= v@.take(i as int));
            assert(before + inline_text(v@[i as int]) =~= start + inlines_text(v@.take(i + 1)));
        }
        i = i + 1;
    }
    assert(v@.take(i as int) =~= v@);
}

fn write_inline(n: &Inline, out: &mut Vec<char>)
    ensures
        final(out)@ == old(out)@ + inline_text(*n),
    decreases n,
{
    let ghost start = out@;
    match n {
        Inline::UnicodeEmoji(e) => {
            push_str(out, &e.emoji);
        },
        Inline::EmojiCode(e) => {
            out.push(':');
            push_str(out, &e.name);
            out.push(':');
        },
        Inline::Bold(b) => {
            out.push('*');
            out.push('*');
            write_inlines(&b.0, out);
            out.push('*');
            out.push('*');
        },
        Inline::Small(b) => {
            out.push('<');
            out.push('s');
            out.push('m');
            out.push('a');
            out.push('l');
            out.push('l');
            out.push('>');
            write_inlines(&b.0, out);
            out.push('<');
            out.push('/');
            out.push('s');
            out.push('m');
            out.push('a');
            out.push('l');
            out.push('l');
            out.push('>');
        },
        Inline::Italic(b) => {
            out.push('<');
            out.push('i');
            out.push('>');
            write_inlines(&b.0, out);
            out.push('<');
            out.push('/');
            out.push('i');
            out.push('>');
        },
        Inline::Strike(b) => {
            out.push('~');
            out.push('~');
            write_inlines(&b.0, out);
            out.push('~');
            out.push('~');
        },
        Inline::InlineCode(c) => {
            out.push('`');
            push_str(out, &c.code);
            out.push('`');
        },
        Inline::MathInline(m) => {
            out.push('\\');
            out.push('(');
            push_str(out, &m.formula);
            out.push('\\');
            out.push(')');
        },
        Inline::Mention(m) => {
            push_str(out, &m.acct);
        },
        Inline::Hashtag(h) => {
            out.push('#');
            push_str(out, &h.hashtag);
        },
        Inline::Url(u) => {
            if u.brackets {
                out.push('<');
                push_str(out, &u.url);
                out.push('>');
            } else {
                push_str(out, &u.url);
            }
        },
        Inline::Link(l) => {
            if l.silent {
                out.push('?');
            }
            out.push('[');
            write_inlines(&l.children, out);
            out.push(']');
            out.push('(');
            push_str(out, &l.url);
            out.push(')');
        },
        Inline::Fn(f) => {
            out.push('$');
            out.push('[');
            push_str(out, &f.name);
            if f.args.len() > 0 {
                out.push('.');
                write_args(&f.args, out);
            }
            out.push(' ');
            write_inlines(&f.children, out);
            out.push(']');
        },
        Inline::Plain(p) => {
            out.push('<');
            out.push('p');
            out.push('l');
            out.push('a');
            out.push('i');
            out.push('n');
            out.push('>');
            out.push('\n');
            if p.0.len() > 0 {
                push_str(out, &p.0[0].text);
            }
            out.push('\n');
            out.push('<');
            out.push('/');
            out.push('p');
            out.push('l');
            out.push('a');
            out.push('i');
            out.push('n');
            out.push('>');
        },
        Inline::Text(t) => {
            push_str(out, &t.text);
        },
    }
    assert(out@ =~= start + inline_text(*n));
}

fn write_args(args: &Vec<(String, Option<String>)>, out: &mut Vec<char>)
    ensures
        final(out)@ == old(out)@ + args_text(args@),
{
    let ghost start = out@;
    let mut i: usize = 0;
    while i < args.len()
        invariant
            i <= args.len(),
            out@ == start + args_text(args@.take(i as int)),
        decreases args.len() - i,
    {
        let ghost before = out@;
        if i > 0 {
            out.push(',');
        }
        let (key, value) = &args[i];
        push_str(out, key);
        match value {
            Some(v) => {
                out.push('=');
                push_str(out, v);
            },
            None => {},
        }
        proof {
            assert(args@.take(i + 1).drop_last() =~= args@.take(i as int));
            if i == 0 {
                assert(out@ =~= start + args_text(args@.take(i + 1)));
            } else {
                assert(out@ =~= start + args_text(args@.take(i + 1)));
            }
        }
        i = i + 1;
    }
    assert(args@.take(i as int) =~= args@);
}

/// Writes `"> "` before every line of `c`.
fn write_quoted(c: &Vec<char>, out: &mut Vec<char>)
    ensures
        final(out)@ == old(out)@ + quote_text(c@),
{
    let ghost start = out@;
    out.push('>');
    out.push(' ');
    let mut i: usize = 0;
    proof {
        assert(c@.take(0) =~= seq![]);
        assert(out@ =~= start + quote_text(c@.take(0)));
    }
    while i < c.len()
        invariant
            i <= c.len(),
            out@ == start + quote_text(c@.take(i as int)),
        decreases c.len() - i,
    {
        let ch = c[i];
        if ch == '\n' {
            out.push('\n');
            out.push('>');
            out.push(' ');
        } else {
            out.push(ch);
        }
        proof {
            assert(c@.take(i + 1).drop_last() =~= c@.take(i as int));
            assert(out@ =~= start + quote_text(c@.take(i + 1)));
        }
        i = i + 1;
    }
    assert(c@.take(i as int) =~= c@);
}

fn write_block(b: &Block, out: &mut Vec<char>)
    ensures
        final(out)@ == old(out)@ + block_text(*b),
    decreases b,
{
    let ghost start = out@;
    match b {
        Block::Quote(q) => {
            let mut inner: Vec<char> = Vec::new();
            write_nodes(&q.0, &mut inner);
            assert(inner@ =~= nodes_text(q.0@));
            write_quoted(&inner, out);
        },
        Block::Search(s) => {
            push_str(out, &s.content);
        },
        Block::CodeBlock(c) => {
            out.push('`');
            out.push('`');
            out.push('`');
            match &c.lang {
                Some(l) => push_str(out, l),
                None => {},
            }
            out.push('\n');
            push_str(out, &c.code);
            out.push('\n');
            out.push('`');
            out.push('`');
            out.push('`');
        },
        Block::MathBlock(m) => {
            out.push('\\');
            out.push('[');
            out.push('\n');
            push_str(out, &m.formula);
            out.push('\n');
            out.push('\\');
            out.push(']');
        },
        Block::Center(c) => {
            out.push('<');
            out.push('c');
            out.push('e');
            out.push('n');
            out.push('t');
            out.push('e');
            out.push('r');
            out.push('>');
            out.push('\n');
            write_inlines(&c.0, out);
            out.push('\n');
            out.push('<');
            out.push('/');
            out.push('c');
            out.push('e');
            out.push('n');
            out.push('t');
            out.push('e');
            out.push('r');
            out.push('>');
        },
    }
    assert(out@ =~= start + block_text(*b));
}

fn write_node(n: &Node, out: &mut Vec<char>)
    ensures
        final(out)@ == old(out)@ + node_text(*n),
    decreases n,
{
    match n {
        Node::Block(b) => write_block(b, out),
        Node::Inline(i) => write_inline(i, out),
    }
}

fn write_nodes(v: &Vec<Node>, out: &mut Vec<char>)
    ensures
        final(out)@ == old(out)@ + nodes_text(v@),
    decreases v@,
{
    let ghost start = out@;
    let mut i: usize = 0;
    let mut prev_block = false;
    while i < v.len()
        invariant
            i <= v.len(),
            out@ == start + nodes_text(v@.take(i as int)),
            i > 0 ==> prev_block == v@[i - 1] is Block,
        decreases v.len() - i,
    {
        let ghost before = out@;
        let is_block = match &v[i] {
            Node::Block(_) => true,
            Node::Inline(_) => false,
        };
        if i > 0 && (is_block || prev_block) {
            out.push('\n');
        }
        write_node(&v[i], out);
        proof {
            let t = v@.take(i + 1);
            assert(t.drop_last() =~= v@.take(i as int));
            assert(t.last() == v@[i as int]);
            assert(i > 0 ==> t[t.len() - 2] == v@[i - 1]);
            assert(out@ =~= start + nodes_text(t));
        }
        prev_block = is_block;
        i = i + 1;
    }
    assert(v@.take(i as int) =~= v@);
}

/// The canonical text of a node of the restricted alphabet.
pub open spec fn simple_text(n: Simple) -> Seq<char> {
    match n {
        Simple::UnicodeEmoji(e) => e.emoji@,
        Simple::EmojiCode(e) => seq![':'] + e.name@ + seq![':'],
        Simple::Text(t) => t.text@,
    }
}

/// Prints one node in canonical MFM form.
pub fn stringify_node(n: &Node) -> (r: String)
    ensures
        r@ == node_text(*n),
{
    let mut out: Vec<char> = Vec::new();
    write_node(n, &mut out);
    assert(out@ =~= node_text(*n));
    string_of(out.as_slice())
}

/// Prints one inline node in canonical MFM form.
pub fn stringify_inline(n: &Inline) -> (r: String)
    ensures
        r@ == inline_text(*n),
{
    let mut out: Vec<char> = Vec::new();
    write_inline(n, &mut out);
    assert(out@ =~= inline_text(*n));
    string_of(out.as_slice())
}

/// Prints one node of the restricted alphabet in canonical MFM form.
pub fn stringify_simple(n: &Simple) -> (r: String)
    ensures
        r@ == simple_text(*n),
{
    let mut out: Vec<char> = Vec::new();
    match n {
        Simple::UnicodeEmoji(e) => push_str(&mut out, &e.emoji),
        Simple::EmojiCode(e) => {
            out.push(':');
            push_str(&mut out, &e.name);
            out.push(':');
        },
        Simple::Text(t) => push_str(&mut out, &t.text),
    }
    assert(out@ =~= simple_text(*n));
    string_of(out.as_slice())
}

/// Prints a node tree in canonical MFM form.
pub fn stringify_tree(nodes: Vec<Node>) -> (r: String)
    ensures
        r@ == nodes_text(nodes@),
{
    let mut out: Vec<char> = Vec::new();
    write_nodes(&nodes, &mut out);
    assert(out@ =~= nodes_text(nodes@));
    string_of(out.as_slice())
}

} // verus!
