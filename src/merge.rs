//! Collapsing adjacent text leaves into one.
use vstd::prelude::*;
use crate::node::{Inline, Node, Simple, Text};

verus! {

/// A node type with a plain-text leaf variant.
pub trait TextLeaf: Sized {
    /// The characters of `self` when it is a text leaf.
    spec fn leaf_text(&self) -> Option<Seq<char>>;

    fn from_text(t: Text) -> (r: Self)
        ensures
            r.leaf_text() == Some(t.text@),
    ;

    fn into_text(self) -> (r: Result<Text, Self>)
        ensures
            match r {
                Ok(t) => self.leaf_text() == Some(t.text@),
                Err(n) => n == self && self.leaf_text() is None,
            },
    ;
}

impl TextLeaf for Node {
    open spec fn leaf_text(&self) -> Option<Seq<char>> {
        match self {
            Node::Inline(Inline::Text(t)) => Some(t.text@),
            _ => None,
        }
    }

    fn from_text(t: Text) -> (r: Self) {
        Node::Inline(Inline::Text(t))
    }

    fn into_text(self) -> (r: Result<Text, Self>) {
        match self {
            Node::Inline(Inline::Text(t)) => Ok(t),
            other => Err(other),
        }
    }
}

impl TextLeaf for Inline {
    open spec fn leaf_text(&self) -> Option<Seq<char>> {
        match self {
            Inline::Text(t) => Some(t.text@),
            _ => None,
        }
    }

    fn from_text(t: Text) -> (r: Self) {
        Inline::Text(t)
    }

    fn into_text(self) -> (r: Result<Text, Self>) {
        match self {
            Inline::Text(t) => Ok(t),
            other => Err(other),
        }
    }
}

impl TextLeaf for Simple {
    open spec fn leaf_text(&self) -> Option<Seq<char>> {
        match self {
            Simple::Text(t) => Some(t.text@),
            _ => None,
        }
    }

    fn from_text(t: Text) -> (r: Self) {
        Simple::Text(t)
    }

    fn into_text(self) -> (r: Result<Text, Self>) {
        match self {
            Simple::Text(t) => Ok(t),
            other => Err(other),
        }
    }
}

impl From<Text> for Node {
    fn from(v: Text) -> (r: Self) {
        Node::Inline(Inline::Text(v))
    }
}

impl vstd::std_specs::convert::FromSpecImpl<Text> for Node {
    open spec fn obeys_from_spec() -> bool {
        true
    }

    open spec fn from_spec(v: Text) -> Node {
        Node::Inline(Inline::Text(v))
    }
}

impl TryFrom<Node> for Text {
    type Error = ();

    fn try_from(v: Node) -> (r: Result<Text, ()>) {
        match v {
            Node::Inline(Inline::Text(t)) => Ok(t),
            _ => Err(()),
        }
    }
}

impl vstd::std_specs::convert::TryFromSpecImpl<Node> for Text {
    open spec fn obeys_try_from_spec() -> bool {
        true
    }

    open spec fn try_from_spec(v: Node) -> Result<Text, ()> {
        match v {
            Node::Inline(Inline::Text(t)) => Ok(t),
            _ => Err(()),
        }
    }
}

impl From<Text> for Inline {
    fn from(v: Text) -> (r: Self) {
        Inline::Text(v)
    }
}

impl vstd::std_specs::convert::FromSpecImpl<Text> for Inline {
    open spec fn obeys_from_spec() -> bool {
        true
    }

    open spec fn from_spec(v: Text) -> Inline {
        Inline::Text(v)
    }
}

impl TryFrom<Inline> for Text {
    type Error = ();

    fn try_from(v: Inline) -> (r: Result<Text, ()>) {
        match v {
            Inline::Text(t) => Ok(t),
            _ => Err(()),
        }
    }
}

impl vstd::std_specs::convert::TryFromSpecImpl<Inline> for Text {
    open spec fn obeys_try_from_spec() -> bool {
        true
    }

    open spec fn try_from_spec(v: Inline) -> Result<Text, ()> {
        match v {
            Inline::Text(t) => Ok(t),
            _ => Err(()),
        }
    }
}

impl From<Text> for Simple {
    fn from(v: Text) -> (r: Self) {
        Simple::Text(v)
    }
}

impl vstd::std_specs::convert::FromSpecImpl<Text> for Simple {
    open spec fn obeys_from_spec() -> bool {
        true
    }

    open spec fn from_spec(v: Text) -> Simple {
        Simple::Text(v)
    }
}

impl TryFrom<Simple> for Text {
    type Error = ();

    fn try_from(v: Simple) -> (r: Result<Text, ()>) {
        match v {
            Simple::Text(t) => Ok(t),
            _ => Err(()),
        }
    }
}

impl vstd::std_specs::convert::TryFromSpecImpl<Simple> for Text {
    open spec fn obeys_try_from_spec() -> bool {
        true
    }

    open spec fn try_from_spec(v: Simple) -> Result<Text, ()> {
        match v {
            Simple::Text(t) => Ok(t),
            _ => Err(()),
        }
    }
}

/// One unit of a flattened node sequence: a character of text, or a node that is not text.
pub ghost enum Piece<T> {
    Char(char),
    Item(T),
}

pub open spec fn char_pieces<T>(s: Seq<char>) -> Seq<Piece<T>>
    decreases s.len(),
{
    if s.len() == 0 {
        seq![]
    } else {
        char_pieces(s.drop_last()).push(Piece::Char(s.last()))
    }
}

pub open spec fn leaf_pieces<T: TextLeaf>(n: T) -> Seq<Piece<T>> {
    match n.leaf_text() {
        Some(t) => char_pieces(t),
        None => seq![Piece::Item(n)],
    }
}

/// The sequence flattened: text leaves become their characters, other nodes stay whole.
pub open spec fn pieces<T: TextLeaf>(s: Seq<T>) -> Seq<Piece<T>>
    decreases s.len(),
{
    if s.len() == 0 {
        seq![]
    } else {
        pieces(s.drop_last()) + leaf_pieces(s.last())
    }
}

/// No text leaf is empty, and no two text leaves stand side by side.
pub open spec fn text_merged<T: TextLeaf>(s: Seq<T>) -> bool {
    forall|i: int|
        0 <= i < s.len() && (#[trigger] s[i].leaf_text()) is Some ==> s[i].leaf_text()->0.len() > 0
            && (i + 1 < s.len() ==> s[i + 1].leaf_text() is None)
}

/// Pushing after a concatenation pushes onto its second part.
pub proof fn lemma_push_after_add<A>(a: Seq<A>, b: Seq<A>, x: A)
    ensures
        (a + b).push(x) == a + b.push(x),
{
    assert((a + b).push(x) =~= a + b.push(x));
}

proof fn lemma_char_pieces_add<T>(a: Seq<char>, b: Seq<char>)
    ensures
        char_pieces::<T>(a + b) == char_pieces::<T>(a) + char_pieces::<T>(b),
    decreases b.len(),
{
    if b.len() == 0 {
        assert(a + b =~= a);
        assert(char_pieces::<T>(a) + char_pieces::<T>(b) =~= char_pieces::<T>(a));
    } else {
        lemma_char_pieces_add::<T>(a, b.drop_last());
        assert((a + b).drop_last() =~= a + b.drop_last());
        assert((a + b).last() == b.last());
        let x = Piece::<T>::Char(b.last());
        let pa = char_pieces::<T>(a);
        let pb = char_pieces::<T>(b.drop_last());
        lemma_push_after_add(pa, pb, x);
        assert(char_pieces::<T>(b) == pb.push(x));
        assert(char_pieces::<T>(a + b) == (pa + pb).push(x));
    }
}

/// Pushes the stored text to `dest` as a leaf unless it is empty.
fn generate_text<T: TextLeaf>(dest: Vec<T>, stored_string: String) -> (r: (Vec<T>, String))
    ensures
        r.1@.len() == 0,
        pieces(r.0@) == pieces(dest@) + char_pieces(stored_string@),
        stored_string@.len() == 0 ==> r.0@ == dest@,
        stored_string@.len() > 0 ==> r.0@ == dest@.push(r.0@.last()) && r.0@.last().leaf_text()
            == Some(stored_string@),
{
    let mut dest = dest;
    if stored_string.as_str().is_empty() == false {
        let ghost old_dest = dest@;
        let text = Text { text: stored_string };
        dest.push(T::from_text(text));
        assert(dest@.drop_last() == old_dest);
        (dest, String::new())
    } else {
        assert(pieces(dest@) + char_pieces(stored_string@) =~= pieces(dest@));
        (dest, stored_string)
    }
}

/// The elements of `v` in reverse order.
fn reversed<T>(v: Vec<T>) -> (r: Vec<T>)
    ensures
        r.len() == v.len(),
        forall|k: int| 0 <= k < r.len() ==> #[trigger] r@[k] == v@[v.len() - 1 - k],
{
    let ghost input = v@;
    let mut v = v;
    let mut r: Vec<T> = Vec::new();
    while v.len() > 0
        invariant
            v.len() + r.len() == input.len(),
            forall|k: int| 0 <= k < v.len() ==> #[trigger] v@[k] == input[k],
            forall|k: int| 0 <= k < r.len() ==> #[trigger] r@[k] == input[input.len() - 1 - k],
        decreases v.len(),
    {
        let x = v.pop().unwrap();
        r.push(x);
    }
    r
}

/// Merges adjacent text leaves of any node type.
fn merge_leaves<T: TextLeaf>(nodes: Vec<T>) -> (r: Vec<T>)
    ensures
        pieces(r@) == pieces(nodes@),
        text_merged(r@),
        forall|i: int|
            0 <= i < r.len() && (#[trigger] r@[i]).leaf_text() is None ==> exists|j: int|
                0 <= j < nodes.len() && nodes@[j] == r@[i],
{
    let ghost input = nodes@;
    let mut dest: Vec<T> = Vec::new();
    let mut stored = String::new();
    let mut rest = reversed(nodes);
    let ghost mut done: int = 0;
    while rest.len() > 0
        invariant
            0 <= done <= input.len(),
            rest.len() == input.len() - done,
            forall|k: int| 0 <= k < rest.len() ==> #[trigger] rest@[k] == input[input.len() - 1 - k],
            pieces(dest@) + char_pieces(stored@) == pieces(input.take(done)),
            text_merged(dest@),
            dest.len() > 0 ==> dest@.last().leaf_text() is None,
            forall|i: int|
                0 <= i < dest.len() && (#[trigger] dest@[i]).leaf_text() is None ==> exists|j: int|
                    0 <= j < input.len() && input[j] == dest@[i],
        decreases rest.len(),
    {
        let node = rest.pop().unwrap();
        proof {
            assert(node == input[done]);
            assert(input.take(done + 1).drop_last() =~= input.take(done));
            assert(input.take(done + 1).last() == input[done]);
        }
        match node.into_text() {
            Ok(t) => {
                proof {
                    lemma_char_pieces_add::<T>(stored@, t.text@);
                }
                let mut s = stored;
                s.append(t.text.as_str());
                stored = s;
            },
            Err(other) => {
                let ghost before = dest@;
                let (d, s) = generate_text(dest, stored);
                dest = d;
                stored = s;
                dest.push(other);
                proof {
                    assert(dest@.drop_last() =~= before
                        || dest@.drop_last() =~= before.push(dest@[before.len() as int]));
                    assert(char_pieces::<T>(stored@) =~= seq![]);
                    assert(pieces(dest@.drop_last()) =~= pieces(dest@.drop_last()) + char_pieces::<T>(stored@));
                }
            },
        }
        proof {
            done = done + 1;
        }
    }
    proof {
        assert(input.take(done) =~= input);
    }
    generate_text(dest, stored).0
}

/// Merges adjacent text nodes into one with their contents concatenated.
pub fn merge_text(nodes: Vec<Node>) -> (r: Vec<Node>)
    ensures
        pieces(r@) == pieces(nodes@),
        text_merged(r@),
        forall|i: int|
            0 <= i < r.len() && (#[trigger] r@[i]).leaf_text() is None ==> exists|j: int|
                0 <= j < nodes.len() && nodes@[j] == r@[i],
{
    merge_leaves(nodes)
}

/// Merges adjacent inline text nodes into one with their contents concatenated.
pub fn merge_text_inline(nodes: Vec<Inline>) -> (r: Vec<Inline>)
    ensures
        pieces(r@) == pieces(nodes@),
        text_merged(r@),
        forall|i: int|
            0 <= i < r.len() && (#[trigger] r@[i]).leaf_text() is None ==> exists|j: int|
                0 <= j < nodes.len() && nodes@[j] == r@[i],
{
    merge_leaves(nodes)
}

/// Merges adjacent simple text nodes into one with their contents concatenated.
pub fn merge_text_simple(nodes: Vec<Simple>) -> (r: Vec<Simple>)
    ensures
        pieces(r@) == pieces(nodes@),
        text_merged(r@),
        forall|i: int|
            0 <= i < r.len() && (#[trigger] r@[i]).leaf_text() is None ==> exists|j: int|
                0 <= j < nodes.len() && nodes@[j] == r@[i],
{
    merge_leaves(nodes)
}

/// What holds of every input node and of every text leaf holds of every node that
/// merging returns.
pub proof fn lemma_merged_keeps<T: TextLeaf>(items: Seq<T>, r: Seq<T>, ok: spec_fn(T) -> bool)
    requires
        forall|i: int| 0 <= i < items.len() ==> ok(#[trigger] items[i]),
        forall|i: int| 0 <= i < r.len() && (#[trigger] r[i]).leaf_text() is Some ==> ok(r[i]),
        forall|i: int|
            0 <= i < r.len() && (#[trigger] r[i]).leaf_text() is None ==> exists|j: int|
                0 <= j < items.len() && items[j] == r[i],
    ensures
        forall|i: int| 0 <= i < r.len() ==> ok(#[trigger] r[i]),
{
    assert forall|i: int| 0 <= i < r.len() implies ok(#[trigger] r[i]) by {
        if r[i].leaf_text() is None {
            let j = choose|j: int| 0 <= j < items.len() && items[j] == r[i];
            assert(ok(items[j]));
        }
    }
}

} // verus!
