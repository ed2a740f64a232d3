//! The full grammar as spec functions over the input's characters: the lexical rules of
//! each production, and the ordered recursive descent that `parse_from` performs. Where a
//! production gives a position, -1 means that it does not match.
use vstd::prelude::*;
use crate::lex::{after_alnum, at_line_begin, at_line_end, break_len, is_alnum, is_space, starts_at};
use crate::model::{
    chars_trees, Tree,
};
use crate::simple::{emoji_code_end, emoji_len};

verus! {

/// Position after at most `max` line breaks from `p`.
pub open spec fn skip_breaks(s: Seq<char>, p: int, max: int) -> int
    decreases max,
{
    if max > 0 && break_len(s, p) > 0 {
        skip_breaks(s, p + break_len(s, p), max - 1)
    } else {
        p
    }
}

/// First position from `p` where a line break starts; the end of `s` where there is none.
pub open spec fn line_stop(s: Seq<char>, p: int) -> int
    decreases s.len() - p,
{
    if p < 0 || p >= s.len() || break_len(s, p) > 0 {
        p
    } else {
        line_stop(s, p + 1)
    }
}

pub proof fn lemma_line_stop_bounds(s: Seq<char>, p: int)
    ensures
        line_stop(s, p) >= p,
    decreases s.len() - p,
{
    if !(p < 0 || p >= s.len() || break_len(s, p) > 0) {
        lemma_line_stop_bounds(s, p + 1);
    }
}

/// End of the run of characters from `p` that satisfy `f`.
pub open spec fn run_end(s: Seq<char>, p: int, f: spec_fn(char) -> bool) -> int
    decreases s.len() - p,
{
    if 0 <= p < s.len() && f(s[p]) {
        run_end(s, p + 1, f)
    } else {
        p
    }
}

/// First position from `p` where `pat` occurs, or where a line break precedes it when
/// `break_before` holds; the end of `s` where there is none.
pub open spec fn find_close(s: Seq<char>, p: int, pat: Seq<char>, break_before: bool) -> int
    decreases s.len() - p,
{
    if p < 0 || p >= s.len() || starts_at(s, p, pat) || (break_before && break_len(s, p) > 0
        && starts_at(s, p + break_len(s, p), pat)) {
        p
    } else {
        find_close(s, p + 1, pat, break_before)
    }
}

pub open spec fn is_code_char(c: char) -> bool {
    c != '`' && c != '\u{b4}' && c != '\n'
}

/// End of the inline code at `p`: a backtick, one or more characters that are not a
/// backtick, an acute accent or a line break, and a backtick.
pub open spec fn inline_code_end(s: Seq<char>, p: int) -> int {
    let j = run_end(s, p + 1, code_chars());
    if 0 <= p < s.len() && s[p] == '`' && j > p + 1 && j < s.len() && s[j] == '`' {
        j + 1
    } else {
        -1
    }
}

/// First position from `p` holding `\)` or a line break; the end of `s` where there is none.
pub open spec fn math_inline_stop(s: Seq<char>, p: int) -> int
    decreases s.len() - p,
{
    if p < 0 || p >= s.len() || starts_at(s, p, seq!['\\', ')']) || s[p] == '\n' {
        p
    } else {
        math_inline_stop(s, p + 1)
    }
}

/// End of the inline formula at `p`: `\(`, one or more characters on one line, `\)`.
pub open spec fn math_inline_end(s: Seq<char>, p: int) -> int {
    let j = math_inline_stop(s, p + 2);
    if starts_at(s, p, seq!['\\', '(']) && j > p + 2 && starts_at(s, j, seq!['\\', ')']) {
        j + 2
    } else {
        -1
    }
}

pub open spec fn is_hashtag_char(c: char) -> bool {
    !(is_space(c) || c == '\n' || c == '.' || c == ',' || c == '!' || c == '?' || c == '\''
        || c == '"' || c == '#' || c == ':' || c == '/' || c == '[' || c == ']' || c == '\u{3010}'
        || c == '\u{3011}' || c == '(' || c == ')' || c == '\u{300c}' || c == '\u{300d}' || c
        == '\u{ff08}' || c == '\u{ff09}' || c == '<' || c == '>')
}

pub open spec fn is_digit(c: char) -> bool {
    '0' <= c && c <= '9'
}

/// End of the hashtag at `p`: `#` not right after an ASCII letter or digit, then one or
/// more tag characters, not all of them digits.
pub open spec fn hashtag_end(s: Seq<char>, p: int) -> int {
    let j = run_end(s, p + 1, hashtag_chars());
    if 0 <= p < s.len() && s[p] == '#' && !after_alnum(s, p) && j > p + 1 && exists|k: int|
        p + 1 <= k < j && !is_digit(#[trigger] s[k]) {
        j
    } else {
        -1
    }
}

pub open spec fn is_user_char(c: char) -> bool {
    is_alnum(c) || c == '_' || c == '-'
}

pub open spec fn is_host_char(c: char) -> bool {
    is_alnum(c) || c == '_' || c == '.' || c == '-'
}

/// `p` with the characters before it that satisfy `f` dropped, down to `low`.
pub open spec fn trim_back(s: Seq<char>, low: int, p: int, f: spec_fn(char) -> bool) -> int
    decreases p - low,
{
    if p > low && 0 < p <= s.len() && f(s[p - 1]) {
        trim_back(s, low, p - 1, f)
    } else {
        p
    }
}

/// End of the user name of the mention at `p`, or -1.
pub open spec fn mention_user_end(s: Seq<char>, p: int) -> int {
    let i = run_end(s, p + 1, user_chars());
    if 0 <= p < s.len() && s[p] == '@' && !after_alnum(s, p) && i > p + 1 {
        i
    } else {
        -1
    }
}

/// End of the host after the user name ending at `i`, or -1 where none follows: `@`, then
/// host characters with trailing dots and hyphens dropped, at least one left.
pub open spec fn mention_host_end(s: Seq<char>, i: int) -> int {
    let j = trim_back(
        s,
        i + 1,
        run_end(s, i + 1, host_chars()),
        host_trailing(),
    );
    if 0 <= i < s.len() && s[i] == '@' && j > i + 1 {
        j
    } else {
        -1
    }
}

pub open spec fn is_url_char(c: char) -> bool {
    is_alnum(c) || c == '.' || c == ',' || c == '_' || c == '/' || c == ':' || c == '%' || c
        == '#' || c == '@' || c == '$' || c == '&' || c == '?' || c == '!' || c == '~' || c == '='
        || c == '+' || c == '-'
}

/// Length of the `https://` or `http://` scheme at `p`, or 0.
pub open spec fn scheme_len(s: Seq<char>, p: int) -> int {
    if starts_at(s, p, seq!['h', 't', 't', 'p', 's', ':', '/', '/']) {
        8
    } else if starts_at(s, p, seq!['h', 't', 't', 'p', ':', '/', '/']) {
        7
    } else {
        0
    }
}

pub open spec fn is_bracket_url_char(c: char) -> bool {
    c != '>' && !is_space(c) && c != '\n'
}

/// End of the URL text of a bare URL at `p`: URL characters after the scheme, trailing
/// dots and commas dropped, at least one left; or -1.
pub open spec fn bare_url_end(s: Seq<char>, p: int) -> int {
    let n = scheme_len(s, p);
    let j = trim_back(
        s,
        p + n,
        run_end(s, p + n, url_chars()),
        url_trailing(),
    );
    if n > 0 && j > p + n {
        j
    } else {
        -1
    }
}

/// End of the URL text of a bracketed URL at `p` (the `>` stands there), or -1.
pub open spec fn bracket_url_end(s: Seq<char>, p: int) -> int {
    let n = scheme_len(s, p + 1);
    let j = run_end(s, p + 1 + n, bracket_url_chars());
    if 0 <= p < s.len() && s[p] == '<' && n > 0 && j > p + 1 + n && j < s.len() && s[j] == '>' {
        j
    } else {
        -1
    }
}

/// First position from `p` where the closing fence line `\n```` starts; the end of `s`
/// where there is none.
pub open spec fn fence_close(s: Seq<char>, p: int) -> int
    decreases s.len() - p,
{
    if p < 0 || p >= s.len() || (break_len(s, p) > 0 && starts_at(
        s,
        p + break_len(s, p),
        seq!['`', '`', '`'],
    ) && at_line_end(s, p + break_len(s, p) + 3)) {
        p
    } else {
        fence_close(s, p + 1)
    }
}

/// End of the fenced code block at `p`, leading and trailing line breaks included, or -1.
pub open spec fn code_block_end(s: Seq<char>, p: int) -> int {
    let q = fence_open(s, p);
    let i = lang_end(s, p);
    let j = code_end(s, p);
    if at_line_begin(s, q) && starts_at(s, q, seq!['`', '`', '`']) && break_len(s, i) > 0 && j
        > code_start(s, p) && j < s.len() {
        skip_breaks(s, j + break_len(s, j) + 3, 1)
    } else {
        -1
    }
}

/// The URL at `p`: where its text starts and ends, where the match ends, and whether it
/// stands between `<` and `>`.
pub open spec fn url_span_at(s: Seq<char>, p: int) -> Option<(int, int, int, bool)> {
    if 0 <= p < s.len() && s[p] == '<' {
        let j = bracket_url_end(s, p);
        if j >= 0 {
            Some((p + 1, j, j + 1, true))
        } else {
            None
        }
    } else {
        let j = bare_url_end(s, p);
        if j >= 0 {
            Some((p, j, j, false))
        } else {
            None
        }
    }
}

/// Where a code block's opening fence stands.
pub open spec fn fence_open(s: Seq<char>, p: int) -> int {
    skip_breaks(s, p, 1)
}

/// End of the language tag after the opening fence.
pub open spec fn lang_end(s: Seq<char>, p: int) -> int {
    line_stop(s, fence_open(s, p) + 3)
}

/// Start of the code of the block at `p`: after the line break that ends the opening line.
pub open spec fn code_start(s: Seq<char>, p: int) -> int {
    lang_end(s, p) + break_len(s, lang_end(s, p))
}

/// End of the code of the block at `p`.
pub open spec fn code_end(s: Seq<char>, p: int) -> int {
    fence_close(s, code_start(s, p))
}

pub open spec fn math_close() -> Seq<char> {
    seq!['\\', ']']
}

/// Start of the formula of the math block at `p`: after `\[` and one optional line break.
pub open spec fn formula_start(s: Seq<char>, p: int) -> int {
    let q = skip_breaks(s, p, 1);
    q + 2 + break_len(s, q + 2)
}

/// End of the formula of the math block at `p`.
pub open spec fn formula_end(s: Seq<char>, p: int) -> int {
    find_close(s, formula_start(s, p), math_close(), true)
}

/// Where the closing `\]` of the math block at `p` stands.
pub open spec fn math_close_at(s: Seq<char>, p: int) -> int {
    let j = formula_end(s, p);
    j + break_len(s, j)
}

/// End of the math block at `p`, leading and trailing line breaks included, or -1.
pub open spec fn math_block_end(s: Seq<char>, p: int) -> int {
    let q = skip_breaks(s, p, 1);
    let j = formula_end(s, p);
    let k = math_close_at(s, p);
    if at_line_begin(s, q) && starts_at(s, q, seq!['\\', '[']) && j > formula_start(s, p) && j
        < s.len() && starts_at(s, k, math_close()) && at_line_end(s, k + 2) {
        skip_breaks(s, k + 2, 1)
    } else {
        -1
    }
}

pub open spec fn plain_close() -> Seq<char> {
    seq!['<', '/', 'p', 'l', 'a', 'i', 'n', '>']
}

/// Start of the text of the plain node at `p`: after `<plain>` and one optional line break.
pub open spec fn plain_start(s: Seq<char>, p: int) -> int {
    p + 7 + break_len(s, p + 7)
}

/// End of the text of the plain node at `p`.
pub open spec fn plain_text_end(s: Seq<char>, p: int) -> int {
    find_close(s, plain_start(s, p), plain_close(), true)
}

/// End of the plain node at `p`, or -1.
pub open spec fn plain_end(s: Seq<char>, p: int) -> int {
    let j = plain_text_end(s, p);
    let k = j + break_len(s, j);
    if starts_at(s, p, seq!['<', 'p', 'l', 'a', 'i', 'n', '>']) && j > plain_start(s, p) && j
        < s.len() && starts_at(s, k, plain_close()) {
        k + 8
    } else {
        -1
    }
}

/// End of the word `search`, `Search` or `検索` at `p`, or -1.
pub open spec fn search_word_end(s: Seq<char>, p: int) -> int {
    if starts_at(s, p, seq!['\u{691c}', '\u{7d22}']) {
        p + 2
    } else if starts_at(s, p, seq!['s', 'e', 'a', 'r', 'c', 'h']) || starts_at(
        s,
        p,
        seq!['S', 'e', 'a', 'r', 'c', 'h'],
    ) {
        p + 6
    } else {
        -1
    }
}

/// End of the search button at `p`, bare or in brackets, or -1.
pub open spec fn search_button_end(s: Seq<char>, p: int) -> int {
    let w = search_word_end(s, p + 1);
    if 0 <= p < s.len() && s[p] == '[' && w >= 0 && w < s.len() && s[w] == ']' {
        w + 1
    } else {
        search_word_end(s, p)
    }
}

/// At `i` a space, then a search button that ends its line.
pub open spec fn button_ahead(s: Seq<char>, i: int) -> bool {
    0 <= i < s.len() && is_space(s[i]) && search_button_end(s, i + 1) >= 0 && at_line_end(
        s,
        search_button_end(s, i + 1),
    )
}

/// End of the query that starts at `i`.
pub open spec fn query_end(s: Seq<char>, i: int) -> int
    decreases s.len() - i,
{
    if 0 <= i < s.len() && break_len(s, i) == 0 && !button_ahead(s, i) {
        query_end(s, i + 1)
    } else {
        i
    }
}

/// End of the search line at `p`, leading and trailing line breaks included, or -1.
pub open spec fn search_end(s: Seq<char>, p: int) -> int {
    let q = skip_breaks(s, p, 1);
    let i = query_end(s, q);
    let b = search_button_end(s, i + 1);
    if at_line_begin(s, q) && i > q && i < s.len() && break_len(s, i) == 0 && b >= 0 {
        skip_breaks(s, b, 1)
    } else {
        -1
    }
}

pub open spec fn is_word_char(c: char) -> bool {
    is_alnum(c) || is_space(c)
}

pub open spec fn word_chars() -> spec_fn(char) -> bool {
    |c: char| is_word_char(c)
}

/// End of `count` copies of `mark` around a run of ASCII letters, digits and spaces at `p`,
/// the first mark not right after an ASCII letter or digit; or -1.
pub open spec fn word_marked_end(s: Seq<char>, p: int, mark: char, count: int) -> int {
    let j = run_end(s, p + count, word_chars());
    if 0 <= p && p + count <= s.len() && !after_alnum(s, p) && s[p] == mark && (count == 2
        ==> s[p + 1] == mark) && j > p + count && j + count <= s.len() && s[j] == mark && (count
        == 2 ==> s[j + 1] == mark) {
        j + count
    } else {
        -1
    }
}

pub open spec fn is_name_char(c: char) -> bool {
    is_alnum(c) || c == '_'
}

pub open spec fn name_chars() -> spec_fn(char) -> bool {
    |c: char| is_name_char(c)
}

pub open spec fn is_value_char(c: char) -> bool {
    is_alnum(c) || c == '_' || c == '.' || c == '-'
}

pub open spec fn value_chars() -> spec_fn(char) -> bool {
    |c: char| is_value_char(c)
}

/// The arguments of a function from `i`: `key` or `key=value`, separated by commas; and
/// where they end.
pub open spec fn fn_args(s: Seq<char>, i: int) -> Option<
    (Seq<(Seq<char>, Option<Seq<char>>)>, int),
>
    decreases s.len() - i,
{
    let ke = run_end(s, i, name_chars());
    let ve = run_end(s, ke + 1, value_chars());
    let has_value = ke < s.len() && s[ke] == '=';
    let k = if has_value {
        ve
    } else {
        ke
    };
    let arg = (s.subrange(i, ke), if has_value {
        Some(s.subrange(ke + 1, ve))
    } else {
        None
    });
    if i < 0 || ke <= i || (has_value && ve <= ke + 1) {
        None
    } else if k < s.len() && s[k] == ',' {
        match fn_args(s, k + 1) {
            Some((rest, e)) => Some((seq![arg] + rest, e)),
            None => None,
        }
    } else {
        Some((seq![arg], k))
    }
}

/// Recursion budget of a configuration at depth `d` under limit `l`.
pub open spec fn budget(l: int, d: int) -> nat {
    if l > d {
        (l - d) as nat
    } else {
        0
    }
}

/// A container at depth `d` re-parses its content one level deeper.
pub open spec fn nests(l: int, d: int) -> bool {
    d + 1 < l
}

/// The full grammar from `p` to the end of `s`, at depth `d` under limit `l`.
#[verifier::opaque]
pub open spec fn parse_from(l: int, d: int, s: Seq<char>, p: int) -> Seq<Tree>
    decreases budget(l, d), 9int, s.len() - p,
{
    if p < 0 || p >= s.len() {
        seq![]
    } else {
        let (ts, e) = match block_at(l, d, s, p) {
            Some((t, e)) => (seq![t], e),
            None => inline_at(l, d, s, p),
        };
        if e <= p || e > s.len() {
            seq![]
        } else {
            ts + parse_from(l, d, s, e)
        }
    }
}

/// The lines of the quote whose first `>` stands at `p`, markers and leading space
/// dropped, joined by line breaks; and where the last line ends.
pub open spec fn quote_lines(s: Seq<char>, p: int) -> (Seq<char>, int)
    decreases s.len() - p,
{
    let q = run_end(s, p + 1, space_chars());
    let le = line_stop(s, q);
    let line = s.subrange(q, le);
    let bl = break_len(s, le);
    if 0 <= p < le && bl > 0 && le + bl < s.len() && s[le + bl] == '>' {
        let (rest, e) = quote_lines(s, le + bl);
        (line + seq!['\n'] + rest, e)
    } else {
        (line, le)
    }
}

pub open spec fn space_chars() -> spec_fn(char) -> bool {
    |c: char| is_space(c)
}

/// The quote at `p`, or `None`.
pub open spec fn quote_at(l: int, d: int, s: Seq<char>, p: int) -> Option<(Tree, int)>
    decreases budget(l, d), 7int, 0int,
{
    let start = skip_breaks(s, p, 2);
    let (content, le) = quote_lines(s, start);
    if at_line_begin(s, start) && 0 <= start < s.len() && s[start] == '>' && content.len() > 0 {
        let children = if nests(l, d) {
            parse_from(l, d + 1, content, 0)
        } else {
            chars_trees(content)
        };
        Some((Tree::Quote(children), skip_breaks(s, le, 2)))
    } else {
        None
    }
}

pub open spec fn center_close() -> Seq<char> {
    seq!['<', '/', 'c', 'e', 'n', 't', 'e', 'r', '>']
}

/// The center block at `p`, or `None`.
pub open spec fn center_at(l: int, d: int, s: Seq<char>, p: int) -> Option<(Tree, int)>
    decreases budget(l, d), 7int, 0int,
{
    let q = skip_breaks(s, p, 1);
    let start = q + 8 + break_len(s, q + 8);
    let (ts, j) = items_from(l, d, s, start, center_close(), true, false);
    let k = j + break_len(s, j);
    if at_line_begin(s, q) && starts_at(s, q, seq!['<', 'c', 'e', 'n', 't', 'e', 'r', '>']) && j
        > start && starts_at(s, k, center_close()) && at_line_end(s, k + 9) {
        Some((Tree::Center(ts), skip_breaks(s, k + 9, 1)))
    } else {
        None
    }
}

/// The block at `p`, or `None`: quote, search, code block, math block, center, in that order.
pub open spec fn block_at(l: int, d: int, s: Seq<char>, p: int) -> Option<(Tree, int)>
    decreases budget(l, d), 8int, 0int,
{
    if quote_at(l, d, s, p) is Some {
        quote_at(l, d, s, p)
    } else if search_end(s, p) >= 0 {
        let q = skip_breaks(s, p, 1);
        let i = query_end(s, q);
        Some(
            (
                Tree::Search(s.subrange(q, i), s.subrange(q, search_button_end(s, i + 1))),
                search_end(s, p),
            ),
        )
    } else if code_block_end(s, p) >= 0 {
        let q = fence_open(s, p);
        let i = lang_end(s, p);
        Some(
            (
                Tree::CodeBlock(
                    s.subrange(code_start(s, p), code_end(s, p)),
                    if i > q + 3 {
                        Some(s.subrange(q + 3, i))
                    } else {
                        None
                    },
                ),
                code_block_end(s, p),
            ),
        )
    } else if math_block_end(s, p) >= 0 {
        Some(
            (
                Tree::MathBlock(s.subrange(formula_start(s, p), formula_end(s, p))),
                math_block_end(s, p),
            ),
        )
    } else {
        center_at(l, d, s, p)
    }
}

/// The items of a container from `p`: each starts where the closing marker does not
/// (nor a line break before it, for `break_before`; nor any line break, for
/// `single_line`), and is an inline one level deeper, or one character at the limit.
pub open spec fn items_from(
    l: int,
    d: int,
    s: Seq<char>,
    p: int,
    close: Seq<char>,
    break_before: bool,
    single_line: bool,
) -> (Seq<Tree>, int)
    decreases budget(l, d), 3int, s.len() - p,
{
    if p < 0 || p >= s.len() || starts_at(s, p, close) || (single_line && s[p] == '\n') || (
    break_before && break_len(s, p) > 0 && starts_at(s, p + break_len(s, p), close)) {
        (seq![], p)
    } else {
        let (t, e) = if nests(l, d) {
            inline_at(l, d + 1, s, p)
        } else {
            (seq![Tree::Char(s[p])], p + 1)
        };
        if e <= p || e > s.len() {
            (seq![], p)
        } else {
            let (rest, f) = items_from(l, d, s, e, close, break_before, single_line);
            (t + rest, f)
        }
    }
}

/// `open`, one or more items, `close`.
pub open spec fn enclosed_at(
    l: int,
    d: int,
    s: Seq<char>,
    p: int,
    open: Seq<char>,
    close: Seq<char>,
    single_line: bool,
) -> Option<(Seq<Tree>, int)>
    decreases budget(l, d), 4int, 0int,
{
    let start = p + open.len();
    let (ts, e) = items_from(l, d, s, start, close, false, single_line);
    if starts_at(s, p, open) && e > start && starts_at(s, e, close) {
        Some((ts, e + close.len()))
    } else {
        None
    }
}

/// The forms written with `*`, `_` and `~` at `p`.
pub open spec fn marked_at(l: int, d: int, s: Seq<char>, p: int) -> Option<(Tree, int)>
    decreases budget(l, d), 5int, 0int,
{
    if enclosed_at(l, d, s, p, seq!['*', '*', '*'], seq!['*', '*', '*'], false) is Some {
        let (ts, e) = enclosed_at(l, d, s, p, seq!['*', '*', '*'], seq!['*', '*', '*'], false)->0;
        Some((Tree::Fn(seq!['t', 'a', 'd', 'a'], seq![], ts), e))
    } else if enclosed_at(l, d, s, p, seq!['*', '*'], seq!['*', '*'], false) is Some {
        let (ts, e) = enclosed_at(l, d, s, p, seq!['*', '*'], seq!['*', '*'], false)->0;
        Some((Tree::Bold(ts), e))
    } else if word_marked_end(s, p, '_', 2) >= 0 {
        let e = word_marked_end(s, p, '_', 2);
        Some((Tree::Bold(chars_trees(s.subrange(p + 2, e - 2))), e))
    } else if word_marked_end(s, p, '*', 1) >= 0 {
        let e = word_marked_end(s, p, '*', 1);
        Some((Tree::Italic(chars_trees(s.subrange(p + 1, e - 1))), e))
    } else if word_marked_end(s, p, '_', 1) >= 0 {
        let e = word_marked_end(s, p, '_', 1);
        Some((Tree::Italic(chars_trees(s.subrange(p + 1, e - 1))), e))
    } else if enclosed_at(l, d, s, p, seq!['~', '~'], seq!['~', '~'], true) is Some {
        let (ts, e) = enclosed_at(l, d, s, p, seq!['~', '~'], seq!['~', '~'], true)->0;
        Some((Tree::Strike(ts), e))
    } else {
        None
    }
}

/// The forms written with tags at `p`: `<b>`, `<small>`, `<i>`, `<s>`.
pub open spec fn tagged_at(l: int, d: int, s: Seq<char>, p: int) -> Option<(Tree, int)>
    decreases budget(l, d), 5int, 0int,
{
    let b = enclosed_at(l, d, s, p, seq!['<', 'b', '>'], seq!['<', '/', 'b', '>'], false);
    let sm = enclosed_at(
        l,
        d,
        s,
        p,
        seq!['<', 's', 'm', 'a', 'l', 'l', '>'],
        seq!['<', '/', 's', 'm', 'a', 'l', 'l', '>'],
        false,
    );
    let i = enclosed_at(l, d, s, p, seq!['<', 'i', '>'], seq!['<', '/', 'i', '>'], false);
    let st = enclosed_at(l, d, s, p, seq!['<', 's', '>'], seq!['<', '/', 's', '>'], false);
    match (b, sm, i, st) {
        (Some((ts, e)), _, _, _) => Some((Tree::Bold(ts), e)),
        (None, Some((ts, e)), _, _) => Some((Tree::Small(ts), e)),
        (None, None, Some((ts, e)), _) => Some((Tree::Italic(ts), e)),
        (None, None, None, Some((ts, e))) => Some((Tree::Strike(ts), e)),
        _ => None,
    }
}

/// The link at `p`: `[label](url)`, or `?[label](url)` for a silent one.
pub open spec fn link_at(l: int, d: int, s: Seq<char>, p: int) -> Option<(Tree, int)>
    decreases budget(l, d), 5int, 0int,
{
    let silent = 0 <= p < s.len() && s[p] == '?';
    let open = if silent {
        p + 1
    } else {
        p
    };
    let (ts, j) = items_from(l, d, s, open + 1, seq![']'], false, false);
    if 0 <= open < s.len() && s[open] == '[' && j > open + 1 && starts_at(s, j, seq![']', '('])
        && j + 2 < s.len() {
        match url_span_at(s, j + 2) {
            Some((a, b, e, _)) => if e < s.len() && s[e] == ')' {
                Some((Tree::Link(s.subrange(a, b), silent, ts), e + 1))
            } else {
                None
            },
            None => None,
        }
    } else {
        None
    }
}

/// The function at `p`: `$[name.args children]`.
pub open spec fn fn_at(l: int, d: int, s: Seq<char>, p: int) -> Option<(Tree, int)>
    decreases budget(l, d), 5int, 0int,
{
    let ne = run_end(s, p + 2, name_chars());
    let args = if ne < s.len() && s[ne] == '.' {
        fn_args(s, ne + 1)
    } else {
        Some((seq![], ne))
    };
    if starts_at(s, p, seq!['$', '[']) && ne > p + 2 && args is Some {
        let (a, i) = args->0;
        let (ts, j) = items_from(l, d, s, i + 1, seq![']'], false, false);
        if 0 <= i < s.len() && s[i] == ' ' && j > i + 1 && j < s.len() && s[j] == ']' {
            Some((Tree::Fn(s.subrange(p + 2, ne), a, ts), j + 1))
        } else {
            None
        }
    } else {
        None
    }
}

/// The inline at `p` and where it ends: the first production that matches, in order,
/// else one character of text.
pub open spec fn inline_at(l: int, d: int, s: Seq<char>, p: int) -> (Seq<Tree>, int)
    decreases budget(l, d), 6int, 0int,
{
    if p < 0 || p >= s.len() {
        (seq![], p)
    } else if emoji_len(s, p) > 0 {
        (seq![Tree::UnicodeEmoji(s.subrange(p, p + emoji_len(s, p)))], p + emoji_len(s, p))
    } else if emoji_code_end(s, p) > 0 {
        (seq![Tree::EmojiCode(s.subrange(p + 1, emoji_code_end(s, p) - 1))], emoji_code_end(s, p))
    } else if marked_at(l, d, s, p) is Some {
        {
        let (t, e) = marked_at(l, d, s, p)->0;
        (seq![t], e)
    }
    } else if tagged_at(l, d, s, p) is Some {
        {
        let (t, e) = tagged_at(l, d, s, p)->0;
        (seq![t], e)
    }
    } else if plain_end(s, p) >= 0 {
        (seq![Tree::Plain(s.subrange(plain_start(s, p), plain_text_end(s, p)))], plain_end(s, p))
    } else if inline_code_end(s, p) >= 0 {
        (seq![Tree::InlineCode(s.subrange(p + 1, inline_code_end(s, p) - 1))], inline_code_end(s, p))
    } else if math_inline_end(s, p) >= 0 {
        (seq![Tree::MathInline(s.subrange(p + 2, math_inline_end(s, p) - 2))], math_inline_end(s, p))
    } else if mention_user_end(s, p) >= 0 {
        let i = mention_user_end(s, p);
        let h = mention_host_end(s, i);
        let e = if h >= 0 {
            h
        } else {
            i
        };
        (
            seq![
                Tree::Mention(
                    s.subrange(p + 1, i),
                    if h >= 0 {
                        Some(s.subrange(i + 1, h))
                    } else {
                        None
                    },
                    s.subrange(p, e),
                ),
            ],
            e,
        )
    } else if hashtag_end(s, p) >= 0 {
        (seq![Tree::Hashtag(s.subrange(p + 1, hashtag_end(s, p)))], hashtag_end(s, p))
    } else if url_span_at(s, p) is Some {
        let (a, b, e, k) = url_span_at(s, p)->0;
        (seq![Tree::Url(s.subrange(a, b), k)], e)
    } else if link_at(l, d, s, p) is Some {
        {
        let (t, e) = link_at(l, d, s, p)->0;
        (seq![t], e)
    }
    } else if fn_at(l, d, s, p) is Some {
        {
        let (t, e) = fn_at(l, d, s, p)->0;
        (seq![t], e)
    }
    } else {
        (seq![Tree::Char(s[p])], p + 1)
    }
}

pub open spec fn code_chars() -> spec_fn(char) -> bool {
    |c: char| is_code_char(c)
}

pub open spec fn hashtag_chars() -> spec_fn(char) -> bool {
    |c: char| is_hashtag_char(c)
}

pub open spec fn user_chars() -> spec_fn(char) -> bool {
    |c: char| is_user_char(c)
}

pub open spec fn host_chars() -> spec_fn(char) -> bool {
    |c: char| is_host_char(c)
}

pub open spec fn host_trailing() -> spec_fn(char) -> bool {
    |c: char| c == '.' || c == '-'
}

pub open spec fn url_chars() -> spec_fn(char) -> bool {
    |c: char| is_url_char(c)
}

pub open spec fn url_trailing() -> spec_fn(char) -> bool {
    |c: char| c == '.' || c == ','
}

pub open spec fn bracket_url_chars() -> spec_fn(char) -> bool {
    |c: char| is_bracket_url_char(c)
}


/// A line made of `>` and spaces only.
pub open spec fn blank_quote_line(s: Seq<char>) -> bool {
    s.len() > 0 && s[0] == '>' && forall|i: int| 1 <= i < s.len() ==> is_space(#[trigger] s[i])
}

proof fn lemma_spaces_run(s: Seq<char>, p: int)
    requires
        1 <= p <= s.len(),
        blank_quote_line(s),
    ensures
        run_end(s, p, space_chars()) == s.len(),
    decreases s.len() - p,
{
    if p < s.len() {
        lemma_spaces_run(s, p + 1);
    }
}

proof fn lemma_blank_no_button(s: Seq<char>, i: int)
    requires
        blank_quote_line(s),
        0 <= i <= s.len(),
    ensures
        query_end(s, i) == s.len(),
    decreases s.len() - i,
{
    if i < s.len() {
        if i + 1 < s.len() {
            assert(is_space(s[i + 1]));
        }
        if i + 2 < s.len() {
            assert(is_space(s[i + 2]));
        }
        assert(search_button_end(s, i + 1) == -1);
        lemma_blank_no_button(s, i + 1);
    }
}

proof fn lemma_blank_step(l: int, d: int, s: Seq<char>, p: int)
    requires
        blank_quote_line(s),
        0 <= p < s.len(),
    ensures
        block_at(l, d, s, p) is None,
        inline_at(l, d, s, p) == (seq![Tree::Char(s[p])], p + 1),
{
    if p > 0 {
        assert(is_space(s[p]));
        if p > 1 {
            assert(is_space(s[p - 1]));
        }
    } else {
        lemma_spaces_run(s, 1);
        assert(line_stop(s, s.len() as int) == s.len());
        assert(quote_lines(s, 0).0 =~= Seq::<char>::empty());
        lemma_blank_no_button(s, 0);
    }
    if p + 1 < s.len() {
        assert(is_space(s[p + 1]));
    }
    assert(skip_breaks(s, p, 1) == p);
    assert(skip_breaks(s, p, 2) == p);
}

proof fn lemma_blank_parse(l: int, d: int, s: Seq<char>, p: int)
    requires
        blank_quote_line(s),
        0 <= p <= s.len(),
    ensures
        parse_from(l, d, s, p).len() == s.len() - p,
        forall|k: int| 0 <= k < s.len() - p ==> #[trigger] parse_from(l, d, s, p)[k] == Tree::Char(
            s[p + k],
        ),
    decreases s.len() - p,
{
    reveal(parse_from);
    if p < s.len() {
        lemma_blank_step(l, d, s, p);
        lemma_blank_parse(l, d, s, p + 1);
        let rest = parse_from(l, d, s, p + 1);
        assert(parse_from(l, d, s, p) == seq![Tree::Char(s[p])] + rest);
        assert forall|k: int| 0 <= k < s.len() - p implies #[trigger] parse_from(l, d, s, p)[k]
            == Tree::Char(s[p + k]) by {
            if k > 0 {
                assert(rest[k - 1] == Tree::Char(s[p + 1 + (k - 1)]));
            }
        }
    }
}

/// A single quote line with empty content is no quote: `>` followed by nothing but
/// spaces is rejected by the quote production and parses as plain text, one text
/// character for each character of the line, whatever the depth and limit.
pub proof fn lemma_blank_quote_line_is_text(l: int, d: int, s: Seq<char>)
    requires
        blank_quote_line(s),
    ensures
        quote_at(l, d, s, 0) is None,
        parse_from(l, d, s, 0).len() == s.len(),
        forall|k: int| 0 <= k < s.len() ==> #[trigger] parse_from(l, d, s, 0)[k] == Tree::Char(s[k]),
{
    lemma_blank_step(l, d, s, 0);
    lemma_blank_parse(l, d, s, 0);
}

/// At `start` a quote line with no content: `>`, then only spaces up to `e`, where the
/// line ends, with no line opening with `>` after it.
pub open spec fn blank_quote_line_at(s: Seq<char>, start: int, e: int) -> bool {
    &&& 0 <= start < e <= s.len()
    &&& s[start] == '>'
    &&& at_line_end(s, e)
    &&& forall|i: int| start < i < e ==> is_space(#[trigger] s[i])
    &&& !(break_len(s, e) > 0 && e + break_len(s, e) < s.len() && s[e + break_len(s, e)] == '>')
}

proof fn lemma_spaces_to_line_end(s: Seq<char>, start: int, e: int, i: int)
    requires
        blank_quote_line_at(s, start, e),
        start < i <= e,
    ensures
        run_end(s, i, space_chars()) == e,
    decreases e - i,
{
    if i < e {
        assert(is_space(s[i]));
        lemma_spaces_to_line_end(s, start, e, i + 1);
    }
}

/// A quote line with empty content, after at most two line breaks and with no further
/// quote line, is no quote: the quote production rejects it, whatever the depth and
/// limit, and parsing falls through to the other productions.
pub proof fn lemma_blank_quote_line_is_no_quote(l: int, d: int, s: Seq<char>, p: int, e: int)
    requires
        blank_quote_line_at(s, skip_breaks(s, p, 2), e),
    ensures
        quote_at(l, d, s, p) is None,
{
    let start = skip_breaks(s, p, 2);
    lemma_spaces_to_line_end(s, start, e, start + 1);
    assert(line_stop(s, e) == e);
    assert(quote_lines(s, start).0 =~= Seq::<char>::empty());
}

} // verus!
