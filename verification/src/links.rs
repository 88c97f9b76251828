use vstd::prelude::*;

verus! {

/// The prefix `href=`.
pub open spec fn href_prefix() -> Seq<char> {
    seq!['h', 'r', 'e', 'f', '=']
}

/// The prefix `src=`.
pub open spec fn src_prefix() -> Seq<char> {
    seq!['s', 'r', 'c', '=']
}

/// The prefix `url=`.
pub open spec fn url_prefix() -> Seq<char> {
    seq!['u', 'r', 'l', '=']
}

/// `prefix` stands in `text` at `pos`.
pub open spec fn starts_at(text: Seq<char>, pos: int, prefix: Seq<char>) -> bool {
    0 <= pos && pos + prefix.len() <= text.len() && text.subrange(pos, pos + prefix.len()) == prefix
}

/// The length of the attribute prefix (`href=`, `src=` or `url=`) that starts
/// at `pos`, 0 where none does.
pub open spec fn prefix_len(text: Seq<char>, pos: int) -> int {
    if starts_at(text, pos, href_prefix()) {
        5
    } else if starts_at(text, pos, src_prefix()) {
        4
    } else if starts_at(text, pos, url_prefix()) {
        4
    } else {
        0
    }
}

/// A quote that may open a link's value.
pub open spec fn is_quote(c: char) -> bool {
    c == '"' || c == '\''
}

/// A character that ends a link's value.
pub open spec fn ends_link(c: char) -> bool {
    c == '"' || c == '\'' || c == ' ' || c == '<' || c == '>'
}

/// Where the link value that begins at `start` ends: at the first character
/// from `start` on that ends a link, or at the end of the text.
pub open spec fn value_end(text: Seq<char>, start: int) -> int
    decreases text.len() - start,
{
    if start < 0 || start >= text.len() {
        start
    } else if ends_link(text[start]) {
        start
    } else {
        value_end(text, start + 1)
    }
}

/// Where the value of the link whose attribute prefix starts at `pos` begins:
/// after the prefix and after one quote, if one follows it.
pub open spec fn value_start(text: Seq<char>, pos: int) -> int {
    let after = pos + prefix_len(text, pos);
    if after < text.len() && is_quote(text[after]) {
        after + 1
    } else {
        after
    }
}

/// The values of at most `limit` links in `text` from `pos` on, in order.
///
/// A link is `href=`, `src=` or `url=`, then an optional `"` or `'`, then
/// its value: the longest run of characters that holds none of `"`, `'`,
/// space, `<`, `>`. Links are found from left to right, each search going on
/// where the previous link ended; they are the captures of the pattern
/// `(?:href=|src=|url=)["']?([^"' <>]*)`.
pub open spec fn link_values(text: Seq<char>, pos: int, limit: nat) -> Seq<Seq<char>>
    decreases text.len() - pos,
{
    if limit == 0 || pos < 0 || pos >= text.len() {
        Seq::empty()
    } else if prefix_len(text, pos) > 0 {
        let start = value_start(text, pos);
        let end = value_end(text, start);
        if end <= pos || end > text.len() {
            Seq::empty()
        } else {
            seq![text.subrange(start, end)] + link_values(text, end, (limit - 1) as nat)
        }
    } else {
        link_values(text, pos + 1, limit)
    }
}

/// No link value holds a character that ends a link, and there are at most
/// `limit` of them.
pub proof fn lemma_link_values_shape(text: Seq<char>, pos: int, limit: nat)
    ensures
        link_values(text, pos, limit).len() <= limit,
        forall|i: int, k: int|
            0 <= i < link_values(text, pos, limit).len() && 0 <= k < link_values(text, pos, limit)[i].len()
                ==> !ends_link(#[trigger] link_values(text, pos, limit)[i][k]),
    decreases text.len() - pos,
{
    if limit == 0 || pos < 0 || pos >= text.len() {
    } else if prefix_len(text, pos) > 0 {
        let start = value_start(text, pos);
        let end = value_end(text, start);
        if end <= pos || end > text.len() {
        } else {
            lemma_value_end_bounds(text, start);
            lemma_link_values_shape(text, end, (limit - 1) as nat);
            let rest = link_values(text, end, (limit - 1) as nat);
            let v = text.subrange(start, end);
            assert(link_values(text, pos, limit) == seq![v] + rest);
            assert forall|i: int, k: int|
                0 <= i < link_values(text, pos, limit).len() && 0 <= k < link_values(text, pos, limit)[i].len()
                implies !ends_link(#[trigger] link_values(text, pos, limit)[i][k]) by {
                if i == 0 {
                    assert(link_values(text, pos, limit)[i][k] == text[start + k]);
                } else {
                    assert(link_values(text, pos, limit)[i] == rest[i - 1]);
                }
            }
        }
    } else {
        lemma_link_values_shape(text, pos + 1, limit);
    }
}

proof fn lemma_value_end_bounds(text: Seq<char>, start: int)
    requires
        0 <= start <= text.len(),
    ensures
        start <= value_end(text, start) <= text.len(),
        forall|k: int| start <= k < value_end(text, start) ==> !ends_link(#[trigger] text[k]),
        value_end(text, start) < text.len() ==> ends_link(text[value_end(text, start)]),
    decreases text.len() - start,
{
    if start < text.len() && !ends_link(text[start]) {
        lemma_value_end_bounds(text, start + 1);
    }
}

proof fn lemma_value_end_at(text: Seq<char>, start: int, end: int)
    requires
        0 <= start <= end <= text.len(),
        forall|k: int| start <= k < end ==> !ends_link(#[trigger] text[k]),
        end == text.len() || ends_link(text[end]),
    ensures
        value_end(text, start) == end,
    decreases end - start,
{
    if start < end {
        lemma_value_end_at(text, start + 1, end);
    }
}

/// A link value runs from the end of `href=` (and of a quote after it) up to
/// the first `"`, `'`, space, `<` or `>`, or the end of the text; every other
/// character, `;`, `&`, `?`, `#`, `=` and `:` among them, stays inside it.
/// So `href=` followed by a value `v` of such characters and then either
/// nothing or one of those five characters is the link `v` (after an opening
/// quote, `v` may be empty or anything of the same sort too).
pub proof fn lemma_link_value_runs_to_a_stop(v: Seq<char>, rest: Seq<char>, limit: nat)
    requires
        limit > 0,
        forall|k: int|
            0 <= k < v.len() ==> #[trigger] v[k] != '"' && v[k] != '\'' && v[k] != ' ' && v[k] != '<' && v[k]
                != '>',
        rest.len() == 0 || rest[0] == '"' || rest[0] == '\'' || rest[0] == ' ' || rest[0] == '<' || rest[0]
            == '>',
    ensures
        v.len() > 0 ==> link_values(seq!['h', 'r', 'e', 'f', '='] + v + rest, 0, limit).len() > 0
            && link_values(seq!['h', 'r', 'e', 'f', '='] + v + rest, 0, limit)[0] == v,
        link_values(seq!['h', 'r', 'e', 'f', '=', '"'] + v + rest, 0, limit).len() > 0
            && link_values(seq!['h', 'r', 'e', 'f', '=', '"'] + v + rest, 0, limit)[0] == v,
{
    let bare = seq!['h', 'r', 'e', 'f', '='] + v + rest;
    let quoted = seq!['h', 'r', 'e', 'f', '=', '"'] + v + rest;
    assert(bare.subrange(0, 5) =~= href_prefix());
    assert(quoted.subrange(0, 5) =~= href_prefix());
    assert(prefix_len(bare, 0) == 5);
    assert(prefix_len(quoted, 0) == 5);
    if v.len() > 0 {
        assert(bare[5] == v[0]);
        assert(value_start(bare, 0) == 5);
        assert forall|k: int| 5 <= k < 5 + v.len() as int implies !ends_link(#[trigger] bare[k]) by {
            assert(bare[k] == v[k - 5]);
        }
        if rest.len() > 0 {
            assert(bare[5 + v.len() as int] == rest[0]);
        }
        lemma_value_end_at(bare, 5, 5 + v.len() as int);
        assert(bare.subrange(5, 5 + v.len() as int) =~= v);
    }
    assert(quoted[5] == '"');
    assert(value_start(quoted, 0) == 6);
    assert forall|k: int| 6 <= k < 6 + v.len() as int implies !ends_link(#[trigger] quoted[k]) by {
        assert(quoted[k] == v[k - 6]);
    }
    if rest.len() > 0 {
        assert(quoted[6 + v.len() as int] == rest[0]);
    }
    lemma_value_end_at(quoted, 6, 6 + v.len() as int);
    assert(quoted.subrange(6, 6 + v.len() as int) =~= v);
}

fn starts_with_at(text: &Vec<char>, pos: usize, prefix: &[char]) -> (found: bool)
    requires
        pos <= text@.len(),
    ensures
        found == starts_at(text@, pos as int, prefix@),
{
    if prefix.len() > text.len() - pos {
        return false;
    }
    let mut k: usize = 0;
    while k < prefix.len()
        invariant
            pos + prefix@.len() <= text.len(),
            k <= prefix@.len(),
            forall|j: int| 0 <= j < k ==> text@[pos + j] == prefix@[j],
        decreases prefix@.len() - k,
    {
        if text[pos + k] != prefix[k] {
            assert(text@.subrange(pos as int, pos + prefix@.len())[k as int] != prefix@[k as int]);
            return false;
        }
        k += 1;
    }
    assert(text@.subrange(pos as int, pos + prefix@.len()) =~= prefix@);
    true
}

fn prefix_len_at(text: &Vec<char>, pos: usize) -> (len: usize)
    requires
        pos <= text@.len(),
    ensures
        len == prefix_len(text@, pos as int),
{
    let href: [char; 5] = ['h', 'r', 'e', 'f', '='];
    let src: [char; 4] = ['s', 'r', 'c', '='];
    let url: [char; 4] = ['u', 'r', 'l', '='];
    assert(href@ =~= href_prefix());
    assert(src@ =~= src_prefix());
    assert(url@ =~= url_prefix());
    if starts_with_at(text, pos, &href) {
        5
    } else if starts_with_at(text, pos, &src) {
        4
    } else if starts_with_at(text, pos, &url) {
        4
    } else {
        0
    }
}

/// The spans `(start, end)` of the values of at most `limit` links in `text`,
/// as `link_values` finds them.
pub fn link_spans(text: &Vec<char>, limit: usize) -> (spans: Vec<(usize, usize)>)
    ensures
        spans@.len() == link_values(text@, 0, limit as nat).len(),
        forall|i: int|
            0 <= i < spans@.len() ==> {
                &&& (#[trigger] spans@[i]).0 <= spans@[i].1 <= text@.len()
                &&& text@.subrange(spans@[i].0 as int, spans@[i].1 as int) == link_values(
                    text@,
                    0,
                    limit as nat,
                )[i]
            },
{
    let mut spans: Vec<(usize, usize)> = Vec::new();
    let mut pos: usize = 0;
    let mut left: usize = limit;
    let ghost found: Seq<Seq<char>> = Seq::empty();
    while pos < text.len() && left > 0
        invariant
            pos <= text@.len(),
            left <= limit,
            spans@.len() == found.len(),
            found.len() + left == limit,
            found + link_values(text@, pos as int, left as nat) == link_values(text@, 0, limit as nat),
            forall|i: int|
                0 <= i < spans@.len() ==> {
                    &&& (#[trigger] spans@[i]).0 <= spans@[i].1 <= text@.len()
                    &&& text@.subrange(spans@[i].0 as int, spans@[i].1 as int) == found[i]
                },
        decreases text@.len() - pos,
    {
        let plen = prefix_len_at(text, pos);
        if plen == 0 {
            pos += 1;
        } else {
            let mut start = pos + plen;
            if start < text.len() && (text[start] == '"' || text[start] == '\'') {
                start += 1;
            }
            assert(start == value_start(text@, pos as int));
            let mut end = start;
            while end < text.len() && !(text[end] == '"' || text[end] == '\'' || text[end] == ' '
                || text[end] == '<' || text[end] == '>')
                invariant
                    start <= end <= text@.len(),
                    value_end(text@, start as int) == value_end(text@, end as int),
                decreases text@.len() - end,
            {
                end += 1;
            }
            assert(end == value_end(text@, start as int));
            proof {
                let v = text@.subrange(start as int, end as int);
                assert(link_values(text@, pos as int, left as nat) == seq![v] + link_values(
                    text@,
                    end as int,
                    (left - 1) as nat,
                ));
                assert(found.push(v) + link_values(text@, end as int, (left - 1) as nat) =~= found
                    + link_values(text@, pos as int, left as nat));
                found = found.push(v);
            }
            spans.push((start, end));
            pos = end;
            left -= 1;
        }
    }
    proof {
        assert(link_values(text@, pos as int, left as nat) == Seq::<Seq<char>>::empty());
        assert(found =~= found + link_values(text@, pos as int, left as nat));
    }
    spans
}

} // verus!
