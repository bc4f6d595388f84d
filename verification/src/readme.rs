//! Turning a repository README into the short description shown on a store
//! card: the prose lines of the README, joined by spaces and cut to at most
//! 180 bytes.

use vstd::prelude::*;

verus! {

/// Whitespace in Unicode's `White_Space` property, the set that
/// `char::is_whitespace` tests and that `str::trim` removes.
pub open spec fn is_white(c: char) -> bool {
    let u = c as u32;
    ||| 0x9 <= u && u <= 0xd
    ||| u == 0x20
    ||| u == 0x85
    ||| u == 0xa0
    ||| u == 0x1680
    ||| 0x2000 <= u && u <= 0x200a
    ||| u == 0x2028
    ||| u == 0x2029
    ||| u == 0x202f
    ||| u == 0x205f
    ||| u == 0x3000
}

/// The text without its leading whitespace.
pub open spec fn trim_start(s: Seq<char>) -> Seq<char>
    decreases s.len(),
{
    if s.len() > 0 && is_white(s[0]) {
        trim_start(s.drop_first())
    } else {
        s
    }
}

/// The text without its trailing whitespace.
pub open spec fn trim_end(s: Seq<char>) -> Seq<char>
    decreases s.len(),
{
    if s.len() > 0 && is_white(s.last()) {
        trim_end(s.drop_last())
    } else {
        s
    }
}

/// The text without leading and trailing whitespace.
pub open spec fn trim(s: Seq<char>) -> Seq<char> {
    trim_end(trim_start(s))
}

/// The pieces of a text between its line feeds, in order; a text with `n`
/// line feeds has `n + 1` pieces. (Where a line ends in a carriage return,
/// the return stays in the piece; trimming removes it.)
pub open spec fn split_lines(s: Seq<char>) -> Seq<Seq<char>>
    decreases s.len(),
{
    if s.len() == 0 {
        seq![Seq::<char>::empty()]
    } else {
        let prev = split_lines(s.drop_last());
        if s.last() == '\n' {
            prev.push(Seq::<char>::empty())
        } else {
            prev.update(prev.len() - 1, prev.last().push(s.last()))
        }
    }
}

/// A trimmed line counts as prose unless it is empty or starts with `#`
/// (a heading), `[` (a link or badge), `<` (markup), `!` (an image) or
/// three backticks (a code fence).
pub open spec fn is_prose_line(l: Seq<char>) -> bool {
    &&& l.len() > 0
    &&& l[0] != '#'
    &&& l[0] != '['
    &&& l[0] != '<'
    &&& l[0] != '!'
    &&& !(l.len() >= 3 && l[0] == '`' && l[1] == '`' && l[2] == '`')
}

/// The trimmed lines that are prose, in order.
pub open spec fn kept_prose(ls: Seq<Seq<char>>) -> Seq<Seq<char>> {
    ls.map_values(|l: Seq<char>| trim(l)).filter(|l: Seq<char>| is_prose_line(l))
}

/// The trimmed prose lines of a text, in order.
pub open spec fn prose_lines(s: Seq<char>) -> Seq<Seq<char>> {
    kept_prose(split_lines(s))
}

/// The lines joined with one space between each two.
pub open spec fn join_spaced(ls: Seq<Seq<char>>) -> Seq<char>
    decreases ls.len(),
{
    if ls.len() == 0 {
        Seq::<char>::empty()
    } else if ls.len() == 1 {
        ls[0]
    } else {
        join_spaced(ls.drop_last()) + seq![' '] + ls.last()
    }
}

/// The prose of a README on one line.
pub open spec fn readme_prose(s: Seq<char>) -> Seq<char> {
    join_spaced(prose_lines(s))
}

/// The number of bytes of a character in UTF-8.
pub open spec fn utf8_width(c: char) -> nat {
    let u = c as u32;
    if u < 0x80 {
        1
    } else if u < 0x800 {
        2
    } else if u < 0x10000 {
        3
    } else {
        4
    }
}

/// The number of bytes of a text in UTF-8.
pub open spec fn utf8_len(s: Seq<char>) -> nat
    decreases s.len(),
{
    if s.len() == 0 {
        0
    } else {
        utf8_len(s.drop_last()) + utf8_width(s.last())
    }
}

/// The longest a description may be, in bytes.
pub const SUMMARY_LIMIT: usize = 180;

/// Where a description that is too long is cut, in bytes; three dots follow.
pub const SUMMARY_CUT: usize = 177;

/// The summary of a README exists: its prose fits in the limit, or a
/// character boundary lies exactly at the cut. (Elsewhere cutting the text
/// would split a character.)
pub open spec fn summary_exists(s: Seq<char>) -> bool {
    let p = readme_prose(s);
    ||| utf8_len(p) <= SUMMARY_LIMIT
    ||| exists|k: int| 0 <= k <= p.len() && utf8_len(#[trigger] p.take(k)) == SUMMARY_CUT
}

/// The summary of a README: its prose where that fits in 180 bytes, else
/// the first 177 bytes of it followed by `...`.
pub open spec fn readme_summary(s: Seq<char>) -> Seq<char> {
    let p = readme_prose(s);
    if utf8_len(p) <= SUMMARY_LIMIT {
        p
    } else {
        let k = choose|k: int| 0 <= k <= p.len() && utf8_len(#[trigger] p.take(k)) == SUMMARY_CUT;
        p.take(k) + seq!['.', '.', '.']
    }
}

pub fn is_white_char(c: char) -> (res: bool)
    ensures
        res == is_white(c),
{
    let u = c as u32;
    (0x9 <= u && u <= 0xd) || u == 0x20 || u == 0x85 || u == 0xa0 || u == 0x1680 || (0x2000 <= u
        && u <= 0x200a) || u == 0x2028 || u == 0x2029 || u == 0x202f || u == 0x205f || u == 0x3000
}

fn utf8_width_of(c: char) -> (res: usize)
    ensures
        res == utf8_width(c),
        1 <= res <= 4,
{
    let u = c as u32;
    if u < 0x80 {
        1
    } else if u < 0x800 {
        2
    } else if u < 0x10000 {
        3
    } else {
        4
    }
}

proof fn lemma_split_lines_nonempty(s: Seq<char>)
    ensures
        split_lines(s).len() >= 1,
    decreases s.len(),
{
    if s.len() > 0 {
        lemma_split_lines_nonempty(s.drop_last());
    }
}

proof fn lemma_utf8_len_step(s: Seq<char>, j: int)
    requires
        0 <= j < s.len(),
    ensures
        utf8_len(s.take(j + 1)) == utf8_len(s.take(j)) + utf8_width(s[j]),
{
    assert(s.take(j + 1).drop_last() =~= s.take(j));
}

/// The byte length of a prefix grows strictly with the prefix.
proof fn lemma_utf8_len_strict(s: Seq<char>, i: int, j: int)
    requires
        0 <= i < j <= s.len(),
    ensures
        utf8_len(s.take(i)) < utf8_len(s.take(j)),
    decreases j - i,
{
    lemma_utf8_len_step(s, j - 1);
    if i < j - 1 {
        lemma_utf8_len_strict(s, i, j - 1);
    }
}

proof fn lemma_utf8_len_mono(s: Seq<char>, i: int, j: int)
    requires
        0 <= i <= j <= s.len(),
    ensures
        utf8_len(s.take(i)) <= utf8_len(s.take(j)),
{
    if i < j {
        lemma_utf8_len_strict(s, i, j);
    }
}

proof fn lemma_utf8_len_concat(a: Seq<char>, b: Seq<char>)
    ensures
        utf8_len(a + b) == utf8_len(a) + utf8_len(b),
    decreases b.len(),
{
    if b.len() > 0 {
        assert((a + b).drop_last() =~= a + b.drop_last());
        lemma_utf8_len_concat(a, b.drop_last());
    } else {
        assert(a + b =~= a);
    }
}

/// The trimmed part of `cs[from..to]`, as a range of positions.
fn trim_range(cs: &Vec<char>, from: usize, to: usize) -> (res: (usize, usize))
    requires
        from <= to <= cs.len(),
    ensures
        from <= res.0 <= res.1 <= to,
        cs@.subrange(res.0 as int, res.1 as int) == trim(cs@.subrange(from as int, to as int)),
{
    let mut i = from;
    while i < to && is_white_char(cs[i])
        invariant
            from <= i <= to <= cs.len(),
            trim_start(cs@.subrange(from as int, to as int)) == trim_start(
                cs@.subrange(i as int, to as int),
            ),
        decreases to - i,
    {
        assert(cs@.subrange(i as int, to as int).drop_first() =~= cs@.subrange(
            i + 1,
            to as int,
        ));
        i = i + 1;
    }
    assert(trim_start(cs@.subrange(from as int, to as int)) == cs@.subrange(i as int, to as int));
    let mut j = to;
    while j > i && is_white_char(cs[j - 1])
        invariant
            from <= i <= j <= to <= cs.len(),
            trim_end(cs@.subrange(i as int, to as int)) == trim_end(
                cs@.subrange(i as int, j as int),
            ),
        decreases j - i,
    {
        assert(cs@.subrange(i as int, j as int).drop_last() =~= cs@.subrange(
            i as int,
            j - 1,
        ));
        j = j - 1;
    }
    (i, j)
}

/// Whether `cs[from..to]` is a prose line.
fn is_prose_range(cs: &Vec<char>, from: usize, to: usize) -> (res: bool)
    requires
        from <= to <= cs.len(),
    ensures
        res == is_prose_line(cs@.subrange(from as int, to as int)),
{
    if from == to {
        return false;
    }
    let c = cs[from];
    if c == '#' || c == '[' || c == '<' || c == '!' {
        return false;
    }
    if to - from >= 3 && c == '`' && cs[from + 1] == '`' && cs[from + 2] == '`' {
        return false;
    }
    true
}

/// Appends `cs[from..to]` to `out`.
fn push_range(out: &mut Vec<char>, cs: &Vec<char>, from: usize, to: usize)
    requires
        from <= to <= cs.len(),
    ensures
        final(out)@ == old(out)@ + cs@.subrange(from as int, to as int),
{
    let mut k = from;
    while k < to
        invariant
            from <= k <= to <= cs.len(),
            out@ == old(out)@ + cs@.subrange(from as int, k as int),
        decreases to - k,
    {
        out.push(cs[k]);
        assert(cs@.subrange(from as int, k + 1) =~= cs@.subrange(from as int, k as int).push(
            cs@[k as int],
        ));
        k = k + 1;
    }
}

/// Adds the line `cs[from..to]` to the joined prose in `out`, where it is
/// prose once trimmed.
fn emit_line(
    out: &mut Vec<char>,
    cs: &Vec<char>,
    from: usize,
    to: usize,
    Ghost(kept): Ghost<Seq<Seq<char>>>,
) -> (added: bool)
    requires
        from <= to <= cs.len(),
        old(out)@ == join_spaced(kept),
        old(out)@.len() == 0 <==> kept.len() == 0,
        forall|i: int| 0 <= i < kept.len() ==> #[trigger] kept[i].len() > 0,
    ensures
        added == is_prose_line(trim(cs@.subrange(from as int, to as int))),
        added ==> final(out)@ == join_spaced(kept.push(trim(cs@.subrange(from as int, to as int)))),
        !added ==> final(out)@ == old(out)@,
{
    let (a, b) = trim_range(cs, from, to);
    if !is_prose_range(cs, a, b) {
        return false;
    }
    let ghost line = cs@.subrange(a as int, b as int);
    let ghost kept2 = kept.push(line);
    assert(kept2.drop_last() =~= kept);
    if out.len() > 0 {
        out.push(' ');
    } else {
        assert(kept2.len() == 1);
    }
    push_range(out, cs, a, b);
    true
}

proof fn lemma_prose_push(done: Seq<Seq<char>>, l: Seq<char>)
    ensures
        kept_prose(done.push(l)) == if is_prose_line(trim(l)) {
            kept_prose(done).push(trim(l))
        } else {
            kept_prose(done)
        },
{
    let m = done.push(l).map_values(|x: Seq<char>| trim(x));
    assert(m.drop_last() =~= done.map_values(|x: Seq<char>| trim(x)));
    assert(m.last() == trim(l));
    reveal(Seq::filter);
}

proof fn lemma_prose_all_nonempty(ls: Seq<Seq<char>>)
    ensures
        forall|i: int| 0 <= i < kept_prose(ls).len() ==> #[trigger] kept_prose(ls)[i].len() > 0,
{
    let m = ls.map_values(|l: Seq<char>| trim(l));
    assert forall|i: int| 0 <= i < kept_prose(ls).len() implies #[trigger] kept_prose(ls)[i].len()
        > 0 by {
        m.lemma_filter_pred(|x: Seq<char>| is_prose_line(x), i);
    }
}

proof fn lemma_join_empty(ls: Seq<Seq<char>>)
    requires
        forall|i: int| 0 <= i < ls.len() ==> #[trigger] ls[i].len() > 0,
    ensures
        join_spaced(ls).len() == 0 <==> ls.len() == 0,
    decreases ls.len(),
{
    if ls.len() > 1 {
        lemma_join_empty(ls.drop_last());
    }
}

/// The characters of a text, in order.
pub fn chars_of(s: &str) -> (res: Vec<char>)
    ensures
        res@ == s@,
{
    let mut res: Vec<char> = Vec::new();
    for c in it: s.chars()
        invariant
            res@ == it.seq().take(it.index() as int),
    {
        res.push(c);
    }
    res
}

/// The prose of a README on one line, as characters.
fn prose_of(cs: &Vec<char>) -> (res: Vec<char>)
    ensures
        res@ == join_spaced(prose_lines(cs@)),
{
    let n = cs.len();
    let mut out: Vec<char> = Vec::new();
    let mut line_start: usize = 0;
    let mut i: usize = 0;
    let ghost mut done: Seq<Seq<char>> = Seq::empty();
    assert(cs@.take(0) =~= Seq::<char>::empty());
    assert(split_lines(cs@.take(0)) =~= done.push(cs@.subrange(0, 0)));
    while i < n
        invariant
            n == cs.len(),
            line_start <= i <= n,
            split_lines(cs@.take(i as int)) == done.push(cs@.subrange(line_start as int, i as int)),
            out@ == join_spaced(kept_prose(done)),
        decreases n - i,
    {
        let ghost kept = kept_prose(done);
        proof {
            lemma_prose_all_nonempty(done);
            lemma_join_empty(kept);
        }
        let ghost prev = split_lines(cs@.take(i as int));
        assert(cs@.take(i + 1).drop_last() =~= cs@.take(i as int));
        assert(cs@.take(i + 1).last() == cs@[i as int]);
        if cs[i] == '\n' {
            let ghost line = cs@.subrange(line_start as int, i as int);
            emit_line(&mut out, cs, line_start, i, Ghost(kept));
            proof {
                lemma_prose_push(done, line);
                done = done.push(line);
                assert(cs@.subrange(i + 1, i + 1) =~= Seq::<char>::empty());
            }
            line_start = i + 1;
        } else {
            proof {
                assert(prev.last() == cs@.subrange(line_start as int, i as int));
                assert(cs@.subrange(line_start as int, i as int).push(cs@[i as int])
                    =~= cs@.subrange(line_start as int, i + 1));
                assert(prev.update(prev.len() - 1, prev.last().push(cs@[i as int])) =~= done.push(
                    cs@.subrange(line_start as int, i + 1),
                ));
            }
        }
        i = i + 1;
    }
    let ghost kept = kept_prose(done);
    proof {
        lemma_prose_all_nonempty(done);
        lemma_join_empty(kept);
        lemma_prose_push(done, cs@.subrange(line_start as int, n as int));
        assert(cs@.take(n as int) =~= cs@);
    }
    emit_line(&mut out, cs, line_start, n, Ghost(kept));
    out
}

/// `String::push` from std: appends one character to the string.
#[verifier::external_body]
pub(crate) fn push_char(s: &mut String, c: char)
    ensures
        final(s)@ == old(s)@.push(c),
{
    s.push(c);
}

/// The string of the characters `cs[..to]`.
fn string_of_prefix(cs: &Vec<char>, to: usize) -> (res: String)
    requires
        to <= cs.len(),
    ensures
        res@ == cs@.take(to as int),
{
    let mut res = String::new();
    let mut k: usize = 0;
    while k < to
        invariant
            k <= to <= cs.len(),
            res@ == cs@.take(k as int),
        decreases to - k,
    {
        push_char(&mut res, cs[k]);
        assert(cs@.take(k + 1) =~= cs@.take(k as int).push(cs@[k as int]));
        k = k + 1;
    }
    res
}

/// The summary of a README, or `None` where it does not exist because
/// cutting the prose at 177 bytes would split a character.
pub fn summarize_readme(readme: &str) -> (res: Option<String>)
    ensures
        res is Some <==> summary_exists(readme@),
        res matches Some(t) ==> t@ == readme_summary(readme@),
{
    let cs = chars_of(readme);
    let prose = prose_of(&cs);
    let ghost p = prose@;
    let len = prose.len();
    let mut j: usize = 0;
    let mut acc: usize = 0;
    let mut cut: Option<usize> = None;
    assert(p.take(0) =~= Seq::<char>::empty());
    while j < len && acc <= SUMMARY_LIMIT
        invariant
            len == p.len(),
            prose@ == p,
            j <= len,
            acc == utf8_len(p.take(j as int)),
            acc <= SUMMARY_LIMIT + 4,
            cut matches Some(k) ==> k <= j && utf8_len(p.take(k as int)) == SUMMARY_CUT,
            cut is None ==> forall|k: int| 0 <= k < j ==> utf8_len(#[trigger] p.take(k))
                != SUMMARY_CUT,
        decreases len - j,
    {
        if acc == SUMMARY_CUT {
            cut = Some(j);
        }
        proof {
            lemma_utf8_len_step(p, j as int);
        }
        acc = acc + utf8_width_of(prose[j]);
        j = j + 1;
    }
    if acc <= SUMMARY_LIMIT {
        assert(p.take(len as int) =~= p);
        return Some(string_of_prefix(&prose, len));
    }
    proof {
        lemma_utf8_len_mono(p, j as int, p.len() as int);
        assert(p.take(p.len() as int) =~= p);
    }
    match cut {
        Some(k) => {
            proof {
                assert forall|k2: int|
                    0 <= k2 <= p.len() && utf8_len(#[trigger] p.take(k2)) == SUMMARY_CUT implies k2
                    == k by {
                    if k2 < k {
                        lemma_utf8_len_strict(p, k2, k as int);
                    } else if k < k2 {
                        lemma_utf8_len_strict(p, k as int, k2);
                    }
                }
            }
            let mut res = string_of_prefix(&prose, k);
            res.append("...");
            proof {
                reveal_strlit("...");
                assert("..."@ =~= seq!['.', '.', '.']);
            }
            Some(res)
        },
        None => {
            proof {
                assert forall|k2: int| 0 <= k2 <= p.len() implies utf8_len(#[trigger] p.take(k2))
                    != SUMMARY_CUT by {
                    if k2 >= j {
                        lemma_utf8_len_mono(p, j as int, k2);
                    }
                }
            }
            None
        },
    }
}

/// The description of a README: its prose lines (trimmed, without
/// headings, links, markup, images and code fences) joined by spaces, cut
/// to 177 bytes followed by `...` where it is longer than 180 bytes.
pub fn clean_readme(readme: &str) -> (res: String)
    requires
        summary_exists(readme@),
    ensures
        res@ == readme_summary(readme@),
{
    match summarize_readme(readme) {
        Some(t) => t,
        None => String::new(),
    }
}

/// Text made of characters of one byte each takes as many bytes as it has
/// characters.
proof fn lemma_utf8_len_ascii(s: Seq<char>)
    requires
        forall|i: int| 0 <= i < s.len() ==> (#[trigger] s[i] as u32) < 0x80,
    ensures
        utf8_len(s) == s.len(),
    decreases s.len(),
{
    if s.len() > 0 {
        assert((s.last() as u32) < 0x80);
        lemma_utf8_len_ascii(s.drop_last());
    }
}

/// No character takes more than four bytes.
proof fn lemma_utf8_len_bound(s: Seq<char>)
    ensures
        utf8_len(s) <= 4 * s.len(),
    decreases s.len(),
{
    if s.len() > 0 {
        lemma_utf8_len_bound(s.drop_last());
    }
}

/// A description is never longer than 180 bytes.
pub proof fn law_summary_fits(readme: Seq<char>)
    requires
        summary_exists(readme),
    ensures
        utf8_len(readme_summary(readme)) <= SUMMARY_LIMIT,
{
    let p = readme_prose(readme);
    if utf8_len(p) > SUMMARY_LIMIT {
        let k = choose|k: int| 0 <= k <= p.len() && utf8_len(#[trigger] p.take(k)) == SUMMARY_CUT;
        let dots = seq!['.', '.', '.'];
        lemma_utf8_len_concat(p.take(k), dots);
        lemma_utf8_len_ascii(dots);
    }
}

/// The text holds no line feed.
pub open spec fn single_line(s: Seq<char>) -> bool {
    forall|i: int| 0 <= i < s.len() ==> s[i] != '\n'
}

/// The text is empty, or is one line that trimming leaves as it is and
/// that counts as prose.
pub open spec fn clean_line(s: Seq<char>) -> bool {
    s.len() == 0 || (single_line(s) && !is_white(s[0]) && !is_white(s.last()) && is_prose_line(s))
}

proof fn lemma_split_lines_single(s: Seq<char>)
    ensures
        forall|j: int| 0 <= j < split_lines(s).len() ==> single_line(#[trigger] split_lines(s)[j]),
        single_line(s) ==> split_lines(s) == seq![s],
    decreases s.len(),
{
    lemma_split_lines_nonempty(s);
    if s.len() > 0 {
        let prev = split_lines(s.drop_last());
        lemma_split_lines_single(s.drop_last());
        lemma_split_lines_nonempty(s.drop_last());
        if s.last() == '\n' {
            assert forall|j: int| 0 <= j < split_lines(s).len() implies single_line(
                #[trigger] split_lines(s)[j],
            ) by {
                if j < prev.len() {
                    assert(split_lines(s)[j] == prev[j]);
                }
            }
        } else {
            assert forall|j: int| 0 <= j < split_lines(s).len() implies single_line(
                #[trigger] split_lines(s)[j],
            ) by {
                if j < prev.len() - 1 {
                    assert(split_lines(s)[j] == prev[j]);
                } else {
                    assert(single_line(prev[prev.len() - 1]));
                    assert(split_lines(s)[j] == prev.last().push(s.last()));
                }
            }
            if single_line(s) {
                assert(single_line(s.drop_last()));
                assert(prev == seq![s.drop_last()]);
                assert(s.drop_last().push(s.last()) =~= s);
                assert(split_lines(s) =~= seq![s]);
            }
        }
        if single_line(s) {
            assert(s[s.len() - 1] != '\n');
        }
    } else {
        assert(s =~= Seq::<char>::empty());
    }
}

proof fn lemma_trim_start_shape(s: Seq<char>)
    ensures
        trim_start(s) == s.subrange(s.len() - trim_start(s).len(), s.len() as int),
        trim_start(s).len() <= s.len(),
        trim_start(s).len() > 0 ==> !is_white(trim_start(s)[0]),
    decreases s.len(),
{
    if s.len() > 0 && is_white(s[0]) {
        lemma_trim_start_shape(s.drop_first());
        assert(s.drop_first().subrange(
            s.drop_first().len() - trim_start(s).len(),
            s.drop_first().len() as int,
        ) =~= s.subrange(s.len() - trim_start(s).len(), s.len() as int));
    } else {
        assert(s.subrange(0, s.len() as int) =~= s);
    }
}

proof fn lemma_trim_end_shape(s: Seq<char>)
    ensures
        trim_end(s) == s.take(trim_end(s).len() as int),
        trim_end(s).len() <= s.len(),
        trim_end(s).len() > 0 ==> !is_white(trim_end(s).last()),
    decreases s.len(),
{
    if s.len() > 0 && is_white(s.last()) {
        lemma_trim_end_shape(s.drop_last());
        assert(s.drop_last().take(trim_end(s).len() as int) =~= s.take(trim_end(s).len() as int));
    } else {
        assert(s.take(s.len() as int) =~= s);
    }
}

/// A trimmed piece of one line is one line that starts and ends with
/// a character other than whitespace.
proof fn lemma_trim_shape(l: Seq<char>)
    requires
        single_line(l),
    ensures
        single_line(trim(l)),
        trim(l).len() > 0 ==> !is_white(trim(l)[0]) && !is_white(trim(l).last()),
{
    let t = trim_start(l);
    lemma_trim_start_shape(l);
    lemma_trim_end_shape(t);
    let u = trim_end(t);
    assert forall|i: int| 0 <= i < u.len() implies u[i] != '\n' by {
        assert(u[i] == t[i]);
        assert(t[i] == l[l.len() - t.len() + i]);
    }
    if u.len() > 0 {
        assert(u[0] == t[0]);
    }
}

proof fn lemma_trim_unchanged(r: Seq<char>)
    requires
        r.len() == 0 || (!is_white(r[0]) && !is_white(r.last())),
    ensures
        trim(r) == r,
{
}

proof fn lemma_kept_clean(ls: Seq<Seq<char>>)
    requires
        forall|j: int| 0 <= j < ls.len() ==> single_line(#[trigger] ls[j]),
    ensures
        forall|i: int|
            0 <= i < kept_prose(ls).len() ==> clean_line(#[trigger] kept_prose(ls)[i])
                && kept_prose(ls)[i].len() > 0,
    decreases ls.len(),
{
    if ls.len() == 0 {
        assert(kept_prose(ls) =~= Seq::<Seq<char>>::empty()) by {
            reveal(Seq::filter);
            assert(ls.map_values(|l: Seq<char>| trim(l)) =~= Seq::<Seq<char>>::empty());
        }
    } else {
        let done = ls.drop_last();
        lemma_kept_clean(done);
        lemma_prose_push(done, ls.last());
        assert(done.push(ls.last()) =~= ls);
        assert(single_line(ls[ls.len() - 1]));
        lemma_trim_shape(ls.last());
    }
}

/// What joining clean lines gives: one line, which starts with the first
/// line, followed by a space where more lines follow, and ends with the
/// last character of the last line.
proof fn lemma_join_shape(ls: Seq<Seq<char>>)
    requires
        ls.len() > 0,
        forall|i: int| 0 <= i < ls.len() ==> #[trigger] ls[i].len() > 0 && single_line(ls[i]),
    ensures
        single_line(join_spaced(ls)),
        join_spaced(ls).len() >= ls[0].len(),
        join_spaced(ls).take(ls[0].len() as int) == ls[0],
        join_spaced(ls).last() == ls.last().last(),
        ls.len() > 1 ==> join_spaced(ls).len() > ls[0].len() && join_spaced(ls)[ls[0].len() as int]
            == ' ',
    decreases ls.len(),
{
    let j = join_spaced(ls);
    if ls.len() == 1 {
        assert(j.take(ls[0].len() as int) =~= ls[0]);
    } else {
        let rest = ls.drop_last();
        lemma_join_shape(rest);
        let jr = join_spaced(rest);
        assert(rest[0] == ls[0]);
        assert(j == jr + seq![' '] + ls.last());
        assert(single_line(ls[ls.len() - 1]));
        assert forall|i: int| 0 <= i < j.len() implies j[i] != '\n' by {
            if i < jr.len() {
                assert(j[i] == jr[i]);
            } else if i > jr.len() {
                assert(j[i] == ls.last()[i - jr.len() - 1]);
            }
        }
        assert(j.take(ls[0].len() as int) =~= jr.take(ls[0].len() as int));
        if rest.len() == 1 {
            assert(jr == ls[0]);
        }
        assert(j[ls[0].len() as int] == ' ') by {
            if rest.len() > 1 {
                assert(j[ls[0].len() as int] == jr[ls[0].len() as int]);
            }
        }
    }
}

/// The prose of a clean line is the line itself.
proof fn lemma_prose_of_clean(r: Seq<char>)
    requires
        clean_line(r),
    ensures
        readme_prose(r) == r,
{
    let none = Seq::<Seq<char>>::empty();
    lemma_split_lines_single(r);
    lemma_trim_unchanged(r);
    lemma_prose_push(none, r);
    assert(none.push(r) =~= seq![r]);
    assert(kept_prose(none) =~= none) by {
        reveal(Seq::filter);
        assert(none.map_values(|l: Seq<char>| trim(l)) =~= none);
    }
}

/// The prose of any README is a clean line.
proof fn lemma_prose_clean(readme: Seq<char>)
    ensures
        clean_line(readme_prose(readme)),
{
    let ls = split_lines(readme);
    lemma_split_lines_single(readme);
    lemma_kept_clean(ls);
    let kept = prose_lines(readme);
    let p = readme_prose(readme);
    if kept.len() > 0 {
        lemma_join_shape(kept);
        let first = kept[0];
        assert(clean_line(first) && first.len() > 0);
        assert(p[0] == first[0]) by {
            assert(p.take(first.len() as int)[0] == p[0]);
        }
        assert(clean_line(kept[kept.len() - 1]));
        assert(!(p.len() >= 3 && p[0] == '`' && p[1] == '`' && p[2] == '`')) by {
            if p.len() >= 3 && p[0] == '`' && p[1] == '`' && p[2] == '`' {
                if first.len() >= 3 {
                    assert(first[1] == p.take(first.len() as int)[1]);
                    assert(first[2] == p.take(first.len() as int)[2]);
                } else if kept.len() > 1 {
                    assert(p[first.len() as int] == ' ');
                } else {
                    assert(p == first);
                }
            }
        }
    } else {
        assert(p.len() == 0);
    }
}

/// A text followed by a line feed and one more line has the lines of the
/// text, then that line.
proof fn lemma_split_lines_append(a: Seq<char>, l: Seq<char>)
    requires
        single_line(l),
    ensures
        split_lines(a + seq!['\n'] + l) == split_lines(a).push(l),
    decreases l.len(),
{
    let s = a + seq!['\n'] + l;
    if l.len() == 0 {
        assert(l =~= Seq::<char>::empty());
        assert(s =~= a.push('\n'));
        assert(s.drop_last() =~= a);
        assert(s.last() == '\n');
    } else {
        lemma_split_lines_append(a, l.drop_last());
        assert(s.drop_last() =~= a + seq!['\n'] + l.drop_last());
        assert(s.last() == l.last());
        assert(l[l.len() - 1] != '\n');
        assert(s.last() != '\n');
        let prev = split_lines(s.drop_last());
        assert(prev == split_lines(a).push(l.drop_last()));
        assert(prev.last() == l.drop_last());
        assert(l.drop_last().push(l.last()) =~= l);
        assert(split_lines(a).push(l.drop_last()).update(
            split_lines(a).len() as int,
            l.drop_last().push(l.last()),
        ) =~= split_lines(a).push(l));
    }
}

/// A line of prose is kept in the description: where a README goes on
/// with one more line that, with no line feed in it, starts and ends with a
/// character other than whitespace, does not start with `#`, `[`, `<` or
/// `!`, and does not start with three backticks, the prose of the README
/// is the prose before that line, then a space (where there was prose
/// before), then the line as it is. A line that starts with one or two
/// backticks is kept too.
pub proof fn law_prose_line_kept(before: Seq<char>, line: Seq<char>)
    requires
        line.len() > 0,
        forall|i: int| 0 <= i < line.len() ==> line[i] != '\n',
        !is_white(line[0]),
        !is_white(line.last()),
        line[0] != '#' && line[0] != '[' && line[0] != '<' && line[0] != '!',
        !(line.len() >= 3 && line[0] == '`' && line[1] == '`' && line[2] == '`'),
    ensures
        readme_prose(before + seq!['\n'] + line) == if readme_prose(before).len() == 0 {
            line
        } else {
            readme_prose(before) + seq![' '] + line
        },
{
    let ls = split_lines(before);
    lemma_split_lines_append(before, line);
    lemma_trim_unchanged(line);
    lemma_prose_push(ls, line);
    let kept = kept_prose(ls);
    lemma_prose_all_nonempty(ls);
    lemma_join_empty(kept);
    let k2 = kept.push(line);
    assert(k2.drop_last() =~= kept);
    if kept.len() == 0 {
        assert(k2.len() == 1 && k2[0] == line);
    }
}

proof fn lemma_trim_all_white(l: Seq<char>)
    requires
        forall|i: int| 0 <= i < l.len() ==> is_white(#[trigger] l[i]),
    ensures
        trim(l).len() == 0,
{
    lemma_trim_start_shape(l);
    let t = trim_start(l);
    if t.len() > 0 {
        assert(t[0] == l[l.len() - t.len()]);
    }
}

/// A line that is not prose is left out of the description: where a
/// README goes on with one more line that, with no line feed in it, is
/// blank, or whose trimmed text starts with `#`, `[`, `<`, `!` or three
/// backticks, the prose of the README is the prose before that line.
pub proof fn law_other_line_dropped(before: Seq<char>, line: Seq<char>)
    requires
        forall|i: int| 0 <= i < line.len() ==> line[i] != '\n',
        (forall|i: int| 0 <= i < line.len() ==> is_white(#[trigger] line[i])) || (line.len() > 0
            && !is_white(line[0]) && !is_white(line.last()) && (line[0] == '#' || line[0] == '['
            || line[0] == '<' || line[0] == '!' || (line.len() >= 3 && line[0] == '`' && line[1]
            == '`' && line[2] == '`'))),
    ensures
        readme_prose(before + seq!['\n'] + line) == readme_prose(before),
{
    let ls = split_lines(before);
    lemma_split_lines_append(before, line);
    lemma_prose_push(ls, line);
    if forall|i: int| 0 <= i < line.len() ==> is_white(#[trigger] line[i]) {
        lemma_trim_all_white(line);
    } else {
        lemma_trim_unchanged(line);
    }
}

/// Cleaning a description that was cleaned already gives it back
/// unchanged: the description of a README is empty or one trimmed prose
/// line of at most 180 bytes, which is its own description.
pub proof fn law_summary_idempotent(readme: Seq<char>)
    requires
        summary_exists(readme),
    ensures
        summary_exists(readme_summary(readme)),
        readme_summary(readme_summary(readme)) == readme_summary(readme),
{
    let p = readme_prose(readme);
    let r = readme_summary(readme);
    lemma_prose_clean(readme);
    law_summary_fits(readme);
    if utf8_len(p) > SUMMARY_LIMIT {
        let k = choose|k: int| 0 <= k <= p.len() && utf8_len(#[trigger] p.take(k)) == SUMMARY_CUT;
        let head = p.take(k);
        lemma_utf8_len_bound(head);
        assert(k >= 45);
        let dots = seq!['.', '.', '.'];
        assert(r == head + dots);
        assert(r[0] == p[0] && r[1] == p[1] && r[2] == p[2]);
        assert(r.last() == '.');
        assert(single_line(r)) by {
            assert forall|i: int| 0 <= i < r.len() implies r[i] != '\n' by {
                if i < k {
                    assert(r[i] == p[i]);
                }
            }
        }
        assert(clean_line(r));
    }
    lemma_prose_of_clean(r);
}

} // verus!
