//! The commands a user types at a running peer: `exit`, `flood <text>`.

use vstd::prelude::*;

verus! {

/// The characters with the Unicode `White_Space` property, which is what
/// `char::is_whitespace` tests.
pub open spec fn is_white_space(c: char) -> bool {
    let v = c as u32;
    ||| 0x9 <= v <= 0xd
    ||| v == 0x20
    ||| v == 0x85
    ||| v == 0xa0
    ||| v == 0x1680
    ||| 0x2000 <= v <= 0x200a
    ||| v == 0x2028
    ||| v == 0x2029
    ||| v == 0x202f
    ||| v == 0x205f
    ||| v == 0x3000
}

/// How many white-space characters `s` starts with.
pub open spec fn leading_white(s: Seq<char>) -> nat
    decreases s.len(),
{
    if s.len() == 0 || !is_white_space(s[0]) {
        0
    } else {
        1 + leading_white(s.drop_first())
    }
}

/// How many white-space characters `s` ends with.
pub open spec fn trailing_white(s: Seq<char>) -> nat
    decreases s.len(),
{
    if s.len() == 0 || !is_white_space(s.last()) {
        0
    } else {
        1 + trailing_white(s.drop_last())
    }
}

/// `s` without leading and trailing white space (as `str::trim`).
pub open spec fn trim(s: Seq<char>) -> Seq<char> {
    let start = s.skip(leading_white(s) as int);
    start.take(start.len() - trailing_white(start))
}

/// How many characters `s` has before its first space.
pub open spec fn word_len(s: Seq<char>) -> nat
    decreases s.len(),
{
    if s.len() == 0 || s[0] == ' ' {
        0
    } else {
        1 + word_len(s.drop_first())
    }
}

/// The command word of a line: the trimmed line up to its first space.
pub open spec fn command_word(line: Seq<char>) -> Seq<char> {
    trim(line).take(word_len(trim(line)) as int)
}

/// The argument of a line: what follows the command word, trimmed.
pub open spec fn command_argument(line: Seq<char>) -> Seq<char> {
    trim(trim(line).skip(word_len(trim(line)) as int))
}

/// A command typed at a peer.
#[derive(Debug)]
pub enum Command {
    /// Leave the command loop.
    Exit,
    /// Spread the text to every connection.
    Flood(Vec<char>),
    /// Any other command word.
    Unknown(Vec<char>),
}

/// Whether `c` has the Unicode `White_Space` property.
pub fn white_space(c: char) -> (b: bool)
    ensures
        b == is_white_space(c),
{
    let v = c as u32;
    (0x9 <= v && v <= 0xd) || v == 0x20 || v == 0x85 || v == 0xa0 || v == 0x1680 || (0x2000 <= v
        && v <= 0x200a) || v == 0x2028 || v == 0x2029 || v == 0x202f || v == 0x205f || v == 0x3000
}

proof fn lemma_leading_white(s: Seq<char>, i: int)
    requires
        0 <= i <= s.len(),
        forall|k: int| 0 <= k < i ==> is_white_space(#[trigger] s[k]),
        i == s.len() || !is_white_space(s[i]),
    ensures
        leading_white(s) == i,
    decreases i,
{
    if i > 0 {
        lemma_leading_white(s.drop_first(), i - 1);
    }
}

proof fn lemma_trailing_white(s: Seq<char>, i: int)
    requires
        0 <= i <= s.len(),
        forall|k: int| s.len() - i <= k < s.len() ==> is_white_space(#[trigger] s[k]),
        i == s.len() || !is_white_space(s[s.len() - i - 1]),
    ensures
        trailing_white(s) == i,
    decreases i,
{
    if i > 0 {
        let t = s.drop_last();
        assert forall|k: int| t.len() - (i - 1) <= k < t.len() implies is_white_space(#[trigger] t[k]) by {
            assert(t[k] == s[k]);
        }
        if i - 1 < t.len() {
            assert(t[t.len() - (i - 1) - 1] == s[s.len() - i - 1]);
        }
        lemma_trailing_white(t, i - 1);
    }
}

proof fn lemma_word_len(s: Seq<char>, i: int)
    requires
        0 <= i <= s.len(),
        forall|k: int| 0 <= k < i ==> #[trigger] s[k] != ' ',
        i == s.len() || s[i] == ' ',
    ensures
        word_len(s) == i,
    decreases i,
{
    if i > 0 {
        lemma_word_len(s.drop_first(), i - 1);
    }
}

/// Trimming removes exactly the white space around a text that neither
/// starts nor ends with white space.
proof fn lemma_trim_around(pre: Seq<char>, t: Seq<char>, post: Seq<char>)
    requires
        t.len() > 0,
        !is_white_space(t[0]),
        !is_white_space(t.last()),
        forall|k: int| 0 <= k < pre.len() ==> is_white_space(#[trigger] pre[k]),
        forall|k: int| 0 <= k < post.len() ==> is_white_space(#[trigger] post[k]),
    ensures
        trim(pre + t + post) == t,
{
    let s = pre + t + post;
    assert forall|k: int| 0 <= k < pre.len() implies is_white_space(#[trigger] s[k]) by {
        assert(s[k] == pre[k]);
    }
    assert(s[pre.len() as int] == t[0]);
    lemma_leading_white(s, pre.len() as int);
    let start = s.skip(pre.len() as int);
    assert(start =~= t + post);
    let n = post.len() as int;
    assert forall|k: int| start.len() - n <= k < start.len() implies is_white_space(
        #[trigger] start[k],
    ) by {
        assert(start[k] == post[k - t.len()]);
    }
    assert(start[start.len() - n - 1] == t.last());
    lemma_trailing_white(start, n);
    assert(start.take(start.len() - n) =~= t);
}

/// A line with a command word and a text: whatever white space stands
/// before the word, between it and the text, and after the text, the
/// command word is the word and the argument is the whole text, of any
/// length.
pub proof fn lemma_command_line(
    pre: Seq<char>,
    word: Seq<char>,
    gap: Seq<char>,
    t: Seq<char>,
    post: Seq<char>,
)
    requires
        word.len() > 0,
        forall|k: int| 0 <= k < word.len() ==> !is_white_space(#[trigger] word[k]),
        t.len() > 0,
        !is_white_space(t[0]),
        !is_white_space(t.last()),
        forall|k: int| 0 <= k < pre.len() ==> is_white_space(#[trigger] pre[k]),
        forall|k: int| 0 <= k < gap.len() ==> is_white_space(#[trigger] gap[k]),
        forall|k: int| 0 <= k < post.len() ==> is_white_space(#[trigger] post[k]),
    ensures
        command_word(pre + word + seq![' '] + gap + t + post) == word,
        command_argument(pre + word + seq![' '] + gap + t + post) == t,
{
    let w = word.len() as int;
    let body = word + seq![' '] + gap + t;
    assert(is_white_space(' '));
    assert(body[0] == word[0]);
    assert(body.last() == t.last());
    assert(pre + word + seq![' '] + gap + t + post =~= pre + body + post);
    lemma_trim_around(pre, body, post);
    assert forall|k: int| 0 <= k < w implies #[trigger] body[k] != ' ' by {
        assert(body[k] == word[k]);
    }
    assert(body[w] == ' ');
    lemma_word_len(body, w);
    assert(body.take(w) =~= word);
    let space_gap = seq![' '] + gap;
    assert forall|k: int| 0 <= k < space_gap.len() implies is_white_space(#[trigger] space_gap[k]) by {
        if k > 0 {
            assert(space_gap[k] == gap[k - 1]);
        }
    }
    assert(body.skip(w) =~= space_gap + t + Seq::<char>::empty());
    lemma_trim_around(space_gap, t, Seq::<char>::empty());
}

/// A line with a command word alone: the command word is the word and the
/// argument is empty.
pub proof fn lemma_bare_command_line(pre: Seq<char>, word: Seq<char>, post: Seq<char>)
    requires
        word.len() > 0,
        forall|k: int| 0 <= k < word.len() ==> !is_white_space(#[trigger] word[k]),
        forall|k: int| 0 <= k < pre.len() ==> is_white_space(#[trigger] pre[k]),
        forall|k: int| 0 <= k < post.len() ==> is_white_space(#[trigger] post[k]),
    ensures
        command_word(pre + word + post) == word,
        command_argument(pre + word + post) == Seq::<char>::empty(),
{
    let w = word.len() as int;
    assert(is_white_space(' '));
    lemma_trim_around(pre, word, post);
    assert forall|k: int| 0 <= k < w implies #[trigger] word[k] != ' ' by {}
    lemma_word_len(word, w);
    assert(word.take(w) =~= word);
    let rest = word.skip(w);
    assert(rest =~= Seq::<char>::empty());
    assert(leading_white(rest) == 0);
    assert(rest.skip(0) =~= rest);
    assert(trailing_white(rest) == 0);
}

/// A `flood` line gives back its whole text, of any length.
pub proof fn lemma_flood_line(pre: Seq<char>, gap: Seq<char>, t: Seq<char>, post: Seq<char>)
    requires
        t.len() > 0,
        !is_white_space(t[0]),
        !is_white_space(t.last()),
        forall|k: int| 0 <= k < pre.len() ==> is_white_space(#[trigger] pre[k]),
        forall|k: int| 0 <= k < gap.len() ==> is_white_space(#[trigger] gap[k]),
        forall|k: int| 0 <= k < post.len() ==> is_white_space(#[trigger] post[k]),
    ensures
        command_word(pre + seq!['f', 'l', 'o', 'o', 'd', ' '] + gap + t + post) == seq![
            'f',
            'l',
            'o',
            'o',
            'd',
        ],
        command_argument(pre + seq!['f', 'l', 'o', 'o', 'd', ' '] + gap + t + post) == t,
{
    let word = seq!['f', 'l', 'o', 'o', 'd'];
    assert forall|k: int| 0 <= k < word.len() implies !is_white_space(#[trigger] word[k]) by {}
    assert(pre + word + seq![' '] + gap + t + post =~= pre + seq!['f', 'l', 'o', 'o', 'd', ' '] + gap
        + t + post);
    lemma_command_line(pre, word, gap, t, post);
}

/// The characters `s[from..to]`.
fn slice_chars(s: &Vec<char>, from: usize, to: usize) -> (r: Vec<char>)
    requires
        from <= to <= s@.len(),
    ensures
        r@ == s@.subrange(from as int, to as int),
{
    let mut r: Vec<char> = Vec::new();
    let mut i = from;
    while i < to
        invariant
            from <= i <= to,
            to <= s@.len(),
            r@ == s@.subrange(from as int, i as int),
        decreases to - i,
    {
        r.push(s[i]);
        i = i + 1;
        assert(r@ =~= s@.subrange(from as int, i as int));
    }
    r
}

/// The bounds of `s[from..to]` without leading and trailing white space.
fn trim_bounds(s: &Vec<char>, from: usize, to: usize) -> (r: (usize, usize))
    requires
        from <= to <= s@.len(),
    ensures
        from <= r.0 <= r.1 <= to,
        s@.subrange(r.0 as int, r.1 as int) == trim(s@.subrange(from as int, to as int)),
{
    let ghost t = s@.subrange(from as int, to as int);
    let mut i = from;
    while i < to && white_space(s[i])
        invariant
            from <= i <= to,
            to <= s@.len(),
            forall|k: int| from <= k < i ==> is_white_space(#[trigger] s@[k]),
        decreases to - i,
    {
        i = i + 1;
    }
    proof {
        assert forall|k: int| 0 <= k < i - from implies is_white_space(#[trigger] t[k]) by {
            assert(t[k] == s@[from + k]);
        }
        if i < to {
            assert(t[i - from] == s@[i as int]);
        }
        lemma_leading_white(t, i - from);
    }
    let ghost start = t.skip(i - from);
    assert(start =~= s@.subrange(i as int, to as int));
    let mut j = to;
    while j > i && white_space(s[j - 1])
        invariant
            i <= j <= to,
            to <= s@.len(),
            forall|k: int| j <= k < to ==> is_white_space(#[trigger] s@[k]),
        decreases j,
    {
        j = j - 1;
    }
    proof {
        let n = to - j;
        assert forall|k: int| start.len() - n <= k < start.len() implies is_white_space(
            #[trigger] start[k],
        ) by {
            assert(start[k] == s@[i + k]);
        }
        if n < start.len() {
            assert(start[start.len() - n - 1] == s@[j - 1]);
        }
        lemma_trailing_white(start, n);
        assert(start.take(start.len() - n) =~= s@.subrange(i as int, j as int));
    }
    (i, j)
}

/// Whether `s` holds exactly the characters of `word`.
fn is_word(s: &Vec<char>, word: &[char]) -> (b: bool)
    ensures
        b == (s@ == word@),
{
    if s.len() != word.len() {
        return false;
    }
    let mut i: usize = 0;
    while i < s.len()
        invariant
            s@.len() == word@.len(),
            i <= s@.len(),
            forall|k: int| 0 <= k < i ==> s@[k] == word@[k],
        decreases s@.len() - i,
    {
        if s[i] != word[i] {
            return false;
        }
        i = i + 1;
    }
    assert(s@ =~= word@);
    true
}

/// Reads a command line: the command word is the trimmed line up to its
/// first space; `exit` leaves, `flood` spreads the rest of the line
/// (trimmed), anything else is unknown.
pub fn parse_command(line: &Vec<char>) -> (c: Command)
    ensures
        match c {
            Command::Exit => command_word(line@) == seq!['e', 'x', 'i', 't'],
            Command::Flood(text) => command_word(line@) == seq!['f', 'l', 'o', 'o', 'd']
                && text@ == command_argument(line@),
            Command::Unknown(word) => word@ == command_word(line@)
                && word@ != seq!['e', 'x', 'i', 't']
                && word@ != seq!['f', 'l', 'o', 'o', 'd'],
        },
{
    let (a, b) = trim_bounds(line, 0, line.len());
    let ghost t = line@.subrange(a as int, b as int);
    assert(line@.subrange(0, line@.len() as int) =~= line@);
    let mut k = a;
    while k < b && line[k] != ' '
        invariant
            a <= k <= b,
            b <= line@.len(),
            forall|m: int| a <= m < k ==> #[trigger] line@[m] != ' ',
        decreases b - k,
    {
        k = k + 1;
    }
    proof {
        assert forall|m: int| 0 <= m < k - a implies #[trigger] t[m] != ' ' by {
            assert(t[m] == line@[a + m]);
        }
        if k < b {
            assert(t[k - a] == line@[k as int]);
        }
        lemma_word_len(t, k - a);
        assert(t.take(k - a) =~= line@.subrange(a as int, k as int));
        assert(t.skip(k - a) =~= line@.subrange(k as int, b as int));
    }
    let word = slice_chars(line, a, k);
    let exit = ['e', 'x', 'i', 't'];
    let flood = ['f', 'l', 'o', 'o', 'd'];
    if is_word(&word, exit.as_slice()) {
        assert(exit@ =~= seq!['e', 'x', 'i', 't']);
        Command::Exit
    } else if is_word(&word, flood.as_slice()) {
        assert(flood@ =~= seq!['f', 'l', 'o', 'o', 'd']);
        let (c, d) = trim_bounds(line, k, b);
        Command::Flood(slice_chars(line, c, d))
    } else {
        assert(exit@ =~= seq!['e', 'x', 'i', 't']);
        assert(flood@ =~= seq!['f', 'l', 'o', 'o', 'd']);
        Command::Unknown(word)
    }
}

} // verus!
