//! Character classes and text shapes shared by the matcher and the script
//! interpreter.

use vstd::prelude::*;

verus! {

/// Whether a character has the Unicode `Uppercase` property.
pub uninterp spec fn upper_char(c: char) -> bool;

/// Whether a character has the Unicode `White_Space` property.
pub uninterp spec fn white_char(c: char) -> bool;

/// The uppercase mapping of a whole string.
pub uninterp spec fn upper_text(s: Seq<char>) -> Seq<char>;

/// What `i32`'s `FromStr` makes of a string.
pub uninterp spec fn parsed_i32(s: Seq<char>) -> Option<i32>;

/// Relies on `char::is_uppercase`: the answer depends on the character alone.
#[verifier::external_body]
pub(crate) fn is_upper(c: char) -> (r: bool)
    ensures
        r == upper_char(c),
{
    c.is_uppercase()
}

/// Relies on `char::is_whitespace`: the answer depends on the character alone.
#[verifier::external_body]
pub(crate) fn is_white(c: char) -> (r: bool)
    ensures
        r == white_char(c),
{
    c.is_whitespace()
}

/// Relies on `str::to_uppercase`: the result depends on the characters alone,
/// and the empty string stays empty.
#[verifier::external_body]
pub(crate) fn to_upper(s: &str) -> (r: String)
    ensures
        r@ == upper_text(s@),
        s@.len() == 0 ==> r@.len() == 0,
{
    s.to_uppercase()
}

/// Relies on `str::parse::<i32>`: the result depends on the characters alone.
#[verifier::external_body]
pub(crate) fn parse_i32(s: &str) -> (r: Option<i32>)
    ensures
        r == parsed_i32(s@),
{
    s.parse::<i32>().ok()
}

/// Relies on `String::push`: appends one character.
#[verifier::external_body]
pub(crate) fn push_char(s: &mut String, c: char)
    ensures
        final(s)@ == old(s)@.push(c),
{
    s.push(c)
}

/// The uppercase characters of `s`, in order.
pub open spec fn shortcut_of(s: Seq<char>) -> Seq<char>
    decreases s.len(),
{
    if s.len() == 0 {
        Seq::empty()
    } else if upper_char(s.last()) {
        shortcut_of(s.drop_last()).push(s.last())
    } else {
        shortcut_of(s.drop_last())
    }
}

/// Derives a shortcut: every uppercase character of `name`, in order.
pub fn derive_shortcut(name: &str) -> (r: String)
    ensures
        r@ == shortcut_of(name@),
{
    let n = name.unicode_len();
    let mut r = String::new();
    let mut i: usize = 0;
    while i < n
        invariant
            n == name@.len(),
            i <= n,
            r@ == shortcut_of(name@.subrange(0, i as int)),
        decreases n - i,
    {
        let c = name.get_char(i);
        assert(name@.subrange(0, i + 1).drop_last() =~= name@.subrange(0, i as int));
        if is_upper(c) {
            push_char(&mut r, c);
        }
        i = i + 1;
    }
    assert(name@.subrange(0, n as int) =~= name@);
    r
}

/// The index of the first `#` in `s`, or its length when it holds none.
pub open spec fn comment_start(s: Seq<char>) -> nat
    decreases s.len(),
{
    if s.len() == 0 || s[0] == '#' {
        0
    } else {
        1 + comment_start(s.drop_first())
    }
}

/// The part of a line that precedes its comment marker.
pub open spec fn code_part(s: Seq<char>) -> Seq<char> {
    s.subrange(0, comment_start(s) as int)
}

proof fn lemma_comment_start(s: Seq<char>, i: int)
    requires
        0 <= i <= s.len(),
        i == s.len() || s[i] == '#',
        forall|j: int| 0 <= j < i ==> s[j] != '#',
    ensures
        comment_start(s) == i,
    decreases i,
{
    if i > 0 {
        lemma_comment_start(s.drop_first(), i - 1);
    }
}

/// Cuts a line at its first `#`: what comes before it.
pub fn strip_comment(line: &str) -> (r: &str)
    ensures
        r@ == code_part(line@),
        r@.len() <= line@.len(),
{
    let n = line.unicode_len();
    let mut i: usize = 0;
    while i < n && line.get_char(i) != '#'
        invariant
            n == line@.len(),
            i <= n,
            forall|j: int| 0 <= j < i ==> line@[j] != '#',
        decreases n - i,
    {
        i = i + 1;
    }
    proof {
        lemma_comment_start(line@, i as int);
    }
    line.substring_char(0, i)
}

/// Splits a text into its finished words and the word still being read: a
/// word is a maximal run of characters that are not white space.
pub open spec fn split_words(s: Seq<char>) -> (Seq<Seq<char>>, Seq<char>)
    decreases s.len(),
{
    if s.len() == 0 {
        (Seq::empty(), Seq::empty())
    } else {
        let (ws, cur) = split_words(s.drop_last());
        if white_char(s.last()) {
            if cur.len() > 0 {
                (ws.push(cur), Seq::empty())
            } else {
                (ws, cur)
            }
        } else {
            (ws, cur.push(s.last()))
        }
    }
}

/// The white-space separated words of a text, in order.
pub open spec fn words(s: Seq<char>) -> Seq<Seq<char>> {
    let (ws, cur) = split_words(s);
    if cur.len() > 0 {
        ws.push(cur)
    } else {
        ws
    }
}

proof fn lemma_split_words_len(s: Seq<char>)
    ensures
        split_words(s).0.len() + split_words(s).1.len() <= s.len(),
    decreases s.len(),
{
    if s.len() > 0 {
        lemma_split_words_len(s.drop_last());
    }
}

/// A text holds no more words than characters.
pub proof fn lemma_words_len(s: Seq<char>)
    ensures
        words(s).len() <= s.len(),
{
    lemma_split_words_len(s);
}

/// Splits a text at white space into its words.
pub fn split_whitespace(s: &str) -> (r: Vec<String>)
    ensures
        r@.map_values(|w: String| w@) == words(s@),
{
    let n = s.unicode_len();
    let mut ws: Vec<String> = Vec::new();
    let mut cur = String::new();
    let mut i: usize = 0;
    while i < n
        invariant
            n == s@.len(),
            i <= n,
            ws@.map_values(|w: String| w@) == split_words(s@.subrange(0, i as int)).0,
            cur@ == split_words(s@.subrange(0, i as int)).1,
        decreases n - i,
    {
        let c = s.get_char(i);
        assert(s@.subrange(0, i + 1).drop_last() =~= s@.subrange(0, i as int));
        if is_white(c) {
            if cur.unicode_len() > 0 {
                let done = cur;
                proof {
                    assert(ws@.push(done).map_values(|w: String| w@) =~= ws@.map_values(
                        |w: String| w@,
                    ).push(done@));
                }
                ws.push(done);
                cur = String::new();
            }
        } else {
            push_char(&mut cur, c);
        }
        i = i + 1;
    }
    assert(s@.subrange(0, n as int) =~= s@);
    if cur.unicode_len() > 0 {
        let done = cur;
        proof {
            assert(ws@.push(done).map_values(|w: String| w@) =~= ws@.map_values(|w: String| w@).push(
                done@,
            ));
        }
        ws.push(done);
    }
    ws
}

/// Whether `p` is a prefix of `s`.
pub fn starts_with(s: &str, p: &str) -> (r: bool)
    ensures
        r == p@.is_prefix_of(s@),
{
    let n = s.unicode_len();
    let m = p.unicode_len();
    if m > n {
        return false;
    }
    let mut i: usize = 0;
    while i < m
        invariant
            n == s@.len(),
            m == p@.len(),
            m <= n,
            i <= m,
            forall|j: int| 0 <= j < i ==> s@[j] == p@[j],
        decreases m - i,
    {
        if s.get_char(i) != p.get_char(i) {
            return false;
        }
        i = i + 1;
    }
    assert(p@ =~= s@.subrange(0, m as int));
    true
}

/// A line without the carriage return that ended it, if any.
pub open spec fn without_cr(l: Seq<char>) -> Seq<char> {
    if l.len() > 0 && l.last() == '\r' {
        l.drop_last()
    } else {
        l
    }
}

/// Splits a text into its finished lines and the line still being read:
/// lines end at `\n`, and a `\r` just before the `\n` belongs to the ending.
pub open spec fn split_lines(s: Seq<char>) -> (Seq<Seq<char>>, Seq<char>)
    decreases s.len(),
{
    if s.len() == 0 {
        (Seq::empty(), Seq::empty())
    } else {
        let (ls, cur) = split_lines(s.drop_last());
        if s.last() == '\n' {
            (ls.push(without_cr(cur)), Seq::empty())
        } else {
            (ls, cur.push(s.last()))
        }
    }
}

/// The lines of a text; a final line ending is optional.
pub open spec fn lines(s: Seq<char>) -> Seq<Seq<char>> {
    let (ls, cur) = split_lines(s);
    if cur.len() > 0 {
        ls.push(cur)
    } else {
        ls
    }
}

fn drop_cr(l: String) -> (r: String)
    ensures
        r@ == without_cr(l@),
{
    let n = l.as_str().unicode_len();
    if n > 0 && l.as_str().get_char(n - 1) == '\r' {
        let r = l.as_str().substring_char(0, n - 1).to_owned();
        assert(r@ =~= l@.drop_last());
        r
    } else {
        l
    }
}

/// Splits a text into its lines.
pub fn split_lines_of(s: &str) -> (r: Vec<String>)
    ensures
        r@.map_values(|l: String| l@) == lines(s@),
{
    let n = s.unicode_len();
    let mut ls: Vec<String> = Vec::new();
    let mut cur = String::new();
    let mut i: usize = 0;
    while i < n
        invariant
            n == s@.len(),
            i <= n,
            ls@.map_values(|l: String| l@) == split_lines(s@.subrange(0, i as int)).0,
            cur@ == split_lines(s@.subrange(0, i as int)).1,
        decreases n - i,
    {
        let c = s.get_char(i);
        assert(s@.subrange(0, i + 1).drop_last() =~= s@.subrange(0, i as int));
        if c == '\n' {
            let done = drop_cr(cur);
            proof {
                assert(ls@.push(done).map_values(|l: String| l@) =~= ls@.map_values(
                    |l: String| l@,
                ).push(done@));
            }
            ls.push(done);
            cur = String::new();
        } else {
            push_char(&mut cur, c);
        }
        i = i + 1;
    }
    assert(s@.subrange(0, n as int) =~= s@);
    if cur.as_str().unicode_len() > 0 {
        let done = cur;
        proof {
            assert(ls@.push(done).map_values(|l: String| l@) =~= ls@.map_values(|l: String| l@).push(
                done@,
            ));
        }
        ls.push(done);
    }
    ls
}

} // verus!
