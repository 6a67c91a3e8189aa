use vstd::prelude::*;
use vstd::utf8::{decode_utf8, valid_utf8};

verus! {

/// The lines of `s`: the pieces between `'\n'` characters. A text with `n`
/// newlines has `n + 1` lines; the last one is empty when the text ends
/// with a newline.
pub open spec fn split_lines(s: Seq<char>) -> Seq<Seq<char>>
    decreases s.len(),
{
    if s.len() == 0 {
        seq![Seq::<char>::empty()]
    } else {
        let prev = split_lines(s.drop_last());
        if s.last() == '\n' {
            prev.push(Seq::<char>::empty())
        } else {
            prev.update(prev.len() - 1, prev.last().push(s.last()))
        }
    }
}

/// A text has at least one line.
pub proof fn lemma_split_lines_len(s: Seq<char>)
    ensures
        split_lines(s).len() >= 1,
    decreases s.len(),
{
    if s.len() > 0 {
        lemma_split_lines_len(s.drop_last());
    }
}

/// Whether two strings are equal.
pub fn str_equals(a: &str, b: &str) -> (r: bool)
    ensures
        r == (a@ == b@),
{
    a.to_owned() == b.to_owned()
}

/// The views of a vector of strings.
pub open spec fn string_views(v: Seq<String>) -> Seq<Seq<char>> {
    v.map_values(|l: String| l@)
}

/// Appends a character to a string (`String::push`).
#[verifier::external_body]
pub(crate) fn push_char(s: &mut String, c: char)
    ensures
        final(s)@ == old(s)@.push(c),
{
    s.push(c);
}

/// Splits `source` into its lines, as `split_lines` states.
pub fn source_lines(source: &str) -> (r: Vec<String>)
    ensures
        string_views(r@) == split_lines(source@),
{
    let mut lines: Vec<String> = Vec::new();
    let mut cur = String::new();
    let ghost s = source@;
    for c in it: source.chars()
        invariant
            it.seq() == s,
            string_views(lines@).push(cur@) == split_lines(s.take(it.index() as int)),
    {
        proof {
            lemma_split_lines_len(s.take(it.index() as int));
        }
        let ghost before = s.take(it.index() as int);
        assert(s.take(it.index() + 1).drop_last() =~= before);
        if c == '\n' {
            lines.push(cur);
            cur = String::new();
            assert(string_views(lines@).push(cur@) =~= split_lines(s.take(it.index() + 1)));
        } else {
            push_char(&mut cur, c);
            assert(string_views(lines@).push(cur@) =~= split_lines(s.take(it.index() + 1)));
        }
    }
    assert(s.take(s.len() as int) =~= s);
    lines.push(cur);
    lines
}

/// The pieces `ls` joined with `sep` between two of them.
pub open spec fn join_with(ls: Seq<Seq<char>>, sep: char) -> Seq<char>
    decreases ls.len(),
{
    if ls.len() == 0 {
        Seq::<char>::empty()
    } else if ls.len() == 1 {
        ls[0]
    } else {
        join_with(ls.drop_last(), sep) + seq![sep] + ls.last()
    }
}

/// Joining the lines of a text with newlines gives the text back.
pub proof fn lemma_join_split_lines(s: Seq<char>)
    ensures
        join_with(split_lines(s), '\n') == s,
    decreases s.len(),
{
    if s.len() > 0 {
        let prefix = s.drop_last();
        let prev = split_lines(prefix);
        assert(s =~= prefix.push(s.last()));
        lemma_join_split_lines(prefix);
        lemma_split_lines_len(prefix);
        if s.last() == '\n' {
            assert(prev.push(Seq::<char>::empty()).drop_last() =~= prev);
            assert(s =~= prefix + seq!['\n'] + Seq::<char>::empty());
        } else {
            let next = prev.update(prev.len() - 1, prev.last().push(s.last()));
            if prev.len() == 1 {
                assert(s =~= prev[0].push(s.last()));
            } else {
                assert(next.drop_last() =~= prev.drop_last());
                assert(prefix == join_with(prev.drop_last(), '\n') + seq!['\n'] + prev.last());
                assert(s =~= join_with(prev.drop_last(), '\n') + seq!['\n'] + prev.last().push(
                    s.last(),
                ));
            }
        }
    }
}

/// The 0-based index of the first line of the lines `start..=end`
/// (1-based) of a text of `len` lines, kept inside the text.
pub open spec fn first_line(len: nat, start: nat, end: nat) -> nat {
    let lo: nat = if start > 0 { (start - 1) as nat } else { 0 };
    if lo <= last_line(len, end) { lo } else { last_line(len, end) }
}

/// One past the 0-based index of the last line of the lines `..=end`
/// (1-based) of a text of `len` lines, kept inside the text.
pub open spec fn last_line(len: nat, end: nat) -> nat {
    if end <= len { end } else { len }
}

/// The text of the lines `start..=end` (1-based, inclusive) of `lines`,
/// with the range cut to the lines that exist.
pub open spec fn lines_text(lines: Seq<Seq<char>>, start: nat, end: nat) -> Seq<char> {
    join_with(
        lines.subrange(
            first_line(lines.len(), start, end) as int,
            last_line(lines.len(), end) as int,
        ),
        '\n',
    )
}

/// The lines `1..=n` of a text of `n` lines are the whole text.
pub proof fn lemma_all_lines_text(s: Seq<char>)
    ensures
        lines_text(split_lines(s), 1, split_lines(s).len()) == s,
{
    let lines = split_lines(s);
    lemma_split_lines_len(s);
    lemma_join_split_lines(s);
    assert(lines.subrange(0, lines.len() as int) =~= lines);
}

/// The text of the lines `start..=end` (1-based, inclusive) of `lines`.
pub fn text_of_lines(lines: &Vec<String>, start: usize, end: usize) -> (r: String)
    ensures
        r@ == lines_text(string_views(lines@), start as nat, end as nat),
{
    let len = lines.len();
    let hi: usize = if end <= len { end } else { len };
    let lo0: usize = if start > 0 { start - 1 } else { 0 };
    let lo: usize = if lo0 <= hi { lo0 } else { hi };
    let ghost views = string_views(lines@);
    let mut text = String::new();
    let mut i = lo;
    while i < hi
        invariant
            lo <= i <= hi <= lines@.len(),
            views == string_views(lines@),
            text@ == join_with(views.subrange(lo as int, i as int), '\n'),
        decreases hi - i,
    {
        if i > lo {
            text.append("\n");
        }
        text.append(lines[i].as_str());
        proof {
            reveal_strlit("\n");
            assert(views.subrange(lo as int, i + 1).drop_last() =~= views.subrange(lo as int, i as int));
            assert(views[i as int] == lines@[i as int]@);
        }
        i = i + 1;
    }
    text
}

/// Decodes `bytes` as UTF-8 (`std::str::from_utf8`): a string when the
/// bytes are valid UTF-8, none otherwise.
#[verifier::external_body]
pub(crate) fn utf8_decode(bytes: &[u8]) -> (r: Option<String>)
    ensures
        r is Some <==> valid_utf8(bytes@),
        r matches Some(s) ==> s@ == decode_utf8(bytes@),
{
    std::str::from_utf8(bytes).ok().map(|s| s.to_owned())
}

/// Each byte taken as the character with the same code (ISO 8859-1).
pub open spec fn latin1_chars(bytes: Seq<u8>) -> Seq<char> {
    bytes.map_values(|b: u8| b as char)
}

/// Encodes every byte of `bytes` as a character of the string: the byte
/// `b` becomes the character `U+00b`.
pub fn encode_to_utf8(bytes: &[u8]) -> (r: String)
    ensures
        r@ == latin1_chars(bytes@),
{
    let mut s = String::new();
    let mut i: usize = 0;
    while i < bytes.len()
        invariant
            i <= bytes@.len(),
            s@ == latin1_chars(bytes@.take(i as int)),
        decreases bytes@.len() - i,
    {
        let c = bytes[i] as char;
        push_char(&mut s, c);
        assert(latin1_chars(bytes@.take(i + 1)) =~= latin1_chars(bytes@.take(i as int)).push(c));
        i = i + 1;
    }
    assert(bytes@.take(bytes@.len() as int) =~= bytes@);
    s
}

/// The text of a source file: its bytes decoded as UTF-8 where they are
/// valid UTF-8, else each byte taken as one character.
pub open spec fn decoded_source(bytes: Seq<u8>) -> Seq<char> {
    if valid_utf8(bytes) {
        decode_utf8(bytes)
    } else {
        latin1_chars(bytes)
    }
}

/// The text of a source file, as `decoded_source` states.
pub fn decode_source(bytes: &[u8]) -> (r: String)
    ensures
        r@ == decoded_source(bytes@),
{
    match utf8_decode(bytes) {
        Some(s) => s,
        None => encode_to_utf8(bytes),
    }
}

} // verus!
