//! The text of a file as lines, and the choice of the first or last few.

use vstd::prelude::*;
use vstd::string::*;
use vstd::utf8::{
    char_is_scalar, char_u32_cast, decode_utf8, encode_scalar, encode_utf8,
    encode_utf8_decode_utf8, encode_utf8_valid_utf8, valid_utf8,
};
use crate::paths::string_views;

verus! {

/// `l` without one final `cr`, if it ends with one.
pub open spec fn strip_last<T>(l: Seq<T>, cr: T) -> Seq<T> {
    if l.len() > 0 && l.last() == cr {
        l.drop_last()
    } else {
        l
    }
}

/// The lines already ended and the line still open after reading `s` from
/// left to right. A line ends at `nl`, which it does not keep, nor a `cr`
/// just before it.
pub open spec fn line_state<T>(s: Seq<T>, nl: T, cr: T) -> (Seq<Seq<T>>, Seq<T>)
    decreases s.len(),
{
    if s.len() == 0 {
        (seq![], seq![])
    } else {
        let (done, cur) = line_state(s.drop_last(), nl, cr);
        if s.last() == nl {
            (done.push(strip_last(cur, cr)), seq![])
        } else {
            (done, cur.push(s.last()))
        }
    }
}

/// The lines of `s`. A last line without a line end counts when it is not
/// empty, so a final line end adds no empty line.
pub open spec fn split_lines<T>(s: Seq<T>, nl: T, cr: T) -> Seq<Seq<T>> {
    let (done, cur) = line_state(s, nl, cr);
    if cur.len() == 0 {
        done
    } else {
        done.push(cur)
    }
}

/// The lines of a file's bytes, split at `\n` with a `\r` before it dropped.
pub open spec fn raw_lines(b: Seq<u8>) -> Seq<Seq<u8>> {
    split_lines(b, 10u8, 13u8)
}

/// The lines of a text, split at `\n` with a `\r` before it dropped.
pub open spec fn char_lines(c: Seq<char>) -> Seq<Seq<char>> {
    split_lines(c, '\n', '\r')
}

/// The text of each line that is valid UTF-8, in order; the others are
/// skipped.
pub open spec fn decode_all(ls: Seq<Seq<u8>>) -> Seq<Seq<char>>
    decreases ls.len(),
{
    if ls.len() == 0 {
        seq![]
    } else if valid_utf8(ls.last()) {
        decode_all(ls.drop_last()).push(decode_utf8(ls.last()))
    } else {
        decode_all(ls.drop_last())
    }
}

/// The readable lines of a file.
pub open spec fn text_lines(b: Seq<u8>) -> Seq<Seq<char>> {
    decode_all(raw_lines(b))
}

/// The first `head` lines when `head` is given, else the last `tail` lines
/// when `tail` is given, else all of them; fewer where there are fewer.
pub open spec fn select(lines: Seq<Seq<char>>, head: Option<usize>, tail: Option<usize>) -> Seq<
    Seq<char>,
> {
    match head {
        Some(h) => lines.take(
            if h < lines.len() {
                h as int
            } else {
                lines.len() as int
            },
        ),
        None => match tail {
            Some(t) => lines.skip(
                if t < lines.len() {
                    lines.len() - t
                } else {
                    0
                },
            ),
            None => lines,
        },
    }
}

/// The lines joined with `\n` between them.
pub open spec fn join_lines(ls: Seq<Seq<char>>) -> Seq<char>
    decreases ls.len(),
{
    if ls.len() == 0 {
        seq![]
    } else if ls.len() == 1 {
        ls[0]
    } else {
        join_lines(ls.drop_last()) + seq!['\n'] + ls.last()
    }
}

/// What reading a file with these bytes returns.
pub open spec fn read_view(b: Seq<u8>, head: Option<usize>, tail: Option<usize>) -> Seq<char> {
    join_lines(select(text_lines(b), head, tail))
}

pub open spec fn byte_views(v: Seq<Vec<u8>>) -> Seq<Seq<u8>> {
    v.map_values(|x: Vec<u8>| x@)
}

/// Relies on `String::from_utf8`: it accepts exactly the valid UTF-8
/// sequences, and the string then holds the characters they encode.
#[verifier::external_body]
fn utf8_to_string(bytes: Vec<u8>) -> (r: Option<String>)
    ensures
        r is Some <==> valid_utf8(bytes@),
        r matches Some(s) ==> s@ == decode_utf8(bytes@),
{
    String::from_utf8(bytes).ok()
}

/// Splits a file's bytes into lines.
pub fn split_raw_lines(bytes: &Vec<u8>) -> (r: Vec<Vec<u8>>)
    ensures
        byte_views(r@) == raw_lines(bytes@),
{
    let mut out: Vec<Vec<u8>> = Vec::new();
    let mut cur: Vec<u8> = Vec::new();
    let mut i: usize = 0;
    while i < bytes.len()
        invariant
            i <= bytes@.len(),
            line_state(bytes@.take(i as int), 10u8, 13u8) == (byte_views(out@), cur@),
        decreases bytes@.len() - i,
    {
        let b = bytes[i];
        assert(bytes@.take(i + 1).drop_last() =~= bytes@.take(i as int));
        if b == 10 {
            let n = cur.len();
            if n > 0 && cur[n - 1] == 13 {
                cur.pop();
            }
            let ghost before = out@;
            out.push(cur);
            assert(byte_views(out@) =~= byte_views(before).push(out@.last()@));
            cur = Vec::new();
        } else {
            cur.push(b);
        }
        i += 1;
    }
    assert(bytes@.take(bytes@.len() as int) =~= bytes@);
    if cur.len() > 0 {
        let ghost before = out@;
        out.push(cur);
        assert(byte_views(out@) =~= byte_views(before).push(out@.last()@));
    }
    out
}

/// Decodes each line, skipping those that are not valid UTF-8.
pub fn decode_lines(raw: Vec<Vec<u8>>) -> (r: Vec<String>)
    ensures
        string_views(r@) == decode_all(byte_views(raw@)),
{
    let mut out: Vec<String> = Vec::new();
    let mut i: usize = 0;
    while i < raw.len()
        invariant
            i <= raw@.len(),
            string_views(out@) == decode_all(byte_views(raw@).take(i as int)),
        decreases raw@.len() - i,
    {
        let line = raw[i].clone();
        assert(byte_views(raw@).take(i + 1).drop_last() =~= byte_views(raw@).take(i as int));
        assert(byte_views(raw@).take(i + 1).last() == raw@[i as int]@);
        match utf8_to_string(line) {
            Some(s) => {
                let ghost before = out@;
                out.push(s);
                assert(string_views(out@) =~= string_views(before).push(s@));
            },
            None => {},
        }
        i += 1;
    }
    assert(byte_views(raw@).take(raw@.len() as int) =~= byte_views(raw@));
    out
}

/// The lines `lo` up to `hi` of `lines`, joined with `\n` between them.
fn join_range(lines: &Vec<String>, lo: usize, hi: usize) -> (r: String)
    requires
        lo <= hi <= lines@.len(),
    ensures
        r@ == join_lines(string_views(lines@).subrange(lo as int, hi as int)),
{
    let mut s = String::new();
    let mut i: usize = lo;
    while i < hi
        invariant
            lo <= i <= hi <= lines@.len(),
            s@ == join_lines(string_views(lines@).subrange(lo as int, i as int)),
        decreases hi - i,
    {
        let ghost prev = string_views(lines@).subrange(lo as int, i as int);
        let ghost next = string_views(lines@).subrange(lo as int, i + 1);
        assert(next.drop_last() =~= prev);
        assert(next.last() == lines@[i as int]@);
        if i > lo {
            proof {
                reveal_strlit("\n");
            }
            s.append("\n");
        }
        s.append(lines[i].as_str());
        i += 1;
    }
    s
}

/// The text of a file with these bytes: its readable lines, or the first
/// `head` of them, or else the last `tail` of them, joined with `\n`.
pub fn read_text(bytes: &Vec<u8>, head: Option<usize>, tail: Option<usize>) -> (r: String)
    ensures
        r@ == read_view(bytes@, head, tail),
{
    let raw = split_raw_lines(bytes);
    let lines = decode_lines(raw);
    let n = lines.len();
    let (lo, hi): (usize, usize) = match head {
        Some(h) => (0, if h < n { h } else { n }),
        None => match tail {
            Some(t) => (if t < n { n - t } else { 0 }, n),
            None => (0, n),
        },
    };
    let ghost all = string_views(lines@);
    assert(select(all, head, tail) =~= all.subrange(lo as int, hi as int));
    join_range(&lines, lo, hi)
}

/// With `head`, reading gives the file's first `head` readable lines, in
/// order, or all of them where there are fewer; `head` wins over `tail`.
/// With only `tail`, it gives the last `tail` lines, in order, or all of them
/// where there are fewer.
pub proof fn lemma_head_tail(b: Seq<u8>, h: usize, t: usize)
    ensures
        h <= text_lines(b).len() ==> read_view(b, Some(h), None) == join_lines(
            text_lines(b).take(h as int),
        ),
        h > text_lines(b).len() ==> read_view(b, Some(h), None) == join_lines(text_lines(b)),
        read_view(b, Some(h), Some(t)) == read_view(b, Some(h), None),
        t <= text_lines(b).len() ==> read_view(b, None, Some(t)) == join_lines(
            text_lines(b).skip(text_lines(b).len() - t),
        ),
        t > text_lines(b).len() ==> read_view(b, None, Some(t)) == join_lines(text_lines(b)),
        read_view(b, None, None) == join_lines(text_lines(b)),
{
    let ls = text_lines(b);
    assert(ls.take(ls.len() as int) =~= ls);
    assert(ls.skip(0) =~= ls);
}

pub open spec fn encode_lines(ls: Seq<Seq<char>>) -> Seq<Seq<u8>> {
    ls.map_values(|l: Seq<char>| encode_utf8(l))
}

proof fn lemma_encode_concat(x: Seq<char>, y: Seq<char>)
    ensures
        encode_utf8(x + y) == encode_utf8(x) + encode_utf8(y),
    decreases x.len(),
{
    if x.len() == 0 {
        assert(x + y =~= y);
        assert(encode_utf8(x) + encode_utf8(y) =~= encode_utf8(y));
    } else {
        assert((x + y).drop_first() =~= x.drop_first() + y);
        lemma_encode_concat(x.drop_first(), y);
        assert(encode_utf8(x + y) =~= encode_scalar(x[0] as u32) + encode_utf8(x.drop_first())
            + encode_utf8(y));
    }
}

proof fn lemma_encode_push(x: Seq<char>, ch: char)
    ensures
        encode_utf8(x.push(ch)) == encode_utf8(x) + encode_scalar(ch as u32),
        encode_utf8(x.push(ch)).len() > encode_utf8(x).len(),
{
    lemma_encode_concat(x, seq![ch]);
    assert(x + seq![ch] =~= x.push(ch));
    assert(seq![ch].drop_first() =~= Seq::<char>::empty());
    assert(encode_utf8(Seq::<char>::empty()) =~= Seq::<u8>::empty());
    assert(seq![ch][0] == ch);
    assert(encode_utf8(seq![ch]) =~= encode_scalar(ch as u32) + Seq::<u8>::empty());
    assert(encode_utf8(seq![ch]) =~= encode_scalar(ch as u32));
}

proof fn lemma_encode_empty(x: Seq<char>)
    ensures
        encode_utf8(x).len() == 0 <==> x.len() == 0,
{
    if x.len() > 0 {
        assert(x.drop_last().push(x.last()) =~= x);
        lemma_encode_push(x.drop_last(), x.last());
    }
}

/// The bytes that encode a character hold a line end or a carriage return
/// only where the character is one.
proof fn lemma_scalar_bytes(ch: char)
    ensures
        ch == '\n' ==> encode_scalar(ch as u32) =~= seq![10u8],
        ch != '\n' ==> forall|k: int|
            0 <= k < encode_scalar(ch as u32).len() ==> #[trigger] encode_scalar(ch as u32)[k] != 10u8,
        ch == '\r' ==> encode_scalar(ch as u32) =~= seq![13u8],
        ch != '\r' ==> encode_scalar(ch as u32).len() > 0 && encode_scalar(ch as u32).last()
            != 13u8,
{
    let s = ch as u32;
    char_is_scalar(ch);
    char_u32_cast(ch, s);
    assert('\n' as u32 == 10u32);
    assert('\r' as u32 == 13u32);
    if s <= 0x7f {
        assert(s <= 0x7f ==> (s & 0x7f) == s) by (bit_vector);
        assert(s <= 0x7f ==> ((s & 0x7f) as u8 == 10u8 <==> s == 10u32)) by (bit_vector);
        assert(s <= 0x7f ==> ((s & 0x7f) as u8 == 13u8 <==> s == 13u32)) by (bit_vector);
        if s == 10u32 {
            char_u32_cast('\n', s);
        }
        if s == 13u32 {
            char_u32_cast('\r', s);
        }
    } else {
        assert(forall|x: u8| #![trigger (0x80u8 | x)] (0x80u8 | x) >= 0x80u8) by (bit_vector);
        assert(forall|x: u8| #![trigger (0xC0u8 | x)] (0xC0u8 | x) >= 0x80u8) by (bit_vector);
        assert(forall|x: u8| #![trigger (0xE0u8 | x)] (0xE0u8 | x) >= 0x80u8) by (bit_vector);
        assert(forall|x: u8| #![trigger (0xF0u8 | x)] (0xF0u8 | x) >= 0x80u8) by (bit_vector);
    }
}

/// Appending bytes without a line end only extends the open line.
proof fn lemma_state_no_nl(x: Seq<u8>, e: Seq<u8>)
    requires
        forall|k: int| 0 <= k < e.len() ==> e[k] != 10u8,
    ensures
        line_state(x + e, 10u8, 13u8) == (line_state(x, 10u8, 13u8).0, line_state(
            x,
            10u8,
            13u8,
        ).1 + e),
    decreases e.len(),
{
    if e.len() == 0 {
        assert(x + e =~= x);
        assert(line_state(x, 10u8, 13u8).1 + e =~= line_state(x, 10u8, 13u8).1);
    } else {
        let e2 = e.drop_last();
        lemma_state_no_nl(x, e2);
        assert((x + e).drop_last() =~= x + e2);
        assert(line_state(x, 10u8, 13u8).1 + e2 + seq![e.last()] =~= line_state(x, 10u8, 13u8).1
            + e);
        assert((x + e).last() == e.last());
        assert(e.last() != 10u8);
        assert(line_state(x, 10u8, 13u8).1 + e2 == line_state(x + e2, 10u8, 13u8).1);
        assert((line_state(x, 10u8, 13u8).1 + e2).push(e.last()) =~= line_state(x, 10u8, 13u8).1
            + e);
    }
}

proof fn lemma_strip_encoded(x: Seq<char>)
    ensures
        strip_last(encode_utf8(x), 13u8) == encode_utf8(strip_last(x, '\r')),
{
    if x.len() > 0 {
        let x2 = x.drop_last();
        assert(x2.push(x.last()) =~= x);
        lemma_encode_push(x2, x.last());
        lemma_scalar_bytes(x.last());
        let e = encode_scalar(x.last() as u32);
        if x.last() == '\r' {
            assert((encode_utf8(x2) + e).drop_last() =~= encode_utf8(x2));
        } else {
            assert((encode_utf8(x2) + e).last() == e.last());
        }
    }
}

/// Reading the encoding of a text byte by byte meets the same line ends as
/// reading the text itself.
proof fn lemma_state_encoded(c: Seq<char>)
    ensures
        line_state(encode_utf8(c), 10u8, 13u8) == (encode_lines(line_state(c, '\n', '\r').0),
        encode_utf8(line_state(c, '\n', '\r').1)),
    decreases c.len(),
{
    if c.len() == 0 {
        assert(encode_lines(seq![]) =~= Seq::<Seq<u8>>::empty());
    } else {
        let c2 = c.drop_last();
        let ch = c.last();
        assert(c2.push(ch) =~= c);
        lemma_state_encoded(c2);
        lemma_encode_push(c2, ch);
        lemma_scalar_bytes(ch);
        let (done, cur) = line_state(c2, '\n', '\r');
        let e = encode_scalar(ch as u32);
        if ch == '\n' {
            assert((encode_utf8(c2) + e).drop_last() =~= encode_utf8(c2));
            assert((encode_utf8(c2) + e).last() == 10u8);
            lemma_strip_encoded(cur);
            assert(encode_lines(done.push(strip_last(cur, '\r'))) =~= encode_lines(done).push(
                encode_utf8(strip_last(cur, '\r')),
            ));
            assert(encode_utf8(Seq::<char>::empty()) =~= Seq::<u8>::empty());
        } else {
            lemma_state_no_nl(encode_utf8(c2), e);
            lemma_encode_push(cur, ch);
        }
    }
}

proof fn lemma_decode_encoded(ls: Seq<Seq<char>>)
    ensures
        decode_all(encode_lines(ls)) == ls,
    decreases ls.len(),
{
    if ls.len() > 0 {
        lemma_decode_encoded(ls.drop_last());
        assert(encode_lines(ls).drop_last() =~= encode_lines(ls.drop_last()));
        encode_utf8_valid_utf8(ls.last());
        encode_utf8_decode_utf8(ls.last());
        assert(ls.drop_last().push(ls.last()) =~= ls);
    }
}

/// No carriage return stands right before a line end.
pub open spec fn no_crlf(c: Seq<char>) -> bool {
    forall|i: int| 0 <= i < c.len() - 1 ==> !(#[trigger] c[i] == '\r' && c[i + 1] == '\n')
}

proof fn lemma_join_state(c: Seq<char>)
    requires
        no_crlf(c),
    ensures
        line_state(c, '\n', '\r').0.len() == 0 ==> c == line_state(c, '\n', '\r').1,
        line_state(c, '\n', '\r').0.len() > 0 ==> c == join_lines(line_state(c, '\n', '\r').0)
            + seq!['\n'] + line_state(c, '\n', '\r').1,
    decreases c.len(),
{
    if c.len() > 0 {
        let c2 = c.drop_last();
        let ch = c.last();
        assert(c2.push(ch) =~= c);
        assert(no_crlf(c2));
        lemma_join_state(c2);
        let (done, cur) = line_state(c2, '\n', '\r');
        if ch == '\n' {
            if cur.len() > 0 {
                assert(cur.last() == c2.last());
                assert(c[c.len() - 2] == c2.last());
                assert(strip_last(cur, '\r') == cur);
            }
            let nd = done.push(strip_last(cur, '\r'));
            assert(nd.drop_last() =~= done);
            if done.len() == 0 {
                assert(join_lines(nd) == cur);
            }
            assert(c =~= join_lines(nd) + seq!['\n'] + Seq::<char>::empty());
        } else {
            if done.len() > 0 {
                assert(c =~= join_lines(done) + seq!['\n'] + cur.push(ch));
            } else {
                assert(c =~= cur.push(ch));
            }
        }
    }
}

/// Reading back a text, with no selection, gives the text itself, as long as
/// it has no `\r` right before a `\n` and does not end with `\n`: a file
/// written with `hello\nworld` reads as `hello\nworld`.
pub proof fn lemma_round_trip(c: Seq<char>)
    requires
        no_crlf(c),
        !(c.len() > 0 && c.last() == '\n'),
    ensures
        read_view(encode_utf8(c), None, None) == c,
{
    lemma_state_encoded(c);
    lemma_join_state(c);
    let (done, cur) = line_state(c, '\n', '\r');
    lemma_encode_empty(cur);
    if cur.len() == 0 {
        assert(raw_lines(encode_utf8(c)) == encode_lines(char_lines(c)));
        if done.len() > 0 {
            assert(c.last() == '\n');
        }
    } else {
        assert(encode_lines(done.push(cur)) =~= encode_lines(done).push(encode_utf8(cur)));
        assert(raw_lines(encode_utf8(c)) == encode_lines(char_lines(c)));
        let nd = done.push(cur);
        assert(nd.drop_last() =~= done);
    }
    lemma_decode_encoded(char_lines(c));
}

} // verus!
