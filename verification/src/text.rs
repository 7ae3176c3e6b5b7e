//! Text utilities: decimal and hexadecimal rendering, Unicode whitespace,
//! line splitting, and string comparison.

use vstd::prelude::*;
use vstd::std_specs::iter::IteratorSpec;
use vstd::string::{StrSliceExecFns, StringExecFns};
use vstd::utf8::{decode_utf8, encode_utf8};

verus! {

/// The character for a decimal digit `d < 10`.
pub open spec fn digit_char(d: nat) -> char {
    (d + 48) as char
}

/// Decimal rendering of a natural number, without leading zeros.
pub open spec fn decimal(n: nat) -> Seq<char>
    decreases n,
{
    if n < 10 {
        seq![digit_char(n)]
    } else {
        decimal(n / 10) + seq![digit_char(n % 10)]
    }
}

/// Appends one character to a string (std's `String::push`).
#[verifier::external_body]
pub(crate) fn push_char(s: &mut String, c: char)
    ensures
        final(s)@ == old(s)@.push(c),
{
    s.push(c);
}

fn digit(d: u64) -> (c: char)
    requires
        d < 10,
    ensures
        c == digit_char(d as nat),
{
    match d {
        0 => '0',
        1 => '1',
        2 => '2',
        3 => '3',
        4 => '4',
        5 => '5',
        6 => '6',
        7 => '7',
        8 => '8',
        _ => '9',
    }
}

/// Renders `n` in decimal.
pub fn decimal_string(n: u64) -> (s: String)
    ensures
        s@ == decimal(n as nat),
    decreases n,
{
    if n < 10 {
        let mut s = String::new();
        push_char(&mut s, digit(n));
        s
    } else {
        let mut s = decimal_string(n / 10);
        push_char(&mut s, digit(n % 10));
        s
    }
}


/// Unicode `White_Space`, as `char::is_whitespace` documents it.
pub open spec fn is_white(c: char) -> bool {
    let u = c as u32;
    ||| 9 <= u <= 13
    ||| u == 32
    ||| u == 0x85
    ||| u == 0xa0
    ||| u == 0x1680
    ||| 0x2000 <= u <= 0x200a
    ||| u == 0x2028
    ||| u == 0x2029
    ||| u == 0x202f
    ||| u == 0x205f
    ||| u == 0x3000
}

/// Every character of `s` is whitespace (so `s.trim()` is empty).
pub open spec fn all_white(s: Seq<char>) -> bool {
    forall|i: int| 0 <= i < s.len() ==> is_white(#[trigger] s[i])
}

pub fn is_white_char(c: char) -> (r: bool)
    ensures
        r == is_white(c),
{
    let u = c as u32;
    (9 <= u && u <= 13) || u == 32 || u == 0x85 || u == 0xa0 || u == 0x1680 || (0x2000 <= u && u
        <= 0x200a) || u == 0x2028 || u == 0x2029 || u == 0x202f || u == 0x205f || u == 0x3000
}

/// The characters of a string, in order (`str::chars`, collected).
pub fn chars_of(s: &str) -> (r: Vec<char>)
    ensures
        r@ == s@,
{
    broadcast use vstd::string::group_string_axioms;

    let n = s.unicode_len();
    let mut it = s.chars();
    let mut r: Vec<char> = Vec::new();
    while r.len() < n
        invariant
            n == s@.len(),
            r@ + IteratorSpec::remaining(&it) == s@,
        decreases n - r.len(),
    {
        let ghost before = IteratorSpec::remaining(&it);
        assert(before.len() > 0);
        let c = it.next().unwrap();
        assert(before == seq![c] + IteratorSpec::remaining(&it));
        r.push(c);
        assert(r@ + IteratorSpec::remaining(&it) =~= s@);
    }
    assert(IteratorSpec::remaining(&it).len() == 0);
    assert(r@ =~= s@);
    r
}

/// A line without one trailing carriage return.
pub open spec fn strip_cr(line: Seq<char>) -> Seq<char> {
    if line.len() > 0 && line.last() == '\r' {
        line.drop_last()
    } else {
        line
    }
}

/// Reading `s` left to right: the lines finished so far (each ended by a
/// newline, one trailing carriage return removed) and the line being read.
pub open spec fn line_scan(s: Seq<char>) -> (Seq<Seq<char>>, Seq<char>)
    decreases s.len(),
{
    if s.len() == 0 {
        (seq![], seq![])
    } else {
        let (done, cur) = line_scan(s.drop_last());
        if s.last() == '\n' {
            (done.push(strip_cr(cur)), seq![])
        } else {
            (done, cur.push(s.last()))
        }
    }
}

/// The lines of a text as `str::lines` gives them: split at `\n`, a `\r`
/// before the `\n` dropped, and no empty line after a final `\n`.
pub open spec fn text_lines(s: Seq<char>) -> Seq<Seq<char>> {
    let (done, cur) = line_scan(s);
    if cur.len() > 0 {
        done.push(cur)
    } else {
        done
    }
}

/// The lines of `ls` that hold something besides whitespace, in order.
pub open spec fn non_blank(ls: Seq<Seq<char>>) -> Seq<Seq<char>>
    decreases ls.len(),
{
    if ls.len() == 0 {
        seq![]
    } else if all_white(ls.last()) {
        non_blank(ls.drop_last())
    } else {
        non_blank(ls.drop_last()).push(ls.last())
    }
}

/// The views of a sequence of strings.
pub open spec fn strs(v: Seq<String>) -> Seq<Seq<char>> {
    v.map_values(|s: String| s@)
}

pub fn string_from_prefix(v: &Vec<char>, n: usize) -> (r: String)
    requires
        n <= v.len(),
    ensures
        r@ == v@.take(n as int),
{
    let mut r = String::new();
    let mut i: usize = 0;
    while i < n
        invariant
            i <= n <= v.len(),
            r@ == v@.take(i as int),
        decreases n - i,
    {
        push_char(&mut r, v[i]);
        assert(v@.take(i + 1) == v@.take(i as int).push(v@[i as int]));
        i = i + 1;
    }
    r
}

fn all_white_chars(v: &Vec<char>) -> (r: bool)
    ensures
        r == all_white(v@),
{
    let mut i: usize = 0;
    while i < v.len()
        invariant
            i <= v.len(),
            forall|j: int| 0 <= j < i ==> is_white(#[trigger] v@[j]),
        decreases v.len() - i,
    {
        if !is_white_char(v[i]) {
            return false;
        }
        i = i + 1;
    }
    true
}

/// The lines of a log text that are not blank, in order: `str::lines`
/// followed by dropping every line whose `trim()` is empty.
pub fn log_lines(raw: &str) -> (r: Vec<String>)
    ensures
        strs(r@) == non_blank(text_lines(raw@)),
{
    let cs = chars_of(raw);
    let mut out: Vec<String> = Vec::new();
    let mut cur: Vec<char> = Vec::new();
    let ghost mut done: Seq<Seq<char>> = seq![];
    let mut i: usize = 0;
    while i < cs.len()
        invariant
            i <= cs.len(),
            cs@ == raw@,
            line_scan(cs@.take(i as int)) == (done, cur@),
            strs(out@) == non_blank(done),
        decreases cs.len() - i,
    {
        let c = cs[i];
        assert(cs@.take(i + 1).drop_last() == cs@.take(i as int));
        if c == '\n' {
            let n = cur.len();
            let keep = if n > 0 && cur[n - 1] == '\r' {
                n - 1
            } else {
                n
            };
            let ghost line = strip_cr(cur@);
            assert(cur@.take(keep as int) == line);
            let ghost before = done;
            proof {
                done = done.push(line);
            }
            assert(done.drop_last() == before);
            if !all_white_chars_prefix(&cur, keep) {
                let s = string_from_prefix(&cur, keep);
                out.push(s);
                assert(strs(out@) == strs(out@.drop_last()).push(s@));
            }
            cur = Vec::new();
        } else {
            cur.push(c);
        }
        i = i + 1;
    }
    assert(cs@.take(cs.len() as int) == cs@);
    if cur.len() > 0 {
        let ghost before = done;
        proof {
            done = done.push(cur@);
        }
        if !all_white_chars(&cur) {
            let s = string_from_prefix(&cur, cur.len());
            assert(cur@.take(cur.len() as int) == cur@);
            out.push(s);
            assert(strs(out@) == strs(out@.drop_last()).push(s@));
        }
        assert(done.drop_last() == before);
    }
    out
}

fn all_white_chars_prefix(v: &Vec<char>, n: usize) -> (r: bool)
    requires
        n <= v.len(),
    ensures
        r == all_white(v@.take(n as int)),
{
    let mut i: usize = 0;
    while i < n
        invariant
            i <= n <= v.len(),
            forall|j: int| 0 <= j < i ==> is_white(#[trigger] v@[j]),
        decreases n - i,
    {
        if !is_white_char(v[i]) {
            assert(v@.take(n as int)[i as int] == v@[i as int]);
            return false;
        }
        i = i + 1;
    }
    assert forall|j: int| 0 <= j < n implies is_white(#[trigger] v@.take(n as int)[j]) by {
        assert(v@.take(n as int)[j] == v@[j]);
    }
    true
}


/// String equality (`==` on `str`), by comparing the UTF-8 bytes.
pub fn str_eq(a: &str, b: &str) -> (r: bool)
    ensures
        r == (a@ == b@),
{
    broadcast use vstd::utf8::encode_utf8_decode_utf8;

    let x = a.as_bytes();
    let y = b.as_bytes();
    if x.len() != y.len() {
        return false;
    }
    let mut i: usize = 0;
    while i < x.len()
        invariant
            i <= x.len() == y.len(),
            x@ == encode_utf8(a@),
            y@ == encode_utf8(b@),
            forall|j: int| 0 <= j < i ==> x@[j] == y@[j],
        decreases x.len() - i,
    {
        if x[i] != y[i] {
            return false;
        }
        i = i + 1;
    }
    assert(x@ =~= y@);
    assert(decode_utf8(encode_utf8(a@)) == a@);
    assert(decode_utf8(encode_utf8(b@)) == b@);
    true
}

/// Whether `s` ends with `suffix` (`str::ends_with` with a `&str`).
pub fn ends_with(s: &str, suffix: &str) -> (r: bool)
    ensures
        r == suffix@.is_suffix_of(s@),
{
    let cs = chars_of(s);
    let ct = chars_of(suffix);
    if ct.len() > cs.len() {
        return false;
    }
    let off = cs.len() - ct.len();
    let mut i: usize = 0;
    while i < ct.len()
        invariant
            i <= ct.len(),
            off + ct.len() == cs.len(),
            cs@ == s@,
            ct@ == suffix@,
            forall|j: int| 0 <= j < i ==> ct@[j] == cs@[off + j],
        decreases ct.len() - i,
    {
        if ct[i] != cs[off + i] {
            assert(suffix@[i as int] != s@.subrange(off as int, s@.len() as int)[i as int]);
            return false;
        }
        i = i + 1;
    }
    assert(suffix@ =~= s@.subrange(off as int, s@.len() as int));
    true
}

/// The lowercase hexadecimal digit for `d < 16`.
pub open spec fn hex_digit(d: nat) -> char {
    if d < 10 {
        (d + 48) as char
    } else {
        (d + 87) as char
    }
}

/// Lowercase hexadecimal rendering, two digits per byte (`{:02x}` each).
pub open spec fn hex_text(b: Seq<u8>) -> Seq<char>
    decreases b.len(),
{
    if b.len() == 0 {
        seq![]
    } else {
        hex_text(b.drop_last()) + seq![hex_digit(b.last() as nat / 16), hex_digit(b.last() as nat % 16)]
    }
}

fn hex_char(d: u8) -> (c: char)
    requires
        d < 16,
    ensures
        c == hex_digit(d as nat),
{
    match d {
        0 => '0',
        1 => '1',
        2 => '2',
        3 => '3',
        4 => '4',
        5 => '5',
        6 => '6',
        7 => '7',
        8 => '8',
        9 => '9',
        10 => 'a',
        11 => 'b',
        12 => 'c',
        13 => 'd',
        14 => 'e',
        _ => 'f',
    }
}

/// Renders bytes as lowercase hex, two digits per byte.
pub fn hex(bytes: &[u8]) -> (r: String)
    ensures
        r@ == hex_text(bytes@),
{
    let mut r = String::new();
    let mut i: usize = 0;
    while i < bytes.len()
        invariant
            i <= bytes.len(),
            r@ == hex_text(bytes@.take(i as int)),
        decreases bytes.len() - i,
    {
        let b = bytes[i];
        assert(bytes@.take(i + 1).drop_last() == bytes@.take(i as int));
        push_char(&mut r, hex_char(b / 16));
        push_char(&mut r, hex_char(b % 16));
        i = i + 1;
    }
    assert(bytes@.take(bytes.len() as int) == bytes@);
    r
}

/// A lowercase hexadecimal digit: `0`-`9` or `a`-`f`.
pub open spec fn is_hex_digit(c: char) -> bool {
    (48 <= c as u32 <= 57) || (97 <= c as u32 <= 102)
}

/// The value of a lowercase hexadecimal digit (as `u8::from_str_radix` with
/// radix 16 reads it).
pub open spec fn hex_value(c: char) -> int {
    if 48 <= c as u32 <= 57 {
        c as u32 - 48
    } else {
        c as u32 - 87
    }
}

proof fn lemma_hex_digit(d: nat)
    requires
        d < 16,
    ensures
        is_hex_digit(hex_digit(d)),
        hex_value(hex_digit(d)) == d,
{
    if d < 10 {
        assert(((d + 48) as char) as u32 == d + 48);
    } else {
        assert(((d + 87) as char) as u32 == d + 87);
    }
}

/// The hex rendering has two lowercase hex digits per byte, and the two
/// digits at `2i`, `2i + 1` read back as byte `i`.
pub proof fn lemma_hex_text(b: Seq<u8>)
    ensures
        hex_text(b).len() == 2 * b.len(),
        forall|k: int| 0 <= k < hex_text(b).len() ==> is_hex_digit(#[trigger] hex_text(b)[k]),
        forall|i: int|
            0 <= i < b.len() ==> 16 * hex_value(#[trigger] hex_text(b)[2 * i]) + hex_value(hex_text(b)[2 * i + 1])
                == b[i],
    decreases b.len(),
{
    if b.len() > 0 {
        let init = b.drop_last();
        lemma_hex_text(init);
        let x = b.last();
        lemma_hex_digit(x as nat / 16);
        lemma_hex_digit(x as nat % 16);
        let t = hex_text(b);
        let ti = hex_text(init);
        assert(t == ti + seq![hex_digit(x as nat / 16), hex_digit(x as nat % 16)]);
        assert forall|k: int| 0 <= k < t.len() implies is_hex_digit(#[trigger] t[k]) by {
            if k < ti.len() {
                assert(t[k] == ti[k]);
            }
        }
        assert forall|i: int| 0 <= i < b.len() implies 16 * hex_value(#[trigger] t[2 * i]) + hex_value(t[2 * i + 1])
            == b[i] by {
            if i < init.len() {
                assert(t[2 * i] == ti[2 * i]);
                assert(t[2 * i + 1] == ti[2 * i + 1]);
                assert(init[i] == b[i]);
            } else {
                assert(t[2 * i] == hex_digit(x as nat / 16));
                assert(t[2 * i + 1] == hex_digit(x as nat % 16));
            }
        }
    }
}

/// Reading `s` left to right: the words finished so far and the word being
/// read, words being maximal runs of non-whitespace.
pub open spec fn word_scan(s: Seq<char>) -> (Seq<Seq<char>>, Seq<char>)
    decreases s.len(),
{
    if s.len() == 0 {
        (seq![], seq![])
    } else {
        let (done, cur) = word_scan(s.drop_last());
        if is_white(s.last()) {
            if cur.len() > 0 {
                (done.push(cur), seq![])
            } else {
                (done, cur)
            }
        } else {
            (done, cur.push(s.last()))
        }
    }
}

/// The words of a text as `str::split_whitespace` gives them.
pub open spec fn text_words(s: Seq<char>) -> Seq<Seq<char>> {
    let (done, cur) = word_scan(s);
    if cur.len() > 0 {
        done.push(cur)
    } else {
        done
    }
}

/// The whitespace-separated words of `text`, in order.
pub fn words(text: &str) -> (r: Vec<String>)
    ensures
        strs(r@) == text_words(text@),
{
    let cs = chars_of(text);
    let mut out: Vec<String> = Vec::new();
    let mut cur: Vec<char> = Vec::new();
    let ghost mut done: Seq<Seq<char>> = seq![];
    let mut i: usize = 0;
    while i < cs.len()
        invariant
            i <= cs.len(),
            cs@ == text@,
            word_scan(cs@.take(i as int)) == (done, cur@),
            strs(out@) == done,
        decreases cs.len() - i,
    {
        let c = cs[i];
        assert(cs@.take(i + 1).drop_last() == cs@.take(i as int));
        if is_white_char(c) {
            if cur.len() > 0 {
                let s = string_from_prefix(&cur, cur.len());
                assert(cur@.take(cur.len() as int) == cur@);
                proof {
                    done = done.push(cur@);
                }
                out.push(s);
                assert(strs(out@) == strs(out@.drop_last()).push(s@));
                cur = Vec::new();
            }
        } else {
            cur.push(c);
        }
        i = i + 1;
    }
    assert(cs@.take(cs.len() as int) == cs@);
    if cur.len() > 0 {
        let s = string_from_prefix(&cur, cur.len());
        assert(cur@.take(cur.len() as int) == cur@);
        out.push(s);
        assert(strs(out@) == strs(out@.drop_last()).push(s@));
    }
    out
}

/// Each line followed by a newline, all concatenated
/// (`lines.join("\n") + "\n"` for a non-empty list).
pub open spec fn terminated(ls: Seq<Seq<char>>) -> Seq<char>
    decreases ls.len(),
{
    if ls.len() == 0 {
        seq![]
    } else {
        terminated(ls.drop_last()) + ls.last() + seq!['\n']
    }
}

/// The first `n` lines, each followed by a newline.
pub fn terminated_prefix(lines: &[String], n: usize) -> (r: String)
    requires
        n <= lines.len(),
    ensures
        r@ == terminated(strs(lines@).take(n as int)),
{
    let mut r = String::new();
    let mut i: usize = 0;
    while i < n
        invariant
            i <= n <= lines.len(),
            r@ == terminated(strs(lines@).take(i as int)),
        decreases n - i,
    {
        assert(strs(lines@).take(i + 1).drop_last() == strs(lines@).take(i as int));
        r.append(lines[i].as_str());
        push_char(&mut r, '\n');
        i = i + 1;
    }
    r
}

/// Every line kept is non-blank, and every non-blank line is kept: the kept
/// lines are exactly the non-blank ones, in order.
pub proof fn lemma_non_blank(ls: Seq<Seq<char>>)
    ensures
        forall|i: int| 0 <= i < non_blank(ls).len() ==> !all_white(#[trigger] non_blank(ls)[i]),
        forall|i: int| 0 <= i < ls.len() && !all_white(#[trigger] ls[i]) ==> non_blank(ls).contains(ls[i]),
        forall|i: int| 0 <= i < non_blank(ls).len() ==> ls.contains(#[trigger] non_blank(ls)[i]),
    decreases ls.len(),
{
    if ls.len() > 0 {
        let init = ls.drop_last();
        lemma_non_blank(init);
        assert forall|i: int| 0 <= i < ls.len() && !all_white(#[trigger] ls[i]) implies non_blank(ls).contains(ls[i]) by {
            if i < ls.len() - 1 {
                assert(init[i] == ls[i]);
                let j = choose|j: int| 0 <= j < non_blank(init).len() && non_blank(init)[j] == init[i];
                assert(non_blank(ls)[j] == ls[i]);
            } else {
                assert(non_blank(ls).last() == ls[i]);
            }
        }
        assert forall|i: int| 0 <= i < non_blank(ls).len() implies ls.contains(#[trigger] non_blank(ls)[i]) by {
            if i < non_blank(init).len() {
                assert(non_blank(ls)[i] == non_blank(init)[i]);
                let j = choose|j: int| 0 <= j < init.len() && init[j] == non_blank(init)[i];
                assert(ls[j] == init[j]);
            } else {
                assert(non_blank(ls)[i] == ls.last());
            }
        }
    }
}

} // verus!
