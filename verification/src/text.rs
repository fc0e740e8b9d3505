//! Text utilities over Unicode scalar values: searching, splitting, trimming,
//! and decimal numbers. Every function is specified over `Seq<char>`, the view
//! of `str` and `String`.

use vstd::prelude::*;

verus! {

/// The characters of `s`, in order.
pub fn to_chars(s: &str) -> (v: Vec<char>)
    ensures
        v@ == s@,
{
    let mut v: Vec<char> = Vec::new();
    for c in it: s.chars()
        invariant
            v@ == it.seq().take(it.index() as int),
            it.seq() == s@,
    {
        v.push(c);
    }
    v
}

/// The characters `from..to` of `s` as an owned string.
pub fn slice_text(s: &str, from: usize, to: usize) -> (r: String)
    requires
        from <= to <= s@.len(),
    ensures
        r@ == s@.subrange(from as int, to as int),
{
    s.substring_char(from, to).to_owned()
}

/// The text of an optional string.
pub open spec fn text_of(s: Option<String>) -> Option<Seq<char>> {
    match s {
        Some(t) => Some(t@),
        None => None,
    }
}

/// The number in an optional 64-bit integer.
pub open spec fn int_of(n: Option<i64>) -> Option<int> {
    match n {
        Some(v) => Some(v as int),
        None => None,
    }
}

/// Whether two texts hold the same characters.
pub fn same_text(a: &str, b: &str) -> (r: bool)
    ensures
        r == (a@ == b@),
{
    let x: String = a.to_owned();
    let y: String = b.to_owned();
    x == y
}

/// Whether `c` is one of the ASCII digits `0` to `9`.
pub open spec fn is_digit(c: char) -> bool {
    '0' <= c && c <= '9'
}

/// The number that the ASCII digit `c` stands for.
pub open spec fn digit_value(c: char) -> nat
    recommends
        is_digit(c),
{
    (c as u32 - '0' as u32) as nat
}

/// The number that a run of ASCII digits stands for in base ten; the empty run is zero.
pub open spec fn decimal_value(digits: Seq<char>) -> nat
    decreases digits.len(),
{
    if digits.len() == 0 {
        0
    } else {
        decimal_value(digits.drop_last()) * 10 + digit_value(digits.last())
    }
}

/// Whether every character of `s` is an ASCII digit.
pub open spec fn all_digits(s: Seq<char>) -> bool {
    forall|i: int| 0 <= i < s.len() ==> is_digit(#[trigger] s[i])
}

/// Whether `c` is one of the ASCII digits `0` to `9`.
pub fn char_is_digit(c: char) -> (r: bool)
    ensures
        r == is_digit(c),
{
    '0' <= c && c <= '9'
}

/// The number that the ASCII digit `c` stands for.
pub fn char_digit_value(c: char) -> (r: u8)
    requires
        is_digit(c),
    ensures
        r == digit_value(c),
        r <= 9,
{
    (c as u32 - '0' as u32) as u8
}

/// A prefix of a run of digits never stands for more than the whole run.
pub proof fn lemma_decimal_value_prefix(digits: Seq<char>, k: int)
    requires
        0 <= k <= digits.len(),
    ensures
        decimal_value(digits.take(k)) <= decimal_value(digits),
    decreases digits.len(),
{
    if k == digits.len() {
        assert(digits.take(k) =~= digits);
    } else {
        lemma_decimal_value_prefix(digits.drop_last(), k);
        assert(digits.drop_last().take(k) =~= digits.take(k));
    }
}

/// What `s` reads as when it is an unsigned decimal number: an optional `+`,
/// then one or more ASCII digits. `None` for every other text.
pub open spec fn unsigned_of(s: Seq<char>) -> Option<nat> {
    let body = if s.len() > 0 && s[0] == '+' {
        s.drop_first()
    } else {
        s
    };
    if body.len() > 0 && all_digits(body) {
        Some(decimal_value(body))
    } else {
        None
    }
}

/// What `s` reads as when it is a signed decimal number: an optional `+` or `-`,
/// then one or more ASCII digits. `None` for every other text.
pub open spec fn signed_of(s: Seq<char>) -> Option<int> {
    if s.len() > 0 && s[0] == '-' {
        let body = s.drop_first();
        if body.len() > 0 && all_digits(body) {
            Some(-(decimal_value(body) as int))
        } else {
            None
        }
    } else {
        match unsigned_of(s) {
            Some(v) => Some(v as int),
            None => None,
        }
    }
}

/// Reads the digits `chars[start..]` as a number of at most `max`.
fn parse_digits(chars: &Vec<char>, start: usize, max: u64) -> (r: Option<u64>)
    requires
        start <= chars.len(),
    ensures
        r == ({
            let body = chars@.skip(start as int);
            if body.len() > 0 && all_digits(body) && decimal_value(body) <= max {
                Some(decimal_value(body) as u64)
            } else {
                None
            }
        }),
{
    let n: usize = chars.len();
    let ghost body = chars@.skip(start as int);
    if start == n {
        return None;
    }
    let mut acc: u64 = 0;
    let mut i: usize = start;
    while i < n
        invariant
            start <= i <= n,
            n == chars.len(),
            body == chars@.skip(start as int),
            all_digits(body.take(i - start)),
            acc == decimal_value(body.take(i - start)),
            acc <= max,
        decreases n - i,
    {
        let c: char = chars[i];
        let ghost next = body.take(i - start + 1);
        proof {
            assert(body[i - start] == c);
            assert(next.drop_last() =~= body.take(i - start));
            assert(next.last() == c);
        }
        if !char_is_digit(c) {
            return None;
        }
        let d: u64 = char_digit_value(c) as u64;
        if d > max || acc > (max - d) / 10 {
            proof {
                assert(decimal_value(next) == acc * 10 + d);
                assert(acc * 10 + d > max);
                if all_digits(body) {
                    lemma_decimal_value_prefix(body, i - start + 1);
                }
            }
            return None;
        }
        acc = acc * 10 + d;
        i = i + 1;
        proof {
            assert forall|j: int| 0 <= j < next.len() implies is_digit(#[trigger] next[j]) by {
                if j < next.len() - 1 {
                    assert(next[j] == body.take(i - 1 - start)[j]);
                }
            }
        }
    }
    proof {
        assert(body.take(i - start) =~= body);
    }
    Some(acc)
}

/// Reads `s` as an unsigned decimal number no greater than `max`.
pub fn parse_unsigned(s: &str, max: u64) -> (r: Option<u64>)
    ensures
        r == match unsigned_of(s@) {
            Some(v) => if v <= max {
                Some(v as u64)
            } else {
                None
            },
            None => None,
        },
{
    let chars = to_chars(s);
    if chars.len() > 0 && chars[0] == '+' {
        proof {
            assert(chars@.skip(1) =~= s@.drop_first());
        }
        parse_digits(&chars, 1, max)
    } else {
        proof {
            assert(chars@.skip(0) =~= s@);
        }
        parse_digits(&chars, 0, max)
    }
}

/// Reads `s` as a signed decimal number that fits in 64 bits.
pub fn parse_signed(s: &str) -> (r: Option<i64>)
    ensures
        r == match signed_of(s@) {
            Some(v) => if i64::MIN <= v <= i64::MAX {
                Some(v as i64)
            } else {
                None
            },
            None => None,
        },
{
    let chars = to_chars(s);
    if chars.len() > 0 && chars[0] == '-' {
        proof {
            assert(chars@.skip(1) =~= s@.drop_first());
        }
        match parse_digits(&chars, 1, 0x8000_0000_0000_0000u64) {
            Some(m) => {
                if m == 0x8000_0000_0000_0000u64 {
                    Some(i64::MIN)
                } else {
                    Some(-(m as i64))
                }
            },
            None => None,
        }
    } else {
        match parse_unsigned(s, 0x7fff_ffff_ffff_ffffu64) {
            Some(m) => Some(m as i64),
            None => None,
        }
    }
}

/// The ASCII digit that stands for `d`.
pub open spec fn digit_char(d: nat) -> char
    recommends
        d < 10,
{
    if d == 0 {
        '0'
    } else if d == 1 {
        '1'
    } else if d == 2 {
        '2'
    } else if d == 3 {
        '3'
    } else if d == 4 {
        '4'
    } else if d == 5 {
        '5'
    } else if d == 6 {
        '6'
    } else if d == 7 {
        '7'
    } else if d == 8 {
        '8'
    } else {
        '9'
    }
}

/// The base-ten digits of `n`, most significant first, without leading zeros.
pub open spec fn unsigned_text(n: nat) -> Seq<char>
    decreases n,
{
    if n < 10 {
        seq![digit_char(n)]
    } else {
        unsigned_text(n / 10).push(digit_char(n % 10))
    }
}

/// The base-ten rendering of `n`, with a leading `-` for negative numbers.
pub open spec fn decimal_text(n: int) -> Seq<char> {
    if n < 0 {
        seq!['-'] + unsigned_text((-n) as nat)
    } else {
        unsigned_text(n as nat)
    }
}

/// The ASCII digit that stands for `d`, as a text.
fn digit_str(d: u8) -> (r: &'static str)
    requires
        d < 10,
    ensures
        r@ == seq![digit_char(d as nat)],
{
    proof {
        reveal_strlit("0");
        reveal_strlit("1");
        reveal_strlit("2");
        reveal_strlit("3");
        reveal_strlit("4");
        reveal_strlit("5");
        reveal_strlit("6");
        reveal_strlit("7");
        reveal_strlit("8");
        reveal_strlit("9");
    }
    let r: &'static str = if d == 0 {
        "0"
    } else if d == 1 {
        "1"
    } else if d == 2 {
        "2"
    } else if d == 3 {
        "3"
    } else if d == 4 {
        "4"
    } else if d == 5 {
        "5"
    } else if d == 6 {
        "6"
    } else if d == 7 {
        "7"
    } else if d == 8 {
        "8"
    } else {
        "9"
    };
    assert(r@ =~= seq![digit_char(d as nat)]);
    r
}

/// Appends the base-ten digits of `n` to `out`.
fn push_unsigned(out: &mut String, n: u64)
    ensures
        final(out)@ == old(out)@ + unsigned_text(n as nat),
    decreases n,
{
    if n < 10 {
        out.append(digit_str(n as u8));
    } else {
        push_unsigned(out, n / 10);
        out.append(digit_str((n % 10) as u8));
        proof {
            assert(final(out)@ =~= old(out)@ + unsigned_text(n as nat));
        }
    }
}

/// The base-ten rendering of `n`.
pub fn decimal(n: i64) -> (r: String)
    ensures
        r@ == decimal_text(n as int),
{
    let mut out = String::new();
    if n < 0 {
        proof {
            reveal_strlit("-");
        }
        out.append("-");
        let m: u64 = if n == i64::MIN {
            0x8000_0000_0000_0000u64
        } else {
            (-n) as u64
        };
        push_unsigned(&mut out, m);
        proof {
            assert(out@ =~= seq!['-'] + unsigned_text((-n) as nat));
        }
    } else {
        push_unsigned(&mut out, n as u64);
        proof {
            assert(out@ =~= unsigned_text(n as nat));
        }
    }
    out
}

/// Whether `needle` stands in `hay` at position `i`.
pub open spec fn occurs_at(hay: Seq<char>, needle: Seq<char>, i: int) -> bool {
    0 <= i && i + needle.len() <= hay.len() && hay.subrange(i, i + needle.len()) == needle
}

/// Whether `needle` stands somewhere in `hay`. The empty text stands in every text.
pub open spec fn contains_text(hay: Seq<char>, needle: Seq<char>) -> bool {
    exists|i: int| occurs_at(hay, needle, i)
}

/// Whether `needle` stands in `hay` at position `i`.
fn matches_at(hay: &Vec<char>, needle: &Vec<char>, i: usize) -> (r: bool)
    requires
        i + needle.len() <= hay.len(),
    ensures
        r == occurs_at(hay@, needle@, i as int),
{
    let m: usize = needle.len();
    let mut j: usize = 0;
    while j < m
        invariant
            j <= m,
            m == needle.len(),
            i + m <= hay.len(),
            forall|k: int| 0 <= k < j ==> hay@[i + k] == needle@[k],
        decreases m - j,
    {
        if hay[i + j] != needle[j] {
            proof {
                assert(hay@.subrange(i as int, i + m)[j as int] == hay@[i + j]);
            }
            return false;
        }
        j = j + 1;
    }
    proof {
        assert(hay@.subrange(i as int, i + m) =~= needle@);
    }
    true
}

/// Whether `needle` stands somewhere in `hay`.
pub fn contains(hay: &str, needle: &str) -> (r: bool)
    ensures
        r == contains_text(hay@, needle@),
{
    let h = to_chars(hay);
    let n = to_chars(needle);
    if n.len() > h.len() {
        return false;
    }
    let last: usize = h.len() - n.len();
    let mut i: usize = 0;
    loop
        invariant
            i <= last,
            last == h.len() - n.len(),
            h@ == hay@,
            n@ == needle@,
            forall|k: int| 0 <= k < i ==> !occurs_at(h@, n@, k),
        decreases last - i,
    {
        if matches_at(&h, &n, i) {
            return true;
        }
        if i == last {
            return false;
        }
        i = i + 1;
    }
}

/// Whether `s` begins with `prefix`.
pub fn starts_with(s: &str, prefix: &str) -> (r: bool)
    ensures
        r == prefix@.is_prefix_of(s@),
{
    let h = to_chars(s);
    let n = to_chars(prefix);
    if n.len() > h.len() {
        return false;
    }
    let r = matches_at(&h, &n, 0);
    proof {
        assert(r == prefix@.is_prefix_of(s@));
    }
    r
}

/// The pieces of `s` between occurrences of `sep`, in order. A text without
/// `sep` is one piece; a text with `n` occurrences has `n + 1` pieces, some
/// of which may be empty.
pub open spec fn split_text(s: Seq<char>, sep: char) -> Seq<Seq<char>>
    decreases s.len(),
{
    if s.len() == 0 {
        seq![Seq::<char>::empty()]
    } else {
        let before = split_text(s.drop_last(), sep);
        if s.last() == sep {
            before.push(Seq::<char>::empty())
        } else {
            before.drop_last().push(before.last().push(s.last()))
        }
    }
}

/// Splitting always yields at least one piece.
pub proof fn lemma_split_nonempty(s: Seq<char>, sep: char)
    ensures
        split_text(s, sep).len() >= 1,
    decreases s.len(),
{
    if s.len() > 0 {
        lemma_split_nonempty(s.drop_last(), sep);
    }
}

/// The texts that a list of strings holds, in order.
pub open spec fn texts(list: Seq<String>) -> Seq<Seq<char>> {
    Seq::new(list.len(), |i: int| list[i]@)
}

/// Pushing a string onto a list pushes its text onto the list's texts.
pub proof fn lemma_texts_push(list: Seq<String>, item: String)
    ensures
        texts(list.push(item)) == texts(list).push(item@),
{
    assert(texts(list.push(item)) =~= texts(list).push(item@));
}

/// A copy of a list of strings.
pub fn copy_texts(list: &Vec<String>) -> (copy: Vec<String>)
    ensures
        texts(copy@) == texts(list@),
{
    let mut copy: Vec<String> = Vec::new();
    let n: usize = list.len();
    let mut i: usize = 0;
    while i < n
        invariant
            i <= n,
            n == list.len(),
            texts(copy@) == texts(list@).take(i as int),
        decreases n - i,
    {
        let ghost before = copy@;
        let item = list[i].clone();
        copy.push(item);
        proof {
            lemma_texts_push(before, item);
            assert(texts(list@).take(i + 1) =~= texts(list@).take(i as int).push(list@[i as int]@));
        }
        i = i + 1;
    }
    proof {
        assert(texts(list@).take(n as int) =~= texts(list@));
    }
    copy
}

/// The pieces of `s` between occurrences of `sep`.
pub fn split(s: &str, sep: char) -> (pieces: Vec<String>)
    ensures
        texts(pieces@) == split_text(s@, sep),
{
    let chars = to_chars(s);
    let n: usize = chars.len();
    let mut pieces: Vec<String> = Vec::new();
    let mut start: usize = 0;
    let mut i: usize = 0;
    proof {
        assert(s@.take(0) =~= Seq::<char>::empty());
        assert(texts(pieces@).push(s@.subrange(0, 0)) =~= split_text(s@.take(0), sep));
    }
    while i < n
        invariant
            start <= i <= n,
            n == chars.len(),
            chars@ == s@,
            texts(pieces@).push(s@.subrange(start as int, i as int)) == split_text(
                s@.take(i as int),
                sep,
            ),
        decreases n - i,
    {
        let c: char = chars[i];
        let ghost before = split_text(s@.take(i as int), sep);
        let ghost done = texts(pieces@);
        proof {
            assert(s@.take(i + 1).drop_last() =~= s@.take(i as int));
            assert(s@.take(i + 1).last() == c);
            assert(before.last() == s@.subrange(start as int, i as int));
            assert(before.drop_last() =~= done);
        }
        if c == sep {
            let piece = slice_text(s, start, i);
            let ghost prev = pieces@;
            pieces.push(piece);
            start = i + 1;
            proof {
                lemma_texts_push(prev, piece);
                assert(s@.subrange(i + 1, i + 1) =~= Seq::<char>::empty());
            }
        } else {
            proof {
                assert(s@.subrange(start as int, i as int).push(c) =~= s@.subrange(
                    start as int,
                    i + 1,
                ));
            }
        }
        i = i + 1;
    }
    let piece = slice_text(s, start, n);
    let ghost prev = pieces@;
    pieces.push(piece);
    proof {
        assert(s@.take(n as int) =~= s@);
        lemma_texts_push(prev, piece);
    }
    pieces
}

/// How many characters at the front of `s` satisfy `strip`, up to the first that does not.
pub open spec fn leading(s: Seq<char>, strip: spec_fn(char) -> bool) -> nat
    decreases s.len(),
{
    if s.len() > 0 && strip(s[0]) {
        1 + leading(s.drop_first(), strip)
    } else {
        0
    }
}

/// How many characters at the back of `s` satisfy `strip`, down to the last that does not.
pub open spec fn trailing(s: Seq<char>, strip: spec_fn(char) -> bool) -> nat
    decreases s.len(),
{
    if s.len() > 0 && strip(s.last()) {
        1 + trailing(s.drop_last(), strip)
    } else {
        0
    }
}

/// `s` without the characters at its front and at its back that satisfy `strip`.
pub open spec fn stripped(s: Seq<char>, strip: spec_fn(char) -> bool) -> Seq<char> {
    let rest = s.skip(leading(s, strip) as int);
    rest.take(rest.len() - trailing(rest, strip))
}

/// `leading` is the index of the first character that does not satisfy `strip`.
pub proof fn lemma_leading_is(s: Seq<char>, strip: spec_fn(char) -> bool, a: int)
    requires
        0 <= a <= s.len(),
        forall|i: int| 0 <= i < a ==> strip(#[trigger] s[i]),
        a == s.len() || !strip(s[a]),
    ensures
        leading(s, strip) == a,
    decreases a,
{
    if a > 0 {
        let rest = s.drop_first();
        assert forall|i: int| 0 <= i < a - 1 implies strip(#[trigger] rest[i]) by {
            assert(rest[i] == s[i + 1]);
        }
        lemma_leading_is(rest, strip, a - 1);
    }
}

/// `trailing` is the distance from the end of the last character that does not satisfy `strip`.
pub proof fn lemma_trailing_is(s: Seq<char>, strip: spec_fn(char) -> bool, b: int)
    requires
        0 <= b <= s.len(),
        forall|i: int| b <= i < s.len() ==> strip(#[trigger] s[i]),
        b == 0 || !strip(s[b - 1]),
    ensures
        trailing(s, strip) == s.len() - b,
    decreases s.len() - b,
{
    if b < s.len() {
        let rest = s.drop_last();
        assert forall|i: int| b <= i < rest.len() implies strip(#[trigger] rest[i]) by {
            assert(rest[i] == s[i]);
        }
        lemma_trailing_is(rest, strip, b);
    }
}

/// The bounds of what is left of `s` once the flagged characters at both ends are gone.
fn strip_bounds(
    flags: &Vec<bool>,
    Ghost(s): Ghost<Seq<char>>,
    Ghost(strip): Ghost<spec_fn(char) -> bool>,
) -> (r: (usize, usize))
    requires
        flags.len() == s.len(),
        forall|i: int| 0 <= i < s.len() ==> flags[i] == strip(#[trigger] s[i]),
    ensures
        r.0 <= r.1 <= s.len(),
        s.subrange(r.0 as int, r.1 as int) == stripped(s, strip),
{
    let n: usize = flags.len();
    let mut a: usize = 0;
    while a < n && flags[a]
        invariant
            a <= n,
            n == flags.len(),
            flags.len() == s.len(),
            forall|i: int| 0 <= i < s.len() ==> flags[i] == strip(#[trigger] s[i]),
            forall|i: int| 0 <= i < a ==> strip(#[trigger] s[i]),
        decreases n - a,
    {
        a = a + 1;
    }
    let mut b: usize = n;
    while b > a && flags[b - 1]
        invariant
            a <= b <= n,
            n == flags.len(),
            flags.len() == s.len(),
            forall|i: int| 0 <= i < s.len() ==> flags[i] == strip(#[trigger] s[i]),
            forall|i: int| b <= i < n ==> strip(#[trigger] s[i]),
        decreases b,
    {
        b = b - 1;
    }
    proof {
        lemma_leading_is(s, strip, a as int);
        let rest = s.skip(a as int);
        assert forall|i: int| b - a <= i < rest.len() implies strip(#[trigger] rest[i]) by {
            assert(rest[i] == s[i + a]);
        }
        if b > a {
            assert(rest[b - a - 1] == s[b - 1]);
        }
        lemma_trailing_is(rest, strip, b - a);
        assert(s.subrange(a as int, b as int) =~= rest.take(rest.len() - (rest.len() - (b - a))));
    }
    (a, b)
}

/// Whether `c` is white space: one of the 25 characters that have the
/// Unicode property `White_Space`. They are the tab, the four line and page
/// breaks after it, the space, the next line, the no-break space, the ogham
/// space mark, the eleven spaces from the en quad to the hair space, the
/// line and the paragraph separator, the narrow no-break space, the medium
/// mathematical space and the ideographic space.
pub open spec fn white_space(c: char) -> bool {
    let n = c as u32;
    ||| 0x0009 <= n <= 0x000d
    ||| n == 0x0020
    ||| n == 0x0085
    ||| n == 0x00a0
    ||| n == 0x1680
    ||| 0x2000 <= n <= 0x200a
    ||| n == 0x2028
    ||| n == 0x2029
    ||| n == 0x202f
    ||| n == 0x205f
    ||| n == 0x3000
}

/// Whether `c` is white space.
pub fn is_blank(c: char) -> (r: bool)
    ensures
        r == white_space(c),
{
    let n: u32 = c as u32;
    if n <= 0x00a0 {
        (0x0009 <= n && n <= 0x000d) || n == 0x0020 || n == 0x0085 || n == 0x00a0
    } else if n <= 0x200a {
        n == 0x1680 || 0x2000 <= n
    } else {
        n == 0x2028 || n == 0x2029 || n == 0x202f || n == 0x205f || n == 0x3000
    }
}

/// The test for white space, as a predicate.
pub open spec fn blank() -> spec_fn(char) -> bool {
    |c: char| white_space(c)
}

/// The test for being the character `c`, as a predicate.
pub open spec fn exactly(c: char) -> spec_fn(char) -> bool {
    |x: char| x == c
}

/// `s` without the white space at its front and at its back.
pub open spec fn trimmed(s: Seq<char>) -> Seq<char> {
    stripped(s, blank())
}

/// `s` without the white space at its front and at its back.
pub fn trim(s: &str) -> (r: String)
    ensures
        r@ == trimmed(s@),
{
    let chars = to_chars(s);
    let n: usize = chars.len();
    let mut flags: Vec<bool> = Vec::new();
    let mut i: usize = 0;
    while i < n
        invariant
            i <= n,
            n == chars.len(),
            flags.len() == i,
            forall|k: int| 0 <= k < i ==> flags[k] == blank()(#[trigger] chars@[k]),
        decreases n - i,
    {
        flags.push(is_blank(chars[i]));
        i = i + 1;
    }
    let (a, b) = strip_bounds(&flags, Ghost(s@), Ghost(blank()));
    slice_text(s, a, b)
}

/// `s` without the occurrences of `c` at its front and at its back.
pub fn trim_char(s: &str, c: char) -> (r: String)
    ensures
        r@ == stripped(s@, exactly(c)),
{
    let chars = to_chars(s);
    let n: usize = chars.len();
    let mut flags: Vec<bool> = Vec::new();
    let mut i: usize = 0;
    while i < n
        invariant
            i <= n,
            n == chars.len(),
            flags.len() == i,
            forall|k: int| 0 <= k < i ==> flags[k] == exactly(c)(#[trigger] chars@[k]),
        decreases n - i,
    {
        flags.push(chars[i] == c);
        i = i + 1;
    }
    let (a, b) = strip_bounds(&flags, Ghost(s@), Ghost(exactly(c)));
    slice_text(s, a, b)
}

/// Whether every character of `s` is an ASCII digit.
pub fn is_all_digits(s: &str) -> (r: bool)
    ensures
        r == all_digits(s@),
{
    let chars = to_chars(s);
    let n: usize = chars.len();
    let mut i: usize = 0;
    while i < n
        invariant
            i <= n,
            n == chars.len(),
            chars@ == s@,
            forall|k: int| 0 <= k < i ==> is_digit(#[trigger] s@[k]),
        decreases n - i,
    {
        if !char_is_digit(chars[i]) {
            return false;
        }
        i = i + 1;
    }
    true
}

/// `dir` and then `rest` below it: joined by a slash, unless `dir` is empty
/// or ends in one.
pub open spec fn joined(dir: Seq<char>, rest: Seq<char>) -> Seq<char> {
    if dir.len() == 0 || dir.last() == '/' {
        dir + rest
    } else {
        dir + seq!['/'] + rest
    }
}

/// The path of `rest` below `dir`.
pub fn join_path(dir: &str, rest: &str) -> (path: String)
    ensures
        path@ == joined(dir@, rest@),
{
    let chars = to_chars(dir);
    let n: usize = chars.len();
    let mut path: String = dir.to_owned();
    if n > 0 && chars[n - 1] != '/' {
        proof {
            reveal_strlit("/");
            assert("/"@ =~= seq!['/']);
        }
        path.append("/");
    }
    path.append(rest);
    path
}

} // verus!
