//! Text as sequences of characters: numbers, searching, splitting.
use vstd::prelude::*;
use vstd::string::StringExecFns;

verus! {

/// `String::push` appends one character at the end.
pub assume_specification[ String::push ](s: &mut String, c: char)
    ensures
        final(s)@ == old(s)@.push(c),
;

/// A text in quotes, with escapes, as `str` is written by its `Debug`.
pub uninterp spec fn quoted(text: Seq<char>) -> Seq<char>;

/// `Debug` of `str`: the text in quotes. What is escaped, and how, goes by the
/// text alone and has a name here.
#[verifier::external_body]
pub(crate) fn quote(text: &str) -> (r: String)
    ensures
        r@ == quoted(text@),
{
    format!("{text:?}")
}

// ---------------------------------------------------------------------------
// Characters and digits
// ---------------------------------------------------------------------------

/// The character for the digit value `d`, `0..=9` then `a..=f`.
pub open spec fn digit_char(d: nat) -> char {
    if d < 10 {
        (48 + d) as char
    } else {
        (87 + d) as char
    }
}

pub open spec fn is_decimal_digit(c: char) -> bool {
    '0' <= c <= '9'
}

/// The value of a hexadecimal digit of either case, if `c` is one.
pub open spec fn hex_digit(c: char) -> Option<nat> {
    if '0' <= c <= '9' {
        Some((c as int - 48) as nat)
    } else if 'a' <= c <= 'f' {
        Some((c as int - 87) as nat)
    } else if 'A' <= c <= 'F' {
        Some((c as int - 55) as nat)
    } else {
        None
    }
}

/// The ASCII lower-case form of `c`; every other character is kept.
pub open spec fn lower_char(c: char) -> char {
    if 'A' <= c <= 'Z' {
        (c as int + 32) as char
    } else {
        c
    }
}

pub open spec fn lower(s: Seq<char>) -> Seq<char> {
    s.map_values(|c: char| lower_char(c))
}

fn digit_char_exec(d: u8) -> (c: char)
    requires
        d < 16,
    ensures
        c == digit_char(d as nat),
{
    if d < 10 {
        (48u8 + d) as char
    } else {
        (87u8 + d) as char
    }
}

pub fn hex_digit_exec(c: char) -> (r: Option<u8>)
    ensures
        r matches Some(d) ==> hex_digit(c) == Some(d as nat) && d < 16,
        r is None ==> hex_digit(c) is None,
{
    if '0' <= c && c <= '9' {
        Some((c as u32 - 48) as u8)
    } else if 'a' <= c && c <= 'f' {
        Some((c as u32 - 87) as u8)
    } else if 'A' <= c && c <= 'F' {
        Some((c as u32 - 55) as u8)
    } else {
        None
    }
}

pub fn lower_char_exec(c: char) -> (r: char)
    ensures
        r == lower_char(c),
{
    if 'A' <= c && c <= 'Z' {
        (c as u8 + 32) as char
    } else {
        c
    }
}

// ---------------------------------------------------------------------------
// Numbers
// ---------------------------------------------------------------------------

/// The decimal numeral of `n`, without leading zeros.
pub open spec fn decimal(n: nat) -> Seq<char>
    decreases n,
{
    if n < 10 {
        seq![digit_char(n)]
    } else {
        decimal(n / 10).push(digit_char(n % 10))
    }
}

/// The decimal numeral of an integer, with a minus sign when negative.
pub open spec fn decimal_int(n: int) -> Seq<char> {
    if n < 0 {
        seq!['-'] + decimal((-n) as nat)
    } else {
        decimal(n as nat)
    }
}

/// The lower-case hexadecimal numeral of `n`, without leading zeros.
pub open spec fn hex(n: nat) -> Seq<char>
    decreases n,
{
    if n < 16 {
        seq![digit_char(n)]
    } else {
        hex(n / 16).push(digit_char(n % 16))
    }
}

/// The last `width` hexadecimal digits of `n`, padded with zeros on the left.
pub open spec fn hex_padded(n: nat, width: nat) -> Seq<char>
    decreases width,
{
    if width == 0 {
        Seq::empty()
    } else {
        hex_padded(n / 16, (width - 1) as nat).push(digit_char(n % 16))
    }
}

pub open spec fn all_decimal(s: Seq<char>) -> bool {
    forall|i: int| 0 <= i < s.len() ==> is_decimal_digit(#[trigger] s[i])
}

/// The number that a sequence of decimal digits denotes.
pub open spec fn decimal_value(s: Seq<char>) -> nat
    decreases s.len(),
{
    if s.len() == 0 {
        0
    } else {
        decimal_value(s.drop_last()) * 10 + (s.last() as int - 48) as nat
    }
}

/// A non-empty run of decimal digits and its value.
pub open spec fn parse_decimal(s: Seq<char>) -> Option<nat> {
    if s.len() > 0 && all_decimal(s) {
        Some(decimal_value(s))
    } else {
        None
    }
}

/// Reading back the numeral of `n` gives `n`.
pub proof fn lemma_decimal_round_trip(n: nat)
    ensures
        decimal(n).len() > 0,
        all_decimal(decimal(n)),
        decimal_value(decimal(n)) == n,
        n < 10 || decimal(n)[0] != '0',
        parse_decimal(decimal(n)) == Some(n),
    decreases n,
{
    if n < 10 {
        let s = seq![digit_char(n)];
        assert(s.drop_last().len() == 0);
        assert(decimal_value(s.drop_last()) == 0);
        assert(decimal(n) == s);
    } else {
        lemma_decimal_round_trip(n / 10);
        let s = decimal(n);
        assert(s.drop_last() =~= decimal(n / 10));
        if n / 10 < 10 {
            assert(decimal(n / 10)[0] == digit_char(n / 10));
        }
    }
}

/// A numeral has one digit below ten, and one more for each factor of ten.
pub proof fn lemma_decimal_len(n: nat)
    ensures
        n < 10 ==> decimal(n).len() == 1,
        10 <= n < 100 ==> decimal(n).len() == 2,
        100 <= n < 1000 ==> decimal(n).len() == 3,
        1000 <= n ==> decimal(n).len() >= 4,
{
    reveal_with_fuel(decimal, 4);
    if n >= 1000 {
        lemma_decimal_round_trip(n / 10 / 10 / 10);
    }
}

/// Digits without a leading zero are the numeral of their value.
pub proof fn lemma_decimal_canonical(s: Seq<char>)
    requires
        s.len() > 0,
        all_decimal(s),
        s.len() > 1 ==> s[0] != '0',
    ensures
        s == decimal(decimal_value(s)),
        s.len() > 1 ==> decimal_value(s) >= 10,
    decreases s.len(),
{
    let d = (s.last() as int - 48) as nat;
    let v = decimal_value(s.drop_last());
    assert(is_decimal_digit(s.last()));
    assert(d < 10);
    assert(s.last() == digit_char(d));
    if s.len() == 1 {
        assert(decimal_value(s.drop_last()) == 0);
        assert(s =~= seq![digit_char(d)]);
    } else {
        let t = s.drop_last();
        assert(t[0] == s[0]);
        assert(all_decimal(t)) by {
            assert forall|i: int| 0 <= i < t.len() implies is_decimal_digit(#[trigger] t[i]) by {
                assert(t[i] == s[i]);
            }
        }
        lemma_decimal_canonical(t);
        if t.len() == 1 {
            assert(is_decimal_digit(s[0]));
            assert(decimal_value(t.drop_last()) == 0);
            assert(v == (s[0] as int - 48) as nat);
        }
        assert(v >= 1);
        let n = v * 10 + d;
        assert(n / 10 == v && n % 10 == d);
        assert(s =~= t.push(digit_char(d)));
    }
}

pub fn push_decimal(out: &mut String, n: u64)
    ensures
        final(out)@ == old(out)@ + decimal(n as nat),
    decreases n,
{
    if n < 10 {
        out.push(digit_char_exec(n as u8));
        assert(out@ =~= old(out)@ + decimal(n as nat));
    } else {
        push_decimal(out, n / 10);
        out.push(digit_char_exec((n % 10) as u8));
        assert(out@ =~= old(out)@ + decimal(n as nat));
    }
}

pub fn push_decimal_int(out: &mut String, n: i64)
    ensures
        final(out)@ == old(out)@ + decimal_int(n as int),
{
    if n < 0 {
        out.push('-');
        let m: u64 = ((-(n + 1)) as u64) + 1;
        push_decimal(out, m);
        assert(out@ =~= old(out)@ + decimal_int(n as int));
    } else {
        push_decimal(out, n as u64);
    }
}

pub fn decimal_string(n: u64) -> (r: String)
    ensures
        r@ == decimal(n as nat),
{
    let mut out = String::new();
    push_decimal(&mut out, n);
    assert(out@ =~= decimal(n as nat));
    out
}

pub fn push_hex(out: &mut String, n: u64)
    ensures
        final(out)@ == old(out)@ + hex(n as nat),
    decreases n,
{
    if n < 16 {
        out.push(digit_char_exec(n as u8));
        assert(out@ =~= old(out)@ + hex(n as nat));
    } else {
        push_hex(out, n / 16);
        out.push(digit_char_exec((n % 16) as u8));
        assert(out@ =~= old(out)@ + hex(n as nat));
    }
}

pub fn push_hex_padded(out: &mut String, n: u64, width: usize)
    ensures
        final(out)@ == old(out)@ + hex_padded(n as nat, width as nat),
    decreases width,
{
    if width > 0 {
        push_hex_padded(out, n / 16, width - 1);
        out.push(digit_char_exec((n % 16) as u8));
        assert(out@ =~= old(out)@ + hex_padded(n as nat, width as nat));
    } else {
        assert(out@ =~= old(out)@ + hex_padded(n as nat, width as nat));
    }
}

/// A decimal number no greater than `max`; leading zeros are accepted.
pub fn parse_decimal_exec(s: &[char], max: u64) -> (r: Option<u64>)
    requires
        max <= 0xffff_ffff,
    ensures
        r == match parse_decimal(s@) {
            Some(v) => if v <= max {
                Some(v as u64)
            } else {
                None::<u64>
            },
            None => None::<u64>,
        },
{
    if s.len() == 0 {
        return None;
    }
    let mut value: u64 = 0;
    let mut over = false;
    let mut i: usize = 0;
    while i < s.len()
        invariant
            i <= s.len(),
            max <= 0xffff_ffff,
            all_decimal(s@.take(i as int)),
            !over ==> value == decimal_value(s@.take(i as int)) && value <= max,
            over ==> decimal_value(s@.take(i as int)) > max,
        decreases s.len() - i,
    {
        let c = s[i];
        proof {
            assert(s@.take(i + 1).drop_last() =~= s@.take(i as int));
            assert(s@.take(i + 1).last() == c);
        }
        if !('0' <= c && c <= '9') {
            assert(!is_decimal_digit(s@[i as int]));
            return None;
        }
        let d: u64 = c as u64 - 48;
        if !over {
            value = value * 10 + d;
            if value > max {
                over = true;
            }
        }
        proof {
            assert forall|j: int| 0 <= j < i + 1 implies is_decimal_digit(
                #[trigger] s@.take(i + 1)[j],
            ) by {
                if j < i {
                    assert(s@.take(i + 1)[j] == s@.take(i as int)[j]);
                }
            }
        }
        i += 1;
    }
    assert(s@.take(s@.len() as int) =~= s@);
    if over {
        None
    } else {
        Some(value)
    }
}

// ---------------------------------------------------------------------------
// Conversions
// ---------------------------------------------------------------------------

pub fn chars_of(s: &str) -> (r: Vec<char>)
    ensures
        r@ == s@,
{
    let n: usize = s.unicode_len();
    let mut r: Vec<char> = Vec::with_capacity(n);
    for c in it: s.chars()
        invariant
            r@ == it.seq().take(it.index() as int),
    {
        r.push(c);
        assert(it.seq().take(it.index() + 1) =~= it.seq().take(it.index() as int).push(c));
    }
    assert(r@ =~= s@);
    r
}

pub fn string_of(cs: &[char]) -> (r: String)
    ensures
        r@ == cs@,
{
    let mut r = String::new();
    let mut i: usize = 0;
    while i < cs.len()
        invariant
            i <= cs.len(),
            r@ == cs@.take(i as int),
        decreases cs.len() - i,
    {
        r.push(cs[i]);
        i += 1;
        assert(r@ =~= cs@.take(i as int));
    }
    assert(cs@.take(i as int) =~= cs@);
    r
}

pub fn copy_range(cs: &[char], from: usize, to: usize) -> (r: Vec<char>)
    requires
        from <= to <= cs@.len(),
    ensures
        r@ == cs@.subrange(from as int, to as int),
{
    let mut r: Vec<char> = Vec::new();
    let mut i: usize = from;
    while i < to
        invariant
            from <= i <= to <= cs@.len(),
            r@ == cs@.subrange(from as int, i as int),
        decreases to - i,
    {
        r.push(cs[i]);
        i += 1;
        assert(r@ =~= cs@.subrange(from as int, i as int));
    }
    r
}

pub fn same_chars(a: &[char], b: &[char]) -> (r: bool)
    ensures
        r == (a@ == b@),
{
    if a.len() != b.len() {
        return false;
    }
    let mut i: usize = 0;
    while i < a.len()
        invariant
            i <= a.len(),
            a@.len() == b@.len(),
            a@.take(i as int) == b@.take(i as int),
        decreases a.len() - i,
    {
        if a[i] != b[i] {
            return false;
        }
        i += 1;
        assert(a@.take(i as int) =~= b@.take(i as int)) by {
            assert forall|j: int| 0 <= j < i implies a@.take(i as int)[j] == b@.take(i as int)[j] by {
                if j < i - 1 {
                    assert(a@.take(i - 1)[j] == b@.take(i - 1)[j]);
                }
            }
        }
    }
    assert(a@.take(i as int) =~= a@);
    assert(b@.take(i as int) =~= b@);
    true
}

pub fn same_text(a: &str, b: &str) -> (r: bool)
    ensures
        r == (a@ == b@),
{
    same_chars(chars_of(a).as_slice(), chars_of(b).as_slice())
}

// ---------------------------------------------------------------------------
// Searching and splitting
// ---------------------------------------------------------------------------

/// `needle` stands in `hay` at position `i`.
pub open spec fn matches_at(hay: Seq<char>, i: int, needle: Seq<char>) -> bool {
    &&& 0 <= i
    &&& i + needle.len() <= hay.len()
    &&& hay.subrange(i, i + needle.len() as int) == needle
}

/// `needle` occurs somewhere in `hay`.
pub open spec fn contains_text(hay: Seq<char>, needle: Seq<char>) -> bool {
    exists|i: int| #[trigger] matches_at(hay, i, needle)
}

/// The first position at or after `from` where `needle` stands in `hay`.
pub open spec fn find_from(hay: Seq<char>, from: int, needle: Seq<char>) -> Option<int>
    decreases hay.len() + 1 - from,
{
    if from < 0 || from + needle.len() > hay.len() {
        None
    } else if matches_at(hay, from, needle) {
        Some(from)
    } else {
        find_from(hay, from + 1, needle)
    }
}

/// What [`find_from`] finds is an occurrence, and there is none before it.
pub proof fn lemma_find_from(hay: Seq<char>, from: int, needle: Seq<char>)
    requires
        0 <= from,
    ensures
        match find_from(hay, from, needle) {
            Some(k) => {
                &&& from <= k
                &&& matches_at(hay, k, needle)
                &&& forall|j: int| from <= j < k ==> !#[trigger] matches_at(hay, j, needle)
            },
            None => forall|j: int| from <= j ==> !#[trigger] matches_at(hay, j, needle),
        },
    decreases hay.len() + 1 - from,
{
    if from + needle.len() > hay.len() {
    } else if matches_at(hay, from, needle) {
    } else {
        lemma_find_from(hay, from + 1, needle);
    }
}

/// The first occurrence is what is found.
pub proof fn lemma_find_is(hay: Seq<char>, from: int, needle: Seq<char>, n: int)
    requires
        0 <= from <= n,
        matches_at(hay, n, needle),
        forall|j: int| from <= j < n ==> !#[trigger] matches_at(hay, j, needle),
    ensures
        find_from(hay, from, needle) == Some(n),
    decreases n - from,
{
    if from < n {
        assert(!matches_at(hay, from, needle));
        lemma_find_is(hay, from + 1, needle, n);
    }
}

/// `before` ends before the first `needle`: none is in it, nor does one begin
/// in it.
pub open spec fn ends_before(before: Seq<char>, needle: Seq<char>) -> bool {
    needle.len() > 0 && !contains_text(before + needle.drop_last(), needle)
}

/// What follows a prefix is searched from the end of the prefix on, and the
/// first occurrence there is found.
pub proof fn lemma_find_after(
    prefix: Seq<char>,
    before: Seq<char>,
    needle: Seq<char>,
    after: Seq<char>,
)
    requires
        ends_before(before, needle),
    ensures
        find_from(prefix + before + needle + after, prefix.len() as int, needle) == Some(
            (prefix.len() + before.len()) as int,
        ),
{
    let hay = prefix + before + needle + after;
    let n = (prefix.len() + before.len()) as int;
    let m = needle.len() as int;
    assert(hay.subrange(n, n + m) =~= needle);
    assert(matches_at(hay, n, needle));
    assert forall|j: int| prefix.len() <= j < n implies !#[trigger] matches_at(hay, j, needle) by {
        if matches_at(hay, j, needle) {
            let part = before + needle.drop_last();
            let k = j - prefix.len();
            assert(part.subrange(k, k + m) =~= hay.subrange(j, j + m));
            assert(matches_at(part, k, needle));
        }
    }
    lemma_find_is(hay, prefix.len() as int, needle, n);
}

/// Text without the first character of `needle` ends before it.
pub proof fn lemma_ends_before(before: Seq<char>, needle: Seq<char>)
    requires
        needle.len() > 0,
        forall|i: int| 0 <= i < before.len() ==> #[trigger] before[i] != needle[0],
    ensures
        ends_before(before, needle),
{
    let part = before + needle.drop_last();
    assert forall|k: int| !#[trigger] matches_at(part, k, needle) by {
        if matches_at(part, k, needle) {
            assert(k < before.len());
            assert(part.subrange(k, k + needle.len() as int)[0] == part[k]);
            assert(part[k] == before[k]);
        }
    }
}

pub fn matches_at_exec(hay: &[char], i: usize, needle: &[char]) -> (r: bool)
    requires
        i <= hay@.len(),
    ensures
        r == matches_at(hay@, i as int, needle@),
{
    if hay.len() - i < needle.len() {
        return false;
    }
    let mut j: usize = 0;
    while j < needle.len()
        invariant
            j <= needle@.len(),
            i + needle.len() <= hay.len(),
            forall|k: int| 0 <= k < j ==> hay@[i + k] == #[trigger] needle@[k],
        decreases needle.len() - j,
    {
        if hay[i + j] != needle[j] {
            assert(hay@.subrange(i as int, i + needle@.len() as int)[j as int] != needle@[j as int]);
            return false;
        }
        j += 1;
    }
    assert(hay@.subrange(i as int, i + needle@.len() as int) =~= needle@);
    true
}

pub fn find_from_exec(hay: &[char], from: usize, needle: &[char]) -> (r: Option<usize>)
    requires
        from <= hay@.len(),
    ensures
        match r {
            Some(k) => find_from(hay@, from as int, needle@) == Some(k as int) && k
                + needle@.len() <= hay.len(),
            None => find_from(hay@, from as int, needle@) is None,
        },
{
    let mut i: usize = from;
    loop
        invariant
            from <= i <= hay@.len(),
            find_from(hay@, from as int, needle@) == find_from(hay@, i as int, needle@),
        decreases hay.len() - i,
    {
        if hay.len() - i < needle.len() {
            return None;
        }
        if matches_at_exec(hay, i, needle) {
            return Some(i);
        }
        assert(i < hay@.len()) by {
            if i == hay@.len() {
                assert(hay@.subrange(i as int, i as int) =~= needle@);
            }
        }
        i += 1;
    }
}

pub fn contains_text_exec(hay: &[char], needle: &[char]) -> (r: bool)
    ensures
        r == contains_text(hay@, needle@),
{
    proof {
        lemma_find_from(hay@, 0, needle@);
    }
    match find_from_exec(hay, 0, needle) {
        Some(k) => {
            assert(matches_at(hay@, k as int, needle@));
            true
        },
        None => {
            assert forall|j: int| !#[trigger] matches_at(hay@, j, needle@) by {
                if 0 <= j {
                }
            }
            false
        },
    }
}

/// The position of the first `sep` at or after `from`, or the length.
pub open spec fn index_of_from(s: Seq<char>, from: int, sep: char) -> int
    decreases s.len() - from,
{
    if from < 0 || from >= s.len() {
        s.len() as int
    } else if s[from] == sep {
        from
    } else {
        index_of_from(s, from + 1, sep)
    }
}

pub proof fn lemma_index_of_from(s: Seq<char>, from: int, sep: char)
    requires
        0 <= from <= s.len(),
    ensures
        from <= index_of_from(s, from, sep) <= s.len(),
        index_of_from(s, from, sep) < s.len() ==> s[index_of_from(s, from, sep)] == sep,
        forall|j: int| from <= j < index_of_from(s, from, sep) ==> #[trigger] s[j] != sep,
    decreases s.len() - from,
{
    if from < s.len() && s[from] != sep {
        lemma_index_of_from(s, from + 1, sep);
    }
}

pub fn index_of_from_exec(s: &[char], from: usize, sep: char) -> (r: usize)
    requires
        from <= s@.len(),
    ensures
        r == index_of_from(s@, from as int, sep),
        from <= r <= s@.len(),
{
    let mut i: usize = from;
    while i < s.len() && s[i] != sep
        invariant
            from <= i <= s@.len(),
            index_of_from(s@, from as int, sep) == index_of_from(s@, i as int, sep),
        decreases s.len() - i,
    {
        i += 1;
    }
    i
}

/// The pieces of `s` between occurrences of `sep`; one piece more than
/// there are separators.
pub open spec fn split(s: Seq<char>, sep: char) -> Seq<Seq<char>>
    decreases s.len(),
{
    let k = index_of_from(s, 0, sep);
    if k < 0 || k >= s.len() {
        seq![s]
    } else {
        seq![s.take(k)] + split(s.skip(k + 1), sep)
    }
}

/// The pieces as executable values stand for the pieces as text.
pub open spec fn pieces_view(v: Seq<Vec<char>>) -> Seq<Seq<char>> {
    v.map_values(|p: Vec<char>| p@)
}

pub fn split_exec(s: &[char], sep: char) -> (r: Vec<Vec<char>>)
    ensures
        pieces_view(r@) == split(s@, sep),
        r@.len() >= 1,
{
    let mut r: Vec<Vec<char>> = Vec::new();
    let mut from: usize = 0;
    assert(s@.skip(0) =~= s@);
    loop
        invariant
            from <= s@.len(),
            pieces_view(r@) + split(s@.skip(from as int), sep) == split(s@, sep),
        decreases s.len() - from,
    {
        let rest = copy_range(s, from, s.len());
        assert(rest@ =~= s@.skip(from as int));
        let k: usize = index_of_from_exec(rest.as_slice(), 0, sep);
        let ghost before = r@;
        if k >= rest.len() {
            r.push(rest);
            assert(pieces_view(r@) =~= pieces_view(before) + seq![s@.skip(from as int)]);
            return r;
        }
        let piece = copy_range(rest.as_slice(), 0, k);
        assert(piece@ =~= rest@.take(k as int));
        r.push(piece);
        proof {
            assert(pieces_view(r@) =~= pieces_view(before) + seq![rest@.take(k as int)]);
            assert(rest@.skip(k + 1) =~= s@.skip(from + k + 1));
            assert(pieces_view(r@) + split(s@.skip(from + k + 1), sep) =~= pieces_view(before)
                + split(s@.skip(from as int), sep));
        }
        from = from + k + 1;
    }
}

/// A piece without separators in front of a separator is the first piece.
pub proof fn lemma_split_first(p: Seq<char>, sep: char, rest: Seq<char>)
    requires
        forall|i: int| 0 <= i < p.len() ==> #[trigger] p[i] != sep,
    ensures
        split(p + seq![sep] + rest, sep) == seq![p] + split(rest, sep),
{
    let s = p + seq![sep] + rest;
    lemma_index_of_from(s, 0, sep);
    let k = index_of_from(s, 0, sep);
    assert(s[p.len() as int] == sep);
    if k < p.len() {
        assert(s[k] == p[k]);
    }
    assert(k == p.len());
    assert(s.take(k) =~= p);
    assert(s.skip(k + 1) =~= rest);
}

/// Text without separators is one piece.
pub proof fn lemma_split_one(p: Seq<char>, sep: char)
    requires
        forall|i: int| 0 <= i < p.len() ==> #[trigger] p[i] != sep,
    ensures
        split(p, sep) == seq![p],
{
    lemma_index_of_from(p, 0, sep);
}

/// Splitting off a last piece without separators.
pub proof fn lemma_split_last(s: Seq<char>, sep: char, p: Seq<char>)
    requires
        forall|i: int| 0 <= i < p.len() ==> #[trigger] p[i] != sep,
    ensures
        split(s + seq![sep] + p, sep) == split(s, sep).push(p),
    decreases s.len(),
{
    lemma_index_of_from(s, 0, sep);
    let k = index_of_from(s, 0, sep);
    if k >= s.len() {
        lemma_split_first(s, sep, p);
        lemma_split_one(p, sep);
        assert(seq![s] + seq![p] =~= seq![s].push(p));
    } else {
        let head = s.take(k);
        let rest = s.skip(k + 1);
        lemma_split_last(rest, sep, p);
        assert(s + seq![sep] + p =~= head + seq![sep] + (rest + seq![sep] + p));
        lemma_split_first(head, sep, rest + seq![sep] + p);
        assert(seq![head] + split(rest, sep).push(p) =~= (seq![head] + split(rest, sep)).push(p));
    }
}

/// A decimal numeral holds only digits, so none of the usual separators.
pub proof fn lemma_decimal_has_no(n: nat, sep: char)
    requires
        !is_decimal_digit(sep),
    ensures
        forall|i: int| 0 <= i < decimal(n).len() ==> #[trigger] decimal(n)[i] != sep,
{
    lemma_decimal_round_trip(n);
}

/// A non-empty run of at most `max_len` hexadecimal digits and its value.
pub open spec fn parse_hex(s: Seq<char>, max_len: nat) -> Option<nat> {
    if 0 < s.len() <= max_len && all_hex(s) {
        Some(hex_value(s))
    } else {
        None
    }
}

pub open spec fn all_hex(s: Seq<char>) -> bool {
    forall|i: int| 0 <= i < s.len() ==> hex_digit(#[trigger] s[i]) is Some
}

pub open spec fn hex_value(s: Seq<char>) -> nat
    decreases s.len(),
{
    if s.len() == 0 {
        0
    } else {
        hex_value(s.drop_last()) * 16 + hex_digit(s.last())->0
    }
}

/// A hexadecimal numeral reads back as its number and holds only lower-case
/// digits.
pub proof fn lemma_hex_round_trip(n: nat)
    ensures
        hex(n).len() > 0,
        all_hex(hex(n)),
        hex_value(hex(n)) == n,
        forall|i: int|
            0 <= i < hex(n).len() ==> '0' <= #[trigger] hex(n)[i] <= '9' || 'a' <= hex(n)[i]
                <= 'f',
    decreases n,
{
    if n < 16 {
        assert(hex(n) =~= Seq::<char>::empty().push(digit_char(n)));
        assert(hex(n).drop_last() =~= Seq::<char>::empty());
        assert(hex_value(Seq::<char>::empty()) == 0);
    } else {
        lemma_hex_round_trip(n / 16);
        assert(hex(n).drop_last() =~= hex(n / 16));
    }
}

/// Sixteen bits take at most four hexadecimal digits.
pub proof fn lemma_hex_len(n: nat)
    requires
        n <= 0xffff,
    ensures
        hex(n).len() <= 4,
{
    reveal_with_fuel(hex, 5);
}

/// Up to eight hexadecimal digits of either case.
pub fn parse_hex_exec(s: &[char], max_len: usize) -> (r: Option<u32>)
    requires
        max_len <= 8,
    ensures
        match r {
            Some(v) => parse_hex(s@, max_len as nat) == Some(v as nat),
            None => parse_hex(s@, max_len as nat) is None,
        },
        r is Some && max_len <= 4 ==> r->0 <= 0xffff,
{
    if s.len() == 0 || s.len() > max_len {
        return None;
    }
    let mut value: u64 = 0;
    let mut bound: u64 = 1;
    let mut i: usize = 0;
    while i < s.len()
        invariant
            i <= s.len() <= max_len <= 8,
            all_hex(s@.take(i as int)),
            value == hex_value(s@.take(i as int)),
            value < bound,
            i == 0 ==> bound == 1,
            i == 1 ==> bound == 0x10,
            i == 2 ==> bound == 0x100,
            i == 3 ==> bound == 0x1000,
            i == 4 ==> bound == 0x1_0000,
            i == 5 ==> bound == 0x10_0000,
            i == 6 ==> bound == 0x100_0000,
            i == 7 ==> bound == 0x1000_0000,
            i == 8 ==> bound == 0x1_0000_0000,
        decreases s.len() - i,
    {
        let c = s[i];
        proof {
            assert(s@.take(i + 1).drop_last() =~= s@.take(i as int));
            assert(s@.take(i + 1).last() == c);
        }
        match hex_digit_exec(c) {
            None => {
                assert(hex_digit(s@[i as int]) is None);
                return None;
            },
            Some(d) => {
                value = value * 16 + d as u64;
                bound = bound * 16;
            },
        }
        proof {
            assert forall|j: int| 0 <= j < i + 1 implies hex_digit(
                #[trigger] s@.take(i + 1)[j],
            ) is Some by {
                if j < i {
                    assert(s@.take(i + 1)[j] == s@.take(i as int)[j]);
                }
            }
        }
        i += 1;
    }
    assert(s@.take(s@.len() as int) =~= s@);
    Some(value as u32)
}

// ---------------------------------------------------------------------------
// White space, lines and words
// ---------------------------------------------------------------------------

/// The characters with the Unicode property White_Space.
pub open spec fn is_space(c: char) -> bool {
    let v = c as int;
    ||| 0x09 <= v <= 0x0d
    ||| v == 0x20
    ||| v == 0x85
    ||| v == 0xa0
    ||| v == 0x1680
    ||| 0x2000 <= v <= 0x200a
    ||| v == 0x2028
    ||| v == 0x2029
    ||| v == 0x202f
    ||| v == 0x205f
    ||| v == 0x3000
}

pub fn is_space_exec(c: char) -> (r: bool)
    ensures
        r == is_space(c),
{
    let v: u32 = c as u32;
    (0x09 <= v && v <= 0x0d) || v == 0x20 || v == 0x85 || v == 0xa0 || v == 0x1680 || (0x2000 <= v
        && v <= 0x200a) || v == 0x2028 || v == 0x2029 || v == 0x202f || v == 0x205f || v == 0x3000
}

/// `s` without white space at its ends.
pub open spec fn trim(s: Seq<char>) -> Seq<char>
    decreases s.len(),
{
    if s.len() == 0 {
        s
    } else if is_space(s[0]) {
        trim(s.skip(1))
    } else if is_space(s.last()) {
        trim(s.drop_last())
    } else {
        s
    }
}

pub fn trim_exec(s: &[char]) -> (r: Vec<char>)
    ensures
        r@ == trim(s@),
{
    let mut from: usize = 0;
    let mut to: usize = s.len();
    assert(s@.subrange(0, to as int) =~= s@);
    while from < to && is_space_exec(s[from])
        invariant
            from <= to <= s@.len(),
            trim(s@) == trim(s@.subrange(from as int, to as int)),
        decreases to - from,
    {
        assert(s@.subrange(from as int, to as int).skip(1) =~= s@.subrange(from + 1, to as int));
        from += 1;
    }
    while from < to && is_space_exec(s[to - 1])
        invariant
            from <= to <= s@.len(),
            from < to ==> !is_space(s@[from as int]),
            trim(s@) == trim(s@.subrange(from as int, to as int)),
        decreases to - from,
    {
        assert(s@.subrange(from as int, to as int).drop_last() =~= s@.subrange(
            from as int,
            to - 1,
        ));
        assert(s@.subrange(from as int, to as int)[0] == s@[from as int]);
        to -= 1;
    }
    if from < to {
        assert(s@.subrange(from as int, to as int)[0] == s@[from as int]);
        assert(s@.subrange(from as int, to as int).last() == s@[to - 1]);
    }
    copy_range(s, from, to)
}

pub open spec fn starts_with(s: Seq<char>, prefix: Seq<char>) -> bool {
    matches_at(s, 0, prefix)
}

/// What follows `prefix`, if `s` starts with it.
pub open spec fn strip_prefix(s: Seq<char>, prefix: Seq<char>) -> Option<Seq<char>> {
    if starts_with(s, prefix) {
        Some(s.skip(prefix.len() as int))
    } else {
        None
    }
}

pub fn strip_prefix_exec(s: &[char], prefix: &str) -> (r: Option<Vec<char>>)
    ensures
        match r {
            Some(t) => strip_prefix(s@, prefix@) == Some(t@),
            None => strip_prefix(s@, prefix@) is None,
        },
{
    let p = chars_of(prefix);
    if matches_at_exec(s, 0, p.as_slice()) {
        let t = copy_range(s, p.len(), s.len());
        assert(t@ =~= s@.skip(prefix@.len() as int));
        Some(t)
    } else {
        None
    }
}

pub open spec fn strip_return(s: Seq<char>) -> Seq<char> {
    if s.len() > 0 && s.last() == '\r' {
        s.drop_last()
    } else {
        s
    }
}

/// The lines of `s`, without their ends; there is none after a last newline.
pub open spec fn lines(s: Seq<char>) -> Seq<Seq<char>> {
    let ps = split(s, '\n');
    let all = if ps.last().len() == 0 {
        ps.drop_last()
    } else {
        ps
    };
    all.map_values(|l: Seq<char>| strip_return(l))
}

pub fn lines_exec(s: &[char]) -> (r: Vec<Vec<char>>)
    ensures
        pieces_view(r@) == lines(s@),
{
    let ps = split_exec(s, '\n');
    let ghost view = pieces_view(ps@);
    let n: usize = if ps[ps.len() - 1].len() == 0 {
        ps.len() - 1
    } else {
        ps.len()
    };
    assert(view.last() == ps@[ps@.len() - 1]@);
    let ghost all = view.take(n as int);
    assert(view.last().len() == 0 ==> all =~= view.drop_last());
    assert(view.last().len() != 0 ==> all =~= view);
    let mut r: Vec<Vec<char>> = Vec::new();
    let mut i: usize = 0;
    while i < n
        invariant
            i <= n <= ps@.len(),
            view == pieces_view(ps@),
            all == view.take(n as int),
            pieces_view(r@) == all.map_values(|l: Seq<char>| strip_return(l)).take(i as int),
        decreases n - i,
    {
        let m: usize = ps[i].len();
        let to: usize = if m > 0 && ps[i][m - 1] == '\r' {
            m - 1
        } else {
            m
        };
        let line = copy_range(ps[i].as_slice(), 0, to);
        let ghost before = pieces_view(r@);
        assert(line@ =~= strip_return(ps@[i as int]@));
        r.push(line);
        assert(pieces_view(r@) =~= before.push(strip_return(ps@[i as int]@)));
        i += 1;
        assert(all[i - 1] == ps@[i - 1]@);
        assert(pieces_view(r@) =~= all.map_values(|l: Seq<char>| strip_return(l)).take(i as int));
    }
    assert(pieces_view(r@) =~= lines(s@));
    r
}

/// Every white-space character replaced by a blank.
pub open spec fn blanks(s: Seq<char>) -> Seq<char> {
    s.map_values(
        |c: char|
            if is_space(c) {
                ' '
            } else {
                c
            },
    )
}

/// The runs of characters other than white space.
pub open spec fn words(s: Seq<char>) -> Seq<Seq<char>> {
    split(blanks(s), ' ').filter(|p: Seq<char>| p.len() > 0)
}

pub fn words_exec(s: &[char]) -> (r: Vec<Vec<char>>)
    ensures
        pieces_view(r@) == words(s@),
{
    let mut b: Vec<char> = Vec::new();
    let mut i: usize = 0;
    while i < s.len()
        invariant
            i <= s@.len(),
            b@ == blanks(s@).take(i as int),
        decreases s.len() - i,
    {
        if is_space_exec(s[i]) {
            b.push(' ');
        } else {
            b.push(s[i]);
        }
        i += 1;
        assert(b@ =~= blanks(s@).take(i as int));
    }
    assert(b@ =~= blanks(s@));
    let ps = split_exec(b.as_slice(), ' ');
    let ghost view = pieces_view(ps@);
    let ghost pred = |p: Seq<char>| p.len() > 0;
    let mut r: Vec<Vec<char>> = Vec::new();
    let mut k: usize = 0;
    proof {
        reveal(Seq::filter);
        assert(view.take(0) =~= Seq::empty());
        assert(pieces_view(r@) =~= view.take(0).filter(pred));
    }
    while k < ps.len()
        invariant
            k <= ps@.len(),
            view == pieces_view(ps@),
            pred == (|p: Seq<char>| p.len() > 0),
            pieces_view(r@) == view.take(k as int).filter(pred),
        decreases ps.len() - k,
    {
        proof {
            reveal(Seq::filter);
            assert(view.take(k + 1).drop_last() =~= view.take(k as int));
            assert(view.take(k + 1).last() == ps@[k as int]@);
        }
        if ps[k].len() > 0 {
            let ghost before = pieces_view(r@);
            let w = copy_range(ps[k].as_slice(), 0, ps[k].len());
            assert(w@ =~= ps@[k as int]@);
            r.push(w);
            assert(pieces_view(r@) =~= before.push(ps@[k as int]@));
        }
        k += 1;
    }
    assert(view.take(k as int) =~= view);
    r
}

/// `s` holds no `c`.
pub open spec fn has_no(s: Seq<char>, c: char) -> bool {
    forall|i: int| 0 <= i < s.len() ==> #[trigger] s[i] != c
}

/// `s` holds no white space.
pub open spec fn has_no_space(s: Seq<char>) -> bool {
    forall|i: int| 0 <= i < s.len() ==> !is_space(#[trigger] s[i])
}

proof fn lemma_split_not_empty(s: Seq<char>, sep: char)
    ensures
        split(s, sep).len() >= 1,
{
}

/// What stands before the first newline is the first line, without a carriage
/// return at its end; the other lines are those of what follows.
pub proof fn lemma_lines_first(line: Seq<char>, rest: Seq<char>)
    requires
        has_no(line, '\n'),
    ensures
        lines(line + seq!['\n'] + rest) == seq![strip_return(line)] + lines(rest),
{
    let s = line + seq!['\n'] + rest;
    lemma_split_first(line, '\n', rest);
    lemma_split_not_empty(rest, '\n');
    let r = split(rest, '\n');
    let ps = split(s, '\n');
    assert(ps.last() == r.last());
    assert(ps.drop_last() =~= seq![line] + r.drop_last());
    assert(lines(s) =~= seq![strip_return(line)] + lines(rest));
}

/// A line ends at a newline, or at a carriage return and a newline; without
/// either it ends with the text.
pub proof fn lemma_line_ends(line: Seq<char>, rest: Seq<char>)
    requires
        has_no(line, '\n'),
        line.len() > 0 ==> line.last() != '\r',
    ensures
        lines(line + seq!['\n'] + rest) == seq![line] + lines(rest),
        lines(line + seq!['\r', '\n'] + rest) == seq![line] + lines(rest),
        line.len() > 0 ==> lines(line) == seq![line],
        lines(Seq::<char>::empty()) == Seq::<Seq<char>>::empty(),
{
    lemma_lines_first(line, rest);
    let with_return = line.push('\r');
    lemma_lines_first(with_return, rest);
    assert(with_return.drop_last() =~= line);
    assert(line + seq!['\r', '\n'] + rest =~= with_return + seq!['\n'] + rest);
    lemma_split_one(line, '\n');
    if line.len() > 0 {
        assert(lines(line) =~= seq![line]);
    }
    let none = Seq::<char>::empty();
    lemma_split_one(none, '\n');
    assert(split(none, '\n').last().len() == 0);
    assert(lines(none) =~= Seq::<Seq<char>>::empty());
}

/// White space in front of words separates nothing.
pub proof fn lemma_words_after_space(c: char, rest: Seq<char>)
    requires
        is_space(c),
    ensures
        words(seq![c] + rest) == words(rest),
{
    let s = seq![c] + rest;
    let pred = |p: Seq<char>| p.len() > 0;
    assert(blanks(s) =~= Seq::<char>::empty() + seq![' '] + blanks(rest));
    lemma_split_first(Seq::empty(), ' ', blanks(rest));
    let first = seq![Seq::<char>::empty()];
    Seq::filter_distributes_over_add(first, split(blanks(rest), ' '), pred);
    assert(first.filter(pred) =~= Seq::empty()) by {
        reveal(Seq::filter);
        assert(first.drop_last() =~= Seq::empty());
        assert(first.drop_last().filter(pred) =~= Seq::empty());
    }
    assert(words(s) =~= split(blanks(s), ' ').filter(pred));
    assert(words(rest) =~= split(blanks(rest), ' ').filter(pred));
    assert(words(s) =~= words(rest));
}

/// A run of other characters up to white space is the first word; the other
/// words are those of what follows.
pub proof fn lemma_words_first(word: Seq<char>, c: char, rest: Seq<char>)
    requires
        word.len() > 0,
        has_no_space(word),
        is_space(c),
    ensures
        words(word + seq![c] + rest) == seq![word] + words(rest),
{
    let s = word + seq![c] + rest;
    let pred = |p: Seq<char>| p.len() > 0;
    assert(blanks(s) =~= word + seq![' '] + blanks(rest));
    assert(forall|i: int| 0 <= i < word.len() ==> #[trigger] word[i] != ' ');
    lemma_split_first(word, ' ', blanks(rest));
    let first = seq![word];
    Seq::filter_distributes_over_add(first, split(blanks(rest), ' '), pred);
    assert(first.filter(pred) =~= first) by {
        reveal(Seq::filter);
        assert(first.drop_last() =~= Seq::empty());
        assert(first.drop_last().filter(pred) =~= Seq::empty());
    }
    assert(words(s) =~= split(blanks(s), ' ').filter(pred));
    assert(words(rest) =~= split(blanks(rest), ' ').filter(pred));
}

/// Trimming takes white space off both ends and nothing else.
pub proof fn lemma_trim_middle(before: Seq<char>, middle: Seq<char>, after: Seq<char>)
    requires
        forall|i: int| 0 <= i < before.len() ==> is_space(#[trigger] before[i]),
        forall|i: int| 0 <= i < after.len() ==> is_space(#[trigger] after[i]),
        middle.len() > 0,
        !is_space(middle[0]),
        !is_space(middle.last()),
    ensures
        trim(before + middle + after) == middle,
    decreases before.len() + after.len(),
{
    let s = before + middle + after;
    if before.len() > 0 {
        assert(s[0] == before[0]);
        assert(s.skip(1) =~= before.skip(1) + middle + after);
        lemma_trim_middle(before.skip(1), middle, after);
    } else if after.len() > 0 {
        assert(s[0] == middle[0]);
        assert(s.last() == after[after.len() - 1]);
        assert(s.drop_last() =~= before + middle + after.drop_last());
        lemma_trim_middle(before, middle, after.drop_last());
    } else {
        assert(s =~= middle);
    }
}

/// The number of bytes that a character takes in UTF-8.
pub open spec fn char_size(c: char) -> nat {
    let v = c as int;
    if v < 0x80 {
        1
    } else if v < 0x800 {
        2
    } else if v < 0x1_0000 {
        3
    } else {
        4
    }
}

pub fn char_size_exec(c: char) -> (r: usize)
    ensures
        r == char_size(c),
{
    let v: u32 = c as u32;
    if v < 0x80 {
        1
    } else if v < 0x800 {
        2
    } else if v < 0x1_0000 {
        3
    } else {
        4
    }
}

/// The longest prefix of `s` that takes at most `max` bytes in UTF-8.
pub open spec fn byte_prefix(s: Seq<char>, max: int) -> Seq<char>
    decreases s.len(),
{
    if s.len() == 0 || char_size(s[0]) > max {
        Seq::empty()
    } else {
        seq![s[0]] + byte_prefix(s.skip(1), max - char_size(s[0]))
    }
}

/// Cutting `s` off after `max` bytes in UTF-8 does not split a character.
pub open spec fn cuts_whole(s: Seq<char>, max: int) -> bool
    decreases s.len(),
{
    s.len() == 0 || max == 0 || (char_size(s[0]) <= max && cuts_whole(
        s.skip(1),
        max - char_size(s[0]),
    ))
}

pub fn byte_prefix_exec(s: &[char], max: usize) -> (r: Vec<char>)
    ensures
        r@ == byte_prefix(s@, max as int),
{
    let mut r: Vec<char> = Vec::new();
    let mut left: usize = max;
    let mut i: usize = 0;
    assert(s@.skip(0) =~= s@);
    assert(r@ + byte_prefix(s@, max as int) =~= byte_prefix(s@, max as int));
    while i < s.len() && char_size_exec(s[i]) <= left
        invariant
            i <= s@.len(),
            r@ + byte_prefix(s@.skip(i as int), left as int) == byte_prefix(s@, max as int),
        decreases s.len() - i,
    {
        let ghost before = r@;
        let ghost rest = s@.skip(i as int);
        proof {
            assert(rest[0] == s@[i as int]);
            assert(rest.skip(1) =~= s@.skip(i + 1));
        }
        left = left - char_size_exec(s[i]);
        r.push(s[i]);
        i += 1;
        assert(r@ + byte_prefix(s@.skip(i as int), left as int) =~= before + (seq![rest[0]]
            + byte_prefix(s@.skip(i as int), left as int)));
    }
    proof {
        if i < s@.len() {
            assert(s@.skip(i as int)[0] == s@[i as int]);
        }
        assert(byte_prefix(s@.skip(i as int), left as int) =~= Seq::empty());
        assert(r@ =~= byte_prefix(s@, max as int));
    }
    r
}

/// Why text is not a hexadecimal 32-bit number.
pub enum HexFailure {
    InvalidDigit,
    TooLarge,
}

/// The number that hexadecimal digits denote, read from the left.
pub open spec fn hex_u32(s: Seq<char>) -> Result<u32, HexFailure>
    decreases s.len(),
{
    if s.len() == 0 {
        Ok(0)
    } else {
        match hex_u32(s.drop_last()) {
            Err(e) => Err(e),
            Ok(v) => match hex_digit(s.last()) {
                None => Err(HexFailure::InvalidDigit),
                Some(d) => if v * 16 + d > u32::MAX {
                    Err(HexFailure::TooLarge)
                } else {
                    Ok((v * 16 + d) as u32)
                },
            },
        }
    }
}

/// The character for a hexadecimal digit, in upper case where `upper` says so.
pub open spec fn hex_char(d: int, upper: bool) -> char {
    if d < 10 {
        ('0' as int + d) as char
    } else if upper {
        ('A' as int + d - 10) as char
    } else {
        ('a' as int + d - 10) as char
    }
}

/// A digit of either case counts for its value.
pub proof fn lemma_hex_char(d: int, upper: bool)
    requires
        0 <= d < 16,
    ensures
        hex_digit(hex_char(d, upper)) == Some(d as nat),
        !is_space(hex_char(d, upper)),
        hex_char(d, upper) != '+',
{
}

/// One more digit multiplies by sixteen and adds.
pub proof fn lemma_hex_u32_push(s: Seq<char>, v: u32, d: int, upper: bool)
    requires
        hex_u32(s) == Ok::<u32, HexFailure>(v),
        0 <= d < 16,
        v * 16 + d <= 0xffff_ffff,
    ensures
        hex_u32(s.push(hex_char(d, upper))) == Ok::<u32, HexFailure>((v * 16 + d) as u32),
{
    lemma_hex_char(d, upper);
    let t = s.push(hex_char(d, upper));
    assert(t.drop_last() =~= s);
    assert(t.last() == hex_char(d, upper));
}

pub fn hex_u32_exec(s: &[char]) -> (r: Result<u32, HexFailure>)
    ensures
        r == hex_u32(s@),
{
    let mut v: u32 = 0;
    let mut failure: Option<HexFailure> = None;
    let mut i: usize = 0;
    assert(s@.take(0) =~= Seq::empty());
    while i < s.len()
        invariant
            i <= s@.len(),
            match failure {
                Some(e) => hex_u32(s@.take(i as int)) == Err::<u32, HexFailure>(e),
                None => hex_u32(s@.take(i as int)) == Ok::<u32, HexFailure>(v),
            },
        decreases s.len() - i,
    {
        proof {
            assert(s@.take(i + 1).drop_last() =~= s@.take(i as int));
            assert(s@.take(i + 1).last() == s@[i as int]);
        }
        if failure.is_none() {
            match hex_digit_exec(s[i]) {
                None => {
                    failure = Some(HexFailure::InvalidDigit);
                },
                Some(d) => {
                    let w: u64 = v as u64 * 16 + d as u64;
                    if w > 0xffff_ffff {
                        failure = Some(HexFailure::TooLarge);
                    } else {
                        v = w as u32;
                    }
                },
            }
        }
        i += 1;
    }
    assert(s@.take(i as int) =~= s@);
    match failure {
        Some(e) => Err(e),
        None => Ok(v),
    }
}

// ---------------------------------------------------------------------------
// Columns
// ---------------------------------------------------------------------------

pub open spec fn spaces(n: int) -> Seq<char> {
    Seq::new(
        if n > 0 {
            n as nat
        } else {
            0
        },
        |i: int| ' ',
    )
}

/// `s`, filled up with spaces behind it to a width.
pub open spec fn left_aligned(s: Seq<char>, width: int) -> Seq<char> {
    s + spaces(width - s.len())
}

/// `s`, filled up with spaces before it to a width.
pub open spec fn right_aligned(s: Seq<char>, width: int) -> Seq<char> {
    spaces(width - s.len()) + s
}

pub fn push_spaces(out: &mut String, from: usize, to: usize)
    ensures
        final(out)@ == old(out)@ + spaces(to - from),
{
    let ghost start = out@;
    let mut i: usize = from;
    assert(start + spaces(0) =~= start);
    while i < to
        invariant
            from <= i,
            i <= to || i == from,
            out@ == start + spaces(i - from),
        decreases to - i,
    {
        out.push(' ');
        i += 1;
        assert(out@ =~= start + spaces(i - from));
    }
    assert(spaces(i - from) =~= spaces(to - from));
}

pub fn push_left_aligned(out: &mut String, s: &str, width: usize)
    ensures
        final(out)@ == old(out)@ + left_aligned(s@, width as int),
{
    let n: usize = s.unicode_len();
    out.append(s);
    push_spaces(out, n, width);
    assert(out@ =~= old(out)@ + left_aligned(s@, width as int));
}

pub fn push_right_aligned(out: &mut String, s: &str, width: usize)
    ensures
        final(out)@ == old(out)@ + right_aligned(s@, width as int),
{
    let n: usize = s.unicode_len();
    push_spaces(out, n, width);
    out.append(s);
    assert(out@ =~= old(out)@ + right_aligned(s@, width as int));
}

/// A number in a column.
pub fn push_number(out: &mut String, n: u64, width: usize)
    ensures
        final(out)@ == old(out)@ + right_aligned(decimal(n as nat), width as int),
{
    let s = decimal_string(n);
    push_right_aligned(out, s.as_str(), width);
}

/// A number with at least two digits.
pub open spec fn two_digits(n: nat) -> Seq<char> {
    if n < 10 {
        "0"@ + decimal(n)
    } else {
        decimal(n)
    }
}

pub fn push_two_digits(out: &mut String, n: u64)
    ensures
        final(out)@ == old(out)@ + two_digits(n as nat),
{
    let ghost start = out@;
    if n < 10 {
        out.append("0");
    }
    push_decimal(out, n);
    assert(out@ =~= start + two_digits(n as nat));
}

/// Text in a field keeps its characters and takes up the width of the field,
/// or more where it is longer: on the left of it, or on the right.
pub proof fn lemma_aligned(s: Seq<char>, width: int)
    ensures
        ({
            let l = left_aligned(s, width);
            let r = right_aligned(s, width);
            let n = if width > s.len() {
                width
            } else {
                s.len() as int
            };
            &&& l.len() == n && r.len() == n
            &&& l.take(s.len() as int) == s
            &&& r.skip(n - s.len()) == s
            &&& forall|i: int| s.len() <= i < n ==> #[trigger] l[i] == ' '
            &&& forall|i: int| 0 <= i < n - s.len() ==> #[trigger] r[i] == ' '
        }),
{
    assert(left_aligned(s, width).take(s.len() as int) =~= s);
    let r = right_aligned(s, width);
    assert(r.skip(r.len() - s.len()) =~= s);
}

/// Padded hexadecimal digits are as many as asked for, and read back as the
/// number wherever it has no more.
pub proof fn lemma_hex_padded_round_trip(n: nat, width: nat)
    requires
        n < vstd::arithmetic::power::pow(16, width),
    ensures
        hex_padded(n, width).len() == width,
        all_hex(hex_padded(n, width)),
        hex_value(hex_padded(n, width)) == n,
    decreases width,
{
    vstd::arithmetic::power::lemma_pow0(16);
    if width > 0 {
        let p = vstd::arithmetic::power::pow(16, (width - 1) as nat);
        assert(vstd::arithmetic::power::pow(16, width) == 16 * p) by {
            reveal(vstd::arithmetic::power::pow);
        }
        assert(n / 16 < p);
        lemma_hex_padded_round_trip(n / 16, (width - 1) as nat);
        assert(hex_padded(n, width).drop_last() =~= hex_padded(n / 16, (width - 1) as nat));
    }
}

/// The bytes of some characters.
pub open spec fn bytes_of(s: Seq<char>) -> nat
    decreases s.len(),
{
    if s.len() == 0 {
        0
    } else {
        char_size(s[0]) + bytes_of(s.skip(1))
    }
}

/// What is kept of a text are its first characters, as many as fit into the
/// bytes.
pub proof fn lemma_byte_prefix(s: Seq<char>, max: int)
    requires
        0 <= max,
    ensures
        ({
            let p = byte_prefix(s, max);
            &&& p.len() <= s.len()
            &&& p == s.take(p.len() as int)
            &&& bytes_of(p) <= max
            &&& p.len() < s.len() ==> bytes_of(p) + char_size(s[p.len() as int]) > max
        }),
    decreases s.len(),
{
    let p = byte_prefix(s, max);
    if s.len() > 0 && char_size(s[0]) <= max {
        let rest = s.skip(1);
        let q = byte_prefix(rest, max - char_size(s[0]));
        lemma_byte_prefix(rest, max - char_size(s[0]));
        assert(p.skip(1) =~= q);
        assert(p =~= s.take(p.len() as int));
        if p.len() < s.len() {
            assert(s[p.len() as int] == rest[q.len() as int]);
        }
    } else {
        assert(p =~= s.take(0));
    }
}

/// In UTF-8 a character takes the bytes that it is counted for.
pub proof fn lemma_char_size(c: char)
    ensures
        char_size(c) == vstd::utf8::encode_utf8(seq![c]).len(),
{
    reveal_with_fuel(vstd::utf8::encode_utf8, 2);
    assert(seq![c].drop_first() =~= Seq::<char>::empty());
}

/// The letters of ASCII become lower-case ones, and nothing else changes.
pub proof fn lemma_lower_letters(k: int, c: char)
    ensures
        0 <= k < 26 ==> lower_char(('A' as int + k) as char) == ('a' as int + k) as char,
        !('A' <= c <= 'Z') ==> lower_char(c) == c,
        lower_char(lower_char(c)) == lower_char(c),
{
}

/// Sixteen digits are enough for 64 bits, and tell every number.
pub proof fn lemma_hex_of_u64(n: u64)
    ensures
        hex_padded(n as nat, 16).len() == 16,
        all_hex(hex_padded(n as nat, 16)),
        hex_value(hex_padded(n as nat, 16)) == n,
{
    assert(vstd::arithmetic::power::pow(16, 16) == 0x1_0000_0000_0000_0000) by {
        reveal_with_fuel(vstd::arithmetic::power::pow, 17);
    }
    lemma_hex_padded_round_trip(n as nat, 16);
}

} // verus!
