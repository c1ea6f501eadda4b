use vstd::prelude::*;
use vstd::string::{StrSliceExecFns, StringExecFns};

verus! {

/// A peer's network address as the wire protocol carries it: eight 16-bit words
/// (IPv4 peers in their IPv6-mapped form), the port and the service flags.
#[derive(Clone, Copy, Debug)]
pub struct PeerAddress {
    pub address: [u16; 8],
    pub port: u16,
    pub services: u64,
}

/// The lowercase hexadecimal digit of `d`, for `0 <= d < 16`.
pub open spec fn hex_char(d: int) -> char {
    if d == 0 { '0' } else if d == 1 { '1' } else if d == 2 { '2' } else if d == 3 { '3' }
    else if d == 4 { '4' } else if d == 5 { '5' } else if d == 6 { '6' } else if d == 7 { '7' }
    else if d == 8 { '8' } else if d == 9 { '9' } else if d == 10 { 'a' } else if d == 11 { 'b' }
    else if d == 12 { 'c' } else if d == 13 { 'd' } else if d == 14 { 'e' } else { 'f' }
}

/// The value of a hexadecimal digit of either case, if `c` is one.
pub open spec fn hex_value(c: char) -> Option<int> {
    if '0' <= c && c <= '9' {
        Some(c as int - '0' as int)
    } else if 'a' <= c && c <= 'f' {
        Some(c as int - 'a' as int + 10)
    } else if 'A' <= c && c <= 'F' {
        Some(c as int - 'A' as int + 10)
    } else {
        None
    }
}

/// A word as exactly four lowercase hexadecimal digits, most significant first.
pub open spec fn word_hex(w: u16) -> Seq<char> {
    seq![
        hex_char(w as int / 4096),
        hex_char((w as int / 256) % 16),
        hex_char((w as int / 16) % 16),
        hex_char(w as int % 16),
    ]
}

/// The canonical key of an address: its words' hexadecimal forms, concatenated.
pub open spec fn key_of(words: Seq<u16>) -> Seq<char>
    decreases words.len(),
{
    if words.len() == 0 {
        Seq::empty()
    } else {
        key_of(words.drop_last()) + word_hex(words.last())
    }
}

/// The value of a run of hexadecimal digits, if every character is one.
pub open spec fn digits_value(g: Seq<char>) -> Option<int>
    decreases g.len(),
{
    if g.len() == 0 {
        Some(0)
    } else {
        match (digits_value(g.drop_last()), hex_value(g.last())) {
            (Some(a), Some(b)) => Some(a * 16 + b),
            _ => None,
        }
    }
}

/// A group of a key read back as a word: an optional `+` sign followed by
/// hexadecimal digits; anything else reads as zero.
pub open spec fn group_word(g: Seq<char>) -> u16 {
    let digits = if g.len() > 1 && g[0] == '+' { g.drop_first() } else { g };
    match digits_value(digits) {
        Some(v) => if digits.len() > 0 && v < 0x10000 { v as u16 } else { 0 },
        None => 0,
    }
}

/// The words that a key decodes to: group `i` is characters `4i .. 4i + 4`.
pub open spec fn words_of(key: Seq<char>) -> Seq<u16> {
    Seq::new(8, |i: int| group_word(key.subrange(4 * i, 4 * i + 4)))
}

fn hex_digit(d: u16) -> (c: &'static str)
    requires
        d < 16,
    ensures
        c@ == seq![hex_char(d as int)],
{
    proof {
        reveal_strlit("0");
        reveal_strlit("1");
        reveal_strlit("2");
        reveal_strlit("3");
        reveal_strlit("4");
        reveal_strlit("5");
        reveal_strlit("6");
        reveal_strlit("7");
        reveal_strlit("8");
        reveal_strlit("9");
        reveal_strlit("a");
        reveal_strlit("b");
        reveal_strlit("c");
        reveal_strlit("d");
        reveal_strlit("e");
        reveal_strlit("f");
    }
    if d == 0 { "0" } else if d == 1 { "1" } else if d == 2 { "2" } else if d == 3 { "3" }
    else if d == 4 { "4" } else if d == 5 { "5" } else if d == 6 { "6" } else if d == 7 { "7" }
    else if d == 8 { "8" } else if d == 9 { "9" } else if d == 10 { "a" } else if d == 11 { "b" }
    else if d == 12 { "c" } else if d == 13 { "d" } else if d == 14 { "e" } else { "f" }
}

fn digit_value(c: char) -> (r: Option<u16>)
    ensures
        r matches Some(v) ==> hex_value(c) == Some(v as int),
        r is None ==> hex_value(c) is None,
{
    if '0' <= c && c <= '9' {
        Some((c as u32 - '0' as u32) as u16)
    } else if 'a' <= c && c <= 'f' {
        Some((c as u32 - 'a' as u32 + 10) as u16)
    } else if 'A' <= c && c <= 'F' {
        Some((c as u32 - 'A' as u32 + 10) as u16)
    } else {
        None
    }
}

/// The canonical key of an address: 32 lowercase hexadecimal digits, four for
/// each word, in order.
pub fn address_key(words: &[u16; 8]) -> (s: String)
    ensures
        s@ == key_of(words@),
        s@.len() == 32,
{
    let mut s = String::new();
    let mut i: usize = 0;
    while i < 8
        invariant
            i <= 8,
            words@.len() == 8,
            s@ == key_of(words@.take(i as int)),
            s@.len() == 4 * i,
        decreases 8 - i,
    {
        let w = words[i];
        s.append(hex_digit(w / 4096));
        s.append(hex_digit((w / 256) % 16));
        s.append(hex_digit((w / 16) % 16));
        s.append(hex_digit(w % 16));
        assert(words@.take(i + 1).drop_last() =~= words@.take(i as int));
        assert(s@ =~= key_of(words@.take(i + 1)));
        i = i + 1;
    }
    assert(words@.take(8) =~= words@);
    s
}

pub open spec fn pow16(n: nat) -> nat
    decreases n,
{
    if n == 0 { 1 } else { 16 * pow16((n - 1) as nat) }
}

/// Reads the four characters of `key` from `start` as a word, leniently.
fn parse_group(key: &str, start: usize) -> (w: u16)
    requires
        start <= 28,
        start + 4 <= key@.len(),
    ensures
        w == group_word(key@.subrange(start as int, start + 4)),
{
    let ghost g = key@.subrange(start as int, start + 4);
    let first = key.get_char(start);
    let from: usize = if first == '+' { start + 1 } else { start };
    let ghost digits = key@.subrange(from as int, start + 4);
    assert(digits =~= (if g.len() > 1 && g[0] == '+' { g.drop_first() } else { g }));
    let mut v: u32 = 0;
    let mut j: usize = from;
    while j < start + 4
        invariant
            from <= j <= start + 4,
            start + 4 <= key@.len(),
            start <= 28,
            from == (if key@[start as int] == '+' { start + 1 } else { start as int }),
            digits_value(key@.subrange(from as int, j as int)) == Some(v as int),
            v < pow16((j - from) as nat),
        decreases start + 4 - j,
    {
        let c = key.get_char(j);
        match digit_value(c) {
            Some(d) => {
                let ghost p = pow16((j - from) as nat);
                assert(v * 16 + d < 16 * p) by (nonlinear_arith)
                    requires v < p, d < 16;
                assert(key@.subrange(from as int, j + 1).drop_last()
                    =~= key@.subrange(from as int, j as int));
                assert(p <= 4096) by {
                    reveal_with_fuel(pow16, 5);
                }
                v = v * 16 + d as u32;
                j = j + 1;
            },
            None => {
                proof {
                    lemma_digits_none(key@.subrange(from as int, start + 4), (j - from) as int);
                    assert(key@.subrange(from as int, start + 4).take((j + 1 - from) as int)
                        =~= key@.subrange(from as int, j + 1));
                    assert(key@.subrange(from as int, j + 1).drop_last()
                        =~= key@.subrange(from as int, j as int));
                    let g = key@.subrange(start as int, start + 4);
                    assert(key@.subrange(from as int, start + 4)
                        =~= (if g.len() > 1 && g[0] == '+' { g.drop_first() } else { g }));
                }
                return 0;
            },
        }
    }
    assert(pow16(4) == 65536) by {
        reveal_with_fuel(pow16, 5);
    }
    assert(pow16(3) == 4096) by {
        reveal_with_fuel(pow16, 4);
    }
    v as u16
}

/// A run of characters with a non-digit among its first `n + 1` has no value.
proof fn lemma_digits_none(g: Seq<char>, n: int)
    requires
        0 <= n < g.len(),
        digits_value(g.take(n + 1)) is None,
    ensures
        digits_value(g) is None,
    decreases g.len(),
{
    if n + 1 < g.len() {
        assert(g.drop_last().take(n + 1) =~= g.take(n + 1));
        lemma_digits_none(g.drop_last(), n);
    } else {
        assert(g.take(n + 1) =~= g);
    }
}

/// Decodes a key back into eight words: group `i` is characters `4i .. 4i + 4`,
/// read as hexadecimal; a group that is not a number reads as zero.
pub fn address_words(key: &str) -> (r: [u16; 8])
    requires
        key@.len() >= 32,
    ensures
        r@ == words_of(key@),
{
    let r = [
        parse_group(key, 0),
        parse_group(key, 4),
        parse_group(key, 8),
        parse_group(key, 12),
        parse_group(key, 16),
        parse_group(key, 20),
        parse_group(key, 24),
        parse_group(key, 28),
    ];
    assert(r@ =~= words_of(key@));
    r
}

proof fn lemma_hex_char_value(d: int)
    requires
        0 <= d < 16,
    ensures
        hex_value(hex_char(d)) == Some(d),
        hex_char(d) != '+',
{
}

proof fn lemma_word_hex_value(w: u16)
    ensures
        group_word(word_hex(w)) == w,
{
    let a = w as int / 4096;
    let b = (w as int / 256) % 16;
    let c = (w as int / 16) % 16;
    let d = w as int % 16;
    lemma_hex_char_value(a);
    lemma_hex_char_value(b);
    lemma_hex_char_value(c);
    lemma_hex_char_value(d);
    let g = word_hex(w);
    assert(g.drop_last() =~= seq![hex_char(a), hex_char(b), hex_char(c)]);
    assert(g.drop_last().drop_last() =~= seq![hex_char(a), hex_char(b)]);
    assert(g.drop_last().drop_last().drop_last() =~= seq![hex_char(a)]);
    assert(g.drop_last().drop_last().drop_last().drop_last() =~= Seq::<char>::empty());
    reveal_with_fuel(digits_value, 5);
    assert(((a * 16 + b) * 16 + c) * 16 + d == w as int);
}

proof fn lemma_key_group(words: Seq<u16>, i: int)
    requires
        0 <= i < words.len(),
    ensures
        key_of(words).len() == 4 * words.len(),
        key_of(words).subrange(4 * i, 4 * i + 4) == word_hex(words[i]),
    decreases words.len(),
{
    lemma_key_len(words.drop_last());
    if i == words.len() - 1 {
        assert(key_of(words).subrange(4 * i, 4 * i + 4) =~= word_hex(words[i]));
    } else {
        lemma_key_group(words.drop_last(), i);
        assert(key_of(words).subrange(4 * i, 4 * i + 4)
            =~= key_of(words.drop_last()).subrange(4 * i, 4 * i + 4));
    }
}

proof fn lemma_key_len(words: Seq<u16>)
    ensures
        key_of(words).len() == 4 * words.len(),
    decreases words.len(),
{
    if words.len() > 0 {
        lemma_key_len(words.drop_last());
    }
}

/// Encoding eight words as a key and decoding the key gives the words back.
pub proof fn lemma_key_round_trip(words: Seq<u16>)
    requires
        words.len() == 8,
    ensures
        key_of(words).len() == 32,
        words_of(key_of(words)) == words,
{
    lemma_key_len(words);
    assert forall|i: int| 0 <= i < 8 implies #[trigger] words_of(key_of(words))[i] == words[i] by {
        lemma_key_group(words, i);
        lemma_word_hex_value(words[i]);
    }
    assert(words_of(key_of(words)) =~= words);
}

/// The digits of group `i` of a key: its four characters, less a leading `+`.
pub open spec fn group_digits(key: Seq<char>, i: int) -> Seq<char> {
    let g = key.subrange(4 * i, 4 * i + 4);
    if g[0] == '+' {
        g.drop_first()
    } else {
        g
    }
}

proof fn lemma_digits_bound(g: Seq<char>)
    ensures
        digits_value(g) matches Some(v) ==> 0 <= v < pow16(g.len()),
    decreases g.len(),
{
    if g.len() > 0 {
        lemma_digits_bound(g.drop_last());
        if let Some(v) = digits_value(g) {
            let a = digits_value(g.drop_last())->0;
            let b = hex_value(g.last())->0;
            let p = pow16(g.drop_last().len());
            assert(0 <= a * 16 + b < 16 * p) by (nonlinear_arith)
                requires 0 <= a < p, 0 <= b < 16;
        }
    }
}

/// Each group of a key decodes on its own: a group whose digits are
/// hexadecimal gives their value, and a malformed group gives the zero word,
/// whatever the other groups hold; the decode as a whole never fails.
pub proof fn lemma_groups_decode_independently(key: Seq<char>)
    requires
        key.len() >= 32,
    ensures
        forall|i: int|
            0 <= i < 8 ==> #[trigger] words_of(key)[i] == match digits_value(group_digits(key, i)) {
                Some(v) => v as u16,
                None => 0u16,
            },
        forall|i: int|
            0 <= i < 8 ==> (#[trigger] digits_value(group_digits(key, i)) matches Some(v) ==> v
                < 0x10000),
{
    assert(pow16(4) == 65536) by {
        reveal_with_fuel(pow16, 5);
    }
    assert(pow16(3) == 4096) by {
        reveal_with_fuel(pow16, 4);
    }
    assert forall|i: int| 0 <= i < 8 implies (#[trigger] digits_value(group_digits(key, i))
        matches Some(v) ==> v < 0x10000) by {
        let d = group_digits(key, i);
        assert(d.len() == 3 || d.len() == 4);
        lemma_digits_bound(d);
    }
    assert forall|i: int| 0 <= i < 8 implies #[trigger] words_of(key)[i] == match digits_value(
        group_digits(key, i),
    ) {
        Some(v) => v as u16,
        None => 0u16,
    } by {
        let d = group_digits(key, i);
        assert(d.len() == 3 || d.len() == 4);
        assert(digits_value(d) matches Some(v) ==> v < 0x10000);
    }
}

} // verus!
