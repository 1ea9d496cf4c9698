//! Network addresses as Postgres prints them.

use vstd::prelude::*;

use crate::binary::pow2;
use crate::text;
use crate::text::{decimal, digits_value};

verus! {

// ---------------------------------------------------------------------------
// Parts
// ---------------------------------------------------------------------------

/// The parts of `s` between the occurrences of `c`.
pub open spec fn split(s: Seq<char>, c: char) -> Seq<Seq<char>>
    decreases s.len(),
{
    if s.len() == 0 {
        seq![seq![]]
    } else {
        let before = split(s.drop_last(), c);
        if s.last() == c {
            before.push(seq![])
        } else {
            before.update(before.len() - 1, before.last().push(s.last()))
        }
    }
}

/// The parts as sequences.
pub open spec fn part_views(parts: Seq<Vec<char>>) -> Seq<Seq<char>> {
    parts.map_values(|p: Vec<char>| p@)
}

proof fn split_has_parts(s: Seq<char>, c: char)
    ensures
        split(s, c).len() > 0,
    decreases s.len(),
{
    if s.len() > 0 {
        split_has_parts(s.drop_last(), c);
    }
}

/// The parts of `s` between the occurrences of `c`.
pub fn split_at_each(s: &Vec<char>, c: char) -> (r: Vec<Vec<char>>)
    ensures
        part_views(r@) == split(s@, c),
        r@.len() > 0,
{
    let mut done: Vec<Vec<char>> = Vec::new();
    let mut open: Vec<char> = Vec::new();
    let mut i: usize = 0;
    assert(part_views(done@).push(open@) =~= split(s@.take(0), c));
    while i < s.len()
        invariant
            0 <= i <= s@.len(),
            part_views(done@).push(open@) == split(s@.take(i as int), c),
        decreases s@.len() - i,
    {
        proof {
            assert(s@.take(i + 1).drop_last() =~= s@.take(i as int));
        }
        let ghost before = part_views(done@);
        let ghost part = open@;
        if s[i] == c {
            let mut part: Vec<char> = Vec::new();
            std::mem::swap(&mut part, &mut open);
            let ghost so_far = done@;
            done.push(part);
            assert(part_views(done@) =~= part_views(so_far).push(part@));
            assert(part_views(done@).push(open@) =~= split(s@.take(i + 1), c));
        } else {
            open.push(s[i]);
            assert(before.push(open@) =~= before.push(part).update(before.len() as int, open@));
        }
        i += 1;
    }
    assert(s@.take(i as int) =~= s@);
    let ghost so_far = done@;
    done.push(open);
    assert(part_views(done@) =~= part_views(so_far).push(open@));
    done
}

/// A number up to `most` in decimal, without leading zeros.
pub open spec fn number_up_to(s: Seq<char>, most: nat) -> bool {
    &&& s.len() > 0
    &&& forall|i: int| 0 <= i < s.len() ==> text::ascii_digit(#[trigger] s[i])
    &&& s.len() > 1 ==> s[0] != '0'
    &&& digits_value(s) <= most
}

proof fn longer_is_more(s: Seq<char>, i: int)
    requires
        0 <= i <= s.len(),
        forall|j: int| 0 <= j < s.len() ==> text::ascii_digit(#[trigger] s[j]),
    ensures
        digits_value(s.take(i)) <= digits_value(s),
    decreases s.len() - i,
{
    if i < s.len() {
        longer_is_more(s, i + 1);
        assert(s.take(i + 1).drop_last() =~= s.take(i));
    } else {
        assert(s.take(i) =~= s);
    }
}

/// The number that `s` spells, if it is one up to `most`.
fn read_number(s: &Vec<char>, most: u16) -> (r: Option<u16>)
    ensures
        match r {
            Some(n) => number_up_to(s@, most as nat) && n == digits_value(s@),
            None => !number_up_to(s@, most as nat),
        },
{
    let n: usize = s.len();
    if n == 0 || (n > 1 && s[0] == '0') {
        return None;
    }
    let mut i: usize = 0;
    while i < n
        invariant
            0 <= i <= n == s@.len(),
            forall|j: int| 0 <= j < i ==> text::ascii_digit(#[trigger] s@[j]),
        decreases n - i,
    {
        if !text::is_ascii_digit(s[i]) {
            assert(!text::ascii_digit(s@[i as int]));
            return None;
        }
        i += 1;
    }
    let mut value: u32 = 0;
    let mut i: usize = 0;
    while i < n
        invariant
            0 <= i <= n == s@.len(),
            forall|j: int| 0 <= j < s@.len() ==> text::ascii_digit(#[trigger] s@[j]),
            value == digits_value(s@.take(i as int)),
            value <= most,
        decreases n - i,
    {
        let d: u8 = text::digit_of_char(s[i]);
        assert(s@.take(i + 1).drop_last() =~= s@.take(i as int));
        value = 10 * value + d as u32;
        if value > most as u32 {
            proof {
                longer_is_more(s@, i + 1);
            }
            return None;
        }
        i += 1;
    }
    assert(s@.take(n as int) =~= s@);
    Some(value as u16)
}

// ---------------------------------------------------------------------------
// Hardware addresses
// ---------------------------------------------------------------------------

/// `groups` groups of two hexadecimal digits in lower case, with colons
/// between them.
pub open spec fn hex_groups(s: Seq<char>, groups: nat) -> bool {
    &&& s.len() + 1 == 3 * groups
    &&& forall|i: int|
        0 <= i < s.len() ==> (if i % 3 == 2 {
            #[trigger] s[i] == ':'
        } else {
            text::lower_hex(s[i])
        })
}

fn is_hex_groups(s: &Vec<char>, groups: usize) -> (r: bool)
    requires
        1 <= groups <= 8,
    ensures
        r == hex_groups(s@, groups as nat),
{
    let n: usize = s.len();
    if n != 3 * groups - 1 {
        return false;
    }
    let mut i: usize = 0;
    while i < n
        invariant
            0 <= i <= n == s@.len(),
            forall|j: int|
                0 <= j < i ==> (if j % 3 == 2 {
                    #[trigger] s@[j] == ':'
                } else {
                    text::lower_hex(s@[j])
                }),
        decreases n - i,
    {
        let fine = if i % 3 == 2 {
            s[i] == ':'
        } else {
            text::is_lower_hex(s[i])
        };
        if !fine {
            assert(s@[i as int] == s@[i as int]);
            return false;
        }
        i += 1;
    }
    true
}

/// What is expected of a hardware address of six bytes.
pub const MACADDR_SHAPE: &'static str = "expected a canonical macaddr literal, six lowercase two-digit hex groups separated by \
     colons (e.g. '08:00:2b:01:02:03'), the spelling `macaddr_out` emits";

/// What is expected of a hardware address of eight bytes.
pub const MACADDR8_SHAPE: &'static str = "expected a canonical macaddr8 literal, eight lowercase two-digit hex groups separated \
     by colons (e.g. '08:00:2b:01:02:03:04:05'), the spelling `macaddr8_out` emits";

/// Checks that `literal` is a hardware address of six bytes as Postgres writes
/// it.
pub fn canonical_macaddr(literal: &str) -> (r: Result<(), &'static str>)
    ensures
        r is Ok <==> hex_groups(literal@, 6),
        r matches Err(shape) ==> shape@ == MACADDR_SHAPE@,
{
    if is_hex_groups(&text::chars_of(literal), 6) {
        Ok(())
    } else {
        Err(MACADDR_SHAPE)
    }
}

/// Checks that `literal` is a hardware address of eight bytes as Postgres
/// writes it.
pub fn canonical_macaddr8(literal: &str) -> (r: Result<(), &'static str>)
    ensures
        r is Ok <==> hex_groups(literal@, 8),
        r matches Err(shape) ==> shape@ == MACADDR8_SHAPE@,
{
    if is_hex_groups(&text::chars_of(literal), 8) {
        Ok(())
    } else {
        Err(MACADDR8_SHAPE)
    }
}

// ---------------------------------------------------------------------------
// Addresses of four bytes
// ---------------------------------------------------------------------------

/// Four numbers up to 255 with dots between them.
pub open spec fn four_octets(s: Seq<char>) -> bool {
    let parts = split(s, '.');
    &&& parts.len() == 4
    &&& forall|i: int| 0 <= i < 4 ==> number_up_to(#[trigger] parts[i], 255)
}

/// The four numbers.
pub open spec fn octets(s: Seq<char>) -> Seq<nat> {
    split(s, '.').map_values(|p: Seq<char>| digits_value(p))
}

/// The views of a list of numbers.
pub open spec fn word_views(s: Seq<u16>) -> Seq<nat> {
    s.map_values(|w: u16| w as nat)
}

fn read_octets(s: &Vec<char>) -> (r: Option<Vec<u16>>)
    ensures
        match r {
            Some(o) => four_octets(s@) && word_views(o@) == octets(s@) && o@.len() == 4,
            None => !four_octets(s@),
        },
{
    let parts = split_at_each(s, '.');
    let ghost ps = split(s@, '.');
    assert(part_views(parts@).len() == parts@.len());
    if parts.len() != 4 {
        return None;
    }
    let mut o: Vec<u16> = Vec::new();
    let mut i: usize = 0;
    while i < 4
        invariant
            0 <= i <= 4,
            parts@.len() == 4,
            ps == split(s@, '.'),
            part_views(parts@) == ps,
            o@.len() == i,
            forall|j: int|
                0 <= j < i ==> number_up_to(#[trigger] ps[j], 255) && o@[j] == digits_value(ps[j]),
        decreases 4 - i,
    {
        assert(ps[i as int] == parts@[i as int]@);
        match read_number(&parts[i], 255) {
            Some(n) => {
                o.push(n);
            },
            None => {
                return None;
            },
        }
        i += 1;
    }
    assert(word_views(o@) =~= octets(s@));
    Some(o)
}

/// No bit behind the first `prefix` ones is set, in words of `width` bits.
pub open spec fn host_is_zero(words: Seq<nat>, width: nat, prefix: nat) -> bool {
    forall|i: int|
        0 <= i < words.len() ==> (#[trigger] words[i]) % pow2(host_bits(width, prefix, i)) == 0
}

/// How many bits of word `i` lie behind the first `prefix` ones.
pub open spec fn host_bits(width: nat, prefix: nat, i: int) -> nat {
    let left = prefix - width * i;
    if left >= width {
        0
    } else if left <= 0 {
        width
    } else {
        (width - left) as nat
    }
}

fn is_host_zero(words: &Vec<u16>, width: u16, prefix: u16) -> (r: bool)
    requires
        width <= 16,
        prefix <= 128,
        words@.len() <= 8,
    ensures
        r == host_is_zero(word_views(words@), width as nat, prefix as nat),
{
    let ghost ws = word_views(words@);
    let mut i: usize = 0;
    while i < words.len()
        invariant
            0 <= i <= words@.len() <= 8,
            width <= 16,
            prefix <= 128,
            ws == word_views(words@),
            forall|j: int|
                0 <= j < i ==> (#[trigger] ws[j]) % pow2(
                    host_bits(width as nat, prefix as nat, j),
                ) == 0,
        decreases words@.len() - i,
    {
        assert(width * i <= 16 * 8) by (nonlinear_arith)
            requires
                width <= 16,
                i <= 8,
        ;
        let before: usize = width as usize * i;
        let left: i32 = prefix as i32 - before as i32;
        let host: u16 = if left >= width as i32 {
            0
        } else if left <= 0 {
            width
        } else {
            width - left as u16
        };
        let mut power: u32 = 1;
        let mut b: u16 = 0;
        assert(host as nat == host_bits(width as nat, prefix as nat, i as int));
        assert(pow2(0) == 1);
        while b < host
            invariant
                0 <= b <= host <= 16,
                power == pow2(b as nat),
                power <= 65536,
                b < 16 ==> power <= 32768,
            decreases host - b,
        {
            proof {
                assert(pow2((b + 1) as nat) == 2 * pow2(b as nat));
                sixteen_bits(b as nat + 1);
            }
            power = 2 * power;
            b += 1;
        }
        assert(ws[i as int] == words@[i as int]);
        proof {
            crate::binary::pow2_positive(host as nat);
        }
        if words[i] as u32 % power != 0 {
            assert(ws[i as int] % pow2(host_bits(width as nat, prefix as nat, i as int)) != 0);
            return false;
        }
        i += 1;
    }
    true
}

proof fn sixteen_bits(b: nat)
    ensures
        b < 16 ==> pow2(b) <= 32768,
        b <= 16 ==> pow2(b) <= 65536,
{
    reveal_with_fuel(pow2, 18);
    if b <= 16 {
        crate::binary::pow2_grows(b, 16);
        if b < 16 {
            crate::binary::pow2_grows(b, 15);
        }
    }
}

// ---------------------------------------------------------------------------
// Addresses of sixteen bytes
// ---------------------------------------------------------------------------

/// The value of a hexadecimal digit in lower case.
pub open spec fn hex_digit_value(c: char) -> nat {
    if '0' <= c <= '9' {
        (c as int - '0' as int) as nat
    } else {
        (c as int - 'a' as int + 10) as nat
    }
}

/// The number that hexadecimal digits spell.
pub open spec fn hex_value(s: Seq<char>) -> nat
    decreases s.len(),
{
    if s.len() == 0 {
        0
    } else {
        16 * hex_value(s.drop_last()) + hex_digit_value(s.last())
    }
}

/// One to four hexadecimal digits in lower case.
pub open spec fn is_word(s: Seq<char>) -> bool {
    &&& 1 <= s.len() <= 4
    &&& forall|i: int| 0 <= i < s.len() ==> text::lower_hex(#[trigger] s[i])
}

/// The words that the parts spell; four numbers with dots between them stand
/// for the last two.
pub open spec fn words_of(parts: Seq<Seq<char>>) -> Option<Seq<nat>>
    decreases parts.len(),
{
    if parts.len() == 0 {
        Some(seq![])
    } else if parts.len() == 1 && four_octets(parts[0]) {
        let o = octets(parts[0]);
        Some(seq![256 * o[0] + o[1], 256 * o[2] + o[3]])
    } else if is_word(parts[0]) {
        match words_of(parts.skip(1)) {
            Some(rest) => Some(seq![hex_value(parts[0])] + rest),
            None => None,
        }
    } else {
        None
    }
}

/// The words that `s` spells between its colons; none if it is empty.
pub open spec fn words_between(s: Seq<char>) -> Option<Seq<nat>> {
    if s.len() == 0 {
        Some(seq![])
    } else {
        words_of(split(s, ':'))
    }
}

/// The position of the first two colons next to each other, at or behind `i`.
pub open spec fn first_gap(s: Seq<char>, i: int) -> Option<int>
    decreases s.len() - i,
{
    if i < 0 || i + 1 >= s.len() {
        None
    } else if s[i] == ':' && s[i + 1] == ':' {
        Some(i)
    } else {
        first_gap(s, i + 1)
    }
}

/// The eight words of an address: two colons next to each other stand for as
/// many zeros as are missing.
pub open spec fn address_words(s: Seq<char>) -> Option<Seq<nat>> {
    match first_gap(s, 0) {
        Some(i) => match (words_between(s.take(i)), words_between(s.skip(i + 2))) {
            (Some(l), Some(r)) => if l.len() + r.len() <= 8 {
                Some(l + Seq::new((8 - l.len() - r.len()) as nat, |j: int| 0nat) + r)
            } else {
                None
            },
            _ => None,
        },
        None => match words_between(s) {
            Some(w) => if w.len() == 8 {
                Some(w)
            } else {
                None
            },
            None => None,
        },
    }
}

/// How many zeros there are from word `i` on.
pub open spec fn zero_run(w: Seq<nat>, i: int) -> int
    decreases w.len() - i,
{
    if 0 <= i < w.len() && w[i] == 0 {
        1 + zero_run(w, i + 1)
    } else {
        0
    }
}

/// The longest run of zeros at or behind word `i`, the first of those, with
/// the one before it.
pub open spec fn longest_run(w: Seq<nat>, i: int, base: int, len: int) -> (int, int)
    decreases w.len() - i,
{
    if i < 0 || i >= w.len() {
        (base, len)
    } else if zero_run(w, i) > len {
        longest_run(w, i + 1, i, zero_run(w, i))
    } else {
        longest_run(w, i + 1, base, len)
    }
}

/// The run of zeros that is left out: the first of the longest, if it is more
/// than one word.
pub open spec fn left_out(w: Seq<nat>) -> (int, int) {
    let (base, len) = longest_run(w, 0, -1, 0);
    if len >= 2 {
        (base, len)
    } else {
        (-1, 0)
    }
}

/// A hexadecimal digit in lower case.
pub open spec fn hex_digit(d: nat) -> char {
    if d < 10 {
        ('0' as int + d) as char
    } else {
        ('a' as int + d - 10) as char
    }
}

/// A number in hexadecimal, in lower case and without leading zeros.
pub open spec fn hex(n: nat) -> Seq<char>
    decreases n,
{
    if n < 16 {
        seq![hex_digit(n)]
    } else {
        hex(n / 16).push(hex_digit(n % 16))
    }
}

/// Two words as four numbers with dots between them.
pub open spec fn dotted(a: nat, b: nat) -> Seq<char> {
    decimal(a / 256) + "."@ + decimal(a % 256) + "."@ + decimal(b / 256) + "."@ + decimal(b % 256)
}

/// The last two words are shown as four numbers: nothing but zeros comes
/// before them, or zeros and a word of ones.
pub open spec fn shows_dotted(w: Seq<nat>, base: int, len: int) -> bool {
    base == 0 && (len == 6 || (len == 5 && w[5] == 0xffff))
}

/// The text of the words from `i` on, with the given run left out.
pub open spec fn shown_from(w: Seq<nat>, base: int, len: int, i: int) -> Seq<char>
    decreases 8 - i,
{
    if i >= 8 {
        if base + len == 8 {
            ":"@
        } else {
            seq![]
        }
    } else if base <= i < base + len {
        (if i == base {
            ":"@
        } else {
            seq![]
        }) + shown_from(w, base, len, i + 1)
    } else {
        let colon = if i != 0 {
            ":"@
        } else {
            seq![]
        };
        if i == 6 && shows_dotted(w, base, len) {
            colon + dotted(w[6], w[7])
        } else {
            colon + hex(w[i]) + shown_from(w, base, len, i + 1)
        }
    }
}

/// The text of an address of eight words.
pub open spec fn shown(w: Seq<nat>) -> Seq<char> {
    let (base, len) = left_out(w);
    shown_from(w, base, len, 0)
}

/// An address of sixteen bytes that is shown the way it is spelled.
pub open spec fn eight_words(s: Seq<char>) -> bool {
    match address_words(s) {
        Some(w) => shown(w) == s,
        None => false,
    }
}

fn hex_digit_of(c: char) -> (r: u16)
    requires
        text::lower_hex(c),
    ensures
        r == hex_digit_value(c),
        r < 16,
{
    if '0' <= c && c <= '9' {
        (c as u32 - 48) as u16
    } else {
        (c as u32 - 97 + 10) as u16
    }
}

fn read_word(s: &Vec<char>) -> (r: Option<u16>)
    ensures
        match r {
            Some(n) => is_word(s@) && n == hex_value(s@),
            None => !is_word(s@),
        },
{
    let n: usize = s.len();
    if n < 1 || n > 4 {
        return None;
    }
    let mut value: u32 = 0;
    let mut i: usize = 0;
    while i < n
        invariant
            0 <= i <= n == s@.len() <= 4,
            forall|j: int| 0 <= j < i ==> text::lower_hex(#[trigger] s@[j]),
            value == hex_value(s@.take(i as int)),
            i == 0 ==> value < 1,
            i == 1 ==> value < 0x10,
            i == 2 ==> value < 0x100,
            i == 3 ==> value < 0x1000,
            i == 4 ==> value < 0x10000,
        decreases n - i,
    {
        if !text::is_lower_hex(s[i]) {
            assert(!text::lower_hex(s@[i as int]));
            return None;
        }
        assert(s@.take(i + 1).drop_last() =~= s@.take(i as int));
        value = 16 * value + hex_digit_of(s[i]) as u32;
        i += 1;
    }
    assert(s@.take(n as int) =~= s@);
    Some(value as u16)
}

proof fn octets_are_small(s: Seq<char>)
    requires
        four_octets(s),
    ensures
        octets(s).len() == 4,
        forall|i: int| 0 <= i < 4 ==> (#[trigger] octets(s)[i]) <= 255,
{
    assert forall|i: int| 0 <= i < 4 implies (#[trigger] octets(s)[i]) <= 255 by {
        assert(number_up_to(split(s, '.')[i], 255));
    }
}

/// The words that the parts from `i` on spell.
fn read_words(parts: &Vec<Vec<char>>, i: usize) -> (r: Option<Vec<u16>>)
    requires
        i <= parts@.len(),
    ensures
        match r {
            Some(w) => words_of(part_views(parts@).skip(i as int)) == Some(word_views(w@)),
            None => words_of(part_views(parts@).skip(i as int)) is None,
        },
    decreases parts@.len() - i,
{
    let ghost ps = part_views(parts@).skip(i as int);
    if i == parts.len() {
        let w: Vec<u16> = Vec::new();
        assert(word_views(w@) =~= seq![]);
        return Some(w);
    }
    assert(ps[0] == parts@[i as int]@);
    if i + 1 == parts.len() {
        if let Some(o) = read_octets(&parts[i]) {
            proof {
                octets_are_small(ps[0]);
                assert(octets(ps[0])[0] == o@[0] as nat);
                assert(octets(ps[0])[1] == o@[1] as nat);
                assert(octets(ps[0])[2] == o@[2] as nat);
                assert(octets(ps[0])[3] == o@[3] as nat);
            }
            let mut w: Vec<u16> = Vec::new();
            w.push(256 * o[0] + o[1]);
            w.push(256 * o[2] + o[3]);
            assert(word_views(w@) =~= words_of(ps)->0);
            return Some(w);
        }
    }
    match read_word(&parts[i]) {
        Some(n) => {
            assert(ps.skip(1) =~= part_views(parts@).skip(i + 1));
            match read_words(parts, i + 1) {
                Some(rest) => {
                    let mut rest = rest;
                    let mut w: Vec<u16> = Vec::new();
                    w.push(n);
                    let ghost tail = rest@;
                    w.append(&mut rest);
                    assert(word_views(w@) =~= seq![n as nat] + word_views(tail));
                    Some(w)
                },
                None => None,
            }
        },
        None => None,
    }
}

fn read_between(s: &Vec<char>) -> (r: Option<Vec<u16>>)
    ensures
        match r {
            Some(w) => words_between(s@) == Some(word_views(w@)),
            None => words_between(s@) is None,
        },
{
    if s.len() == 0 {
        let w: Vec<u16> = Vec::new();
        assert(word_views(w@) =~= seq![]);
        return Some(w);
    }
    let parts = split_at_each(s, ':');
    assert(part_views(parts@).skip(0) =~= part_views(parts@));
    read_words(&parts, 0)
}

fn find_gap(s: &Vec<char>) -> (r: Option<usize>)
    ensures
        match r {
            Some(i) => first_gap(s@, 0) == Some(i as int) && i + 2 <= s.len(),
            None => first_gap(s@, 0) is None,
        },
{
    let n: usize = s.len();
    let mut i: usize = 0;
    while i < n && n - i > 1
        invariant
            0 <= i <= n == s@.len(),
            first_gap(s@, 0) == first_gap(s@, i as int),
        decreases n - i,
    {
        if s[i] == ':' && s[i + 1] == ':' {
            return Some(i);
        }
        i += 1;
    }
    None
}

fn copy_part(s: &Vec<char>, from: usize, to: usize) -> (r: Vec<char>)
    requires
        from <= to <= s@.len(),
    ensures
        r@ == s@.subrange(from as int, to as int),
{
    let mut r: Vec<char> = Vec::new();
    let mut i: usize = from;
    while i < to
        invariant
            from <= i <= to <= s@.len(),
            r@ == s@.subrange(from as int, i as int),
        decreases to - i,
    {
        r.push(s[i]);
        assert(r@ =~= s@.subrange(from as int, i + 1));
        i += 1;
    }
    r
}

fn read_address(s: &Vec<char>) -> (r: Option<Vec<u16>>)
    ensures
        match r {
            Some(w) => address_words(s@) == Some(word_views(w@)) && w@.len() == 8,
            None => address_words(s@) is None,
        },
{
    match find_gap(s) {
        Some(i) => {
            let left = copy_part(s, 0, i);
            let right = copy_part(s, i + 2, s.len());
            assert(left@ =~= s@.take(i as int));
            assert(right@ =~= s@.skip(i + 2));
            match (read_between(&left), read_between(&right)) {
                (Some(l), Some(r)) => {
                    let ghost lw = word_views(l@);
                    let ghost rw = word_views(r@);
                    assert(lw.len() == l@.len() && rw.len() == r@.len());
                    if l.len() > 8 || r.len() > 8 || l.len() + r.len() > 8 {
                        return None;
                    }
                    let missing: usize = 8 - l.len() - r.len();
                    let mut w = l;
                    let mut k: usize = 0;
                    let ghost none = Seq::new(0, |j: int| 0nat);
                    assert(word_views(w@) =~= lw + none);
                    while k < missing
                        invariant
                            0 <= k <= missing,
                            word_views(w@) == lw + Seq::new(k as nat, |j: int| 0nat),
                        decreases missing - k,
                    {
                        let ghost before = w@;
                        w.push(0);
                        assert(word_views(w@) =~= word_views(before).push(0nat));
                        assert(word_views(w@) =~= lw + Seq::new((k + 1) as nat, |j: int| 0nat));
                        k += 1;
                    }
                    let ghost head = w@;
                    let mut r = r;
                    let ghost tail = r@;
                    w.append(&mut r);
                    assert(word_views(w@) =~= word_views(head) + word_views(tail));
                    assert(word_views(w@).len() == w@.len());
                    Some(w)
                },
                _ => None,
            }
        },
        None => match read_between(s) {
            Some(w) => {
                assert(word_views(w@).len() == w@.len());
                if w.len() == 8 {
                    Some(w)
                } else {
                    None
                }
            },
            None => None,
        },
    }
}

fn count_zeros(w: &Vec<u16>, from: usize) -> (r: usize)
    requires
        w@.len() == 8,
        from <= 8,
    ensures
        r == zero_run(word_views(w@), from as int),
        from + r <= 8,
    decreases 8 - from,
{
    let ghost ws = word_views(w@);
    if from == 8 {
        return 0;
    }
    assert(ws[from as int] == w@[from as int]);
    if w[from] != 0 {
        return 0;
    }
    1 + count_zeros(w, from + 1)
}

fn hex_char(d: u16) -> (c: char)
    requires
        d < 16,
    ensures
        c == hex_digit(d as nat),
{
    if d == 0 { '0' } else if d == 1 { '1' } else if d == 2 { '2' } else if d == 3 { '3' } else if d
        == 4 { '4' } else if d == 5 { '5' } else if d == 6 { '6' } else if d == 7 { '7' } else if d
        == 8 { '8' } else if d == 9 { '9' } else if d == 10 { 'a' } else if d == 11 { 'b' } else if d
        == 12 { 'c' } else if d == 13 { 'd' } else if d == 14 { 'e' } else { 'f' }
}

fn append_hex(s: &mut String, n: u16)
    ensures
        final(s)@ == old(s)@ + hex(n as nat),
    decreases n,
{
    if n < 16 {
        s.push(hex_char(n));
        assert(s@ =~= old(s)@ + hex(n as nat));
    } else {
        append_hex(s, n / 16);
        s.push(hex_char(n % 16));
        assert(s@ =~= old(s)@ + hex(n as nat));
    }
}

fn append_dotted(s: &mut String, a: u16, b: u16)
    ensures
        final(s)@ == old(s)@ + dotted(a as nat, b as nat),
{
    s.append(text::decimal_of((a / 256) as u128).as_str());
    s.append(".");
    s.append(text::decimal_of((a % 256) as u128).as_str());
    s.append(".");
    s.append(text::decimal_of((b / 256) as u128).as_str());
    s.append(".");
    s.append(text::decimal_of((b % 256) as u128).as_str());
    assert(s@ =~= old(s)@ + dotted(a as nat, b as nat));
}

fn append_from(s: &mut String, w: &Vec<u16>, base: i32, len: i32, i: usize)
    requires
        w@.len() == 8,
        i <= 8,
        -1 <= base <= 8,
        0 <= len <= 8,
    ensures
        final(s)@ == old(s)@ + shown_from(word_views(w@), base as int, len as int, i as int),
    decreases 8 - i,
{
    let ghost ws = word_views(w@);
    let at: i32 = i as i32;
    if i == 8 {
        if base + len == 8 {
            s.append(":");
        }
        assert(s@ =~= old(s)@ + shown_from(ws, base as int, len as int, 8));
        return;
    }
    assert(ws[i as int] == w@[i as int]);
    if base <= at && at < base + len {
        if at == base {
            s.append(":");
        }
        append_from(s, w, base, len, i + 1);
        assert(s@ =~= old(s)@ + shown_from(ws, base as int, len as int, i as int));
        return;
    }
    if i != 0 {
        s.append(":");
    }
    assert(ws[5] == w@[5] && ws[6] == w@[6] && ws[7] == w@[7]);
    if i == 6 && base == 0 && (len == 6 || (len == 5 && w[5] == 0xffff)) {
        append_dotted(s, w[6], w[7]);
        assert(s@ =~= old(s)@ + shown_from(ws, base as int, len as int, i as int));
    } else {
        append_hex(s, w[i]);
        append_from(s, w, base, len, i + 1);
        assert(s@ =~= old(s)@ + shown_from(ws, base as int, len as int, i as int));
    }
}

fn show_address(w: &Vec<u16>) -> (r: String)
    requires
        w@.len() == 8,
    ensures
        r@ == shown(word_views(w@)),
{
    let ghost ws = word_views(w@);
    let mut base: i32 = -1;
    let mut len: i32 = 0;
    let mut i: usize = 0;
    while i < 8
        invariant
            0 <= i <= 8,
            w@.len() == 8,
            ws == word_views(w@),
            -1 <= base <= 8,
            0 <= len <= 8,
            longest_run(ws, 0, -1, 0) == longest_run(ws, i as int, base as int, len as int),
        decreases 8 - i,
    {
        let run: usize = count_zeros(w, i);
        if run as i32 > len {
            base = i as i32;
            len = run as i32;
        }
        i += 1;
    }
    if len < 2 {
        base = -1;
        len = 0;
    }
    let mut r = String::new();
    append_from(&mut r, w, base, len, 0);
    assert(r@ =~= shown(ws));
    r
}

// ---------------------------------------------------------------------------
// Addresses with a prefix
// ---------------------------------------------------------------------------

/// What is expected of an address.
pub const INET_SHAPE: &'static str = "expected a canonical inet literal, an IPv4 or IPv6 address with an explicit netmask \
     length (e.g. '192.168.1.5/24' or '2001:db8::1/128'), the spelling `network_show` emits";

/// What is expected of a network.
pub const CIDR_SHAPE: &'static str = "expected a canonical cidr literal, an IPv4 or IPv6 network with an explicit netmask \
     length and no bits set to the right of it (e.g. '192.168.1.0/24' or '2001:db8::/32'), the \
     spelling `cidr_out` emits";

/// An address and how many of its bits tell the network, as Postgres prints
/// both; `network` asks that no other bits are set.
pub open spec fn address_text(s: Seq<char>, network: bool) -> bool {
    let halves = split(s, '/');
    &&& halves.len() == 2
    &&& if four_octets(halves[0]) {
        &&& number_up_to(halves[1], 32)
        &&& network ==> host_is_zero(octets(halves[0]), 8, digits_value(halves[1]))
    } else {
        &&& eight_words(halves[0])
        &&& number_up_to(halves[1], 128)
        &&& network ==> host_is_zero(
            address_words(halves[0])->0,
            16,
            digits_value(halves[1]),
        )
    }
}

fn is_address(s: &Vec<char>, network: bool) -> (r: bool)
    ensures
        r == address_text(s@, network),
{
    let halves = split_at_each(s, '/');
    let ghost hs = split(s@, '/');
    assert(part_views(halves@).len() == halves@.len());
    if halves.len() != 2 {
        return false;
    }
    assert(hs[0] == halves@[0]@ && hs[1] == halves@[1]@);
    match read_octets(&halves[0]) {
        Some(o) => match read_number(&halves[1], 32) {
            Some(prefix) => !network || is_host_zero(&o, 8, prefix),
            None => false,
        },
        None => match read_address(&halves[0]) {
            Some(w) => {
                let again = show_address(&w);
                let same = text::same(
                    again.as_str(),
                    text::string_of(&halves[0], 0, halves[0].len()).as_str(),
                );
                assert(halves@[0]@.subrange(0, halves@[0]@.len() as int) =~= halves@[0]@);
                if !same {
                    return false;
                }
                match read_number(&halves[1], 128) {
                    Some(prefix) => !network || is_host_zero(&w, 16, prefix),
                    None => false,
                }
            },
            None => false,
        },
    }
}

/// Checks that `literal` is an address as Postgres writes it.
pub fn canonical_inet(literal: &str) -> (r: Result<(), &'static str>)
    ensures
        r is Ok <==> address_text(literal@, false),
        r matches Err(shape) ==> shape@ == INET_SHAPE@,
{
    if is_address(&text::chars_of(literal), false) {
        Ok(())
    } else {
        Err(INET_SHAPE)
    }
}

/// Checks that `literal` is a network as Postgres writes it.
pub fn canonical_cidr(literal: &str) -> (r: Result<(), &'static str>)
    ensures
        r is Ok <==> address_text(literal@, true),
        r matches Err(shape) ==> shape@ == CIDR_SHAPE@,
{
    if is_address(&text::chars_of(literal), true) {
        Ok(())
    } else {
        Err(CIDR_SHAPE)
    }
}

/// Every network is an address.
pub proof fn networks_are_addresses(s: Seq<char>)
    requires
        address_text(s, true),
    ensures
        address_text(s, false),
{
}

} // verus!
