//! JSON documents as Postgres prints them in `jsonb`.
//!
//! A document has one spelling: a space behind each comma and colon and
//! nowhere else, numbers without an exponent, members sorted by the length of
//! their names and then by their bytes, none twice, and in strings the escapes
//! that cannot be avoided.

use vstd::prelude::*;
use vstd::utf8::encode_utf8;

use crate::netaddr::hex_digit_value;
use crate::ordered;
use crate::ordered::precedes;
use crate::text;

verus! {

// ---------------------------------------------------------------------------
// Strings
// ---------------------------------------------------------------------------

/// The character that a backslash and `c` stand for.
pub open spec fn escaped(c: char) -> Option<char> {
    if c == '"' {
        Some('"')
    } else if c == '\\' {
        Some('\\')
    } else if c == 'b' {
        Some('\u{8}')
    } else if c == 'f' {
        Some('\u{c}')
    } else if c == 'n' {
        Some('\n')
    } else if c == 'r' {
        Some('\r')
    } else if c == 't' {
        Some('\t')
    } else {
        None
    }
}

/// A control character that has no escape of its own; the first one has no
/// spelling at all.
pub open spec fn spelled_out(n: nat) -> bool {
    0 < n < 0x20 && n != 8 && n != 9 && n != 10 && n != 12 && n != 13
}

/// Four hexadecimal digits in lower case stand at `i`.
pub open spec fn four_hex(s: Seq<char>, i: int) -> bool {
    &&& i + 4 <= s.len()
    &&& text::lower_hex(s[i]) && text::lower_hex(s[i + 1]) && text::lower_hex(s[i + 2])
        && text::lower_hex(s[i + 3])
}

/// The number that the four hexadecimal digits at `i` spell.
pub open spec fn four_hex_value(s: Seq<char>, i: int) -> nat {
    4096 * hex_digit_value(s[i]) + 256 * hex_digit_value(s[i + 1]) + 16 * hex_digit_value(s[i + 2])
        + hex_digit_value(s[i + 3])
}

/// The rest of a string from `i` on, behind `acc`, and where it ends.
pub open spec fn string_from(s: Seq<char>, i: int, acc: Seq<char>) -> Option<(Seq<char>, int)>
    decreases s.len() - i,
{
    if i < 0 || i >= s.len() {
        None
    } else if s[i] == '"' {
        Some((acc, i + 1))
    } else if s[i] == '\\' {
        if i + 1 >= s.len() {
            None
        } else if s[i + 1] == 'u' {
            if four_hex(s, i + 2) && spelled_out(four_hex_value(s, i + 2)) {
                string_from(s, i + 6, acc.push(four_hex_value(s, i + 2) as char))
            } else {
                None
            }
        } else {
            match escaped(s[i + 1]) {
                Some(c) => string_from(s, i + 2, acc.push(c)),
                None => None,
            }
        }
    } else if s[i] <= '\u{1f}' {
        None
    } else {
        string_from(s, i + 1, acc.push(s[i]))
    }
}

fn escape_of(c: char) -> (r: Option<char>)
    ensures
        r == escaped(c),
{
    if c == '"' {
        Some('"')
    } else if c == '\\' {
        Some('\\')
    } else if c == 'b' {
        Some('\u{8}')
    } else if c == 'f' {
        Some('\u{c}')
    } else if c == 'n' {
        Some('\n')
    } else if c == 'r' {
        Some('\r')
    } else if c == 't' {
        Some('\t')
    } else {
        None
    }
}

fn hex_of(c: char) -> (r: u32)
    requires
        text::lower_hex(c),
    ensures
        r == hex_digit_value(c),
        r < 16,
{
    if '0' <= c && c <= '9' {
        c as u32 - 48
    } else {
        c as u32 - 97 + 10
    }
}

fn read_string(s: &Vec<char>, from: usize) -> (r: Option<(String, usize)>)
    requires
        from <= s@.len(),
    ensures
        match r {
            Some((key, end)) => string_from(s@, from as int, seq![]) == Some((key@, end as int))
                && from < end <= s.len(),
            None => string_from(s@, from as int, seq![]) is None,
        },
{
    let n: usize = s.len();
    let mut key = String::new();
    assert(key@ =~= seq![]);
    let mut i: usize = from;
    while i < n
        invariant
            from <= i <= n == s@.len(),
            string_from(s@, from as int, seq![]) == string_from(s@, i as int, key@),
        decreases n - i,
    {
        let c = s[i];
        if c == '"' {
            return Some((key, i + 1));
        }
        if c == '\\' {
            if i + 1 >= n {
                return None;
            }
            if s[i + 1] == 'u' {
                if n - i < 6 || !text::is_lower_hex(s[i + 2]) || !text::is_lower_hex(s[i + 3])
                    || !text::is_lower_hex(s[i + 4]) || !text::is_lower_hex(s[i + 5]) {
                    return None;
                }
                let v: u32 = 4096 * hex_of(s[i + 2]) + 256 * hex_of(s[i + 3]) + 16 * hex_of(
                    s[i + 4],
                ) + hex_of(s[i + 5]);
                if v == 0 || v >= 0x20 || v == 8 || v == 9 || v == 10 || v == 12 || v == 13 {
                    return None;
                }
                key.push(control(v as u8));
                i += 6;
            } else {
                match escape_of(s[i + 1]) {
                    Some(e) => {
                        key.push(e);
                    },
                    None => {
                        return None;
                    },
                }
                i += 2;
            }
        } else if c <= '\u{1f}' {
            return None;
        } else {
            key.push(c);
            i += 1;
        }
    }
    None
}

fn control(v: u8) -> (c: char)
    requires
        v < 0x20,
    ensures
        c == v as nat as char,
{
    v as char
}

// ---------------------------------------------------------------------------
// Numbers
// ---------------------------------------------------------------------------

/// Where the digits from `i` on end.
pub open spec fn digits_end(s: Seq<char>, i: int) -> int
    decreases s.len() - i,
{
    if i < 0 || i >= s.len() || !text::ascii_digit(s[i]) {
        i
    } else {
        digits_end(s, i + 1)
    }
}

/// Where the number at `i` ends: an optional minus, digits without leading
/// zeros, and an optional dot with digits behind it. There is no negative
/// zero.
pub open spec fn number_end(s: Seq<char>, i: int) -> Option<int> {
    let from = if 0 <= i < s.len() && s[i] == '-' {
        i + 1
    } else {
        i
    };
    let whole = digits_end(s, from);
    if whole == from || (whole > from + 1 && s[from] == '0') {
        None
    } else {
        let dotted = whole < s.len() && s[whole] == '.';
        let end = if dotted {
            digits_end(s, whole + 1)
        } else {
            whole
        };
        if dotted && end == whole + 1 {
            None
        } else if from > i && !(exists|k: int| from <= k < end && '1' <= #[trigger] s[k] <= '9') {
            None
        } else {
            Some(end)
        }
    }
}

fn find_digits_end(s: &Vec<char>, from: usize) -> (r: usize)
    requires
        from <= s@.len(),
    ensures
        r == digits_end(s@, from as int),
        from <= r <= s@.len(),
{
    let mut i: usize = from;
    while i < s.len()
        invariant
            from <= i <= s@.len(),
            digits_end(s@, from as int) == digits_end(s@, i as int),
        decreases s@.len() - i,
    {
        if !text::is_ascii_digit(s[i]) {
            return i;
        }
        i += 1;
    }
    i
}

fn find_number_end(s: &Vec<char>, from: usize) -> (r: Option<usize>)
    requires
        from < s@.len(),
    ensures
        match r {
            Some(end) => number_end(s@, from as int) == Some(end as int) && from < end <= s@.len(),
            None => number_end(s@, from as int) is None,
        },
{
    let n: usize = s.len();
    let start: usize = if s[from] == '-' {
        from + 1
    } else {
        from
    };
    let whole: usize = find_digits_end(s, start);
    if whole == start || (whole > start + 1 && s[start] == '0') {
        return None;
    }
    let dotted = whole < n && s[whole] == '.';
    let end: usize = if dotted {
        find_digits_end(s, whole + 1)
    } else {
        whole
    };
    if dotted && end == whole + 1 {
        return None;
    }
    if start > from {
        let mut k: usize = start;
        while k < end && !('1' <= s[k] && s[k] <= '9')
            invariant
                start <= k <= end <= s@.len(),
                forall|j: int| start <= j < k ==> !('1' <= #[trigger] s@[j] <= '9'),
            decreases end - k,
        {
            k += 1;
        }
        if k == end {
            return None;
        }
        assert('1' <= s@[k as int] <= '9');
    }
    Some(end)
}

// ---------------------------------------------------------------------------
// Documents
// ---------------------------------------------------------------------------

/// The order of the names of members: by length in bytes, then by bytes.
pub open spec fn comes_before(a: Seq<char>, b: Seq<char>) -> bool {
    let x = encode_utf8(a).len();
    let y = encode_utf8(b).len();
    x < y || (x == y && precedes(a, b))
}

/// `w` stands at `i`.
pub open spec fn stands_at(s: Seq<char>, i: int, w: Seq<char>) -> bool {
    0 <= i && i + w.len() <= s.len() && s.subrange(i, i + w.len()) == w
}

/// The character at `i` is `c`.
pub open spec fn is_at(s: Seq<char>, i: int, c: char) -> bool {
    0 <= i < s.len() && s[i] == c
}

/// Where the value at `i` ends.
pub open spec fn value_end(s: Seq<char>, i: int) -> Option<int>
    decreases s.len() - i, 0nat,
{
    if i < 0 || i >= s.len() {
        None
    } else if s[i] == '"' {
        match string_from(s, i + 1, seq![]) {
            Some((_, j)) => Some(j),
            None => None,
        }
    } else if s[i] == '{' {
        if is_at(s, i + 1, '}') {
            Some(i + 2)
        } else {
            members_end(s, i + 1, None)
        }
    } else if s[i] == '[' {
        if is_at(s, i + 1, ']') {
            Some(i + 2)
        } else {
            elements_end(s, i + 1)
        }
    } else if stands_at(s, i, "true"@) || stands_at(s, i, "null"@) {
        Some(i + 4)
    } else if stands_at(s, i, "false"@) {
        Some(i + 5)
    } else {
        number_end(s, i)
    }
}

/// Where the list ends whose element is at `i`.
pub open spec fn elements_end(s: Seq<char>, i: int) -> Option<int>
    decreases s.len() - i, 1nat,
{
    match value_end(s, i) {
        Some(j) => if j <= i || j > s.len() {
            None
        } else if is_at(s, j, ']') {
            Some(j + 1)
        } else if is_at(s, j, ',') && is_at(s, j + 1, ' ') {
            elements_end(s, j + 2)
        } else {
            None
        },
        None => None,
    }
}

/// Where the object ends whose member is at `i`, behind the one named `last`.
pub open spec fn members_end(s: Seq<char>, i: int, last: Option<Seq<char>>) -> Option<int>
    decreases s.len() - i, 1nat,
{
    if !is_at(s, i, '"') {
        None
    } else {
        match string_from(s, i + 1, seq![]) {
            Some((key, j)) => if j <= i || j > s.len() || (last matches Some(before)
                && !comes_before(before, key)) || !is_at(s, j, ':') || !is_at(s, j + 1, ' ') {
                None
            } else {
                match value_end(s, j + 2) {
                    Some(k) => if k <= j || k > s.len() {
                        None
                    } else if is_at(s, k, '}') {
                        Some(k + 1)
                    } else if is_at(s, k, ',') && is_at(s, k + 1, ' ') {
                        members_end(s, k + 2, Some(key))
                    } else {
                        None
                    },
                    None => None,
                }
            },
            None => None,
        }
    }
}

/// A document as Postgres prints it.
pub open spec fn document_text(s: Seq<char>) -> bool {
    value_end(s, 0) == Some(s.len() as int)
}

fn is_char_at(s: &Vec<char>, i: usize, c: char) -> (r: bool)
    ensures
        r == is_at(s@, i as int, c),
{
    i < s.len() && s[i] == c
}

fn is_word_at(s: &Vec<char>, i: usize, word: &str) -> (r: bool)
    requires
        i <= s@.len(),
    ensures
        r == stands_at(s@, i as int, word@),
{
    let w = text::chars_of(word);
    if w.len() > s.len() - i {
        return false;
    }
    let mut k: usize = 0;
    while k < w.len()
        invariant
            0 <= k <= w.len(),
            w@ == word@,
            i + w.len() <= s.len(),
            forall|j: int| 0 <= j < k ==> s@[i + j] == #[trigger] w@[j],
        decreases w@.len() - k,
    {
        if s[i + k] != w[k] {
            assert(s@.subrange(i as int, i + w@.len())[k as int] != w@[k as int]);
            return false;
        }
        k += 1;
    }
    assert(s@.subrange(i as int, i + w@.len()) =~= w@);
    true
}

fn is_key_before(a: &str, b: &str) -> (r: bool)
    ensures
        r == comes_before(a@, b@),
{
    let x: usize = a.as_bytes().len();
    let y: usize = b.as_bytes().len();
    x < y || (x == y && ordered::is_before(a, b))
}

/// Where the value at `i` ends.
fn find_value_end(s: &Vec<char>, i: usize) -> (r: Option<usize>)
    requires
        i <= s@.len(),
    ensures
        match r {
            Some(end) => value_end(s@, i as int) == Some(end as int) && i < end <= s.len(),
            None => value_end(s@, i as int) is None,
        },
    decreases s@.len() - i, 0nat,
{
    if i >= s.len() {
        return None;
    }
    let c = s[i];
    if c == '"' {
        return match read_string(s, i + 1) {
            Some((_, j)) => Some(j),
            None => None,
        };
    }
    if c == '{' {
        if is_char_at(s, i + 1, '}') {
            return Some(i + 2);
        }
        return find_members_end(s, i + 1);
    }
    if c == '[' {
        if is_char_at(s, i + 1, ']') {
            return Some(i + 2);
        }
        return find_elements_end(s, i + 1);
    }
    proof {
        reveal_strlit("true");
        reveal_strlit("null");
        reveal_strlit("false");
    }
    if is_word_at(s, i, "true") || is_word_at(s, i, "null") {
        return Some(i + 4);
    }
    if is_word_at(s, i, "false") {
        return Some(i + 5);
    }
    find_number_end(s, i)
}

/// Where the list ends whose element is at `from`.
fn find_elements_end(s: &Vec<char>, from: usize) -> (r: Option<usize>)
    requires
        from <= s@.len(),
    ensures
        match r {
            Some(end) => elements_end(s@, from as int) == Some(end as int) && from < end <= s.len(),
            None => elements_end(s@, from as int) is None,
        },
    decreases s@.len() - from, 1nat,
{
    let mut i: usize = from;
    loop
        invariant
            from <= i <= s@.len(),
            elements_end(s@, from as int) == elements_end(s@, i as int),
        decreases s@.len() - i,
    {
        let j: usize = match find_value_end(s, i) {
            Some(j) => j,
            None => {
                return None;
            },
        };
        if is_char_at(s, j, ']') {
            return Some(j + 1);
        }
        if !is_char_at(s, j, ',') || !is_char_at(s, j + 1, ' ') {
            return None;
        }
        i = j + 2;
    }
}

/// Where the object ends whose first member is at `from`.
fn find_members_end(s: &Vec<char>, from: usize) -> (r: Option<usize>)
    requires
        from <= s@.len(),
    ensures
        match r {
            Some(end) => members_end(s@, from as int, None) == Some(end as int) && from < end
                <= s.len(),
            None => members_end(s@, from as int, None) is None,
        },
    decreases s@.len() - from, 1nat,
{
    let mut i: usize = from;
    let mut last: Option<String> = None;
    loop
        invariant
            from <= i <= s.len(),
            members_end(s@, from as int, None) == members_end(
                s@,
                i as int,
                crate::defs::ast::opt_view(last),
            ),
        decreases s@.len() - i,
    {
        if !is_char_at(s, i, '"') {
            return None;
        }
        let (key, j) = match read_string(s, i + 1) {
            Some(x) => x,
            None => {
                return None;
            },
        };
        let in_order = match &last {
            Some(before) => is_key_before(before.as_str(), key.as_str()),
            None => true,
        };
        if !in_order || !is_char_at(s, j, ':') || !is_char_at(s, j + 1, ' ') {
            return None;
        }
        let k: usize = match find_value_end(s, j + 2) {
            Some(k) => k,
            None => {
                return None;
            },
        };
        if is_char_at(s, k, '}') {
            return Some(k + 1);
        }
        if !is_char_at(s, k, ',') || !is_char_at(s, k + 1, ' ') {
            return None;
        }
        i = k + 2;
        last = Some(key);
    }
}

/// What is expected of a document.
pub const JSONB_SHAPE: &'static str = "expected a canonical jsonb literal, the spelling `jsonb_out` emits: one space after each \
     `,` and `:` and no other whitespace, object keys ordered by length and then bytewise with no \
     duplicates, numbers without an exponent, and only the string escapes that cannot be avoided \
     (e.g. '{\"a\": 1, \"bb\": [true, null]}')";

/// Checks that `literal` is a document as Postgres writes it.
pub fn canonical_jsonb(literal: &str) -> (r: Result<(), &'static str>)
    ensures
        r is Ok <==> document_text(literal@),
        r matches Err(shape) ==> shape@ == JSONB_SHAPE@,
{
    let cs = text::chars_of(literal);
    match find_value_end(&cs, 0) {
        Some(end) => if end == cs.len() {
            Ok(())
        } else {
            Err(JSONB_SHAPE)
        },
        None => Err(JSONB_SHAPE),
    }
}

} // verus!
