//! Regular expressions.

use vstd::prelude::*;
use vstd::utf8::{
    encode_utf8, encode_utf8_valid_utf8, is_char_boundary, is_char_boundary_start_end_of_seq,
};

use crate::names::NameMap;
use crate::text;

verus! {

/// A compiled regular expression.
#[verifier::external_type_specification]
#[verifier::external_body]
pub struct ExRegex(regex::Regex);

/// What is wrong with a pattern, if it is not a regular expression.
pub uninterp spec fn pattern_error(pattern: Seq<char>) -> Option<Seq<char>>;

/// The pattern a regular expression was compiled from.
pub uninterp spec fn regex_source(re: regex::Regex) -> Seq<char>;

/// `Regex::new` compiles a pattern, or says what is wrong with it; which of
/// the two, and what it says, depends on the pattern alone.
#[verifier::external_body]
pub(crate) fn compile(pattern: &str) -> (r: Result<regex::Regex, String>)
    ensures
        match r {
            Ok(re) => pattern_error(pattern@) is None && regex_source(re) == pattern@,
            Err(message) => pattern_error(pattern@) == Some(message@),
        },
{
    match regex::Regex::new(pattern) {
        Ok(re) => Ok(re),
        Err(e) => Err(e.to_string()),
    }
}

/// Where a pattern first matches in a text at or behind the byte `from`: the
/// bytes at which the match starts and ends.
pub uninterp spec fn first_match(pattern: Seq<char>, text: Seq<char>, from: int) -> Option<
    (int, int),
>;

/// `Regex::find_at` gives the first match that starts at or behind the byte
/// `from`, with the text in front of it as context. Which one that is depends
/// on the expression, the text and `from` alone. It starts and ends between
/// two characters, at or behind `from` and within the text. The call panics
/// where `from` is behind the end of the text.
#[verifier::external_body]
pub(crate) fn find_at(re: &regex::Regex, text: &str, from: usize) -> (r: Option<(usize, usize)>)
    requires
        from <= encode_utf8(text@).len(),
        is_char_boundary(encode_utf8(text@), from as int),
    ensures
        match r {
            Some((start, end)) => {
                &&& first_match(regex_source(*re), text@, from as int) == Some(
                    (start as int, end as int),
                )
                &&& from <= start <= end <= encode_utf8(text@).len()
                &&& is_char_boundary(encode_utf8(text@), start as int)
                &&& is_char_boundary(encode_utf8(text@), end as int)
            },
            None => first_match(regex_source(*re), text@, from as int) is None,
        },
{
    match re.find_at(text, from) {
        Some(m) => Some((m.start(), m.end())),
        None => None,
    }
}

// ---------------------------------------------------------------------------
// Counting matches
// ---------------------------------------------------------------------------

/// The next byte behind `p` at which a character starts or the text ends;
/// behind the end there is only the byte after it.
pub open spec fn next_character(bytes: Seq<u8>, p: int) -> int
    decreases bytes.len() - p,
{
    if p + 1 >= bytes.len() || is_char_boundary(bytes, p + 1) {
        p + 1
    } else {
        next_character(bytes, p + 1)
    }
}

/// The number of matches from the byte `from` on. The search goes on where a
/// match ends, and one character further where it is empty.
pub open spec fn matches_from(pattern: Seq<char>, text: Seq<char>, from: int) -> nat
    decreases encode_utf8(text).len() + 1 - from,
{
    let bytes = encode_utf8(text);
    if from < 0 || from > bytes.len() {
        0
    } else {
        match first_match(pattern, text, from) {
            None => 0,
            Some((start, end)) => if !(from <= start <= end <= bytes.len()) {
                0
            } else if start < end {
                1 + matches_from(pattern, text, end)
            } else {
                proof {
                    next_character_advances(bytes, end);
                }
                1 + matches_from(pattern, text, next_character(bytes, end))
            },
        }
    }
}

/// How often a pattern matches in a text; none if it is not a regular
/// expression.
pub open spec fn match_count(pattern: Seq<char>, text: Seq<char>) -> Option<nat> {
    if pattern_error(pattern) is None {
        Some(matches_from(pattern, text, 0))
    } else {
        None
    }
}

/// The next character is further on, and no further than one byte behind the
/// end.
pub proof fn next_character_advances(bytes: Seq<u8>, p: int)
    requires
        0 <= p <= bytes.len(),
    ensures
        p < next_character(bytes, p) <= bytes.len() + 1,
        p < bytes.len() ==> next_character(bytes, p) <= bytes.len(),
    decreases bytes.len() - p,
{
    if !(p + 1 >= bytes.len() || is_char_boundary(bytes, p + 1)) {
        next_character_advances(bytes, p + 1);
    }
}

fn step(text: &str, from: usize) -> (r: usize)
    requires
        from < encode_utf8(text@).len(),
    ensures
        r == next_character(encode_utf8(text@), from as int),
        from < r <= encode_utf8(text@).len(),
        is_char_boundary(encode_utf8(text@), r as int),
{
    let n: usize = text.as_bytes().len();
    let ghost bytes = encode_utf8(text@);
    let mut p: usize = from;
    loop
        invariant
            from <= p < n,
            n == bytes.len(),
            bytes == encode_utf8(text@),
            next_character(bytes, from as int) == next_character(bytes, p as int),
        decreases n - p,
    {
        let at_boundary = text.is_char_boundary(p + 1);
        if p + 1 >= n || at_boundary {
            proof {
                encode_utf8_valid_utf8(text@);
                is_char_boundary_start_end_of_seq(bytes);
            }
            return p + 1;
        }
        p += 1;
    }
}

/// How often a regular expression matches in a text.
fn count(re: &regex::Regex, text: &str) -> (r: u128)
    ensures
        r == matches_from(regex_source(*re), text@, 0),
{
    let n: usize = text.as_bytes().len();
    let ghost bytes = encode_utf8(text@);
    let ghost pattern = regex_source(*re);
    let mut from: usize = 0;
    let mut found: u128 = 0;
    proof {
        encode_utf8_valid_utf8(text@);
        is_char_boundary_start_end_of_seq(bytes);
    }
    loop
        invariant
            n == bytes.len(),
            bytes == encode_utf8(text@),
            pattern == regex_source(*re),
            from <= n,
            found <= from,
            is_char_boundary(bytes, from as int),
            matches_from(pattern, text@, 0) == found + matches_from(pattern, text@, from as int),
        decreases n - from,
    {
        match find_at(re, text, from) {
            None => {
                return found;
            },
            Some((start, end)) => {
                found += 1;
                if start < end {
                    from = end;
                } else if end < n {
                    from = step(text, end);
                } else {
                    proof {
                        next_character_advances(bytes, end as int);
                        assert(matches_from(pattern, text@, n + 1) == 0);
                    }
                    return found;
                }
            },
        }
    }
}

/// Regular expressions that were compiled before, by their patterns.
#[derive(Debug)]
pub struct RegexCache {
    compiled: NameMap<regex::Regex>,
}

impl RegexCache {
    #[verifier::type_invariant]
    spec fn under_their_patterns(&self) -> bool {
        forall|p: Seq<char>| #[trigger]
            self.compiled@.contains_key(p) ==> regex_source(self.compiled@[p]) == p
                && pattern_error(p) is None
    }

    /// The patterns that were compiled.
    pub closed spec fn view(&self) -> Set<Seq<char>> {
        self.compiled@.dom()
    }

    /// What meeting some patterns does: those that were not compiled before
    /// are, and nothing is where all of them were.
    pub open spec fn after_meeting(&self, before: RegexCache, patterns: Set<Seq<char>>) -> bool {
        &&& self@ == before@.union(patterns)
        &&& patterns.subset_of(before@) ==> *self == before
    }

    /// Nothing compiled yet.
    pub fn new() -> (r: RegexCache)
        ensures
            r@ == Set::<Seq<char>>::empty(),
    {
        let r = RegexCache { compiled: NameMap::new() };
        assert(r@ =~= Set::empty());
        r
    }

    /// Whether `pattern` was compiled.
    pub fn contains(&self, pattern: &str) -> (r: bool)
        ensures
            r == self@.contains(pattern@),
    {
        self.compiled.contains_key(pattern)
    }

    /// How often `pattern` matches in `text`; none if it is not a regular
    /// expression. A pattern is compiled the first time it is met.
    pub fn regexp_count(&mut self, text: &str, pattern: &str) -> (r: Option<u128>)
        ensures
            match r {
                Some(n) => match_count(pattern@, text@) == Some(n as nat),
                None => match_count(pattern@, text@) is None,
            },
            final(self)@ == (if pattern_error(pattern@) is None {
                old(self)@.insert(pattern@)
            } else {
                old(self)@
            }),
            old(self)@.contains(pattern@) || pattern_error(pattern@) is Some ==> *final(self)
                == *old(self),
    {
        proof {
            use_type_invariant(&*self);
        }
        let ghost before = self.compiled@;
        if !self.compiled.contains_key(pattern) {
            let re = match compile(pattern) {
                Ok(re) => re,
                Err(_) => {
                    return None;
                },
            };
            let mut compiled: NameMap<regex::Regex> = NameMap::new();
            std::mem::swap(&mut compiled, &mut self.compiled);
            compiled.insert(text::owned(pattern), re);
            self.compiled = compiled;
        }
        assert(self@ =~= before.dom().insert(pattern@));
        proof {
            use_type_invariant(&*self);
        }
        match self.compiled.get(pattern) {
            Some(re) => Some(count(re, text)),
            None => None,
        }
    }
}

/// Meeting no pattern changes nothing.
pub proof fn nothing_is_met(a: RegexCache)
    ensures
        a.after_meeting(a, Set::empty()),
{
    assert(a@.union(Set::empty()) =~= a@);
}

/// Meeting some patterns and then others is meeting all of them.
pub proof fn meetings_add_up(
    a: RegexCache,
    b: RegexCache,
    c: RegexCache,
    x: Set<Seq<char>>,
    y: Set<Seq<char>>,
)
    requires
        b.after_meeting(a, x),
        c.after_meeting(b, y),
    ensures
        c.after_meeting(a, x.union(y)),
{
    assert(a@.union(x).union(y) =~= a@.union(x.union(y)));
    if x.union(y).subset_of(a@) {
        assert forall|p: Seq<char>| x.contains(p) implies #[trigger] a@.contains(p) by {
            assert(x.union(y).contains(p));
        }
        assert forall|p: Seq<char>| y.contains(p) implies #[trigger] a@.contains(p) by {
            assert(x.union(y).contains(p));
        }
    }
}

} // verus!
