//! The matches of a pattern that are counted.

use vstd::prelude::*;

use crate::pattern::{
    first_match, match_count, matches_from, next_character, next_character_advances, pattern_error,
};
use vstd::utf8::encode_utf8;

verus! {

/// Where the search goes on behind a match.
pub open spec fn behind(text: Seq<char>, m: (int, int)) -> int {
    if m.0 < m.1 {
        m.1
    } else {
        next_character(encode_utf8(text), m.1)
    }
}

/// Every match that is found from `from` on lies at or behind it and within
/// the text, as `Regex::find_at` has it.
pub open spec fn matches_lie_ahead(pattern: Seq<char>, text: Seq<char>) -> bool {
    forall|from: int|
        0 <= from <= encode_utf8(text).len() ==> (#[trigger] first_match(
            pattern,
            text,
            from,
        ) matches Some((start, end)) ==> from <= start <= end <= encode_utf8(text).len())
}

/// The matches come one behind another: the first is the first from `from` on,
/// each other the first behind the one before it, none overlap, and behind the
/// last there is none.
pub open spec fn one_behind_another(
    pattern: Seq<char>,
    text: Seq<char>,
    from: int,
    ms: Seq<(int, int)>,
) -> bool {
    &&& ms.len() > 0 ==> first_match(pattern, text, from) == Some(ms[0])
    &&& forall|i: int|
        0 <= i < ms.len() - 1 ==> first_match(pattern, text, behind(text, #[trigger] ms[i]))
            == Some(ms[i + 1])
    &&& forall|i: int|
        0 <= i < ms.len() - 1 ==> (#[trigger] ms[i]).1 <= ms[i + 1].0 && ms[i].0 < ms[i + 1].1
            || ms[i].1 < ms[i + 1].0
    &&& ms.len() == 0 ==> first_match(pattern, text, from) is None
    &&& ms.len() > 0 ==> behind(text, ms.last()) > encode_utf8(text).len() || first_match(
        pattern,
        text,
        behind(text, ms.last()),
    ) is None
}

proof fn matches_of(pattern: Seq<char>, text: Seq<char>, from: int) -> (ms: Seq<(int, int)>)
    requires
        matches_lie_ahead(pattern, text),
        0 <= from <= encode_utf8(text).len(),
    ensures
        ms.len() == matches_from(pattern, text, from),
        one_behind_another(pattern, text, from, ms),
    decreases encode_utf8(text).len() + 1 - from,
{
    let bytes = encode_utf8(text);
    match first_match(pattern, text, from) {
        None => seq![],
        Some(m) => {
            let (start, end) = m;
            assert(from <= start <= end <= bytes.len());
            next_character_advances(bytes, end);
            let next = behind(text, m);
            if next > bytes.len() {
                assert(matches_from(pattern, text, next) == 0);
                seq![m]
            } else {
                let rest = matches_of(pattern, text, next);
                let ms = seq![m] + rest;
                assert(ms.skip(1) =~= rest);
                assert forall|i: int| 0 <= i < ms.len() - 1 implies first_match(
                    pattern,
                    text,
                    behind(text, #[trigger] ms[i]),
                ) == Some(ms[i + 1]) && (ms[i].1 <= ms[i + 1].0 && ms[i].0 < ms[i + 1].1 || ms[i].1
                    < ms[i + 1].0) by {
                    if i > 0 {
                        assert(ms[i] == rest[i - 1] && ms[i + 1] == rest[i]);
                    } else {
                        assert(ms[1] == rest[0]);
                        assert(first_match(pattern, text, next) == Some(rest[0]));
                    }
                }
                if rest.len() > 0 {
                    assert(ms.last() == rest.last());
                }
                ms
            }
        },
    }
}

/// As many matches are counted as come one behind another.
pub proof fn matches_are_counted_one_behind_another(pattern: Seq<char>, text: Seq<char>)
    ensures
        matches_lie_ahead(pattern, text) && pattern_error(pattern) is None ==> exists|
            ms: Seq<(int, int)>,
        | #[trigger]
            one_behind_another(pattern, text, 0, ms) && match_count(pattern, text) == Some(
                ms.len(),
            ),
        pattern_error(pattern) is Some <==> match_count(pattern, text) is None,
{
    if matches_lie_ahead(pattern, text) {
        let ms = matches_of(pattern, text, 0);
        assert(one_behind_another(pattern, text, 0, ms));
    }
}

} // verus!
