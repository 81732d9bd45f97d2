//! Canonical capitalisation of header field names.

use vstd::prelude::*;
use vstd::utf8::is_ascii_chars;

verus! {

/// Whether `c` is an ASCII lowercase letter.
pub open spec fn is_ascii_lower(c: char) -> bool {
    'a' <= c <= 'z'
}

/// Whether `c` is an ASCII uppercase letter.
pub open spec fn is_ascii_upper(c: char) -> bool {
    'A' <= c <= 'Z'
}

/// ASCII uppercase of `c`; every other character is left as it is.
pub open spec fn upper(c: char) -> char {
    if is_ascii_lower(c) {
        ((c as u32) - 32) as char
    } else {
        c
    }
}

/// ASCII lowercase of `c`; every other character is left as it is.
pub open spec fn lower(c: char) -> char {
    if is_ascii_upper(c) {
        ((c as u32) + 32) as char
    } else {
        c
    }
}

/// Whether the character at position `i` of a name is capitalised: the first
/// one, and each one that follows a hyphen.
pub open spec fn capitalised_at(s: Seq<char>, i: int) -> bool {
    i == 0 || s[i - 1] == '-'
}

/// The normal form of a header name: capitalised where `capitalised_at` says
/// so, lowercase elsewhere.
pub open spec fn normalised(s: Seq<char>) -> Seq<char> {
    Seq::new(s.len(), |i: int| if capitalised_at(s, i) { upper(s[i]) } else { lower(s[i]) })
}

fn to_upper(c: char) -> (r: char)
    ensures
        r == upper(c),
{
    if 'a' <= c && c <= 'z' {
        ((c as u8) - 32) as char
    } else {
        c
    }
}

fn to_lower(c: char) -> (r: char)
    ensures
        r == lower(c),
{
    if 'A' <= c && c <= 'Z' {
        ((c as u8) + 32) as char
    } else {
        c
    }
}

/// Normalise an HTTP header name: the first character and each one after a
/// `-` are capitalised, all others made lowercase.
///
/// Capitalisation is defined for ASCII only: a name with a non-ASCII
/// character gives `None`.
pub fn normalise_header_name(name: &String) -> (r: Option<String>)
    ensures
        r is Some <==> is_ascii_chars(name@),
        r matches Some(n) ==> n@ == normalised(name@),
{
    let mut result = String::new();
    let mut capitalise = true;
    for c in it: name.chars()
        invariant
            it.seq() == name@,
            is_ascii_chars(name@.subrange(0, it.index() as int)),
            result@ == normalised(name@).subrange(0, it.index() as int),
            capitalise == capitalised_at(name@, it.index() as int),
    {
        if c > '\u{7f}' {
            assert(!is_ascii_chars(name@)) by {
                assert(!('\0' <= name@[it.index() as int] <= '\u{7f}'));
            }
            return None;
        }
        let d = if capitalise { to_upper(c) } else { to_lower(c) };
        result.push(d);
        capitalise = c == '-';
        proof {
            assert(result@ =~= normalised(name@).subrange(0, it.index() + 1));
            assert(is_ascii_chars(name@.subrange(0, it.index() + 1)));
        }
    }
    assert(name@.subrange(0, name@.len() as int) =~= name@);
    assert(normalised(name@).subrange(0, name@.len() as int) =~= normalised(name@));
    Some(result)
}

/// Normalising is idempotent: a normalised name is its own normal form.
pub proof fn lemma_normalise_idempotent(s: Seq<char>)
    ensures
        normalised(normalised(s)) == normalised(s),
{
    let n = normalised(s);
    assert forall|i: int| 0 <= i < s.len() implies capitalised_at(n, i) == capitalised_at(s, i)
        && upper(upper(s[i])) == upper(s[i]) && lower(lower(s[i])) == lower(s[i]) by {
        if i > 0 {
            let c = s[i - 1];
            assert(upper(c) == '-' <==> c == '-');
            assert(lower(c) == '-' <==> c == '-');
        }
    }
    assert(normalised(n) =~= n);
}

} // verus!
