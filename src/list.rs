//! Comma-separated lists of header values.

use vstd::prelude::*;
use vstd::string::StrSliceExecFns;

verus! {

/// Whether `c` has the Unicode `White_Space` property.
pub open spec fn is_whitespace(c: char) -> bool {
    ('\t' <= c <= '\r') || c == ' ' || c == '\u{85}' || c == '\u{a0}' || c == '\u{1680}' || (
    '\u{2000}' <= c <= '\u{200a}') || c == '\u{2028}' || c == '\u{2029}' || c == '\u{202f}' || c
        == '\u{205f}' || c == '\u{3000}'
}

/// `s` without its leading whitespace; trailing whitespace stays.
pub open spec fn trim_start(s: Seq<char>) -> Seq<char>
    decreases s.len(),
{
    if s.len() > 0 && is_whitespace(s[0]) {
        trim_start(s.drop_first())
    } else {
        s
    }
}

/// The pieces of `s` between commas, as they stand; always at least one.
pub open spec fn comma_fields(s: Seq<char>) -> Seq<Seq<char>>
    decreases s.len(),
{
    if s.len() == 0 {
        seq![Seq::empty()]
    } else {
        let f = comma_fields(s.drop_last());
        if s.last() == ',' {
            f.push(Seq::empty())
        } else {
            f.update(f.len() - 1, f.last().push(s.last()))
        }
    }
}

/// The values of the comma-separated list `s`: its pieces between commas,
/// each without leading whitespace.
pub open spec fn comma_split_spec(s: Seq<char>) -> Seq<Seq<char>> {
    comma_fields(s).map_values(|f: Seq<char>| trim_start(f))
}

/// The values `xs` joined with a comma and a space between each two.
pub open spec fn comma_joined(xs: Seq<Seq<char>>) -> Seq<char>
    decreases xs.len(),
{
    if xs.len() == 0 {
        Seq::empty()
    } else if xs.len() == 1 {
        xs[0]
    } else {
        comma_joined(xs.drop_last()) + seq![',', ' '] + xs.last()
    }
}

proof fn lemma_comma_fields_len(s: Seq<char>)
    ensures
        comma_fields(s).len() >= 1,
    decreases s.len(),
{
    if s.len() > 0 {
        lemma_comma_fields_len(s.drop_last());
    }
}

fn is_whitespace_exec(c: char) -> (r: bool)
    ensures
        r == is_whitespace(c),
{
    ('\t' <= c && c <= '\r') || c == ' ' || c == '\u{85}' || c == '\u{a0}' || c == '\u{1680}' || (
    '\u{2000}' <= c && c <= '\u{200a}') || c == '\u{2028}' || c == '\u{2029}' || c == '\u{202f}'
        || c == '\u{205f}' || c == '\u{3000}'
}

fn trim_start_str<'a>(s: &'a str) -> (r: &'a str)
    ensures
        r@ == trim_start(s@),
{
    let n = s.unicode_len();
    let mut j: usize = 0;
    assert(s@.subrange(0, n as int) =~= s@);
    while j < n && is_whitespace_exec(s.get_char(j))
        invariant
            n == s@.len(),
            j <= n,
            trim_start(s@) == trim_start(s@.subrange(j as int, n as int)),
        decreases n - j,
    {
        assert(s@.subrange(j as int, n as int).drop_first() =~= s@.subrange(j + 1, n as int));
        j = j + 1;
    }
    s.substring_char(j, n)
}

/// Split a value on commas, as is common for HTTP headers, and strip leading
/// whitespace from each piece. The pieces are slices of `value`.
///
/// This does not handle quoted-strings intelligently.
pub fn comma_split_iter<'a>(value: &'a str) -> (r: Vec<&'a str>)
    ensures
        r@.map_values(|x: &str| x@) == comma_split_spec(value@),
{
    let n = value.unicode_len();
    let mut out: Vec<&'a str> = Vec::new();
    let mut start: usize = 0;
    let mut i: usize = 0;
    assert(value@.subrange(0, 0) =~= Seq::<char>::empty());
    for c in it: value.chars()
        invariant
            it.seq() == value@,
            n == value@.len(),
            i == it.index(),
            start <= i,
            out@.len() + 1 == comma_fields(value@.subrange(0, i as int)).len(),
            forall|k: int|
                0 <= k < out@.len() ==> #[trigger] out@[k]@ == trim_start(
                    comma_fields(value@.subrange(0, i as int))[k],
                ),
            comma_fields(value@.subrange(0, i as int)).last() == value@.subrange(
                start as int,
                i as int,
            ),
    {
        let ghost pre = value@.subrange(0, i as int);
        proof {
            assert(value@.subrange(0, i + 1).drop_last() =~= pre);
            assert(value@.subrange(0, i + 1).last() == c);
            lemma_comma_fields_len(pre);
        }
        if c == ',' {
            out.push(trim_start_str(value.substring_char(start, i)));
            start = i + 1;
            assert(value@.subrange(start as int, i + 1) =~= Seq::<char>::empty());
        } else {
            assert(value@.subrange(start as int, i + 1) =~= value@.subrange(
                start as int,
                i as int,
            ).push(c));
        }
        i = i + 1;
    }
    proof {
        assert(value@.subrange(0, n as int) =~= value@);
        lemma_comma_fields_len(value@);
    }
    out.push(trim_start_str(value.substring_char(start, i)));
    assert(out@.map_values(|x: &str| x@) =~= comma_split_spec(value@));
    out
}

/// Split a value on commas, as is common for HTTP headers, and strip leading
/// whitespace from each piece.
///
/// This does not handle quoted-strings intelligently.
pub fn comma_split(value: &str) -> (r: Vec<String>)
    ensures
        r@.map_values(|x: String| x@) == comma_split_spec(value@),
{
    let parts = comma_split_iter(value);
    let mut out: Vec<String> = Vec::new();
    for k in 0..parts.len()
        invariant
            parts@.map_values(|x: &str| x@) == comma_split_spec(value@),
            out@.len() == k,
            forall|j: int| 0 <= j < k ==> #[trigger] out@[j]@ == parts@[j]@,
    {
        let p: &str = parts[k];
        out.push(p.to_owned());
    }
    assert(out@.map_values(|x: String| x@) =~= parts@.map_values(|x: &str| x@));
    out
}

/// Join values with commas, as is common for HTTP headers.
pub fn comma_join(values: &[String]) -> (r: String)
    ensures
        r@ == comma_joined(values@.map_values(|s: String| s@)),
{
    let ghost xs = values@.map_values(|s: String| s@);
    let mut out = String::new();
    for i in 0..values.len()
        invariant
            xs == values@.map_values(|s: String| s@),
            out@ == comma_joined(xs.subrange(0, i as int)),
    {
        if i > 0 {
            out.push(',');
            out.push(' ');
        }
        out.push_str(values[i].as_str());
        proof {
            assert(xs.subrange(0, i + 1).drop_last() =~= xs.subrange(0, i as int));
            if i == 0 {
                assert(out@ =~= comma_joined(xs.subrange(0, 1)));
            } else {
                assert(out@ =~= comma_joined(xs.subrange(0, i + 1)));
            }
        }
    }
    assert(xs.subrange(0, values@.len() as int) =~= xs);
    out
}

} // verus!
