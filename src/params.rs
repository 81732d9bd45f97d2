//! Parameter lists (`;name=value`) and quality values (`;q=0.800`).

use vstd::prelude::*;
use crate::token::{maybe_quoted, push_maybe_quoted_string};

verus! {

/// `name=value`, with the value written as a token or quoted-string.
pub open spec fn parameter_text(name: Seq<char>, value: Seq<char>) -> Seq<char> {
    name + seq!['='] + maybe_quoted(value)
}

/// Each parameter in order, preceded by `;`.
pub open spec fn parameters_text(ps: Seq<(Seq<char>, Seq<char>)>) -> Seq<char>
    decreases ps.len(),
{
    if ps.len() == 0 {
        Seq::empty()
    } else {
        parameters_text(ps.drop_last()) + seq![';'] + parameter_text(ps.last().0, ps.last().1)
    }
}

/// The views of a list of string pairs.
pub open spec fn pair_views(ps: Seq<(String, String)>) -> Seq<(Seq<char>, Seq<char>)> {
    ps.map_values(|p: (String, String)| (p.0@, p.1@))
}

/// The decimal digit for `d`, which is below ten.
pub open spec fn digit(d: nat) -> char {
    ((d + 48) as u32) as char
}

/// The quality suffix for `q` thousandths: `;q=`, the whole part, a point,
/// then exactly three decimals.
pub open spec fn quality_text(q: nat) -> Seq<char> {
    seq![';', 'q', '=', digit(q / 1000), '.', digit((q / 100) % 10), digit((q / 10) % 10), digit(q % 10)]
}

/// Push `k=v` onto `s`, with `v` written as a token where it is one and as a
/// quoted-string otherwise.
pub fn push_parameter(s: String, k: &String, v: &String) -> (r: String)
    ensures
        r@ == s@ + parameter_text(k@, v@),
{
    let mut s = s;
    let ghost s0 = s@;
    s.push_str(k.as_str());
    s.push('=');
    let r = push_maybe_quoted_string(s, v);
    assert(r@ =~= s0 + parameter_text(k@, v@));
    r
}

/// Push each parameter onto `s` in order, each as `;k=v`.
pub fn push_parameters(s: String, parameters: &[(String, String)]) -> (r: String)
    ensures
        r@ == s@ + parameters_text(pair_views(parameters@)),
{
    let ghost ps = pair_views(parameters@);
    let ghost s0 = s@;
    let mut s = s;
    assert(ps.subrange(0, 0) =~= Seq::<(Seq<char>, Seq<char>)>::empty());
    assert(s@ =~= s0 + parameters_text(ps.subrange(0, 0)));
    for i in 0..parameters.len()
        invariant
            ps == pair_views(parameters@),
            s@ == s0 + parameters_text(ps.subrange(0, i as int)),
    {
        let (k, v) = &parameters[i];
        s.push(';');
        s = push_parameter(s, k, v);
        proof {
            assert(ps.subrange(0, i + 1).drop_last() =~= ps.subrange(0, i as int));
            assert(s@ =~= s0 + parameters_text(ps.subrange(0, i + 1)));
        }
    }
    assert(ps.subrange(0, parameters@.len() as int) =~= ps);
    s
}

fn digit_char(d: u16) -> (c: char)
    requires
        d < 10,
    ensures
        c == digit(d as nat),
{
    ((d as u8) + 48) as char
}

/// Push the quality suffix onto `s`: `;q=` and the value with exactly three
/// decimals where there is one, nothing where there is none. The value is
/// given in thousandths, from 0 (for 0.000) to 1000 (for 1.000).
pub fn push_quality(s: String, quality: Option<u16>) -> (r: String)
    requires
        quality matches Some(q) ==> q <= 1000,
    ensures
        quality is None ==> r@ == s@,
        quality matches Some(q) ==> r@ == s@ + quality_text(q as nat),
{
    let mut s = s;
    match quality {
        Some(q) => {
            let ghost s0 = s@;
            s.push(';');
            s.push('q');
            s.push('=');
            s.push(digit_char(q / 1000));
            s.push('.');
            s.push(digit_char((q / 100) % 10));
            s.push(digit_char((q / 10) % 10));
            s.push(digit_char(q % 10));
            assert(s@ =~= s0 + quality_text(q as nat));
            s
        },
        None => s,
    }
}

} // verus!
