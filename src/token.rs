//! Tokens and quoted-strings: telling them apart, quoting and unquoting.

use vstd::prelude::*;

verus! {

/// A separator of the token grammar: characters that may not stand in a bare token.
pub open spec fn is_separator(c: char) -> bool {
    c == '(' || c == ')' || c == '<' || c == '>' || c == '@' || c == ',' || c == ';' || c == ':'
        || c == '\\' || c == '"' || c == '/' || c == '[' || c == ']' || c == '?' || c == '='
        || c == '{' || c == '}' || c == ' ' || c == '\t'
}

/// A character that may stand in a token: an ASCII character that is neither a
/// control character (0 to 31, and 127) nor a separator.
pub open spec fn is_token_char(c: char) -> bool {
    ' ' < c < '\u{7f}' && !is_separator(c)
}

/// `token = 1*<any CHAR except CTLs or separators>`
pub open spec fn is_token_spec(s: Seq<char>) -> bool {
    s.len() > 0 && forall|i: int| 0 <= i < s.len() ==> is_token_char(#[trigger] s[i])
}

/// Whether a character is escaped with a backslash inside a quoted-string.
pub open spec fn needs_escape(c: char) -> bool {
    c == '\\' || c == '"'
}

/// The text that stands for `c` between the quotes of a quoted-string.
pub open spec fn escape_char(c: char) -> Seq<char> {
    if needs_escape(c) {
        seq!['\\', c]
    } else {
        seq![c]
    }
}

/// `s` with every `\` and `"` preceded by a backslash.
pub open spec fn escaped(s: Seq<char>) -> Seq<char>
    decreases s.len(),
{
    if s.len() == 0 {
        Seq::empty()
    } else {
        escape_char(s[0]) + escaped(s.drop_first())
    }
}

/// The quoted-string that holds `s`.
pub open spec fn quoted(s: Seq<char>) -> Seq<char> {
    seq!['"'] + escaped(s) + seq!['"']
}

/// `s` as a token where it is one, else as a quoted-string.
pub open spec fn maybe_quoted(s: Seq<char>) -> Seq<char> {
    if is_token_spec(s) {
        s
    } else {
        quoted(s)
    }
}

/// Where a quoted-string parser stands: before the opening quote, inside the
/// string, just after a backslash, or after the closing quote.
pub enum QuoteState {
    Start,
    Normal,
    Escaping,
    End,
}

/// The outcome of running the quoted-string parser from `state` over `rest`,
/// having produced `out` so far.
pub open spec fn unquote_from(state: QuoteState, rest: Seq<char>, out: Seq<char>) -> Option<
    Seq<char>,
>
    decreases rest.len(),
{
    if rest.len() == 0 {
        if state is End {
            Some(out)
        } else {
            None
        }
    } else {
        let c = rest[0];
        let tail = rest.drop_first();
        match state {
            QuoteState::Start => if c == '"' {
                unquote_from(QuoteState::Normal, tail, out)
            } else {
                None
            },
            QuoteState::Normal => if c == '\\' {
                unquote_from(QuoteState::Escaping, tail, out)
            } else if c == '"' {
                unquote_from(QuoteState::End, tail, out)
            } else {
                unquote_from(QuoteState::Normal, tail, out.push(c))
            },
            QuoteState::Escaping => unquote_from(QuoteState::Normal, tail, out.push(c)),
            QuoteState::End => None,
        }
    }
}

/// The content of the quoted-string `s`, or `None` where `s` is not exactly one
/// quoted-string.
pub open spec fn unquoted(s: Seq<char>) -> Option<Seq<char>> {
    unquote_from(QuoteState::Start, s, Seq::empty())
}

/// The content of the token or quoted-string `s`, or `None` where it is neither.
pub open spec fn maybe_unquoted(s: Seq<char>) -> Option<Seq<char>> {
    if is_token_spec(s) {
        Some(s)
    } else {
        unquoted(s)
    }
}

fn is_token_char_exec(c: char) -> (r: bool)
    ensures
        r == is_token_char(c),
{
    ' ' < c && c < '\u{7f}' && !(c == '(' || c == ')' || c == '<' || c == '>' || c == '@' || c
        == ',' || c == ';' || c == ':' || c == '\\' || c == '"' || c == '/' || c == '['
        || c == ']' || c == '?' || c == '=' || c == '{' || c == '}' || c == ' ' || c == '\t')
}

/// Whether `s` is a token: non-empty, of ASCII characters that are neither
/// control characters nor separators.
pub fn is_token(s: &str) -> (r: bool)
    ensures
        r == is_token_spec(s@),
{
    let mut all = true;
    let mut empty = true;
    for c in it: s.chars()
        invariant
            it.seq() == s@,
            empty == (it.index() == 0),
            all == (forall|i: int| 0 <= i < it.index() ==> is_token_char(#[trigger] s@[i])),
    {
        empty = false;
        all = all && is_token_char_exec(c);
    }
    !empty && all
}

proof fn lemma_escaped_push(s: Seq<char>, c: char)
    ensures
        escaped(s.push(c)) == escaped(s) + escape_char(c),
    decreases s.len(),
{
    if s.len() == 0 {
        assert(s.push(c).drop_first() =~= s);
        assert(escaped(s.push(c)) =~= escaped(s) + escape_char(c));
    } else {
        lemma_escaped_push(s.drop_first(), c);
        assert(s.push(c).drop_first() =~= s.drop_first().push(c));
        assert(escaped(s.push(c)) =~= escaped(s) + escape_char(c));
    }
}

/// Quote `t` onto the end of `s`, to turn it into a quoted-string.
pub fn push_quoted_string(s: String, t: &String) -> (r: String)
    ensures
        r@ == s@ + quoted(t@),
{
    let mut s = s;
    let ghost s0 = s@;
    s.push('"');
    for c in it: t.chars()
        invariant
            it.seq() == t@,
            s@ == s0 + seq!['"'] + escaped(t@.subrange(0, it.index() as int)),
    {
        if c == '\\' || c == '"' {
            s.push('\\');
        }
        s.push(c);
        proof {
            let i = it.index() as int;
            assert(t@.subrange(0, i + 1) =~= t@.subrange(0, i).push(c));
            lemma_escaped_push(t@.subrange(0, i), c);
            assert(s@ =~= s0 + seq!['"'] + escaped(t@.subrange(0, i + 1)));
        }
    }
    s.push('"');
    proof {
        assert(t@.subrange(0, t@.len() as int) =~= t@);
        assert(s@ =~= s0 + quoted(t@));
    }
    s
}

/// Quote a string, to turn it into a quoted-string.
pub fn quoted_string(s: &String) -> (r: String)
    ensures
        r@ == quoted(s@),
{
    let r = push_quoted_string(String::new(), s);
    assert(r@ =~= quoted(s@));
    r
}

/// Push a token or, where `t` is not one, a quoted-string onto `s`.
pub fn push_maybe_quoted_string(s: String, t: &String) -> (r: String)
    ensures
        r@ == s@ + maybe_quoted(t@),
{
    if is_token(t.as_str()) {
        let mut s = s;
        s.push_str(t.as_str());
        s
    } else {
        push_quoted_string(s, t)
    }
}

/// Make a string into a token or quoted-string, preferring a token.
pub fn maybe_quoted_string(s: &String) -> (r: String)
    ensures
        r@ == maybe_quoted(s@),
{
    let r = push_maybe_quoted_string(String::new(), s);
    assert(r@ =~= maybe_quoted(s@));
    r
}

/// Parse a quoted-string. Returns `None` if `s` is not exactly one valid quoted-string.
pub fn unquote_string(s: &String) -> (r: Option<String>)
    ensures
        r matches Some(t) ==> unquoted(s@) == Some(t@),
        r is None ==> unquoted(s@) is None,
{
    let mut state = QuoteState::Start;
    let mut output = String::new();
    assert(s@.subrange(0, s@.len() as int) =~= s@);
    for c in it: s.chars()
        invariant
            it.seq() == s@,
            unquoted(s@) == unquote_from(
                state,
                s@.subrange(it.index() as int, s@.len() as int),
                output@,
            ),
    {
        proof {
            let i = it.index() as int;
            let rest = s@.subrange(i, s@.len() as int);
            assert(rest[0] == c);
            assert(rest.drop_first() =~= s@.subrange(i + 1, s@.len() as int));
        }
        state = match state {
            QuoteState::Start => if c == '"' {
                QuoteState::Normal
            } else {
                return None;
            },
            QuoteState::Normal => if c == '\\' {
                QuoteState::Escaping
            } else if c == '"' {
                QuoteState::End
            } else {
                output.push(c);
                QuoteState::Normal
            },
            QuoteState::Escaping => {
                output.push(c);
                QuoteState::Normal
            },
            QuoteState::End => {
                return None;
            },
        };
    }
    assert(s@.subrange(s@.len() as int, s@.len() as int) =~= Seq::<char>::empty());
    match state {
        QuoteState::End => Some(output),
        _ => None,
    }
}

/// Parse a token or a quoted-string. Returns `None` if `s` is neither.
pub fn maybe_unquote_string(s: &String) -> (r: Option<String>)
    ensures
        r matches Some(t) ==> maybe_unquoted(s@) == Some(t@),
        r is None ==> maybe_unquoted(s@) is None,
{
    if is_token(s.as_str()) {
        Some(s.clone())
    } else {
        unquote_string(s)
    }
}

proof fn lemma_unquote_escaped(t: Seq<char>, out: Seq<char>)
    ensures
        unquote_from(QuoteState::Normal, escaped(t) + seq!['"'], out) == Some(out + t),
    decreases t.len(),
{
    let input = escaped(t) + seq!['"'];
    if t.len() == 0 {
        assert(input =~= seq!['"']);
        assert(input.drop_first() =~= Seq::<char>::empty());
        assert(unquote_from(QuoteState::End, input.drop_first(), out) == Some(out));
        assert(out + t =~= out);
    } else {
        let c = t[0];
        let t2 = t.drop_first();
        lemma_unquote_escaped(t2, out.push(c));
        let rest = escaped(t2) + seq!['"'];
        assert(out.push(c) + t2 =~= out + t);
        if needs_escape(c) {
            assert(input =~= seq!['\\', c] + rest);
            assert(input.drop_first() =~= seq![c] + rest);
            assert(input.drop_first().drop_first() =~= rest);
            assert(unquote_from(QuoteState::Escaping, input.drop_first(), out) == unquote_from(
                QuoteState::Normal,
                rest,
                out.push(c),
            ));
        } else {
            assert(input =~= seq![c] + rest);
            assert(input.drop_first() =~= rest);
        }
    }
}

/// Quoting is lossless: unquoting the quoted-string of any `t` gives back `t`.
pub proof fn lemma_unquote_quoted(t: Seq<char>)
    ensures
        unquoted(quoted(t)) == Some(t),
{
    let q = quoted(t);
    lemma_unquote_escaped(t, Seq::empty());
    assert(q.drop_first() =~= escaped(t) + seq!['"']);
    assert(Seq::<char>::empty() + t =~= t);
}

/// Writing a value as a token or quoted-string and reading it back gives the
/// value again, whichever of the two forms was written.
pub proof fn lemma_maybe_unquote_maybe_quoted(t: Seq<char>)
    ensures
        maybe_unquoted(maybe_quoted(t)) == Some(t),
{
    if !is_token_spec(t) {
        let q = quoted(t);
        assert(q[0] == '"');
        assert(!is_token_char(q[0]));
        lemma_unquote_quoted(t);
    }
}

} // verus!
