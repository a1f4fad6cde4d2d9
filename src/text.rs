//! Character and string helpers with exact contracts.
use vstd::prelude::*;
use vstd::std_specs::iter::IteratorSpec;

verus! {

/// Whether a character is uppercase, as `char::is_uppercase` decides it.
pub uninterp spec fn is_upper(c: char) -> bool;

/// The characters that `char::to_lowercase` yields for a character.
pub uninterp spec fn lowercase_of(c: char) -> Seq<char>;

/// Relies on `String::push`: the character is appended at the end.
#[verifier::external_body]
pub(crate) fn push_char(s: &mut String, c: char)
    ensures
        final(s)@ == old(s)@.push(c),
{
    s.push(c);
}

/// Relies on `String::push_str`: the text is appended at the end.
#[verifier::external_body]
pub(crate) fn push_text(s: &mut String, t: &str)
    ensures
        final(s)@ == old(s)@ + t@,
{
    s.push_str(t);
}

/// Relies on `char::is_uppercase`: whether the character has the Unicode
/// `Uppercase` property.
#[verifier::external_body]
pub(crate) fn char_is_uppercase(c: char) -> (r: bool)
    ensures
        r == is_upper(c),
{
    c.is_uppercase()
}

/// Relies on `char::to_lowercase`: the lowercase mapping of one character,
/// collected into a string.
#[verifier::external_body]
pub(crate) fn char_to_lowercase(c: char) -> (r: String)
    ensures
        r@ == lowercase_of(c),
{
    c.to_lowercase().to_string()
}

/// The character of a decimal digit.
pub open spec fn digit_char(d: nat) -> char {
    if d == 0 { '0' }
    else if d == 1 { '1' }
    else if d == 2 { '2' }
    else if d == 3 { '3' }
    else if d == 4 { '4' }
    else if d == 5 { '5' }
    else if d == 6 { '6' }
    else if d == 7 { '7' }
    else if d == 8 { '8' }
    else { '9' }
}

/// The decimal representation of a natural number, without leading zeros.
pub open spec fn decimal(n: nat) -> Seq<char>
    decreases n,
{
    if n < 10 {
        seq![digit_char(n)]
    } else {
        decimal(n / 10).push(digit_char(n % 10))
    }
}

fn digit(d: usize) -> (c: char)
    requires
        d < 10,
    ensures
        c == digit_char(d as nat),
{
    if d == 0 { '0' }
    else if d == 1 { '1' }
    else if d == 2 { '2' }
    else if d == 3 { '3' }
    else if d == 4 { '4' }
    else if d == 5 { '5' }
    else if d == 6 { '6' }
    else if d == 7 { '7' }
    else if d == 8 { '8' }
    else { '9' }
}

/// Appends the decimal representation of `n`.
pub fn push_decimal(s: &mut String, n: usize)
    ensures
        final(s)@ == old(s)@ + decimal(n as nat),
    decreases n,
{
    if n >= 10 {
        push_decimal(s, n / 10);
    }
    push_char(s, digit(n % 10));
    proof {
        assert(final(s)@ =~= old(s)@ + decimal(n as nat));
    }
}

/// One step of snake casing: `c` appended to `prev`, or, where `c` is
/// uppercase, its lowercase form `lower`. An uppercase character that
/// follows a non-uppercase one in a non-empty result is preceded by an
/// underscore, so a run of capitals starts a single segment.
pub open spec fn snake_step(prev: Seq<char>, c: char, upper: bool, lower: Seq<char>, after_upper: bool) -> Seq<char> {
    if upper {
        (if prev.len() > 0 && !after_upper { prev.push('_') } else { prev }) + lower
    } else {
        prev.push(c)
    }
}

/// Whether the last character of `s` is uppercase.
pub open spec fn ends_upper(s: Seq<char>) -> bool {
    s.len() > 0 && is_upper(s.last())
}

/// Lower snake case of a CamelCase name: each uppercase character becomes
/// its lowercase form, and each run of capitals that follows other
/// characters is preceded by one underscore (`MyHTTP` becomes `my_http`).
pub open spec fn snake_case(s: Seq<char>) -> Seq<char>
    decreases s.len(),
{
    if s.len() == 0 {
        Seq::empty()
    } else {
        snake_step(
            snake_case(s.drop_last()),
            s.last(),
            is_upper(s.last()),
            lowercase_of(s.last()),
            ends_upper(s.drop_last()),
        )
    }
}

/// Appends one character of a name in snake case, given whether it is
/// uppercase, its lowercase form, and whether the character before it in
/// the name was uppercase.
pub fn push_snake_char(s: &mut String, c: char, upper: bool, lower: &str, after_upper: bool)
    ensures
        final(s)@ == snake_step(old(s)@, c, upper, lower@, after_upper),
{
    if upper {
        if !s.as_str().is_empty() && !after_upper {
            push_char(s, '_');
        }
        push_text(s, lower);
    } else {
        push_char(s, c);
    }
}

/// Converts a CamelCase name to lower snake case.
pub fn to_underscore_case(name: &str) -> (r: String)
    ensures
        r@ == snake_case(name@),
{
    let mut s = String::new();
    let mut it = name.chars();
    let ghost mut done: Seq<char> = Seq::empty();
    let mut after_upper = false;
    loop
        invariant
            done + it.remaining() == name@,
            s@ == snake_case(done),
            after_upper == ends_upper(done),
        ensures
            s@ == snake_case(name@),
        decreases name@.len() - done.len(),
    {
        let ghost before = it.remaining();
        match it.next() {
            Some(ch) => {
                let upper = char_is_uppercase(ch);
                if upper {
                    let lower = char_to_lowercase(ch);
                    push_snake_char(&mut s, ch, true, lower.as_str(), after_upper);
                } else {
                    push_snake_char(&mut s, ch, false, "", after_upper);
                }
                after_upper = upper;
                proof {
                    let next = done.push(ch);
                    assert(next.drop_last() =~= done);
                    assert(next + it.remaining() =~= name@) by {
                        assert(before =~= seq![ch] + it.remaining());
                    }
                    done = next;
                }
            },
            None => {
                proof {
                    assert(done =~= name@);
                }
                break;
            },
        }
    }
    s
}

} // verus!
