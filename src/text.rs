use vstd::prelude::*;

verus! {

/// Relies on `String::push`: the character is appended at the end.
#[verifier::external_body]
pub(crate) fn push_char(s: &mut String, c: char)
    ensures
        final(s)@ == old(s)@.push(c),
{
    s.push(c)
}

pub open spec fn is_ascii_alnum(c: char) -> bool {
    ('0' <= c && c <= '9') || ('a' <= c && c <= 'z') || ('A' <= c && c <= 'Z')
}

/// The character that stands for `c` in a constant name.
pub open spec fn const_name_char(c: char) -> char {
    if 'a' <= c && c <= 'z' {
        ((c as u32) - 32) as char
    } else if is_ascii_alnum(c) {
        c
    } else {
        '_'
    }
}

/// Turns a name into an identifier of upper-case ASCII letters, digits and
/// underscores: letters are upper-cased and every other character becomes `_`.
pub fn string_to_const_name(val: &str) -> (r: String)
    ensures
        r@ == val@.map_values(|c: char| const_name_char(c)),
{
    let n = val.unicode_len();
    let mut out = String::new();
    let mut i: usize = 0;
    while i < n
        invariant
            n == val@.len(),
            i <= n,
            out@ == val@.subrange(0, i as int).map_values(|c: char| const_name_char(c)),
        decreases n - i,
    {
        let c = val.get_char(i);
        let d = if 'a' <= c && c <= 'z' {
            ((c as u32) - 32) as u8 as char
        } else if ('0' <= c && c <= '9') || ('A' <= c && c <= 'Z') {
            c
        } else {
            '_'
        };
        push_char(&mut out, d);
        assert(val@.subrange(0, i + 1) == val@.subrange(0, i as int).push(c));
        i = i + 1;
    }
    assert(val@.subrange(0, n as int) == val@);
    out
}

} // verus!
