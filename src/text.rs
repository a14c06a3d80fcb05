//! Rendering of numbers and byte strings as text.
use vstd::prelude::*;

verus! {

/// The character that stands for the value `n` (below 16) as a lowercase hex digit.
pub open spec fn digit_char(n: nat) -> char {
    if n < 10 {
        (n + 48) as char
    } else {
        (n + 87) as char
    }
}

/// The decimal representation of `n`, without leading zeros.
pub open spec fn decimal(n: nat) -> Seq<char>
    decreases n,
{
    if n < 10 {
        seq![digit_char(n)]
    } else {
        decimal(n / 10).push(digit_char(n % 10))
    }
}

/// Each byte as two lowercase hex digits, most significant nibble first.
pub open spec fn hex(b: Seq<u8>) -> Seq<char>
    decreases b.len(),
{
    if b.len() == 0 {
        Seq::empty()
    } else {
        hex(b.drop_last()) + seq![digit_char(b.last() as nat / 16), digit_char(b.last() as nat % 16)]
    }
}

/// Relies on String::push: the character is appended at the end.
#[verifier::external_body]
pub(crate) fn push_char(s: &mut String, c: char)
    ensures
        final(s)@ == old(s)@.push(c),
{
    s.push(c)
}

fn digit(n: u8) -> (c: char)
    requires
        n < 16,
    ensures
        c == digit_char(n as nat),
{
    if n < 10 {
        (n + 48) as char
    } else {
        (n + 87) as char
    }
}

/// Appends the decimal representation of `n`.
pub fn push_decimal(s: &mut String, n: u64)
    ensures
        final(s)@ == old(s)@ + decimal(n as nat),
    decreases n,
{
    if n >= 10 {
        push_decimal(s, n / 10);
    }
    push_char(s, digit((n % 10) as u8));
    assert(final(s)@ =~= old(s)@ + decimal(n as nat));
}

/// Appends every byte of `b` as two lowercase hex digits.
pub fn push_hex(s: &mut String, b: &[u8])
    ensures
        final(s)@ == old(s)@ + hex(b@),
{
    let ghost start = s@;
    let mut i: usize = 0;
    while i < b.len()
        invariant
            i <= b@.len(),
            s@ == start + hex(b@.subrange(0, i as int)),
        decreases b@.len() - i,
    {
        let x = b[i];
        push_char(s, digit(x / 16));
        push_char(s, digit(x % 16));
        let ghost pre = b@.subrange(0, i as int);
        let ghost post = b@.subrange(0, i + 1);
        assert(post.drop_last() =~= pre);
        i = i + 1;
        assert(s@ =~= start + hex(post));
    }
    assert(b@.subrange(0, b@.len() as int) =~= b@);
}

} // verus!
