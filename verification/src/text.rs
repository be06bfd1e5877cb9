use vstd::prelude::*;
use vstd::utf8::*;
use vstd::std_specs::iter::IteratorSpec;

verus! {

broadcast use vstd::seq::group_seq_axioms;

/// Decides whether two string slices hold the same characters.
pub fn str_eq(a: &str, b: &str) -> (r: bool)
    ensures
        r == (a@ == b@),
{
    let x = a.as_bytes();
    let y = b.as_bytes();
    proof {
        encode_utf8_decode_utf8(a@);
        encode_utf8_decode_utf8(b@);
    }
    if x.len() != y.len() {
        return false;
    }
    let mut i: usize = 0;
    while i < x.len()
        invariant
            x@.len() == y@.len(),
            i <= x@.len(),
            x@ == encode_utf8(a@),
            y@ == encode_utf8(b@),
            forall|j: int| 0 <= j < i ==> x@[j] == y@[j],
        decreases x@.len() - i,
    {
        if x[i] != y[i] {
            return false;
        }
        i = i + 1;
    }
    assert(x@ =~= y@);
    true
}

/// Decides whether a string holds the same characters as a string slice.
pub fn string_eq_str(a: &String, b: &str) -> (r: bool)
    ensures
        r == (a@ == b@),
{
    str_eq(a.as_str(), b)
}

/// `std::str::from_utf8`: succeeds exactly on well-formed UTF-8, and the
/// resulting slice holds the characters that the bytes decode to.
#[verifier::external_body]
pub(crate) fn utf8_to_str(bytes: &[u8]) -> (r: Option<&str>)
    ensures
        r is Some <==> valid_utf8(bytes@),
        r matches Some(s) ==> s@ == decode_utf8(bytes@),
{
    std::str::from_utf8(bytes).ok()
}

/// A decimal digit.
pub open spec fn is_digit(c: char) -> bool {
    '0' <= c && c <= '9'
}

/// The number that a string of decimal digits writes.
pub open spec fn decimal_value(d: Seq<char>) -> nat
    decreases d.len(),
{
    if d.len() == 0 {
        0
    } else {
        decimal_value(d.drop_last()) * 10 + (d.last() as nat - 48) as nat
    }
}

/// The digits of an unsigned decimal number: an optional leading `+` dropped.
pub open spec fn unsigned_digits(s: Seq<char>) -> Seq<char> {
    if s.len() > 0 && s[0] == '+' {
        s.skip(1)
    } else {
        s
    }
}

/// What parsing `s` as a `usize` gives: one or more decimal digits, after an
/// optional `+`, whose value fits a `usize`.
pub open spec fn parsed_usize(s: Seq<char>) -> Option<usize> {
    let d = unsigned_digits(s);
    if d.len() > 0 && (forall|i: int| 0 <= i < d.len() ==> is_digit(#[trigger] d[i])) && decimal_value(d)
        <= usize::MAX {
        Some(decimal_value(d) as usize)
    } else {
        None
    }
}

/// Adding digits never makes the value smaller.
proof fn lemma_decimal_grows(d: Seq<char>, j: int)
    requires
        0 <= j <= d.len(),
        forall|i: int| 0 <= i < d.len() ==> is_digit(#[trigger] d[i]),
    ensures
        decimal_value(d.take(j)) <= decimal_value(d),
    decreases d.len() - j,
{
    if j < d.len() {
        lemma_decimal_grows(d, j + 1);
        assert(d.take(j + 1).drop_last() =~= d.take(j));
        assert(is_digit(d[j]));
    } else {
        assert(d.take(j) =~= d);
    }
}

/// Parses a string slice as a `usize`, as `str::parse::<usize>` does.
pub fn parse_usize(s: &str) -> (r: Option<usize>)
    ensures
        r == parsed_usize(s@),
{
    broadcast use vstd::string::axiom_spec_iter, vstd::string::next_postcondition;

    let ghost d = unsigned_digits(s@);
    let mut chars = s.chars();
    let mut first = true;
    let mut seen_digit = false;
    let mut acc: usize = 0;
    let ghost mut pos: int = 0;
    let ghost mut j: int = 0;
    loop
        invariant
            0 <= pos <= s@.len(),
            chars.remaining() == s@.skip(pos),
            first <==> pos == 0,
            d == unsigned_digits(s@),
            0 <= j <= d.len(),
            pos == 0 ==> j == 0,
            pos > 0 ==> j == d.len() - (s@.len() - pos),
            seen_digit <==> j > 0,
            forall|i: int| 0 <= i < j ==> is_digit(#[trigger] d[i]),
            acc == decimal_value(d.take(j)),
        decreases s@.len() - pos,
    {
        let ghost before = chars.remaining();
        match chars.next() {
            None => {
                assert(pos == s@.len());
                assert(d.take(j) =~= d);
                if seen_digit {
                    return Some(acc);
                } else {
                    return None;
                }
            },
            Some(c) => {
                assert(c == s@[pos]);
                if first && c == '+' {
                    first = false;
                    proof {
                        pos = pos + 1;
                        assert(d =~= s@.skip(1));
                    }
                } else {
                    first = false;
                    proof {
                        if pos == 0 {
                            assert(d =~= s@);
                        }
                        assert(d[j] == c);
                    }
                    if !('0' <= c && c <= '9') {
                        return None;
                    }
                    let digit = (c as u32 - 48) as usize;
                    proof {
                        assert(d.take(j + 1).drop_last() =~= d.take(j));
                    }
                    if acc > (usize::MAX - digit) / 10 {
                        proof {
                            assert(decimal_value(d.take(j + 1)) > usize::MAX) by (nonlinear_arith)
                                requires
                                    acc > (usize::MAX - digit) / 10,
                                    decimal_value(d.take(j + 1)) == acc * 10 + digit,
                                    digit <= 9,
                            ;
                            if forall|i: int| 0 <= i < d.len() ==> is_digit(#[trigger] d[i]) {
                                lemma_decimal_grows(d, j + 1);
                            }
                        }
                        return None;
                    }
                    acc = acc * 10 + digit;
                    seen_digit = true;
                    proof {
                        pos = pos + 1;
                        j = j + 1;
                    }
                }
            },
        }
    }
}

} // verus!
