//! The name transform: a snake-case field name becomes the name of its
//! enumeration variant.
use vstd::prelude::*;

verus! {

/// What Unicode's full uppercase mapping makes of one character.
pub uninterp spec fn upper_of(c: char) -> Seq<char>;

/// The uppercase form of `c`: an ASCII lowercase letter becomes its capital,
/// any other ASCII character stays, and beyond ASCII Unicode's mapping
/// decides.
pub open spec fn uppercase(c: char) -> Seq<char> {
    if 'a' <= c <= 'z' {
        seq![((c as u32) - 32) as char]
    } else if (c as u32) < 128 {
        seq![c]
    } else {
        upper_of(c)
    }
}

/// Relies on `char::to_uppercase`: the mapping depends on the character alone;
/// an ASCII lowercase letter maps to its capital and any other ASCII character
/// to itself.
#[verifier::external_body]
fn uppercase_char(c: char) -> (r: String)
    ensures
        r@ == uppercase(c),
        (c as u32) >= 128 ==> r@ == upper_of(c),
{
    c.to_uppercase().collect::<String>()
}

/// The transform read from `s` onwards: each `_` is dropped, the first
/// character after it (or at the very start) is uppercased, every other
/// character is kept. This is splitting on `_`, capitalising each segment and
/// joining the segments; empty segments contribute nothing.
pub open spec fn pascal_from(s: Seq<char>, at_start: bool) -> Seq<char>
    decreases s.len(),
{
    if s.len() == 0 {
        Seq::empty()
    } else if s[0] == '_' {
        pascal_from(s.skip(1), true)
    } else if at_start {
        uppercase(s[0]) + pascal_from(s.skip(1), false)
    } else {
        seq![s[0]] + pascal_from(s.skip(1), false)
    }
}

/// The variant name that the transform gives to the field name `s`.
pub open spec fn pascal_of(s: Seq<char>) -> Seq<char> {
    pascal_from(s, true)
}

/// Converts a snake-case name into the identifier case of enumeration
/// variants: `first_name` becomes `FirstName`, `_a__b_` becomes `AB`.
pub fn to_pascal_case(s: &str) -> (r: String)
    ensures
        r@ == pascal_of(s@),
{
    let n = s.unicode_len();
    let mut r = String::new();
    let mut at_start = true;
    let mut i: usize = 0;
    assert(s@.skip(0) =~= s@);
    assert(r@ + pascal_of(s@) =~= pascal_of(s@));
    while i < n
        invariant
            n == s@.len(),
            i <= n,
            r@ + pascal_from(s@.skip(i as int), at_start) == pascal_of(s@),
        decreases n - i,
    {
        let c = s.get_char(i);
        let ghost r0 = r@;
        let ghost rest = s@.skip(i as int);
        assert(rest.skip(1) =~= s@.skip(i + 1));
        if c == '_' {
            at_start = true;
        } else if at_start {
            let up = uppercase_char(c);
            r.append(up.as_str());
            at_start = false;
            assert(r0 + (up@ + pascal_from(rest.skip(1), false))
                =~= r@ + pascal_from(s@.skip(i + 1), false));
        } else {
            let one = s.substring_char(i, i + 1);
            assert(one@ =~= seq![c]);
            r.append(one);
            assert(r0 + (seq![c] + pascal_from(rest.skip(1), false))
                =~= r@ + pascal_from(s@.skip(i + 1), false));
        }
        i = i + 1;
    }
    assert(s@.skip(n as int) =~= Seq::<char>::empty());
    r
}

} // verus!
