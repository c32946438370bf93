//! Reading text without regard to the case of its ASCII letters.
use vstd::prelude::*;
use vstd::string::*;

verus! {

/// The lower-case form of an ASCII capital; any other character unchanged.
pub open spec fn lower_char(c: char) -> char {
    if 'A' <= c && c <= 'Z' {
        ((c as u8 + 32) as u8) as char
    } else {
        c
    }
}

/// The text with each ASCII capital replaced by its lower-case form.
pub open spec fn lower_text(s: Seq<char>) -> Seq<char> {
    Seq::new(s.len(), |i: int| lower_char(s[i]))
}

/// The lower-case form of an ASCII capital; any other character unchanged.
pub fn to_lower_char(c: char) -> (l: char)
    ensures
        l == lower_char(c),
{
    if 'A' <= c && c <= 'Z' {
        let b: u8 = c as u8;
        (b + 32) as char
    } else {
        c
    }
}

/// Whether `s`, its capitals lowered, is letter for letter `name`.
pub fn spells(s: &str, name: &str) -> (b: bool)
    ensures
        b == (lower_text(s@) == name@),
{
    let n: usize = s.unicode_len();
    if n != name.unicode_len() {
        assert(lower_text(s@).len() != name@.len());
        return false;
    }
    let mut i: usize = 0;
    while i < n
        invariant
            i <= n,
            n == s@.len(),
            n == name@.len(),
            forall|j: int| 0 <= j < i ==> lower_char(s@[j]) == name@[j],
        decreases n - i,
    {
        if to_lower_char(s.get_char(i)) != name.get_char(i) {
            assert(lower_text(s@)[i as int] != name@[i as int]);
            return false;
        }
        i += 1;
    }
    assert(lower_text(s@) =~= name@);
    true
}

/// Lowering a text twice is the same as lowering it once.
pub proof fn lemma_lower_text_idempotent(s: Seq<char>)
    ensures
        lower_text(lower_text(s)) == lower_text(s),
{
    assert(lower_text(lower_text(s)) =~= lower_text(s));
}

} // verus!
