//! How many columns characters take.

use vstd::prelude::*;

use crate::text::chars_of;

verus! {

/// The width of a character, in columns, as `UnicodeWidthChar::width` of
/// unicode-width gives it; control characters have none.
pub uninterp spec fn char_width_of(c: char) -> Option<usize>;

/// `UnicodeWidthChar::width` of unicode-width: a function of the character
/// alone.
#[verifier::external_body]
fn char_width(c: char) -> (r: Option<usize>)
    ensures
        r == char_width_of(c),
{
    unicode_width::UnicodeWidthChar::width(c)
}

/// The columns of a character; none for a control character.
pub open spec fn cols_of(c: char) -> nat {
    match char_width_of(c) {
        Some(w) => w as nat,
        None => 0,
    }
}

pub fn char_cols(c: char) -> (r: usize)
    ensures
        r == cols_of(c),
{
    match char_width(c) {
        Some(w) => w,
        None => 0,
    }
}

/// The columns of a text.
pub open spec fn text_cols(s: Seq<char>) -> nat
    decreases s.len(),
{
    if s.len() == 0 {
        0
    } else {
        text_cols(s.drop_last()) + cols_of(s.last())
    }
}

pub fn display_cols(s: &str) -> (r: u128)
    ensures
        r == text_cols(s@),
{
    let chars = chars_of(s);
    let mut sum: u128 = 0;
    let mut i: usize = 0;
    assert(chars@.take(0) =~= Seq::<char>::empty());
    while i < chars.len()
        invariant
            i <= chars@.len(),
            sum == text_cols(chars@.take(i as int)),
            sum <= i * usize::MAX,
        decreases chars@.len() - i,
    {
        assert(chars@.take(i as int + 1).drop_last() =~= chars@.take(i as int));
        assert(chars@.take(i as int + 1).last() == chars@[i as int]);
        let w: usize = char_cols(chars[i]);
        proof {
            assert((i + 1) * usize::MAX == i * usize::MAX + usize::MAX) by (nonlinear_arith);
            assert((i + 1) * usize::MAX <= 0xffff_ffff_ffff_ffff * 0xffff_ffff_ffff_ffff)
                by (nonlinear_arith)
                requires
                    i + 1 <= 0xffff_ffff_ffff_ffff,
                    usize::MAX <= 0xffff_ffff_ffff_ffff,
            ;
        }
        sum = sum + w as u128;
        i += 1;
    }
    assert(chars@.take(i as int) =~= chars@);
    sum
}

/// The columns of a text are those of its parts together.
pub proof fn columns_add_up(a: Seq<char>, b: Seq<char>)
    ensures
        text_cols(a + b) == text_cols(a) + text_cols(b),
    decreases b.len(),
{
    if b.len() == 0 {
        assert(a + b =~= a);
    } else {
        columns_add_up(a, b.drop_last());
        assert((a + b).drop_last() =~= a + b.drop_last());
        assert((a + b).last() == b.last());
    }
}

} // verus!
