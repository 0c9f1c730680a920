//! Laying out text in columns of a terminal, where a character may take more
//! or less than one column.
use unicode_width::UnicodeWidthStr;
use vstd::prelude::*;

verus! {

/// The number of terminal columns that the text `s` takes, as the
/// `unicode-width` crate measures it.
pub uninterp spec fn unicode_width_of(s: Seq<char>) -> usize;

/// Trusted: `UnicodeWidthStr::width` of the `unicode-width` crate, which sums
/// the widths of the characters from its Unicode tables. The contract names
/// the result and claims only that it depends on the text alone.
#[verifier::external_body]
fn str_width(s: &str) -> (width: usize)
    ensures
        width == unicode_width_of(s@),
{
    UnicodeWidthStr::width(s)
}

/// Trusted: `String::push`, which appends one character.
#[verifier::external_body]
fn push_char(out: &mut String, c: char)
    ensures
        final(out)@ == old(out)@.push(c),
{
    out.push(c);
}

/// The spaces that fill text that takes `used` columns up to `width`.
pub open spec fn padding(used: usize, width: usize) -> Seq<char> {
    Seq::new(if used < width { (width - used) as nat } else { 0 }, |i: int| ' ')
}

/// `value` followed by as many spaces as it takes to fill `width` columns,
/// given that `value` takes `used` of them; `value` alone when it takes
/// `width` or more.
pub fn pad_with_spaces(value: &str, used: usize, width: usize) -> (out: String)
    ensures
        out@ == value@ + padding(used, width),
{
    let mut out = value.to_owned();
    if used < width {
        let mut i: usize = 0;
        while i < width - used
            invariant
                used < width,
                0 <= i <= width - used,
                out@ == value@ + Seq::new(i as nat, |j: int| ' '),
            decreases width - used - i,
        {
            push_char(&mut out, ' ');
            proof {
                assert(out@ =~= value@ + Seq::new((i + 1) as nat, |j: int| ' '));
            }
            i = i + 1;
        }
    }
    proof {
        assert(out@ =~= value@ + padding(used, width));
    }
    out
}

/// `value` padded with spaces to fill `width` terminal columns.
pub fn pad_to_width(value: &str, width: usize) -> (out: String)
    ensures
        out@ == value@ + padding(unicode_width_of(value@), width),
{
    let used = str_width(value);
    pad_with_spaces(value, used, width)
}

} // verus!
