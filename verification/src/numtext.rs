//! Decimal integer texts and size texts with a unit suffix.
//!
//! The spec functions here say which character sequences are well-formed
//! decimal integers, what value they denote, and how a trailing `K`, `M` or
//! `G` scales that value. The executable parsers are proved to return exactly
//! what the spec functions say, including rejection on overflow.

use vstd::prelude::*;

verus! {

/// A decimal digit.
pub open spec fn is_digit(c: char) -> bool {
    '0' <= c && c <= '9'
}

/// The numeric value of one decimal digit.
pub open spec fn digit_val(c: char) -> int {
    c as int - '0' as int
}

/// Every character of `s` is a decimal digit.
pub open spec fn all_digits(s: Seq<char>) -> bool {
    forall|i: int| 0 <= i < s.len() ==> is_digit(#[trigger] s[i])
}

/// The numeric value of a digit sequence, most significant digit first.
pub open spec fn digits_val(s: Seq<char>) -> int
    decreases s.len(),
{
    if s.len() == 0 {
        0
    } else {
        digits_val(s.drop_last()) * 10 + digit_val(s.last())
    }
}

/// A well-formed integer text: an optional sign followed by at least one
/// decimal digit.
pub open spec fn is_int_text(s: Seq<char>) -> bool {
    if s.len() > 0 && (s[0] == '+' || s[0] == '-') {
        s.len() > 1 && all_digits(s.skip(1))
    } else {
        s.len() > 0 && all_digits(s)
    }
}

/// The mathematical value of a well-formed integer text.
pub open spec fn int_text_val(s: Seq<char>) -> int {
    if s.len() > 0 && s[0] == '-' {
        -digits_val(s.skip(1))
    } else if s.len() > 0 && s[0] == '+' {
        digits_val(s.skip(1))
    } else {
        digits_val(s)
    }
}

/// What parsing a signed machine integer out of `s` yields: the denoted value
/// when the text is well-formed and the value fits in `isize`, nothing
/// otherwise.
pub open spec fn int_of_text(s: Seq<char>) -> Option<int> {
    if is_int_text(s) && isize::MIN <= int_text_val(s) <= isize::MAX {
        Some(int_text_val(s))
    } else {
        None
    }
}

/// A digit sequence denotes a value that is not negative.
pub proof fn lemma_digits_val_nonneg(s: Seq<char>)
    requires
        all_digits(s),
    ensures
        digits_val(s) >= 0,
    decreases s.len(),
{
    if s.len() > 0 {
        assert(all_digits(s.drop_last()));
        lemma_digits_val_nonneg(s.drop_last());
    }
}

/// Extending a digit sequence never shrinks its value: the value of a prefix
/// is at most the value of the whole.
pub proof fn lemma_digits_val_prefix(s: Seq<char>, i: int)
    requires
        all_digits(s),
        0 <= i <= s.len(),
    ensures
        digits_val(s.take(i)) <= digits_val(s),
    decreases s.len() - i,
{
    if i == s.len() {
        assert(s.take(i) =~= s);
    } else {
        assert(s.take(i + 1).drop_last() =~= s.take(i));
        assert(s.take(i + 1).last() == s[i]);
        assert(all_digits(s.take(i)));
        lemma_digits_val_nonneg(s.take(i));
        assert(digits_val(s.take(i + 1)) == digits_val(s.take(i)) * 10 + digit_val(s[i]));
        lemma_digits_val_prefix(s, i + 1);
    }
}

/// Parse a decimal integer with an optional leading sign, as the machine
/// integer parser does: `None` on empty text, a stray character, a bare sign,
/// or a value that does not fit in `isize`.
pub fn parse_int(s: &str) -> (r: Option<isize>)
    ensures
        match r {
            Some(v) => int_of_text(s@) == Some(v as int),
            None => int_of_text(s@) is None,
        },
{
    let n = s.unicode_len();
    if n == 0 {
        return None;
    }
    let c0 = s.get_char(0);
    let negative = c0 == '-';
    let start: usize = if c0 == '-' || c0 == '+' {
        1
    } else {
        0
    };
    if n == start {
        // a bare sign has no digits
        return None;
    }
    let mut acc: isize = 0;
    let mut i: usize = start;
    while i < n
        invariant
            start <= i <= n,
            n == s@.len(),
            n > start,
            start == if s@[0] == '-' || s@[0] == '+' { 1int } else { 0int },
            negative == (s@[0] == '-'),
            all_digits(s@.subrange(start as int, i as int)),
            acc as int == if negative {
                -digits_val(s@.subrange(start as int, i as int))
            } else {
                digits_val(s@.subrange(start as int, i as int))
            },
        decreases n - i,
    {
        let c = s.get_char(i);
        let cu = c as u32;
        if !(48 <= cu && cu <= 57) {
            proof {
                // the text has a non-digit after the optional sign
                assert(s@.skip(start as int)[i - start] == s@[i as int]);
                assert(!is_int_text(s@));
            }
            return None;
        }
        let d = (cu - 48) as isize;
        proof {
            assert(0 <= d <= 9);
            let pre = s@.subrange(start as int, i as int);
            let pre1 = s@.subrange(start as int, i as int + 1);
            assert(pre1.drop_last() =~= pre);
            assert(pre1.last() == s@[i as int]);
            assert(digits_val(pre1) == digits_val(pre) * 10 + digit_val(s@[i as int]));
        }
        let acc10 = match acc.checked_mul(10) {
            Some(x) => x,
            None => {
                proof {
                    lemma_digits_val_nonneg(s@.subrange(start as int, i as int));
                    if negative {
                        assert(acc as int * 10 - d < isize::MIN);
                    } else {
                        assert(acc as int * 10 + d > isize::MAX);
                    }
                    lemma_int_out_of_range(s@, start as int, i as int, negative, acc as int, d as int);
                }
                return None;
            },
        };
        let next = if negative {
            match acc10.checked_sub(d) {
                Some(x) => x,
                None => {
                    proof {
                        lemma_int_out_of_range(s@, start as int, i as int, negative, acc as int, d as int);
                    }
                    return None;
                },
            }
        } else {
            match acc10.checked_add(d) {
                Some(x) => x,
                None => {
                    proof {
                        lemma_int_out_of_range(s@, start as int, i as int, negative, acc as int, d as int);
                    }
                    return None;
                },
            }
        };
        acc = next;
        i += 1;
    }
    proof {
        assert(s@.subrange(start as int, n as int) =~= s@.skip(start as int));
        if start == 0 {
            assert(s@.skip(0) =~= s@);
            assert(is_int_text(s@));
            assert(int_text_val(s@) == digits_val(s@));
        } else {
            assert(is_int_text(s@));
        }
    }
    Some(acc)
}

/// When the running accumulation overflows at position `i`, the whole text
/// denotes no machine integer: either it is malformed, or its value lies
/// outside the `isize` range.
proof fn lemma_int_out_of_range(s: Seq<char>, start: int, i: int, negative: bool, acc: int, d: int)
    requires
        0 <= start <= i < s.len(),
        start == if s[0] == '-' || s[0] == '+' { 1int } else { 0int },
        negative == (s[0] == '-'),
        all_digits(s.subrange(start, i)),
        is_digit(s[i]),
        d == digit_val(s[i]),
        acc == if negative { -digits_val(s.subrange(start, i)) } else { digits_val(s.subrange(start, i)) },
        if negative {
            acc * 10 - d < isize::MIN
        } else {
            acc * 10 + d > isize::MAX
        },
    ensures
        int_of_text(s) is None,
{
    if is_int_text(s) {
        let t = s.skip(start);
        assert(all_digits(t));
        assert(s.subrange(start, i) =~= t.take(i - start));
        assert(t.take(i - start + 1).drop_last() =~= t.take(i - start));
        assert(t.take(i - start + 1).last() == s[i]);
        assert(digits_val(t.take(i - start + 1)) == digits_val(t.take(i - start)) * 10 + d);
        lemma_digits_val_prefix(t, i - start + 1);
        if start == 0 {
            assert(t =~= s);
        }
        assert(int_text_val(s) == if negative { -digits_val(t) } else { digits_val(t) });
        if negative {
            assert(digits_val(t) >= digits_val(t.take(i - start + 1)));
            assert(int_text_val(s) < isize::MIN);
        } else {
            assert(int_text_val(s) >= digits_val(t.take(i - start + 1)));
            assert(int_text_val(s) > isize::MAX);
        }
    }
}

/// The scale that a size text's last character selects: 1024 for `K`, 1024²
/// for `M`, 1024³ for `G`, and 1 for anything else.
pub open spec fn size_multiplier(c: char) -> int {
    if c == 'K' {
        1024int
    } else if c == 'M' {
        1024int * 1024
    } else if c == 'G' {
        1024int * 1024 * 1024
    } else {
        1int
    }
}

/// The digits part of a size text: the whole text unless the last character
/// is a unit suffix, which is stripped.
pub open spec fn size_body(s: Seq<char>) -> Seq<char> {
    if s.len() > 0 && size_multiplier(s.last()) != 1 {
        s.drop_last()
    } else {
        s
    }
}

/// What parsing a size text yields: the integer denoted by the digits part,
/// scaled by the unit, when everything is well-formed and the scaled value
/// fits in `isize`; nothing otherwise.
pub open spec fn size_of_text(s: Seq<char>) -> Option<int> {
    if s.len() == 0 {
        None
    } else {
        let m = size_multiplier(s.last());
        match int_of_text(size_body(s)) {
            Some(v) => if isize::MIN <= v * m <= isize::MAX {
                Some(v * m)
            } else {
                None
            },
            None => None,
        }
    }
}

/// Parse a size text: a decimal integer with an optional trailing `K`, `M` or
/// `G` that scales it by 1024, 1024² or 1024³.
pub fn parse_size(s: &str) -> (r: Option<isize>)
    ensures
        match r {
            Some(v) => size_of_text(s@) == Some(v as int),
            None => size_of_text(s@) is None,
        },
{
    let n = s.unicode_len();
    if n == 0 {
        return None;
    }
    let last = s.get_char(n - 1);
    let mult: isize = if last == 'K' {
        1024
    } else if last == 'M' {
        1024 * 1024
    } else if last == 'G' {
        1024 * 1024 * 1024
    } else {
        1
    };
    let base = if mult == 1 {
        parse_int(s)
    } else {
        let body = s.substring_char(0, n - 1);
        proof {
            assert(body@ =~= s@.drop_last());
        }
        parse_int(body)
    };
    match base {
        Some(v) => v.checked_mul(mult),
        None => None,
    }
}

/// Law: appending a unit suffix to an integer text scales its value by the
/// unit, and a text whose digits part is malformed is rejected with the
/// suffix as without it.
pub proof fn lemma_size_suffix_scales(t: Seq<char>, c: char)
    requires
        c == 'K' || c == 'M' || c == 'G',
    ensures
        (match int_of_text(t) {
            Some(v) => size_of_text(t.push(c)) == if isize::MIN <= v * size_multiplier(c) <= isize::MAX {
                Some(v * size_multiplier(c))
            } else {
                None::<int>
            },
            None => size_of_text(t.push(c)) is None,
        }),
{
    assert(t.push(c).last() == c);
    assert(t.push(c).drop_last() =~= t);
}

/// A well-formed integer text ends in a digit, never in a unit suffix; so
/// [`lemma_size_no_suffix`] applies to every plain integer text.
pub proof fn lemma_int_text_ends_in_digit(t: Seq<char>)
    requires
        is_int_text(t),
    ensures
        size_multiplier(t.last()) == 1,
{
    if t[0] == '+' || t[0] == '-' {
        assert(t.last() == t.skip(1).last());
        assert(is_digit(t.skip(1)[t.len() - 2]));
    } else {
        assert(is_digit(t[t.len() - 1]));
    }
}

/// Law: a size text that ends in no unit suffix denotes exactly what it
/// denotes as a plain integer text.
pub proof fn lemma_size_no_suffix(t: Seq<char>)
    requires
        t.len() > 0 ==> size_multiplier(t.last()) == 1,
    ensures
        size_of_text(t) == int_of_text(t),
{
    if t.len() == 0 {
        assert(!is_int_text(t));
    } else {
        match int_of_text(t) {
            Some(v) => {
                assert(v * 1 == v);
            },
            None => {},
        }
    }
}

} // verus!
