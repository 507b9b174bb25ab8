//! Words and numbers in text.
//!
//! Both text formats of the crate are streams of words separated by white
//! space. This module splits a text into its words and reads decimal numbers.
use vstd::prelude::*;

use crate::puzzle::rows_of;

verus! {

/// Whether `c` is white space: one of the characters with the Unicode property `White_Space`.
pub open spec fn is_space(c: char) -> bool {
    let u = c as u32;
    ||| 0x09 <= u <= 0x0D
    ||| u == 0x20
    ||| u == 0x85
    ||| u == 0xA0
    ||| u == 0x1680
    ||| 0x2000 <= u <= 0x200A
    ||| u == 0x2028
    ||| u == 0x2029
    ||| u == 0x202F
    ||| u == 0x205F
    ||| u == 0x3000
}

/// Tells whether `c` is white space.
pub fn char_is_space(c: char) -> (r: bool)
    ensures
        r == is_space(c),
{
    let u: u32 = c as u32;
    (0x09 <= u && u <= 0x0D) || u == 0x20 || u == 0x85 || u == 0xA0 || u == 0x1680 || (0x2000 <= u
        && u <= 0x200A) || u == 0x2028 || u == 0x2029 || u == 0x202F || u == 0x205F || u == 0x3000
}

/// The words of `s`: its maximal runs of characters other than white space, in order.
///
/// Read from the left, a character that is white space adds nothing, one
/// that follows white space or starts the text opens a new word, and any
/// other one lengthens the last word.
pub open spec fn words(s: Seq<char>) -> Seq<Seq<char>>
    decreases s.len(),
{
    if s.len() == 0 {
        Seq::empty()
    } else {
        let before = words(s.drop_last());
        if is_space(s.last()) {
            before
        } else if s.len() >= 2 && !is_space(s[s.len() - 2]) {
            before.drop_last().push(before.last().push(s.last()))
        } else {
            before.push(seq![s.last()])
        }
    }
}

/// No word is empty and none holds white space; and a text that does not
/// end in white space has a last word.
pub proof fn words_are_solid(s: Seq<char>)
    ensures
        forall|i: int| 0 <= i < words(s).len() ==> (#[trigger] words(s)[i]).len() > 0,
        forall|i: int, j: int|
            0 <= i < words(s).len() && 0 <= j < words(s)[i].len() ==> !is_space(
                #[trigger] words(s)[i][j],
            ),
        s.len() > 0 && !is_space(s.last()) ==> words(s).len() > 0,
    decreases s.len(),
{
    if s.len() > 0 {
        let front = s.drop_last();
        let before = words(front);
        let all = words(s);
        words_are_solid(front);
        if is_space(s.last()) {
        } else if s.len() >= 2 && !is_space(s[s.len() - 2]) {
            assert(front.last() == s[s.len() - 2]);
            let grown = before.last().push(s.last());
            assert forall|i: int| 0 <= i < all.len() implies (#[trigger] all[i]).len() > 0 by {
                if i < all.len() - 1 {
                    assert(all[i] == before[i]);
                }
            }
            assert forall|i: int, j: int|
                0 <= i < all.len() && 0 <= j < all[i].len() implies !is_space(
                #[trigger] all[i][j],
            ) by {
                if i < all.len() - 1 {
                    assert(all[i] == before[i]);
                } else if j < grown.len() - 1 {
                    assert(grown[j] == before.last()[j]);
                }
            }
        } else {
            assert forall|i: int| 0 <= i < all.len() implies (#[trigger] all[i]).len() > 0 by {
                if i < all.len() - 1 {
                    assert(all[i] == before[i]);
                }
            }
            assert forall|i: int, j: int|
                0 <= i < all.len() && 0 <= j < all[i].len() implies !is_space(
                #[trigger] all[i][j],
            ) by {
                if i < all.len() - 1 {
                    assert(all[i] == before[i]);
                }
            }
        }
    }
}

/// A text with no white space in it, if it is not empty, is one word.
pub proof fn solid_text_is_one_word(s: Seq<char>)
    requires
        s.len() > 0,
        forall|i: int| 0 <= i < s.len() ==> !is_space(#[trigger] s[i]),
    ensures
        words(s) == seq![s],
    decreases s.len(),
{
    if s.len() == 1 {
        assert(words(s.drop_last()) =~= Seq::<Seq<char>>::empty());
        assert(seq![s.last()] =~= s);
        assert(words(s) =~= seq![s]);
    } else {
        let front = s.drop_last();
        assert forall|i: int| 0 <= i < front.len() implies !is_space(#[trigger] front[i]) by {
            assert(front[i] == s[i]);
        }
        solid_text_is_one_word(front);
        assert(front.push(s.last()) =~= s);
        assert(words(s) =~= seq![s]);
    }
}

/// White space at the end of a text adds no word.
pub proof fn trailing_space_adds_no_word(s: Seq<char>, c: char)
    requires
        is_space(c),
    ensures
        words(s.push(c)) == words(s),
{
    assert(s.push(c).drop_last() =~= s);
}

/// Splits `text` into its words.
pub fn split_words(text: &str) -> (r: Vec<Vec<char>>)
    ensures
        rows_of(r@) == words(text@),
{
    let mut out: Vec<Vec<char>> = Vec::new();
    let mut cur: Vec<char> = Vec::new();
    for c in it: text.chars()
        invariant
            it.seq() == text@,
            cur.len() > 0 ==> it.index() > 0 && !is_space(text@[it.index() - 1]) && words(
                text@.take(it.index() as int),
            ) == rows_of(out@).push(cur@),
            cur.len() == 0 ==> (it.index() == 0 || is_space(text@[it.index() - 1])) && words(
                text@.take(it.index() as int),
            ) == rows_of(out@),
    {
        let ghost i = it.index() as int;
        proof {
            assert(text@.take(i + 1).drop_last() =~= text@.take(i));
            assert(text@.take(i + 1).last() == c);
            if i >= 1 {
                assert(text@.take(i + 1)[i - 1] == text@[i - 1]);
            }
        }
        if char_is_space(c) {
            if cur.len() > 0 {
                let ghost old_out = out@;
                out.push(cur);
                assert(rows_of(out@) =~= rows_of(old_out).push(cur@));
                cur = Vec::new();
            }
        } else {
            let ghost old_cur = cur@;
            cur.push(c);
            proof {
                if old_cur.len() > 0 {
                    assert(rows_of(out@).push(old_cur).drop_last() =~= rows_of(out@));
                } else {
                    assert(old_cur.push(c) =~= seq![c]);
                }
            }
        }
    }
    assert(text@.take(text@.len() as int) =~= text@);
    if cur.len() > 0 {
        let ghost old_out = out@;
        out.push(cur);
        assert(rows_of(out@) =~= rows_of(old_out).push(cur@));
    }
    out
}

/// Whether `c` is one of the decimal digits `0` to `9`.
pub open spec fn is_digit(c: char) -> bool {
    0x30 <= c as u32 <= 0x39
}

/// The value of the digit `c`, and 0 for any other character.
pub open spec fn digit_of(c: char) -> nat {
    if is_digit(c) {
        (c as u32 - 0x30) as nat
    } else {
        0
    }
}

/// Every character of `s` is a decimal digit.
pub open spec fn all_digits(s: Seq<char>) -> bool {
    forall|i: int| 0 <= i < s.len() ==> is_digit(#[trigger] s[i])
}

/// The number that the decimal digits `s` write, the most significant first.
pub open spec fn decimal(s: Seq<char>) -> nat
    decreases s.len(),
{
    if s.len() == 0 {
        0
    } else {
        10 * decimal(s.drop_last()) + digit_of(s.last())
    }
}

/// The number that the word `w` writes without a minus sign: an optional
/// `+` and then one decimal digit or more.
pub open spec fn unsigned_of(w: Seq<char>) -> Option<nat> {
    let digits = if w.len() > 0 && w[0] == '+' {
        w.drop_first()
    } else {
        w
    };
    if digits.len() > 0 && all_digits(digits) {
        Some(decimal(digits))
    } else {
        None
    }
}

/// The integer that the word `w` writes: an optional `+` or `-` and then
/// one decimal digit or more.
pub open spec fn signed_of(w: Seq<char>) -> Option<int> {
    if w.len() > 0 && w[0] == '-' {
        if w.len() > 1 && all_digits(w.drop_first()) {
            Some(-(decimal(w.drop_first()) as int))
        } else {
            None
        }
    } else {
        match unsigned_of(w) {
            Some(v) => Some(v as int),
            None => None,
        }
    }
}

/// The `usize` that the word `w` writes, if it writes a number without a
/// minus sign that is small enough.
pub open spec fn usize_of(w: Seq<char>) -> Option<usize> {
    match unsigned_of(w) {
        Some(v) => if v <= usize::MAX {
            Some(v as usize)
        } else {
            None
        },
        None => None,
    }
}

/// The `i64` that the word `w` writes, if it writes an integer in the range of the type.
pub open spec fn i64_of(w: Seq<char>) -> Option<i64> {
    match signed_of(w) {
        Some(v) => if i64::MIN <= v <= i64::MAX {
            Some(v as i64)
        } else {
            None
        },
        None => None,
    }
}

/// The digits at the front of a numeral write no more than the whole of it.
pub proof fn decimal_of_prefix(s: Seq<char>, k: int)
    requires
        0 <= k <= s.len(),
    ensures
        decimal(s.take(k)) <= decimal(s),
    decreases s.len(),
{
    if k < s.len() {
        decimal_of_prefix(s.drop_last(), k);
        assert(s.drop_last().take(k) =~= s.take(k));
    } else {
        assert(s.take(k) =~= s);
    }
}

/// Reads the decimal digits `w[from..]`.
///
/// Returns `None` exactly when there is no digit, when some character is
/// none, or when the number is too large for a `u64`.
fn read_digits(w: &Vec<char>, from: usize) -> (r: Option<u64>)
    requires
        from <= w.len(),
    ensures
        match r {
            Some(v) => from < w.len() && all_digits(w@.skip(from as int)) && v == decimal(
                w@.skip(from as int),
            ),
            None => from == w.len() || !all_digits(w@.skip(from as int)) || decimal(
                w@.skip(from as int),
            ) > u64::MAX,
        },
{
    if from == w.len() {
        return None;
    }
    let ghost digits = w@.skip(from as int);
    let mut acc: u64 = 0;
    let mut i: usize = from;
    while i < w.len()
        invariant
            from <= i <= w.len(),
            digits == w@.skip(from as int),
            all_digits(digits.take(i - from)),
            acc == decimal(digits.take(i - from)),
        decreases w.len() - i,
    {
        let c = w[i];
        let u: u32 = c as u32;
        assert(digits[i - from] == c);
        if u < 0x30 || u > 0x39 {
            return None;
        }
        let d: u64 = (u - 0x30) as u64;
        proof {
            assert(digits.take(i - from + 1).drop_last() =~= digits.take(i - from));
            assert(digits.take(i - from + 1).last() == c);
            decimal_of_prefix(digits, i - from + 1);
        }
        acc = match acc.checked_mul(10) {
            Some(tens) => match tens.checked_add(d) {
                Some(v) => v,
                None => {
                    return None;
                },
            },
            None => {
                return None;
            },
        };
        i += 1;
    }
    assert(digits.take(w.len() - from) =~= digits);
    Some(acc)
}

/// Reads the word `w` as a `usize`.
pub fn read_usize(w: &Vec<char>) -> (r: Option<usize>)
    ensures
        r == usize_of(w@),
{
    let from: usize = if w.len() > 0 && w[0] == '+' {
        1
    } else {
        0
    };
    assert(w@.skip(1) =~= w@.drop_first());
    assert(w@.skip(0) =~= w@);
    match read_digits(w, from) {
        Some(v) => if v > usize::MAX as u64 {
            None
        } else {
            Some(v as usize)
        },
        None => None,
    }
}

/// Reads the word `w` as an `i64`.
pub fn read_i64(w: &Vec<char>) -> (r: Option<i64>)
    ensures
        r == i64_of(w@),
{
    assert(w@.skip(1) =~= w@.drop_first());
    assert(w@.skip(0) =~= w@);
    if w.len() > 0 && w[0] == '-' {
        match read_digits(w, 1) {
            Some(v) => if v > 0x8000_0000_0000_0000 {
                None
            } else if v == 0x8000_0000_0000_0000 {
                Some(i64::MIN)
            } else {
                Some(-(v as i64))
            },
            None => None,
        }
    } else {
        let from: usize = if w.len() > 0 && w[0] == '+' {
            1
        } else {
            0
        };
        match read_digits(w, from) {
            Some(v) => if v > i64::MAX as u64 {
                None
            } else {
                Some(v as i64)
            },
            None => None,
        }
    }
}

} // verus!
