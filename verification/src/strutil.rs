//! Small verified helpers on strings and character sequences: conversion
//! between `String` and `Vec<char>`, decimal formatting and parsing, and
//! splitting on separator characters.

use vstd::prelude::*;
use vstd::slice::slice_subrange;
use vstd::string::StringExecFns;
use vstd::string::StrSliceExecFns;

verus! {

/// Relies on std's String::push: appends one character at the end.
#[verifier::external_body]
pub fn push_char(s: &mut String, c: char)
    ensures
        final(s)@ == old(s)@.push(c),
{
    s.push(c);
}

/// Collect the characters of a string slice into a vector.
pub fn chars_of(s: &str) -> (r: Vec<char>)
    ensures
        r@ == s@,
{
    let n = s.unicode_len();
    let mut r: Vec<char> = Vec::new();
    let mut i: usize = 0;
    while i < n
        invariant
            n == s@.len(),
            i <= n,
            r@ == s@.take(i as int),
        decreases n - i,
    {
        r.push(s.get_char(i));
        i = i + 1;
        proof {
            assert(r@ =~= s@.take(i as int));
        }
    }
    proof {
        assert(r@ =~= s@);
    }
    r
}

/// Collect a sequence of characters into a `String`.
pub fn string_of(cs: &[char]) -> (r: String)
    ensures
        r@ == cs@,
{
    let mut r = String::new();
    let mut i: usize = 0;
    while i < cs.len()
        invariant
            i <= cs@.len(),
            r@ == cs@.take(i as int),
        decreases cs@.len() - i,
    {
        push_char(&mut r, cs[i]);
        i = i + 1;
        proof {
            assert(r@ =~= cs@.take(i as int));
        }
    }
    proof {
        assert(r@ =~= cs@);
    }
    r
}

/// The character for one decimal digit.
pub open spec fn digit_char(d: int) -> char
    recommends
        0 <= d <= 9,
{
    ((48 + d) as u8) as char
}

/// Decimal digits of an unsigned number, most significant first.
pub open spec fn dec_digits(n: int) -> Seq<char>
    recommends
        n >= 0,
    decreases n,
{
    if n < 10 {
        seq![digit_char(n)]
    } else {
        dec_digits(n / 10).push(digit_char(n % 10))
    }
}

/// Decimal digits of a signed number: a leading '-' for negative values.
pub open spec fn dec_digits_signed(n: int) -> Seq<char> {
    if n < 0 {
        seq!['-'] + dec_digits(-n)
    } else {
        dec_digits(n)
    }
}

/// Format an unsigned number in decimal.
pub fn fmt_u64(n: u64) -> (r: String)
    ensures
        r@ == dec_digits(n as int),
    decreases n,
{
    if n < 10 {
        let mut r = String::new();
        push_char(&mut r, (48 + n as u8) as char);
        proof {
            assert(r@ =~= dec_digits(n as int));
        }
        r
    } else {
        let mut r = fmt_u64(n / 10);
        push_char(&mut r, (48 + (n % 10) as u8) as char);
        r
    }
}

/// Format a signed number in decimal.
pub fn fmt_i64(n: i64) -> (r: String)
    ensures
        r@ == dec_digits_signed(n as int),
{
    if n >= 0 {
        fmt_u64(n as u64)
    } else {
        // compute |n| without overflowing at i64::MIN
        let mag: u64 = (-(n + 1)) as u64 + 1;
        assert(mag == -(n as int));
        let digits = fmt_u64(mag);
        let mut r = String::new();
        push_char(&mut r, '-');
        r.append(digits.as_str());
        proof {
            assert(r@ =~= dec_digits_signed(n as int));
        }
        r
    }
}

/// Whether a character is a decimal digit.
pub open spec fn is_dec_digit(c: char) -> bool {
    48 <= c as int <= 57
}

/// Whether every character of a sequence is a decimal digit.
pub open spec fn all_dec_digits(s: Seq<char>) -> bool {
    forall|i: int| 0 <= i < s.len() ==> is_dec_digit(#[trigger] s[i])
}

/// The value of a sequence of decimal digits.
pub open spec fn dec_value(s: Seq<char>) -> int
    decreases s.len(),
{
    if s.len() == 0 {
        0
    } else {
        dec_value(s.drop_last()) * 10 + (s.last() as int - 48)
    }
}

/// A prefix of a digit string never has a larger value than the whole.
proof fn lemma_dec_value_prefix(s: Seq<char>, i: int)
    requires
        0 <= i <= s.len(),
        all_dec_digits(s),
    ensures
        dec_value(s.take(i)) <= dec_value(s),
    decreases s.len() - i,
{
    lemma_dec_value_nonneg(s.take(i));
    if i < s.len() {
        lemma_dec_value_prefix(s, i + 1);
        assert(s.take(i + 1).drop_last() =~= s.take(i));
        assert(is_dec_digit(s[i]));
        assert(s.take(i + 1).last() == s[i]);
        assert(dec_value(s.take(i + 1)) == dec_value(s.take(i)) * 10 + (s[i] as int - 48));
        assert(dec_value(s.take(i)) <= dec_value(s.take(i)) * 10) by (nonlinear_arith)
            requires
                dec_value(s.take(i)) >= 0,
        ;
    } else {
        assert(s.take(i) =~= s);
    }
}

/// The value of a digit string is never negative.
proof fn lemma_dec_value_nonneg(s: Seq<char>)
    ensures
        dec_value(s) >= 0 || !all_dec_digits(s),
    decreases s.len(),
{
    if s.len() > 0 {
        lemma_dec_value_nonneg(s.drop_last());
        assert(all_dec_digits(s) ==> all_dec_digits(s.drop_last())) by {
            if all_dec_digits(s) {
                assert(forall|i: int|
                    0 <= i < s.drop_last().len() ==> is_dec_digit(#[trigger] s.drop_last()[i]));
            }
        }
    }
}

/// Parse an unsigned decimal number; `None` on an empty string, a non-digit
/// character, or a value that does not fit in `u64`.
pub fn parse_u64(cs: &[char]) -> (r: Option<u64>)
    ensures
        r is Some <==> cs@.len() > 0 && all_dec_digits(cs@) && dec_value(cs@) <= u64::MAX,
        r is Some ==> r->0 as int == dec_value(cs@),
{
    if cs.len() == 0 {
        return None;
    }
    let mut acc: u64 = 0;
    let mut i: usize = 0;
    while i < cs.len()
        invariant
            i <= cs@.len(),
            all_dec_digits(cs@.take(i as int)),
            acc as int == dec_value(cs@.take(i as int)),
        decreases cs@.len() - i,
    {
        let c = cs[i];
        if !(c >= '0' && c <= '9') {
            assert(!is_dec_digit(cs@[i as int]));
            return None;
        }
        let d: u64 = (c as u8 - 48) as u64;
        if acc > (u64::MAX - d) / 10 {
            // the value of the whole string can only be larger still
            proof {
                assert(acc * 10 + d > u64::MAX) by (nonlinear_arith)
                    requires
                        acc > (u64::MAX - d) / 10,
                        0 <= d <= 9,
                ;
                assert(cs@.take(i + 1).drop_last() =~= cs@.take(i as int));
                assert(dec_value(cs@.take(i + 1)) == acc * 10 + d);
                if all_dec_digits(cs@) {
                    lemma_dec_value_prefix(cs@, i + 1);
                }
            }
            return None;
        }
        proof {
            assert(acc * 10 + d <= u64::MAX) by (nonlinear_arith)
                requires
                    acc <= (u64::MAX - d) / 10,
                    0 <= d <= 9,
            ;
            assert(cs@.take(i + 1).drop_last() =~= cs@.take(i as int));
        }
        acc = acc * 10 + d;
        i = i + 1;
    }
    proof {
        assert(cs@.take(i as int) =~= cs@);
    }
    Some(acc)
}

/// What a signed decimal string denotes: an optional sign, then digits,
/// within the bounds of `i64`.
pub open spec fn parsed_i64(s: Seq<char>) -> Option<i64> {
    let body = if s.len() > 0 && (s[0] == '-' || s[0] == '+') {
        s.drop_first()
    } else {
        s
    };
    if body.len() > 0 && all_dec_digits(body) {
        let mag = dec_value(body);
        if s.len() > 0 && s[0] == '-' {
            if -mag >= i64::MIN {
                Some((-mag) as i64)
            } else {
                None
            }
        } else {
            if mag <= i64::MAX {
                Some(mag as i64)
            } else {
                None
            }
        }
    } else {
        None
    }
}

/// Parse a signed decimal number the way `str::parse::<i64>` reads it:
/// an optional leading sign, then decimal digits, nothing else.
pub fn parse_i64(cs: &Vec<char>) -> (r: Option<i64>)
    ensures
        r == parsed_i64(cs@),
{
    let negative = cs.len() > 0 && cs[0] == '-';
    let signed = cs.len() > 0 && (cs[0] == '-' || cs[0] == '+');
    let start: usize = if signed {
        1
    } else {
        0
    };
    let body = slice_subrange(cs.as_slice(), start, cs.len());
    proof {
        assert(body@ =~= if signed {
            cs@.drop_first()
        } else {
            cs@
        });
    }
    match parse_u64(body) {
        None => {
            proof {
                if body@.len() > 0 && all_dec_digits(body@) {
                    lemma_dec_value_nonneg(body@);
                    assert(dec_value(body@) > u64::MAX);
                }
            }
            None
        },
        Some(mag) => {
            if negative {
                if mag <= 9223372036854775808u64 {
                    // |i64::MIN| fits
                    let r: i64 = if mag == 9223372036854775808u64 {
                        i64::MIN
                    } else {
                        -(mag as i64)
                    };
                    Some(r)
                } else {
                    None
                }
            } else {
                if mag <= i64::MAX as u64 {
                    Some(mag as i64)
                } else {
                    None
                }
            }
        },
    }
}

/// Split a sequence at every occurrence of `sep`; the separator is dropped,
/// empty pieces are kept.
pub open spec fn split_on(s: Seq<char>, sep: char) -> Seq<Seq<char>>
    decreases s.len(),
{
    if s.len() == 0 {
        seq![Seq::empty()]
    } else if s.last() == sep {
        split_on(s.drop_last(), sep).push(Seq::empty())
    } else {
        let rest = split_on(s.drop_last(), sep);
        rest.update(rest.len() - 1, rest.last().push(s.last()))
    }
}

/// Split a vector of characters on a separator character.
pub fn split_chars_on(cs: &Vec<char>, sep: char) -> (r: Vec<Vec<char>>)
    ensures
        r.deep_view() == split_on(cs@, sep),
        r@.len() > 0,
{
    let mut r: Vec<Vec<char>> = Vec::new();
    r.push(Vec::new());
    let mut i: usize = 0;
    proof {
        assert(r.deep_view() =~~= split_on(cs@.take(0), sep));
    }
    while i < cs.len()
        invariant
            i <= cs@.len(),
            r.deep_view() == split_on(cs@.take(i as int), sep),
            r@.len() > 0,
        decreases cs@.len() - i,
    {
        let ghost prefix = cs@.take(i as int);
        proof {
            assert(cs@.take(i + 1).drop_last() =~= prefix);
            assert(cs@.take(i + 1).last() == cs@[i as int]);
        }
        if cs[i] == sep {
            r.push(Vec::new());
            proof {
                assert(r.deep_view() =~~= split_on(cs@.take(i + 1), sep));
            }
        } else {
            let last_idx = r.len() - 1;
            let mut piece = r.remove(last_idx);
            piece.push(cs[i]);
            r.push(piece);
            proof {
                let s2 = split_on(cs@.take(i + 1), sep);
                let s1 = split_on(prefix, sep);
                assert(s2 =~~= s1.update(s1.len() - 1, s1.last().push(cs@[i as int])));
                assert(r.deep_view() =~~= s2);
            }
        }
        i = i + 1;
    }
    proof {
        assert(cs@.take(i as int) =~= cs@);
    }
    r
}

/// The lines of a text, the way `str::lines` reads them: pieces between
/// newline characters, without a final empty piece, each stripped of one
/// trailing carriage return.
pub open spec fn lines_of(s: Seq<char>) -> Seq<Seq<char>> {
    let pieces = split_on(s, '\n');
    let kept = if pieces.last().len() == 0 {
        pieces.drop_last()
    } else {
        pieces
    };
    strip_lines(kept)
}

/// Strip one trailing carriage return from every piece.
pub open spec fn strip_lines(pieces: Seq<Seq<char>>) -> Seq<Seq<char>> {
    pieces.map_values(|p: Seq<char>| strip_one_cr(p))
}

/// Strip one trailing carriage return, if present.
pub open spec fn strip_one_cr(p: Seq<char>) -> Seq<char> {
    if p.len() > 0 && p.last() == '\r' {
        p.drop_last()
    } else {
        p
    }
}

/// Split a text into its lines.
pub fn lines_vec(cs: &Vec<char>) -> (r: Vec<Vec<char>>)
    ensures
        r.deep_view() == lines_of(cs@),
{
    let pieces = split_chars_on(cs, '\n');
    let mut r: Vec<Vec<char>> = Vec::new();
    let total = pieces.len();
    proof {
        assert(pieces.deep_view().len() == pieces@.len());
    }
    let keep: usize = if pieces[total - 1].len() == 0 {
        total - 1
    } else {
        total
    };
    let ghost kept_spec = if split_on(cs@, '\n').last().len() == 0 {
        split_on(cs@, '\n').drop_last()
    } else {
        split_on(cs@, '\n')
    };
    proof {
        assert(pieces.deep_view()[total - 1] == pieces@[total - 1].view());
        assert(keep as int == kept_spec.len());
    }
    let mut i: usize = 0;
    while i < keep
        invariant
            i <= keep,
            keep as int == kept_spec.len(),
            kept_spec.len() <= pieces.deep_view().len(),
            pieces.deep_view() == split_on(cs@, '\n'),
            forall|j: int| 0 <= j < kept_spec.len() ==> kept_spec[j] == pieces.deep_view()[j],
            r.deep_view() == strip_lines(kept_spec).take(i as int),
        decreases keep - i,
    {
        let piece = &pieces[i];
        let n = piece.len();
        let mut line: Vec<char> = Vec::new();
        let stop: usize = if n > 0 && piece[n - 1] == '\r' {
            n - 1
        } else {
            n
        };
        let mut j: usize = 0;
        while j < stop
            invariant
                j <= stop,
                stop <= piece@.len(),
                line@ == piece@.take(j as int),
            decreases stop - j,
        {
            line.push(piece[j]);
            j = j + 1;
            proof {
                assert(line@ =~= piece@.take(j as int));
            }
        }
        proof {
            assert(piece@.take(stop as int) =~= strip_one_cr(piece@));
            assert(piece@ =~= pieces.deep_view()[i as int]);
        }
        proof {
            assert(line.deep_view() =~= line@);
            assert(strip_lines(kept_spec)[i as int] == strip_one_cr(kept_spec[i as int]));
            assert(line.deep_view() == strip_lines(kept_spec)[i as int]);
        }
        let ghost r_before = r.deep_view();
        let ghost line_view = line.deep_view();
        r.push(line);
        i = i + 1;
        proof {
            assert(r.deep_view().len() == r_before.len() + 1);
            assert forall|k: int| 0 <= k < i implies r.deep_view()[k] == strip_lines(
                kept_spec,
            ).take(i as int)[k] by {
                if k < i - 1 {
                    assert(r.deep_view()[k] == r_before[k]);
                } else {
                    assert(r.deep_view()[k] == line_view);
                }
            }
            assert(r.deep_view() =~= strip_lines(kept_spec).take(i as int));
        }
    }
    proof {
        let mapped = strip_lines(kept_spec);
        assert(mapped.take(keep as int) =~= mapped);
        assert(r.deep_view() =~~= lines_of(cs@));
    }
    r
}

/// A sequence with every occurrence of a character removed.
pub open spec fn seq_without(s: Seq<char>, c: char) -> Seq<char>
    decreases s.len(),
{
    if s.len() == 0 {
        Seq::empty()
    } else if s.last() == c {
        seq_without(s.drop_last(), c)
    } else {
        seq_without(s.drop_last(), c).push(s.last())
    }
}

/// Remove every occurrence of a character.
pub fn vec_without(cs: &Vec<char>, c: char) -> (r: Vec<char>)
    ensures
        r@ == seq_without(cs@, c),
{
    let mut r: Vec<char> = Vec::new();
    let mut i: usize = 0;
    proof {
        assert(cs@.take(0) =~= Seq::<char>::empty());
    }
    while i < cs.len()
        invariant
            i <= cs@.len(),
            r@ == seq_without(cs@.take(i as int), c),
        decreases cs@.len() - i,
    {
        proof {
            assert(cs@.take(i + 1).drop_last() =~= cs@.take(i as int));
            assert(cs@.take(i + 1).last() == cs@[i as int]);
        }
        if cs[i] != c {
            r.push(cs[i]);
        }
        i = i + 1;
    }
    proof {
        assert(cs@.take(i as int) =~= cs@);
    }
    r
}

} // verus!
