//! The reading of identifiers and integer literals in script source, and the
//! gathering of comma-separated lists.

use vstd::prelude::*;
use vstd::utf8::*;
use vstd::string::*;
use crate::strutil::str_equal;

verus! {

/// `std::str::from_utf8`: the text that `bytes` encode, when they are valid
/// UTF-8, and `None` when they are not.
#[verifier::external_body]
fn str_from_utf8(bytes: &[u8]) -> (r: Option<&str>)
    ensures
        r matches Some(s) ==> valid_utf8(bytes@) && s@ == decode_utf8(bytes@),
        r is None ==> !valid_utf8(bytes@),
{
    std::str::from_utf8(bytes).ok()
}

/// Whether a character has the Unicode `Alphabetic` property, as
/// `char::is_alphabetic` tells.
pub uninterp spec fn alphabetic(c: char) -> bool;

/// `char::is_alphabetic`: whether `c` has the Unicode `Alphabetic` property.
#[verifier::external_body]
fn char_is_alphabetic(c: char) -> (r: bool)
    ensures
        r == alphabetic(c),
{
    c.is_alphabetic()
}

/// Whether `s` is one of the language's keywords.
pub open spec fn is_keyword(s: Seq<char>) -> bool {
    ||| s == "func"@
    ||| s == "var"@
    ||| s == "return"@
    ||| s == "for"@
    ||| s == "while"@
    ||| s == "if"@
    ||| s == "else"@
    ||| s == "true"@
    ||| s == "false"@
}

/// The identifier that text `s` makes, or the message saying why it makes
/// none: it must begin with a letter and not be a keyword.
pub open spec fn id_result(s: Seq<char>) -> Result<Seq<char>, Seq<char>> {
    if s.len() == 0 {
        Err("Id has no characters."@)
    } else if !alphabetic(s[0]) {
        Err("Id begins with non-letter."@)
    } else if is_keyword(s) {
        Err(s + " matches keyword"@)
    } else {
        Ok(s)
    }
}

/// Whether `s` is one of the keywords.
fn keyword(s: &str) -> (r: bool)
    ensures
        r == is_keyword(s@),
{
    str_equal(s, "func") || str_equal(s, "var") || str_equal(s, "return") || str_equal(s, "for")
        || str_equal(s, "while") || str_equal(s, "if") || str_equal(s, "else") || str_equal(s, "true")
        || str_equal(s, "false")
}

/// No keyword of the language makes an identifier, and every other text that
/// begins with a letter makes the identifier of itself.
pub proof fn law_keywords_are_not_ids(s: Seq<char>)
    ensures
        s == "func"@ || s == "var"@ || s == "return"@ || s == "for"@ || s == "while"@ || s == "if"@
            || s == "else"@ || s == "true"@ || s == "false"@ ==> id_result(s) is Err,
        s.len() > 0 && alphabetic(s[0]) && !(s == "func"@ || s == "var"@ || s == "return"@ || s
            == "for"@ || s == "while"@ || s == "if"@ || s == "else"@ || s == "true"@ || s == "false"@)
            ==> id_result(s) == Ok::<Seq<char>, Seq<char>>(s),
{
}

/// Reads an identifier from its UTF-8 bytes.
pub fn make_id(id: &[u8]) -> (r: Result<String, String>)
    requires
        valid_utf8(id@),
    ensures
        match id_result(decode_utf8(id@)) {
            Ok(t) => (r matches Ok(s) && s@ == t),
            Err(m) => (r matches Err(e) && e@ == m),
        },
{
    let s = match str_from_utf8(id) {
        Some(s) => s,
        None => {
            proof {
                assert(false);
            }
            return Err(String::new());
        },
    };
    if s.unicode_len() == 0 {
        return Err(String::from_str("Id has no characters."));
    }
    if !char_is_alphabetic(s.get_char(0)) {
        return Err(String::from_str("Id begins with non-letter."));
    }
    if keyword(s) {
        return Err(String::from_str(s).concat(" matches keyword"));
    }
    Ok(String::from_str(s))
}

/// `args` with `final_arg`, if any, after them.
pub fn combine_list<T>(args: Vec<T>, final_arg: Option<T>) -> (r: Vec<T>)
    ensures
        r@ == match final_arg {
            Some(a) => args@.push(a),
            None => args@,
        },
{
    let mut args = args;
    match final_arg {
        Some(a) => args.push(a),
        None => {},
    }
    args
}

/// The value of a string of decimal digits.
pub open spec fn digits_value(s: Seq<char>) -> int
    decreases s.len(),
{
    if s.len() == 0 {
        0
    } else {
        digits_value(s.drop_last()) * 10 + (s.last() as int - '0' as int)
    }
}

/// Whether every character of `s` is a decimal digit.
pub open spec fn all_digits(s: Seq<char>) -> bool {
    forall|i: int| 0 <= i < s.len() ==> '0' <= #[trigger] s[i] <= '9'
}

/// The `i64` that text `s` writes in decimal, as `i64::from_str` reads it:
/// an optional sign, then one or more digits, in range.
pub open spec fn parse_i64(s: Seq<char>) -> Option<i64> {
    let neg = s.len() > 0 && s[0] == '-';
    let ds = if s.len() > 0 && (s[0] == '-' || s[0] == '+') {
        s.drop_first()
    } else {
        s
    };
    let v = if neg {
        -digits_value(ds)
    } else {
        digits_value(ds)
    };
    if ds.len() == 0 || !all_digits(ds) || v < i64::MIN || v > i64::MAX {
        None
    } else {
        Some(v as i64)
    }
}

/// The value of digits does not shrink as digits are added.
proof fn lemma_digits_grow(s: Seq<char>, k: int)
    requires
        0 <= k <= s.len(),
        all_digits(s),
    ensures
        0 <= digits_value(s.take(k)) <= digits_value(s),
    decreases s.len() - k,
{
    if k < s.len() {
        lemma_digits_grow(s, k + 1);
        assert(s.take(k + 1).drop_last() =~= s.take(k));
        lemma_digits_nonneg(s.take(k));
    } else {
        assert(s.take(k) =~= s);
        lemma_digits_nonneg(s);
    }
}

/// The value of digits is never negative.
proof fn lemma_digits_nonneg(s: Seq<char>)
    requires
        all_digits(s),
    ensures
        digits_value(s) >= 0,
    decreases s.len(),
{
    if s.len() > 0 {
        lemma_digits_nonneg(s.drop_last());
    }
}

/// Reads an `i64` written in decimal.
fn parse_int(s: &str) -> (r: Option<i64>)
    ensures
        r == parse_i64(s@),
{
    let n = s.unicode_len();
    let mut start: usize = 0;
    let mut neg = false;
    if n > 0 && (s.get_char(0) == '-' || s.get_char(0) == '+') {
        neg = s.get_char(0) == '-';
        start = 1;
    }
    let ghost ds = s@.subrange(start as int, n as int);
    proof {
        if start == 1 {
            assert(ds =~= s@.drop_first());
        } else {
            assert(ds =~= s@);
        }
    }
    if start == n {
        assert(ds.len() == 0);
        return None;
    }
    let mut acc: i128 = 0;
    let mut i: usize = start;
    while i < n
        invariant
            start <= i <= n,
            n == s@.len(),
            neg == (s@.len() > 0 && s@[0] == '-'),
            ds == (if s@.len() > 0 && (s@[0] == '-' || s@[0] == '+') {
                s@.drop_first()
            } else {
                s@
            }),
            ds == s@.subrange(start as int, n as int),
            all_digits(ds.take(i - start)),
            acc == digits_value(ds.take(i - start)),
            0 <= acc <= 0x8000_0000_0000_0000,
        decreases n - i,
    {
        let c = s.get_char(i);
        assert(ds.take(i + 1 - start).drop_last() =~= ds.take(i - start));
        assert(ds.take(i + 1 - start).last() == c);
        if c < '0' || c > '9' {
            assert(!all_digits(ds));
            return None;
        }
        let d: i128 = (c as u32 - '0' as u32) as i128;
        acc = acc * 10 + d;
        i += 1;
        assert(all_digits(ds.take(i - start)));
        if acc > 0x8000_0000_0000_0000 {
            proof {
                if all_digits(ds) {
                    lemma_digits_grow(ds, i - start);
                }
            }
            return None;
        }
    }
    assert(ds.take(i - start) =~= ds);
    if neg {
        Some((-acc) as i64)
    } else if acc > 0x7fff_ffff_ffff_ffff {
        None
    } else {
        Some(acc as i64)
    }
}

/// Reads an integer literal from its UTF-8 bytes; the message says why
/// there is none.
pub fn str_to_int(s: &[u8]) -> (r: Result<i64, String>)
    ensures
        !valid_utf8(s@) ==> (r matches Err(m) && m@ == "Incorrectly parsed input string."@),
        valid_utf8(s@) ==> match parse_i64(decode_utf8(s@)) {
            Some(i) => r == Ok::<i64, String>(i),
            None => (r matches Err(m) && m@ == "Not an integer: "@ + decode_utf8(s@)),
        },
{
    match str_from_utf8(s) {
        Some(i_str) => match parse_int(i_str) {
            Some(i) => Ok(i),
            None => Err(String::from_str("Not an integer: ").concat(i_str)),
        },
        None => Err(String::from_str("Incorrectly parsed input string.")),
    }
}

} // verus!
