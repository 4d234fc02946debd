use vstd::prelude::*;

use crate::text::{find_str, find_sub_from, has_sub_at, lemma_find_sub_from};

verus! {

/// Why a version token was rejected.
#[derive(Clone, Copy, Debug, Hash, PartialEq, Eq, Structural)]
pub enum VersionError {
    /// The token is not a decimal number: a character is not a digit, or
    /// both the integer part and the fractional part are empty.
    NotDecimal,
    /// The integer part denotes a number too large for the primary field.
    TooLarge,
}

/// A normalized document format version: a primary number and a secondary
/// number, rendered as "primary.secondary" (for instance "1.7").
///
/// Equality and hashing go by the exact pair of fields, however the value
/// was obtained, so versions can serve as keys of a frequency table.
#[derive(Clone, Copy, Debug, Hash, PartialEq, Eq, Structural)]
pub struct Version {
    pub primary: u64,
    pub secondary: u64,
}

/// The decimal digit characters '0' through '9'.
pub open spec fn is_digit(c: char) -> bool {
    ('0' as int) <= c as int && c as int <= ('9' as int)
}

/// Numeric value of one decimal digit character.
pub open spec fn digit_val(c: char) -> int {
    c as int - ('0' as int)
}

/// Every character of `s` is a decimal digit.
pub open spec fn all_digits(s: Seq<char>) -> bool {
    forall|i: int| 0 <= i < s.len() ==> is_digit(#[trigger] s[i])
}

/// The number denoted by a sequence of decimal digit characters, most
/// significant first; the empty sequence denotes 0.
pub open spec fn digits_val(s: Seq<char>) -> nat
    decreases s.len(),
{
    if s.len() == 0 {
        0
    } else {
        (digits_val(s.drop_last()) * 10 + digit_val(s.last())) as nat
    }
}

/// The digit character for a value between 0 and 9.
pub open spec fn digit_char(d: int) -> char {
    if d == 0 {
        '0'
    } else if d == 1 {
        '1'
    } else if d == 2 {
        '2'
    } else if d == 3 {
        '3'
    } else if d == 4 {
        '4'
    } else if d == 5 {
        '5'
    } else if d == 6 {
        '6'
    } else if d == 7 {
        '7'
    } else if d == 8 {
        '8'
    } else {
        '9'
    }
}

/// The decimal rendering of a non-negative number, without leading zeros
/// (except for the number 0 itself, rendered as "0").
pub open spec fn number_digits(n: int) -> Seq<char>
    decreases n,
{
    if n < 10 {
        seq![digit_char(n)]
    } else {
        number_digits(n / 10) + seq![digit_char(n % 10)]
    }
}

/// The textual rendering of a version: primary digits, a dot, secondary digits.
pub open spec fn version_chars(v: Version) -> Seq<char> {
    number_digits(v.primary as int) + seq!['.'] + number_digits(v.secondary as int)
}

/// The characters of `s` before the first dot; all of `s` when there is none.
pub open spec fn int_part(s: Seq<char>) -> Seq<char> {
    let di = find_sub_from(s, seq!['.'], 0);
    if di < 0 {
        s
    } else {
        s.subrange(0, di)
    }
}

/// The characters of `s` after the first dot; empty when there is none.
pub open spec fn frac_part(s: Seq<char>) -> Seq<char> {
    let di = find_sub_from(s, seq!['.'], 0);
    if di < 0 {
        Seq::empty()
    } else {
        s.subrange(di + 1, s.len() as int)
    }
}

/// `s` denotes a decimal number: digits around at most one dot, with the
/// integer part and the fractional part not both empty.
pub open spec fn version_text_valid(s: Seq<char>) -> bool {
    &&& all_digits(int_part(s))
    &&& all_digits(frac_part(s))
    &&& int_part(s).len() + frac_part(s).len() > 0
}

/// The number denoted by the integer part of `s`.
pub open spec fn spec_primary(s: Seq<char>) -> nat {
    digits_val(int_part(s))
}

/// The first digit of the fractional part of `s`, or 0 when there is none.
pub open spec fn spec_secondary(s: Seq<char>) -> nat {
    if frac_part(s).len() > 0 {
        digit_val(frac_part(s)[0]) as nat
    } else {
        0
    }
}

/// What parsing a version token yields: the integer part becomes the
/// primary number and the first fractional digit (0 when absent) the
/// secondary number; further fractional digits are truncated away.
pub open spec fn spec_parse_version(s: Seq<char>) -> Result<Version, VersionError> {
    if !version_text_valid(s) {
        Err(VersionError::NotDecimal)
    } else if spec_primary(s) > u64::MAX {
        Err(VersionError::TooLarge)
    } else {
        Ok(Version { primary: spec_primary(s) as u64, secondary: spec_secondary(s) as u64 })
    }
}

/// Law: parsing any decimal string "P.F" (digits P, a dot, digits F) yields
/// the number denoted by P as the primary and the first digit of F (0 when
/// F is empty) as the secondary, truncating the rest of F, whenever the
/// primary fits its field.
pub proof fn lemma_parse_decimal_pair(ip: Seq<char>, fp: Seq<char>)
    requires
        all_digits(ip),
        all_digits(fp),
        ip.len() + fp.len() > 0,
    ensures
        version_text_valid(ip + seq!['.'] + fp),
        spec_primary(ip + seq!['.'] + fp) == digits_val(ip),
        spec_secondary(ip + seq!['.'] + fp) == (if fp.len() > 0 {
            digit_val(fp[0]) as nat
        } else {
            0nat
        }),
        digits_val(ip) <= u64::MAX ==> spec_parse_version(ip + seq!['.'] + fp) == Ok::<
            Version,
            VersionError,
        >(
            Version {
                primary: digits_val(ip) as u64,
                secondary: (if fp.len() > 0 {
                    digit_val(fp[0]) as nat
                } else {
                    0nat
                }) as u64,
            },
        ),
{
    let s = ip + seq!['.'] + fp;
    let p = seq!['.'];
    assert(s[ip.len() as int] == '.');
    assert(s.subrange(ip.len() as int, ip.len() as int + 1) =~= p);
    assert(has_sub_at(s, p, ip.len() as int));
    assert forall|k: int| 0 <= k < ip.len() implies !has_sub_at(s, p, k) by {
        assert(s[k] == ip[k]);
        assert(is_digit(ip[k]));
        if has_sub_at(s, p, k) {
            assert(s.subrange(k, k + 1)[0] == s[k]);
        }
    }
    lemma_find_sub_from(s, p, 0);
    let r = find_sub_from(s, p, 0);
    assert(r >= 0);
    assert(r == ip.len());
    assert(int_part(s) =~= ip);
    assert(frac_part(s) =~= fp);
}

/// A digit string denotes at least as much as any of its prefixes.
proof fn lemma_digits_val_prefix(s: Seq<char>, i: int)
    requires
        0 <= i <= s.len(),
        all_digits(s),
    ensures
        digits_val(s.subrange(0, i)) <= digits_val(s),
    decreases s.len() - i,
{
    if i == s.len() {
        assert(s.subrange(0, i) =~= s);
    } else {
        lemma_digits_val_prefix(s, i + 1);
        let t = s.subrange(0, i + 1);
        assert(t.drop_last() =~= s.subrange(0, i));
        assert(is_digit(t.last()));
        assert(digits_val(t) >= digits_val(s.subrange(0, i)));
    }
}

impl Version {
    /// Parse a decimal version token, such as "1.47" (which yields primary 1
    /// and secondary 4) or "3" (primary 3, secondary 0).
    pub fn parse(s: &str) -> (r: Result<Version, VersionError>)
        ensures
            r == spec_parse_version(s@),
    {
        proof {
            reveal_strlit(".");
            assert("."@ =~= seq!['.']);
        }
        let len = s.unicode_len();
        let dot = find_str(s, ".", 0);
        proof {
            lemma_find_sub_from(s@, seq!['.'], 0);
        }
        let iend: usize;
        let fstart: usize;
        match dot {
            Some(d) => {
                iend = d;
                fstart = d + 1;
            },
            None => {
                iend = len;
                fstart = len;
            },
        }
        let ghost ip = int_part(s@);
        let ghost fp = frac_part(s@);
        proof {
            assert(ip =~= s@.subrange(0, iend as int));
            assert(fp =~= s@.subrange(fstart as int, len as int));
        }
        if iend == 0 && fstart >= len {
            return Err(VersionError::NotDecimal);
        }
        let mut j: usize = 0;
        while j < iend
            invariant
                0 <= j <= iend,
                iend <= len,
                len == s@.len(),
                ip == s@.subrange(0, iend as int),
                ip == int_part(s@),
                forall|k: int| 0 <= k < j ==> is_digit(#[trigger] s@[k]),
            decreases iend - j,
        {
            let u = s.get_char(j) as u32;
            if !(48 <= u && u <= 57) {
                proof {
                    assert(ip[j as int] == s@[j as int]);
                    assert(!is_digit(s@[j as int]));
                }
                return Err(VersionError::NotDecimal);
            }
            j = j + 1;
        }
        proof {
            assert(all_digits(ip));
        }
        let mut j: usize = fstart;
        while j < len
            invariant
                fstart <= j <= len,
                len == s@.len(),
                fp == s@.subrange(fstart as int, len as int),
                fp == frac_part(s@),
                forall|k: int| fstart <= k < j ==> is_digit(#[trigger] s@[k]),
            decreases len - j,
        {
            let u = s.get_char(j) as u32;
            if !(48 <= u && u <= 57) {
                proof {
                    assert(fp[j - fstart] == s@[j as int]);
                    assert(!is_digit(s@[j as int]));
                }
                return Err(VersionError::NotDecimal);
            }
            j = j + 1;
        }
        proof {
            assert forall|k: int| 0 <= k < fp.len() implies is_digit(#[trigger] fp[k]) by {
                assert(fp[k] == s@[fstart + k]);
            }
            assert(version_text_valid(s@));
        }
        let mut acc: u64 = 0;
        let mut j: usize = 0;
        while j < iend
            invariant
                0 <= j <= iend,
                iend <= len,
                len == s@.len(),
                ip == s@.subrange(0, iend as int),
                ip == int_part(s@),
                all_digits(ip),
                version_text_valid(s@),
                acc == digits_val(s@.subrange(0, j as int)),
            decreases iend - j,
        {
            let u = s.get_char(j) as u32;
            proof {
                assert(ip[j as int] == s@[j as int]);
                assert(is_digit(s@[j as int]));
            }
            let d: u64 = ((u - 48) as u64);
            proof {
                assert(d as int == digit_val(s@[j as int]));
                assert(s@.subrange(0, j + 1).drop_last() =~= s@.subrange(0, j as int));
                assert(s@.subrange(0, j + 1).last() == s@[j as int]);
            }
            if acc > (u64::MAX - d) / 10 {
                proof {
                    assert(acc * 10 + d > u64::MAX) by (nonlinear_arith)
                        requires
                            acc > (u64::MAX - d) / 10,
                            0 <= d <= 9,
                            acc <= u64::MAX,
                    ;
                    assert(digits_val(s@.subrange(0, j + 1)) > u64::MAX);
                    assert(s@.subrange(0, j + 1) =~= ip.subrange(0, j + 1));
                    lemma_digits_val_prefix(ip, j + 1);
                    assert(spec_primary(s@) > u64::MAX);
                }
                return Err(VersionError::TooLarge);
            }
            proof {
                assert(acc * 10 + d <= u64::MAX) by (nonlinear_arith)
                    requires
                        acc <= (u64::MAX - d) / 10,
                        0 <= d <= 9,
                ;
            }
            acc = acc * 10 + d;
            j = j + 1;
        }
        proof {
            assert(s@.subrange(0, iend as int) == ip);
            assert(acc == spec_primary(s@));
        }
        let sec: u64;
        if fstart < len {
            let u = s.get_char(fstart) as u32;
            proof {
                assert(fp[0] == s@[fstart as int]);
                assert(is_digit(s@[fstart as int]));
            }
            sec = ((u - 48) as u64);
        } else {
            sec = 0;
        }
        proof {
            assert(sec as nat == spec_secondary(s@));
        }
        Ok(Version { primary: acc, secondary: sec })
    }
}

/// The rendering of a digit vector read from its last element to its first.
pub open spec fn rev_digit_chars(ds: Seq<u64>) -> Seq<char> {
    Seq::new(ds.len(), |i: int| digit_char(ds[ds.len() - 1 - i] as int))
}

/// The one-character string for a digit value.
fn digit_str(d: u64) -> (r: &'static str)
    requires
        d <= 9,
    ensures
        r@ == seq![digit_char(d as int)],
{
    if d == 0 {
        proof {
            reveal_strlit("0");
            assert("0"@ =~= seq![digit_char(0int)]);
        }
        "0"
    } else if d == 1 {
        proof {
            reveal_strlit("1");
            assert("1"@ =~= seq![digit_char(1int)]);
        }
        "1"
    } else if d == 2 {
        proof {
            reveal_strlit("2");
            assert("2"@ =~= seq![digit_char(2int)]);
        }
        "2"
    } else if d == 3 {
        proof {
            reveal_strlit("3");
            assert("3"@ =~= seq![digit_char(3int)]);
        }
        "3"
    } else if d == 4 {
        proof {
            reveal_strlit("4");
            assert("4"@ =~= seq![digit_char(4int)]);
        }
        "4"
    } else if d == 5 {
        proof {
            reveal_strlit("5");
            assert("5"@ =~= seq![digit_char(5int)]);
        }
        "5"
    } else if d == 6 {
        proof {
            reveal_strlit("6");
            assert("6"@ =~= seq![digit_char(6int)]);
        }
        "6"
    } else if d == 7 {
        proof {
            reveal_strlit("7");
            assert("7"@ =~= seq![digit_char(7int)]);
        }
        "7"
    } else if d == 8 {
        proof {
            reveal_strlit("8");
            assert("8"@ =~= seq![digit_char(8int)]);
        }
        "8"
    } else {
        proof {
            reveal_strlit("9");
            assert("9"@ =~= seq![digit_char(9int)]);
        }
        "9"
    }
}

/// Append the decimal rendering of `n` to `out`.
fn push_number(out: &mut String, n: u64)
    ensures
        final(out)@ == old(out)@ + number_digits(n as int),
{
    let mut ds: Vec<u64> = Vec::new();
    let mut m: u64 = n;
    while m >= 10
        invariant
            number_digits(n as int) == number_digits(m as int) + rev_digit_chars(ds@),
            forall|k: int| 0 <= k < ds@.len() ==> #[trigger] ds@[k] <= 9,
        decreases m,
    {
        let ghost ds0 = ds@;
        let d: u64 = m % 10;
        ds.push(d);
        proof {
            assert(rev_digit_chars(ds@) =~= seq![digit_char(d as int)] + rev_digit_chars(ds0));
            assert(number_digits(m as int) == number_digits(m as int / 10) + seq![
                digit_char(m as int % 10),
            ]);
            assert(number_digits(n as int) =~= number_digits((m / 10) as int) + rev_digit_chars(
                ds@,
            ));
        }
        m = m / 10;
    }
    let ghost ds1 = ds@;
    ds.push(m);
    proof {
        assert(rev_digit_chars(ds@) =~= seq![digit_char(m as int)] + rev_digit_chars(ds1));
        assert(number_digits(n as int) =~= rev_digit_chars(ds@));
    }
    let total = ds.len();
    let mut i: usize = 0;
    while i < total
        invariant
            total == ds@.len(),
            1 <= total,
            number_digits(n as int) == rev_digit_chars(ds@),
            forall|k: int| 0 <= k < ds@.len() ==> #[trigger] ds@[k] <= 9,
            0 <= i <= total,
            out@ == old(out)@ + rev_digit_chars(ds@).subrange(0, i as int),
        decreases total - i,
    {
        let d = ds[total - 1 - i];
        out.append(digit_str(d));
        proof {
            assert(rev_digit_chars(ds@)[i as int] == digit_char(d as int));
            assert(out@ =~= old(out)@ + rev_digit_chars(ds@).subrange(0, i + 1));
        }
        i = i + 1;
    }
    proof {
        assert(rev_digit_chars(ds@).subrange(0, total as int) =~= rev_digit_chars(ds@));
    }
}

impl Version {
    /// Render the version exactly as "primary.secondary", for instance "1.0"
    /// or "1.7".
    pub fn as_str(&self) -> (r: String)
        ensures
            r@ == version_chars(*self),
    {
        let mut out = String::new();
        push_number(&mut out, self.primary);
        proof {
            reveal_strlit(".");
            assert("."@ =~= seq!['.']);
        }
        out.append(".");
        push_number(&mut out, self.secondary);
        proof {
            assert(out@ =~= version_chars(*self));
        }
        out
    }
}

impl Default for Version {
    /// The version assumed when no version line is ever observed.
    fn default() -> (r: Self)
        ensures
            r == (Version { primary: 1, secondary: 0 }),
    {
        Version { primary: 1, secondary: 0 }
    }
}

} // verus!
