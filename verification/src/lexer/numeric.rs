//! Reading unsigned integers from text, as `u128::from_str_radix` does.
use vstd::prelude::*;

verus! {

/// The value of a digit character in the bases up to 36 (`0-9`, then `a-z` or
/// `A-Z` for 10 to 35); 36 for every other character, which is a digit in no base.
pub open spec fn digit_value(c: char) -> int {
    if '0' <= c && c <= '9' {
        (c as int) - ('0' as int)
    } else if 'a' <= c && c <= 'z' {
        (c as int) - ('a' as int) + 10
    } else if 'A' <= c && c <= 'Z' {
        (c as int) - ('A' as int) + 10
    } else {
        36
    }
}

/// Every character of `s` is a digit of base `radix`.
pub open spec fn all_digits(s: Seq<char>, radix: nat) -> bool {
    forall|i: int| 0 <= i < s.len() ==> #[trigger] digit_value(s[i]) < radix
}

/// The number that the digits `s` spell in base `radix`, most significant first.
pub open spec fn digits_value(s: Seq<char>, radix: nat) -> int
    decreases s.len(),
{
    if s.len() == 0 {
        0
    } else {
        digits_value(s.drop_last(), radix) * radix + digit_value(s.last())
    }
}

/// The digits that `from_str_radix` reads: the text without one leading `+`.
pub open spec fn unsigned_digits(s: Seq<char>) -> Seq<char> {
    if s.len() > 0 && s[0] == '+' {
        s.drop_first()
    } else {
        s
    }
}

/// What `u128::from_str_radix(s, radix)` gives: an optional `+`, then at least one
/// digit of the base, and a value that fits in a `u128`; `None` on any other text.
pub open spec fn spec_from_str_radix(s: Seq<char>, radix: nat) -> Option<u128> {
    let d = unsigned_digits(s);
    if d.len() > 0 && all_digits(d, radix) && digits_value(d, radix) <= u128::MAX {
        Some(digits_value(d, radix) as u128)
    } else {
        None
    }
}

proof fn lemma_digits_value_nonneg(s: Seq<char>, radix: nat)
    requires
        all_digits(s, radix),
    ensures
        digits_value(s, radix) >= 0,
    decreases s.len(),
{
    if s.len() > 0 {
        assert(all_digits(s.drop_last(), radix)) by {
            assert forall|i: int| 0 <= i < s.drop_last().len() implies #[trigger] digit_value(
                s.drop_last()[i],
            ) < radix by {
                assert(s.drop_last()[i] == s[i]);
            }
        }
        lemma_digits_value_nonneg(s.drop_last(), radix);
        assert(digit_value(s[s.len() - 1]) < radix);
        assert(digits_value(s.drop_last(), radix) * radix >= 0) by (nonlinear_arith)
            requires
                digits_value(s.drop_last(), radix) >= 0,
        ;
    }
}

/// A longer run of digits never spells a smaller number than its prefix.
proof fn lemma_digits_value_prefix(s: Seq<char>, i: int, radix: nat)
    requires
        0 <= i <= s.len(),
        radix >= 1,
        all_digits(s, radix),
    ensures
        digits_value(s.take(i), radix) <= digits_value(s, radix),
    decreases s.len() - i,
{
    if i < s.len() {
        let t = s.take(i + 1);
        assert(t.drop_last() =~= s.take(i));
        assert(all_digits(s.take(i), radix)) by {
            assert forall|k: int| 0 <= k < s.take(i).len() implies #[trigger] digit_value(
                s.take(i)[k],
            ) < radix by {
                assert(s.take(i)[k] == s[k]);
            }
        }
        lemma_digits_value_nonneg(s.take(i), radix);
        let v = digits_value(s.take(i), radix);
        assert(t.last() == s[i]);
        assert(digit_value(s[i]) < radix);
        assert(digit_value(s[i]) >= 0);
        assert(v * radix >= v) by (nonlinear_arith)
            requires
                v >= 0,
                radix >= 1,
        ;
        lemma_digits_value_prefix(s, i + 1, radix);
    } else {
        assert(s.take(i) =~= s);
    }
}

/// Law (digits): the characters `0` to `9` are the digits 0 to 9, the letters
/// `a` to `z` and `A` to `Z` alike the digits 10 to 35, and no other character
/// is a digit of any base up to 36.
pub proof fn lemma_digit_values()
    ensures
        forall|k: int| 0 <= k < 10 ==> #[trigger] digit_value(char_of(48 + k)) == k,
        forall|k: int| 0 <= k < 26 ==> #[trigger] digit_value(char_of(97 + k)) == 10 + k,
        forall|k: int| 0 <= k < 26 ==> #[trigger] digit_value(char_of(65 + k)) == 10 + k,
        forall|c: char|
            #[trigger] digit_value(c) < 36 <==> ('0' <= c <= '9' || 'a' <= c <= 'z' || 'A' <= c
                <= 'Z'),
{
    assert forall|k: int| 0 <= k < 10 implies #[trigger] digit_value(char_of(48 + k)) == k by {
        lemma_char_of(48 + k);
    }
    assert forall|k: int| 0 <= k < 26 implies #[trigger] digit_value(char_of(97 + k)) == 10 + k by {
        lemma_char_of(97 + k);
    }
    assert forall|k: int| 0 <= k < 26 implies #[trigger] digit_value(char_of(65 + k)) == 10 + k by {
        lemma_char_of(65 + k);
    }
}

/// The character whose code is `u`.
pub open spec fn char_of(u: int) -> char {
    u as char
}

proof fn lemma_char_of(u: int)
    requires
        0 <= u < 0xd800,
    ensures
        char_of(u) as int == u,
{
}

/// The lowercase form of an ASCII capital letter; every other character is kept.
pub open spec fn ascii_lower(c: char) -> char {
    if 'A' <= c && c <= 'Z' {
        char_of(c as int + 32)
    } else {
        c
    }
}

/// The text with every ASCII capital letter made lowercase.
pub open spec fn lowercase(s: Seq<char>) -> Seq<char> {
    s.map_values(|c: char| ascii_lower(c))
}

proof fn lemma_lower_digit(c: char)
    ensures
        digit_value(ascii_lower(c)) == digit_value(c),
{
    if 'A' <= c && c <= 'Z' {
        lemma_char_of(c as int + 32);
    }
}

proof fn lemma_lower_digits_value(s: Seq<char>, radix: nat)
    ensures
        digits_value(lowercase(s), radix) == digits_value(s, radix),
    decreases s.len(),
{
    if s.len() > 0 {
        assert(lowercase(s).drop_last() =~= lowercase(s.drop_last()));
        lemma_lower_digits_value(s.drop_last(), radix);
        lemma_lower_digit(s.last());
    }
}

/// Law (letter case): reading a number in any base gives the same result
/// whether its letters are written in capitals or in lowercase.
pub proof fn lemma_from_str_radix_ignores_case(s: Seq<char>, radix: nat)
    ensures
        spec_from_str_radix(lowercase(s), radix) == spec_from_str_radix(s, radix),
{
    let d = unsigned_digits(s);
    let l = lowercase(s);
    if s.len() > 0 && s[0] == '+' {
        assert(l[0] == '+');
        assert(unsigned_digits(l) =~= lowercase(d));
    } else {
        if s.len() > 0 {
            assert(l[0] == ascii_lower(s[0]));
            if 'A' <= s[0] && s[0] <= 'Z' {
                lemma_char_of(s[0] as int + 32);
            }
        }
        assert(unsigned_digits(l) =~= lowercase(d));
    }
    lemma_lower_digits_value(d, radix);
    assert forall|i: int| 0 <= i < d.len() implies digit_value(#[trigger] lowercase(d)[i]) == digit_value(d[i]) by {
        lemma_lower_digit(d[i]);
    }
    let ld = lowercase(d);
    if all_digits(d, radix) {
        assert forall|i: int| 0 <= i < ld.len() implies #[trigger] digit_value(ld[i]) < radix by {
            lemma_lower_digit(d[i]);
            assert(digit_value(d[i]) < radix);
        }
    }
    if all_digits(ld, radix) {
        assert forall|i: int| 0 <= i < d.len() implies #[trigger] digit_value(d[i]) < radix by {
            lemma_lower_digit(d[i]);
            assert(digit_value(ld[i]) < radix);
        }
    }
    assert(all_digits(ld, radix) == all_digits(d, radix));
}

/// The value of a digit character in base `radix`, as `char::to_digit` gives it.
fn to_digit(c: char, radix: u32) -> (r: Option<u32>)
    requires
        2 <= radix <= 36,
    ensures
        r == (if digit_value(c) < radix {
            Some(digit_value(c) as u32)
        } else {
            None::<u32>
        }),
{
    let d: u32 = if '0' <= c && c <= '9' {
        (c as u32) - ('0' as u32)
    } else if 'a' <= c && c <= 'z' {
        (c as u32) - ('a' as u32) + 10
    } else if 'A' <= c && c <= 'Z' {
        (c as u32) - ('A' as u32) + 10
    } else {
        36
    };
    if d < radix {
        Some(d)
    } else {
        None
    }
}

/// Reads `s` as an unsigned number of base `radix`: an optional `+`, then one or
/// more digits, with no overflow past `u128::MAX`.
pub fn from_str_radix(s: &Vec<char>, radix: u32) -> (r: Option<u128>)
    requires
        2 <= radix <= 36,
    ensures
        r == spec_from_str_radix(s@, radix as nat),
{
    let ghost d = unsigned_digits(s@);
    let start: usize = if s.len() > 0 && s[0] == '+' {
        1
    } else {
        0
    };
    assert(d =~= s@.skip(start as int));
    if start >= s.len() {
        return None;
    }
    let mut acc: u128 = 0;
    let mut i: usize = start;
    while i < s.len()
        invariant
            start <= i <= s.len(),
            d =~= s@.skip(start as int),
            d == unsigned_digits(s@),
            2 <= radix <= 36,
            all_digits(d.take(i - start), radix as nat),
            acc == digits_value(d.take(i - start), radix as nat),
        decreases s.len() - i,
    {
        let k: Ghost<int> = Ghost(i - start);
        assert(d.take(k@ + 1).drop_last() =~= d.take(k@));
        assert(d[k@] == s@[i as int]);
        match to_digit(s[i], radix) {
            None => {
                assert(!all_digits(d, radix as nat)) by {
                    assert(digit_value(d[k@]) >= radix);
                }
                return None;
            },
            Some(dv) => {
                assert(all_digits(d.take(k@ + 1), radix as nat)) by {
                    assert forall|j: int| 0 <= j < d.take(k@ + 1).len() implies #[trigger] digit_value(
                        d.take(k@ + 1)[j],
                    ) < radix by {
                        if j < k@ {
                            assert(d.take(k@ + 1)[j] == d.take(k@)[j]);
                        }
                    }
                }
                let next = match acc.checked_mul(radix as u128) {
                    Some(m) => m.checked_add(dv as u128),
                    None => None,
                };
                match next {
                    Some(n) => {
                        acc = n;
                    },
                    None => {
                        proof {
                            lemma_digits_value_nonneg(d.take(k@), radix as nat);
                            let v = digits_value(d.take(k@), radix as nat);
                            assert(v * radix + dv > u128::MAX) by (nonlinear_arith)
                                requires
                                    v * radix > u128::MAX || v * radix + dv > u128::MAX,
                                    v >= 0,
                                    dv >= 0,
                            ;
                            if all_digits(d, radix as nat) {
                                lemma_digits_value_prefix(d, k@ + 1, radix as nat);
                            }
                        }
                        return None;
                    },
                }
            },
        }
        i = i + 1;
    }
    assert(d.take(i - start) =~= d);
    Some(acc)
}

} // verus!
