//! Workspace identifiers: a workspace is tracked exactly when its display
//! name parses as a decimal integer. The accepted syntax is the standard
//! one: an optional single `+` or `-` sign followed by at least one ASCII
//! digit, with the value required to fit the identifier type.

use vstd::prelude::*;
use vstd::string::StrSliceExecFns;

verus! {

/// Whether `c` is an ASCII decimal digit.
pub open spec fn is_digit(c: char) -> bool {
    0x30 <= c as u32 && c as u32 <= 0x39
}

/// The numeric value of the ASCII digit `c`.
pub open spec fn digit_val(c: char) -> int {
    c as u32 - 0x30
}

/// Whether every character of `s` is an ASCII decimal digit.
pub open spec fn all_digits(s: Seq<char>) -> bool {
    forall|k: int| 0 <= k < s.len() ==> is_digit(s[k])
}

/// The non-negative value denoted by a sequence of decimal digits.
pub open spec fn digits_val(s: Seq<char>) -> int
    decreases s.len(),
{
    if s.len() == 0 {
        0
    } else {
        digits_val(s.drop_last()) * 10 + digit_val(s.last())
    }
}

/// The workspace identifier that the name `s` denotes: an optional single
/// sign followed by at least one digit, with the value within `i32` range;
/// `None` for every other name.
pub open spec fn parse_i32_spec(s: Seq<char>) -> Option<i32> {
    let neg = s.len() > 0 && s[0] == '-';
    let ds = if s.len() > 0 && (s[0] == '-' || s[0] == '+') {
        s.drop_first()
    } else {
        s
    };
    if ds.len() > 0 && all_digits(ds) {
        let v = digits_val(ds);
        if neg {
            if v <= 0x8000_0000 {
                Some((-v) as i32)
            } else {
                None
            }
        } else {
            if v <= 0x7FFF_FFFF {
                Some(v as i32)
            } else {
                None
            }
        }
    } else {
        None
    }
}

proof fn lemma_digits_val_nonneg(s: Seq<char>)
    requires
        all_digits(s),
    ensures
        digits_val(s) >= 0,
    decreases s.len(),
{
    if s.len() > 0 {
        assert(all_digits(s.drop_last())) by {
            assert(forall|k: int| 0 <= k < s.len() - 1 ==> s.drop_last()[k] == s[k]);
        }
        lemma_digits_val_nonneg(s.drop_last());
        assert(is_digit(s[s.len() - 1]));
        assert(digit_val(s.last()) >= 0);
        assert(digits_val(s.drop_last()) * 10 >= 0);
    }
}

proof fn lemma_digits_val_prefix(s: Seq<char>, i: int)
    requires
        0 <= i <= s.len(),
        all_digits(s),
    ensures
        digits_val(s.take(i)) <= digits_val(s),
    decreases s.len() - i,
{
    if i == s.len() {
        assert(s.take(i) =~= s);
    } else {
        let p = s.take(i);
        let q = s.take(i + 1);
        assert(q.drop_last() =~= p);
        assert(q.last() == s[i]);
        assert(all_digits(p)) by {
            assert(forall|k: int| 0 <= k < i ==> p[k] == s[k]);
        }
        lemma_digits_val_nonneg(p);
        assert(digits_val(q) == digits_val(p) * 10 + digit_val(s[i]));
        assert(digits_val(p) * 10 >= digits_val(p));
        assert(is_digit(s[i]));
        assert(digit_val(s[i]) >= 0);
        lemma_digits_val_prefix(s, i + 1);
    }
}

/// Parses a workspace display name as a decimal integer identifier: an
/// optional single sign, then one or more ASCII digits, value within range.
/// Returns `None` for every name of any other shape.
pub fn parse_workspace_id(name: &str) -> (r: Option<i32>)
    ensures
        r == parse_i32_spec(name@),
{
    let n = name.unicode_len();
    if n == 0 {
        return None;
    }
    let c0 = name.get_char(0);
    let neg = c0 == '-';
    let has_sign = c0 == '-' || c0 == '+';
    let start: usize = if has_sign {
        1
    } else {
        0
    };
    let ghost ds = if has_sign {
        name@.drop_first()
    } else {
        name@
    };
    proof {
        assert(ds =~= name@.subrange(start as int, n as int));
    }
    if n == start {
        return None;
    }
    let mut i: usize = start;
    let mut acc: u64 = 0;
    while i < n
        invariant
            start <= i <= n,
            1 <= n == name@.len(),
            neg == (name@[0] == '-'),
            has_sign == (name@[0] == '-' || name@[0] == '+'),
            start == if has_sign {
                1usize
            } else {
                0usize
            },
            start < n,
            ds == name@.subrange(start as int, n as int),
            acc == digits_val(name@.subrange(start as int, i as int)),
            acc <= 0x8000_0000,
            forall|k: int| start <= k < i ==> is_digit(name@[k]),
        decreases n - i,
    {
        let c = name.get_char(i);
        let u = c as u32;
        if u < 0x30 || u > 0x39 {
            proof {
                assert(0 <= i as int - start as int);
                assert((i as int - start as int) < ds.len());
                assert(ds[i as int - start as int] == name@[i as int]);
                assert(!is_digit(name@[i as int]));
                assert(!all_digits(ds));
            }
            return None;
        }
        let ghost prefix = name@.subrange(start as int, i as int);
        let d: u64 = (u - 0x30) as u64;
        acc = acc * 10 + d;
        proof {
            let next = name@.subrange(start as int, i as int + 1);
            assert(next.drop_last() =~= prefix);
            assert(next.last() == name@[i as int]);
            assert(digits_val(next) == digits_val(prefix) * 10 + digit_val(name@[i as int]));
        }
        i += 1;
        if acc > 0x8000_0000 {
            proof {
                if all_digits(ds) {
                    assert(ds.take(i as int - start as int) =~= name@.subrange(
                        start as int,
                        i as int,
                    ));
                    lemma_digits_val_prefix(ds, i as int - start as int);
                    assert(digits_val(ds) > 0x8000_0000);
                    assert(name@.subrange(0, n as int) =~= name@);
                    assert(parse_i32_spec(name@) is None);
                } else {
                    assert(name@.subrange(0, n as int) =~= name@);
                    assert(parse_i32_spec(name@) is None);
                }
            }
            return None;
        }
    }
    proof {
        assert(name@.subrange(start as int, n as int) =~= ds);
        assert(all_digits(ds)) by {
            assert(forall|k: int| 0 <= k < ds.len() ==> ds[k] == name@[k + start]);
        }
        assert(acc == digits_val(ds));
    }
    if neg {
        let v: i64 = -(acc as i64);
        return Some(v as i32);
    }
    if acc > 0x7FFF_FFFF {
        return None;
    }
    Some(acc as i32)
}

} // verus!
