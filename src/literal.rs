use vstd::prelude::*;
use vstd::string::StrSliceExecFns;

verus! {

/// A value type whose literals can be read from a token.
pub trait Literal: Sized {
    /// The value that `text` denotes, or `None` when `text` is no literal.
    spec fn literal(text: Seq<char>) -> Option<Self>;

    fn parse_literal(text: &str) -> (r: Option<Self>)
        ensures
            r == Self::literal(text@),
    ;
}

pub open spec fn is_digit(c: char) -> bool {
    '0' <= c <= '9'
}

pub open spec fn all_digits(s: Seq<char>) -> bool {
    forall|i: int| 0 <= i < s.len() ==> is_digit(#[trigger] s[i])
}

/// The number that a run of decimal digits spells, most significant first.
pub open spec fn decimal_value(s: Seq<char>) -> nat
    decreases s.len(),
{
    if s.len() == 0 {
        0
    } else {
        decimal_value(s.drop_last()) * 10 + (s.last() as nat - '0' as nat) as nat
    }
}

/// A decimal integer: an optional `+` or `-`, then one or more digits.
pub open spec fn decimal_integer(s: Seq<char>) -> Option<int> {
    if s.len() > 0 && (s[0] == '+' || s[0] == '-') {
        let digits = s.drop_first();
        if digits.len() > 0 && all_digits(digits) {
            if s[0] == '-' {
                Some(-decimal_value(digits))
            } else {
                Some(decimal_value(digits) as int)
            }
        } else {
            None
        }
    } else if s.len() > 0 && all_digits(s) {
        Some(decimal_value(s) as int)
    } else {
        None
    }
}

proof fn lemma_decimal_value_grows(s: Seq<char>, k: int)
    requires
        0 <= k <= s.len(),
        all_digits(s),
    ensures
        decimal_value(s.take(k)) <= decimal_value(s),
    decreases s.len() - k,
{
    if k == s.len() {
        assert(s.take(k) == s);
    } else {
        lemma_decimal_value_grows(s, k + 1);
        let t = s.take(k + 1);
        assert(t.drop_last() == s.take(k));
        assert(t.last() == s[k]);
        assert(is_digit(s[k]));
        assert(decimal_value(t) == decimal_value(s.take(k)) * 10 + (s[k] as nat - '0' as nat) as nat);
    }
}

impl Literal for i32 {
    open spec fn literal(text: Seq<char>) -> Option<i32> {
        match decimal_integer(text) {
            Some(v) => if i32::MIN <= v <= i32::MAX {
                Some(v as i32)
            } else {
                None
            },
            None => None,
        }
    }

    fn parse_literal(text: &str) -> (r: Option<i32>) {
        let n = text.unicode_len();
        if n == 0 {
            return None;
        }
        let first = text.get_char(0);
        let negative = first == '-';
        let start: usize = if first == '+' || first == '-' { 1 } else { 0 };
        if start == n {
            return None;
        }
        let ghost digits = text@.subrange(start as int, n as int);
        assert(start == 1 ==> digits == text@.drop_first());
        assert(start == 0 ==> digits == text@);
        let limit: i64 = 2147483648;
        let mut acc: i64 = 0;
        let mut i: usize = start;
        while i < n
            invariant
                start <= i <= n,
                start < n,
                n == text@.len(),
                negative == (text@[0] == '-'),
                start == 1 <==> (text@[0] == '+' || text@[0] == '-'),
                start == 0 || start == 1,
                start == 1 ==> digits == text@.drop_first(),
                start == 0 ==> digits == text@,
                digits == text@.subrange(start as int, n as int),
                all_digits(text@.subrange(start as int, i as int)),
                acc == decimal_value(text@.subrange(start as int, i as int)),
                acc <= limit,
                limit == 2147483648,
            decreases n - i,
        {
            let c = text.get_char(i);
            if c < '0' || c > '9' {
                assert(!all_digits(digits)) by {
                    assert(digits[i - start] == c);
                }
                return None;
            }
            let d = (c as u32 - '0' as u32) as i64;
            proof {
                let prev = text@.subrange(start as int, i as int);
                let next = text@.subrange(start as int, i as int + 1);
                assert(next.drop_last() == prev);
                assert forall|j: int| 0 <= j < next.len() implies is_digit(#[trigger] next[j]) by {
                    if j < prev.len() {
                        assert(next[j] == prev[j]);
                    }
                }
            }
            acc = acc * 10 + d;
            if acc > limit {
                proof {
                    let next = text@.subrange(start as int, i as int + 1);
                    if all_digits(digits) {
                        assert(digits.take(i + 1 - start) == next);
                        lemma_decimal_value_grows(digits, i + 1 - start);
                    }
                }
                return None;
            }
            i = i + 1;
        }
        assert(digits == text@.subrange(start as int, i as int));
        if negative {
            Some((0 - acc) as i32)
        } else if acc < limit {
            Some(acc as i32)
        } else {
            None
        }
    }
}

} // verus!
