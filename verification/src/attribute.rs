//! Element attributes: the ordered name/value bag handed over by the parser,
//! and parsing of integer attribute values.

use vstd::prelude::*;

verus! {

/// An ordered mapping from attribute names to raw string values, produced
/// externally for each element and read by `set_attributes`.
pub struct AttributeBag {
    pub entries: Vec<(String, String)>,
}

impl AttributeBag {
    /// The entries as a sequence of (name, value) character sequences, in
    /// document order.
    pub open spec fn entries_view(self) -> Seq<(Seq<char>, Seq<char>)> {
        Seq::new(self.entries@.len(), |i: int| (self.entries@[i].0@, self.entries@[i].1@))
    }

    /// An empty bag.
    pub fn new() -> (r: AttributeBag)
        ensures
            r.entries_view() == Seq::<(Seq<char>, Seq<char>)>::empty(),
    {
        let r = AttributeBag { entries: Vec::new() };
        proof {
            assert(r.entries_view() =~= Seq::<(Seq<char>, Seq<char>)>::empty());
        }
        r
    }

    /// Appends one attribute.
    pub fn push(&mut self, name: String, value: String)
        ensures
            final(self).entries_view() == old(self).entries_view().push((name@, value@)),
    {
        self.entries.push((name, value));
        proof {
            assert(final(self).entries_view() =~= old(self).entries_view().push(
                (name@, value@),
            ));
        }
    }

    /// The number of attributes.
    pub fn len(&self) -> (r: usize)
        ensures
            r == self.entries_view().len(),
    {
        self.entries.len()
    }
}

/// Whether `c` is an ASCII decimal digit.
pub open spec fn is_digit(c: char) -> bool {
    48 <= c as u32 && c as u32 <= 57
}

/// The numeric value of an ASCII decimal digit.
pub open spec fn digit_value(c: char) -> int {
    c as u32 - 48
}

/// Whether every character of `s` is an ASCII decimal digit.
pub open spec fn all_digits(s: Seq<char>) -> bool {
    forall|i: int| 0 <= i < s.len() ==> is_digit(s[i])
}

/// The value of a digit string read in base 10.
pub open spec fn digits_value(s: Seq<char>) -> int
    decreases s.len(),
{
    if s.len() == 0 {
        0
    } else {
        digits_value(s.drop_last()) * 10 + digit_value(s.last())
    }
}

/// The value denoted by the digit string `ds` under an optional leading
/// minus sign, provided it is non-empty, all digits, and fits an `i32`.
pub open spec fn parse_digits_signed(ds: Seq<char>, neg: bool) -> Option<i32> {
    if ds.len() == 0 || !all_digits(ds) {
        None
    } else {
        let v = if neg {
            -digits_value(ds)
        } else {
            digits_value(ds)
        };
        if i32::MIN <= v <= i32::MAX {
            Some(v as i32)
        } else {
            None
        }
    }
}

/// The integer denoted by `s`: an optional minus sign followed by one or
/// more ASCII decimal digits, in the range of `i32`.
pub open spec fn parse_i32_spec(s: Seq<char>) -> Option<i32> {
    if s.len() > 0 && s[0] == '-' {
        parse_digits_signed(s.skip(1), true)
    } else {
        parse_digits_signed(s, false)
    }
}

/// A digit string has a non-negative value.
proof fn lemma_digits_value_nonneg(s: Seq<char>)
    requires
        all_digits(s),
    ensures
        digits_value(s) >= 0,
    decreases s.len(),
{
    if s.len() > 0 {
        lemma_digits_value_nonneg(s.drop_last());
    }
}

/// The value of a digit string is at least the value of any of its prefixes.
proof fn lemma_digits_value_prefix(s: Seq<char>, k: int)
    requires
        all_digits(s),
        0 <= k <= s.len(),
    ensures
        digits_value(s.take(k)) <= digits_value(s),
    decreases s.len() - k,
{
    if k < s.len() {
        lemma_digits_value_nonneg(s.take(k));
        assert(s.take(k + 1).drop_last() =~= s.take(k));
        assert(digits_value(s.take(k + 1)) == digits_value(s.take(k)) * 10 + digit_value(
            s.take(k + 1).last(),
        ));
        lemma_digits_value_prefix(s, k + 1);
    } else {
        assert(s.take(k) =~= s);
    }
}

/// Parses an optional minus sign followed by ASCII decimal digits as an
/// `i32`; any other form, or a value out of range, is refused.
pub fn parse_i32(s: &str) -> (r: Option<i32>)
    ensures
        r == parse_i32_spec(s@),
{
    let n = s.unicode_len();
    let mut i: usize = 0;
    let mut neg = false;
    if n > 0 && s.get_char(0) == '-' {
        neg = true;
        i = 1;
    }
    let ghost ds = if neg {
        s@.skip(1)
    } else {
        s@
    };
    let ghost st = i as int;
    if i == n {
        return None;
    }
    let mut acc: u64 = 0;
    while i < n
        invariant
            st <= i <= n,
            n == s@.len(),
            neg == (s@.len() > 0 && s@[0] == '-'),
            st == (if neg {
                1int
            } else {
                0int
            }),
            ds == (if neg {
                s@.skip(1)
            } else {
                s@
            }),
            ds.len() == n - st,
            acc == digits_value(ds.take(i - st)),
            all_digits(ds.take(i - st)),
            acc <= 0x8000_0000,
        decreases n - i,
    {
        let c = s.get_char(i);
        let cu = c as u32;
        if cu < 48 || cu > 57 {
            proof {
                assert(ds[i - st] == c);
                assert(!all_digits(ds));
            }
            return None;
        }
        let d: u64 = (cu - 48) as u64;
        let acc2: u64 = acc * 10 + d;
        proof {
            assert(ds.take(i - st + 1).drop_last() =~= ds.take(i - st));
            assert(ds.take(i - st + 1).last() == ds[i - st]);
            assert(ds[i - st] == c);
            assert(acc2 == digits_value(ds.take(i - st + 1)));
        }
        if acc2 > 0x8000_0000 {
            proof {
                if all_digits(ds) {
                    lemma_digits_value_prefix(ds, i - st + 1);
                }
            }
            return None;
        }
        acc = acc2;
        i = i + 1;
    }
    proof {
        assert(ds.take(n - st) =~= ds);
    }
    if neg {
        let v: i64 = -(acc as i64);
        Some(v as i32)
    } else {
        if acc > 0x7fff_ffff {
            None
        } else {
            Some(acc as i32)
        }
    }
}

} // verus!
