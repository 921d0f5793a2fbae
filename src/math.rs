//! Grid positions and a counter of issued numbers.
use vstd::prelude::*;
use vstd::string::StringSliceAdditionalSpecFns;

verus! {

/// A position on the grid.
#[derive(Debug, Clone, Copy, PartialEq, Eq, Structural, Hash)]
pub struct Vector3 {
    pub x: i32,
    pub y: i32,
    pub z: i32,
}

impl Vector3 {
    pub fn new(x: i32, y: i32, z: i32) -> (r: Vector3)
        ensures
            r == (Vector3 { x, y, z }),
    {
        Vector3 { x, y, z }
    }

    pub fn zero() -> (r: Vector3)
        ensures
            r == (Vector3 { x: 0, y: 0, z: 0 }),
    {
        Vector3 { x: 0, y: 0, z: 0 }
    }

    /// Reads a position written as `x,y,z`; see [`position_text`].
    pub fn parse(text: &str) -> (r: Option<Vector3>)
        ensures
            r == position_text(text.spec_bytes()),
    {
        let s = text.as_bytes();
        let c1 = find_comma(s, 0);
        if c1 >= s.len() {
            return None;
        }
        let c2 = find_comma(s, c1 + 1);
        if c2 >= s.len() {
            return None;
        }
        let c3 = find_comma(s, c2 + 1);
        let x = parse_i32(s, 0, c1);
        let y = parse_i32(s, c1 + 1, c2);
        let z = parse_i32(s, c2 + 1, c3);
        match (x, y, z) {
            (Some(x), Some(y), Some(z)) => Some(Vector3 { x, y, z }),
            _ => None,
        }
    }
}

/// `b` is an ASCII decimal digit.
pub open spec fn is_digit(b: u8) -> bool {
    48 <= b <= 57
}

/// Every byte of `s` is a decimal digit.
pub open spec fn all_digits(s: Seq<u8>) -> bool {
    forall|i: int| 0 <= i < s.len() ==> is_digit(#[trigger] s[i])
}

/// The number that the decimal digits `s` write.
pub open spec fn digits_value(s: Seq<u8>) -> int
    decreases s.len(),
{
    if s.len() == 0 {
        0
    } else {
        digits_value(s.drop_last()) * 10 + (s.last() - 48)
    }
}

/// The integer that `s` writes: an optional `+` or `-`, then one or more
/// decimal digits.
pub open spec fn int_text(s: Seq<u8>) -> Option<int> {
    if s.len() > 0 && (s[0] == 45 || s[0] == 43) {
        let d = s.drop_first();
        if d.len() > 0 && all_digits(d) {
            Some(
                if s[0] == 45 {
                    -digits_value(d)
                } else {
                    digits_value(d)
                },
            )
        } else {
            None
        }
    } else if s.len() > 0 && all_digits(s) {
        Some(digits_value(s))
    } else {
        None
    }
}

/// The `i32` that `s` writes, if it writes one in range.
pub open spec fn i32_text(s: Seq<u8>) -> Option<i32> {
    match int_text(s) {
        Some(v) => if i32::MIN <= v <= i32::MAX {
            Some(v as i32)
        } else {
            None
        },
        None => None,
    }
}

/// The index of the first comma of `s` at or after `k`, or the length of
/// `s` where there is none.
pub open spec fn comma_from(s: Seq<u8>, k: int) -> int
    decreases s.len() - k,
{
    if k < 0 || k >= s.len() {
        s.len() as int
    } else if s[k] == 44 {
        k
    } else {
        comma_from(s, k + 1)
    }
}

/// The position that `s` writes as `x,y,z`: the first three comma-separated
/// fields, each an `i32`; further fields are ignored.
pub open spec fn position_text(s: Seq<u8>) -> Option<Vector3> {
    let c1 = comma_from(s, 0);
    let c2 = comma_from(s, c1 + 1);
    let c3 = comma_from(s, c2 + 1);
    if c1 >= s.len() || c2 >= s.len() {
        None
    } else {
        match (
            i32_text(s.subrange(0, c1)),
            i32_text(s.subrange(c1 + 1, c2)),
            i32_text(s.subrange(c2 + 1, c3)),
        ) {
            (Some(x), Some(y), Some(z)) => Some(Vector3 { x, y, z }),
            _ => None,
        }
    }
}

proof fn lemma_digits_prefix(s: Seq<u8>, k: int)
    requires
        all_digits(s),
        0 <= k <= s.len(),
    ensures
        0 <= digits_value(s.subrange(0, k)) <= digits_value(s),
    decreases s.len(),
{
    if k == s.len() {
        assert(s.subrange(0, k) =~= s);
        if s.len() > 0 {
            lemma_digits_prefix(s.drop_last(), k - 1);
        }
    } else {
        let t = s.drop_last();
        assert(all_digits(t)) by {
            assert forall|i: int| 0 <= i < t.len() implies is_digit(#[trigger] t[i]) by {
                assert(t[i] == s[i]);
            }
        }
        lemma_digits_prefix(t, k);
        assert(t.subrange(0, k) =~= s.subrange(0, k));
        lemma_digits_prefix(t, t.len() as int);
        assert(t.subrange(0, t.len() as int) =~= t);
        assert(is_digit(s[s.len() - 1]));
    }
}

/// Where the first comma of `s` at or after `k` stands; see [`comma_from`].
fn find_comma(s: &[u8], k: usize) -> (r: usize)
    requires
        k <= s@.len(),
    ensures
        r == comma_from(s@, k as int),
        k <= r <= s@.len(),
{
    let mut i: usize = k;
    while i < s.len() && s[i] != 44
        invariant
            k <= i <= s@.len(),
            comma_from(s@, k as int) == comma_from(s@, i as int),
        decreases s@.len() - i,
    {
        i = i + 1;
    }
    i
}

/// The `i32` that `s[from..to]` writes; see [`i32_text`].
fn parse_i32(s: &[u8], from: usize, to: usize) -> (r: Option<i32>)
    requires
        from <= to <= s@.len(),
    ensures
        r == i32_text(s@.subrange(from as int, to as int)),
{
    let ghost t = s@.subrange(from as int, to as int);
    if from == to {
        return None;
    }
    let negative = s[from] == 45;
    let start = if s[from] == 45 || s[from] == 43 {
        from + 1
    } else {
        from
    };
    let ghost d = s@.subrange(start as int, to as int);
    proof {
        if start > from {
            assert(d =~= t.drop_first());
        } else {
            assert(d =~= t);
        }
    }
    if start == to {
        return None;
    }
    let mut v: i64 = 0;
    let mut i: usize = start;
    while i < to
        invariant
            from <= start <= i <= to <= s@.len(),
            d == s@.subrange(start as int, to as int),
            t == s@.subrange(from as int, to as int),
            t.len() > 0,
            d.len() > 0,
            negative == (t[0] == 45),
            start > from ==> d == t.drop_first() && (t[0] == 45 || t[0] == 43),
            start == from ==> d == t && !(t[0] == 45 || t[0] == 43),
            all_digits(s@.subrange(start as int, i as int)),
            v == digits_value(s@.subrange(start as int, i as int)),
            0 <= v <= 2147483648,
        decreases to - i,
    {
        let b = s[i];
        if b < 48 || b > 57 {
            assert(!is_digit(d[i - start]));
            return None;
        }
        let ghost before = s@.subrange(start as int, i as int);
        let next = v * 10 + (b - 48) as i64;
        assert(s@.subrange(start as int, i + 1).drop_last() =~= before);
        assert(all_digits(s@.subrange(start as int, i + 1))) by {
            assert forall|j: int| 0 <= j < i + 1 - start implies is_digit(
                #[trigger] s@.subrange(start as int, i + 1)[j],
            ) by {
                if j < i - start {
                    assert(s@.subrange(start as int, i + 1)[j] == before[j]);
                }
            }
        }
        if next > 2147483648 {
            proof {
                if all_digits(d) {
                    lemma_digits_prefix(d, i + 1 - start);
                    assert(d.subrange(0, i + 1 - start) =~= s@.subrange(start as int, i + 1));
                }
            }
            return None;
        }
        v = next;
        i = i + 1;
    }
    assert(s@.subrange(start as int, to as int) =~= d);
    if negative {
        Some((-v) as i32)
    } else if v > 2147483647 {
        None
    } else {
        Some(v as i32)
    }
}

/// Hands out 1, 2, 3, ... in turn.
pub struct AutoIncrement {
    value: i32,
}

impl AutoIncrement {
    /// The last number handed out, 0 before the first.
    pub closed spec fn last(&self) -> int {
        self.value as int
    }

    pub fn new() -> (r: AutoIncrement)
        ensures
            r.last() == 0,
    {
        AutoIncrement { value: 0 }
    }

    /// The next number: one more than the last one handed out.
    pub fn take(&mut self) -> (r: i32)
        requires
            old(self).last() < i32::MAX,
        ensures
            r == old(self).last() + 1,
            final(self).last() == r,
    {
        self.value = self.value + 1;
        self.value
    }
}

} // verus!
