//! Helpers on byte strings.
use vstd::prelude::*;

verus! {

/// The index of the last non-zero byte of `s`, if any.
pub open spec fn last_nonzero(s: Seq<u8>) -> Option<int>
    decreases s.len(),
{
    if s.len() == 0 {
        None
    } else if s.last() != 0 {
        Some(s.len() - 1)
    } else {
        last_nonzero(s.drop_last())
    }
}

/// `s` cut or padded with zeros to exactly `size` bytes.
pub open spec fn sized(s: Seq<u8>, size: nat) -> Seq<u8> {
    Seq::new(size, |i: int| if i < s.len() { s[i] } else { 0u8 })
}

/// Byte strings.
pub trait Bytes {
    /// The bytes as a sequence.
    spec fn bytes_view(&self) -> Seq<u8>;

    /// Drops the trailing zeros; a string with no non-zero byte is handed
    /// back whole.
    fn truncate_last(&self) -> (r: &Self)
        ensures
            last_nonzero(self.bytes_view()) matches Some(i) ==> r.bytes_view()
                == self.bytes_view().subrange(0, i + 1),
            last_nonzero(self.bytes_view()) is None ==> r.bytes_view() == self.bytes_view(),
    ;

    /// The first `size` bytes, padded with zeros where the string is
    /// shorter.
    fn to_sized(&self, size: usize) -> (r: Vec<u8>)
        ensures
            r@ == sized(self.bytes_view(), size as nat),
    ;
}

impl Bytes for [u8] {
    open spec fn bytes_view(&self) -> Seq<u8> {
        self@
    }

    fn truncate_last(&self) -> (r: &Self) {
        let mut n: usize = self.len();
        assert(self@.subrange(0, n as int) =~= self@);
        while n > 0
            invariant
                n <= self@.len(),
                forall|k: int| n <= k < self@.len() ==> self@[k] == 0,
                last_nonzero(self@) == last_nonzero(self@.subrange(0, n as int)),
            decreases n,
        {
            if self[n - 1] != 0 {
                let (head, _) = self.split_at(n);
                return head;
            }
            assert(self@.subrange(0, n - 1) =~= self@.subrange(0, n as int).drop_last());
            n = n - 1;
        }
        self
    }

    fn to_sized(&self, size: usize) -> (r: Vec<u8>) {
        let mut out: Vec<u8> = Vec::new();
        let mut i: usize = 0;
        while i < size
            invariant
                i <= size,
                out@ =~= sized(self@, i as nat),
            decreases size - i,
        {
            if i < self.len() {
                out.push(self[i]);
            } else {
                out.push(0);
            }
            i = i + 1;
        }
        out
    }
}

} // verus!
