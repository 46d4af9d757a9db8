//! Account addresses.

use vstd::prelude::*;

verus! {

/// The 32-byte address of an account.
#[derive(Clone, Copy, Debug)]
pub struct Pubkey {
    pub bytes: [u8; 32],
}

/// `a` comes before `b` in lexicographic order: at the first place where they differ, the
/// byte of `a` is the smaller one.
pub open spec fn lex_less(a: Seq<u8>, b: Seq<u8>) -> bool {
    exists|i: int|
        0 <= i < 32 && #[trigger] a[i] < b[i] && (forall|j: int| 0 <= j < i ==> a[j] == b[j])
}

/// The address made of zero bytes only, which no account has.
pub open spec fn is_default_key(key: Pubkey) -> bool {
    forall|i: int| 0 <= i < 32 ==> key.bytes@[i] == 0
}

impl PartialEq for Pubkey {
    fn eq(&self, other: &Self) -> (r: bool) {
        let mut i: usize = 0;
        while i < 32
            invariant
                i <= 32,
                forall|j: int| 0 <= j < i ==> self.bytes@[j] == other.bytes@[j],
            decreases 32 - i,
        {
            if self.bytes[i] != other.bytes[i] {
                return false;
            }
            i = i + 1;
        }
        assert(self.bytes@ =~= other.bytes@);
        assert(self.bytes =~= other.bytes);
        true
    }
}

impl vstd::std_specs::cmp::PartialEqSpecImpl for Pubkey {
    open spec fn obeys_eq_spec() -> bool {
        true
    }

    open spec fn eq_spec(&self, other: &Self) -> bool {
        *self == *other
    }
}

impl Eq for Pubkey {

}

impl Default for Pubkey {
    fn default() -> (r: Self)
        ensures
            is_default_key(r),
    {
        Pubkey { bytes: [0; 32] }
    }
}

impl Pubkey {
    /// Whether this address comes before `other` in byte order.
    pub fn less_than(&self, other: &Pubkey) -> (r: bool)
        ensures
            r == lex_less(self.bytes@, other.bytes@),
    {
        let mut i: usize = 0;
        while i < 32
            invariant
                i <= 32,
                forall|j: int| 0 <= j < i ==> self.bytes@[j] == other.bytes@[j],
            decreases 32 - i,
        {
            if self.bytes[i] < other.bytes[i] {
                return true;
            }
            if self.bytes[i] > other.bytes[i] {
                return false;
            }
            i = i + 1;
        }
        false
    }

    /// Whether this is the address of zero bytes.
    pub fn is_default(&self) -> (r: bool)
        ensures
            r == is_default_key(*self),
    {
        let mut i: usize = 0;
        while i < 32
            invariant
                i <= 32,
                forall|j: int| 0 <= j < i ==> self.bytes@[j] == 0,
            decreases 32 - i,
        {
            if self.bytes[i] != 0 {
                return false;
            }
            i = i + 1;
        }
        true
    }
}

/// No two addresses come before one another: of a pair of mints only one order is sorted.
pub proof fn law_order_is_antisymmetric(a: Seq<u8>, b: Seq<u8>)
    requires
        lex_less(a, b),
    ensures
        !lex_less(b, a),
        a != b,
{
    let i = choose|i: int|
        0 <= i < 32 && #[trigger] a[i] < b[i] && (forall|j: int| 0 <= j < i ==> a[j] == b[j]);
    if lex_less(b, a) {
        let k = choose|k: int|
            0 <= k < 32 && #[trigger] b[k] < a[k] && (forall|j: int| 0 <= j < k ==> b[j] == a[j]);
        assert(i < k || k < i || i == k);
    }
}

/// Two different addresses are sorted one way or the other.
pub proof fn law_order_is_total(a: Pubkey, b: Pubkey)
    requires
        a != b,
    ensures
        lex_less(a.bytes@, b.bytes@) || lex_less(b.bytes@, a.bytes@),
{
    if forall|j: int| 0 <= j < 32 ==> a.bytes@[j] == b.bytes@[j] {
        assert(a.bytes@ =~= b.bytes@);
        assert(a.bytes =~= b.bytes);
    } else {
        lemma_first_difference(a.bytes@, b.bytes@, 0);
    }
}

proof fn lemma_first_difference(a: Seq<u8>, b: Seq<u8>, i: int)
    requires
        0 <= i < 32,
        forall|j: int| 0 <= j < i ==> a[j] == b[j],
        exists|j: int| i <= j < 32 && a[j] != b[j],
    ensures
        lex_less(a, b) || lex_less(b, a),
    decreases 32 - i,
{
    if a[i] == b[i] {
        lemma_first_difference(a, b, i + 1);
    }
}

} // verus!
