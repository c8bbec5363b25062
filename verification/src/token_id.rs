//! Token identifiers: arbitrary-precision non-negative integers, held as
//! base-2^64 limbs, most significant limb first, with no leading zero limb.

use vstd::prelude::*;

verus! {

use vstd::arithmetic::power::{pow, lemma_pow_positive, lemma_pow_increases};

/// The base of one limb: 2^64.
pub open spec fn limb_base() -> int {
    0x1_0000_0000_0000_0000
}

/// The non-negative integer denoted by a big-endian limb sequence.
pub open spec fn limbs_value(s: Seq<u64>) -> nat
    decreases s.len(),
{
    if s.len() == 0 {
        0
    } else {
        (limbs_value(s.drop_last()) * limb_base() + s.last()) as nat
    }
}

/// A unique, permanent key for a minted asset: an arbitrary-precision
/// non-negative integer.
#[derive(Debug, PartialEq, Eq)]
pub struct TokenIdentifier {
    limbs: Vec<u64>,
}

impl View for TokenIdentifier {
    type V = nat;

    closed spec fn view(&self) -> nat {
        limbs_value(self.limbs@)
    }
}

impl TokenIdentifier {
    #[verifier::type_invariant]
    closed spec fn inv(&self) -> bool {
        self.limbs@.len() > 0 ==> self.limbs@[0] != 0
    }

    /// The identifier with a given machine-word value.
    pub fn from_u64(v: u64) -> (r: TokenIdentifier)
        ensures
            r@ == v,
    {
        let mut limbs: Vec<u64> = Vec::new();
        if v != 0 {
            limbs.push(v);
        }
        proof {
            assert(limbs_value(Seq::<u64>::empty()) == 0);
            if v != 0 {
                assert(limbs@.drop_last() =~= Seq::<u64>::empty());
                assert(limbs_value(limbs@) == limbs_value(limbs@.drop_last()) * limb_base() + v);
            } else {
                assert(limbs@ =~= Seq::<u64>::empty());
            }
        }
        TokenIdentifier { limbs }
    }

    /// The identifier denoted by big-endian limbs, leading zero limbs
    /// allowed.
    pub fn from_limbs(limbs: Vec<u64>) -> (r: TokenIdentifier)
        ensures
            r@ == limbs_value(limbs@),
    {
        let n = limbs.len();
        let mut start: usize = 0;
        proof {
            assert(limbs@.skip(0) =~= limbs@);
        }
        while start < n && limbs[start] == 0
            invariant
                n == limbs@.len(),
                0 <= start <= n,
                limbs_value(limbs@.skip(start as int)) == limbs_value(limbs@),
            decreases n - start,
        {
            proof {
                lemma_strip_zero(limbs@.skip(start as int));
                assert(limbs@.skip(start as int).skip(1) =~= limbs@.skip(start as int + 1));
            }
            start = start + 1;
        }
        let mut out: Vec<u64> = Vec::new();
        let mut i: usize = start;
        while i < n
            invariant
                n == limbs@.len(),
                start <= i <= n,
                out@ =~= limbs@.subrange(start as int, i as int),
            decreases n - i,
        {
            out.push(limbs[i]);
            i = i + 1;
        }
        proof {
            assert(out@ =~= limbs@.skip(start as int));
        }
        TokenIdentifier { limbs: out }
    }

    /// The big-endian limbs denoting this identifier.
    pub fn limbs(&self) -> (r: &Vec<u64>)
        ensures
            limbs_value(r@) == self@,
    {
        &self.limbs
    }

    /// Strict numeric order on identifiers.
    pub fn lt(&self, other: &TokenIdentifier) -> (r: bool)
        ensures
            r == (self@ < other@),
    {
        proof {
            use_type_invariant(self);
            use_type_invariant(other);
        }
        let n = self.limbs.len();
        let m = other.limbs.len();
        if n < m {
            proof {
                lemma_value_lt_longer(self.limbs@, other.limbs@);
            }
            return true;
        }
        if m < n {
            proof {
                lemma_value_lt_longer(other.limbs@, self.limbs@);
            }
            return false;
        }
        let mut i: usize = 0;
        while i < n
            invariant
                n == self.limbs@.len(),
                n == other.limbs@.len(),
                0 <= i <= n,
                forall|j: int| 0 <= j < i ==> self.limbs@[j] == other.limbs@[j],
            decreases n - i,
        {
            let x = self.limbs[i];
            let y = other.limbs[i];
            if x < y {
                proof {
                    lemma_value_lt_at_index(self.limbs@, other.limbs@, i as int);
                }
                return true;
            }
            if y < x {
                proof {
                    lemma_value_lt_at_index(other.limbs@, self.limbs@, i as int);
                }
                return false;
            }
            i = i + 1;
        }
        proof {
            assert(self.limbs@ =~= other.limbs@);
        }
        false
    }

    /// Numeric equality of identifiers.
    pub fn eq_value(&self, other: &TokenIdentifier) -> (r: bool)
        ensures
            r == (self@ == other@),
    {
        !self.lt(other) && !other.lt(self)
    }
}

impl Clone for TokenIdentifier {
    /// A clone denotes the same integer.
    fn clone(&self) -> (r: TokenIdentifier)
        ensures
            r@ == self@,
    {
        proof {
            use_type_invariant(self);
        }
        let n = self.limbs.len();
        let mut limbs: Vec<u64> = Vec::new();
        let mut i: usize = 0;
        while i < n
            invariant
                n == self.limbs@.len(),
                0 <= i <= n,
                limbs@ =~= self.limbs@.subrange(0, i as int),
            decreases n - i,
        {
            limbs.push(self.limbs[i]);
            i = i + 1;
        }
        proof {
            assert(limbs@ =~= self.limbs@);
        }
        TokenIdentifier { limbs }
    }
}

/// A leading zero limb does not change the denoted value.
proof fn lemma_strip_zero(s: Seq<u64>)
    requires
        s.len() > 0,
        s[0] == 0,
    ensures
        limbs_value(s) == limbs_value(s.skip(1)),
{
    lemma_value_head(s);
}

/// The value of a limb sequence is below the base raised to its length.
proof fn lemma_value_upper(s: Seq<u64>)
    ensures
        limbs_value(s) < pow(limb_base(), s.len()),
    decreases s.len(),
{
    reveal(pow);
    if s.len() == 0 {
    } else {
        lemma_value_upper(s.drop_last());
        assert(pow(limb_base(), s.len()) == pow(limb_base(), (s.len() - 1) as nat) * limb_base());
        assert(limbs_value(s.drop_last()) * limb_base() + s.last()
            < (limbs_value(s.drop_last()) + 1) * limb_base()) by (nonlinear_arith)
            requires s.last() < limb_base();
        assert((limbs_value(s.drop_last()) + 1) * limb_base()
            <= pow(limb_base(), (s.len() - 1) as nat) * limb_base()) by (nonlinear_arith)
            requires limbs_value(s.drop_last()) + 1 <= pow(limb_base(), (s.len() - 1) as nat);
    }
}

/// Peeling the most significant limb off the front.
proof fn lemma_value_head(s: Seq<u64>)
    requires
        s.len() > 0,
    ensures
        limbs_value(s) == s[0] * pow(limb_base(), (s.len() - 1) as nat) + limbs_value(s.skip(1)),
    decreases s.len(),
{
    reveal(pow);
    if s.len() == 1 {
        assert(s.drop_last() =~= Seq::<u64>::empty());
        assert(s.skip(1) =~= Seq::<u64>::empty());
    } else {
        let d = s.drop_last();
        lemma_value_head(d);
        assert(d[0] == s[0]);
        assert(s.skip(1).drop_last() =~= d.skip(1));
        assert(s.skip(1).last() == s.last());
        let e = (d.len() - 1) as nat;
        assert(limbs_value(s) == (d[0] * pow(limb_base(), e) + limbs_value(d.skip(1))) * limb_base() + s.last());
        assert((s[0] * pow(limb_base(), e) + limbs_value(d.skip(1))) * limb_base()
            == s[0] * (pow(limb_base(), e) * limb_base()) + limbs_value(d.skip(1)) * limb_base())
            by (nonlinear_arith);
        assert(pow(limb_base(), e) * limb_base() == pow(limb_base(), (e + 1) as nat));
        assert(limbs_value(s.skip(1)) == limbs_value(d.skip(1)) * limb_base() + s.last());
    }
}

/// A normalized longer sequence denotes a strictly larger value.
proof fn lemma_value_lt_longer(a: Seq<u64>, b: Seq<u64>)
    requires
        a.len() < b.len(),
        b[0] != 0,
    ensures
        limbs_value(a) < limbs_value(b),
{
    lemma_value_upper(a);
    lemma_value_head(b);
    lemma_pow_positive(limb_base(), (b.len() - 1) as nat);
    assert(b[0] * pow(limb_base(), (b.len() - 1) as nat) >= pow(limb_base(), (b.len() - 1) as nat))
        by (nonlinear_arith)
        requires b[0] >= 1, pow(limb_base(), (b.len() - 1) as nat) > 0;
    lemma_pow_increases(limb_base() as nat, a.len(), (b.len() - 1) as nat);
}

/// Equal-length sequences that agree before index `i` and differ there
/// order by the limb at `i`.
proof fn lemma_value_lt_at_index(a: Seq<u64>, b: Seq<u64>, i: int)
    requires
        a.len() == b.len(),
        0 <= i < a.len(),
        forall|j: int| 0 <= j < i ==> a[j] == b[j],
        a[i] < b[i],
    ensures
        limbs_value(a) < limbs_value(b),
    decreases i,
{
    if i == 0 {
        lemma_value_head(a);
        lemma_value_head(b);
        lemma_value_upper(a.skip(1));
        let p = pow(limb_base(), (a.len() - 1) as nat);
        assert(a[0] * p + limbs_value(a.skip(1)) < b[0] * p + limbs_value(b.skip(1)))
            by (nonlinear_arith)
            requires a[0] < b[0], limbs_value(a.skip(1)) < p, p > 0, limbs_value(b.skip(1)) >= 0;
        lemma_pow_positive(limb_base(), (a.len() - 1) as nat);
    } else {
        lemma_value_head(a);
        lemma_value_head(b);
        assert(forall|j: int| 0 <= j < i - 1 ==> a.skip(1)[j] == b.skip(1)[j]);
        assert(a.skip(1)[i - 1] == a[i]);
        assert(b.skip(1)[i - 1] == b[i]);
        lemma_value_lt_at_index(a.skip(1), b.skip(1), i - 1);
    }
}

} // verus!
