//! An unsigned 256-bit integer built from two 128-bit limbs, with checked
//! (never wrapping, never saturating) addition and subtraction. Balances and
//! issuance figures of the asset ledger are values of this type.

use vstd::prelude::*;

verus! {

/// The value one past the top of a 128-bit limb, `2^128`.
pub open spec fn limb_bound() -> nat {
    (u128::MAX + 1) as nat
}

/// The largest value a [`Uint256`] can hold, `2^256 - 1`.
pub open spec fn max_val() -> nat {
    (limb_bound() * limb_bound() - 1) as nat
}

/// Every pair of limbs stands for a value within the representable range.
pub proof fn lemma_val_bounds()
    ensures
        forall|x: Uint256| #[trigger] x.val() <= max_val(),
{
    assert forall|x: Uint256| #[trigger] x.val() <= max_val() by {
        assert(x.lo + x.hi * limb_bound() <= limb_bound() * limb_bound() - 1) by (nonlinear_arith)
            requires
                x.lo <= limb_bound() - 1,
                x.hi <= limb_bound() - 1,
                limb_bound() > 0,
        ;
    }
}

/// The value order coincides with the lexicographic order on `(hi, lo)`.
pub proof fn lemma_lex_lt(a: Uint256, b: Uint256)
    ensures
        (a.val() < b.val()) == (a.hi < b.hi || (a.hi == b.hi && a.lo < b.lo)),
{
    assert((a.lo + a.hi * limb_bound() < b.lo + b.hi * limb_bound()) == (a.hi < b.hi || (a.hi
        == b.hi && a.lo < b.lo))) by (nonlinear_arith)
        requires
            a.lo < limb_bound(),
            b.lo < limb_bound(),
            a.hi >= 0,
            b.hi >= 0,
            a.lo >= 0,
            b.lo >= 0,
    ;
}

/// An unsigned 256-bit integer: `val == lo + hi * 2^128`.
#[derive(Clone, Copy, PartialEq, Eq, Structural, Debug)]
pub struct Uint256 {
    pub lo: u128,
    pub hi: u128,
}

impl Uint256 {
    /// The mathematical value this pair of limbs stands for.
    pub open spec fn val(self) -> nat {
        (self.lo + self.hi * limb_bound()) as nat
    }

    pub fn zero() -> (r: Uint256)
        ensures
            r.val() == 0,
    {
        Uint256 { lo: 0, hi: 0 }
    }

    pub fn one() -> (r: Uint256)
        ensures
            r.val() == 1,
    {
        Uint256 { lo: 1, hi: 0 }
    }

    pub fn from_u128(v: u128) -> (r: Uint256)
        ensures
            r.val() == v,
    {
        Uint256 { lo: v, hi: 0 }
    }

    pub fn max_value() -> (r: Uint256)
        ensures
            r.val() == max_val(),
    {
        let r = Uint256 { lo: u128::MAX, hi: u128::MAX };
        proof {
            assert(r.lo + r.hi * limb_bound() == limb_bound() * limb_bound() - 1)
                by (nonlinear_arith)
                requires
                    r.lo == limb_bound() - 1,
                    r.hi == limb_bound() - 1,
            ;
        }
        r
    }

    /// Checked addition: `Some` exactly when the sum is representable.
    pub fn checked_add(self, other: Uint256) -> (r: Option<Uint256>)
        ensures
            match r {
                Some(s) => {
                    &&& self.val() + other.val() <= max_val()
                    &&& s.val() == self.val() + other.val()
                },
                None => self.val() + other.val() > max_val(),
            },
    {
        let (lo, carry): (u128, u128) = if self.lo <= u128::MAX - other.lo {
            (self.lo + other.lo, 0)
        } else {
            (self.lo - (u128::MAX - other.lo) - 1, 1)
        };
        proof {
            assert(lo + carry * limb_bound() == self.lo + other.lo);
            assert(self.val() + other.val() == lo + (self.hi + other.hi + carry) * limb_bound())
                by (nonlinear_arith)
                requires
                    lo + carry * limb_bound() == self.lo + other.lo,
                    self.val() == self.lo + self.hi * limb_bound(),
                    other.val() == other.lo + other.hi * limb_bound(),
            ;
        }
        if self.hi <= u128::MAX - other.hi {
            let h = self.hi + other.hi;
            if carry == 1 && h == u128::MAX {
                proof {
                    lemma_val_bounds();
                    assert(lo + (h + carry) * limb_bound() > max_val()) by (nonlinear_arith)
                        requires
                            h + carry == limb_bound(),
                            max_val() == limb_bound() * limb_bound() - 1,
                            lo >= 0,
                    ;
                }
                None
            } else {
                let r = Uint256 { lo, hi: h + carry };
                proof {
                    lemma_val_bounds();
                }
                Some(r)
            }
        } else {
            proof {
                lemma_val_bounds();
                assert(lo + (self.hi + other.hi + carry) * limb_bound() > max_val())
                    by (nonlinear_arith)
                    requires
                        self.hi + other.hi + carry >= limb_bound(),
                        max_val() == limb_bound() * limb_bound() - 1,
                        lo >= 0,
                        limb_bound() > 0,
                ;
            }
            None
        }
    }

    /// Checked subtraction: `Some` exactly when no underflow occurs.
    pub fn checked_sub(self, other: Uint256) -> (r: Option<Uint256>)
        ensures
            match r {
                Some(s) => {
                    &&& other.val() <= self.val()
                    &&& s.val() == self.val() - other.val()
                },
                None => other.val() > self.val(),
            },
    {
        proof {
            lemma_lex_lt(self, other);
        }
        if other.hi > self.hi {
            None
        } else if other.hi == self.hi && other.lo > self.lo {
            None
        } else {
            if other.lo <= self.lo {
                let r = Uint256 { lo: self.lo - other.lo, hi: self.hi - other.hi };
                proof {
                    assert(r.lo + r.hi * limb_bound() == (self.lo + self.hi * limb_bound()) - (
                    other.lo + other.hi * limb_bound())) by (nonlinear_arith)
                        requires
                            r.lo == self.lo - other.lo,
                            r.hi == self.hi - other.hi,
                    ;
                }
                Some(r)
            } else {
                let r = Uint256 {
                    lo: self.lo + (u128::MAX - other.lo) + 1,
                    hi: self.hi - other.hi - 1,
                };
                proof {
                    assert(r.lo + r.hi * limb_bound() == (self.lo + self.hi * limb_bound()) - (
                    other.lo + other.hi * limb_bound())) by (nonlinear_arith)
                        requires
                            r.lo == self.lo - other.lo + limb_bound(),
                            r.hi == self.hi - other.hi - 1,
                    ;
                }
                Some(r)
            }
        }
    }

    /// Strict order on the values.
    pub fn lt(self, other: Uint256) -> (r: bool)
        ensures
            r == (self.val() < other.val()),
    {
        proof {
            lemma_lex_lt(self, other);
        }
        self.hi < other.hi || (self.hi == other.hi && self.lo < other.lo)
    }
}

} // verus!
