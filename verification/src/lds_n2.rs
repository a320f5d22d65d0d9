//! Point generator on the n-sphere by the cylindrical coordinate method.
//!
//! A generator over m bases is a chain: its own scalar sequence for the
//! outermost coordinate and an inner generator over the remaining m - 1
//! bases, ending in a circle generator for the last base.  Each draw
//! produces one fraction per base, outermost first.

use vstd::prelude::*;

verus! {

use crate::lds::Circle;
use crate::lds::ConfigError;
use crate::lds::Frac;
use crate::lds::VdCorput;
use crate::lds::vdc_den;
use crate::lds::vdc_num;

/// The inner generator of a [`CylinN`]: a circle for the two-base case,
/// another chain link otherwise.
#[derive(Debug)]
enum CylinVariant {
    For2(Box<Circle>),
    ForN(Box<CylinN>),
}

/// Point generator on the n-sphere in cylindrical coordinates.
#[derive(Debug)]
pub struct CylinN {
    vdc: VdCorput,
    c_gen: CylinVariant,
}

impl CylinN {
    /// The base of each scalar draw, outermost coordinate first.
    pub closed spec fn bases(self) -> Seq<nat>
        decreases self,
    {
        match self.c_gen {
            CylinVariant::For2(c) => seq![self.vdc.base(), (*c).base()],
            CylinVariant::ForN(g) => seq![self.vdc.base()] + (*g).bases(),
        }
    }

    /// The position of each scalar draw, outermost coordinate first.
    pub closed spec fn counts(self) -> Seq<nat>
        decreases self,
    {
        match self.c_gen {
            CylinVariant::For2(c) => seq![self.vdc.count(), (*c).count()],
            CylinVariant::ForN(g) => seq![self.vdc.count()] + (*g).counts(),
        }
    }

    /// The chain has at least two links at every level.
    pub closed spec fn chain_ok(self) -> bool
        decreases self,
    {
        match self.c_gen {
            CylinVariant::For2(_) => true,
            CylinVariant::ForN(g) => (*g).chain_ok() && (*g).bases().len() >= 2,
        }
    }

    /// The chain is complete and every base can carry digits.
    pub open spec fn wf(self) -> bool {
        &&& self.chain_ok()
        &&& self.counts().len() == self.bases().len()
        &&& self.bases().len() >= 2
        &&& forall|i: int| 0 <= i < self.bases().len() ==> self.bases()[i] >= 2
    }

    /// Sequence lengths agree at every level of the chain.
    proof fn lemma_counts_len(self)
        ensures
            self.counts().len() == self.bases().len(),
        decreases self,
    {
        match self.c_gen {
            CylinVariant::For2(_) => {},
            CylinVariant::ForN(g) => {
                (*g).lemma_counts_len();
            },
        }
    }

    /// Creates a generator with one coordinate pair per entry of `base`.
    pub fn new(base: &[usize]) -> (r: Result<Self, ConfigError>)
        ensures
            base@.len() < 2 ==> (r matches Err(e) && e == ConfigError::TooFewBases),
            base@.len() >= 2 && (exists|i: int| 0 <= i < base@.len() && base@[i] < 2) ==> (
            r matches Err(e) && e == ConfigError::BaseTooSmall),
            base@.len() >= 2 && (forall|i: int| 0 <= i < base@.len() ==> base@[i] >= 2) ==> (
            r matches Ok(g) && g.wf() && g.bases().len() == base@.len()
                && (forall|i: int| 0 <= i < base@.len() ==> g.bases()[i] == base@[i])
                && (forall|i: int| 0 <= i < base@.len() ==> g.counts()[i] == 0)),
    {
        if base.len() < 2 {
            return Err(ConfigError::TooFewBases);
        }
        let n: usize = base.len();
        let mut i: usize = 0;
        while i < n
            invariant
                i <= n,
                n >= 2,
                n == base@.len(),
                forall|j: int| 0 <= j < i ==> base@[j] >= 2,
            decreases n - i,
        {
            if base[i] < 2 {
                return Err(ConfigError::BaseTooSmall);
            }
            i = i + 1;
        }
        Ok(Self::build(base, 0))
    }

    /// Builds the chain for `base[start..]`.
    fn build(base: &[usize], start: usize) -> (r: Self)
        requires
            start + 2 <= base@.len(),
            forall|i: int| start <= i < base@.len() ==> base@[i] >= 2,
        ensures
            r.wf(),
            r.bases().len() == base@.len() - start,
            forall|i: int| 0 <= i < r.bases().len() ==> r.bases()[i] == base@[start + i],
            forall|i: int| 0 <= i < r.counts().len() ==> r.counts()[i] == 0,
        decreases base@.len() - start,
    {
        let vdc = VdCorput::from_base(base[start]);
        if base.len() - start == 2 {
            let c = Circle::from_base(base[start + 1]);
            let r = CylinN { vdc, c_gen: CylinVariant::For2(Box::new(c)) };
            proof {
                assert(r.bases() =~= Seq::new(2, |i: int| base@[start + i] as nat));
            }
            r
        } else {
            let inner = Self::build(base, start + 1);
            let r = CylinN { vdc, c_gen: CylinVariant::ForN(Box::new(inner)) };
            proof {
                assert forall|i: int| 0 <= i < r.bases().len() implies r.bases()[i] == base@[start
                    + i] by {
                    if i > 0 {
                        assert(r.bases()[i] == inner.bases()[i - 1]);
                    }
                }
                r.lemma_counts_len();
            }
            r
        }
    }

    /// Draws the next point: one fraction per base, outermost first.
    pub fn pop(&mut self) -> (r: Vec<Frac>)
        requires
            old(self).wf(),
            forall|i: int| 0 <= i < old(self).counts().len() ==> old(self).counts()[i]
                < usize::MAX,
        ensures
            final(self).wf(),
            final(self).bases() == old(self).bases(),
            final(self).counts().len() == old(self).counts().len(),
            forall|i: int| 0 <= i < old(self).counts().len()
                ==> final(self).counts()[i] == old(self).counts()[i] + 1,
            r@.len() == old(self).bases().len(),
            forall|i: int| 0 <= i < r@.len() ==> (#[trigger] r@[i]).num == vdc_num(
                (old(self).counts()[i] + 1) as nat,
                old(self).bases()[i],
            ) && r@[i].den == vdc_den((old(self).counts()[i] + 1) as nat, old(self).bases()[i]),
        decreases *old(self),
    {
        proof {
            assert(old(self).bases()[0] == old(self).vdc.base());
            assert(old(self).counts()[0] == old(self).vdc.count());
        }
        let v: Frac = self.vdc.pop();
        let mut out: Vec<Frac> = Vec::new();
        out.push(v);
        match &mut self.c_gen {
            CylinVariant::For2(c) => {
                proof {
                    assert(old(self).bases()[1] == (*old(self).c_gen->For2_0).base());
                    assert(old(self).counts()[1] == (*old(self).c_gen->For2_0).count());
                }
                let f: Frac = c.pop();
                out.push(f);
            },
            CylinVariant::ForN(g) => {
                proof {
                    let inner = *old(self).c_gen->ForN_0;
                    assert forall|i: int| 0 <= i < inner.bases().len() implies inner.bases()[i]
                        == old(self).bases()[i + 1] && inner.counts()[i] == old(self).counts()[i
                        + 1] by {}
                }
                let mut rest: Vec<Frac> = g.pop();
                out.append(&mut rest);
            },
        }
        proof {
            assert(self.bases() =~= old(self).bases());
            assert(self.counts().len() == old(self).counts().len()) by {
                self.lemma_counts_len();
                old(self).lemma_counts_len();
            }
        }
        out
    }
}

} // verus!
