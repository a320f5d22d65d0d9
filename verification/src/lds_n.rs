//! Halton point generator for a chosen number of dimensions.

use vstd::prelude::*;

verus! {

use crate::lds::ConfigError;
use crate::lds::Frac;
use crate::lds::VdCorput;
use crate::lds::vdc_den;
use crate::lds::vdc_num;

/// Halton point generator over `n` dimensions: one Van der Corput sequence
/// per coordinate.
#[derive(Debug)]
pub struct HaltonN {
    vdcs: Vec<VdCorput>,
}

impl HaltonN {
    /// The base of each coordinate, in order.
    pub closed spec fn bases(self) -> Seq<nat> {
        self.vdcs@.map_values(|v: VdCorput| v.base())
    }

    /// The position of each coordinate, in order.
    pub closed spec fn counts(self) -> Seq<nat> {
        self.vdcs@.map_values(|v: VdCorput| v.count())
    }

    /// Every coordinate carries a valid base, and there is one position per
    /// coordinate.
    pub open spec fn wf(self) -> bool {
        &&& self.counts().len() == self.bases().len()
        &&& forall|i: int| 0 <= i < self.bases().len() ==> self.bases()[i] >= 2
    }

    /// Creates a generator over the first `n` entries of `base`.
    pub fn new(n: usize, base: &[usize]) -> (r: Result<Self, ConfigError>)
        requires
            n <= base@.len(),
        ensures
            (forall|i: int| 0 <= i < n ==> base@[i] >= 2) ==> (r matches Ok(g) && g.wf()
                && g.bases().len() == n && g.counts().len() == n
                && (forall|i: int| 0 <= i < n ==> g.bases()[i] == base@[i])
                && (forall|i: int| 0 <= i < n ==> g.counts()[i] == 0)),
            (exists|i: int| 0 <= i < n && base@[i] < 2) ==> (r matches Err(e)
                && e == ConfigError::BaseTooSmall),
    {
        let mut vdcs: Vec<VdCorput> = Vec::new();
        let mut i: usize = 0;
        while i < n
            invariant
                i <= n,
                n <= base@.len(),
                vdcs@.len() == i,
                forall|j: int| 0 <= j < i ==> base@[j] >= 2,
                forall|j: int| 0 <= j < i ==> #[trigger] vdcs@[j].base() == base@[j],
                forall|j: int| 0 <= j < i ==> #[trigger] vdcs@[j].count() == 0,
            decreases n - i,
        {
            if base[i] < 2 {
                return Err(ConfigError::BaseTooSmall);
            }
            vdcs.push(VdCorput::from_base(base[i]));
            i = i + 1;
        }
        Ok(HaltonN { vdcs })
    }

    /// Draws the next point: one fraction per coordinate.
    pub fn pop_vec(&mut self) -> (r: Vec<Frac>)
        requires
            old(self).wf(),
            forall|i: int| 0 <= i < old(self).counts().len() ==> old(self).counts()[i]
                < usize::MAX,
        ensures
            final(self).wf(),
            final(self).bases() == old(self).bases(),
            final(self).counts().len() == old(self).counts().len(),
            forall|i: int| 0 <= i < old(self).counts().len()
                ==> final(self).counts()[i] == old(self).counts()[i] + 1,
            r@.len() == old(self).bases().len(),
            forall|i: int| 0 <= i < r@.len() ==> (#[trigger] r@[i]).num == vdc_num(
                (old(self).counts()[i] + 1) as nat,
                old(self).bases()[i],
            ) && r@[i].den == vdc_den((old(self).counts()[i] + 1) as nat, old(self).bases()[i]),
    {
        let n: usize = self.vdcs.len();
        proof {
            assert forall|j: int| 0 <= j < n implies (#[trigger] old(self).vdcs@[j]).base() >= 2
                && old(self).vdcs@[j].count() < usize::MAX by {
                assert(old(self).bases()[j] == old(self).vdcs@[j].base());
                assert(old(self).counts()[j] == old(self).vdcs@[j].count());
            }
        }
        let mut res: Vec<Frac> = Vec::new();
        let mut i: usize = 0;
        while i < n
            invariant
                i <= n,
                n == self.vdcs@.len(),
                self.vdcs@.len() == old(self).vdcs@.len(),
                res@.len() == i,
                forall|j: int| i <= j < n ==> self.vdcs@[j] == old(self).vdcs@[j],
                forall|j: int| 0 <= j < n ==> (#[trigger] old(self).vdcs@[j]).base() >= 2,
                forall|j: int| 0 <= j < n ==> (#[trigger] old(self).vdcs@[j]).count() < usize::MAX,
                forall|j: int| 0 <= j < i ==> (#[trigger] self.vdcs@[j]).base() == old(
                    self,
                ).vdcs@[j].base(),
                forall|j: int| 0 <= j < i ==> (#[trigger] self.vdcs@[j]).count() == old(
                    self,
                ).vdcs@[j].count() + 1,
                forall|j: int| 0 <= j < i ==> (#[trigger] res@[j]).num == vdc_num(
                    (old(self).vdcs@[j].count() + 1) as nat,
                    old(self).vdcs@[j].base(),
                ) && res@[j].den == vdc_den(
                    (old(self).vdcs@[j].count() + 1) as nat,
                    old(self).vdcs@[j].base(),
                ),
            decreases n - i,
        {
            let f: Frac = self.vdcs[i].pop();
            res.push(f);
            i = i + 1;
        }
        proof {
            assert(self.bases() =~= old(self).bases());
        }
        res
    }

    /// Repositions every coordinate to `seed`.
    pub fn reseed(&mut self, seed: usize)
        ensures
            final(self).wf() == old(self).wf(),
            final(self).bases() == old(self).bases(),
            final(self).counts().len() == old(self).counts().len(),
            forall|i: int| 0 <= i < old(self).counts().len() ==> final(self).counts()[i] == seed,
    {
        let n: usize = self.vdcs.len();
        let mut i: usize = 0;
        while i < n
            invariant
                i <= n,
                n == self.vdcs@.len(),
                self.vdcs@.len() == old(self).vdcs@.len(),
                forall|j: int| i <= j < n ==> self.vdcs@[j] == old(self).vdcs@[j],
                forall|j: int| 0 <= j < i ==> (#[trigger] self.vdcs@[j]).base() == old(
                    self,
                ).vdcs@[j].base(),
                forall|j: int| 0 <= j < i ==> (#[trigger] self.vdcs@[j]).count() == seed,
            decreases n - i,
        {
            self.vdcs[i].reseed(seed);
            i = i + 1;
        }
        proof {
            assert(self.bases() =~= old(self).bases());
        }
    }
}

} // verus!
