//! The dense node-coordinate cache: a flat array indexed by node id,
//! holding decimicro-degree pairs, grown on demand in whole pages.
//! The zero pair stands for "unknown".
use vstd::arithmetic::div_mod::lemma_fundamental_div_mod;
use vstd::prelude::*;

verus! {

/// A dense array of `(decimicro_lat, decimicro_lon)` pairs indexed by
/// node id, grown in whole pages of `page` entries.
pub struct CoordCache {
    /// The dense array of pairs, indexed by node id.
    pub entries: Vec<(i32, i32)>,
    /// The growth unit, in entries.
    pub page: usize,
}

impl CoordCache {
    /// The growth unit is at least one entry.
    pub open spec fn wf(self) -> bool {
        self.page >= 1
    }

    /// The number of entries the cache holds room for.
    pub open spec fn spec_len(self) -> nat {
        self.entries@.len()
    }

    /// The pair stored for `id`: the zero pair wherever nothing was set.
    pub open spec fn entry(self, id: int) -> (i32, i32) {
        if 0 <= id < self.entries@.len() {
            self.entries@[id]
        } else {
            (0, 0)
        }
    }

    /// A fresh, empty cache with the given page size in entries.
    pub fn new(page_entries: usize) -> (r: CoordCache)
        requires
            page_entries >= 1,
        ensures
            r.wf(),
            r.spec_len() == 0,
            forall|id: int| #[trigger] r.entry(id) == (0i32, 0i32),
            r.page == page_entries,
    {
        CoordCache { entries: Vec::new(), page: page_entries }
    }

    /// Read the pair stored for `id`; an id never written reads as the
    /// zero pair.
    pub fn get_lat_long(&self, id: usize) -> (r: (i32, i32))
        ensures
            r == self.entry(id as int),
    {
        if id < self.entries.len() {
            self.entries[id]
        } else {
            (0, 0)
        }
    }

    /// Store a pair for `id`, growing the array to the next page
    /// boundary when `id` lies beyond its end. Returns the old and new
    /// entry counts when it grew, to be reported by the caller.
    pub fn set_value_i32(&mut self, id: usize, lat: i32, lon: i32) -> (grown: Option<
        (usize, usize),
    >)
        requires
            old(self).wf(),
            id + old(self).page <= usize::MAX,
        ensures
            final(self).wf(),
            final(self).page == old(self).page,
            final(self).entry(id as int) == (lat, lon),
            forall|j: int| j != id ==> final(self).entry(j) == old(self).entry(j),
            final(self).spec_len() >= id + 1,
            match grown {
                Some(sizes) => old(self).spec_len() <= id && sizes.0 == old(self).spec_len()
                    && sizes.1 == final(self).spec_len() && sizes.1 % old(self).page == 0,
                None => id < old(self).spec_len() && final(self).spec_len() == old(
                    self,
                ).spec_len(),
            },
    {
        let res: Option<(usize, usize)>;
        if id >= self.entries.len() {
            let old_len = self.entries.len();
            let q: usize = (id + self.page) / self.page;
            proof {
                lemma_fundamental_div_mod((id + self.page) as int, self.page as int);
                assert(q * self.page as int <= id + self.page) by (nonlinear_arith)
                    requires
                        id + self.page as int == self.page as int * q + (id + self.page as int)
                            % self.page as int,
                        (id + self.page as int) % self.page as int >= 0,
                        q == q,
                ;
                assert(q * self.page as int >= id + 1) by (nonlinear_arith)
                    requires
                        id + self.page as int == self.page as int * q + (id + self.page as int)
                            % (self.page as int),
                        ((id + self.page as int) % (self.page as int)) < (self.page as int),
                ;
                assert((q * self.page as int) % self.page as int == 0) by (nonlinear_arith)
                    requires
                        self.page as int >= 1,
                ;
            }
            let needed: usize = q * self.page;
            while self.entries.len() < needed
                invariant
                    old(self).spec_len() <= self.entries@.len() <= needed,
                    self.page == old(self).page,
                    needed as int % self.page as int == 0,
                    needed >= id + 1,
                    id + self.page <= usize::MAX,
                    forall|j: int|
                        0 <= j < old(self).spec_len() ==> self.entries@[j] == old(
                            self,
                        ).entries@[j],
                    forall|j: int|
                        old(self).spec_len() <= j < self.entries@.len() ==> self.entries@[j] == (
                        0i32,
                        0i32,
                    ),
                decreases needed - self.entries.len(),
            {
                self.entries.push((0, 0));
            }
            res = Some((old_len, needed));
        } else {
            res = None;
        }
        self.entries.set(id, (lat, lon));
        res
    }
}

} // verus!
