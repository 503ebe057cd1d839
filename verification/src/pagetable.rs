use vstd::prelude::*;

verus! {

/// Width of one ownership page in bits. A page is read and written as a unit,
/// so membership updates touch exactly one page no matter how large the
/// collection grows. The width is a tunable, not part of the contract.
pub const PAGE_WIDTH: usize = 64;

/// Number of set bits in one page.
pub open spec fn popcount(page: Seq<bool>) -> int
    decreases page.len(),
{
    if page.len() == 0 {
        0
    } else {
        popcount(page.drop_last()) + if page.last() {
            1int
        } else {
            0int
        }
    }
}

/// Number of set bits across a whole page sequence.
pub open spec fn total_bits(pages: Seq<Seq<bool>>) -> int
    decreases pages.len(),
{
    if pages.len() == 0 {
        0
    } else {
        total_bits(pages.drop_last()) + popcount(pages.last())
    }
}

pub proof fn lemma_popcount_bounds(page: Seq<bool>)
    ensures
        0 <= popcount(page) <= page.len(),
    decreases page.len(),
{
    if page.len() > 0 {
        lemma_popcount_bounds(page.drop_last());
    }
}

pub proof fn lemma_popcount_update(page: Seq<bool>, k: int, b: bool)
    requires
        0 <= k < page.len(),
    ensures
        popcount(page.update(k, b)) == popcount(page) - (if page[k] {
            1int
        } else {
            0int
        }) + (if b {
            1int
        } else {
            0int
        }),
    decreases page.len(),
{
    let up = page.update(k, b);
    if k == page.len() - 1 {
        assert(up.drop_last() =~= page.drop_last());
        assert(up.last() == b);
    } else {
        assert(up.drop_last() =~= page.drop_last().update(k, b));
        assert(up.last() == page.last());
        lemma_popcount_update(page.drop_last(), k, b);
    }
}

pub proof fn lemma_popcount_pos(page: Seq<bool>, k: int)
    requires
        0 <= k < page.len(),
        page[k],
    ensures
        popcount(page) >= 1,
    decreases page.len(),
{
    if k == page.len() - 1 {
        lemma_popcount_bounds(page.drop_last());
    } else {
        lemma_popcount_pos(page.drop_last(), k);
    }
}

pub proof fn lemma_popcount_zero(page: Seq<bool>)
    requires
        forall|b: int| 0 <= b < page.len() ==> !page[b],
    ensures
        popcount(page) == 0,
    decreases page.len(),
{
    if page.len() > 0 {
        lemma_popcount_zero(page.drop_last());
    }
}

pub proof fn lemma_total_nonneg(pages: Seq<Seq<bool>>)
    ensures
        total_bits(pages) >= 0,
    decreases pages.len(),
{
    if pages.len() > 0 {
        lemma_total_nonneg(pages.drop_last());
        lemma_popcount_bounds(pages.last());
    }
}

pub proof fn lemma_total_update(pages: Seq<Seq<bool>>, p: int, np: Seq<bool>)
    requires
        0 <= p < pages.len(),
    ensures
        total_bits(pages.update(p, np)) == total_bits(pages) - popcount(pages[p]) + popcount(np),
    decreases pages.len(),
{
    let up = pages.update(p, np);
    if p == pages.len() - 1 {
        assert(up.drop_last() =~= pages.drop_last());
        assert(up.last() == np);
    } else {
        assert(up.drop_last() =~= pages.drop_last().update(p, np));
        assert(up.last() == pages.last());
        lemma_total_update(pages.drop_last(), p, np);
    }
}

pub proof fn lemma_total_ge_page(pages: Seq<Seq<bool>>, p: int)
    requires
        0 <= p < pages.len(),
    ensures
        total_bits(pages) >= popcount(pages[p]),
    decreases pages.len(),
{
    if p == pages.len() - 1 {
        lemma_total_nonneg(pages.drop_last());
    } else {
        lemma_total_ge_page(pages.drop_last(), p);
        lemma_popcount_bounds(pages.last());
    }
}

/// One owner's ownership index: a lazily grown array of fixed-width bit
/// pages plus a running count of set bits, so membership and balance queries
/// never rescan the pages.
#[derive(Debug)]
pub struct PageTable {
    pages: Vec<Vec<bool>>,
    count: u64,
}

impl PageTable {
    /// The pages as a sequence of bit sequences.
    pub closed spec fn spec_pages(self) -> Seq<Seq<bool>> {
        self.pages@.map_values(|p: Vec<bool>| p@)
    }

    /// Structural soundness: every page has the fixed width and the running
    /// count equals the number of set bits.
    pub closed spec fn wf(self) -> bool {
        &&& forall|p: int|
            0 <= p < self.spec_pages().len() ==> (#[trigger] self.spec_pages()[p]).len()
                == PAGE_WIDTH
        &&& self.count as int == total_bits(self.spec_pages())
    }

    /// True when the bit for token index `j` is set.
    pub closed spec fn spec_bit(self, j: int) -> bool {
        &&& 0 <= j
        &&& j / (PAGE_WIDTH as int) < self.spec_pages().len()
        &&& self.spec_pages()[j / (PAGE_WIDTH as int)][j % (PAGE_WIDTH as int)]
    }

    /// The running count of set bits.
    pub closed spec fn spec_count(self) -> u64 {
        self.count
    }

    /// Number of allocated pages.
    pub closed spec fn spec_page_count(self) -> int {
        self.spec_pages().len() as int
    }

    /// A fresh table with page zero allocated and every bit clear: the state
    /// an owner is registered into.
    pub fn new() -> (r: PageTable)
        ensures
            r.wf(),
            r.spec_count() == 0,
            r.spec_page_count() == 1,
            forall|j: int| !r.spec_bit(j),
    {
        let np = empty_page();
        let ghost npv = np@;
        let mut pages: Vec<Vec<bool>> = Vec::new();
        pages.push(np);
        let r = PageTable { pages, count: 0 };
        proof {
            assert(r.spec_pages().len() == 1);
            assert(r.spec_pages()[0] == npv);
            lemma_popcount_zero(npv);
            assert(r.spec_pages().drop_last() =~= Seq::<Seq<bool>>::empty());
            assert(total_bits(r.spec_pages().drop_last()) == 0);
            assert(r.spec_pages().last() == npv);
            assert(total_bits(r.spec_pages()) == 0);
            assert forall|j: int| !r.spec_bit(j) by {
                if 0 <= j && j / (PAGE_WIDTH as int) < 1 {
                    assert(r.spec_pages()[j / (PAGE_WIDTH as int)] == npv);
                }
            }
        }
        r
    }

    /// Reports whether the owner holds token index `index`.
    pub fn contains(&self, index: usize) -> (r: bool)
        requires
            self.wf(),
        ensures
            r == self.spec_bit(index as int),
    {
        let page_idx = index / PAGE_WIDTH;
        if page_idx >= self.pages.len() {
            return false;
        }
        let bit_idx = index % PAGE_WIDTH;
        proof {
            assert(self.spec_pages()[page_idx as int].len() == PAGE_WIDTH);
            assert(self.pages@[page_idx as int]@ == self.spec_pages()[page_idx as int]);
        }
        self.pages[page_idx][bit_idx]
    }

    /// The owner's balance: how many indices are currently set.
    pub fn count(&self) -> (r: u64)
        ensures
            r == self.spec_count(),
    {
        self.count
    }

    /// Sets the bit for `index`, allocating pages up to its page on demand.
    /// Exactly that bit changes; the count grows only if the bit was clear.
    pub fn set(&mut self, index: usize)
        requires
            old(self).wf(),
            old(self).spec_count() < u64::MAX,
            index < usize::MAX,
        ensures
            final(self).wf(),
            forall|j: int| final(self).spec_bit(j) == (old(self).spec_bit(j) || j == index as int),
            final(self).spec_count() == old(self).spec_count() + (if old(self).spec_bit(
                index as int,
            ) {
                0int
            } else {
                1int
            }),
            old(self).spec_page_count() <= final(self).spec_page_count(),
            final(self).spec_page_count() == (if old(self).spec_page_count() >= index as int / (
            PAGE_WIDTH as int) + 1 {
                old(self).spec_page_count()
            } else {
                index as int / (PAGE_WIDTH as int) + 1
            }),
    {
        let page_idx = index / PAGE_WIDTH;
        let bit_idx = index % PAGE_WIDTH;
        while self.pages.len() <= page_idx
            invariant
                old(self).wf(),
                self.wf(),
                self.count == old(self).count,
                self.spec_page_count() <= (if old(self).spec_page_count() >= page_idx as int + 1 {
                    old(self).spec_page_count()
                } else {
                    page_idx as int + 1
                }),
                old(self).spec_page_count() <= self.spec_page_count(),
                forall|j: int| self.spec_bit(j) == old(self).spec_bit(j),
            decreases page_idx + 1 - self.pages.len(),
        {
            let ghost pre = *self;
            let np = empty_page();
            self.pages.push(np);
            proof {
                let prevp = pre.spec_pages();
                let newp = self.spec_pages();
                assert(newp.len() == prevp.len() + 1);
                assert(newp.drop_last() =~= prevp);
                assert(newp.last() == np@);
                lemma_popcount_zero(np@);
                assert(total_bits(newp) == total_bits(prevp) + popcount(np@));
                assert forall|p: int| 0 <= p < newp.len() implies (#[trigger] newp[p]).len()
                    == PAGE_WIDTH by {
                    if p < prevp.len() {
                        assert(prevp[p].len() == PAGE_WIDTH);
                        assert(newp[p] == prevp[p]);
                    } else {
                        assert(newp[p] == np@);
                    }
                }
                assert forall|j: int| self.spec_bit(j) == pre.spec_bit(j) by {
                    let p = j / (PAGE_WIDTH as int);
                    if 0 <= j && p < newp.len() {
                        if p < prevp.len() {
                            assert(newp[p] == prevp[p]);
                        } else {
                            assert(newp[p] == np@);
                            assert(!newp[p][j % (PAGE_WIDTH as int)]);
                        }
                    }
                }
            }
        }
        proof {
            assert(self.spec_pages()[page_idx as int].len() == PAGE_WIDTH);
            assert(self.pages@[page_idx as int]@ == self.spec_pages()[page_idx as int]);
        }
        let ghost mid = *self;
        let was = self.pages[page_idx][bit_idx];
        if !was {
            let mut pg = self.pages.remove(page_idx);
            pg[bit_idx] = true;
            self.pages.insert(page_idx, pg);
            self.count = self.count + 1;
            proof {
                let pv = mid.spec_pages();
                let k = page_idx as int;
                let b = bit_idx as int;
                assert(self.spec_pages() =~= pv.update(k, pv[k].update(b, true)));
                lemma_popcount_update(pv[k], b, true);
                lemma_total_update(pv, k, pv[k].update(b, true));
                assert forall|j: int|
                    self.spec_bit(j) == (mid.spec_bit(j) || j == index as int) by {
                    if 0 <= j && j / (PAGE_WIDTH as int) == k {
                        if j % (PAGE_WIDTH as int) == b {
                            assert(j == index as int) by (nonlinear_arith)
                                requires
                                    j / (PAGE_WIDTH as int) == index as int / (PAGE_WIDTH as int),
                                    j % (PAGE_WIDTH as int) == index as int % (PAGE_WIDTH as int),
                                    PAGE_WIDTH as int > 0,
                            ;
                        }
                    }
                }
            }
        } else {
            proof {
                assert forall|j: int|
                    self.spec_bit(j) == (mid.spec_bit(j) || j == index as int) by {
                    if j == index as int {
                        assert(mid.spec_bit(j));
                    }
                }
            }
        }
    }

    /// Clears the bit for `index`. Exactly that bit changes; the count drops
    /// only if the bit was set. Clearing an absent bit is a no-op.
    pub fn clear(&mut self, index: usize)
        requires
            old(self).wf(),
        ensures
            final(self).wf(),
            forall|j: int| final(self).spec_bit(j) == (old(self).spec_bit(j) && j != index as int),
            final(self).spec_count() == old(self).spec_count() - (if old(self).spec_bit(
                index as int,
            ) {
                1int
            } else {
                0int
            }),
            final(self).spec_page_count() == old(self).spec_page_count(),
    {
        let page_idx = index / PAGE_WIDTH;
        let bit_idx = index % PAGE_WIDTH;
        if page_idx >= self.pages.len() {
            return ;
        }
        proof {
            assert(self.spec_pages()[page_idx as int].len() == PAGE_WIDTH);
            assert(self.pages@[page_idx as int]@ == self.spec_pages()[page_idx as int]);
        }
        let was = self.pages[page_idx][bit_idx];
        if was {
            proof {
                lemma_total_ge_page(old(self).spec_pages(), page_idx as int);
                lemma_popcount_pos(old(self).spec_pages()[page_idx as int], bit_idx as int);
            }
            let mut pg = self.pages.remove(page_idx);
            pg[bit_idx] = false;
            self.pages.insert(page_idx, pg);
            self.count = self.count - 1;
            proof {
                let pv = old(self).spec_pages();
                let k = page_idx as int;
                let b = bit_idx as int;
                assert(self.spec_pages() =~= pv.update(k, pv[k].update(b, false)));
                lemma_popcount_update(pv[k], b, false);
                lemma_total_update(pv, k, pv[k].update(b, false));
                assert forall|j: int|
                    self.spec_bit(j) == (old(self).spec_bit(j) && j != index as int) by {
                    if 0 <= j && j / (PAGE_WIDTH as int) == k {
                        if j % (PAGE_WIDTH as int) == b {
                            assert(j == index as int) by (nonlinear_arith)
                                requires
                                    j / (PAGE_WIDTH as int) == index as int / (PAGE_WIDTH as int),
                                    j % (PAGE_WIDTH as int) == index as int % (PAGE_WIDTH as int),
                                    PAGE_WIDTH as int > 0,
                            ;
                        }
                    }
                }
            }
        } else {
            proof {
                assert forall|j: int|
                    self.spec_bit(j) == (old(self).spec_bit(j) && j != index as int) by {
                    if j == index as int {
                        assert(!old(self).spec_bit(j));
                    }
                }
            }
        }
    }

    /// Lists every held index in ascending order. The enumeration is finite,
    /// restartable, and ordered by index.
    pub fn enumerate(&self) -> (r: Vec<usize>)
        requires
            self.wf(),
            self.spec_page_count() * PAGE_WIDTH <= usize::MAX,
        ensures
            forall|k1: int, k2: int| 0 <= k1 < k2 < r@.len() ==> r@[k1] < r@[k2],
            forall|j: usize| r@.contains(j) == self.spec_bit(j as int),
    {
        let mut r: Vec<usize> = Vec::new();
        let mut p: usize = 0;
        proof {
            assert(self.spec_page_count() * PAGE_WIDTH >= 0) by (nonlinear_arith)
                requires
                    self.spec_page_count() >= 0,
            ;
        }
        while p < self.pages.len()
            invariant
                self.wf(),
                p <= self.pages.len(),
                self.spec_page_count() * PAGE_WIDTH <= usize::MAX,
                p * PAGE_WIDTH <= usize::MAX,
                forall|k1: int, k2: int| 0 <= k1 < k2 < r@.len() ==> r@[k1] < r@[k2],
                forall|k: int| 0 <= k < r@.len() ==> r@[k] < p * PAGE_WIDTH,
                forall|j: usize|
                    r@.contains(j) == (self.spec_bit(j as int) && (j as int) < p * PAGE_WIDTH),
            decreases self.pages.len() - p,
        {
            proof {
                assert((p + 1) * PAGE_WIDTH <= self.spec_page_count() * PAGE_WIDTH)
                    by (nonlinear_arith)
                    requires
                        p + 1 <= self.spec_page_count(),
                        PAGE_WIDTH > 0,
                ;
            }
            let base = p * PAGE_WIDTH;
            let mut b: usize = 0;
            while b < PAGE_WIDTH
                invariant
                    self.wf(),
                    p < self.pages.len(),
                    b <= PAGE_WIDTH,
                    base == p * PAGE_WIDTH,
                    base + PAGE_WIDTH <= usize::MAX,
                    forall|k1: int, k2: int| 0 <= k1 < k2 < r@.len() ==> r@[k1] < r@[k2],
                    forall|k: int| 0 <= k < r@.len() ==> r@[k] < base + b,
                    forall|j: usize|
                        r@.contains(j) == (self.spec_bit(j as int) && (j as int) < base + b),
                decreases PAGE_WIDTH - b,
            {
                let ghost prev = r@;
                proof {
                    assert(self.spec_pages()[p as int].len() == PAGE_WIDTH);
                    assert(self.pages@[p as int]@ == self.spec_pages()[p as int]);
                }
                if self.pages[p][b] {
                    let j = base + b;
                    proof {
                        assert((j as int) / (PAGE_WIDTH as int) == p as int && (j as int) % (
                        PAGE_WIDTH as int) == b as int) by (nonlinear_arith)
                            requires
                                j == p * PAGE_WIDTH + b,
                                0 <= b < PAGE_WIDTH,
                        ;
                        assert(self.spec_bit(j as int));
                    }
                    r.push(j);
                    proof {
                        assert forall|q: usize|
                            r@.contains(q) == (self.spec_bit(q as int) && (q as int) < base + b
                                + 1) by {
                            if r@.contains(q) {
                                let ki = choose|ki: int| 0 <= ki < r@.len() && r@[ki] == q;
                                if ki < prev.len() {
                                    assert(prev.contains(q));
                                } else {
                                    assert(q == j);
                                }
                            }
                            if self.spec_bit(q as int) && (q as int) < base + b + 1 {
                                if (q as int) < base + b {
                                    assert(prev.contains(q));
                                    let ki = choose|ki: int| 0 <= ki < prev.len() && prev[ki] == q;
                                    assert(r@[ki] == q);
                                } else {
                                    assert(q as int == base + b) by (nonlinear_arith)
                                        requires
                                            self.spec_bit(q as int),
                                            base + b <= q < base + b + 1,
                                    ;
                                    assert(r@[r@.len() - 1] == q);
                                }
                            }
                        }
                    }
                } else {
                    proof {
                        assert forall|q: usize|
                            r@.contains(q) == (self.spec_bit(q as int) && (q as int) < base + b
                                + 1) by {
                            if self.spec_bit(q as int) && (q as int) == base + b {
                                assert((q as int) / (PAGE_WIDTH as int) == p as int && (q as int)
                                    % (PAGE_WIDTH as int) == b as int) by (nonlinear_arith)
                                    requires
                                        q as int == p * PAGE_WIDTH + b,
                                        0 <= b < PAGE_WIDTH,
                                ;
                                assert(false);
                            }
                        }
                    }
                }
                b += 1;
            }
            p += 1;
            proof {
                assert forall|j: usize|
                    r@.contains(j) == (self.spec_bit(j as int) && (j as int) < p * PAGE_WIDTH) by {
                    assert(p * PAGE_WIDTH == base + PAGE_WIDTH) by (nonlinear_arith)
                        requires
                            base == (p - 1) * PAGE_WIDTH,
                    ;
                }
            }
        }
        proof {
            assert forall|j: usize| r@.contains(j) == self.spec_bit(j as int) by {
                if self.spec_bit(j as int) {
                    assert((j as int) / (PAGE_WIDTH as int) < self.spec_page_count());
                    assert((j as int) < self.spec_page_count() * PAGE_WIDTH) by (nonlinear_arith)
                        requires
                            (j as int) / (PAGE_WIDTH as int) < self.spec_page_count(),
                            PAGE_WIDTH as int > 0,
                            0 <= j as int,
                    ;
                    assert((j as int) < self.pages@.len() * PAGE_WIDTH);
                }
            }
        }
        r
    }
}

/// A page count is a length, so it is never negative.
pub proof fn lemma_page_count_nonneg(pt: PageTable)
    ensures
        pt.spec_page_count() >= 0,
{
}

/// One all-clear page of the fixed width.
fn empty_page() -> (r: Vec<bool>)
    ensures
        r@.len() == PAGE_WIDTH,
        forall|b: int| 0 <= b < r@.len() ==> !r@[b],
{
    let mut v: Vec<bool> = Vec::new();
    while v.len() < PAGE_WIDTH
        invariant
            v@.len() <= PAGE_WIDTH,
            forall|b: int| 0 <= b < v@.len() ==> !v@[b],
        decreases PAGE_WIDTH - v.len(),
    {
        v.push(false);
    }
    v
}

} // verus!
