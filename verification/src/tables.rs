//! The multiplication table of the basis blades and the product engine derived
//! from it.

use vstd::prelude::*;
use crate::blade::{
    basis_product_logic, blade_sign, blade_xor, lemma_blade_xor_cancel,
};

verus! {

/// The entry of the multiplication table for the ordered pair of blades
/// (`a`, `b`): the sign of their product and its blade.
pub open spec fn cayley_entry(a: int, b: int) -> (int, int) {
    (blade_sign(a, b), blade_xor(a, b))
}

/// The triple at position `idx` of the flattened product table: position
/// `32 * k + a` holds the sign and the two factor blades of the one product with
/// left factor `a` that gives blade `k`.
pub open spec fn gp_triple(idx: int) -> (int, int, int) {
    let k = idx / 32;
    let a = idx % 32;
    (blade_sign(a, blade_xor(a, k)), a, blade_xor(a, k))
}

/// The flattened product table: 32 buckets, one for each output blade, of 32
/// triples each.
pub open spec fn gp_table() -> Seq<(int, int, int)> {
    Seq::new(1024, |idx: int| gp_triple(idx))
}

/// Every triple of bucket `k` is a table entry with result `k`, and every
/// ordered pair of blades stands in exactly one place of the flattened table.
pub proof fn lemma_table_consistency()
    ensures
        gp_table().len() == 32 * 32,
        forall|idx: int|
            0 <= idx < 1024 ==> {
                let t = #[trigger] gp_table()[idx];
                &&& 0 <= t.1 < 32
                &&& 0 <= t.2 < 32
                &&& cayley_entry(t.1, t.2) == (t.0, idx / 32)
            },
        forall|a: int, b: int|
            0 <= a < 32 && 0 <= b < 32 ==> {
                let idx = 32 * #[trigger] blade_xor(a, b) + a;
                &&& 0 <= idx < 1024
                &&& gp_table()[idx] == (blade_sign(a, b), a, b)
            },
        forall|idx: int, jdx: int|
            0 <= idx < 1024 && 0 <= jdx < 1024 && (#[trigger] gp_table()[idx]).1 == (
            #[trigger] gp_table()[jdx]).1 && gp_table()[idx].2 == gp_table()[jdx].2 ==> idx == jdx,
{
    assert forall|idx: int| 0 <= idx < 1024 implies {
        let t = #[trigger] gp_table()[idx];
        &&& 0 <= t.1 < 32
        &&& 0 <= t.2 < 32
        &&& cayley_entry(t.1, t.2) == (t.0, idx / 32)
    } by {
        lemma_blade_xor_cancel(idx % 32, idx / 32);
    }
    assert forall|a: int, b: int| 0 <= a < 32 && 0 <= b < 32 implies {
        let idx = 32 * #[trigger] blade_xor(a, b) + a;
        &&& 0 <= idx < 1024
        &&& gp_table()[idx] == (blade_sign(a, b), a, b)
    } by {
        lemma_blade_xor_cancel(a, b);
    }
    assert forall|idx: int, jdx: int|
        0 <= idx < 1024 && 0 <= jdx < 1024 && (#[trigger] gp_table()[idx]).1 == (
        #[trigger] gp_table()[jdx]).1 && gp_table()[idx].2 == gp_table()[jdx].2 implies idx
        == jdx by {
        lemma_blade_xor_cancel(idx % 32, idx / 32);
        lemma_blade_xor_cancel(jdx % 32, jdx / 32);
    }
}

/// The multiplication table: row `a`, column `b` holds the entry for the
/// ordered pair (`a`, `b`).
pub open spec fn cayley_table() -> Seq<Seq<(int, int)>> {
    Seq::new(32, |a: int| Seq::new(32, |b: int| cayley_entry(a, b)))
}

/// The 32 by 32 multiplication table of the basis blades.
pub struct CayleyTable {
    entries: [[(i64, usize); 32]; 32],
}

impl View for CayleyTable {
    type V = Seq<Seq<(int, int)>>;

    closed spec fn view(&self) -> Seq<Seq<(int, int)>> {
        Seq::new(
            32,
            |a: int| Seq::new(32, |b: int| (self.entries[a][b].0 as int, self.entries[a][b].1 as int)),
        )
    }
}

impl CayleyTable {
    /// A table that satisfies its invariant holds the product rule.
    proof fn lemma_view(self)
        requires
            self.inv(),
        ensures
            self@ == cayley_table(),
    {
        assert forall|a: int| 0 <= a < 32 implies #[trigger] self@[a] == cayley_table()[a] by {
            assert forall|b: int| 0 <= b < 32 implies #[trigger] self@[a][b] == cayley_table()[a][b] by {
                let e = self.entries[a][b];
            }
            assert(self@[a] =~= cayley_table()[a]);
        }
        assert(self@ =~= cayley_table());
    }

    #[verifier::type_invariant]
    spec fn inv(self) -> bool {
        forall|a: int, b: int|
            0 <= a < 32 && 0 <= b < 32 ==> {
                let e = #[trigger] self.entries[a][b];
                e.0 == blade_sign(a, b) && e.1 == blade_xor(a, b)
            }
    }

    /// Builds the table: the product rule applied to each of the 1024 ordered
    /// pairs of blades.
    pub fn new() -> (table: CayleyTable)
        ensures
            table@ == cayley_table(),
    {
        let mut entries: [[(i64, usize); 32]; 32] = [[(0i64, 0usize); 32]; 32];
        let mut a: usize = 0;
        while a < 32
            invariant
                a <= 32,
                forall|x: int, y: int|
                    0 <= x < a && 0 <= y < 32 ==> {
                        let e = #[trigger] entries[x][y];
                        e.0 == blade_sign(x, y) && e.1 == blade_xor(x, y)
                    },
            decreases 32 - a,
        {
            let mut row: [(i64, usize); 32] = [(0i64, 0usize); 32];
            let mut b: usize = 0;
            while b < 32
                invariant
                    a < 32,
                    b <= 32,
                    forall|y: int|
                        0 <= y < b ==> {
                            let e = #[trigger] row[y];
                            e.0 == blade_sign(a as int, y) && e.1 == blade_xor(a as int, y)
                        },
                decreases 32 - b,
            {
                row[b] = basis_product_logic(a, b);
                b = b + 1;
            }
            entries[a] = row;
            a = a + 1;
        }
        let table = CayleyTable { entries };
        proof {
            table.lemma_view();
        }
        table
    }

    /// The sign and the blade of the product of the blades `a` and `b`.
    pub fn entry(&self, a: usize, b: usize) -> (e: (i64, usize))
        requires
            a < 32,
            b < 32,
        ensures
            (e.0 as int, e.1 as int) == self@[a as int][b as int],
            self@ == cayley_table(),
            e.0 == 1 || e.0 == -1,
            e.1 < 32,
    {
        proof {
            use_type_invariant(self);
            self.lemma_view();
            lemma_blade_xor_cancel(a as int, b as int);
        }
        self.entries[a][b]
    }
}

/// The product engine: the multiplication table, and beside it the flattened
/// list of its entries grouped by output blade, which lets a product be
/// computed by one linear pass.
pub struct ProductEngine {
    cayley: CayleyTable,
    triples: Vec<(i64, usize, usize)>,
}

impl View for ProductEngine {
    type V = Seq<(int, int, int)>;

    closed spec fn view(&self) -> Seq<(int, int, int)> {
        Seq::new(
            self.triples@.len(),
            |idx: int|
                (self.triples@[idx].0 as int, self.triples@[idx].1 as int, self.triples@[idx].2 as int),
        )
    }
}

impl ProductEngine {
    /// An engine that satisfies its invariant holds the flattened table.
    proof fn lemma_view(self)
        requires
            self.inv(),
        ensures
            self@ == gp_table(),
    {
        assert forall|idx: int| 0 <= idx < 1024 implies #[trigger] self@[idx] == gp_table()[idx] by {
            let t = self.triples@[idx];
        }
        assert(self@ =~= gp_table());
    }

    #[verifier::type_invariant]
    spec fn inv(self) -> bool {
        &&& self.triples@.len() == 1024
        &&& forall|idx: int|
            0 <= idx < 1024 ==> {
                let t = #[trigger] self.triples@[idx];
                (t.0 as int, t.1 as int, t.2 as int) == gp_triple(idx)
            }
    }

    /// Builds the engine. For each output blade `k` and each left factor `a`
    /// the row `a` of the table is searched for the right factor whose product
    /// with `a` is `k`; there is exactly one.
    pub fn new() -> (engine: ProductEngine)
        ensures
            engine@ == gp_table(),
    {
        let cayley = CayleyTable::new();
        let mut triples: Vec<(i64, usize, usize)> = Vec::with_capacity(1024);
        let mut k: usize = 0;
        while k < 32
            invariant
                k <= 32,
                triples@.len() == 32 * k,
                forall|idx: int|
                    0 <= idx < 32 * k ==> {
                        let t = #[trigger] triples@[idx];
                        (t.0 as int, t.1 as int, t.2 as int) == gp_triple(idx)
                    },
            decreases 32 - k,
        {
            let mut a: usize = 0;
            while a < 32
                invariant
                    k < 32,
                    a <= 32,
                    triples@.len() == 32 * k + a,
                    forall|idx: int|
                        0 <= idx < 32 * k + a ==> {
                            let t = #[trigger] triples@[idx];
                            (t.0 as int, t.1 as int, t.2 as int) == gp_triple(idx)
                        },
                decreases 32 - a,
            {
                let mut b: usize = 0;
                proof {
                    lemma_blade_xor_cancel(a as int, k as int);
                }
                while b < 32
                    invariant
                        k < 32,
                        a < 32,
                        b <= 32,
                        0 <= blade_xor(a as int, k as int) < 32,
                        triples@.len() == 32 * k + a + if blade_xor(a as int, k as int) < b {
                            1int
                        } else {
                            0int
                        },
                        forall|idx: int|
                            0 <= idx < triples@.len() ==> {
                                let t = #[trigger] triples@[idx];
                                (t.0 as int, t.1 as int, t.2 as int) == gp_triple(idx)
                            },
                    decreases 32 - b,
                {
                    let (sign, res_k) = cayley.entry(a, b);
                    proof {
                        lemma_blade_xor_cancel(a as int, b as int);
                        lemma_blade_xor_cancel(a as int, k as int);
                    }
                    if res_k == k {
                        triples.push((sign, a, b));
                    }
                    b = b + 1;
                }
                a = a + 1;
            }
            k = k + 1;
        }
        let engine = ProductEngine { cayley, triples };
        proof {
            engine.lemma_view();
        }
        engine
    }

    /// The multiplication table that the engine was derived from.
    pub fn cayley(&self) -> (table: &CayleyTable)
        ensures
            table@ == cayley_table(),
    {
        proof {
            use_type_invariant(&self.cayley);
            self.cayley.lemma_view();
        }
        &self.cayley
    }

    /// The number of triples in the flattened table.
    pub fn len(&self) -> (n: usize)
        ensures
            n == self@.len(),
            n == 1024,
    {
        proof {
            use_type_invariant(self);
        }
        self.triples.len()
    }

    /// The triple at position `idx` of the flattened table: its sign and its
    /// two factor blades.
    pub fn triple(&self, idx: usize) -> (t: (i64, usize, usize))
        requires
            idx < 1024,
        ensures
            (t.0 as int, t.1 as int, t.2 as int) == self@[idx as int],
            self@ == gp_table(),
            t.0 == 1 || t.0 == -1,
            t.1 == idx % 32,
            t.2 < 32,
    {
        proof {
            use_type_invariant(self);
            self.lemma_view();
            lemma_blade_xor_cancel((idx % 32) as int, (idx / 32) as int);
        }
        self.triples[idx]
    }
}

} // verus!
