//! The voucher store: persistence-model and query operations over vouchers.
//!
//! The store holds its rows ordered by creation time ascending, with ties
//! kept in insertion order; codes and identifiers are unique across the
//! store. Every operation states its exact effect on the store's model, a
//! `Seq<VoucherModel>`.

use vstd::prelude::*;

use crate::text::str_eq;
use crate::voucher::{voucher_valid, Voucher, VoucherModel};

verus! {

/// Why a store write was refused.
#[derive(Debug, Clone, Copy, PartialEq, Eq)]
pub enum StoreError {
    /// A voucher code collided with an existing or sibling row.
    DuplicateCode,
    /// An identifier collided with an existing or sibling row.
    Conflict,
}

/// No two rows share a code.
pub open spec fn unique_codes(s: Seq<VoucherModel>) -> bool {
    forall|i: int, j: int| 0 <= i < j < s.len() ==> s[i].code != s[j].code
}

/// No two rows share an identifier.
pub open spec fn unique_ids(s: Seq<VoucherModel>) -> bool {
    forall|i: int, j: int| 0 <= i < j < s.len() ==> s[i].id != s[j].id
}

/// Rows are ordered by creation time, ascending.
pub open spec fn sorted_by_created(s: Seq<VoucherModel>) -> bool {
    forall|i: int, j: int| 0 <= i <= j < s.len() ==> s[i].created_at <= s[j].created_at
}

/// Every row satisfies the voucher pairing invariant.
pub open spec fn all_valid(s: Seq<VoucherModel>) -> bool {
    forall|i: int| 0 <= i < s.len() ==> voucher_valid(#[trigger] s[i])
}

/// Well-formedness of the store's model.
pub open spec fn store_valid(s: Seq<VoucherModel>) -> bool {
    &&& all_valid(s)
    &&& unique_codes(s)
    &&& unique_ids(s)
    &&& sorted_by_created(s)
}

/// Where a row with creation time `t` lands: after every row whose creation
/// time is at most `t`.
pub open spec fn insert_pos(s: Seq<VoucherModel>, t: i64) -> int
    decreases s.len(),
{
    if s.len() == 0 {
        0
    } else if s[0].created_at <= t {
        1 + insert_pos(s.drop_first(), t)
    } else {
        0
    }
}

/// One row inserted at its position.
pub open spec fn insert_one(s: Seq<VoucherModel>, v: VoucherModel) -> Seq<VoucherModel> {
    s.insert(insert_pos(s, v.created_at), v)
}

/// A batch inserted row by row, in batch order.
pub open spec fn insert_batch(s: Seq<VoucherModel>, b: Seq<VoucherModel>) -> Seq<VoucherModel>
    decreases b.len(),
{
    if b.len() == 0 {
        s
    } else {
        insert_batch(insert_one(s, b[0]), b.drop_first())
    }
}

/// The rows tied to one network.
pub open spec fn for_network(nid: Seq<char>) -> spec_fn(VoucherModel) -> bool {
    |v: VoucherModel| v.network_id == Some(nid)
}

/// The unprinted rows tied to one network.
pub open spec fn unprinted_for_network(nid: Seq<char>) -> spec_fn(VoucherModel) -> bool {
    |v: VoucherModel| v.network_id == Some(nid) && !v.is_printed
}

/// The rows not tied to one network (kept by a cascade delete).
pub open spec fn not_for_network(nid: Seq<char>) -> spec_fn(VoucherModel) -> bool {
    |v: VoucherModel| v.network_id != Some(nid)
}

/// Redeemed rows.
pub open spec fn used_pred() -> spec_fn(VoucherModel) -> bool {
    |v: VoucherModel| v.is_used
}

/// Unredeemed rows.
pub open spec fn unused_pred() -> spec_fn(VoucherModel) -> bool {
    |v: VoucherModel| !v.is_used
}

/// Printed rows.
pub open spec fn printed_pred() -> spec_fn(VoucherModel) -> bool {
    |v: VoucherModel| v.is_printed
}

/// Unprinted rows.
pub open spec fn unprinted_pred() -> spec_fn(VoucherModel) -> bool {
    |v: VoucherModel| !v.is_printed
}

/// The identifiers of a row list, in order.
pub open spec fn ids_of(vs: Seq<VoucherModel>) -> Seq<Seq<char>> {
    vs.map_values(|v: VoucherModel| v.id)
}

/// Some code occurs twice in the batch, or already occurs in the store.
pub open spec fn batch_code_conflict(s: Seq<VoucherModel>, b: Seq<VoucherModel>) -> bool {
    ||| exists|i: int, j: int| 0 <= i < j < b.len() && b[i].code == b[j].code
    ||| exists|i: int, k: int| 0 <= i < b.len() && 0 <= k < s.len() && b[i].code == s[k].code
}

/// Some identifier occurs twice in the batch, or already occurs in the store.
pub open spec fn batch_id_conflict(s: Seq<VoucherModel>, b: Seq<VoucherModel>) -> bool {
    ||| exists|i: int, j: int| 0 <= i < j < b.len() && b[i].id == b[j].id
    ||| exists|i: int, k: int| 0 <= i < b.len() && 0 <= k < s.len() && b[i].id == s[k].id
}

proof fn lemma_insert_pos(s: Seq<VoucherModel>, t: i64)
    requires
        sorted_by_created(s),
    ensures
        0 <= insert_pos(s, t) <= s.len(),
        forall|k: int| 0 <= k < insert_pos(s, t) ==> s[k].created_at <= t,
        forall|k: int| insert_pos(s, t) <= k < s.len() ==> s[k].created_at > t,
    decreases s.len(),
{
    if s.len() == 0 {
    } else if s[0].created_at <= t {
        assert(sorted_by_created(s.drop_first()));
        lemma_insert_pos(s.drop_first(), t);
        assert forall|k: int| 0 <= k < insert_pos(s, t) implies s[k].created_at <= t by {
            if k > 0 {
                assert(s.drop_first()[k - 1] == s[k]);
            }
        }
        assert forall|k: int| insert_pos(s, t) <= k < s.len() implies s[k].created_at > t by {
            assert(s.drop_first()[k - 1] == s[k]);
        }
    } else {
        assert forall|k: int| 0 <= k < s.len() implies s[k].created_at > t by {
            assert(s[0].created_at <= s[k].created_at);
        }
    }
}

proof fn lemma_insert_one(s: Seq<VoucherModel>, v: VoucherModel)
    requires
        store_valid(s),
        voucher_valid(v),
        forall|k: int| 0 <= k < s.len() ==> s[k].code != v.code,
        forall|k: int| 0 <= k < s.len() ==> s[k].id != v.id,
    ensures
        store_valid(insert_one(s, v)),
        insert_one(s, v).len() == s.len() + 1,
        insert_one(s, v).contains(v),
        forall|x: VoucherModel| s.contains(x) ==> insert_one(s, v).contains(x),
        forall|k: int|
            0 <= k < insert_one(s, v).len() ==> (#[trigger] insert_one(s, v)[k] == v || s.contains(
                insert_one(s, v)[k],
            )),
{
    lemma_insert_pos(s, v.created_at);
    let p = insert_pos(s, v.created_at);
    s.insert_ensures(p, v);
    let r = insert_one(s, v);
    assert(r[p] == v);
    assert(r.contains(v));
    assert forall|k: int| 0 <= k < r.len() implies (#[trigger] r[k] == v || s.contains(r[k])) by {
        if k < p {
            assert(r[k] == s[k]);
            assert(s.contains(s[k]));
        } else if k > p {
            assert(r[k] == s[k - 1]);
            assert(s.contains(s[k - 1]));
        }
    }
    assert forall|x: VoucherModel| s.contains(x) implies r.contains(x) by {
        let i = choose|i: int| 0 <= i < s.len() && s[i] == x;
        if i < p {
            assert(r[i] == x);
        } else {
            assert(r[i + 1] == x);
        }
    }
    assert(sorted_by_created(r)) by {
        assert forall|i: int, j: int| 0 <= i <= j < r.len() implies r[i].created_at
            <= r[j].created_at by {
            let ri = if i < p {
                s[i]
            } else if i == p {
                v
            } else {
                s[i - 1]
            };
            let rj = if j < p {
                s[j]
            } else if j == p {
                v
            } else {
                s[j - 1]
            };
            assert(r[i] == ri);
            assert(r[j] == rj);
        }
    }
    assert(unique_codes(r)) by {
        assert forall|i: int, j: int| 0 <= i < j < r.len() implies r[i].code != r[j].code by {
            if i < p {
                assert(r[i] == s[i]);
            } else if i == p {
                assert(r[i] == v);
            } else {
                assert(r[i] == s[i - 1]);
            }
            if j < p {
                assert(r[j] == s[j]);
            } else if j == p {
                assert(r[j] == v);
            } else {
                assert(r[j] == s[j - 1]);
            }
        }
    }
    assert(unique_ids(r)) by {
        assert forall|i: int, j: int| 0 <= i < j < r.len() implies r[i].id != r[j].id by {
            if i < p {
                assert(r[i] == s[i]);
            } else if i == p {
                assert(r[i] == v);
            } else {
                assert(r[i] == s[i - 1]);
            }
            if j < p {
                assert(r[j] == s[j]);
            } else if j == p {
                assert(r[j] == v);
            } else {
                assert(r[j] == s[j - 1]);
            }
        }
    }
    assert(all_valid(r)) by {
        assert forall|i: int| 0 <= i < r.len() implies voucher_valid(#[trigger] r[i]) by {
            if i < p {
                assert(r[i] == s[i]);
            } else if i == p {
                assert(r[i] == v);
            } else {
                assert(r[i] == s[i - 1]);
            }
        }
    }
}


proof fn lemma_insert_batch_push(s: Seq<VoucherModel>, b: Seq<VoucherModel>, v: VoucherModel)
    ensures
        insert_batch(s, b.push(v)) == insert_one(insert_batch(s, b), v),
    decreases b.len(),
{
    if b.len() == 0 {
        assert(b.push(v)[0] == v);
        assert(b.push(v).drop_first() =~= Seq::<VoucherModel>::empty());
        assert(insert_batch(s, b.push(v)) == insert_batch(
            insert_one(s, v),
            Seq::<VoucherModel>::empty(),
        ));
        assert(insert_batch(insert_one(s, v), Seq::<VoucherModel>::empty()) == insert_one(s, v));
        assert(insert_batch(s, b) == s);
    } else {
        assert(b.push(v)[0] == b[0]);
        assert(b.push(v).drop_first() =~= b.drop_first().push(v));
        lemma_insert_batch_push(insert_one(s, b[0]), b.drop_first(), v);
        assert(insert_batch(s, b.push(v)) == insert_batch(
            insert_one(s, b[0]),
            b.drop_first().push(v),
        ));
        assert(insert_batch(s, b) == insert_batch(insert_one(s, b[0]), b.drop_first()));
    }
}

/// Whether some row has this identifier and is currently unused.
pub open spec fn has_unused(s: Seq<VoucherModel>, id: Seq<char>) -> bool {
    exists|i: int| 0 <= i < s.len() && s[i].id == id && !s[i].is_used
}

/// Whether some row has this identifier.
pub open spec fn has_id(s: Seq<VoucherModel>, id: Seq<char>) -> bool {
    exists|i: int| 0 <= i < s.len() && s[i].id == id
}

/// Whether some row has this identifier and is currently unprinted.
pub open spec fn has_unprinted(s: Seq<VoucherModel>, id: Seq<char>) -> bool {
    exists|i: int| 0 <= i < s.len() && s[i].id == id && !s[i].is_printed
}

/// The row, marked used at time `t`.
pub open spec fn with_used(v: VoucherModel, t: i64) -> VoucherModel {
    VoucherModel {
        id: v.id,
        code: v.code,
        network_id: v.network_id,
        created_at: v.created_at,
        is_used: true,
        used_at: Some(t),
        is_printed: v.is_printed,
        printed_at: v.printed_at,
    }
}

/// The row, reverted to unused with its redemption time cleared.
pub open spec fn with_unused(v: VoucherModel) -> VoucherModel {
    VoucherModel {
        id: v.id,
        code: v.code,
        network_id: v.network_id,
        created_at: v.created_at,
        is_used: false,
        used_at: None,
        is_printed: v.is_printed,
        printed_at: v.printed_at,
    }
}

/// The row, marked printed at time `t`.
pub open spec fn with_printed(v: VoucherModel, t: i64) -> VoucherModel {
    VoucherModel {
        id: v.id,
        code: v.code,
        network_id: v.network_id,
        created_at: v.created_at,
        is_used: v.is_used,
        used_at: v.used_at,
        is_printed: true,
        printed_at: Some(t),
    }
}

/// The store after marking row `id` used at time `t`: the row flips exactly
/// when it exists and was unused; otherwise nothing changes.
pub open spec fn mark_used_model(s: Seq<VoucherModel>, id: Seq<char>, t: i64) -> Seq<
    VoucherModel,
> {
    if has_unused(s, id) {
        let i = choose|i: int| 0 <= i < s.len() && s[i].id == id && !s[i].is_used;
        s.update(i, with_used(s[i], t))
    } else {
        s
    }
}

/// The store after the unconditional reverse transition on row `id`.
pub open spec fn mark_unused_model(s: Seq<VoucherModel>, id: Seq<char>) -> Seq<VoucherModel> {
    if has_id(s, id) {
        let i = choose|i: int| 0 <= i < s.len() && s[i].id == id;
        s.update(i, with_unused(s[i]))
    } else {
        s
    }
}

/// The store after marking row `id` printed at time `t`: the row flips
/// exactly when it exists and was unprinted.
pub open spec fn mark_printed_one(s: Seq<VoucherModel>, id: Seq<char>, t: i64) -> Seq<
    VoucherModel,
> {
    if has_unprinted(s, id) {
        let i = choose|i: int| 0 <= i < s.len() && s[i].id == id && !s[i].is_printed;
        s.update(i, with_printed(s[i], t))
    } else {
        s
    }
}

/// The store after marking each listed row printed, in list order, all with
/// the same time `t`.
pub open spec fn mark_printed_model(s: Seq<VoucherModel>, ids: Seq<Seq<char>>, t: i64) -> Seq<
    VoucherModel,
>
    decreases ids.len(),
{
    if ids.len() == 0 {
        s
    } else {
        mark_printed_model(mark_printed_one(s, ids[0], t), ids.drop_first(), t)
    }
}

/// How many rows the batch print-marking flips.
pub open spec fn mark_printed_count(s: Seq<VoucherModel>, ids: Seq<Seq<char>>, t: i64) -> int
    decreases ids.len(),
{
    if ids.len() == 0 {
        0
    } else {
        (if has_unprinted(s, ids[0]) {
            1int
        } else {
            0int
        }) + mark_printed_count(mark_printed_one(s, ids[0], t), ids.drop_first(), t)
    }
}

proof fn lemma_update_keeps_valid(s: Seq<VoucherModel>, i: int, v: VoucherModel)
    requires
        store_valid(s),
        0 <= i < s.len(),
        v.id == s[i].id,
        v.code == s[i].code,
        v.created_at == s[i].created_at,
        voucher_valid(v),
    ensures
        store_valid(s.update(i, v)),
{
    let r = s.update(i, v);
    assert(all_valid(r)) by {
        assert forall|k: int| 0 <= k < r.len() implies voucher_valid(#[trigger] r[k]) by {
            if k != i {
                assert(r[k] == s[k]);
            }
        }
    }
    assert(unique_codes(r)) by {
        assert forall|x: int, y: int| 0 <= x < y < r.len() implies r[x].code != r[y].code by {
            assert(s[x].code != s[y].code);
        }
    }
    assert(unique_ids(r)) by {
        assert forall|x: int, y: int| 0 <= x < y < r.len() implies r[x].id != r[y].id by {
            assert(s[x].id != s[y].id);
        }
    }
    assert(sorted_by_created(r)) by {
        assert forall|x: int, y: int| 0 <= x <= y < r.len() implies r[x].created_at
            <= r[y].created_at by {
            assert(s[x].created_at <= s[y].created_at);
        }
    }
}

proof fn lemma_partition(
    s: Seq<VoucherModel>,
    p: spec_fn(VoucherModel) -> bool,
    q: spec_fn(VoucherModel) -> bool,
)
    requires
        forall|v: VoucherModel| #[trigger] q(v) == !p(v),
    ensures
        s.filter(p).len() + s.filter(q).len() == s.len(),
    decreases s.len(),
{
    reveal(Seq::filter);
    if s.len() > 0 {
        lemma_partition(s.drop_last(), p, q);
    }
}

proof fn lemma_filter_members(s: Seq<VoucherModel>, p: spec_fn(VoucherModel) -> bool)
    ensures
        forall|i: int| 0 <= i < s.filter(p).len() ==> s.contains(#[trigger] s.filter(p)[i]),
    decreases s.len(),
{
    reveal(Seq::filter);
    if s.len() > 0 {
        let d = s.drop_last();
        lemma_filter_members(d, p);
        let fd = d.filter(p);
        let f = s.filter(p);
        assert forall|i: int| 0 <= i < f.len() implies s.contains(#[trigger] f[i]) by {
            if p(s.last()) && i == f.len() - 1 {
                assert(f[i] == s.last());
                assert(s[s.len() - 1] == s.last());
            } else {
                assert(f[i] == fd[i]);
                assert(d.contains(fd[i]));
                let w = choose|w: int| 0 <= w < d.len() && d[w] == fd[i];
                assert(s[w] == fd[i]);
            }
        }
    }
}

proof fn lemma_drop_last_store_valid(s: Seq<VoucherModel>)
    requires
        store_valid(s),
        s.len() > 0,
    ensures
        store_valid(s.drop_last()),
{
    let d = s.drop_last();
    assert(all_valid(d)) by {
        assert forall|i: int| 0 <= i < d.len() implies voucher_valid(#[trigger] d[i]) by {
            assert(d[i] == s[i]);
        }
    }
    assert(unique_codes(d)) by {
        assert forall|i: int, j: int| 0 <= i < j < d.len() implies d[i].code != d[j].code by {
            assert(d[i] == s[i] && d[j] == s[j]);
        }
    }
    assert(unique_ids(d)) by {
        assert forall|i: int, j: int| 0 <= i < j < d.len() implies d[i].id != d[j].id by {
            assert(d[i] == s[i] && d[j] == s[j]);
        }
    }
    assert(sorted_by_created(d)) by {
        assert forall|i: int, j: int| 0 <= i <= j < d.len() implies d[i].created_at
            <= d[j].created_at by {
            assert(d[i] == s[i] && d[j] == s[j]);
        }
    }
}

proof fn lemma_filter_keeps_store_valid(s: Seq<VoucherModel>, p: spec_fn(VoucherModel) -> bool)
    requires
        store_valid(s),
    ensures
        store_valid(s.filter(p)),
    decreases s.len(),
{
    reveal(Seq::filter);
    if s.len() > 0 {
        let d = s.drop_last();
        lemma_drop_last_store_valid(s);
        lemma_filter_keeps_store_valid(d, p);
        lemma_filter_members(d, p);
        let fd = d.filter(p);
        let f = s.filter(p);
        if p(s.last()) {
            assert(f == fd.push(s.last()));
            assert(all_valid(f)) by {
                assert forall|i: int| 0 <= i < f.len() implies voucher_valid(#[trigger] f[i]) by {
                    if i < fd.len() {
                        assert(f[i] == fd[i]);
                    } else {
                        assert(f[i] == s.last());
                        assert(s[s.len() - 1] == s.last());
                    }
                }
            }
            assert forall|i: int| 0 <= i < fd.len() implies (fd[i].created_at
                <= s.last().created_at && fd[i].code != s.last().code && fd[i].id
                != s.last().id) by {
                assert(d.contains(fd[i]));
                let w = choose|w: int| 0 <= w < d.len() && d[w] == fd[i];
                assert(s[w] == fd[i]);
                assert(s[w].created_at <= s[s.len() - 1].created_at);
                assert(s[w].code != s[s.len() - 1].code);
                assert(s[w].id != s[s.len() - 1].id);
            }
            assert(unique_codes(f)) by {
                assert forall|i: int, j: int| 0 <= i < j < f.len() implies f[i].code
                    != f[j].code by {
                    assert(f[i] == fd[i]);
                    if j < fd.len() {
                        assert(f[j] == fd[j]);
                    } else {
                        assert(f[j] == s.last());
                    }
                }
            }
            assert(unique_ids(f)) by {
                assert forall|i: int, j: int| 0 <= i < j < f.len() implies f[i].id != f[j].id by {
                    assert(f[i] == fd[i]);
                    if j < fd.len() {
                        assert(f[j] == fd[j]);
                    } else {
                        assert(f[j] == s.last());
                    }
                }
            }
            assert(sorted_by_created(f)) by {
                assert forall|i: int, j: int| 0 <= i <= j < f.len() implies f[i].created_at
                    <= f[j].created_at by {
                    if j < fd.len() {
                        assert(f[i] == fd[i] && f[j] == fd[j]);
                    } else {
                        assert(f[j] == s.last());
                        if i < fd.len() {
                            assert(f[i] == fd[i]);
                        } else {
                            assert(f[i] == s.last());
                        }
                    }
                }
            }
        }
    }
}

/// Aggregate counters for one network's vouchers, taken from one snapshot.
#[derive(Debug, Clone, Copy, PartialEq, Eq, Structural)]
pub struct VoucherCounts {
    pub total: usize,
    pub used: usize,
    pub unused: usize,
    pub printed: usize,
    pub unprinted: usize,
}

/// Persistence and query operations over vouchers.
pub struct VoucherStore {
    vouchers: Vec<Voucher>,
}

impl View for VoucherStore {
    type V = Seq<VoucherModel>;

    closed spec fn view(&self) -> Seq<VoucherModel> {
        self.vouchers.deep_view()
    }
}

impl VoucherStore {
    /// Well-formedness: valid rows, unique codes and identifiers, ordered by
    /// creation time.
    pub open spec fn wf(&self) -> bool {
        store_valid(self@)
    }

    /// An empty store.
    pub fn new() -> (s: Self)
        ensures
            s@ == Seq::<VoucherModel>::empty(),
            s.wf(),
    {
        let s = VoucherStore { vouchers: Vec::new() };
        proof {
            assert(s@ =~= Seq::<VoucherModel>::empty());
        }
        s
    }

    fn has_code_conflict(&self, batch: &Vec<Voucher>) -> (r: bool)
        ensures
            r == batch_code_conflict(self@, batch.deep_view()),
    {
        let ghost b = batch.deep_view();
        let ghost s = self@;
        let bn = batch.len();
        let sn = self.vouchers.len();
        let mut i: usize = 0;
        while i < bn
            invariant
                b == batch.deep_view(),
                s == self@,
                bn == b.len(),
                sn == s.len(),
                i <= bn,
                forall|x: int, y: int| 0 <= x < y < i ==> b[x].code != b[y].code,
                forall|x: int, k: int| 0 <= x < i && 0 <= k < sn ==> b[x].code != s[k].code,
            decreases bn - i,
        {
            let mut j: usize = 0;
            while j < i
                invariant
                    b == batch.deep_view(),
                    bn == b.len(),
                    i < bn,
                    j <= i,
                    forall|y: int| 0 <= y < j ==> b[y].code != b[i as int].code,
                decreases i - j,
            {
                if str_eq(batch[j].code.as_str(), batch[i].code.as_str()) {
                    proof {
                        assert(b[j as int].code == batch@[j as int].code@);
                        assert(b[i as int].code == batch@[i as int].code@);
                        assert(0 <= j < i < b.len() && b[j as int].code == b[i as int].code);
                    }
                    return true;
                }
                j = j + 1;
            }
            let mut k: usize = 0;
            while k < sn
                invariant
                    b == batch.deep_view(),
                    s == self@,
                    bn == b.len(),
                    sn == s.len(),
                    i < bn,
                    k <= sn,
                    forall|y: int| 0 <= y < k ==> s[y].code != b[i as int].code,
                decreases sn - k,
            {
                if str_eq(self.vouchers[k].code.as_str(), batch[i].code.as_str()) {
                    proof {
                        assert(s[k as int].code == self.vouchers@[k as int].code@);
                        assert(b[i as int].code == batch@[i as int].code@);
                        assert(0 <= i < b.len() && 0 <= k < s.len() && b[i as int].code == s[
                            k as int
                        ].code);
                    }
                    return true;
                }
                k = k + 1;
            }
            i = i + 1;
        }
        false
    }

    fn has_id_conflict(&self, batch: &Vec<Voucher>) -> (r: bool)
        ensures
            r == batch_id_conflict(self@, batch.deep_view()),
    {
        let ghost b = batch.deep_view();
        let ghost s = self@;
        let bn = batch.len();
        let sn = self.vouchers.len();
        let mut i: usize = 0;
        while i < bn
            invariant
                b == batch.deep_view(),
                s == self@,
                bn == b.len(),
                sn == s.len(),
                i <= bn,
                forall|x: int, y: int| 0 <= x < y < i ==> b[x].id != b[y].id,
                forall|x: int, k: int| 0 <= x < i && 0 <= k < sn ==> b[x].id != s[k].id,
            decreases bn - i,
        {
            let mut j: usize = 0;
            while j < i
                invariant
                    b == batch.deep_view(),
                    bn == b.len(),
                    i < bn,
                    j <= i,
                    forall|y: int| 0 <= y < j ==> b[y].id != b[i as int].id,
                decreases i - j,
            {
                if str_eq(batch[j].id.as_str(), batch[i].id.as_str()) {
                    proof {
                        assert(b[j as int].id == batch@[j as int].id@);
                        assert(b[i as int].id == batch@[i as int].id@);
                        assert(0 <= j < i < b.len() && b[j as int].id == b[i as int].id);
                    }
                    return true;
                }
                j = j + 1;
            }
            let mut k: usize = 0;
            while k < sn
                invariant
                    b == batch.deep_view(),
                    s == self@,
                    bn == b.len(),
                    sn == s.len(),
                    i < bn,
                    k <= sn,
                    forall|y: int| 0 <= y < k ==> s[y].id != b[i as int].id,
                decreases sn - k,
            {
                if str_eq(self.vouchers[k].id.as_str(), batch[i].id.as_str()) {
                    proof {
                        assert(s[k as int].id == self.vouchers@[k as int].id@);
                        assert(b[i as int].id == batch@[i as int].id@);
                        assert(0 <= i < b.len() && 0 <= k < s.len() && b[i as int].id == s[
                            k as int
                        ].id);
                    }
                    return true;
                }
                k = k + 1;
            }
            i = i + 1;
        }
        false
    }

    /// Inserts every voucher of the batch, or none. Fails with
    /// `DuplicateCode` when any code collides with an existing row or with
    /// another batch row, and with `Conflict` when an identifier does. A
    /// voucher may reference any network or none: the data model allows
    /// orphaned and global rows, so no referential check is made here.
    pub fn create_vouchers(&mut self, batch: &Vec<Voucher>) -> (r: Result<(), StoreError>)
        requires
            old(self).wf(),
            forall|i: int|
                0 <= i < batch.deep_view().len() ==> voucher_valid(#[trigger] batch.deep_view()[i]),
        ensures
            final(self).wf(),
            (r == Err::<(), StoreError>(StoreError::DuplicateCode)) == batch_code_conflict(
                old(self)@,
                batch.deep_view(),
            ),
            (r == Err::<(), StoreError>(StoreError::Conflict)) == (!batch_code_conflict(
                old(self)@,
                batch.deep_view(),
            ) && batch_id_conflict(old(self)@, batch.deep_view())),
            (r is Ok) == (!batch_code_conflict(old(self)@, batch.deep_view())
                && !batch_id_conflict(old(self)@, batch.deep_view())),
            r is Ok ==> final(self)@ == insert_batch(old(self)@, batch.deep_view()),
            r is Err ==> final(self)@ == old(self)@,
    {
        if self.has_code_conflict(batch) {
            return Err(StoreError::DuplicateCode);
        }
        if self.has_id_conflict(batch) {
            return Err(StoreError::Conflict);
        }
        let ghost s0 = self@;
        let ghost b = batch.deep_view();
        let n = batch.len();
        let mut i: usize = 0;
        proof {
            assert(b.take(0) =~= Seq::<VoucherModel>::empty());
        }
        while i < n
            invariant
                b == batch.deep_view(),
                n == b.len(),
                i <= n,
                forall|x: int|
                    0 <= x < b.len() ==> voucher_valid(#[trigger] b[x]),
                self@ == insert_batch(s0, b.take(i as int)),
                store_valid(self@),
                forall|x: int, y: int| i <= x < y < n ==> b[x].code != b[y].code,
                forall|x: int, y: int| i <= x < y < n ==> b[x].id != b[y].id,
                forall|x: int, k: int|
                    i <= x < n && 0 <= k < self@.len() ==> self@[k].code != b[x].code,
                forall|x: int, k: int|
                    i <= x < n && 0 <= k < self@.len() ==> self@[k].id != b[x].id,
            decreases n - i,
        {
            let ghost pre = self@;
            let v = &batch[i];
            let ghost vm = b[i as int];
            proof {
                assert(v@ == vm);
            }
            let t = v.created_at;
            let len = self.vouchers.len();
            let mut pos: usize = 0;
            while pos < len && self.vouchers[pos].created_at <= t
                invariant
                    pre == self@,
                    len == self@.len(),
                    pos <= len,
                    forall|k: int| 0 <= k < pos ==> self@[k].created_at <= t,
                decreases len - pos,
            {
                pos = pos + 1;
            }
            proof {
                lemma_insert_pos(pre, t);
                assert(pos as int == insert_pos(pre, t)) by {
                    let ip = insert_pos(pre, t);
                    if pos < ip {
                        assert(pre[pos as int].created_at <= t);
                        assert(pre[pos as int].created_at > t);
                    }
                    if pos > ip {
                        assert(pre[ip].created_at <= t);
                        assert(pre[ip].created_at > t);
                    }
                }
            }
            let vc = v.clone();
            self.vouchers.insert(pos, vc);
            proof {
                assert(self@ =~= pre.insert(pos as int, vm));
                assert(self@ == insert_one(pre, vm));
                lemma_insert_one(pre, vm);
                assert(b.take(i + 1) =~= b.take(i as int).push(vm));
                lemma_insert_batch_push(s0, b.take(i as int), vm);
                assert(self@ == insert_batch(s0, b.take(i + 1)));
            }
            i = i + 1;
        }
        proof {
            assert(b.take(n as int) =~= b);
        }
        Ok(())
    }

    /// Every voucher, ordered by creation time ascending.
    pub fn get_all_vouchers(&self) -> (r: Vec<Voucher>)
        ensures
            r.deep_view() == self@,
    {
        let ghost s = self@;
        let n = self.vouchers.len();
        let mut out: Vec<Voucher> = Vec::new();
        proof {
            assert(out.deep_view() =~= s.take(0));
        }
        let mut i: usize = 0;
        while i < n
            invariant
                s == self@,
                n == s.len(),
                i <= n,
                out.deep_view() == s.take(i as int),
            decreases n - i,
        {
            let ghost prev = out.deep_view();
            let ghost prevv = out@;
            let vc = self.vouchers[i].clone();
            proof {
                assert(vc@ == s[i as int]);
            }
            out.push(vc);
            i = i + 1;
            proof {
                assert(out@ == prevv.push(vc));
                assert(prev == Seq::new(prevv.len() as nat, |k: int| prevv[k].deep_view()));
                assert(prev.len() == i - 1);
                assert(prevv.len() == i - 1);
                assert(out@.len() == i);
                assert forall|k: int| 0 <= k < out@.len() implies out.deep_view()[k] == s.take(
                    i as int,
                )[k] by {
                    if k < i - 1 {
                        assert(prevv.push(vc)[k] == prevv[k]);
                        assert(out.deep_view()[k] == prev[k]);
                    } else {
                        assert(prevv.push(vc)[k] == vc);
                    }
                }
                assert(out.deep_view() =~= s.take(i as int));
            }
        }
        proof {
            assert(s.take(n as int) =~= s);
        }
        out
    }

    /// The vouchers of one network, ordered by creation time ascending.
    pub fn get_vouchers_for_network(&self, network_id: &str) -> (r: Vec<Voucher>)
        ensures
            r.deep_view() == self@.filter(for_network(network_id@)),
    {
        let ghost s = self@;
        let ghost p = for_network(network_id@);
        let n = self.vouchers.len();
        let mut out: Vec<Voucher> = Vec::new();
        proof {
            broadcast use vstd::seq_lib::group_seq_lib_default;

            assert(s.take(0) =~= Seq::<VoucherModel>::empty());
            reveal(Seq::filter);
            assert(out.deep_view() =~= s.take(0).filter(p));
        }
        let mut i: usize = 0;
        while i < n
            invariant
                s == self@,
                p == for_network(network_id@),
                n == s.len(),
                i <= n,
                out.deep_view() == s.take(i as int).filter(p),
            decreases n - i,
        {
            let matches = match &self.vouchers[i].network_id {
                Some(nid) => str_eq(nid.as_str(), network_id),
                None => false,
            };
            proof {
                assert(matches == p(s[i as int]));
                assert(s.take(i + 1) =~= s.take(i as int).push(s[i as int]));
                s.take(i as int).lemma_filter_push(s[i as int], p);
            }
            if matches {
                let vc = self.vouchers[i].clone();
                out.push(vc);
                proof {
                    assert(out.deep_view() =~= s.take(i as int).filter(p).push(s[i as int]));
                }
            }
            i = i + 1;
        }
        proof {
            assert(s.take(n as int) =~= s);
        }
        out
    }

    /// The unprinted vouchers of one network, ordered by creation time
    /// ascending, capped at `limit` rows when a limit is given.
    pub fn get_unprinted_vouchers_for_network(
        &self,
        network_id: &str,
        limit: Option<usize>,
    ) -> (r: Vec<Voucher>)
        ensures
            ({
                let f = self@.filter(unprinted_for_network(network_id@));
                match limit {
                    Some(l) => r.deep_view() == if f.len() <= l {
                        f
                    } else {
                        f.take(l as int)
                    },
                    None => r.deep_view() == f,
                }
            }),
    {
        let ghost s = self@;
        let ghost p = unprinted_for_network(network_id@);
        let cap: usize = match limit {
            Some(l) => l,
            None => usize::MAX,
        };
        let n = self.vouchers.len();
        let mut out: Vec<Voucher> = Vec::new();
        proof {
            reveal(Seq::filter);
            assert(s.take(0) =~= Seq::<VoucherModel>::empty());
            assert(out.deep_view() =~= s.take(0).filter(p));
        }
        let mut i: usize = 0;
        while i < n && out.len() < cap
            invariant
                s == self@,
                p == unprinted_for_network(network_id@),
                n == s.len(),
                i <= n,
                out.len() <= cap,
                out.deep_view() == s.take(i as int).filter(p),
                out.deep_view().len() == out.len(),
            decreases n - i,
        {
            let matches = match &self.vouchers[i].network_id {
                Some(nid) => !self.vouchers[i].is_printed && str_eq(nid.as_str(), network_id),
                None => false,
            };
            proof {
                assert(matches == p(s[i as int]));
                assert(s.take(i + 1) =~= s.take(i as int).push(s[i as int]));
                s.take(i as int).lemma_filter_push(s[i as int], p);
            }
            if matches {
                let vc = self.vouchers[i].clone();
                out.push(vc);
                proof {
                    assert(out.deep_view() =~= s.take(i as int).filter(p).push(s[i as int]));
                }
            }
            i = i + 1;
        }
        proof {
            let f = s.filter(p);
            if i == n {
                assert(s.take(n as int) =~= s);
            } else {
                assert(out.len() == cap);
                assert(s =~= s.take(i as int) + s.skip(i as int));
                Seq::filter_distributes_over_add(s.take(i as int), s.skip(i as int), p);
                assert(f == out.deep_view() + s.skip(i as int).filter(p));
                assert(f.take(cap as int) =~= out.deep_view());
                s.skip(i as int).lemma_filter_len(p);
            }
        }
        out
    }

    fn find_by_id(&self, id: &str) -> (r: Option<usize>)
        ensures
            match r {
                Some(i) => i < self@.len() && self@[i as int].id == id@,
                None => forall|k: int| 0 <= k < self@.len() ==> self@[k].id != id@,
            },
    {
        let ghost s = self@;
        let n = self.vouchers.len();
        let mut i: usize = 0;
        while i < n
            invariant
                s == self@,
                n == s.len(),
                i <= n,
                forall|k: int| 0 <= k < i ==> s[k].id != id@,
            decreases n - i,
        {
            if str_eq(self.vouchers[i].id.as_str(), id) {
                proof {
                    assert(s[i as int].id == self.vouchers@[i as int].id@);
                }
                return Some(i);
            }
            i = i + 1;
        }
        None
    }

    /// Replaces row `i` by `nv`, which must keep its identity fields.
    fn put_row(&mut self, i: usize, nv: Voucher)
        requires
            old(self).wf(),
            i < old(self)@.len(),
            nv@.id == old(self)@[i as int].id,
            nv@.code == old(self)@[i as int].code,
            nv@.created_at == old(self)@[i as int].created_at,
            voucher_valid(nv@),
        ensures
            final(self).wf(),
            final(self)@ == old(self)@.update(i as int, nv@),
    {
        let ghost s = self@;
        let ghost prevv = self.vouchers@;
        let ghost nvm = nv@;
        self.vouchers[i] = nv;
        proof {
            assert(self.vouchers@ == prevv.update(i as int, nv));
            assert(s == Seq::new(prevv.len() as nat, |k: int| prevv[k].deep_view()));
            assert forall|k: int| 0 <= k < self@.len() implies self@[k] == s.update(
                i as int,
                nvm,
            )[k] by {
                if k != i {
                    assert(prevv.update(i as int, nv)[k] == prevv[k]);
                } else {
                    assert(prevv.update(i as int, nv)[k] == nv);
                }
            }
            assert(self@ =~= s.update(i as int, nvm));
            lemma_update_keeps_valid(s, i as int, nvm);
        }
    }

    /// Conditional redemption: flips the row to used at time `t` and returns
    /// true exactly when a row with this identifier exists and is unused;
    /// returns false otherwise, leaving the store unchanged.
    pub fn mark_voucher_as_used_at(&mut self, voucher_id: &str, t: i64) -> (r: bool)
        requires
            old(self).wf(),
        ensures
            final(self).wf(),
            r == has_unused(old(self)@, voucher_id@),
            final(self)@ == mark_used_model(old(self)@, voucher_id@, t),
    {
        let ghost s = self@;
        match self.find_by_id(voucher_id) {
            None => {
                proof {
                    assert(!has_unused(s, voucher_id@));
                }
                false
            },
            Some(i) => {
                if self.vouchers[i].is_used {
                    proof {
                        assert(s[i as int].is_used);
                        assert(!has_unused(s, voucher_id@)) by {
                            if has_unused(s, voucher_id@) {
                                let w = choose|w: int|
                                    0 <= w < s.len() && s[w].id == voucher_id@ && !s[w].is_used;
                                if w < i {
                                    assert(s[w].id != s[i as int].id);
                                } else {
                                    assert(s[i as int].id != s[w].id);
                                }
                            }
                        }
                    }
                    false
                } else {
                    let v = &self.vouchers[i];
                    let nv = Voucher {
                        id: v.id.clone(),
                        code: v.code.clone(),
                        network_id: match &v.network_id {
                            Some(x) => Some(x.clone()),
                            None => None,
                        },
                        created_at: v.created_at,
                        is_used: true,
                        used_at: Some(t),
                        is_printed: v.is_printed,
                        printed_at: v.printed_at,
                    };
                    proof {
                        assert(v@ == s[i as int]);
                        assert(nv@ == with_used(s[i as int], t));
                    }
                    self.put_row(i, nv);
                    proof {
                        assert(has_unused(s, voucher_id@));
                        let w = choose|w: int|
                            0 <= w < s.len() && s[w].id == voucher_id@ && !s[w].is_used;
                        if w < i {
                            assert(s[w].id != s[i as int].id);
                        } else if w > i {
                            assert(s[i as int].id != s[w].id);
                        }
                        assert(w == i);
                    }
                    true
                }
            },
        }
    }

    /// Conditional redemption at the current wall-clock time.
    pub fn mark_voucher_as_used(&mut self, voucher_id: &str) -> (r: bool)
        requires
            old(self).wf(),
        ensures
            final(self).wf(),
            r == has_unused(old(self)@, voucher_id@),
            exists|t: i64| final(self)@ == mark_used_model(old(self)@, voucher_id@, t),
    {
        let t = crate::sys::now_ts();
        let r = self.mark_voucher_as_used_at(voucher_id, t);
        proof {
            assert(self@ == mark_used_model(old(self)@, voucher_id@, t));
        }
        r
    }

    /// Unconditional reverse transition: reverts the row to unused and clears
    /// its redemption time; returns true exactly when a row with this
    /// identifier exists.
    pub fn mark_voucher_as_unused(&mut self, voucher_id: &str) -> (r: bool)
        requires
            old(self).wf(),
        ensures
            final(self).wf(),
            r == has_id(old(self)@, voucher_id@),
            final(self)@ == mark_unused_model(old(self)@, voucher_id@),
    {
        let ghost s = self@;
        match self.find_by_id(voucher_id) {
            None => {
                proof {
                    assert(!has_id(s, voucher_id@));
                }
                false
            },
            Some(i) => {
                let v = &self.vouchers[i];
                let nv = Voucher {
                    id: v.id.clone(),
                    code: v.code.clone(),
                    network_id: match &v.network_id {
                        Some(x) => Some(x.clone()),
                        None => None,
                    },
                    created_at: v.created_at,
                    is_used: false,
                    used_at: None,
                    is_printed: v.is_printed,
                    printed_at: v.printed_at,
                };
                proof {
                    assert(v@ == s[i as int]);
                    assert(nv@ == with_unused(s[i as int]));
                }
                self.put_row(i, nv);
                proof {
                    assert(has_id(s, voucher_id@));
                    let w = choose|w: int| 0 <= w < s.len() && s[w].id == voucher_id@;
                    if w < i {
                        assert(s[w].id != s[i as int].id);
                    } else if w > i {
                        assert(s[i as int].id != s[w].id);
                    }
                    assert(w == i);
                }
                true
            },
        }
    }

    /// One conditional print-marking, as used by the batch operation.
    fn mark_printed_single(&mut self, voucher_id: &str, t: i64) -> (r: bool)
        requires
            old(self).wf(),
        ensures
            final(self).wf(),
            r == has_unprinted(old(self)@, voucher_id@),
            final(self)@ == mark_printed_one(old(self)@, voucher_id@, t),
    {
        let ghost s = self@;
        match self.find_by_id(voucher_id) {
            None => {
                proof {
                    assert(!has_unprinted(s, voucher_id@));
                }
                false
            },
            Some(i) => {
                if self.vouchers[i].is_printed {
                    proof {
                        assert(s[i as int].is_printed);
                        assert(!has_unprinted(s, voucher_id@)) by {
                            if has_unprinted(s, voucher_id@) {
                                let w = choose|w: int|
                                    0 <= w < s.len() && s[w].id == voucher_id@ && !s[w].is_printed;
                                if w < i {
                                    assert(s[w].id != s[i as int].id);
                                } else {
                                    assert(s[i as int].id != s[w].id);
                                }
                            }
                        }
                    }
                    false
                } else {
                    let v = &self.vouchers[i];
                    let nv = Voucher {
                        id: v.id.clone(),
                        code: v.code.clone(),
                        network_id: match &v.network_id {
                            Some(x) => Some(x.clone()),
                            None => None,
                        },
                        created_at: v.created_at,
                        is_used: v.is_used,
                        used_at: v.used_at,
                        is_printed: true,
                        printed_at: Some(t),
                    };
                    proof {
                        assert(v@ == s[i as int]);
                        assert(nv@ == with_printed(s[i as int], t));
                    }
                    self.put_row(i, nv);
                    proof {
                        assert(has_unprinted(s, voucher_id@));
                        let w = choose|w: int|
                            0 <= w < s.len() && s[w].id == voucher_id@ && !s[w].is_printed;
                        if w < i {
                            assert(s[w].id != s[i as int].id);
                        } else if w > i {
                            assert(s[i as int].id != s[w].id);
                        }
                        assert(w == i);
                    }
                    true
                }
            },
        }
    }

    /// Marks each listed row printed at time `t`, skipping rows already
    /// printed or absent; returns how many rows actually flipped.
    pub fn mark_vouchers_as_printed_at(&mut self, voucher_ids: &Vec<String>, t: i64) -> (count:
        usize)
        requires
            old(self).wf(),
        ensures
            final(self).wf(),
            final(self)@ == mark_printed_model(old(self)@, voucher_ids.deep_view(), t),
            count == mark_printed_count(old(self)@, voucher_ids.deep_view(), t),
            count <= voucher_ids@.len(),
    {
        let ghost s0 = self@;
        let ghost ids = voucher_ids.deep_view();
        let n = voucher_ids.len();
        let mut count: usize = 0;
        let mut i: usize = 0;
        proof {
            assert(ids.take(0) =~= Seq::<Seq<char>>::empty());
        }
        while i < n
            invariant
                old(self).wf(),
                s0 == old(self)@,
                ids == voucher_ids.deep_view(),
                n == ids.len(),
                i <= n,
                count <= i,
                self.wf(),
                self@ == mark_printed_model(s0, ids.take(i as int), t),
                count == mark_printed_count(s0, ids.take(i as int), t),
            decreases n - i,
        {
            let ghost pre = self@;
            let flipped = self.mark_printed_single(voucher_ids[i].as_str(), t);
            if flipped {
                count = count + 1;
            }
            i = i + 1;
            proof {
                assert(voucher_ids@[i - 1]@ == ids[i - 1]);
                assert(ids.take(i as int) =~= ids.take(i - 1).push(ids[i - 1]));
                lemma_mark_printed_push(s0, ids.take(i - 1), ids[i - 1], t);
            }
        }
        proof {
            assert(ids.take(n as int) =~= ids);
        }
        count
    }

    /// Marks each listed row printed at the current wall-clock time.
    pub fn mark_vouchers_as_printed(&mut self, voucher_ids: &Vec<String>) -> (count: usize)
        requires
            old(self).wf(),
        ensures
            final(self).wf(),
            exists|t: i64|
                final(self)@ == mark_printed_model(old(self)@, voucher_ids.deep_view(), t)
                    && count == mark_printed_count(old(self)@, voucher_ids.deep_view(), t),
            count <= voucher_ids@.len(),
    {
        let t = crate::sys::now_ts();
        let count = self.mark_vouchers_as_printed_at(voucher_ids, t);
        proof {
            assert(self@ == mark_printed_model(old(self)@, voucher_ids.deep_view(), t) && count
                == mark_printed_count(old(self)@, voucher_ids.deep_view(), t));
        }
        count
    }

    /// Aggregate counters for one network, all computed from one snapshot:
    /// total rows, redeemed split, and printed split.
    pub fn get_voucher_counts(&self, network_id: &str) -> (c: VoucherCounts)
        ensures
            ({
                let f = self@.filter(for_network(network_id@));
                &&& c.total == f.len()
                &&& c.used == f.filter(used_pred()).len()
                &&& c.unused == f.filter(unused_pred()).len()
                &&& c.printed == f.filter(printed_pred()).len()
                &&& c.unprinted == f.filter(unprinted_pred()).len()
                &&& c.used + c.unused == c.total
                &&& c.printed + c.unprinted == c.total
            }),
    {
        let ghost s = self@;
        let ghost p = for_network(network_id@);
        let n = self.vouchers.len();
        let mut total: usize = 0;
        let mut used: usize = 0;
        let mut unused: usize = 0;
        let mut printed: usize = 0;
        let mut unprinted: usize = 0;
        proof {
            reveal(Seq::filter);
            assert(s.take(0) =~= Seq::<VoucherModel>::empty());
        }
        let mut i: usize = 0;
        while i < n
            invariant
                s == self@,
                p == for_network(network_id@),
                n == s.len(),
                i <= n,
                total <= i,
                used <= total,
                unused <= total,
                printed <= total,
                unprinted <= total,
                total == s.take(i as int).filter(p).len(),
                used == s.take(i as int).filter(p).filter(used_pred()).len(),
                unused == s.take(i as int).filter(p).filter(unused_pred()).len(),
                printed == s.take(i as int).filter(p).filter(printed_pred()).len(),
                unprinted == s.take(i as int).filter(p).filter(unprinted_pred()).len(),
            decreases n - i,
        {
            let ghost fpre = s.take(i as int).filter(p);
            let matches = match &self.vouchers[i].network_id {
                Some(nid) => str_eq(nid.as_str(), network_id),
                None => false,
            };
            proof {
                assert(matches == p(s[i as int]));
                assert(s.take(i + 1) =~= s.take(i as int).push(s[i as int]));
                s.take(i as int).lemma_filter_push(s[i as int], p);
                if matches {
                    fpre.lemma_filter_push(s[i as int], used_pred());
                    fpre.lemma_filter_push(s[i as int], unused_pred());
                    fpre.lemma_filter_push(s[i as int], printed_pred());
                    fpre.lemma_filter_push(s[i as int], unprinted_pred());
                }
            }
            if matches {
                total = total + 1;
                if self.vouchers[i].is_used {
                    used = used + 1;
                } else {
                    unused = unused + 1;
                }
                if self.vouchers[i].is_printed {
                    printed = printed + 1;
                } else {
                    unprinted = unprinted + 1;
                }
            }
            i = i + 1;
        }
        proof {
            assert(s.take(n as int) =~= s);
            lemma_partition(s.filter(p), used_pred(), unused_pred());
            lemma_partition(s.filter(p), printed_pred(), unprinted_pred());
        }
        VoucherCounts { total, used, unused, printed, unprinted }
    }

    /// The print selection: hands out the network's unprinted vouchers, up
    /// to `count`, in creation order, and marks exactly those rows printed
    /// (at the current wall-clock time). The rows are returned in their
    /// pre-marking state.
    pub fn take_print_batch(&mut self, network_id: &str, count: usize) -> (r: Vec<Voucher>)
        requires
            old(self).wf(),
        ensures
            final(self).wf(),
            ({
                let f = old(self)@.filter(unprinted_for_network(network_id@));
                r.deep_view() == if f.len() <= count {
                    f
                } else {
                    f.take(count as int)
                }
            }),
            exists|t: i64|
                final(self)@ == mark_printed_model(old(self)@, ids_of(r.deep_view()), t),
    {
        let batch = self.get_unprinted_vouchers_for_network(network_id, Some(count));
        let ghost bdv = batch.deep_view();
        let n = batch.len();
        let mut ids: Vec<String> = Vec::new();
        proof {
            assert(bdv.take(0) =~= Seq::<VoucherModel>::empty());
            assert(ids.deep_view() =~= ids_of(bdv.take(0)));
        }
        let mut i: usize = 0;
        while i < n
            invariant
                bdv == batch.deep_view(),
                n == bdv.len(),
                n == batch@.len(),
                i <= n,
                ids.deep_view() == ids_of(bdv.take(i as int)),
            decreases n - i,
        {
            let ghost prevv = ids@;
            let ghost prev = ids.deep_view();
            let id = batch[i].id.clone();
            proof {
                assert(id@ == bdv[i as int].id);
            }
            ids.push(id);
            i = i + 1;
            proof {
                assert(ids@ == prevv.push(id));
                assert(prev == Seq::new(prevv.len() as nat, |k: int| prevv[k].deep_view()));
                assert(prev.len() == i - 1);
                assert(bdv.take(i as int) =~= bdv.take(i - 1).push(bdv[i - 1]));
                assert forall|k: int| 0 <= k < ids@.len() implies ids.deep_view()[k] == ids_of(
                    bdv.take(i as int),
                )[k] by {
                    if k < i - 1 {
                        assert(prevv.push(id)[k] == prevv[k]);
                        assert(ids.deep_view()[k] == prev[k]);
                        assert(bdv.take(i as int)[k] == bdv.take(i - 1)[k]);
                    } else {
                        assert(prevv.push(id)[k] == id);
                        assert(bdv.take(i as int)[k] == bdv[i - 1]);
                    }
                }
                assert(ids.deep_view() =~= ids_of(bdv.take(i as int)));
            }
        }
        self.mark_vouchers_as_printed(&ids);
        proof {
            assert(bdv.take(n as int) =~= bdv);
        }
        batch
    }

    /// Removes every voucher tied to the given network and no others,
    /// unconditionally; this is the sweep primitive that network deletion
    /// uses once it has found the profile. Returns how many rows were
    /// removed.
    pub fn delete_for_network(&mut self, network_id: &str) -> (removed: usize)
        requires
            old(self).wf(),
        ensures
            final(self).wf(),
            final(self)@ == old(self)@.filter(not_for_network(network_id@)),
            removed + final(self)@.len() == old(self)@.len(),
    {
        let ghost s = self@;
        let ghost p = not_for_network(network_id@);
        let n = self.vouchers.len();
        let mut kept: Vec<Voucher> = Vec::new();
        proof {
            reveal(Seq::filter);
            assert(s.take(0) =~= Seq::<VoucherModel>::empty());
            assert(kept.deep_view() =~= s.take(0).filter(p));
        }
        let mut i: usize = 0;
        while i < n
            invariant
                s == self@,
                p == not_for_network(network_id@),
                n == s.len(),
                i <= n,
                kept.deep_view() == s.take(i as int).filter(p),
                kept@.len() <= i,
            decreases n - i,
        {
            let keeps = match &self.vouchers[i].network_id {
                Some(nid) => !str_eq(nid.as_str(), network_id),
                None => true,
            };
            proof {
                assert(keeps == p(s[i as int]));
                assert(s.take(i + 1) =~= s.take(i as int).push(s[i as int]));
                s.take(i as int).lemma_filter_push(s[i as int], p);
                assert(kept.deep_view().len() == kept@.len());
            }
            if keeps {
                let vc = self.vouchers[i].clone();
                kept.push(vc);
                proof {
                    assert(kept.deep_view() =~= s.take(i as int).filter(p).push(s[i as int]));
                }
            }
            i = i + 1;
        }
        let removed = n - kept.len();
        self.vouchers = kept;
        proof {
            assert(s.take(n as int) =~= s);
            lemma_filter_keeps_store_valid(s, p);
            assert(self@ == s.filter(p));
        }
        removed
    }
}

proof fn lemma_mark_printed_push(s: Seq<VoucherModel>, ids: Seq<Seq<char>>, id: Seq<char>, t: i64)
    ensures
        mark_printed_model(s, ids.push(id), t) == mark_printed_one(
            mark_printed_model(s, ids, t),
            id,
            t,
        ),
        mark_printed_count(s, ids.push(id), t) == mark_printed_count(s, ids, t) + (
        if has_unprinted(mark_printed_model(s, ids, t), id) {
            1int
        } else {
            0int
        }),
    decreases ids.len(),
{
    if ids.len() == 0 {
        assert(ids.push(id)[0] == id);
        assert(ids.push(id).drop_first() =~= Seq::<Seq<char>>::empty());
        assert(mark_printed_model(s, ids.push(id), t) == mark_printed_model(
            mark_printed_one(s, id, t),
            Seq::<Seq<char>>::empty(),
            t,
        ));
        assert(mark_printed_model(s, ids, t) == s);
        assert(mark_printed_count(s, ids, t) == 0);
        assert(mark_printed_count(s, ids.push(id), t) == (
        if has_unprinted(s, id) {
            1int
        } else {
            0int
        }) + mark_printed_count(mark_printed_one(s, id, t), Seq::<Seq<char>>::empty(), t));
        assert(mark_printed_count(mark_printed_one(s, id, t), Seq::<Seq<char>>::empty(), t) == 0);
    } else {
        assert(ids.push(id)[0] == ids[0]);
        assert(ids.push(id).drop_first() =~= ids.drop_first().push(id));
        lemma_mark_printed_push(mark_printed_one(s, ids[0], t), ids.drop_first(), id, t);
        assert(mark_printed_model(s, ids.push(id), t) == mark_printed_model(
            mark_printed_one(s, ids[0], t),
            ids.drop_first().push(id),
            t,
        ));
        assert(mark_printed_model(s, ids, t) == mark_printed_model(
            mark_printed_one(s, ids[0], t),
            ids.drop_first(),
            t,
        ));
        assert(mark_printed_count(s, ids.push(id), t) == (
        if has_unprinted(s, ids[0]) {
            1int
        } else {
            0int
        }) + mark_printed_count(mark_printed_one(s, ids[0], t), ids.drop_first().push(id), t));
    }
}


proof fn lemma_insert_pos_bounds(s: Seq<VoucherModel>, t: i64)
    ensures
        0 <= insert_pos(s, t) <= s.len(),
    decreases s.len(),
{
    if s.len() > 0 && s[0].created_at <= t {
        lemma_insert_pos_bounds(s.drop_first(), t);
    }
}

proof fn lemma_insert_one_contains(s: Seq<VoucherModel>, v: VoucherModel)
    ensures
        insert_one(s, v).len() == s.len() + 1,
        insert_one(s, v).contains(v),
        forall|x: VoucherModel| s.contains(x) ==> insert_one(s, v).contains(x),
{
    lemma_insert_pos_bounds(s, v.created_at);
    let p = insert_pos(s, v.created_at);
    s.insert_ensures(p, v);
    let r = insert_one(s, v);
    assert(r[p] == v);
    assert forall|x: VoucherModel| s.contains(x) implies r.contains(x) by {
        let i = choose|i: int| 0 <= i < s.len() && s[i] == x;
        if i < p {
            assert(r[i] == x);
        } else {
            assert(r[i + 1] == x);
        }
    }
}

/// Law: a batch written by `create_vouchers` is re-read intact. Every batch
/// row appears, with all its fields, in the store that `get_all_vouchers`
/// then lists, and every prior row survives; the row count adds up.
pub proof fn lemma_create_batch_round_trip(s: Seq<VoucherModel>, b: Seq<VoucherModel>)
    ensures
        insert_batch(s, b).len() == s.len() + b.len(),
        forall|i: int| 0 <= i < b.len() ==> insert_batch(s, b).contains(#[trigger] b[i]),
        forall|x: VoucherModel| s.contains(x) ==> insert_batch(s, b).contains(x),
    decreases b.len(),
{
    if b.len() > 0 {
        let s1 = insert_one(s, b[0]);
        lemma_insert_one_contains(s, b[0]);
        lemma_create_batch_round_trip(s1, b.drop_first());
        assert forall|i: int| 0 <= i < b.len() implies insert_batch(s, b).contains(
            #[trigger] b[i],
        ) by {
            if i == 0 {
                assert(insert_batch(s1, b.drop_first()).contains(b[0]));
            } else {
                assert(b.drop_first()[i - 1] == b[i]);
            }
        }
    }
}

/// Law: one successful redemption is enough. After `mark_voucher_as_used`
/// flips a row, a second call for the same identifier returns false and
/// leaves the store — the redemption time included — exactly as it was.
pub proof fn lemma_mark_used_idempotent(s: Seq<VoucherModel>, id: Seq<char>, t1: i64, t2: i64)
    requires
        store_valid(s),
        has_unused(s, id),
    ensures
        !has_unused(mark_used_model(s, id, t1), id),
        mark_used_model(mark_used_model(s, id, t1), id, t2) == mark_used_model(s, id, t1),
{
    let i = choose|i: int| 0 <= i < s.len() && s[i].id == id && !s[i].is_used;
    let s1 = s.update(i, with_used(s[i], t1));
    assert(mark_used_model(s, id, t1) == s1);
    assert(!has_unused(s1, id)) by {
        if has_unused(s1, id) {
            let w = choose|w: int| 0 <= w < s1.len() && s1[w].id == id && !s1[w].is_used;
            assert(w != i);
            assert(s1[w] == s[w]);
            if w < i {
                assert(s[w].id != s[i].id);
            } else {
                assert(s[i].id != s[w].id);
            }
        }
    }
}

/// Law: redeeming and then reverting restores the store exactly. When a row
/// is unused, `mark_voucher_as_used` then `mark_voucher_as_unused` gives the
/// store back unchanged: `is_used` is false again and the redemption time is
/// cleared, and no other row ever moved.
pub proof fn lemma_mark_used_then_unused(s: Seq<VoucherModel>, id: Seq<char>, t: i64)
    requires
        store_valid(s),
        has_unused(s, id),
    ensures
        mark_unused_model(mark_used_model(s, id, t), id) == s,
{
    let i = choose|i: int| 0 <= i < s.len() && s[i].id == id && !s[i].is_used;
    let s1 = s.update(i, with_used(s[i], t));
    assert(mark_used_model(s, id, t) == s1);
    assert(s1[i].id == id);
    assert(has_id(s1, id));
    let j = choose|j: int| 0 <= j < s1.len() && s1[j].id == id;
    assert(j == i) by {
        if j != i {
            assert(s1[j] == s[j]);
            if j < i {
                assert(s[j].id != s[i].id);
            } else {
                assert(s[i].id != s[j].id);
            }
        }
    }
    assert(voucher_valid(s[i]));
    assert(s[i].used_at is None);
    assert(with_unused(with_used(s[i], t)) == s[i]);
    assert(mark_unused_model(s1, id) == s1.update(i, s[i]));
    assert(s1.update(i, s[i]) =~= s);
}

/// Law: deleting a network removes exactly its vouchers. Every surviving row
/// references some other network (or none), and every row that referenced
/// another network (or none) survives, untouched.
pub proof fn lemma_cascade_delete_exact(s: Seq<VoucherModel>, nid: Seq<char>)
    ensures
        forall|i: int|
            0 <= i < s.filter(not_for_network(nid)).len() ==> (#[trigger] s.filter(
                not_for_network(nid),
            )[i]).network_id != Some(nid),
        forall|i: int|
            0 <= i < s.len() && s[i].network_id != Some(nid) ==> s.filter(
                not_for_network(nid),
            ).contains(#[trigger] s[i]),
{
    let p = not_for_network(nid);
    broadcast use vstd::seq_lib::group_filter_ensures;

    assert forall|i: int| 0 <= i < s.len() && s[i].network_id != Some(nid) implies s.filter(
        p,
    ).contains(#[trigger] s[i]) by {
        assert(p(s[i]));
    }
}

/// Law: the counters of `get_voucher_counts` balance in every reachable
/// store: used + unused == total == printed + unprinted.
pub proof fn lemma_counts_balance(s: Seq<VoucherModel>, nid: Seq<char>)
    ensures
        ({
            let f = s.filter(for_network(nid));
            &&& f.filter(used_pred()).len() + f.filter(unused_pred()).len() == f.len()
            &&& f.filter(printed_pred()).len() + f.filter(unprinted_pred()).len() == f.len()
        }),
{
    let f = s.filter(for_network(nid));
    lemma_partition(f, used_pred(), unused_pred());
    lemma_partition(f, printed_pred(), unprinted_pred());
}

} // verus!
