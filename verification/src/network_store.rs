//! The network-profile store: create, lookup, listing, and deletion with a
//! cascade that removes the network's vouchers.

use vstd::prelude::*;

use crate::text::str_eq;
use crate::voucher_store::{not_for_network, StoreError, VoucherStore};
use crate::wifi_network::{NetworkModel, WiFiNetwork};

verus! {

/// No two profiles share an identifier.
pub open spec fn nets_unique_ids(s: Seq<NetworkModel>) -> bool {
    forall|i: int, j: int| 0 <= i < j < s.len() ==> s[i].id != s[j].id
}

/// Profiles are ordered by creation time, ascending.
pub open spec fn nets_sorted(s: Seq<NetworkModel>) -> bool {
    forall|i: int, j: int| 0 <= i <= j < s.len() ==> s[i].created_at <= s[j].created_at
}

/// Well-formedness of the network store's model.
pub open spec fn network_store_valid(s: Seq<NetworkModel>) -> bool {
    nets_unique_ids(s) && nets_sorted(s)
}

/// Whether some profile has this identifier.
pub open spec fn net_has_id(s: Seq<NetworkModel>, id: Seq<char>) -> bool {
    exists|i: int| 0 <= i < s.len() && s[i].id == id
}

/// The profiles that survive deleting network `nid`.
pub open spec fn not_network(nid: Seq<char>) -> spec_fn(NetworkModel) -> bool {
    |n: NetworkModel| n.id != nid
}

/// Where a profile with creation time `t` lands: after every profile whose
/// creation time is at most `t`.
pub open spec fn net_insert_pos(s: Seq<NetworkModel>, t: i64) -> int
    decreases s.len(),
{
    if s.len() == 0 {
        0
    } else if s[0].created_at <= t {
        1 + net_insert_pos(s.drop_first(), t)
    } else {
        0
    }
}

/// One profile inserted at its position.
pub open spec fn net_insert_one(s: Seq<NetworkModel>, n: NetworkModel) -> Seq<NetworkModel> {
    s.insert(net_insert_pos(s, n.created_at), n)
}

proof fn lemma_net_insert_pos(s: Seq<NetworkModel>, t: i64)
    requires
        nets_sorted(s),
    ensures
        0 <= net_insert_pos(s, t) <= s.len(),
        forall|k: int| 0 <= k < net_insert_pos(s, t) ==> s[k].created_at <= t,
        forall|k: int| net_insert_pos(s, t) <= k < s.len() ==> s[k].created_at > t,
    decreases s.len(),
{
    if s.len() == 0 {
    } else if s[0].created_at <= t {
        assert(nets_sorted(s.drop_first()));
        lemma_net_insert_pos(s.drop_first(), t);
        assert forall|k: int| 0 <= k < net_insert_pos(s, t) implies s[k].created_at <= t by {
            if k > 0 {
                assert(s.drop_first()[k - 1] == s[k]);
            }
        }
        assert forall|k: int| net_insert_pos(s, t) <= k < s.len() implies s[k].created_at > t by {
            assert(s.drop_first()[k - 1] == s[k]);
        }
    } else {
        assert forall|k: int| 0 <= k < s.len() implies s[k].created_at > t by {
            assert(s[0].created_at <= s[k].created_at);
        }
    }
}

proof fn lemma_net_insert_one(s: Seq<NetworkModel>, n: NetworkModel)
    requires
        network_store_valid(s),
        forall|k: int| 0 <= k < s.len() ==> s[k].id != n.id,
    ensures
        network_store_valid(net_insert_one(s, n)),
        net_insert_one(s, n).len() == s.len() + 1,
        net_insert_one(s, n).contains(n),
        forall|x: NetworkModel| s.contains(x) ==> net_insert_one(s, n).contains(x),
{
    lemma_net_insert_pos(s, n.created_at);
    let p = net_insert_pos(s, n.created_at);
    s.insert_ensures(p, n);
    let r = net_insert_one(s, n);
    assert(r[p] == n);
    assert forall|x: NetworkModel| s.contains(x) implies r.contains(x) by {
        let i = choose|i: int| 0 <= i < s.len() && s[i] == x;
        if i < p {
            assert(r[i] == x);
        } else {
            assert(r[i + 1] == x);
        }
    }
    assert(nets_sorted(r)) by {
        assert forall|i: int, j: int| 0 <= i <= j < r.len() implies r[i].created_at
            <= r[j].created_at by {
            if i < p {
                assert(r[i] == s[i]);
            } else if i == p {
                assert(r[i] == n);
            } else {
                assert(r[i] == s[i - 1]);
            }
            if j < p {
                assert(r[j] == s[j]);
            } else if j == p {
                assert(r[j] == n);
            } else {
                assert(r[j] == s[j - 1]);
            }
        }
    }
    assert(nets_unique_ids(r)) by {
        assert forall|i: int, j: int| 0 <= i < j < r.len() implies r[i].id != r[j].id by {
            if i < p {
                assert(r[i] == s[i]);
            } else if i == p {
                assert(r[i] == n);
            } else {
                assert(r[i] == s[i - 1]);
            }
            if j < p {
                assert(r[j] == s[j]);
            } else if j == p {
                assert(r[j] == n);
            } else {
                assert(r[j] == s[j - 1]);
            }
        }
    }
}

proof fn lemma_net_filter_members(s: Seq<NetworkModel>, p: spec_fn(NetworkModel) -> bool)
    ensures
        forall|i: int| 0 <= i < s.filter(p).len() ==> s.contains(#[trigger] s.filter(p)[i]),
    decreases s.len(),
{
    reveal(Seq::filter);
    if s.len() > 0 {
        let d = s.drop_last();
        lemma_net_filter_members(d, p);
        let fd = d.filter(p);
        let f = s.filter(p);
        assert forall|i: int| 0 <= i < f.len() implies s.contains(#[trigger] f[i]) by {
            if p(s.last()) && i == f.len() - 1 {
                assert(f[i] == s.last());
                assert(s[s.len() - 1] == s.last());
            } else {
                assert(f[i] == fd[i]);
                assert(d.contains(fd[i]));
                let w = choose|w: int| 0 <= w < d.len() && d[w] == fd[i];
                assert(s[w] == fd[i]);
            }
        }
    }
}

proof fn lemma_net_filter_keeps_valid(s: Seq<NetworkModel>, p: spec_fn(NetworkModel) -> bool)
    requires
        network_store_valid(s),
    ensures
        network_store_valid(s.filter(p)),
    decreases s.len(),
{
    reveal(Seq::filter);
    if s.len() > 0 {
        let d = s.drop_last();
        assert(network_store_valid(d)) by {
            assert forall|i: int, j: int| 0 <= i < j < d.len() implies d[i].id != d[j].id by {
                assert(d[i] == s[i] && d[j] == s[j]);
            }
            assert forall|i: int, j: int| 0 <= i <= j < d.len() implies d[i].created_at
                <= d[j].created_at by {
                assert(d[i] == s[i] && d[j] == s[j]);
            }
        }
        lemma_net_filter_keeps_valid(d, p);
        lemma_net_filter_members(d, p);
        let fd = d.filter(p);
        let f = s.filter(p);
        if p(s.last()) {
            assert(f == fd.push(s.last()));
            assert forall|i: int| 0 <= i < fd.len() implies (fd[i].created_at
                <= s.last().created_at && fd[i].id != s.last().id) by {
                assert(d.contains(fd[i]));
                let w = choose|w: int| 0 <= w < d.len() && d[w] == fd[i];
                assert(s[w] == fd[i]);
                assert(s[w].created_at <= s[s.len() - 1].created_at);
                assert(s[w].id != s[s.len() - 1].id);
            }
            assert forall|i: int, j: int| 0 <= i < j < f.len() implies f[i].id != f[j].id by {
                assert(f[i] == fd[i]);
                if j < fd.len() {
                    assert(f[j] == fd[j]);
                } else {
                    assert(f[j] == s.last());
                }
            }
            assert forall|i: int, j: int| 0 <= i <= j < f.len() implies f[i].created_at
                <= f[j].created_at by {
                if j < fd.len() {
                    assert(f[i] == fd[i] && f[j] == fd[j]);
                } else {
                    assert(f[j] == s.last());
                    if i < fd.len() {
                        assert(f[i] == fd[i]);
                    } else {
                        assert(f[i] == s.last());
                    }
                }
            }
        }
    }
}

/// Persistence and query operations over network profiles.
pub struct NetworkStore {
    networks: Vec<WiFiNetwork>,
}

impl View for NetworkStore {
    type V = Seq<NetworkModel>;

    closed spec fn view(&self) -> Seq<NetworkModel> {
        self.networks.deep_view()
    }
}

impl NetworkStore {
    /// Well-formedness: unique identifiers, ordered by creation time.
    pub open spec fn wf(&self) -> bool {
        network_store_valid(self@)
    }

    /// An empty store.
    pub fn new() -> (s: Self)
        ensures
            s@ == Seq::<NetworkModel>::empty(),
            s.wf(),
    {
        let s = NetworkStore { networks: Vec::new() };
        proof {
            assert(s@ =~= Seq::<NetworkModel>::empty());
        }
        s
    }

    fn find_by_id(&self, id: &str) -> (r: Option<usize>)
        ensures
            match r {
                Some(i) => i < self@.len() && self@[i as int].id == id@,
                None => forall|k: int| 0 <= k < self@.len() ==> self@[k].id != id@,
            },
    {
        let ghost s = self@;
        let n = self.networks.len();
        let mut i: usize = 0;
        while i < n
            invariant
                s == self@,
                n == s.len(),
                i <= n,
                forall|k: int| 0 <= k < i ==> s[k].id != id@,
            decreases n - i,
        {
            if str_eq(self.networks[i].id.as_str(), id) {
                proof {
                    assert(s[i as int].id == self.networks@[i as int].id@);
                }
                return Some(i);
            }
            i = i + 1;
        }
        None
    }

    /// Inserts one profile; succeeds exactly when its identifier is fresh,
    /// and fails with `Conflict` exactly when the identifier already exists.
    pub fn create_network(&mut self, network: &WiFiNetwork) -> (r: Result<(), StoreError>)
        requires
            old(self).wf(),
        ensures
            final(self).wf(),
            (r is Ok) == !net_has_id(old(self)@, network@.id),
            (r == Err::<(), StoreError>(StoreError::Conflict)) == net_has_id(
                old(self)@,
                network@.id,
            ),
            r is Ok ==> final(self)@ == net_insert_one(old(self)@, network@),
            r is Err ==> final(self)@ == old(self)@,
    {
        let ghost s = self@;
        let ghost nm = network@;
        match self.find_by_id(network.id.as_str()) {
            Some(i) => {
                proof {
                    assert(net_has_id(s, nm.id));
                }
                Err(StoreError::Conflict)
            },
            None => {
                let t = network.created_at;
                let len = self.networks.len();
                let mut pos: usize = 0;
                while pos < len && self.networks[pos].created_at <= t
                    invariant
                        s == self@,
                        len == s.len(),
                        pos <= len,
                        forall|k: int| 0 <= k < pos ==> s[k].created_at <= t,
                    decreases len - pos,
                {
                    pos = pos + 1;
                }
                proof {
                    lemma_net_insert_pos(s, t);
                    assert(pos as int == net_insert_pos(s, t)) by {
                        let ip = net_insert_pos(s, t);
                        if pos < ip {
                            assert(s[pos as int].created_at <= t);
                            assert(s[pos as int].created_at > t);
                        }
                        if pos > ip {
                            assert(s[ip].created_at <= t);
                            assert(s[ip].created_at > t);
                        }
                    }
                }
                let ghost prevv = self.networks@;
                let nc = network.clone();
                self.networks.insert(pos, nc);
                proof {
                    assert(s == Seq::new(prevv.len() as nat, |k: int| prevv[k].deep_view()));
                    assert(self@ =~= s.insert(pos as int, nm));
                    lemma_net_insert_one(s, nm);
                }
                Ok(())
            },
        }
    }

    /// The profile with this identifier, if any.
    pub fn get_network(&self, id: &str) -> (r: Option<WiFiNetwork>)
        requires
            self.wf(),
        ensures
            (r is Some) == net_has_id(self@, id@),
            match r {
                Some(n) => n@.id == id@ && self@.contains(n@),
                None => true,
            },
    {
        match self.find_by_id(id) {
            Some(i) => {
                let n = self.networks[i].clone();
                proof {
                    assert(n@ == self@[i as int]);
                    assert(self@.contains(self@[i as int]));
                }
                Some(n)
            },
            None => None,
        }
    }

    /// Every profile, ordered by creation time ascending.
    pub fn get_all_networks(&self) -> (r: Vec<WiFiNetwork>)
        ensures
            r.deep_view() == self@,
    {
        let ghost s = self@;
        let n = self.networks.len();
        let mut out: Vec<WiFiNetwork> = Vec::new();
        proof {
            assert(out.deep_view() =~= s.take(0));
        }
        let mut i: usize = 0;
        while i < n
            invariant
                s == self@,
                n == s.len(),
                i <= n,
                out.deep_view() == s.take(i as int),
            decreases n - i,
        {
            let ghost prev = out.deep_view();
            let ghost prevv = out@;
            let nc = self.networks[i].clone();
            proof {
                assert(nc@ == s[i as int]);
            }
            out.push(nc);
            i = i + 1;
            proof {
                assert(out@ == prevv.push(nc));
                assert(prev == Seq::new(prevv.len() as nat, |k: int| prevv[k].deep_view()));
                assert(prev.len() == i - 1);
                assert forall|k: int| 0 <= k < out@.len() implies out.deep_view()[k] == s.take(
                    i as int,
                )[k] by {
                    if k < i - 1 {
                        assert(prevv.push(nc)[k] == prevv[k]);
                        assert(out.deep_view()[k] == prev[k]);
                    } else {
                        assert(prevv.push(nc)[k] == nc);
                    }
                }
                assert(out.deep_view() =~= s.take(i as int));
            }
        }
        proof {
            assert(s.take(n as int) =~= s);
        }
        out
    }

    /// Deletes the profile with this identifier, cascading to every voucher
    /// that references it, as one operation; no other row of either store is
    /// touched. Returns true exactly when a profile was removed; when no
    /// profile has the identifier, both stores are left completely unchanged
    /// (a voucher may reference a network that no longer exists, and such
    /// orphaned rows are not swept).
    pub fn delete_network(&mut self, vouchers: &mut VoucherStore, id: &str) -> (r: bool)
        requires
            old(self).wf(),
            old(vouchers).wf(),
        ensures
            final(self).wf(),
            final(vouchers).wf(),
            r == net_has_id(old(self)@, id@),
            final(self)@ == if net_has_id(old(self)@, id@) {
                old(self)@.filter(not_network(id@))
            } else {
                old(self)@
            },
            final(vouchers)@ == if net_has_id(old(self)@, id@) {
                old(vouchers)@.filter(not_for_network(id@))
            } else {
                old(vouchers)@
            },
    {
        let ghost s = self@;
        let ghost p = not_network(id@);
        match self.find_by_id(id) {
            Some(i) => {
                proof {
                    assert(net_has_id(s, id@));
                }
            },
            None => {
                proof {
                    assert(!net_has_id(s, id@));
                }
                return false;
            },
        }
        let n = self.networks.len();
        let mut kept: Vec<WiFiNetwork> = Vec::new();
        proof {
            reveal(Seq::filter);
            assert(s.take(0) =~= Seq::<NetworkModel>::empty());
            assert(kept.deep_view() =~= s.take(0).filter(p));
        }
        let mut i: usize = 0;
        while i < n
            invariant
                s == self@,
                p == not_network(id@),
                n == s.len(),
                i <= n,
                kept.deep_view() == s.take(i as int).filter(p),
            decreases n - i,
        {
            let keeps = !str_eq(self.networks[i].id.as_str(), id);
            proof {
                assert(keeps == p(s[i as int]));
                assert(s.take(i + 1) =~= s.take(i as int).push(s[i as int]));
                s.take(i as int).lemma_filter_push(s[i as int], p);
            }
            if keeps {
                let nc = self.networks[i].clone();
                kept.push(nc);
                proof {
                    assert(kept.deep_view() =~= s.take(i as int).filter(p).push(s[i as int]));
                }
            }
            i = i + 1;
        }
        self.networks = kept;
        vouchers.delete_for_network(id);
        proof {
            assert(s.take(n as int) =~= s);
            lemma_net_filter_keeps_valid(s, p);
            assert(self@ == s.filter(p));
        }
        true
    }
}

} // verus!
