//! The server's routing state: the table from virtual destination IPs to
//! the connections that announced them, and the registry of live
//! connections, whose closed marks the reaper and the dispatcher consult.

use rand::Rng;
use vstd::prelude::*;

use crate::protocol::{Envelope, Type, TypeView};

verus! {

/// The route table: each virtual IP maps to the connection addresses that
/// announced it, in insertion order and without duplicates.
pub struct RouteTable {
    entries: Vec<(String, Vec<String>)>,
}

/// The connection registry: each announced address maps to the connection
/// registered under it — an identifier the caller chose, and whether that
/// connection has been marked closed.
pub struct ConnTable {
    conns: Vec<(String, (u64, bool))>,
}

/// No key occurs twice.
pub open spec fn unique_keys<V>(s: Seq<(String, V)>) -> bool {
    forall|i: int, j: int| 0 <= i < j < s.len() ==> s[i].0@ != s[j].0@
}

/// The map a sequence of route entries stands for.
pub open spec fn rt_map(s: Seq<(String, Vec<String>)>) -> Map<Seq<char>, Seq<Seq<char>>>
    decreases s.len(),
{
    if s.len() == 0 {
        Map::empty()
    } else {
        rt_map(s.drop_last()).insert(s.last().0@, s.last().1.deep_view())
    }
}

/// The map a sequence of registry entries stands for.
pub open spec fn ct_map(s: Seq<(String, (u64, bool))>) -> Map<Seq<char>, (u64, bool)>
    decreases s.len(),
{
    if s.len() == 0 {
        Map::empty()
    } else {
        ct_map(s.drop_last()).insert(s.last().0@, s.last().1)
    }
}

proof fn lemma_rt_map(s: Seq<(String, Vec<String>)>)
    requires
        unique_keys(s),
    ensures
        forall|a: Seq<char>|
            #[trigger] rt_map(s).dom().contains(a) <==> exists|i: int|
                0 <= i < s.len() && s[i].0@ == a,
        forall|i: int| 0 <= i < s.len() ==> #[trigger] rt_map(s)[s[i].0@] == s[i].1.deep_view(),
    decreases s.len(),
{
    if s.len() > 0 {
        let d = s.drop_last();
        assert(unique_keys(d));
        lemma_rt_map(d);
        let m = rt_map(s);
        assert forall|a: Seq<char>| #[trigger] m.dom().contains(a) implies exists|i: int|
            0 <= i < s.len() && s[i].0@ == a by {
            if a == s.last().0@ {
                assert(s[s.len() - 1].0@ == a);
            } else {
                assert(rt_map(d).dom().contains(a));
                let i = choose|i: int| 0 <= i < d.len() && d[i].0@ == a;
                assert(d[i] == s[i]);
                assert(s[i].0@ == a);
            }
        }
        assert forall|a: Seq<char>| (exists|i: int| 0 <= i < s.len() && s[i].0@ == a) implies #[trigger] m.dom().contains(a) by {
            let i = choose|i: int| 0 <= i < s.len() && s[i].0@ == a;
            if i < s.len() - 1 {
                assert(d[i] == s[i]);
                assert(d[i].0@ == a);
                assert(rt_map(d).dom().contains(a));
            }
        }
        assert forall|i: int| 0 <= i < s.len() implies #[trigger] m[s[i].0@]
            == s[i].1.deep_view() by {
            if i < s.len() - 1 {
                assert(d[i] == s[i]);
                assert(rt_map(d)[d[i].0@] == d[i].1.deep_view());
                assert(s[i].0@ != s.last().0@);
            }
        }
    }
}

proof fn lemma_ct_map(s: Seq<(String, (u64, bool))>)
    requires
        unique_keys(s),
    ensures
        forall|a: Seq<char>|
            #[trigger] ct_map(s).dom().contains(a) <==> exists|i: int|
                0 <= i < s.len() && s[i].0@ == a,
        forall|i: int| 0 <= i < s.len() ==> #[trigger] ct_map(s)[s[i].0@] == s[i].1,
    decreases s.len(),
{
    if s.len() > 0 {
        let d = s.drop_last();
        assert(unique_keys(d));
        lemma_ct_map(d);
        let m = ct_map(s);
        assert forall|a: Seq<char>| #[trigger] m.dom().contains(a) implies exists|i: int|
            0 <= i < s.len() && s[i].0@ == a by {
            if a == s.last().0@ {
                assert(s[s.len() - 1].0@ == a);
            } else {
                assert(ct_map(d).dom().contains(a));
                let i = choose|i: int| 0 <= i < d.len() && d[i].0@ == a;
                assert(d[i] == s[i]);
                assert(s[i].0@ == a);
            }
        }
        assert forall|a: Seq<char>| (exists|i: int| 0 <= i < s.len() && s[i].0@ == a) implies #[trigger] m.dom().contains(a) by {
            let i = choose|i: int| 0 <= i < s.len() && s[i].0@ == a;
            if i < s.len() - 1 {
                assert(d[i] == s[i]);
                assert(d[i].0@ == a);
                assert(ct_map(d).dom().contains(a));
            }
        }
        assert forall|i: int| 0 <= i < s.len() implies #[trigger] m[s[i].0@] == s[i].1 by {
            if i < s.len() - 1 {
                assert(d[i] == s[i]);
                assert(ct_map(d)[d[i].0@] == d[i].1);
                assert(s[i].0@ != s.last().0@);
            }
        }
    }
}

/// Updating one route entry in place, keeping its key, updates the map at
/// that key alone.
proof fn lemma_rt_map_update(s: Seq<(String, Vec<String>)>, i: int, p: (String, Vec<String>))
    requires
        unique_keys(s),
        0 <= i < s.len(),
        p.0@ == s[i].0@,
    ensures
        unique_keys(s.update(i, p)),
        rt_map(s.update(i, p)) == rt_map(s).insert(p.0@, p.1.deep_view()),
{
    let s2 = s.update(i, p);
    lemma_rt_map(s);
    assert(unique_keys(s2));
    lemma_rt_map(s2);
    let m1 = rt_map(s).insert(p.0@, p.1.deep_view());
    let m2 = rt_map(s2);
    assert forall|a: Seq<char>| #[trigger] m2.dom().contains(a) implies m1.dom().contains(a) by {
        let k = choose|k: int| 0 <= k < s2.len() && s2[k].0@ == a;
        if k != i {
            assert(s[k].0@ == a);
        }
    }
    assert forall|a: Seq<char>| #[trigger] m1.dom().contains(a) implies m2.dom().contains(a) by {
        if a == p.0@ {
            assert(s2[i].0@ == a);
        } else {
            let k = choose|k: int| 0 <= k < s.len() && s[k].0@ == a;
            assert(s2[k].0@ == a);
        }
    }
    assert forall|a: Seq<char>| #[trigger] m2.dom().contains(a) implies m2[a] == m1[a] by {
        let k = choose|k: int| 0 <= k < s2.len() && s2[k].0@ == a;
        assert(m2[s2[k].0@] == s2[k].1.deep_view());
        if k == i {
        } else {
            assert(s[k] == s2[k]);
            assert(rt_map(s)[s[k].0@] == s[k].1.deep_view());
            assert(a != p.0@);
        }
    }
    assert(m2 =~= m1);
}

impl View for RouteTable {
    type V = Map<Seq<char>, Seq<Seq<char>>>;

    closed spec fn view(&self) -> Map<Seq<char>, Seq<Seq<char>>> {
        rt_map(self.entries@)
    }
}

impl View for ConnTable {
    type V = Map<Seq<char>, (u64, bool)>;

    closed spec fn view(&self) -> Map<Seq<char>, (u64, bool)> {
        ct_map(self.conns@)
    }
}

/// A connection address is healthy in a registry snapshot when it is
/// present and not marked closed.
pub open spec fn healthy(conns: Map<Seq<char>, (u64, bool)>, a: Seq<char>) -> bool {
    conns.dom().contains(a) && !conns[a].1
}

/// The route table after one announcement: the entry is created, kept, or
/// extended with the new address.
pub open spec fn route_after_insert(
    m: Map<Seq<char>, Seq<Seq<char>>>,
    ip: Seq<char>,
    addr: Seq<char>,
) -> Map<Seq<char>, Seq<Seq<char>>> {
    m.insert(
        ip,
        if !m.dom().contains(ip) {
            seq![addr]
        } else if m[ip].contains(addr) {
            m[ip]
        } else {
            m[ip].push(addr)
        },
    )
}

/// The registry after one registration: a new address gets the entry, a
/// closed registrant is replaced, a live one is kept.
pub open spec fn conns_after_set(
    m: Map<Seq<char>, (u64, bool)>,
    dst: Seq<char>,
    id: u64,
) -> Map<Seq<char>, (u64, bool)> {
    if !m.dom().contains(dst) {
        m.insert(dst, (id, false))
    } else if m[dst].1 {
        m.insert(dst, (id, false))
    } else {
        m
    }
}

/// The list with every occurrence of one address removed, order kept.
pub open spec fn without(list: Seq<Seq<char>>, addr: Seq<char>) -> Seq<Seq<char>>
    decreases list.len(),
{
    if list.len() == 0 {
        Seq::empty()
    } else if list.last() == addr {
        without(list.drop_last(), addr)
    } else {
        without(list.drop_last(), addr).push(list.last())
    }
}

impl RouteTable {
    /// A well-formed table names each destination once.
    pub closed spec fn wf(&self) -> bool {
        unique_keys(self.entries@)
    }

    pub fn new() -> (r: RouteTable)
        ensures
            r.wf(),
            r@ == Map::<Seq<char>, Seq<Seq<char>>>::empty(),
    {
        RouteTable { entries: Vec::new() }
    }

    fn find_idx(&self, ip: &String) -> (r: Option<usize>)
        ensures
            r matches Some(i) ==> i < self.entries@.len() && self.entries@[i as int].0@ == ip@,
            r is None ==> forall|i: int|
                0 <= i < self.entries@.len() ==> self.entries@[i].0@ != ip@,
    {
        let mut i: usize = 0;
        while i < self.entries.len()
            invariant
                i <= self.entries@.len(),
                forall|j: int| 0 <= j < i ==> self.entries@[j].0@ != ip@,
            decreases self.entries@.len() - i,
        {
            if self.entries[i].0 == *ip {
                return Some(i);
            }
            i = i + 1;
        }
        None
    }

    /// Whether this destination has an entry, and what it holds.
    pub fn lookup(&self, ip: &String) -> (r: Option<Vec<String>>)
        requires
            self.wf(),
        ensures
            r is Some <==> self@.dom().contains(ip@),
            r matches Some(v) ==> v.deep_view() == self@[ip@],
    {
        proof {
            lemma_rt_map(self.entries@);
        }
        match self.find_idx(ip) {
            None => None,
            Some(i) => {
                let v = self.entries[i].1.clone();
                proof {
                    assert(v.deep_view() =~= self.entries@[i as int].1.deep_view());
                }
                Some(v)
            },
        }
    }

    /// Record that `addr` announced `ip`: create the entry or add the
    /// address to it; an address already present is not added twice.
    pub fn insert_route(&mut self, ip: String, addr: String)
        requires
            old(self).wf(),
        ensures
            final(self).wf(),
            final(self)@ == route_after_insert(old(self)@, ip@, addr@),
    {
        proof {
            lemma_rt_map(self.entries@);
        }
        match self.find_idx(&ip) {
            None => {
                let ghost ipv = ip@;
                let ghost addrv = addr@;
                let mut list: Vec<String> = Vec::new();
                list.push(addr);
                self.entries.push((ip, list));
                proof {
                    assert(self.entries@.drop_last() =~= old(self).entries@);
                    assert(self.entries@.last().1.deep_view() =~= seq![addrv]);
                    assert(self@ == old(self)@.insert(ipv, seq![addrv]));
                }
            },
            Some(i) => {
                let ghost ipv = ip@;
                let ghost addrv = addr@;
                let present = {
                    let list = &self.entries[i].1;
                    let mut j: usize = 0;
                    let mut found = false;
                    while j < list.len()
                        invariant
                            j <= list@.len(),
                            found <==> exists|k: int| 0 <= k < j && #[trigger] list@[k]@ == addr@,
                        decreases list@.len() - j,
                    {
                        if list[j] == addr {
                            found = true;
                        }
                        j = j + 1;
                    }
                    found
                };
                if present {
                    proof {
                        let list = self.entries@[i as int].1;
                        let k = choose|k: int| 0 <= k < list@.len() && #[trigger] list@[k]@ == addrv;
                        assert(self@[ipv][k] == addrv);
                        assert(self@[ipv].contains(addrv));
                        assert(self@ =~= old(self)@.insert(ipv, old(self)@[ipv]));
                    }
                } else {
                    proof {
                        let list = self.entries@[i as int].1;
                        if self@[ipv].contains(addrv) {
                            let k = choose|k: int|
                                0 <= k < self@[ipv].len() && self@[ipv][k] == addrv;
                            assert(list@[k]@ == addrv);
                        }
                    }
                    let mut pair = self.entries.remove(i);
                    let (key, mut list) = pair;
                    list.push(addr);
                    self.entries.insert(i, (key, list));
                    proof {
                        assert(self.entries@ =~= old(self).entries@.update(
                            i as int,
                            self.entries@[i as int],
                        ));
                        lemma_rt_map_update(old(self).entries@, i as int, self.entries@[i as int]);
                        assert(self.entries@[i as int].1.deep_view() =~= old(self).entries@[
                            i as int].1.deep_view().push(addrv));
                        assert(self@ == old(self)@.insert(ipv, old(self)@[ipv].push(addrv)));
                    }
                }
            },
        }
    }

    /// Remove one address from a destination's entry; the entry itself
    /// stays, even when it becomes empty.
    pub fn remove_route(&mut self, ip: &String, addr: &String)
        requires
            old(self).wf(),
        ensures
            final(self).wf(),
            !old(self)@.dom().contains(ip@) ==> final(self)@ == old(self)@,
            old(self)@.dom().contains(ip@) ==> final(self)@ == old(self)@.insert(
                ip@,
                without(old(self)@[ip@], addr@),
            ),
    {
        proof {
            lemma_rt_map(self.entries@);
        }
        match self.find_idx(ip) {
            None => {
            },
            Some(i) => {
                let pair = self.entries.remove(i);
                let (key, list) = pair;
                let kept = keep_others(&list, addr);
                self.entries.insert(i, (key, kept));
                proof {
                    assert(self.entries@ =~= old(self).entries@.update(
                        i as int,
                        self.entries@[i as int],
                    ));
                    lemma_rt_map_update(old(self).entries@, i as int, self.entries@[i as int]);
                    assert(self@ == old(self)@.insert(ip@, without(old(self)@[ip@], addr@)));
                }
            },
        }
    }
}

/// A copy of the list without any occurrence of `addr`.
fn keep_others(list: &Vec<String>, addr: &String) -> (r: Vec<String>)
    ensures
        r.deep_view() == without(list.deep_view(), addr@),
{
    let ghost orig = list.deep_view();
    let mut kept: Vec<String> = Vec::new();
    proof {
        assert(orig.take(0) =~= Seq::<Seq<char>>::empty());
    }
    let mut j: usize = 0;
    while j < list.len()
        invariant
            j <= list@.len(),
            orig == list.deep_view(),
            orig.len() == list@.len(),
            kept.deep_view() == without(orig.take(j as int), addr@),
        decreases list@.len() - j,
    {
        let ghost pre = kept.deep_view();
        let ghost tk = orig.take(j as int);
        let ghost tk1 = orig.take(j + 1);
        if !(list[j] == *addr) {
            let s = list[j].clone();
            kept.push(s);
        }
        proof {
            assert(orig[j as int] == list@[j as int]@);
            assert(tk1.drop_last() =~= tk);
            assert(tk1.last() == orig[j as int]);
            if list@[j as int]@ != addr@ {
                assert(kept.deep_view() =~= pre.push(orig[j as int]));
                assert(without(tk1, addr@) == without(tk, addr@).push(orig[j as int]));
            } else {
                assert(without(tk1, addr@) == without(tk, addr@));
            }
        }
        j = j + 1;
    }
    proof {
        assert(orig.take(orig.len() as int) =~= orig);
    }
    kept
}

/// Removing one entry removes its key from the map.
proof fn lemma_ct_map_remove(s: Seq<(String, (u64, bool))>, i: int)
    requires
        unique_keys(s),
        0 <= i < s.len(),
    ensures
        unique_keys(s.remove(i)),
        ct_map(s.remove(i)) == ct_map(s).remove(s[i].0@),
{
    let s2 = s.remove(i);
    lemma_ct_map(s);
    assert forall|p: int, q: int| 0 <= p < q < s2.len() implies s2[p].0@ != s2[q].0@ by {
        if q < i {
            assert(s2[p] == s[p] && s2[q] == s[q]);
        } else if p < i {
            assert(s2[p] == s[p] && s2[q] == s[q + 1]);
        } else {
            assert(s2[p] == s[p + 1] && s2[q] == s[q + 1]);
        }
    }
    lemma_ct_map(s2);
    let m1 = ct_map(s).remove(s[i].0@);
    let m2 = ct_map(s2);
    assert forall|a: Seq<char>| #[trigger] m2.dom().contains(a) implies m1.dom().contains(a)
        && m2[a] == m1[a] by {
        let k = choose|k: int| 0 <= k < s2.len() && s2[k].0@ == a;
        let k0: int = if k < i {
            k
        } else {
            k + 1
        };
        assert(s2[k] == s[k0]);
        assert(s[k0].0@ == a);
        assert(k0 != i);
        assert(ct_map(s)[s[k0].0@] == s[k0].1);
        assert(m2[s2[k].0@] == s2[k].1);
    }
    assert forall|a: Seq<char>| #[trigger] m1.dom().contains(a) implies m2.dom().contains(a) by {
        let k = choose|k: int| 0 <= k < s.len() && s[k].0@ == a;
        assert(k != i);
        let k2: int = if k < i {
            k
        } else {
            k - 1
        };
        assert(s2[k2] == s[k]);
        assert(s2[k2].0@ == a);
    }
    assert(m2 =~= m1);
}

/// Updating one registry entry in place, keeping its key, updates the map
/// at that key alone.
proof fn lemma_ct_map_update(s: Seq<(String, (u64, bool))>, i: int, p: (String, (u64, bool)))
    requires
        unique_keys(s),
        0 <= i < s.len(),
        p.0@ == s[i].0@,
    ensures
        unique_keys(s.update(i, p)),
        ct_map(s.update(i, p)) == ct_map(s).insert(p.0@, p.1),
{
    let s2 = s.update(i, p);
    lemma_ct_map(s);
    assert(unique_keys(s2));
    lemma_ct_map(s2);
    let m1 = ct_map(s).insert(p.0@, p.1);
    let m2 = ct_map(s2);
    assert forall|a: Seq<char>| #[trigger] m2.dom().contains(a) implies m1.dom().contains(a) by {
        let k = choose|k: int| 0 <= k < s2.len() && s2[k].0@ == a;
        if k != i {
            assert(s[k].0@ == a);
        }
    }
    assert forall|a: Seq<char>| #[trigger] m1.dom().contains(a) implies m2.dom().contains(a) by {
        if a == p.0@ {
            assert(s2[i].0@ == a);
        } else {
            let k = choose|k: int| 0 <= k < s.len() && s[k].0@ == a;
            assert(s2[k].0@ == a);
        }
    }
    assert forall|a: Seq<char>| #[trigger] m2.dom().contains(a) implies m2[a] == m1[a] by {
        let k = choose|k: int| 0 <= k < s2.len() && s2[k].0@ == a;
        assert(m2[s2[k].0@] == s2[k].1);
        if k != i {
            assert(s[k] == s2[k]);
            assert(ct_map(s)[s[k].0@] == s[k].1);
            assert(a != p.0@);
        }
    }
    assert(m2 =~= m1);
}

impl ConnTable {
    /// A well-formed registry names each address once.
    pub closed spec fn wf(&self) -> bool {
        unique_keys(self.conns@)
    }

    pub fn new() -> (r: ConnTable)
        ensures
            r.wf(),
            r@ == Map::<Seq<char>, (u64, bool)>::empty(),
    {
        ConnTable { conns: Vec::new() }
    }

    fn find_idx(&self, dst: &String) -> (r: Option<usize>)
        ensures
            r matches Some(i) ==> i < self.conns@.len() && self.conns@[i as int].0@ == dst@,
            r is None ==> forall|i: int|
                0 <= i < self.conns@.len() ==> self.conns@[i].0@ != dst@,
    {
        let mut i: usize = 0;
        while i < self.conns.len()
            invariant
                i <= self.conns@.len(),
                forall|j: int| 0 <= j < i ==> self.conns@[j].0@ != dst@,
            decreases self.conns@.len() - i,
        {
            if self.conns[i].0 == *dst {
                return Some(i);
            }
            i = i + 1;
        }
        None
    }

    /// Get connection by address.
    pub fn get_conn_by_addr(&self, dst: &String) -> (r: Option<(u64, bool)>)
        requires
            self.wf(),
        ensures
            r == if self@.dom().contains(dst@) {
                Some(self@[dst@])
            } else {
                None::<(u64, bool)>
            },
    {
        proof {
            lemma_ct_map(self.conns@);
        }
        match self.find_idx(dst) {
            None => None,
            Some(i) => Some(self.conns[i].1),
        }
    }

    /// Register a connection under an address: a new address gets the
    /// entry; an address whose prior registrant was marked closed is
    /// replaced; a live registrant is kept.
    pub fn set_conn(&mut self, dst: String, id: u64)
        requires
            old(self).wf(),
        ensures
            final(self).wf(),
            final(self)@ == conns_after_set(old(self)@, dst@, id),
    {
        proof {
            lemma_ct_map(self.conns@);
        }
        match self.find_idx(&dst) {
            None => {
                let ghost dstv = dst@;
                self.conns.push((dst, (id, false)));
                proof {
                    assert(self.conns@.drop_last() =~= old(self).conns@);
                }
            },
            Some(i) => {
                if self.conns[i].1.1 {
                    let ghost dstv = dst@;
                    let pair = self.conns.remove(i);
                    self.conns.insert(i, (pair.0, (id, false)));
                    proof {
                        assert(self.conns@ =~= old(self).conns@.update(
                            i as int,
                            self.conns@[i as int],
                        ));
                        lemma_ct_map_update(old(self).conns@, i as int, self.conns@[i as int]);
                    }
                } else {
                    proof {
                        assert(self@ =~= old(self)@);
                    }
                }
            },
        }
    }

    /// Mark the connection with this identifier closed, wherever it is
    /// registered. A mark is never cleared: the flag only moves to closed.
    pub fn mark_closed(&mut self, id: u64)
        requires
            old(self).wf(),
        ensures
            final(self).wf(),
            final(self)@.dom() == old(self)@.dom(),
            forall|a: Seq<char>| #[trigger]
                final(self)@.dom().contains(a) ==> final(self)@[a] == if old(self)@[a].0 == id {
                    (id, true)
                } else {
                    old(self)@[a]
                },
    {
        proof {
            lemma_ct_map(self.conns@);
        }
        let mut i: usize = 0;
        while i < self.conns.len()
            invariant
                old(self).wf(),
                i <= self.conns@.len(),
                self.conns@.len() == old(self).conns@.len(),
                forall|k: int| #![all_triggers]
                    0 <= k < self.conns@.len() ==> self.conns@[k] == if k < i && old(
                        self,
                    ).conns@[k].1.0 == id {
                        (old(self).conns@[k].0, (id, true))
                    } else {
                        old(self).conns@[k]
                    },
            decreases self.conns@.len() - i,
        {
            if self.conns[i].1.0 == id {
                let ghost pre = self.conns@;
                let pair = self.conns.remove(i);
                self.conns.insert(i, (pair.0, (id, true)));
                proof {
                    assert(self.conns@ =~= pre.update(i as int, (pre[i as int].0, (id, true))));
                }
            }
            i = i + 1;
        }
        proof {
            assert(unique_keys(self.conns@));
            lemma_ct_map(self.conns@);
            lemma_ct_map(old(self).conns@);
            assert forall|a: Seq<char>| #[trigger] self@.dom().contains(a) implies old(
                self,
            )@.dom().contains(a) by {
                let k = choose|k: int| 0 <= k < self.conns@.len() && self.conns@[k].0@ == a;
                assert(old(self).conns@[k].0@ == a);
            }
            assert forall|a: Seq<char>| #[trigger] old(self)@.dom().contains(a) implies self@.dom().contains(a) by {
                let k = choose|k: int|
                    0 <= k < old(self).conns@.len() && old(self).conns@[k].0@ == a;
                assert(self.conns@[k].0@ == a);
            }
            assert(self@.dom() =~= old(self)@.dom());
            assert forall|a: Seq<char>| #[trigger] self@.dom().contains(a) implies self@[a] == (
            if old(self)@[a].0 == id {
                (id, true)
            } else {
                old(self)@[a]
            }) by {
                let k = choose|k: int| 0 <= k < self.conns@.len() && self.conns@[k].0@ == a;
                assert(self@[self.conns@[k].0@] == self.conns@[k].1);
                assert(old(self)@[old(self).conns@[k].0@] == old(self).conns@[k].1);
            }
        }
    }

    /// Delete the connection registered under an address.
    pub fn delete_dead_conn(&mut self, dst: &String)
        requires
            old(self).wf(),
        ensures
            final(self).wf(),
            final(self)@ == old(self)@.remove(dst@),
    {
        proof {
            lemma_ct_map(self.conns@);
        }
        match self.find_idx(dst) {
            None => {
                proof {
                    assert(self@ =~= old(self)@.remove(dst@));
                }
            },
            Some(i) => {
                proof {
                    lemma_ct_map_remove(self.conns@, i as int);
                }
                self.conns.remove(i);
            },
        }
    }
}

/// Some route in the table references the address.
pub open spec fn referenced(routes: Map<Seq<char>, Seq<Seq<char>>>, a: Seq<char>) -> bool {
    exists|ip: Seq<char>| #[trigger] routes.dom().contains(ip) && routes[ip].contains(a)
}

/// The list restricted to addresses healthy in the registry snapshot,
/// order kept.
pub open spec fn healthy_only(list: Seq<Seq<char>>, cm: Map<Seq<char>, (u64, bool)>) -> Seq<
    Seq<char>,
>
    decreases list.len(),
{
    if list.len() == 0 {
        Seq::empty()
    } else if healthy(cm, list.last()) {
        healthy_only(list.drop_last(), cm).push(list.last())
    } else {
        healthy_only(list.drop_last(), cm)
    }
}

/// Whatever survives the healthy-only restriction was in the list and is
/// healthy.
proof fn lemma_healthy_only(list: Seq<Seq<char>>, cm: Map<Seq<char>, (u64, bool)>)
    ensures
        forall|x: Seq<char>| #[trigger]
            healthy_only(list, cm).contains(x) ==> list.contains(x) && healthy(cm, x),
    decreases list.len(),
{
    if list.len() > 0 {
        let d = list.drop_last();
        lemma_healthy_only(d, cm);
        assert forall|x: Seq<char>| #[trigger] healthy_only(list, cm).contains(x) implies list.contains(x) && healthy(cm, x) by {
            let h = healthy_only(list, cm);
            let k = choose|k: int| 0 <= k < h.len() && h[k] == x;
            if healthy(cm, list.last()) {
                if k < h.len() - 1 {
                    assert(healthy_only(d, cm)[k] == x);
                    assert(healthy_only(d, cm).contains(x));
                    let j = choose|j: int| 0 <= j < d.len() && d[j] == x;
                    assert(list[j] == x);
                } else {
                    assert(x == list.last());
                    assert(list[list.len() - 1] == x);
                }
            } else {
                assert(healthy_only(d, cm).contains(x));
                let j = choose|j: int| 0 <= j < d.len() && d[j] == x;
                assert(list[j] == x);
            }
        }
    }
}

/// Split one route list against the registry: the healthy addresses, in
/// order, and every address that is dead or missing.
fn split_healthy(list: &Vec<String>, conns: &ConnTable) -> (r: (Vec<String>, Vec<String>))
    requires
        conns.wf(),
    ensures
        r.0.deep_view() == healthy_only(list.deep_view(), conns@),
        forall|t: int| #![all_triggers]
            0 <= t < r.1.deep_view().len() ==> list.deep_view().contains(r.1.deep_view()[t])
                && !healthy(conns@, r.1.deep_view()[t]),
        forall|a: Seq<char>| #[trigger]
            list.deep_view().contains(a) && !healthy(conns@, a) ==> r.1.deep_view().contains(a),
{
    let ghost orig = list.deep_view();
    let mut kept: Vec<String> = Vec::new();
    let mut dead: Vec<String> = Vec::new();
    proof {
        assert(orig.take(0) =~= Seq::<Seq<char>>::empty());
    }
    let mut j: usize = 0;
    while j < list.len()
        invariant
            conns.wf(),
            j <= list@.len(),
            orig == list.deep_view(),
            orig.len() == list@.len(),
            kept.deep_view() == healthy_only(orig.take(j as int), conns@),
            forall|t: int| #![all_triggers]
                0 <= t < dead.deep_view().len() ==> orig.contains(dead.deep_view()[t])
                    && !healthy(conns@, dead.deep_view()[t]),
            forall|k: int| #![all_triggers]
                0 <= k < j && !healthy(conns@, orig[k]) ==> dead.deep_view().contains(orig[k]),
        decreases list@.len() - j,
    {
        let ghost prek = kept.deep_view();
        let ghost pred = dead.deep_view();
        let ghost tk = orig.take(j as int);
        let ghost tk1 = orig.take(j + 1);
        let is_healthy = match conns.get_conn_by_addr(&list[j]) {
            Some((_, closed)) => !closed,
            None => false,
        };
        if is_healthy {
            let s = list[j].clone();
            kept.push(s);
        } else {
            let s = list[j].clone();
            dead.push(s);
        }
        proof {
            assert(orig[j as int] == list@[j as int]@);
            assert(tk1.drop_last() =~= tk);
            assert(tk1.last() == orig[j as int]);
            if healthy(conns@, orig[j as int]) {
                assert(kept.deep_view() =~= prek.push(orig[j as int]));
            } else {
                assert(dead.deep_view() =~= pred.push(orig[j as int]));
                assert forall|k: int|
                    0 <= k < j + 1 && !healthy(conns@, orig[k]) implies dead.deep_view().contains(
                    orig[k],
                ) by {
                    if k < j {
                        let t = choose|t: int| 0 <= t < pred.len() && pred[t] == orig[k];
                        assert(dead.deep_view()[t] == orig[k]);
                    } else {
                        assert(dead.deep_view().last() == orig[k]);
                    }
                }
            }
        }
        j = j + 1;
    }
    proof {
        assert(orig.take(orig.len() as int) =~= orig);
    }
    (kept, dead)
}

/// One reaper pass: restrict every route entry to the connections that are
/// still healthy, and drop every dead referenced connection from the
/// registry. Afterwards every connection the table still references is
/// present and not marked closed.
#[verifier::rlimit(100)]
pub fn reap(routes: &mut RouteTable, conns: &mut ConnTable)
    requires
        old(routes).wf(),
        old(conns).wf(),
    ensures
        final(routes).wf(),
        final(conns).wf(),
        final(routes)@.dom() == old(routes)@.dom(),
        forall|ip: Seq<char>| #[trigger]
            final(routes)@.dom().contains(ip) ==> final(routes)@[ip] == healthy_only(
                old(routes)@[ip],
                old(conns)@,
            ),
        forall|a: Seq<char>| #[trigger]
            final(conns)@.dom().contains(a) <==> old(conns)@.dom().contains(a) && (healthy(
                old(conns)@,
                a,
            ) || !referenced(old(routes)@, a)),
        forall|a: Seq<char>| #[trigger]
            final(conns)@.dom().contains(a) ==> final(conns)@[a] == old(conns)@[a],
        forall|ip: Seq<char>, a: Seq<char>|
            final(routes)@.dom().contains(ip) && #[trigger] final(routes)@[ip].contains(a)
                ==> healthy(final(conns)@, a),
{
    proof {
        lemma_rt_map(routes.entries@);
    }
    let ghost oldr = routes.entries@;
    let mut new_entries: Vec<(String, Vec<String>)> = Vec::new();
    let mut dead_all: Vec<String> = Vec::new();
    let mut i: usize = 0;
    while i < routes.entries.len()
        invariant
            routes.wf(),
            conns.wf(),
            conns@ == old(conns)@,
            oldr == routes.entries@,
            routes == old(routes),
            i <= oldr.len(),
            new_entries@.len() == i as int,
            forall|k: int| #![all_triggers]
                0 <= k < i ==> new_entries@[k].0@ == oldr[k].0@ && new_entries@[k].1.deep_view()
                    == healthy_only(oldr[k].1.deep_view(), old(conns)@),
            forall|t: int| #![all_triggers]
                0 <= t < dead_all.deep_view().len() ==> referenced(
                    old(routes)@,
                    dead_all.deep_view()[t],
                ) && !healthy(old(conns)@, dead_all.deep_view()[t]),
            forall|k: int, a: Seq<char>| #![all_triggers]
                0 <= k < i && oldr[k].1.deep_view().contains(a) && !healthy(old(conns)@, a)
                    ==> dead_all.deep_view().contains(a),
        decreases oldr.len() - i,
    {
        let key = routes.entries[i].0.clone();
        let (kept, mut dead) = split_healthy(&routes.entries[i].1, conns);
        let ghost predall = dead_all.deep_view();
        let ghost deadv = dead.deep_view();
        dead_all.append(&mut dead);
        new_entries.push((key, kept));
        proof {
            lemma_rt_map(oldr);
            assert(dead_all.deep_view() =~= predall + deadv);
            assert(new_entries@[i as int].0@ == oldr[i as int].0@);
            assert forall|t: int|
                0 <= t < dead_all.deep_view().len() implies referenced(
                old(routes)@,
                #[trigger] dead_all.deep_view()[t],
            ) && !healthy(old(conns)@, dead_all.deep_view()[t]) by {
                if t >= predall.len() {
                    let x = dead_all.deep_view()[t];
                    assert(deadv[t - predall.len()] == x);
                    assert(oldr[i as int].1.deep_view().contains(x));
                    assert(old(routes)@.dom().contains(oldr[i as int].0@));
                    assert(old(routes)@[oldr[i as int].0@] == oldr[i as int].1.deep_view());
                }
            }
            assert forall|k: int, a: Seq<char>|
                0 <= k < i + 1 && #[trigger] oldr[k].1.deep_view().contains(a) && !healthy(
                    old(conns)@,
                    a,
                ) implies dead_all.deep_view().contains(a) by {
                if k < i {
                    let t = choose|t: int| 0 <= t < predall.len() && predall[t] == a;
                    assert(dead_all.deep_view()[t] == a);
                } else {
                    let t = choose|t: int| 0 <= t < deadv.len() && deadv[t] == a;
                    assert(dead_all.deep_view()[predall.len() + t] == a);
                }
            }
        }
        i = i + 1;
    }
    routes.entries = new_entries;
    proof {
        assert forall|p: int, q: int|
            0 <= p < q < routes.entries@.len() implies routes.entries@[p].0@
            != routes.entries@[q].0@ by {
            assert(oldr[p].0@ != oldr[q].0@);
        }
        lemma_rt_map(oldr);
        lemma_rt_map(routes.entries@);
        assert forall|ip: Seq<char>| #[trigger] routes@.dom().contains(ip) implies old(
            routes,
        )@.dom().contains(ip) && routes@[ip] == healthy_only(old(routes)@[ip], old(conns)@) by {
            let k = choose|k: int|
                0 <= k < routes.entries@.len() && routes.entries@[k].0@ == ip;
            assert(oldr[k].0@ == ip);
            assert(routes@[routes.entries@[k].0@] == routes.entries@[k].1.deep_view());
            assert(rt_map(oldr)[oldr[k].0@] == oldr[k].1.deep_view());
        }
        assert forall|ip: Seq<char>| #[trigger] old(routes)@.dom().contains(ip) implies routes@.dom().contains(ip) by {
            let k = choose|k: int| 0 <= k < oldr.len() && oldr[k].0@ == ip;
            assert(routes.entries@[k].0@ == ip);
        }
        assert(routes@.dom() =~= old(routes)@.dom());
    }
    let ghost deadall = dead_all.deep_view();
    let ghost midconns = conns@;
    let mut t: usize = 0;
    while t < dead_all.len()
        invariant
            conns.wf(),
            deadall == dead_all.deep_view(),
            deadall.len() == dead_all@.len(),
            t <= deadall.len(),
            forall|a: Seq<char>| #[trigger]
                conns@.dom().contains(a) <==> midconns.dom().contains(a) && !(exists|k: int|
                    0 <= k < t && deadall[k] == a),
            forall|a: Seq<char>| #[trigger]
                conns@.dom().contains(a) ==> conns@[a] == midconns[a],
        decreases deadall.len() - t,
    {
        let ghost before = conns@;
        conns.delete_dead_conn(&dead_all[t]);
        proof {
            assert(dead_all@[t as int]@ == deadall[t as int]);
            assert forall|a: Seq<char>| #[trigger] conns@.dom().contains(a) implies (
            midconns.dom().contains(a) && !(exists|k: int|
                0 <= k < t + 1 && deadall[k] == a)) by {
                assert(before.dom().contains(a) && a != deadall[t as int]);
            }
            assert forall|a: Seq<char>|
                midconns.dom().contains(a) && !(exists|k: int|
                    0 <= k < t + 1 && deadall[k] == a) implies #[trigger] conns@.dom().contains(
                a,
            ) by {
                assert(!(exists|k: int| 0 <= k < t && deadall[k] == a));
                assert(before.dom().contains(a));
            }
        }
        t = t + 1;
    }
    proof {
        lemma_rt_map(oldr);
        assert forall|a: Seq<char>| #[trigger] conns@.dom().contains(a) implies (old(
            conns,
        )@.dom().contains(a) && (healthy(old(conns)@, a) || !referenced(old(routes)@, a))) by {
            if !healthy(old(conns)@, a) && referenced(old(routes)@, a) {
                let ip = choose|ip: Seq<char>| #[trigger]
                    old(routes)@.dom().contains(ip) && old(routes)@[ip].contains(a);
                let k = choose|k: int| 0 <= k < oldr.len() && oldr[k].0@ == ip;
                assert(old(routes)@[oldr[k].0@] == oldr[k].1.deep_view());
                assert(oldr[k].1.deep_view().contains(a));
                assert(deadall.contains(a));
                let u = choose|u: int| 0 <= u < deadall.len() && deadall[u] == a;
                assert(!conns@.dom().contains(a));
            }
        }
        assert forall|a: Seq<char>|
            old(conns)@.dom().contains(a) && (healthy(old(conns)@, a) || !referenced(
                old(routes)@,
                a,
            )) implies #[trigger] conns@.dom().contains(a) by {
            if exists|k: int| 0 <= k < deadall.len() && deadall[k] == a {
                let k = choose|k: int| 0 <= k < deadall.len() && deadall[k] == a;
                assert(referenced(old(routes)@, a) && !healthy(old(conns)@, a));
            }
        }
        assert forall|ip: Seq<char>, a: Seq<char>|
            routes@.dom().contains(ip) && #[trigger] routes@[ip].contains(a) implies healthy(
            conns@,
            a,
        ) by {
            lemma_healthy_only(old(routes)@[ip], old(conns)@);
            assert(healthy(old(conns)@, a));
        }
    }
}

/// What to do with one outbound packet for a destination, as the dispatch
/// pipeline decides it.
#[derive(Debug, Clone, PartialEq)]
pub enum DispatchAction {
    /// No route entry: drop the packet.
    NoRoute,
    /// A route entry with no connections left: drop the packet.
    EmptyRoute,
    /// The chosen connection was dead; it was evicted and the packet is
    /// dropped.
    Evicted(String),
    /// Send the packet on the connection registered under this address.
    Send(String, u64),
}

/// Pick a random index below a bound.
///
/// Relies on `rand::thread_rng` and `Rng::gen_range`: the result lies in
/// the requested range; nothing is promised of its distribution.
#[verifier::external_body]
fn rand_below(n: usize) -> (r: usize)
    requires
        n > 0,
    ensures
        r < n,
{
    rand::thread_rng().gen_range(0..n)
}

/// Decide where one packet for `dst` goes: no route or an empty route
/// drops it; otherwise one announced connection is chosen at random, a
/// dead choice is evicted from the table and the registry, and a healthy
/// choice carries the packet. Whatever the random choice, the chosen
/// address was announced for `dst`.
pub fn dispatch(routes: &mut RouteTable, conns: &mut ConnTable, dst: &String) -> (r:
    DispatchAction)
    requires
        old(routes).wf(),
        old(conns).wf(),
    ensures
        final(routes).wf(),
        final(conns).wf(),
        r is NoRoute <==> !old(routes)@.dom().contains(dst@),
        r is EmptyRoute <==> old(routes)@.dom().contains(dst@) && old(routes)@[dst@].len() == 0,
        r is NoRoute || r is EmptyRoute ==> final(routes)@ == old(routes)@ && final(conns)@
            == old(conns)@,
        r matches DispatchAction::Send(a, id) ==> old(routes)@[dst@].contains(a@) && healthy(old(conns)@, a@)
            && old(conns)@[a@] == (id, false) && final(routes)@ == old(routes)@ && final(conns)@
            == old(conns)@,
        r matches DispatchAction::Evicted(a) ==> old(routes)@[dst@].contains(a@) && !healthy(old(conns)@, a@)
            && final(routes)@ == old(routes)@.insert(dst@, without(old(routes)@[dst@], a@))
            && final(conns)@ == old(conns)@.remove(a@),
{
    match routes.lookup(dst) {
        None => DispatchAction::NoRoute,
        Some(list) => {
            if list.len() == 0 {
                return DispatchAction::EmptyRoute;
            }
            let idx = rand_below(list.len());
            let addr = list[idx].clone();
            proof {
                assert(list.deep_view()[idx as int] == addr@);
                assert(old(routes)@[dst@].contains(addr@));
            }
            let live = match conns.get_conn_by_addr(&addr) {
                Some(pair) => if pair.1 {
                    None
                } else {
                    Some(pair.0)
                },
                None => None,
            };
            match live {
                Some(id) => DispatchAction::Send(addr, id),
                None => {
                    routes.remove_route(dst, &addr);
                    conns.delete_dead_conn(&addr);
                    DispatchAction::Evicted(addr)
                },
            }
        },
    }
}

/// What the server does with one decoded envelope.
#[derive(Debug, PartialEq)]
pub enum ServerEnvelopeAction {
    /// A ping was folded into the route table and the registry.
    RoutedPing,
    /// A tunneled datagram: write these bytes to the TUN device.
    WriteTun(Vec<u8>),
    /// An empty envelope; nothing to do.
    Ignored,
}

/// Fold one envelope received on a server connection into the routing
/// state: a ping announces its virtual IP under the sender's address and
/// registers the connection; a packet is handed back for the TUN device.
pub fn server_on_envelope(
    routes: &mut RouteTable,
    conns: &mut ConnTable,
    env: Envelope,
    conn_id: u64,
) -> (r: ServerEnvelopeAction)
    requires
        old(routes).wf(),
        old(conns).wf(),
    ensures
        final(routes).wf(),
        final(conns).wf(),
        env@.kind matches Some(TypeView::Ping(p)) ==> final(routes)@ == route_after_insert(
            old(routes)@,
            p.ip,
            p.local_addr,
        ) && final(conns)@ == conns_after_set(old(conns)@, p.local_addr, conn_id)
            && r is RoutedPing,
        env@.kind matches Some(TypeView::Packet(p)) ==> (r matches
            ServerEnvelopeAction::WriteTun(v) && v@ == p.payload) && final(routes)@ == old(
            routes,
        )@ && final(conns)@ == old(conns)@,
        env@.kind is None ==> r is Ignored && final(routes)@ == old(routes)@ && final(conns)@
            == old(conns)@,
{
    match env.kind {
        Some(Type::Ping(p)) => {
            let addr_copy = p.local_addr.clone();
            routes.insert_route(p.ip, p.local_addr);
            conns.set_conn(addr_copy, conn_id);
            ServerEnvelopeAction::RoutedPing
        },
        Some(Type::Packet(p)) => ServerEnvelopeAction::WriteTun(p.payload),
        None => ServerEnvelopeAction::Ignored,
    }
}

/// What the client does with one decoded envelope: only tunneled
/// datagrams matter, and they go to the TUN device.
pub fn client_on_envelope(env: Envelope) -> (r: Option<Vec<u8>>)
    ensures
        env@.kind matches Some(TypeView::Packet(p)) ==> (r matches Some(v) && v@ == p.payload),
        !(env@.kind matches Some(TypeView::Packet(p))) ==> r is None,
{
    match env.kind {
        Some(Type::Packet(p)) => Some(p.payload),
        _ => None,
    }
}

} // verus!
