//! The connection registry: a bidirectional index between connection ids and
//! component ids, holding an outbound message sink per connection. The two
//! index sides always agree: a connection stands in a component's list
//! exactly when the component stands in that connection's set.
use vstd::prelude::*;
use vstd::string::*;
use crate::cache::now_millis;
use crate::smap::StrMap;
use crate::strutil::{
    lemma_remove_all_id, lemma_remove_all_props, remove_all_spec, vec_contains_str,
    vec_remove_str,
};
use crate::types::LiveTSError;

verus! {

#[verifier::external_type_specification]
#[verifier::external_body]
#[verifier::reject_recursive_types(T)]
pub struct ExUnboundedSender<T>(tokio::sync::mpsc::UnboundedSender<T>);

/// Relies on tokio::sync::mpsc::UnboundedSender::send: queues the message
/// for the receiving half; fails exactly when the receiver has been dropped,
/// which the registry cannot see, so nothing is assumed of the outcome.
#[verifier::external_body]
fn mpsc_send(tx: &tokio::sync::mpsc::UnboundedSender<String>, msg: String) -> bool {
    tx.send(msg).is_ok()
}

/// One socket connection: its associated components (each at most once), the
/// time of its last ping, and its outbound sink once the handshake is done.
pub struct Connection {
    pub component_ids: Vec<String>,
    pub last_ping: u64,
    pub sender: Option<tokio::sync::mpsc::UnboundedSender<String>>,
}

impl Connection {
    /// The component ids, in insertion order.
    pub open spec fn comps(&self) -> Seq<Seq<char>> {
        self.component_ids@.map_values(|t: String| t@)
    }

    /// The component ids never repeat.
    pub open spec fn wf(&self) -> bool {
        forall|i: int, j: int|
            0 <= i < j < self.comps().len() ==> (#[trigger] self.comps()[i]) != (
            #[trigger] self.comps()[j])
    }

    /// A fresh connection with no components and no sink, pinged at `now`.
    pub fn new(now: u64) -> (r: Self)
        ensures
            r.wf(),
            r.comps() == Seq::<Seq<char>>::empty(),
            r.last_ping == now,
            r.sender is None,
    {
        let r = Connection { component_ids: Vec::new(), last_ping: now, sender: None };
        proof {
            assert(r.comps() =~= Seq::<Seq<char>>::empty());
        }
        r
    }

    /// Adds the component unless it is already present.
    pub fn add_component(&mut self, component_id: &str)
        requires
            old(self).wf(),
        ensures
            final(self).wf(),
            final(self).comps() == if old(self).comps().contains(component_id@) {
                old(self).comps()
            } else {
                old(self).comps().push(component_id@)
            },
            final(self).last_ping == old(self).last_ping,
            final(self).sender == old(self).sender,
    {
        if !vec_contains_str(&self.component_ids, component_id) {
            let ghost before = self.component_ids@;
            self.component_ids.push(component_id.to_owned());
            proof {
                let oldc = old(self).comps();
                assert(self.comps() =~= oldc.push(component_id@));
                assert forall|i: int, j: int|
                    0 <= i < j < self.comps().len() implies (#[trigger] self.comps()[i]) != (
                #[trigger] self.comps()[j]) by {
                    if j == self.comps().len() - 1 && self.comps()[i] == self.comps()[j] {
                        assert(oldc.contains(component_id@)) by {
                            assert(oldc[i] == component_id@);
                        }
                    }
                }
            }
        }
    }

    /// Removes every occurrence of the component.
    pub fn remove_component(&mut self, component_id: &str)
        requires
            old(self).wf(),
        ensures
            final(self).wf(),
            final(self).comps() == remove_all_spec(old(self).comps(), component_id@),
            !final(self).comps().contains(component_id@),
            final(self).last_ping == old(self).last_ping,
            final(self).sender == old(self).sender,
    {
        vec_remove_str(&mut self.component_ids, component_id);
        proof {
            lemma_remove_all_props(old(self).comps(), component_id@);
            let post = self.comps();
            assert forall|i: int, j: int|
                0 <= i < j < post.len() implies (#[trigger] post[i]) != (#[trigger] post[j]) by {
                lemma_remove_all_distinct(old(self).comps(), component_id@);
            }
        }
    }

    /// Installs the outbound sink.
    pub fn attach_sender(&mut self, sender: tokio::sync::mpsc::UnboundedSender<String>)
        ensures
            final(self).comps() == old(self).comps(),
            final(self).last_ping == old(self).last_ping,
            final(self).sender is Some,
    {
        self.sender = Some(sender);
    }
}

/// Removal keeps the remaining elements pairwise distinct.
proof fn lemma_remove_all_distinct(s: Seq<Seq<char>>, x: Seq<char>)
    requires
        forall|i: int, j: int| 0 <= i < j < s.len() ==> (#[trigger] s[i]) != (#[trigger] s[j]),
    ensures
        forall|i: int, j: int|
            0 <= i < j < remove_all_spec(s, x).len() ==> (#[trigger] remove_all_spec(s, x)[i]) != (
            #[trigger] remove_all_spec(s, x)[j]),
    decreases s.len(),
{
    if s.len() > 0 {
        assert(forall|i: int, j: int|
            0 <= i < j < s.drop_last().len() ==> (#[trigger] s.drop_last()[i]) != (
            #[trigger] s.drop_last()[j]));
        lemma_remove_all_distinct(s.drop_last(), x);
        lemma_remove_all_props(s.drop_last(), x);
        let r = remove_all_spec(s, x);
        let rp = remove_all_spec(s.drop_last(), x);
        if s.last() != x {
            assert(r == rp.push(s.last()));
            assert forall|i: int, j: int|
                0 <= i < j < r.len() implies (#[trigger] r[i]) != (#[trigger] r[j]) by {
                if j == r.len() - 1 {
                    assert(rp.contains(r[i])) by {
                        assert(rp[i] == r[i]);
                    }
                    assert(s.drop_last().contains(r[i]));
                    let m = choose|m: int|
                        0 <= m < s.drop_last().len() && s.drop_last()[m] == r[i];
                    assert(s[m] == r[i]);
                    assert(s[m] != s[s.len() - 1]);
                }
            }
        }
    }
}

/// What removing one connection does to the registry: its record leaves, the
/// connection leaves every component's list, and lists left empty leave too.
pub open spec fn remove_conn_effect(
    pre_conns: Map<Seq<char>, Connection>,
    pre_idx: Map<Seq<char>, Seq<Seq<char>>>,
    post_conns: Map<Seq<char>, Connection>,
    post_idx: Map<Seq<char>, Seq<Seq<char>>>,
    n: Seq<char>,
) -> bool {
    &&& post_conns == pre_conns.remove(n)
    &&& forall|c: Seq<char>|
        #[trigger] post_idx.contains_key(c) <==> (pre_idx.contains_key(c) && remove_all_spec(
            pre_idx[c],
            n,
        ).len() > 0)
    &&& forall|c: Seq<char>| #[trigger]
        post_idx.contains_key(c) ==> post_idx[c] == remove_all_spec(pre_idx[c], n)
}

/// Manages socket connections and their component associations.
pub struct ConnectionManager {
    connections: StrMap<Connection>,
    component_to_connections: StrMap<Vec<String>>,
}

impl ConnectionManager {
    /// The live connections by id.
    pub closed spec fn conns(&self) -> Map<Seq<char>, Connection> {
        self.connections@
    }

    /// The reverse index: for each component, the connections registered for
    /// it, in registration order.
    pub closed spec fn comp_index(&self) -> Map<Seq<char>, Seq<Seq<char>>> {
        self.component_to_connections@.map_values(|v: Vec<String>| v@.map_values(|t: String| t@))
    }

    pub open spec fn conn_exists(&self, n: Seq<char>) -> bool {
        self.conns().contains_key(n)
    }

    /// The two index sides agree, no list is empty, and no component set
    /// repeats an id.
    pub open spec fn wf(&self) -> bool {
        &&& forall|c: Seq<char>| #[trigger]
            self.comp_index().contains_key(c) ==> self.comp_index()[c].len() > 0
        &&& forall|c: Seq<char>, n: Seq<char>|
            self.comp_index().contains_key(c) && (#[trigger] self.comp_index()[c].contains(n))
                ==> self.conns().contains_key(n) && self.conns()[n].comps().contains(c)
        &&& forall|n: Seq<char>| #[trigger] self.conns().contains_key(n) ==> self.conns()[n].wf()
        &&& forall|n: Seq<char>, c: Seq<char>|
            self.conns().contains_key(n) && (#[trigger] self.conns()[n].comps().contains(c))
                ==> self.comp_index().contains_key(c) && self.comp_index()[c].contains(n)
    }

    /// Both stores are well-formed association lists.
    pub closed spec fn stores_wf(&self) -> bool {
        self.connections.wf() && self.component_to_connections.wf()
    }

    pub fn new() -> (r: Self)
        ensures
            r.wf(),
            r.stores_wf(),
            r.conns() == Map::<Seq<char>, Connection>::empty(),
            r.comp_index() == Map::<Seq<char>, Seq<Seq<char>>>::empty(),
    {
        let r = ConnectionManager {
            connections: StrMap::new(),
            component_to_connections: StrMap::new(),
        };
        proof {
            assert(r.comp_index() =~= Map::<Seq<char>, Seq<Seq<char>>>::empty());
        }
        r
    }

    /// Removes the connection and every association it had; lists left empty
    /// leave the reverse index. Removing an unknown id changes nothing.
    pub fn remove_connection(&mut self, conn_id: &str) -> (r: Result<(), LiveTSError>)
        requires
            old(self).wf(),
            old(self).stores_wf(),
        ensures
            final(self).wf(),
            final(self).stores_wf(),
            r is Ok,
            remove_conn_effect(
                old(self).conns(),
                old(self).comp_index(),
                final(self).conns(),
                final(self).comp_index(),
                conn_id@,
            ),
    {
        let ghost pre_conns = self.conns();
        let ghost pre_idx = self.comp_index();
        let ghost n = conn_id@;
        match self.connections.remove(conn_id) {
            Some(conn) => {
                let ghost comps = conn.comps();
                let mut i: usize = 0;
                while i < conn.component_ids.len()
                    invariant
                        conn.wf(),
                        comps == conn.component_ids@.map_values(|t: String| t@),
                        n == conn_id@,
                        self.connections@ == pre_conns.remove(n),
                        self.connections.wf(),
                        self.component_to_connections.wf(),
                        i <= comps.len(),
                        forall|c: Seq<char>|
                            (exists|j: int| 0 <= j < i && (#[trigger] comps[j]) == c) ==> {
                                &&& (#[trigger] self.comp_index().contains_key(c) <==> (
                                pre_idx.contains_key(c) && remove_all_spec(pre_idx[c], n).len()
                                    > 0))
                                &&& (self.comp_index().contains_key(c) ==> self.comp_index()[c]
                                    == remove_all_spec(pre_idx[c], n))
                            },
                        forall|c: Seq<char>|
                            !(exists|j: int| 0 <= j < i && (#[trigger] comps[j]) == c) ==> {
                                &&& (#[trigger] self.comp_index().contains_key(c)
                                    <==> pre_idx.contains_key(c))
                                &&& (self.comp_index().contains_key(c) ==> self.comp_index()[c]
                                    == pre_idx[c])
                            },
                    decreases comps.len() - i,
                {
                    let ghost ci = comps[i as int];
                    proof {
                        assert(conn.component_ids@[i as int]@ == ci);
                        assert(!(exists|j: int| 0 <= j < i && (#[trigger] comps[j]) == ci)) by {
                            if exists|j: int| 0 <= j < i && (#[trigger] comps[j]) == ci {
                                let j = choose|j: int| 0 <= j < i && (#[trigger] comps[j]) == ci;
                                assert(conn.comps()[j] != conn.comps()[i as int]);
                            }
                        }
                    }
                    let ghost idx_before = self.comp_index();
                    match self.component_to_connections.remove(&conn.component_ids[i]) {
                        Some(mut lst) => {
                            proof {
                                assert(idx_before.contains_key(ci));
                                assert(lst@.map_values(|t: String| t@) == idx_before[ci]);
                                assert(idx_before[ci] == pre_idx[ci]);
                            }
                            vec_remove_str(&mut lst, conn_id);
                            if lst.len() > 0 {
                                self.component_to_connections.insert(
                                    &conn.component_ids[i],
                                    lst,
                                );
                                proof {
                                    assert(self.comp_index() =~= idx_before.insert(
                                        ci,
                                        remove_all_spec(pre_idx[ci], n),
                                    ));
                                }
                            } else {
                                proof {
                                    assert(self.comp_index() =~= idx_before.remove(ci));
                                }
                            }
                        },
                        None => {
                            proof {
                                assert(!idx_before.contains_key(ci));
                            }
                        },
                    }
                    proof {
                        if !idx_before.contains_key(ci) {
                            assert(self.comp_index() =~= idx_before);
                            assert(!pre_idx.contains_key(ci));
                        }
                        assert(self.comp_index().contains_key(ci) <==> (pre_idx.contains_key(ci)
                            && remove_all_spec(pre_idx[ci], n).len() > 0));
                        assert(self.comp_index().contains_key(ci) ==> self.comp_index()[ci]
                            == remove_all_spec(pre_idx[ci], n));
                        assert(forall|c: Seq<char>|
                            c != ci ==> ((#[trigger] self.comp_index().contains_key(c)
                                <==> idx_before.contains_key(c)) && (self.comp_index().contains_key(
                                c,
                            ) ==> self.comp_index()[c] == idx_before[c])));
                    }
                    i = i + 1;
                    proof {
                        assert forall|c: Seq<char>|
                            !(exists|j: int| 0 <= j < i && (#[trigger] comps[j]) == c) implies {
                            &&& (#[trigger] self.comp_index().contains_key(c)
                                <==> pre_idx.contains_key(c))
                            &&& (self.comp_index().contains_key(c) ==> self.comp_index()[c]
                                == pre_idx[c])
                        } by {
                            assert(c != ci) by {
                                assert(comps[i - 1] == ci);
                            }
                        }
                        assert forall|c: Seq<char>|
                            (exists|j: int| 0 <= j < i && (#[trigger] comps[j]) == c) implies {
                            &&& (#[trigger] self.comp_index().contains_key(c) <==> (
                            pre_idx.contains_key(c) && remove_all_spec(pre_idx[c], n).len() > 0))
                            &&& (self.comp_index().contains_key(c) ==> self.comp_index()[c]
                                == remove_all_spec(pre_idx[c], n))
                        } by {
                            let j = choose|j: int| 0 <= j < i && (#[trigger] comps[j]) == c;
                            if j < i - 1 {
                                assert(c != ci) by {
                                    assert(comps[j] != comps[i - 1]);
                                }
                                assert(exists|j2: int|
                                    0 <= j2 < i - 1 && (#[trigger] comps[j2]) == c);
                            } else {
                                assert(c == ci);
                            }
                        }
                    }
                }
                proof {
                    lemma_registry_cleanup(pre_conns, pre_idx, self.conns(), self.comp_index(), n, comps);
                }
                Ok(())
            },
            None => {
                proof {
                    assert(self.conns() =~= pre_conns.remove(n));
                    assert forall|c: Seq<char>| #[trigger]
                        self.comp_index().contains_key(c) implies self.comp_index()[c]
                        == remove_all_spec(pre_idx[c], n) && remove_all_spec(pre_idx[c], n).len()
                        > 0 by {
                        assert(!pre_idx[c].contains(n)) by {
                            if pre_idx[c].contains(n) {
                                assert(pre_conns.contains_key(n));
                            }
                        }
                        lemma_remove_all_id(pre_idx[c], n);
                    }
                }
                Ok(())
            },
        }
    }

    /// Creates an empty connection record pinged now. A record already held
    /// under the same id is removed first, together with its associations.
    pub fn add_connection(&mut self, conn_id: String) -> (r: Result<(), LiveTSError>)
        requires
            old(self).wf(),
            old(self).stores_wf(),
        ensures
            final(self).wf(),
            final(self).stores_wf(),
            r is Ok,
            final(self).conn_exists(conn_id@),
            final(self).conns()[conn_id@].comps() == Seq::<Seq<char>>::empty(),
            final(self).conns()[conn_id@].sender is None,
            forall|m: Seq<char>|
                m != conn_id@ ==> (#[trigger] final(self).conns().contains_key(m) <==> old(self).conns().contains_key(m)),
            forall|m: Seq<char>|
                m != conn_id@ && old(self).conns().contains_key(m) ==> (#[trigger] final(self).conns()[m]) == old(self).conns()[m],
            forall|c: Seq<char>|
                #[trigger] final(self).comp_index().contains_key(c) <==> (old(self).comp_index().contains_key(c) && remove_all_spec(
                    old(self).comp_index()[c],
                    conn_id@,
                ).len() > 0),
            forall|c: Seq<char>| #[trigger]
                final(self).comp_index().contains_key(c) ==> final(self).comp_index()[c]
                    == remove_all_spec(old(self).comp_index()[c], conn_id@),
    {
        let ghost n = conn_id@;
        let _ = self.remove_connection(conn_id.as_str());
        let now = now_millis();
        let conn = Connection::new(now);
        let ghost mid_conns = self.conns();
        let ghost mid_idx = self.comp_index();
        self.connections.insert(conn_id.as_str(), conn);
        proof {
            assert(self.comp_index() == mid_idx);
            assert forall|c: Seq<char>, m: Seq<char>|
                self.comp_index().contains_key(c) && (#[trigger] self.comp_index()[c].contains(
                m,
            )) implies self.conns().contains_key(m) && self.conns()[m].comps().contains(c) by {
                lemma_remove_all_props(old(self).comp_index()[c], n);
                assert(m != n);
            }
            assert forall|m: Seq<char>, c: Seq<char>|
                self.conns().contains_key(m) && (#[trigger] self.conns()[m].comps().contains(c))
                implies self.comp_index().contains_key(c) && self.comp_index()[c].contains(m) by {
                assert(m != n);
                assert(mid_conns.contains_key(m));
                assert(mid_idx.contains_key(c) && mid_idx[c].contains(m));
            }
        }
        Ok(())
    }

    /// Installs the outbound sink on an existing connection.
    pub fn attach_sender(
        &mut self,
        conn_id: &str,
        sender: tokio::sync::mpsc::UnboundedSender<String>,
    ) -> (r: Result<(), LiveTSError>)
        requires
            old(self).wf(),
            old(self).stores_wf(),
        ensures
            final(self).wf(),
            final(self).stores_wf(),
            r is Ok <==> old(self).conn_exists(conn_id@),
            final(self).comp_index() == old(self).comp_index(),
            r is Err ==> final(self).conns() == old(self).conns() && (match r {
                Err(e) => e is ConnectionNotFound,
                Ok(_) => true,
            }),
            r is Ok ==> {
                &&& final(self).conns().dom() =~= old(self).conns().dom()
                &&& final(self).conns()[conn_id@].comps() == old(self).conns()[conn_id@].comps()
                &&& final(self).conns()[conn_id@].last_ping == old(self).conns()[conn_id@].last_ping
                &&& final(self).conns()[conn_id@].sender is Some
                &&& forall|m: Seq<char>|
                    m != conn_id@ && old(self).conns().contains_key(m) ==> (#[trigger] final(self).conns()[m]) == old(self).conns()[m]
            },
    {
        match self.connections.remove(conn_id) {
            Some(mut conn) => {
                conn.attach_sender(sender);
                self.connections.insert(conn_id, conn);
                proof {
                    assert(self.comp_index() == old(self).comp_index());
                    assert(self.conns().dom() =~= old(self).conns().dom());
                    assert(self.conns()[conn_id@].comps() == old(self).conns()[conn_id@].comps());
                    lemma_same_comps_wf(old(self).conns(), old(self).comp_index(), self.conns(), conn_id@);
                    assert forall|c: Seq<char>| #[trigger]
                        self.comp_index().contains_key(c) implies self.comp_index()[c].len()
                        > 0 by {
                        assert(old(self).comp_index().contains_key(c));
                        assert(old(self).comp_index()[c].len() > 0);
                    }
                    assert forall|c: Seq<char>, m: Seq<char>|
                        self.comp_index().contains_key(c) && (#[trigger] self.comp_index()[
                        c].contains(m)) implies self.conns().contains_key(m)
                        && self.conns()[m].comps().contains(c) by {
                        assert(old(self).comp_index()[c].contains(m));
                    }
                    assert(self.wf());
                }
                Ok(())
            },
            None => {
                proof {
                    assert(self.conns() =~= old(self).conns());
                    assert(self.conns() == old(self).conns());
                    assert(self.comp_index() == old(self).comp_index());
                    assert(forall|c: Seq<char>| #[trigger]
                        self.comp_index().contains_key(c) ==> self.comp_index()[c].len() > 0);
                    assert(forall|c: Seq<char>, n: Seq<char>|
                        self.comp_index().contains_key(c) && (#[trigger] self.comp_index()[
                        c].contains(n)) ==> self.conns().contains_key(n)
                        && self.conns()[n].comps().contains(c));
                    assert(forall|n: Seq<char>| #[trigger]
                        self.conns().contains_key(n) ==> self.conns()[n].wf());
                    assert(forall|n: Seq<char>, c: Seq<char>|
                        self.conns().contains_key(n) && (#[trigger] self.conns()[
                        n].comps().contains(c)) ==> self.comp_index().contains_key(c)
                        && self.comp_index()[c].contains(n));
                    assert(self.wf());
                }
                Err(LiveTSError::ConnectionNotFound(conn_id.to_owned()))
            },
        }
    }

    /// Refreshes the connection's last-ping time.
    pub fn update_ping(&mut self, conn_id: &str) -> (r: Result<(), LiveTSError>)
        requires
            old(self).wf(),
            old(self).stores_wf(),
        ensures
            final(self).wf(),
            final(self).stores_wf(),
            r is Ok <==> old(self).conn_exists(conn_id@),
            final(self).comp_index() == old(self).comp_index(),
            r is Err ==> final(self).conns() == old(self).conns() && (match r {
                Err(e) => e is ConnectionNotFound,
                Ok(_) => true,
            }),
            r is Ok ==> {
                &&& final(self).conns().dom() =~= old(self).conns().dom()
                &&& final(self).conns()[conn_id@].comps() == old(self).conns()[conn_id@].comps()
                &&& final(self).conns()[conn_id@].sender == old(self).conns()[conn_id@].sender
                &&& forall|m: Seq<char>|
                    m != conn_id@ && old(self).conns().contains_key(m) ==> (#[trigger] final(self).conns()[m]) == old(self).conns()[m]
            },
    {
        match self.connections.remove(conn_id) {
            Some(mut conn) => {
                conn.last_ping = now_millis();
                self.connections.insert(conn_id, conn);
                proof {
                    assert(self.comp_index() == old(self).comp_index());
                    assert(self.conns().dom() =~= old(self).conns().dom());
                    assert(self.conns()[conn_id@].comps() == old(self).conns()[conn_id@].comps());
                    lemma_same_comps_wf(old(self).conns(), old(self).comp_index(), self.conns(), conn_id@);
                    assert forall|c: Seq<char>| #[trigger]
                        self.comp_index().contains_key(c) implies self.comp_index()[c].len()
                        > 0 by {
                        assert(old(self).comp_index().contains_key(c));
                        assert(old(self).comp_index()[c].len() > 0);
                    }
                    assert forall|c: Seq<char>, m: Seq<char>|
                        self.comp_index().contains_key(c) && (#[trigger] self.comp_index()[
                        c].contains(m)) implies self.conns().contains_key(m)
                        && self.conns()[m].comps().contains(c) by {
                        assert(old(self).comp_index()[c].contains(m));
                    }
                }
                Ok(())
            },
            None => {
                proof {
                    assert(self.conns() =~= old(self).conns());
                    assert(self.conns() == old(self).conns());
                    assert(self.comp_index() == old(self).comp_index());
                    assert(forall|c: Seq<char>| #[trigger]
                        self.comp_index().contains_key(c) ==> self.comp_index()[c].len() > 0);
                    assert(forall|c: Seq<char>, n: Seq<char>|
                        self.comp_index().contains_key(c) && (#[trigger] self.comp_index()[
                        c].contains(n)) ==> self.conns().contains_key(n)
                        && self.conns()[n].comps().contains(c));
                    assert(forall|n: Seq<char>| #[trigger]
                        self.conns().contains_key(n) ==> self.conns()[n].wf());
                    assert(forall|n: Seq<char>, c: Seq<char>|
                        self.conns().contains_key(n) && (#[trigger] self.conns()[
                        n].comps().contains(c)) ==> self.comp_index().contains_key(c)
                        && self.comp_index()[c].contains(n));
                    assert(self.wf());
                }
                Err(LiveTSError::ConnectionNotFound(conn_id.to_owned()))
            },
        }
    }

    /// Associates the component with the connection: the component enters
    /// the connection's set (once), and the connection is appended to the
    /// component's list.
    pub fn register_component(&mut self, component_id: String, conn_id: String) -> (r: Result<
        (),
        LiveTSError,
    >)
        requires
            old(self).wf(),
            old(self).stores_wf(),
        ensures
            final(self).wf(),
            final(self).stores_wf(),
            r is Ok <==> old(self).conn_exists(conn_id@),
            r is Err ==> final(self).conns() == old(self).conns() && final(self).comp_index()
                == old(self).comp_index() && (match r {
                Err(e) => e is ConnectionNotFound,
                Ok(_) => true,
            }),
            r is Ok ==> {
                &&& final(self).conns().dom() =~= old(self).conns().dom()
                &&& final(self).conns()[conn_id@].comps() == (if old(self).conns()[conn_id@].comps().contains(component_id@) {
                    old(self).conns()[conn_id@].comps()
                } else {
                    old(self).conns()[conn_id@].comps().push(component_id@)
                })
                &&& final(self).conns()[conn_id@].last_ping == old(self).conns()[conn_id@].last_ping
                &&& final(self).conns()[conn_id@].sender == old(self).conns()[conn_id@].sender
                &&& forall|m: Seq<char>|
                    m != conn_id@ && old(self).conns().contains_key(m) ==> (#[trigger] final(self).conns()[m]) == old(self).conns()[m]
                &&& final(self).comp_index() == old(self).comp_index().insert(
                    component_id@,
                    (if old(self).comp_index().contains_key(component_id@) {
                        old(self).comp_index()[component_id@]
                    } else {
                        Seq::<Seq<char>>::empty()
                    }).push(conn_id@),
                )
            },
    {
        let ghost n = conn_id@;
        let ghost c = component_id@;
        match self.connections.remove(conn_id.as_str()) {
            None => {
                proof {
                    assert(self.conns() =~= old(self).conns());
                    assert(self.conns() == old(self).conns());
                    assert(self.comp_index() == old(self).comp_index());
                    assert(forall|c: Seq<char>| #[trigger]
                        self.comp_index().contains_key(c) ==> self.comp_index()[c].len() > 0);
                    assert(forall|c: Seq<char>, n: Seq<char>|
                        self.comp_index().contains_key(c) && (#[trigger] self.comp_index()[
                        c].contains(n)) ==> self.conns().contains_key(n)
                        && self.conns()[n].comps().contains(c));
                    assert(forall|n: Seq<char>| #[trigger]
                        self.conns().contains_key(n) ==> self.conns()[n].wf());
                    assert(forall|n: Seq<char>, c: Seq<char>|
                        self.conns().contains_key(n) && (#[trigger] self.conns()[
                        n].comps().contains(c)) ==> self.comp_index().contains_key(c)
                        && self.comp_index()[c].contains(n));
                    assert(self.wf());
                }
                Err(LiveTSError::ConnectionNotFound(conn_id))
            },
            Some(mut conn) => {
                conn.add_component(component_id.as_str());
                self.connections.insert(conn_id.as_str(), conn);
                let ghost mid_conns = self.conns();
                match self.component_to_connections.remove(component_id.as_str()) {
                    Some(mut lst) => {
                        let ghost lv = lst@.map_values(|t: String| t@);
                        let ghost before = self.comp_index();
                        lst.push(conn_id.clone());
                        proof {
                            assert(lst@.map_values(|t: String| t@) =~= lv.push(n));
                        }
                        self.component_to_connections.insert(component_id.as_str(), lst);
                        proof {
                            assert(self.comp_index() =~= before.insert(c, lv.push(n)));
                            assert(before == old(self).comp_index().remove(c));
                            assert(self.comp_index() =~= old(self).comp_index().insert(
                                c,
                                old(self).comp_index()[c].push(n),
                            ));
                        }
                    },
                    None => {
                        let ghost before = self.comp_index();
                        let mut lst: Vec<String> = Vec::new();
                        lst.push(conn_id.clone());
                        proof {
                            assert(lst@.map_values(|t: String| t@) =~= Seq::<
                                Seq<char>,
                            >::empty().push(n));
                        }
                        self.component_to_connections.insert(component_id.as_str(), lst);
                        proof {
                            assert(self.comp_index() =~= old(self).comp_index().insert(
                                c,
                                Seq::<Seq<char>>::empty().push(n),
                            ));
                        }
                    },
                }
                proof {
                    assert(self.conns().dom() =~= old(self).conns().dom());
                    lemma_register_wf(old(self).conns(), old(self).comp_index(), self.conns(), self.comp_index(), n, c);
                }
                Ok(())
            },
        }
    }

    /// Dissolves the association between the component and the connection,
    /// pruning the component's list when it empties.
    pub fn unregister_component(&mut self, component_id: &str, conn_id: &str) -> (r: Result<
        (),
        LiveTSError,
    >)
        requires
            old(self).wf(),
            old(self).stores_wf(),
        ensures
            final(self).wf(),
            final(self).stores_wf(),
            r is Ok,
            old(self).conn_exists(conn_id@) ==> {
                &&& final(self).conns().dom() =~= old(self).conns().dom()
                &&& final(self).conns()[conn_id@].comps() == remove_all_spec(
                    old(self).conns()[conn_id@].comps(),
                    component_id@,
                )
                &&& final(self).conns()[conn_id@].last_ping == old(self).conns()[conn_id@].last_ping
                &&& final(self).conns()[conn_id@].sender == old(self).conns()[conn_id@].sender
                &&& forall|m: Seq<char>|
                    m != conn_id@ && old(self).conns().contains_key(m) ==> (#[trigger] final(self).conns()[m]) == old(self).conns()[m]
            },
            !old(self).conn_exists(conn_id@) ==> final(self).conns() == old(self).conns(),
            old(self).comp_index().contains_key(component_id@) ==> final(self).comp_index() == (
            if remove_all_spec(old(self).comp_index()[component_id@], conn_id@).len() > 0 {
                old(self).comp_index().insert(
                    component_id@,
                    remove_all_spec(old(self).comp_index()[component_id@], conn_id@),
                )
            } else {
                old(self).comp_index().remove(component_id@)
            }),
            !old(self).comp_index().contains_key(component_id@) ==> final(self).comp_index()
                == old(self).comp_index(),
    {
        let ghost n = conn_id@;
        let ghost c = component_id@;
        match self.connections.remove(conn_id) {
            Some(mut conn) => {
                conn.remove_component(component_id);
                self.connections.insert(conn_id, conn);
                proof {
                    assert(self.conns().dom() =~= old(self).conns().dom());
                }
            },
            None => {
                proof {
                    assert(self.conns() =~= old(self).conns());
                }
            },
        }
        let ghost mid_conns = self.conns();
        match self.component_to_connections.remove(component_id) {
            Some(mut lst) => {
                let ghost lv = lst@.map_values(|t: String| t@);
                let ghost before = self.comp_index();
                vec_remove_str(&mut lst, conn_id);
                if lst.len() > 0 {
                    self.component_to_connections.insert(component_id, lst);
                    proof {
                        assert(self.comp_index() =~= old(self).comp_index().insert(
                            c,
                            remove_all_spec(old(self).comp_index()[c], n),
                        ));
                    }
                } else {
                    proof {
                        assert(self.comp_index() =~= old(self).comp_index().remove(c));
                    }
                }
            },
            None => {
                proof {
                    assert(self.comp_index() =~= old(self).comp_index());
                }
            },
        }
        proof {
            lemma_unregister_wf(
                old(self).conns(),
                old(self).comp_index(),
                self.conns(),
                self.comp_index(),
                n,
                c,
            );
        }
        Ok(())
    }

    /// Sends the payload to one connection; absent connections and missing
    /// or failed sinks are reported as errors.
    pub fn send_to_connection(&self, conn_id: &str, data: &str) -> (r: Result<(), LiveTSError>)
        requires
            self.stores_wf(),
        ensures
            match r {
                Ok(_) => self.conn_exists(conn_id@) && self.conns()[conn_id@].sender is Some,
                Err(e) => match e {
                    LiveTSError::ConnectionNotFound(_) => !self.conn_exists(conn_id@),
                    LiveTSError::WebSocketError(_) => self.conn_exists(conn_id@),
                    _ => false,
                },
            },
            !self.conn_exists(conn_id@) ==> r is Err,
            self.conn_exists(conn_id@) && self.conns()[conn_id@].sender is None ==> r is Err,
    {
        match self.connections.get(conn_id) {
            Some(conn) => match &conn.sender {
                Some(tx) => {
                    if mpsc_send(tx, data.to_owned()) {
                        Ok(())
                    } else {
                        Err(LiveTSError::WebSocketError("send failed".to_owned()))
                    }
                },
                None => Err(
                    LiveTSError::WebSocketError("no sender attached to connection".to_owned()),
                ),
            },
            None => Err(LiveTSError::ConnectionNotFound(conn_id.to_owned())),
        }
    }

    /// Sends the payload to every connection registered for the component,
    /// going on past individual failures.
    pub fn broadcast_to_component(&self, component_id: &str, data: &str) -> (r: Result<
        (),
        LiveTSError,
    >)
        requires
            self.stores_wf(),
        ensures
            r is Ok,
    {
        match self.component_to_connections.get(component_id) {
            Some(lst) => {
                let mut i: usize = 0;
                let n = lst.len();
                while i < n
                    invariant
                        self.stores_wf(),
                        n == lst@.len(),
                        i <= n,
                    decreases n - i,
                {
                    let _ = self.send_to_connection(lst[i].as_str(), data);
                    i = i + 1;
                }
                Ok(())
            },
            None => Ok(()),
        }
    }

    /// The connections registered for the component, in registration order.
    pub fn get_component_connections(&self, component_id: &str) -> (r: Vec<String>)
        requires
            self.stores_wf(),
        ensures
            self.comp_index().contains_key(component_id@) ==> r@.map_values(|t: String| t@)
                == self.comp_index()[component_id@],
            !self.comp_index().contains_key(component_id@) ==> r@.len() == 0,
    {
        match self.component_to_connections.get(component_id) {
            Some(lst) => crate::strutil::clone_string_vec(lst),
            None => Vec::new(),
        }
    }

    /// The number of live connections.
    pub fn connection_count(&self) -> (n: usize)
        requires
            self.stores_wf(),
        ensures
            n == self.conns().dom().len(),
    {
        self.connections.len()
    }

    /// The number of components with at least one registered connection.
    pub fn component_count(&self) -> (n: usize)
        requires
            self.stores_wf(),
        ensures
            n == self.comp_index().dom().len(),
    {
        proof {
            assert(self.comp_index().dom() =~= self.component_to_connections@.dom());
        }
        self.component_to_connections.len()
    }
}

/// Well-formedness survives replacing one connection's record by one with
/// the same component set.
proof fn lemma_same_comps_wf(
    pre_conns: Map<Seq<char>, Connection>,
    idx: Map<Seq<char>, Seq<Seq<char>>>,
    post_conns: Map<Seq<char>, Connection>,
    n: Seq<char>,
)
    requires
        forall|c: Seq<char>| #[trigger] idx.contains_key(c) ==> idx[c].len() > 0,
        forall|c: Seq<char>, m: Seq<char>|
            idx.contains_key(c) && (#[trigger] idx[c].contains(m)) ==> pre_conns.contains_key(m)
                && pre_conns[m].comps().contains(c),
        forall|m: Seq<char>| #[trigger] pre_conns.contains_key(m) ==> pre_conns[m].wf(),
        forall|m: Seq<char>, c: Seq<char>|
            pre_conns.contains_key(m) && (#[trigger] pre_conns[m].comps().contains(c))
                ==> idx.contains_key(c) && idx[c].contains(m),
        pre_conns.contains_key(n),
        post_conns.dom() == pre_conns.dom(),
        post_conns[n].comps() == pre_conns[n].comps(),
        forall|m: Seq<char>|
            m != n && pre_conns.contains_key(m) ==> (#[trigger] post_conns[m]) == pre_conns[m],
    ensures
        forall|c: Seq<char>, m: Seq<char>|
            idx.contains_key(c) && (#[trigger] idx[c].contains(m)) ==> post_conns.contains_key(m)
                && post_conns[m].comps().contains(c),
        forall|m: Seq<char>| #[trigger] post_conns.contains_key(m) ==> post_conns[m].wf(),
        forall|m: Seq<char>, c: Seq<char>|
            post_conns.contains_key(m) && (#[trigger] post_conns[m].comps().contains(c))
                ==> idx.contains_key(c) && idx[c].contains(m),
{
    assert forall|m: Seq<char>| #[trigger] post_conns.contains_key(m) implies post_conns[m].wf()
        by {
        assert(pre_conns.contains_key(m));
        if m != n {
            assert(post_conns[m] == pre_conns[m]);
        } else {
            assert(post_conns[n].comps() == pre_conns[n].comps());
            assert(pre_conns[n].wf());
        }
    }
}

/// Requires the invariant on the state before a connection's removal and the
/// removal's per-component effects; concludes the invariant afterwards and
/// the global removal effect.
proof fn lemma_registry_cleanup(
    pre_conns: Map<Seq<char>, Connection>,
    pre_idx: Map<Seq<char>, Seq<Seq<char>>>,
    post_conns: Map<Seq<char>, Connection>,
    post_idx: Map<Seq<char>, Seq<Seq<char>>>,
    n: Seq<char>,
    comps: Seq<Seq<char>>,
)
    requires
        forall|c: Seq<char>| #[trigger] pre_idx.contains_key(c) ==> pre_idx[c].len() > 0,
        forall|c: Seq<char>, m: Seq<char>|
            pre_idx.contains_key(c) && (#[trigger] pre_idx[c].contains(m))
                ==> pre_conns.contains_key(m) && pre_conns[m].comps().contains(c),
        forall|m: Seq<char>| #[trigger] pre_conns.contains_key(m) ==> pre_conns[m].wf(),
        forall|m: Seq<char>, c: Seq<char>|
            pre_conns.contains_key(m) && (#[trigger] pre_conns[m].comps().contains(c))
                ==> pre_idx.contains_key(c) && pre_idx[c].contains(m),
        pre_conns.contains_key(n),
        pre_conns[n].comps() == comps,
        post_conns == pre_conns.remove(n),
        forall|c: Seq<char>|
            comps.contains(c) ==> {
                &&& (#[trigger] post_idx.contains_key(c) <==> (pre_idx.contains_key(c)
                    && remove_all_spec(pre_idx[c], n).len() > 0))
                &&& (post_idx.contains_key(c) ==> post_idx[c] == remove_all_spec(pre_idx[c], n))
            },
        forall|c: Seq<char>|
            !comps.contains(c) ==> {
                &&& (#[trigger] post_idx.contains_key(c) <==> pre_idx.contains_key(c))
                &&& (post_idx.contains_key(c) ==> post_idx[c] == pre_idx[c])
            },
    ensures
        remove_conn_effect(pre_conns, pre_idx, post_conns, post_idx, n),
        forall|c: Seq<char>| #[trigger] post_idx.contains_key(c) ==> post_idx[c].len() > 0,
        forall|c: Seq<char>, m: Seq<char>|
            post_idx.contains_key(c) && (#[trigger] post_idx[c].contains(m))
                ==> post_conns.contains_key(m) && post_conns[m].comps().contains(c),
        forall|m: Seq<char>| #[trigger] post_conns.contains_key(m) ==> post_conns[m].wf(),
        forall|m: Seq<char>, c: Seq<char>|
            post_conns.contains_key(m) && (#[trigger] post_conns[m].comps().contains(c))
                ==> post_idx.contains_key(c) && post_idx[c].contains(m),
{
    assert forall|c: Seq<char>| !comps.contains(c) && pre_idx.contains_key(c) implies
        remove_all_spec(#[trigger] pre_idx[c], n) == pre_idx[c] by {
        assert(!pre_idx[c].contains(n)) by {
            if pre_idx[c].contains(n) {
                assert(pre_conns[n].comps().contains(c));
            }
        }
        lemma_remove_all_id(pre_idx[c], n);
    }
    assert forall|c: Seq<char>| #[trigger]
        post_idx.contains_key(c) implies (pre_idx.contains_key(c) && remove_all_spec(
        pre_idx[c],
        n,
    ).len() > 0 && post_idx[c] == remove_all_spec(pre_idx[c], n)) by {
        if !comps.contains(c) {
            assert(pre_idx.contains_key(c));
            assert(remove_all_spec(pre_idx[c], n) == pre_idx[c]);
        }
    }
    assert forall|c: Seq<char>|
        (pre_idx.contains_key(c) && remove_all_spec(#[trigger] pre_idx[c], n).len() > 0) implies
        post_idx.contains_key(c) by {
        if !comps.contains(c) {
            assert(remove_all_spec(pre_idx[c], n) == pre_idx[c]);
        }
    }
    assert forall|c: Seq<char>, m: Seq<char>|
        post_idx.contains_key(c) && (#[trigger] post_idx[c].contains(m)) implies
        post_conns.contains_key(m) && post_conns[m].comps().contains(c) by {
        lemma_remove_all_props(pre_idx[c], n);
        assert(pre_idx[c].contains(m) && m != n);
    }
    assert forall|m: Seq<char>, c: Seq<char>|
        post_conns.contains_key(m) && (#[trigger] post_conns[m].comps().contains(c)) implies
        post_idx.contains_key(c) && post_idx[c].contains(m) by {
        assert(m != n);
        assert(pre_conns[m].comps().contains(c));
        assert(pre_idx.contains_key(c) && pre_idx[c].contains(m));
        lemma_remove_all_props(pre_idx[c], n);
        assert(remove_all_spec(pre_idx[c], n).contains(m));
    }
}

/// Requires the invariant before a registration and the registration's
/// effects on the two sides; concludes the invariant afterwards.
proof fn lemma_register_wf(
    pre_conns: Map<Seq<char>, Connection>,
    pre_idx: Map<Seq<char>, Seq<Seq<char>>>,
    post_conns: Map<Seq<char>, Connection>,
    post_idx: Map<Seq<char>, Seq<Seq<char>>>,
    n: Seq<char>,
    c: Seq<char>,
)
    requires
        forall|d: Seq<char>| #[trigger] pre_idx.contains_key(d) ==> pre_idx[d].len() > 0,
        forall|d: Seq<char>, m: Seq<char>|
            pre_idx.contains_key(d) && (#[trigger] pre_idx[d].contains(m))
                ==> pre_conns.contains_key(m) && pre_conns[m].comps().contains(d),
        forall|m: Seq<char>| #[trigger] pre_conns.contains_key(m) ==> pre_conns[m].wf(),
        forall|m: Seq<char>, d: Seq<char>|
            pre_conns.contains_key(m) && (#[trigger] pre_conns[m].comps().contains(d))
                ==> pre_idx.contains_key(d) && pre_idx[d].contains(m),
        pre_conns.contains_key(n),
        post_conns.dom() == pre_conns.dom(),
        post_conns[n].comps() == (if pre_conns[n].comps().contains(c) {
            pre_conns[n].comps()
        } else {
            pre_conns[n].comps().push(c)
        }),
        post_conns[n].wf(),
        forall|m: Seq<char>|
            m != n && pre_conns.contains_key(m) ==> (#[trigger] post_conns[m]) == pre_conns[m],
        post_idx == pre_idx.insert(
            c,
            (if pre_idx.contains_key(c) {
                pre_idx[c]
            } else {
                Seq::<Seq<char>>::empty()
            }).push(n),
        ),
    ensures
        forall|d: Seq<char>| #[trigger] post_idx.contains_key(d) ==> post_idx[d].len() > 0,
        forall|d: Seq<char>, m: Seq<char>|
            post_idx.contains_key(d) && (#[trigger] post_idx[d].contains(m))
                ==> post_conns.contains_key(m) && post_conns[m].comps().contains(d),
        forall|m: Seq<char>| #[trigger] post_conns.contains_key(m) ==> post_conns[m].wf(),
        forall|m: Seq<char>, d: Seq<char>|
            post_conns.contains_key(m) && (#[trigger] post_conns[m].comps().contains(d))
                ==> post_idx.contains_key(d) && post_idx[d].contains(m),
{
    let newlist = (if pre_idx.contains_key(c) {
        pre_idx[c]
    } else {
        Seq::<Seq<char>>::empty()
    }).push(n);
    assert(newlist.contains(n)) by {
        assert(newlist[newlist.len() - 1] == n);
    }
    assert(post_conns[n].comps().contains(c)) by {
        if pre_conns[n].comps().contains(c) {
        } else {
            let cc = post_conns[n].comps();
            assert(cc[cc.len() - 1] == c);
        }
    }
    assert forall|d: Seq<char>, m: Seq<char>|
        post_idx.contains_key(d) && (#[trigger] post_idx[d].contains(m)) implies
        post_conns.contains_key(m) && post_conns[m].comps().contains(d) by {
        if d == c {
            if m == n {
            } else {
                let i = choose|i: int| 0 <= i < newlist.len() && newlist[i] == m;
                assert(i < newlist.len() - 1);
                assert(pre_idx.contains_key(c) && pre_idx[c].contains(m)) by {
                    assert(pre_idx[c][i] == m);
                }
                assert(pre_conns[m].comps().contains(c));
            }
        } else {
            assert(pre_idx[d].contains(m));
            if m == n {
                assert(pre_conns[n].comps().contains(d));
                assert(post_conns[n].comps().contains(d)) by {
                    if !pre_conns[n].comps().contains(c) {
                        let i = choose|i: int|
                            0 <= i < pre_conns[n].comps().len() && pre_conns[n].comps()[i] == d;
                        assert(post_conns[n].comps()[i] == d);
                    }
                }
            }
        }
    }
    assert forall|m: Seq<char>| #[trigger] post_conns.contains_key(m) implies post_conns[m].wf()
        by {
        assert(pre_conns.contains_key(m));
        if m != n {
            assert(post_conns[m] == pre_conns[m]);
        }
    }
    assert forall|m: Seq<char>, d: Seq<char>|
        post_conns.contains_key(m) && (#[trigger] post_conns[m].comps().contains(d)) implies
        post_idx.contains_key(d) && post_idx[d].contains(m) by {
        if m == n {
            if d == c {
                assert(post_idx[c].contains(n));
            } else {
                assert(pre_conns[n].comps().contains(d)) by {
                    if !pre_conns[n].comps().contains(c) {
                        let i = choose|i: int|
                            0 <= i < post_conns[n].comps().len() && post_conns[n].comps()[i] == d;
                        assert(i < post_conns[n].comps().len() - 1);
                        assert(pre_conns[n].comps()[i] == d);
                    }
                }
                assert(pre_idx[d].contains(n));
            }
        } else {
            assert(pre_conns[m].comps().contains(d));
            assert(pre_idx.contains_key(d) && pre_idx[d].contains(m));
            if d == c {
                let i = choose|i: int| 0 <= i < pre_idx[c].len() && pre_idx[c][i] == m;
                assert(post_idx[c][i] == m);
            }
        }
    }
}

/// Requires the invariant before an unregistration and the unregistration's
/// effects on the two sides; concludes the invariant afterwards.
proof fn lemma_unregister_wf(
    pre_conns: Map<Seq<char>, Connection>,
    pre_idx: Map<Seq<char>, Seq<Seq<char>>>,
    post_conns: Map<Seq<char>, Connection>,
    post_idx: Map<Seq<char>, Seq<Seq<char>>>,
    n: Seq<char>,
    c: Seq<char>,
)
    requires
        forall|d: Seq<char>| #[trigger] pre_idx.contains_key(d) ==> pre_idx[d].len() > 0,
        forall|d: Seq<char>, m: Seq<char>|
            pre_idx.contains_key(d) && (#[trigger] pre_idx[d].contains(m))
                ==> pre_conns.contains_key(m) && pre_conns[m].comps().contains(d),
        forall|m: Seq<char>| #[trigger] pre_conns.contains_key(m) ==> pre_conns[m].wf(),
        forall|m: Seq<char>, d: Seq<char>|
            pre_conns.contains_key(m) && (#[trigger] pre_conns[m].comps().contains(d))
                ==> pre_idx.contains_key(d) && pre_idx[d].contains(m),
        pre_conns.contains_key(n) ==> {
            &&& post_conns.dom() == pre_conns.dom()
            &&& post_conns[n].comps() == remove_all_spec(pre_conns[n].comps(), c)
            &&& post_conns[n].wf()
            &&& forall|m: Seq<char>|
                m != n && pre_conns.contains_key(m) ==> (#[trigger] post_conns[m])
                    == pre_conns[m]
        },
        !pre_conns.contains_key(n) ==> post_conns == pre_conns,
        pre_idx.contains_key(c) ==> post_idx == (if remove_all_spec(pre_idx[c], n).len() > 0 {
            pre_idx.insert(c, remove_all_spec(pre_idx[c], n))
        } else {
            pre_idx.remove(c)
        }),
        !pre_idx.contains_key(c) ==> post_idx == pre_idx,
    ensures
        forall|d: Seq<char>| #[trigger] post_idx.contains_key(d) ==> post_idx[d].len() > 0,
        forall|d: Seq<char>, m: Seq<char>|
            post_idx.contains_key(d) && (#[trigger] post_idx[d].contains(m))
                ==> post_conns.contains_key(m) && post_conns[m].comps().contains(d),
        forall|m: Seq<char>| #[trigger] post_conns.contains_key(m) ==> post_conns[m].wf(),
        forall|m: Seq<char>, d: Seq<char>|
            post_conns.contains_key(m) && (#[trigger] post_conns[m].comps().contains(d))
                ==> post_idx.contains_key(d) && post_idx[d].contains(m),
{
    if pre_idx.contains_key(c) {
        lemma_remove_all_props(pre_idx[c], n);
    }
    if pre_conns.contains_key(n) {
        lemma_remove_all_props(pre_conns[n].comps(), c);
    }
    assert forall|d: Seq<char>, m: Seq<char>|
        post_idx.contains_key(d) && (#[trigger] post_idx[d].contains(m)) implies
        post_conns.contains_key(m) && post_conns[m].comps().contains(d) by {
        if d == c {
            assert(pre_idx[c].contains(m) && m != n);
            assert(pre_conns.contains_key(m) && pre_conns[m].comps().contains(c));
            if pre_conns.contains_key(n) {
                assert(post_conns[m] == pre_conns[m]);
            }
        } else {
            assert(pre_idx[d].contains(m));
            assert(pre_conns.contains_key(m) && pre_conns[m].comps().contains(d));
            if pre_conns.contains_key(n) && m == n {
                assert(post_conns[n].comps().contains(d));
            }
        }
    }
    assert forall|m: Seq<char>| #[trigger] post_conns.contains_key(m) implies post_conns[m].wf()
        by {
        assert(pre_conns.contains_key(m));
        if pre_conns.contains_key(n) && m != n {
            assert(post_conns[m] == pre_conns[m]);
        }
    }
    assert forall|m: Seq<char>, d: Seq<char>|
        post_conns.contains_key(m) && (#[trigger] post_conns[m].comps().contains(d)) implies
        post_idx.contains_key(d) && post_idx[d].contains(m) by {
        assert(pre_conns.contains_key(m));
        let is_n = pre_conns.contains_key(n) && m == n;
        if is_n {
            assert(pre_conns[n].comps().contains(d) && d != c);
        } else {
            if pre_conns.contains_key(n) {
                assert(post_conns[m] == pre_conns[m]);
            }
            assert(pre_conns[m].comps().contains(d));
        }
        assert(pre_idx.contains_key(d) && pre_idx[d].contains(m));
        if d == c {
            assert(m != n) by {
                if pre_conns.contains_key(n) && m == n {
                    assert(d != c);
                } else {
                    if m == n {
                        assert(pre_conns.contains_key(n));
                    }
                }
            }
            assert(remove_all_spec(pre_idx[c], n).contains(m));
        }
    }
}

} // verus!
