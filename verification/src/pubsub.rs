//! The publish/subscribe hub: a channel-to-subscribers index and its reverse,
//! kept consistent as a pair, with a broadcast topic per channel that is
//! created on the first subscriber and torn down with the last. A channel
//! exists exactly while it has at least one subscriber.
use vstd::prelude::*;
use vstd::string::*;
use crate::smap::StrMap;
use crate::strutil::{
    clone_string_vec, lemma_remove_all_id, lemma_remove_all_props, remove_all_spec,
    vec_contains_str, vec_remove_str,
};
use crate::types::{LiveTSError, PubSubStats};

verus! {

#[verifier::external_type_specification]
#[verifier::external_body]
#[verifier::reject_recursive_types(T)]
pub struct ExBroadcastSender<T>(tokio::sync::broadcast::Sender<T>);

#[verifier::external_type_specification]
#[verifier::external_body]
#[verifier::reject_recursive_types(T)]
pub struct ExBroadcastReceiver<T>(tokio::sync::broadcast::Receiver<T>);

/// Relies on tokio::sync::broadcast::channel: a fresh topic with the given
/// buffer capacity; the initial receiving half is dropped. The call panics
/// outside the capacity range required here.
#[verifier::external_body]
fn new_topic(capacity: usize) -> tokio::sync::broadcast::Sender<String>
    requires
        1 <= capacity <= usize::MAX / 2,
{
    tokio::sync::broadcast::channel(capacity).0
}

/// Relies on tokio::sync::broadcast::Sender::send: delivers to the current
/// receivers; how many there are depends on outside state, so nothing is
/// assumed of the count or of failure.
#[verifier::external_body]
fn topic_send(tx: &tokio::sync::broadcast::Sender<String>, msg: String) -> Option<usize> {
    match tx.send(msg) {
        Ok(n) => Some(n),
        Err(_) => None,
    }
}

/// Relies on tokio::sync::broadcast::Sender::subscribe: a fresh receiver
/// attached to this topic.
#[verifier::external_body]
fn topic_subscribe(tx: &tokio::sync::broadcast::Sender<String>) -> tokio::sync::broadcast::Receiver<
    String,
> {
    tx.subscribe()
}

/// The sequence with `x` appended unless already present.
pub open spec fn add_once(s: Seq<Seq<char>>, x: Seq<char>) -> Seq<Seq<char>> {
    if s.contains(x) {
        s
    } else {
        s.push(x)
    }
}

/// No element repeats.
pub open spec fn distinct_seq(s: Seq<Seq<char>>) -> bool {
    forall|i: int, j: int| 0 <= i < j < s.len() ==> (#[trigger] s[i]) != (#[trigger] s[j])
}

/// A consistent pair of indices: every list is nonempty and free of
/// repetition, and `y` stands in `a[x]` exactly when `x` stands in `b[y]`.
pub open spec fn pair_wf(
    a: Map<Seq<char>, Seq<Seq<char>>>,
    b: Map<Seq<char>, Seq<Seq<char>>>,
) -> bool {
    &&& forall|x: Seq<char>| #[trigger]
        a.contains_key(x) ==> a[x].len() > 0 && distinct_seq(a[x])
    &&& forall|y: Seq<char>| #[trigger]
        b.contains_key(y) ==> b[y].len() > 0 && distinct_seq(b[y])
    &&& forall|x: Seq<char>, y: Seq<char>|
        a.contains_key(x) && (#[trigger] a[x].contains(y)) ==> b.contains_key(y)
            && b[y].contains(x)
    &&& forall|y: Seq<char>, x: Seq<char>|
        b.contains_key(y) && (#[trigger] b[y].contains(x)) ==> a.contains_key(x)
            && a[x].contains(y)
}

/// The list bound to `x`, or the empty list.
pub open spec fn list_of(m: Map<Seq<char>, Seq<Seq<char>>>, x: Seq<char>) -> Seq<Seq<char>> {
    if m.contains_key(x) {
        m[x]
    } else {
        Seq::empty()
    }
}

/// Linking `x` and `y` on both sides keeps the pair consistent.
proof fn lemma_pair_link(
    a: Map<Seq<char>, Seq<Seq<char>>>,
    b: Map<Seq<char>, Seq<Seq<char>>>,
    x: Seq<char>,
    y: Seq<char>,
)
    requires
        pair_wf(a, b),
    ensures
        pair_wf(
            a.insert(x, add_once(list_of(a, x), y)),
            b.insert(y, add_once(list_of(b, y), x)),
        ),
{
    let a2 = a.insert(x, add_once(list_of(a, x), y));
    let b2 = b.insert(y, add_once(list_of(b, y), x));
    assert(add_once(list_of(a, x), y).contains(y)) by {
        let l = add_once(list_of(a, x), y);
        if !list_of(a, x).contains(y) {
            assert(l[l.len() - 1] == y);
        }
    }
    assert(add_once(list_of(b, y), x).contains(x)) by {
        let l = add_once(list_of(b, y), x);
        if !list_of(b, y).contains(x) {
            assert(l[l.len() - 1] == x);
        }
    }
    assert forall|u: Seq<char>| #[trigger]
        a2.contains_key(u) implies a2[u].len() > 0 && distinct_seq(a2[u]) by {
        if u == x {
            lemma_add_once_distinct(list_of(a, x), y);
            if a.contains_key(x) {
            } else {
                assert(list_of(a, x).len() == 0);
            }
        }
    }
    assert forall|u: Seq<char>| #[trigger]
        b2.contains_key(u) implies b2[u].len() > 0 && distinct_seq(b2[u]) by {
        if u == y {
            lemma_add_once_distinct(list_of(b, y), x);
        }
    }
    assert forall|u: Seq<char>, v: Seq<char>|
        a2.contains_key(u) && (#[trigger] a2[u].contains(v)) implies b2.contains_key(v)
        && b2[v].contains(u) by {
        if u == x {
            lemma_add_once_member(list_of(a, x), y, v);
            if v == y {
            } else {
                assert(a.contains_key(x) && a[x].contains(v));
                assert(b.contains_key(v) && b[v].contains(x));
            }
        } else {
            assert(a.contains_key(u) && a[u].contains(v));
            assert(b.contains_key(v) && b[v].contains(u));
            if v == y {
                lemma_add_once_member2(list_of(b, y), x, u);
            }
        }
    }
    assert forall|v: Seq<char>, u: Seq<char>|
        b2.contains_key(v) && (#[trigger] b2[v].contains(u)) implies a2.contains_key(u)
        && a2[u].contains(v) by {
        if v == y {
            lemma_add_once_member(list_of(b, y), x, u);
            if u == x {
            } else {
                assert(b.contains_key(y) && b[y].contains(u));
                assert(a.contains_key(u) && a[u].contains(y));
            }
        } else {
            assert(b.contains_key(v) && b[v].contains(u));
            assert(a.contains_key(u) && a[u].contains(v));
            if u == x {
                assert(a2[x].contains(v)) by {
                    let l = list_of(a, x);
                    let i = choose|i: int| 0 <= i < l.len() && l[i] == v;
                    assert(add_once(l, y)[i] == v);
                }
            }
        }
    }
}

proof fn lemma_add_once_distinct(s: Seq<Seq<char>>, x: Seq<char>)
    requires
        distinct_seq(s),
    ensures
        distinct_seq(add_once(s, x)),
{
    let l = add_once(s, x);
    if !s.contains(x) {
        assert forall|i: int, j: int|
            0 <= i < j < l.len() implies (#[trigger] l[i]) != (#[trigger] l[j]) by {
            if j == l.len() - 1 && l[i] == l[j] {
                assert(s.contains(x)) by {
                    assert(s[i] == x);
                }
            }
        }
    }
}

/// Membership in the extended list: the new element or an old one.
proof fn lemma_add_once_member(s: Seq<Seq<char>>, x: Seq<char>, v: Seq<char>)
    requires
        add_once(s, x).contains(v),
    ensures
        v == x || s.contains(v),
{
    if !s.contains(x) {
        let l = add_once(s, x);
        let i = choose|i: int| 0 <= i < l.len() && l[i] == v;
        if i < l.len() - 1 {
            assert(s[i] == v);
        }
    }
}

/// Old members stay members of the extended list.
proof fn lemma_add_once_member2(s: Seq<Seq<char>>, x: Seq<char>, v: Seq<char>)
    requires
        s.contains(v),
    ensures
        add_once(s, x).contains(v),
{
    let i = choose|i: int| 0 <= i < s.len() && s[i] == v;
    if !s.contains(x) {
        assert(add_once(s, x)[i] == v);
    }
}

/// Unlinking `x` and `y` on both sides, with pruning of emptied lists,
/// keeps the pair consistent.
proof fn lemma_pair_unlink(
    a: Map<Seq<char>, Seq<Seq<char>>>,
    b: Map<Seq<char>, Seq<Seq<char>>>,
    a2: Map<Seq<char>, Seq<Seq<char>>>,
    b2: Map<Seq<char>, Seq<Seq<char>>>,
    x: Seq<char>,
    y: Seq<char>,
)
    requires
        pair_wf(a, b),
        a.contains_key(x) ==> a2 == (if remove_all_spec(a[x], y).len() > 0 {
            a.insert(x, remove_all_spec(a[x], y))
        } else {
            a.remove(x)
        }),
        !a.contains_key(x) ==> a2 == a,
        b.contains_key(y) ==> b2 == (if remove_all_spec(b[y], x).len() > 0 {
            b.insert(y, remove_all_spec(b[y], x))
        } else {
            b.remove(y)
        }),
        !b.contains_key(y) ==> b2 == b,
    ensures
        pair_wf(a2, b2),
{
    if a.contains_key(x) {
        lemma_remove_all_props(a[x], y);
        lemma_remove_all_distinct2(a[x], y);
    }
    if b.contains_key(y) {
        lemma_remove_all_props(b[y], x);
        lemma_remove_all_distinct2(b[y], x);
    }
    assert forall|u: Seq<char>, v: Seq<char>|
        a2.contains_key(u) && (#[trigger] a2[u].contains(v)) implies b2.contains_key(v)
        && b2[v].contains(u) by {
        if u == x {
            assert(a[x].contains(v) && v != y);
            assert(b.contains_key(v) && b[v].contains(x));
        } else {
            assert(a.contains_key(u) && a[u].contains(v));
            assert(b.contains_key(v) && b[v].contains(u));
            if v == y {
                assert(u != x);
                assert(remove_all_spec(b[y], x).contains(u));
            }
        }
    }
    assert forall|v: Seq<char>, u: Seq<char>|
        b2.contains_key(v) && (#[trigger] b2[v].contains(u)) implies a2.contains_key(u)
        && a2[u].contains(v) by {
        if v == y {
            assert(b[y].contains(u) && u != x);
            assert(a.contains_key(u) && a[u].contains(y));
        } else {
            assert(b.contains_key(v) && b[v].contains(u));
            assert(a.contains_key(u) && a[u].contains(v));
            if u == x {
                assert(v != y);
                assert(remove_all_spec(a[x], y).contains(v));
            }
        }
    }
}

/// On a repetition-free list, removal drops exactly one element when the
/// element is present and none otherwise.
proof fn lemma_remove_all_len_distinct(s: Seq<Seq<char>>, x: Seq<char>)
    requires
        distinct_seq(s),
    ensures
        remove_all_spec(s, x).len() == s.len() - (if s.contains(x) {
            1int
        } else {
            0int
        }),
    decreases s.len(),
{
    if s.len() > 0 {
        assert(distinct_seq(s.drop_last()));
        lemma_remove_all_len_distinct(s.drop_last(), x);
        if s.last() == x {
            assert(!s.drop_last().contains(x)) by {
                if s.drop_last().contains(x) {
                    let i = choose|i: int|
                        0 <= i < s.drop_last().len() && s.drop_last()[i] == x;
                    assert(s[i] == s[s.len() - 1]);
                }
            }
            assert(s.contains(x)) by {
                assert(s[s.len() - 1] == x);
            }
        } else {
            assert(s.contains(x) <==> s.drop_last().contains(x)) by {
                if s.contains(x) {
                    let i = choose|i: int| 0 <= i < s.len() && s[i] == x;
                    assert(i < s.len() - 1);
                    assert(s.drop_last()[i] == x);
                }
                if s.drop_last().contains(x) {
                    let i = choose|i: int|
                        0 <= i < s.drop_last().len() && s.drop_last()[i] == x;
                    assert(s[i] == x);
                }
            }
        }
    }
}

/// Removal keeps a list free of repetition.
proof fn lemma_remove_all_distinct2(s: Seq<Seq<char>>, x: Seq<char>)
    requires
        distinct_seq(s),
    ensures
        distinct_seq(remove_all_spec(s, x)),
    decreases s.len(),
{
    if s.len() > 0 {
        assert(distinct_seq(s.drop_last()));
        lemma_remove_all_distinct2(s.drop_last(), x);
        lemma_remove_all_props(s.drop_last(), x);
        let r = remove_all_spec(s, x);
        let rp = remove_all_spec(s.drop_last(), x);
        if s.last() != x {
            assert forall|i: int, j: int|
                0 <= i < j < r.len() implies (#[trigger] r[i]) != (#[trigger] r[j]) by {
                if j == r.len() - 1 {
                    assert(rp.contains(r[i])) by {
                        assert(rp[i] == r[i]);
                    }
                    assert(s.drop_last().contains(r[i]));
                    let m = choose|m: int|
                        0 <= m < s.drop_last().len() && s.drop_last()[m] == r[i];
                    assert(s[m] == r[i]);
                    assert(s[m] != s[s.len() - 1]);
                }
            }
        }
    }
}

/// The publish/subscribe hub.
pub struct PubSubSystem {
    subscribers: StrMap<Vec<String>>,
    component_channels: StrMap<Vec<String>>,
    channels: StrMap<tokio::sync::broadcast::Sender<String>>,
}

impl PubSubSystem {
    /// The channel-to-subscribers index.
    pub closed spec fn subs(&self) -> Map<Seq<char>, Seq<Seq<char>>> {
        self.subscribers@.map_values(|v: Vec<String>| v@.map_values(|t: String| t@))
    }

    /// The component-to-channels index.
    pub closed spec fn comp_chans(&self) -> Map<Seq<char>, Seq<Seq<char>>> {
        self.component_channels@.map_values(|v: Vec<String>| v@.map_values(|t: String| t@))
    }

    /// The channels with a live broadcast topic.
    pub closed spec fn topics(&self) -> Set<Seq<char>> {
        self.channels@.dom()
    }

    pub open spec fn channel_exists_spec(&self, ch: Seq<char>) -> bool {
        self.topics().contains(ch)
    }

    /// The two indices agree as a pair, and a channel holds a topic exactly
    /// while it holds at least one subscriber.
    pub open spec fn wf(&self) -> bool {
        &&& pair_wf(self.subs(), self.comp_chans())
        &&& forall|ch: Seq<char>|
            #[trigger] self.topics().contains(ch) <==> self.subs().contains_key(ch)
    }

    /// The total number of subscriptions across all components.
    pub closed spec fn subscription_total(&self) -> int {
        self.component_channels.total_values_len()
    }

    /// The three stores are well-formed association lists.
    pub closed spec fn stores_wf(&self) -> bool {
        self.subscribers.wf() && self.component_channels.wf() && self.channels.wf()
    }

    pub fn new() -> (r: Self)
        ensures
            r.wf(),
            r.stores_wf(),
            r.subs() == Map::<Seq<char>, Seq<Seq<char>>>::empty(),
            r.comp_chans() == Map::<Seq<char>, Seq<Seq<char>>>::empty(),
            r.topics() == Set::<Seq<char>>::empty(),
            r.subscription_total() == 0,
    {
        let r = PubSubSystem {
            subscribers: StrMap::new(),
            component_channels: StrMap::new(),
            channels: StrMap::new(),
        };
        proof {
            assert(r.subs() =~= Map::<Seq<char>, Seq<Seq<char>>>::empty());
            assert(r.comp_chans() =~= Map::<Seq<char>, Seq<Seq<char>>>::empty());
            r.component_channels.lemma_total_empty();
        }
        r
    }

    /// Subscribes the component to the channel, creating the channel's
    /// broadcast topic on its first subscriber.
    pub fn subscribe(&mut self, channel: &str, component_id: &str) -> (r: Result<(), LiveTSError>)
        requires
            old(self).wf(),
            old(self).stores_wf(),
        ensures
            final(self).wf(),
            final(self).stores_wf(),
            r is Ok,
            final(self).subs() == old(self).subs().insert(
                channel@,
                add_once(list_of(old(self).subs(), channel@), component_id@),
            ),
            final(self).comp_chans() == old(self).comp_chans().insert(
                component_id@,
                add_once(list_of(old(self).comp_chans(), component_id@), channel@),
            ),
            final(self).topics() == old(self).topics().insert(channel@),
            final(self).subscription_total() == old(self).subscription_total() + (
            if list_of(old(self).comp_chans(), component_id@).contains(channel@) {
                0int
            } else {
                1int
            }),
    {
        let ghost ch = channel@;
        let ghost comp = component_id@;
        match self.subscribers.remove(channel) {
            Some(mut lst) => {
                let ghost lv = lst@.map_values(|t: String| t@);
                if !vec_contains_str(&lst, component_id) {
                    lst.push(component_id.to_owned());
                    proof {
                        assert(lst@.map_values(|t: String| t@) =~= lv.push(comp));
                    }
                }
                self.subscribers.insert(channel, lst);
                proof {
                    assert(self.subs() =~= old(self).subs().insert(
                        ch,
                        add_once(list_of(old(self).subs(), ch), comp),
                    ));
                }
            },
            None => {
                let mut lst: Vec<String> = Vec::new();
                lst.push(component_id.to_owned());
                proof {
                    assert(lst@.map_values(|t: String| t@) =~= Seq::<Seq<char>>::empty().push(
                        comp,
                    ));
                    assert(add_once(list_of(old(self).subs(), ch), comp) =~= Seq::<
                        Seq<char>,
                    >::empty().push(comp));
                }
                self.subscribers.insert(channel, lst);
                proof {
                    assert(self.subs() =~= old(self).subs().insert(
                        ch,
                        add_once(list_of(old(self).subs(), ch), comp),
                    ));
                }
            },
        }
        match self.component_channels.remove_list(component_id) {
            Some(mut lst) => {
                let ghost lv = lst@.map_values(|t: String| t@);
                proof {
                    assert(lv == old(self).comp_chans()[comp]);
                    assert(lv.len() == lst@.len());
                }
                if !vec_contains_str(&lst, channel) {
                    lst.push(channel.to_owned());
                    proof {
                        assert(lst@.map_values(|t: String| t@) =~= lv.push(ch));
                    }
                }
                proof {
                    assert(lst@.len() as int == lv.len() + (if lv.contains(ch) {
                        0int
                    } else {
                        1int
                    }));
                }
                self.component_channels.insert_list(component_id, lst);
                proof {
                    assert(self.comp_chans() =~= old(self).comp_chans().insert(
                        comp,
                        add_once(list_of(old(self).comp_chans(), comp), ch),
                    ));
                }
            },
            None => {
                let mut lst: Vec<String> = Vec::new();
                lst.push(channel.to_owned());
                proof {
                    assert(lst@.map_values(|t: String| t@) =~= Seq::<Seq<char>>::empty().push(
                        ch,
                    ));
                    assert(add_once(list_of(old(self).comp_chans(), comp), ch) =~= Seq::<
                        Seq<char>,
                    >::empty().push(ch));
                }
                self.component_channels.insert_list(component_id, lst);
                proof {
                    assert(self.comp_chans() =~= old(self).comp_chans().insert(
                        comp,
                        add_once(list_of(old(self).comp_chans(), comp), ch),
                    ));
                }
            },
        }
        if !self.channels.contains_key(channel) {
            let topic = new_topic(1000);
            self.channels.insert(channel, topic);
        }
        proof {
            assert(self.topics() =~= old(self).topics().insert(ch));
            lemma_pair_link(old(self).subs(), old(self).comp_chans(), ch, comp);
            assert forall|ch2: Seq<char>|
                #[trigger] self.topics().contains(ch2) implies self.subs().contains_key(ch2) by {
                if ch2 != ch {
                    assert(old(self).topics().contains(ch2));
                    assert(old(self).subs().contains_key(ch2));
                }
            }
            assert forall|ch2: Seq<char>|
                self.subs().contains_key(ch2) implies #[trigger] self.topics().contains(ch2) by {
                if ch2 != ch {
                    assert(old(self).subs().contains_key(ch2));
                    assert(old(self).topics().contains(ch2));
                }
            }
        }
        Ok(())
    }

    /// Unsubscribes the component from the channel; a channel left without
    /// subscribers is torn down together with its topic.
    pub fn unsubscribe(&mut self, channel: &str, component_id: &str) -> (r: Result<
        (),
        LiveTSError,
    >)
        requires
            old(self).wf(),
            old(self).stores_wf(),
        ensures
            final(self).wf(),
            final(self).stores_wf(),
            r is Ok,
            old(self).subs().contains_key(channel@) ==> final(self).subs() == (
            if remove_all_spec(old(self).subs()[channel@], component_id@).len() > 0 {
                old(self).subs().insert(
                    channel@,
                    remove_all_spec(old(self).subs()[channel@], component_id@),
                )
            } else {
                old(self).subs().remove(channel@)
            }),
            !old(self).subs().contains_key(channel@) ==> final(self).subs() == old(self).subs(),
            old(self).comp_chans().contains_key(component_id@) ==> final(self).comp_chans() == (
            if remove_all_spec(old(self).comp_chans()[component_id@], channel@).len() > 0 {
                old(self).comp_chans().insert(
                    component_id@,
                    remove_all_spec(old(self).comp_chans()[component_id@], channel@),
                )
            } else {
                old(self).comp_chans().remove(component_id@)
            }),
            !old(self).comp_chans().contains_key(component_id@) ==> final(self).comp_chans()
                == old(self).comp_chans(),
            final(self).channel_exists_spec(channel@) <==> final(self).subs().contains_key(
                channel@,
            ),
            forall|ch2: Seq<char>|
                ch2 != channel@ ==> ((#[trigger] final(self).topics().contains(ch2)) == old(
                    self,
                ).topics().contains(ch2)),
            final(self).subscription_total() == old(self).subscription_total() - (
            if list_of(old(self).comp_chans(), component_id@).contains(channel@) {
                1int
            } else {
                0int
            }),
    {
        let ghost ch = channel@;
        let ghost comp = component_id@;
        match self.subscribers.remove(channel) {
            Some(mut lst) => {
                let ghost lv = lst@.map_values(|t: String| t@);
                vec_remove_str(&mut lst, component_id);
                if lst.len() > 0 {
                    self.subscribers.insert(channel, lst);
                    proof {
                        assert(self.subs() =~= old(self).subs().insert(
                            ch,
                            remove_all_spec(old(self).subs()[ch], comp),
                        ));
                    }
                } else {
                    let _ = self.channels.remove(channel);
                    proof {
                        assert(self.subs() =~= old(self).subs().remove(ch));
                        assert(self.topics() =~= old(self).topics().remove(ch));
                    }
                }
            },
            None => {
                proof {
                    assert(self.subs() =~= old(self).subs());
                    assert(!old(self).topics().contains(ch));
                }
            },
        }
        let ghost mid_cc = self.comp_chans();
        match self.component_channels.remove_list(component_id) {
            Some(mut lst) => {
                let ghost lv = lst@.map_values(|t: String| t@);
                proof {
                    assert(lv == old(self).comp_chans()[comp]);
                    assert(lv.len() == lst@.len());
                    assert(old(self).comp_chans().contains_key(comp));
                    assert(old(self).comp_chans()[comp].len() > 0 && distinct_seq(
                        old(self).comp_chans()[comp],
                    ));
                    lemma_remove_all_len_distinct(lv, ch);
                }
                vec_remove_str(&mut lst, channel);
                if lst.len() > 0 {
                    self.component_channels.insert_list(component_id, lst);
                    proof {
                        assert(self.comp_chans() =~= old(self).comp_chans().insert(
                            comp,
                            remove_all_spec(old(self).comp_chans()[comp], ch),
                        ));
                    }
                } else {
                    proof {
                        assert(remove_all_spec(lv, ch).len() == 0);
                        assert(lv.len() > 0);
                        assert(lv.contains(ch));
                        assert(self.comp_chans() =~= old(self).comp_chans().remove(comp));
                    }
                }
            },
            None => {
                proof {
                    assert(self.comp_chans() =~= old(self).comp_chans());
                }
            },
        }
        proof {
            lemma_pair_unlink(
                old(self).subs(),
                old(self).comp_chans(),
                self.subs(),
                self.comp_chans(),
                ch,
                comp,
            );
            if old(self).subs().contains_key(ch) {
                lemma_remove_all_props(old(self).subs()[ch], comp);
            }
            assert forall|ch2: Seq<char>|
                #[trigger] self.topics().contains(ch2) implies self.subs().contains_key(ch2) by {
                if ch2 != ch {
                    assert(old(self).topics().contains(ch2));
                    assert(old(self).subs().contains_key(ch2));
                }
            }
            assert forall|ch2: Seq<char>|
                self.subs().contains_key(ch2) implies #[trigger] self.topics().contains(ch2) by {
                if ch2 != ch {
                    assert(old(self).subs().contains_key(ch2));
                    assert(old(self).topics().contains(ch2));
                }
            }
        }
        Ok(())
    }

    /// Unsubscribes the component from every channel it belongs to, applying
    /// the per-channel teardown rule.
    pub fn unsubscribe_all(&mut self, component_id: &str) -> (r: Result<(), LiveTSError>)
        requires
            old(self).wf(),
            old(self).stores_wf(),
        ensures
            final(self).wf(),
            final(self).stores_wf(),
            r is Ok,
            final(self).comp_chans() == old(self).comp_chans().remove(component_id@),
            forall|ch: Seq<char>|
                #[trigger] final(self).subs().contains_key(ch) <==> (old(
                    self,
                ).subs().contains_key(ch) && remove_all_spec(
                    old(self).subs()[ch],
                    component_id@,
                ).len() > 0),
            forall|ch: Seq<char>| #[trigger]
                final(self).subs().contains_key(ch) ==> final(self).subs()[ch] == remove_all_spec(
                    old(self).subs()[ch],
                    component_id@,
                ),
            final(self).subscription_total() == old(self).subscription_total() - list_of(
                old(self).comp_chans(),
                component_id@,
            ).len(),
    {
        let ghost comp = component_id@;
        let ghost pre_subs = old(self).subs();
        let ghost pre_cc = old(self).comp_chans();
        match self.component_channels.remove_list(component_id) {
            Some(chans) => {
                let ghost chv = chans@.map_values(|t: String| t@);
                proof {
                    assert(pre_cc.contains_key(comp) && pre_cc[comp] == chv);
                    assert(chv.len() == chans@.len());
                    assert(distinct_seq(chv));
                    assert(self.subs() == pre_subs);
                    assert forall|ch2: Seq<char>|
                        #[trigger] self.topics().contains(ch2) <==> self.subs().contains_key(
                        ch2,
                    ) by {
                        assert(old(self).topics().contains(ch2) <==> old(
                            self,
                        ).subs().contains_key(ch2));
                    }
                }
                let ghost total_after = self.subscription_total();
                proof {
                    assert(total_after == old(self).subscription_total() - chv.len());
                }
                let mut i: usize = 0;
                while i < chans.len()
                    invariant
                        comp == component_id@,
                        chv == chans@.map_values(|t: String| t@),
                        distinct_seq(chv),
                        i <= chv.len(),
                        self.subscription_total() == total_after,
                        self.comp_chans() == pre_cc.remove(comp),
                        self.stores_wf(),
                        pre_cc.contains_key(comp) && pre_cc[comp] == chv,
                        pair_wf(pre_subs, pre_cc),
                        forall|ch: Seq<char>|
                            #[trigger] old(self).topics().contains(ch) <==> pre_subs.contains_key(
                                ch,
                            ),
                        forall|ch: Seq<char>|
                            (exists|j: int| 0 <= j < i && (#[trigger] chv[j]) == ch) ==> {
                                &&& (#[trigger] self.subs().contains_key(ch) <==> (
                                pre_subs.contains_key(ch) && remove_all_spec(
                                    pre_subs[ch],
                                    comp,
                                ).len() > 0))
                                &&& (self.subs().contains_key(ch) ==> self.subs()[ch]
                                    == remove_all_spec(pre_subs[ch], comp))
                            },
                        forall|ch: Seq<char>|
                            !(exists|j: int| 0 <= j < i && (#[trigger] chv[j]) == ch) ==> {
                                &&& (#[trigger] self.subs().contains_key(ch)
                                    <==> pre_subs.contains_key(ch))
                                &&& (self.subs().contains_key(ch) ==> self.subs()[ch]
                                    == pre_subs[ch])
                            },
                        forall|ch: Seq<char>|
                            #[trigger] self.topics().contains(ch) <==> self.subs().contains_key(
                                ch,
                            ),
                    decreases chv.len() - i,
                {
                    let ghost ci = chv[i as int];
                    proof {
                        assert(chans@[i as int]@ == ci);
                        assert(!(exists|j: int| 0 <= j < i && (#[trigger] chv[j]) == ci)) by {
                            if exists|j: int| 0 <= j < i && (#[trigger] chv[j]) == ci {
                                let j = choose|j: int| 0 <= j < i && (#[trigger] chv[j]) == ci;
                                assert(chv[j] != chv[i as int]);
                            }
                        }
                    }
                    let ghost subs_before = self.subs();
                    let ghost topics_before = self.topics();
                    match self.subscribers.remove(&chans[i]) {
                        Some(mut lst) => {
                            proof {
                                assert(subs_before.contains_key(ci));
                                assert(pre_subs.contains_key(ci));
                                assert(subs_before[ci] == pre_subs[ci]);
                                assert(lst@.map_values(|t: String| t@) == pre_subs[ci]);
                            }
                            vec_remove_str(&mut lst, component_id);
                            if lst.len() > 0 {
                                self.subscribers.insert(&chans[i], lst);
                                proof {
                                    assert(self.subs() =~= subs_before.insert(
                                        ci,
                                        remove_all_spec(pre_subs[ci], comp),
                                    ));
                                    assert(self.topics() == topics_before);
                                }
                            } else {
                                let _ = self.channels.remove(&chans[i]);
                                proof {
                                    assert(self.subs() =~= subs_before.remove(ci));
                                    assert(self.topics() =~= topics_before.remove(ci));
                                }
                            }
                        },
                        None => {
                            proof {
                                assert(self.subs() =~= subs_before);
                                assert(!subs_before.contains_key(ci));
                                assert(subs_before.contains_key(ci) <==> pre_subs.contains_key(
                                    ci,
                                ));
                            }
                        },
                    }
                    i = i + 1;
                    proof {
                        assert forall|ch: Seq<char>|
                            !(exists|j: int| 0 <= j < i && (#[trigger] chv[j]) == ch) implies {
                            &&& (#[trigger] self.subs().contains_key(ch)
                                <==> pre_subs.contains_key(ch))
                            &&& (self.subs().contains_key(ch) ==> self.subs()[ch] == pre_subs[ch])
                        } by {
                            assert(ch != ci) by {
                                assert(chv[i - 1] == ci);
                            }
                        }
                        assert forall|ch: Seq<char>|
                            (exists|j: int| 0 <= j < i && (#[trigger] chv[j]) == ch) implies {
                            &&& (#[trigger] self.subs().contains_key(ch) <==> (
                            pre_subs.contains_key(ch) && remove_all_spec(pre_subs[ch], comp).len()
                                > 0))
                            &&& (self.subs().contains_key(ch) ==> self.subs()[ch]
                                == remove_all_spec(pre_subs[ch], comp))
                        } by {
                            let j = choose|j: int| 0 <= j < i && (#[trigger] chv[j]) == ch;
                            if j < i - 1 {
                                assert(ch != ci) by {
                                    assert(chv[j] != chv[i - 1]);
                                }
                                assert(exists|j2: int|
                                    0 <= j2 < i - 1 && (#[trigger] chv[j2]) == ch);
                            } else {
                                assert(ch == ci);
                            }
                        }
                    }
                }
                proof {
                    lemma_unsub_all_cleanup(pre_subs, pre_cc, self.subs(), self.comp_chans(), comp, chv);
                }
                Ok(())
            },
            None => {
                proof {
                    assert(self.comp_chans() =~= pre_cc.remove(comp));
                    assert(list_of(pre_cc, comp).len() == 0);
                    assert(self.subs() == pre_subs);
                    assert forall|ch2: Seq<char>|
                        #[trigger] self.topics().contains(ch2) <==> self.subs().contains_key(
                        ch2,
                    ) by {
                        assert(old(self).topics().contains(ch2) <==> old(
                            self,
                        ).subs().contains_key(ch2));
                    }
                    assert forall|ch: Seq<char>| #[trigger]
                        pre_subs.contains_key(ch) implies remove_all_spec(pre_subs[ch], comp)
                        == pre_subs[ch] && remove_all_spec(pre_subs[ch], comp).len() > 0 by {
                        assert(!pre_subs[ch].contains(comp)) by {
                            if pre_subs[ch].contains(comp) {
                                assert(pre_cc.contains_key(comp));
                            }
                        }
                        lemma_remove_all_id(pre_subs[ch], comp);
                    }
                    lemma_unsub_all_cleanup(
                        pre_subs,
                        pre_cc,
                        self.subs(),
                        self.comp_chans(),
                        comp,
                        Seq::<Seq<char>>::empty(),
                    );
                }
                Ok(())
            },
        }
    }

    /// Publishes the message to the channel's topic; a missing channel or an
    /// audience of zero is a no-op, not an error.
    pub fn broadcast(&self, channel: &str, message: String) -> (r: Result<(), LiveTSError>)
        requires
            self.stores_wf(),
        ensures
            r is Ok,
    {
        match self.channels.get(channel) {
            Some(tx) => {
                let _ = topic_send(tx, message);
            },
            None => {
            },
        }
        Ok(())
    }

    /// The subscribers of the channel, in subscription order.
    pub fn get_subscribers(&self, channel: &str) -> (r: Vec<String>)
        requires
            self.stores_wf(),
        ensures
            self.subs().contains_key(channel@) ==> r@.map_values(|t: String| t@) == self.subs()[channel@],
            !self.subs().contains_key(channel@) ==> r@.len() == 0,
    {
        match self.subscribers.get(channel) {
            Some(lst) => clone_string_vec(lst),
            None => Vec::new(),
        }
    }

    /// The channels the component is subscribed to, in subscription order.
    pub fn get_component_channels(&self, component_id: &str) -> (r: Vec<String>)
        requires
            self.stores_wf(),
        ensures
            self.comp_chans().contains_key(component_id@) ==> r@.map_values(|t: String| t@)
                == self.comp_chans()[component_id@],
            !self.comp_chans().contains_key(component_id@) ==> r@.len() == 0,
    {
        match self.component_channels.get(component_id) {
            Some(lst) => clone_string_vec(lst),
            None => Vec::new(),
        }
    }

    /// Counts of channels, subscriptions and subscribing components.
    pub fn get_stats(&self) -> (r: PubSubStats)
        requires
            self.stores_wf(),
        ensures
            r.total_channels == self.topics().len(),
            r.active_components == self.comp_chans().dom().len(),
            r.total_subscriptions as int == if self.subscription_total() <= usize::MAX as int {
                self.subscription_total()
            } else {
                usize::MAX as int
            },
    {
        proof {
            assert(self.comp_chans().dom() =~= self.component_channels@.dom());
        }
        PubSubStats {
            total_channels: self.channels.len(),
            total_subscriptions: self.component_channels.total_len(),
            active_components: self.component_channels.len(),
        }
    }

    /// Whether the channel currently has a topic (and so a subscriber).
    pub fn channel_exists(&self, channel: &str) -> (r: bool)
        ensures
            r == self.channel_exists_spec(channel@),
    {
        self.channels.contains_key(channel)
    }

    /// Whether the component is subscribed to the channel.
    pub fn is_subscribed(&self, channel: &str, component_id: &str) -> (r: bool)
        requires
            self.stores_wf(),
        ensures
            r == (self.subs().contains_key(channel@) && self.subs()[channel@].contains(
                component_id@,
            )),
    {
        match self.subscribers.get(channel) {
            Some(lst) => vec_contains_str(lst, component_id),
            None => false,
        }
    }

    /// A fresh receiver for the channel's topic, when the channel exists.
    pub fn create_receiver(&self, channel: &str) -> (r: Option<
        tokio::sync::broadcast::Receiver<String>,
    >)
        requires
            self.stores_wf(),
        ensures
            r is Some <==> self.channel_exists_spec(channel@),
    {
        match self.channels.get(channel) {
            Some(tx) => Some(topic_subscribe(tx)),
            None => None,
        }
    }
}

impl Default for PubSubSystem {
    fn default() -> (r: Self)
        ensures
            r.wf(),
            r.stores_wf(),
    {
        PubSubSystem::new()
    }
}

/// Requires the pair invariant before a component leaves every channel and
/// the loop's per-channel effects; concludes the pair invariant afterwards.
proof fn lemma_unsub_all_cleanup(
    pre_subs: Map<Seq<char>, Seq<Seq<char>>>,
    pre_cc: Map<Seq<char>, Seq<Seq<char>>>,
    post_subs: Map<Seq<char>, Seq<Seq<char>>>,
    post_cc: Map<Seq<char>, Seq<Seq<char>>>,
    comp: Seq<char>,
    chv: Seq<Seq<char>>,
)
    requires
        pair_wf(pre_subs, pre_cc),
        post_cc == pre_cc.remove(comp),
        pre_cc.contains_key(comp) ==> pre_cc[comp] == chv,
        !pre_cc.contains_key(comp) ==> chv.len() == 0,
        forall|ch: Seq<char>|
            chv.contains(ch) ==> {
                &&& (#[trigger] post_subs.contains_key(ch) <==> (pre_subs.contains_key(ch)
                    && remove_all_spec(pre_subs[ch], comp).len() > 0))
                &&& (post_subs.contains_key(ch) ==> post_subs[ch] == remove_all_spec(
                    pre_subs[ch],
                    comp,
                ))
            },
        forall|ch: Seq<char>|
            !chv.contains(ch) ==> {
                &&& (#[trigger] post_subs.contains_key(ch) <==> pre_subs.contains_key(ch))
                &&& (post_subs.contains_key(ch) ==> post_subs[ch] == pre_subs[ch])
            },
    ensures
        pair_wf(post_subs, post_cc),
        forall|ch: Seq<char>|
            #[trigger] post_subs.contains_key(ch) <==> (pre_subs.contains_key(ch)
                && remove_all_spec(pre_subs[ch], comp).len() > 0),
        forall|ch: Seq<char>| #[trigger]
            post_subs.contains_key(ch) ==> post_subs[ch] == remove_all_spec(pre_subs[ch], comp),
{
    assert forall|ch: Seq<char>| !chv.contains(ch) && pre_subs.contains_key(ch) implies
        remove_all_spec(#[trigger] pre_subs[ch], comp) == pre_subs[ch] by {
        assert(!pre_subs[ch].contains(comp)) by {
            if pre_subs[ch].contains(comp) {
                assert(pre_cc.contains_key(comp) && pre_cc[comp].contains(ch));
            }
        }
        lemma_remove_all_id(pre_subs[ch], comp);
    }
    assert forall|ch: Seq<char>| #[trigger]
        post_subs.contains_key(ch) implies (pre_subs.contains_key(ch) && remove_all_spec(
        pre_subs[ch],
        comp,
    ).len() > 0 && post_subs[ch] == remove_all_spec(pre_subs[ch], comp)) by {
        if !chv.contains(ch) {
            assert(remove_all_spec(pre_subs[ch], comp) == pre_subs[ch]);
        }
    }
    assert forall|ch: Seq<char>|
        (pre_subs.contains_key(ch) && remove_all_spec(#[trigger] pre_subs[ch], comp).len() > 0)
        implies post_subs.contains_key(ch) by {
        if !chv.contains(ch) {
        }
    }
    assert forall|ch: Seq<char>| #[trigger]
        post_subs.contains_key(ch) implies post_subs[ch].len() > 0 && distinct_seq(
        post_subs[ch],
    ) by {
        lemma_remove_all_distinct2(pre_subs[ch], comp);
    }
    assert forall|x: Seq<char>, y: Seq<char>|
        post_subs.contains_key(x) && (#[trigger] post_subs[x].contains(y)) implies
        post_cc.contains_key(y) && post_cc[y].contains(x) by {
        lemma_remove_all_props(pre_subs[x], comp);
        assert(pre_subs[x].contains(y) && y != comp);
        assert(pre_cc.contains_key(y) && pre_cc[y].contains(x));
    }
    assert forall|y: Seq<char>, x: Seq<char>|
        post_cc.contains_key(y) && (#[trigger] post_cc[y].contains(x)) implies
        post_subs.contains_key(x) && post_subs[x].contains(y) by {
        assert(y != comp);
        assert(pre_cc[y].contains(x));
        assert(pre_subs.contains_key(x) && pre_subs[x].contains(y));
        lemma_remove_all_props(pre_subs[x], comp);
        assert(remove_all_spec(pre_subs[x], comp).contains(y));
    }
}

} // verus!
