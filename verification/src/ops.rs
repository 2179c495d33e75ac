use vstd::prelude::*;

use crate::PyramusError;
use crate::ids::InternalId;
use crate::scene::{
    BaseTemplate, StageItem, lemma_node_at, reaches, reaches_root, tpl_has, tpl_keys, tpl_node,
    unique_keys,
};
use crate::reach::{lemma_no_cycle1, lemma_no_cycle2, lemma_reach_agree, lemma_reach_mono};
use crate::transform::RelativeTransform;

verus! {

/// Appending a pair under a fresh key keeps the keys unique, adds exactly
/// that entry, and leaves every other entry as it was.
pub proof fn lemma_push_fresh(s: Seq<(InternalId, StageItem)>, k: InternalId, n: StageItem)
    requires
        unique_keys(s),
        !tpl_has(s, k),
    ensures
        unique_keys(s.push((k, n))),
        forall|x: InternalId| #[trigger] tpl_has(s.push((k, n)), x) <==> (tpl_has(s, x) || x == k),
        tpl_node(s.push((k, n)), k) == n,
        forall|x: InternalId|
            x != k && #[trigger] tpl_has(s, x) ==> tpl_node(s.push((k, n)), x) == tpl_node(s, x),
{
    let s2 = s.push((k, n));
    assert(forall|i: int| 0 <= i < s.len() ==> #[trigger] s2[i] == s[i]);
    assert(s2[s.len() as int] == (k, n));
    assert forall|x: InternalId| #[trigger] tpl_has(s2, x) implies (tpl_has(s, x) || x == k) by {
        let i = choose|i: int| 0 <= i < s2.len() && (#[trigger] s2[i]).0 == x;
        if i < s.len() {
            assert(tpl_has(s, x));
        }
    }
    assert forall|x: InternalId| tpl_has(s, x) || x == k implies #[trigger] tpl_has(s2, x) by {
        if tpl_has(s, x) {
            let i = choose|i: int| 0 <= i < s.len() && (#[trigger] s[i]).0 == x;
            assert(s2[i].0 == x);
        } else {
            assert(s2[s.len() as int].0 == k);
        }
    }
    lemma_node_at(s2, s.len() as int);
    assert forall|x: InternalId| x != k && #[trigger] tpl_has(s, x) implies tpl_node(s2, x)
        == tpl_node(s, x) by {
        let i = choose|i: int| 0 <= i < s.len() && (#[trigger] s[i]).0 == x;
        lemma_node_at(s, i);
        lemma_node_at(s2, i);
    }
}

/// Replacing the node stored at one index, keeping its key, keeps the keys
/// unique and leaves every other entry as it was.
pub proof fn lemma_update_node(s: Seq<(InternalId, StageItem)>, i: int, n: StageItem)
    requires
        unique_keys(s),
        0 <= i < s.len(),
    ensures
        unique_keys(s.update(i, (s[i].0, n))),
        forall|x: InternalId|
            #[trigger] tpl_has(s.update(i, (s[i].0, n)), x) <==> tpl_has(s, x),
        tpl_node(s.update(i, (s[i].0, n)), s[i].0) == n,
        forall|x: InternalId|
            x != s[i].0 && #[trigger] tpl_has(s, x) ==> tpl_node(s.update(i, (s[i].0, n)), x)
                == tpl_node(s, x),
{
    let s2 = s.update(i, (s[i].0, n));
    assert(forall|j: int| 0 <= j < s.len() ==> (#[trigger] s2[j]).0 == s[j].0);
    assert forall|x: InternalId| #[trigger] tpl_has(s2, x) implies tpl_has(s, x) by {
        let j = choose|j: int| 0 <= j < s2.len() && (#[trigger] s2[j]).0 == x;
        assert(s[j].0 == x);
    }
    assert forall|x: InternalId| #[trigger] tpl_has(s, x) implies tpl_has(s2, x) by {
        let j = choose|j: int| 0 <= j < s.len() && (#[trigger] s[j]).0 == x;
        assert(s2[j].0 == x);
    }
    lemma_node_at(s2, i);
    assert forall|x: InternalId| x != s[i].0 && #[trigger] tpl_has(s, x) implies tpl_node(s2, x)
        == tpl_node(s, x) by {
        let j = choose|j: int| 0 <= j < s.len() && (#[trigger] s[j]).0 == x;
        lemma_node_at(s, j);
        lemma_node_at(s2, j);
    }
}

/// Removing the entry at one index keeps the keys unique, drops exactly that
/// key, and leaves every other entry as it was.
pub proof fn lemma_remove_entry(s: Seq<(InternalId, StageItem)>, i: int)
    requires
        unique_keys(s),
        0 <= i < s.len(),
    ensures
        unique_keys(s.remove(i)),
        forall|x: InternalId|
            #[trigger] tpl_has(s.remove(i), x) <==> (tpl_has(s, x) && x != s[i].0),
        forall|x: InternalId|
            x != s[i].0 && #[trigger] tpl_has(s, x) ==> tpl_node(s.remove(i), x) == tpl_node(s, x),
{
    let s2 = s.remove(i);
    s.remove_ensures(i);
    assert forall|x: InternalId| #[trigger] tpl_has(s2, x) implies (tpl_has(s, x) && x != s[i].0) by {
        let j = choose|j: int| 0 <= j < s2.len() && (#[trigger] s2[j]).0 == x;
        if j < i {
            assert(s[j].0 == x);
        } else {
            assert(s[j + 1].0 == x);
        }
    }
    assert forall|x: InternalId| tpl_has(s, x) && x != s[i].0 implies #[trigger] tpl_has(s2, x) by {
        let j = choose|j: int| 0 <= j < s.len() && (#[trigger] s[j]).0 == x;
        if j < i {
            assert(s2[j].0 == x);
        } else {
            assert(s2[j - 1].0 == x);
        }
    }
    assert(unique_keys(s2)) by {
        assert forall|a: int, b: int| 0 <= a < b < s2.len() implies (#[trigger] s2[a]).0 != (
        #[trigger] s2[b]).0 by {
            let a0 = if a < i { a } else { a + 1 };
            let b0 = if b < i { b } else { b + 1 };
            assert(s2[a] == s[a0]);
            assert(s2[b] == s[b0]);
        }
    }
    assert forall|x: InternalId| x != s[i].0 && #[trigger] tpl_has(s, x) implies tpl_node(s2, x)
        == tpl_node(s, x) by {
        let j = choose|j: int| 0 <= j < s.len() && (#[trigger] s[j]).0 == x;
        lemma_node_at(s, j);
        if j < i {
            lemma_node_at(s2, j);
        } else {
            lemma_node_at(s2, j - 1);
        }
    }
}

/// Copies a list of ids.
pub fn copy_ids(v: &Vec<InternalId>) -> (r: Vec<InternalId>)
    ensures
        r@ == v@,
{
    let mut r: Vec<InternalId> = Vec::new();
    let mut j: usize = 0;
    while j < v.len()
        invariant
            j <= v.len(),
            r@ == v@.subrange(0, j as int),
        decreases v.len() - j,
    {
        r.push(v[j]);
        proof {
            assert(r@ =~= v@.subrange(0, j as int + 1));
        }
        j = j + 1;
    }
    proof {
        assert(v@.subrange(0, v@.len() as int) =~= v@);
    }
    r
}

impl BaseTemplate {
    /// Picks an id that no item of the template carries: the smallest raw
    /// value not yet taken. The id space cannot run out while the template
    /// has fewer entries than 32 bits can count.
    pub fn fresh_id(&self) -> (r: InternalId)
        requires
            unique_keys(self.s()),
            self.s().len() < u32::MAX as nat,
        ensures
            !self.has(r),
    {
        broadcast use vstd::seq_lib::seq_to_set_is_finite;

        let n = self.items.len();
        let mut k: u32 = 0;
        loop
            invariant
                unique_keys(self.s()),
                self.s().len() == n < u32::MAX,
                k <= n,
                forall|j: u32| j < k ==> tpl_has(self.s(), InternalId(j)),
            decreases n - k,
        {
            if self.get(InternalId(k)).is_none() {
                return InternalId(k);
            }
            if k == n as u32 {
                proof {
                    let ids = Seq::new(n as nat + 1, |i: int| InternalId(i as u32));
                    assert(ids.no_duplicates());
                    let keys = tpl_keys(self.s());
                    assert forall|x: InternalId| ids.to_set().contains(x) implies keys.to_set()
                        .contains(x) by {
                        let j = choose|j: int| 0 <= j < ids.len() && ids[j] == x;
                        assert(x.0 <= n);
                        assert(tpl_has(self.s(), x));
                        let i = choose|i: int|
                            0 <= i < self.s().len() && (#[trigger] self.s()[i]).0 == x;
                        assert(keys[i] == x);
                    }
                    ids.unique_seq_to_set();
                    keys.lemma_cardinality_of_set();
                    vstd::set_lib::lemma_len_subset(ids.to_set(), keys.to_set());
                    assert(false);
                }
            }
            k = k + 1;
        }
    }

    /// Attaches a freshly built node under an existing parent: the node is
    /// appended to the collection and its id to the end of the parent's
    /// child list, making it the topmost sibling.
    #[verifier::rlimit(100)]
    pub fn attach(&mut self, pid: InternalId, node: StageItem)
        requires
            old(self).wf_core(),
            old(self).has(pid),
            !old(self).has(node.spec_id()),
            node.spec_parent() == Some(pid),
            node.spec_children() =~= Seq::<InternalId>::empty(),
        ensures
            final(self).wf_core(),
            final(self).root == old(self).root,
            final(self).size == old(self).size,
            final(self).has(node.spec_id()),
            final(self).node(node.spec_id()) == node,
            forall|x: InternalId|
                #[trigger] final(self).has(x) <==> (old(self).has(x) || x == node.spec_id()),
            final(self).node(pid).spec_children() == old(self).node(pid).spec_children().push(
                node.spec_id(),
            ),
            final(self).node(pid).spec_parent() == old(self).node(pid).spec_parent(),
            final(self).node(pid).spec_transform() == old(self).node(pid).spec_transform(),
            final(self).node(pid).spec_name() == old(self).node(pid).spec_name(),
            final(self).node(pid).spec_id() == pid,
            final(self).node(pid).payload_eq(old(self).node(pid)),
            forall|x: InternalId|
                x != pid && x != node.spec_id() && #[trigger] old(self).has(x) ==> final(self).node(
                    x,
                ) == old(self).node(x),
            old(self).prop_discipline() && (node matches StageItem::PropItem(it)
                && it.item.valid()) ==> final(self).prop_discipline(),
            old(self).blueprint_discipline() && (node matches StageItem::Prop(p)
                && p.template.wf()) ==> final(self).blueprint_discipline(),
    {
        let id = node.get_id();
        let ghost node_g = node;
        let ghost s0 = self.s();
        let ghost root = self.root;
        let ip = self.index_of(pid).unwrap();
        let mut pair = self.items.remove(ip);
        pair.1.push_child(id);
        let ghost parent1 = pair.1;
        self.items.insert(ip, pair);
        let ghost s1 = self.s();
        proof {
            assert(s1 =~= s0.update(ip as int, (s0[ip as int].0, parent1)));
            lemma_node_at(s0, ip as int);
            lemma_update_node(s0, ip as int, parent1);
        }
        self.items.push((id, node));
        let ghost s2 = self.s();
        proof {
            assert(!tpl_has(s1, id));
            lemma_push_fresh(s1, id, node);
            let p0 = tpl_node(s0, pid);
            assert(p0 == s0[ip as int].1);
            assert(p0.spec_id() == pid);

            // how the final collection relates to the first one
            assert(tpl_has(s1, pid));
            assert(tpl_node(s1, pid) == parent1);
            assert(tpl_node(s2, pid) == parent1);
            assert forall|x: InternalId| #[trigger] tpl_has(s0, x) implies tpl_has(s2, x)
                && tpl_node(s2, x).spec_parent() == tpl_node(s0, x).spec_parent() by {
                assert(tpl_has(s1, x));
                assert(tpl_has(s2, x));
                if x != pid && x != id {
                    assert(tpl_node(s1, x) == tpl_node(s0, x));
                    assert(tpl_node(s2, x) == tpl_node(s1, x));
                } else if x == pid {
                    assert(parent1.spec_parent() == p0.spec_parent());
                }
            }
            assert forall|x: InternalId|
                x != pid && x != id && #[trigger] tpl_has(s0, x) implies tpl_node(s2, x)
                == tpl_node(s0, x) by {
                assert(tpl_has(s1, x));
                assert(tpl_node(s1, x) == tpl_node(s0, x));
            }
            assert forall|x: InternalId| #[trigger] tpl_has(s2, x) implies (tpl_has(s0, x) || x
                == id) by {
                if x != id {
                    assert(tpl_has(s1, x));
                }
            }

            // indices of the final collection, for the per-entry clauses
            assert(forall|i: int| 0 <= i < s1.len() ==> #[trigger] s2[i] == s1[i]);
            assert(forall|i: int|
                0 <= i < s0.len() && i != ip ==> #[trigger] s1[i] == s0[i]);
            assert(s2[s2.len() - 1] == (id, node));
            assert(s1[ip as int] == (pid, parent1));

            // keys still name their nodes
            assert forall|i: int| 0 <= i < s2.len() implies (#[trigger] s2[i]).1.spec_id()
                == s2[i].0 by {
                if i < s0.len() && i != ip {
                    assert(s2[i] == s0[i]);
                }
            }

            // the root is untouched: it cannot be the fresh id, and if it is
            // the parent, only its child list grew
            assert(root != id);
            assert(tpl_node(s2, root).spec_parent() is None);
            assert(tpl_node(s2, root).spec_transform() == RelativeTransform::identity());

            // every non-root node still has a parent
            assert forall|i: int|
                0 <= i < s2.len() && (#[trigger] s2[i]).0 != root implies s2[i].1.spec_parent() is Some by {
                if i < s0.len() {
                    if i == ip {
                        assert(s2[i].1 == parent1);
                        lemma_node_at(s0, ip as int);
                    } else {
                        assert(s2[i] == s0[i]);
                        lemma_node_at(s0, i);
                    }
                } else {
                    assert(s2[i].1 == node);
                }
            }

            // child lists and parent links agree both ways
            assert forall|i: int, j: int|
                0 <= i < s2.len() && 0 <= j < (#[trigger] s2[i]).1.spec_children().len() implies {
                    let c = #[trigger] s2[i].1.spec_children()[j];
                    tpl_has(s2, c) && tpl_node(s2, c).spec_parent() == Some(s2[i].0)
                } by {
                let c = s2[i].1.spec_children()[j];
                if i == s2.len() - 1 {
                    assert(false);
                } else if i == ip {
                    assert(s2[i].1 == parent1);
                    assert(parent1.spec_children() == p0.spec_children().push(id));
                    if j < p0.spec_children().len() {
                        assert(c == p0.spec_children()[j]);
                        lemma_node_at(s0, ip as int);
                        assert(tpl_has(s0, c) && tpl_node(s0, c).spec_parent() == Some(pid));
                    } else {
                        assert(c == id);
                        assert(tpl_node(s2, id) == node);
                    }
                } else {
                    assert(s2[i] == s0[i]);
                    lemma_node_at(s0, i);
                    assert(tpl_has(s0, c) && tpl_node(s0, c).spec_parent() == Some(s0[i].0));
                }
            }
            assert forall|i: int|
                0 <= i < s2.len() && (#[trigger] s2[i]).0 != root implies {
                    let p = s2[i].1.spec_parent().unwrap();
                    tpl_has(s2, p) && tpl_node(s2, p).spec_children().contains(s2[i].0)
                } by {
                if i == s2.len() - 1 {
                    let oc = p0.spec_children();
                    assert(parent1.spec_children()[oc.len() as int] == id);
                    assert(tpl_node(s2, pid).spec_children().contains(id));
                } else {
                    let x = s2[i].0;
                    lemma_node_at(s0, if i == ip { ip as int } else { i });
                    let p = tpl_node(s0, x).spec_parent().unwrap();
                    assert(s2[i].1.spec_parent() == Some(p));
                    assert(tpl_node(s0, p).spec_children().contains(x));
                    if p == pid {
                        let oc = p0.spec_children();
                        let k = choose|k: int| 0 <= k < oc.len() && oc[k] == x;
                        assert(parent1.spec_children()[k] == x);
                    } else {
                        assert(tpl_node(s2, p) == tpl_node(s0, p));
                    }
                }
            }

            // child lists stay duplicate-free
            assert forall|i: int|
                0 <= i < s2.len() implies (#[trigger] s2[i]).1.spec_children().no_duplicates() by {
                if i == s2.len() - 1 {
                } else if i == ip {
                    let oc = p0.spec_children();
                    lemma_node_at(s0, ip as int);
                    assert(oc.no_duplicates());
                    assert(forall|k: int| 0 <= k < oc.len() ==> tpl_has(s0, #[trigger] oc[k]));
                    assert(forall|k: int| 0 <= k < oc.len() ==> #[trigger] oc[k] != id);
                    assert(parent1.spec_children() == oc.push(id));
                    assert(forall|k: int|
                        0 <= k < oc.len() ==> #[trigger] oc.push(id)[k] == oc[k]);
                    assert(oc.push(id)[oc.len() as int] == id);
                } else {
                    assert(s2[i] == s0[i]);
                    lemma_node_at(s0, i);
                }
            }

            // every node still reaches the root
            assert forall|i: int| 0 <= i < s2.len() implies reaches(
                s2,
                root,
                (#[trigger] s2[i]).0,
            ) by {
                if i == s2.len() - 1 {
                    assert(tpl_has(s0, pid));
                    lemma_node_at(s0, ip as int);
                    let f = choose|f: nat| reaches_root(s0, root, pid, f);
                    lemma_reach_agree(s0, s2, root, pid, f);
                    assert(reaches_root(s2, root, id, f + 1));
                } else {
                    let x = s2[i].0;
                    assert(tpl_has(s0, x)) by {
                        if i == ip {
                        } else {
                            assert(s2[i] == s0[i]);
                        }
                    }
                    assert(reaches(s0, root, x)) by {
                        let i0 = choose|i0: int|
                            0 <= i0 < s0.len() && (#[trigger] s0[i0]).0 == x;
                        assert(reaches(s0, root, s0[i0].0));
                    }
                    let f = choose|f: nat| reaches_root(s0, root, x, f);
                    lemma_reach_agree(s0, s2, root, x, f);
                }
            }

            // each kind discipline carries over when the new node fits it
            if old(self).prop_discipline() && (node_g matches StageItem::PropItem(it)
                && it.item.valid()) {
                assert forall|i: int|
                    0 <= i < s2.len() implies ((#[trigger] s2[i]).1 matches StageItem::PropItem(
                    item,
                ) && item.item.valid()) by {
                    if i == s2.len() - 1 {
                    } else if i == ip {
                        assert(s0[ip as int].1 matches StageItem::PropItem(q) && q.item.valid());
                        assert(parent1.payload_eq(s0[ip as int].1));
                    } else {
                        assert(s2[i] == s0[i]);
                    }
                }
            }
            if old(self).blueprint_discipline() && (node_g matches StageItem::Prop(p)
                && p.template.wf()) {
                assert forall|i: int|
                    0 <= i < s2.len() implies ((#[trigger] s2[i]).1 matches StageItem::Prop(q)
                    && q.template.wf()) by {
                    if i == s2.len() - 1 {
                    } else if i == ip {
                        assert(s0[ip as int].1 matches StageItem::Prop(q) && q.template.wf());
                        assert(parent1.payload_eq(s0[ip as int].1));
                    } else {
                        assert(s2[i] == s0[i]);
                    }
                }
            }
        }
    }
}

} // verus!

verus! {

/// Whether one node is another with its parent link turned to the root and
/// nothing else touched.
pub open spec fn node_reparented(n2: StageItem, n1: StageItem, root: InternalId) -> bool {
    &&& n2.spec_parent() == Some(root)
    &&& n2.spec_id() == n1.spec_id()
    &&& n2.spec_name() == n1.spec_name()
    &&& n2.spec_children() == n1.spec_children()
    &&& n2.spec_transform() == n1.spec_transform()
    &&& n2.payload_eq(n1)
}

/// Whether one node is another with its child list replaced and nothing
/// else touched.
pub open spec fn node_children_changed(n2: StageItem, n1: StageItem, cs: Seq<InternalId>) -> bool {
    &&& n2.spec_children() == cs
    &&& n2.spec_id() == n1.spec_id()
    &&& n2.spec_name() == n1.spec_name()
    &&& n2.spec_parent() == n1.spec_parent()
    &&& n2.spec_transform() == n1.spec_transform()
    &&& n2.payload_eq(n1)
}

/// Striking one id from a duplicate-free list drops exactly that id and
/// keeps the list duplicate-free.
pub proof fn lemma_strip(oc: Seq<InternalId>, id: InternalId)
    requires
        oc.no_duplicates(),
        oc.contains(id),
    ensures
        oc.remove_value(id).no_duplicates(),
        forall|y: InternalId|
            #[trigger] oc.remove_value(id).contains(y) <==> (oc.contains(y) && y != id),
        oc.remove_value(id).len() == oc.len() - 1,
{
    oc.index_of_first_ensures(id);
    let fi = oc.index_of_first(id).unwrap();
    oc.remove_ensures(fi);
    let st = oc.remove_value(id);
    assert forall|y: InternalId| #[trigger] st.contains(y) implies (oc.contains(y) && y != id) by {
        let j = choose|j: int| 0 <= j < st.len() && st[j] == y;
        if j < fi {
            assert(oc[j] == y);
        } else {
            assert(oc[j + 1] == y);
        }
    }
    assert forall|y: InternalId| oc.contains(y) && y != id implies #[trigger] st.contains(y) by {
        let j = choose|j: int| 0 <= j < oc.len() && oc[j] == y;
        if j < fi {
            assert(st[j] == y);
        } else {
            assert(st[j - 1] == y);
        }
    }
    assert forall|a: int, b: int| 0 <= a < b < st.len() implies st[a] != st[b] by {
        let a0 = if a < fi { a } else { a + 1 };
        let b0 = if b < fi { b } else { b + 1 };
        assert(st[a] == oc[a0] && st[b] == oc[b0]);
    }
}

impl BaseTemplate {
    /// The key-level reading of structural well-formedness, derived from the
    /// per-entry quantifiers.
    pub proof fn lemma_wf_facts(&self)
        requires
            self.wf_core(),
        ensures
            forall|x: InternalId| #[trigger] self.has(x) ==> self.node(x).spec_id() == x,
            forall|x: InternalId|
                #[trigger] self.has(x) && x != self.root ==> self.node(x).spec_parent() is Some,
            forall|x: InternalId, j: int|
                #[trigger] self.has(x) && 0 <= j < self.node(x).spec_children().len() ==> {
                    let c = #[trigger] self.node(x).spec_children()[j];
                    self.has(c) && self.node(c).spec_parent() == Some(x)
                },
            forall|x: InternalId|
                #[trigger] self.has(x) && x != self.root ==> {
                    let p = self.node(x).spec_parent().unwrap();
                    self.has(p) && self.node(p).spec_children().contains(x)
                },
            forall|x: InternalId| #[trigger] self.has(x) ==> self.node(x).spec_children().no_duplicates(),
            forall|x: InternalId| #[trigger] self.has(x) ==> reaches(self.s(), self.root, x),
    {
        let s = self.s();
        assert forall|x: InternalId| #[trigger] self.has(x) implies self.node(x).spec_id() == x
            && (x != self.root ==> self.node(x).spec_parent() is Some) && self.node(
            x,
        ).spec_children().no_duplicates() && reaches(s, self.root, x) && (x != self.root ==> {
            let p = self.node(x).spec_parent().unwrap();
            self.has(p) && self.node(p).spec_children().contains(x)
        }) by {
            let i = choose|i: int| 0 <= i < s.len() && (#[trigger] s[i]).0 == x;
            lemma_node_at(s, i);
        }
        assert forall|x: InternalId, j: int|
            #[trigger] self.has(x) && 0 <= j < self.node(x).spec_children().len() implies {
                let c = #[trigger] self.node(x).spec_children()[j];
                self.has(c) && self.node(c).spec_parent() == Some(x)
            } by {
            let i = choose|i: int| 0 <= i < s.len() && (#[trigger] s[i]).0 == x;
            lemma_node_at(s, i);
            assert(s[i].1.spec_children()[j] == self.node(x).spec_children()[j]);
        }
    }

    /// Structural well-formedness survives replacing one node when the
    /// replacement keeps the node's id, parent and children, and keeps the
    /// root's transform.
    pub proof fn lemma_wf_point_update(t0: BaseTemplate, t1: BaseTemplate, id: InternalId)
        requires
            t0.wf_core(),
            t1.root == t0.root,
            t1.size == t0.size,
            unique_keys(t1.s()),
            t0.has(id),
            forall|x: InternalId| #[trigger] t1.has(x) <==> t0.has(x),
            forall|x: InternalId|
                x != id && #[trigger] t0.has(x) ==> t1.node(x) == t0.node(x),
            t1.node(id).spec_id() == t0.node(id).spec_id(),
            t1.node(id).spec_parent() == t0.node(id).spec_parent(),
            t1.node(id).spec_children() == t0.node(id).spec_children(),
            id == t0.root ==> t1.node(id).spec_transform() == t0.node(id).spec_transform(),
        ensures
            t1.wf_core(),
    {
        t0.lemma_wf_facts();
        let s0 = t0.s();
        let s1 = t1.s();
        let root = t0.root;
        assert forall|x: InternalId| #[trigger] t1.has(x) implies t1.node(x).spec_id() == x
            && t1.node(x).spec_parent() == t0.node(x).spec_parent() && t1.node(x).spec_children()
            == t0.node(x).spec_children() && t1.node(x).spec_children().no_duplicates() by {}
        assert forall|i: int| 0 <= i < s1.len() implies (#[trigger] s1[i]).1.spec_id()
            == s1[i].0 by {
            lemma_node_at(s1, i);
            assert(t1.has(s1[i].0));
        }
        assert(t1.has(root) && t1.node(root).spec_parent() is None);
        assert(t1.node(root).spec_transform() == RelativeTransform::identity());
        assert forall|i: int|
            0 <= i < s1.len() && (#[trigger] s1[i]).0 != root implies s1[i].1.spec_parent() is Some by {
            lemma_node_at(s1, i);
            let x = s1[i].0;
            assert(t1.has(x));
            assert(t0.has(x));
            assert(t0.node(x).spec_parent() is Some);
        }
        assert forall|i: int, j: int|
            0 <= i < s1.len() && 0 <= j < (#[trigger] s1[i]).1.spec_children().len() implies {
                let c = #[trigger] s1[i].1.spec_children()[j];
                tpl_has(s1, c) && tpl_node(s1, c).spec_parent() == Some(s1[i].0)
            } by {
            lemma_node_at(s1, i);
            let x = s1[i].0;
            assert(t1.has(x));
            assert(t1.node(x).spec_children() == t0.node(x).spec_children());
            let c = t0.node(x).spec_children()[j];
            assert(t0.has(c) && t0.node(c).spec_parent() == Some(x));
            assert(t1.has(c));
        }
        assert forall|i: int|
            0 <= i < s1.len() && (#[trigger] s1[i]).0 != root implies {
                let p = s1[i].1.spec_parent().unwrap();
                tpl_has(s1, p) && tpl_node(s1, p).spec_children().contains(s1[i].0)
            } by {
            lemma_node_at(s1, i);
            let x = s1[i].0;
            assert(t1.has(x));
            assert(t0.has(x));
            let p = t0.node(x).spec_parent().unwrap();
            assert(t0.has(p) && t0.node(p).spec_children().contains(x));
            assert(t1.has(p));
            assert(t1.node(p).spec_children() == t0.node(p).spec_children());
        }
        assert forall|i: int| 0 <= i < s1.len() implies (
        #[trigger] s1[i]).1.spec_children().no_duplicates() by {
            lemma_node_at(s1, i);
            assert(t1.has(s1[i].0));
            assert(t0.has(s1[i].0));
        }
        assert forall|i: int| 0 <= i < s1.len() implies reaches(s1, root, (#[trigger] s1[i]).0) by {
            lemma_node_at(s1, i);
            let x = s1[i].0;
            assert(t1.has(x));
            assert(t0.has(x));
            let f = choose|f: nat| reaches_root(s0, root, x, f);
            assert forall|y: InternalId| #[trigger] tpl_has(s0, y) implies tpl_has(s1, y)
                && tpl_node(s1, y).spec_parent() == tpl_node(s0, y).spec_parent() by {
                assert(t0.has(y));
                assert(t1.has(y));
                assert(t1.node(y).spec_parent() == t0.node(y).spec_parent());
            }
            lemma_reach_agree(s0, s1, root, x, f);
        }
    }

    /// Overwrites the relative transform of a non-root item.
    #[verifier::rlimit(50)]
    pub fn set_item_transform(&mut self, id: InternalId, t: RelativeTransform) -> (r: Result<
        (),
        PyramusError,
    >)
        requires
            old(self).wf_core(),
        ensures
            final(self).root == old(self).root,
            final(self).size == old(self).size,
            final(self).s().len() == old(self).s().len(),
            match r {
                Ok(_) => {
                    &&& id != old(self).root
                    &&& old(self).has(id)
                    &&& final(self).wf_core()
                    &&& (old(self).prop_discipline() ==> final(self).prop_discipline())
                    &&& (old(self).blueprint_discipline() ==> final(self).blueprint_discipline())
                    &&& forall|x: InternalId| #[trigger] final(self).has(x) <==> old(self).has(x)
                    &&& final(self).node(id).spec_transform() == t
                    &&& final(self).node(id).spec_id() == old(self).node(id).spec_id()
                    &&& final(self).node(id).spec_name() == old(self).node(id).spec_name()
                    &&& final(self).node(id).spec_parent() == old(self).node(id).spec_parent()
                    &&& final(self).node(id).spec_children() == old(self).node(id).spec_children()
                    &&& final(self).node(id).payload_eq(old(self).node(id))
                    &&& forall|x: InternalId|
                        x != id && #[trigger] old(self).has(x) ==> final(self).node(x) == old(
                            self,
                        ).node(x)
                },
                Err(PyramusError::CannotEditRoot) => id == old(self).root && final(self).s() == old(
                    self,
                ).s(),
                Err(PyramusError::ItemNotFound) => id != old(self).root && !old(self).has(id)
                    && final(self).s() == old(self).s(),
                Err(_) => false,
            },
    {
        if id == self.root {
            return Err(PyramusError::CannotEditRoot);
        }
        let io = self.index_of(id);
        let i = match io {
            None => {
                return Err(PyramusError::ItemNotFound);
            },
            Some(i) => i,
        };
        let ghost s0 = self.s();
        let ghost t0 = *self;
        let mut pair = self.items.remove(i);
        pair.1.set_transform(t);
        let ghost n1 = pair.1;
        self.items.insert(i, pair);
        proof {
            assert(self.s() =~= s0.update(i as int, (s0[i as int].0, n1)));
            lemma_node_at(s0, i as int);
            lemma_update_node(s0, i as int, n1);
            BaseTemplate::lemma_wf_point_update(t0, *self, id);
            if t0.prop_discipline() {
                assert forall|k: int|
                    0 <= k < self.s().len() implies ((#[trigger] self.s()[k]).1
                    matches StageItem::PropItem(item) && item.item.valid()) by {
                    if k != i {
                        assert(self.s()[k] == s0[k]);
                    } else {
                        assert(s0[k].1 matches StageItem::PropItem(q) && q.item.valid());
                        assert(n1.payload_eq(s0[k].1));
                    }
                }
            }
            if t0.blueprint_discipline() {
                assert forall|k: int|
                    0 <= k < self.s().len() implies ((#[trigger] self.s()[k]).1
                    matches StageItem::Prop(q) && q.template.wf()) by {
                    if k != i {
                        assert(self.s()[k] == s0[k]);
                    } else {
                        assert(s0[k].1 matches StageItem::Prop(q) && q.template.wf());
                        assert(n1.payload_eq(s0[k].1));
                    }
                }
            }
        }
        Ok(())
    }

    /// Overwrites the name of an item.
    #[verifier::rlimit(50)]
    pub fn rename_item(&mut self, id: InternalId, name: String) -> (r: Result<(), PyramusError>)
        requires
            old(self).wf_core(),
        ensures
            final(self).root == old(self).root,
            final(self).size == old(self).size,
            final(self).s().len() == old(self).s().len(),
            match r {
                Ok(_) => {
                    &&& old(self).has(id)
                    &&& final(self).wf_core()
                    &&& (old(self).prop_discipline() ==> final(self).prop_discipline())
                    &&& (old(self).blueprint_discipline() ==> final(self).blueprint_discipline())
                    &&& forall|x: InternalId| #[trigger] final(self).has(x) <==> old(self).has(x)
                    &&& final(self).node(id).spec_name() == name@
                    &&& final(self).node(id).spec_id() == old(self).node(id).spec_id()
                    &&& final(self).node(id).spec_transform() == old(self).node(id).spec_transform()
                    &&& final(self).node(id).spec_parent() == old(self).node(id).spec_parent()
                    &&& final(self).node(id).spec_children() == old(self).node(id).spec_children()
                    &&& final(self).node(id).payload_eq(old(self).node(id))
                    &&& forall|x: InternalId|
                        x != id && #[trigger] old(self).has(x) ==> final(self).node(x) == old(
                            self,
                        ).node(x)
                },
                Err(PyramusError::ItemNotFound) => !old(self).has(id) && final(self).s() == old(
                    self,
                ).s(),
                Err(_) => false,
            },
    {
        let io = self.index_of(id);
        let i = match io {
            None => {
                return Err(PyramusError::ItemNotFound);
            },
            Some(i) => i,
        };
        let ghost s0 = self.s();
        let ghost t0 = *self;
        let mut pair = self.items.remove(i);
        pair.1.rename(name);
        let ghost n1 = pair.1;
        self.items.insert(i, pair);
        proof {
            assert(self.s() =~= s0.update(i as int, (s0[i as int].0, n1)));
            lemma_node_at(s0, i as int);
            lemma_update_node(s0, i as int, n1);
            BaseTemplate::lemma_wf_point_update(t0, *self, id);
            if t0.prop_discipline() {
                assert forall|k: int|
                    0 <= k < self.s().len() implies ((#[trigger] self.s()[k]).1
                    matches StageItem::PropItem(item) && item.item.valid()) by {
                    if k != i {
                        assert(self.s()[k] == s0[k]);
                    } else {
                        assert(s0[k].1 matches StageItem::PropItem(q) && q.item.valid());
                        assert(n1.payload_eq(s0[k].1));
                    }
                }
            }
            if t0.blueprint_discipline() {
                assert forall|k: int|
                    0 <= k < self.s().len() implies ((#[trigger] self.s()[k]).1
                    matches StageItem::Prop(q) && q.template.wf()) by {
                    if k != i {
                        assert(self.s()[k] == s0[k]);
                    } else {
                        assert(s0[k].1 matches StageItem::Prop(q) && q.template.wf());
                        assert(n1.payload_eq(s0[k].1));
                    }
                }
            }
        }
        Ok(())
    }
}

} // verus!

verus! {

impl BaseTemplate {
    /// Structural well-formedness survives removing a non-root node when its
    /// former children were handed to the root, its parent's child list lost
    /// exactly its id, and the root's child list gained the children at the
    /// end.
    #[verifier::rlimit(100)]
    pub proof fn lemma_wf_after_remove(t0: BaseTemplate, t2: BaseTemplate, id: InternalId)
        requires
            t0.wf_core(),
            t0.has(id),
            id != t0.root,
            t2.root == t0.root,
            t2.size == t0.size,
            unique_keys(t2.s()),
            forall|x: InternalId| #[trigger] t2.has(x) <==> (t0.has(x) && x != id),
            ({
                let pid = t0.node(id).spec_parent().unwrap();
                let vc = t0.node(id).spec_children();
                let root = t0.root;
                &&& forall|x: InternalId|
                    x != id && x != pid && x != root && !vc.contains(x) && #[trigger] t0.has(x)
                        ==> t2.node(x) == t0.node(x)
                &&& forall|j: int|
                    0 <= j < vc.len() ==> node_reparented(
                        t2.node(#[trigger] vc[j]),
                        t0.node(vc[j]),
                        root,
                    )
                &&& (pid != root ==> node_children_changed(
                    t2.node(pid),
                    t0.node(pid),
                    t0.node(pid).spec_children().remove_value(id),
                ))
                &&& node_children_changed(
                    t2.node(root),
                    t0.node(root),
                    (if pid == root {
                        t0.node(root).spec_children().remove_value(id)
                    } else {
                        t0.node(root).spec_children()
                    }) + vc,
                )
            }),
        ensures
            t2.wf_core(),
            t0.prop_discipline() ==> t2.prop_discipline(),
            t0.blueprint_discipline() ==> t2.blueprint_discipline(),
    {
        t0.lemma_wf_facts();
        let s0 = t0.s();
        let s2 = t2.s();
        let root = t0.root;
        let pid = t0.node(id).spec_parent().unwrap();
        let vc = t0.node(id).spec_children();
        let base = if pid == root {
            t0.node(root).spec_children().remove_value(id)
        } else {
            t0.node(root).spec_children()
        };

        // the removed node, its parent and the root are pairwise apart
        assert(t0.has(pid) && t0.node(pid).spec_children().contains(id));
        lemma_no_cycle1(s0, root, id);
        assert(pid != id);
        assert forall|j: int| 0 <= j < vc.len() implies #[trigger] vc[j] != id && vc[j] != root
            && vc[j] != pid && t0.has(vc[j]) && t0.node(vc[j]).spec_parent() == Some(id) by {
            let c = vc[j];
            assert(t0.has(c) && t0.node(c).spec_parent() == Some(id));
            if c == pid {
                if pid == root {
                } else {
                    lemma_no_cycle2(s0, root, id, pid);
                }
            }
        }
        lemma_strip(t0.node(pid).spec_children(), id);
        if pid != root {
            assert(!t0.node(root).spec_children().contains(id)) by {
                if t0.node(root).spec_children().contains(id) {
                    let j = choose|j: int|
                        0 <= j < t0.node(root).spec_children().len() && t0.node(
                            root,
                        ).spec_children()[j] == id;
                    assert(t0.node(id).spec_parent() == Some(root));
                }
            }
        }
        assert(base.no_duplicates());
        assert(forall|y: InternalId| #[trigger] base.contains(y) ==> t0.node(
            root,
        ).spec_children().contains(y) && y != id);
        assert forall|y: InternalId| #[trigger] t0.node(root).spec_children().contains(y) && y
            != id implies base.contains(y) by {}

        // membership in the old child list of the removed node
        assert forall|y: InternalId| #[trigger] vc.contains(y) implies t0.has(y) && t0.node(
            y,
        ).spec_parent() == Some(id) by {
            let j = choose|j: int| 0 <= j < vc.len() && vc[j] == y;
        }
        assert forall|y: InternalId|
            #[trigger] t0.has(y) && t0.node(y).spec_parent() == Some(id) implies vc.contains(
            y,
        ) by {
            assert(y != root);
            assert(t0.node(id).spec_children().contains(y));
        }

        // the parent link of every surviving node
        assert forall|y: InternalId| #[trigger] t2.has(y) implies t2.node(y).spec_parent() == (
        if vc.contains(y) {
            Some(root)
        } else {
            t0.node(y).spec_parent()
        }) && t2.node(y).spec_id() == y && t2.node(y).payload_eq(t0.node(y)) && t2.node(
            y,
        ).spec_children() == (if y == root {
            base + vc
        } else if y == pid {
            t0.node(pid).spec_children().remove_value(id)
        } else {
            t0.node(y).spec_children()
        }) && (y == root ==> t2.node(y).spec_transform() == t0.node(y).spec_transform()) by {
            assert(t0.has(y) && y != id);
            if vc.contains(y) {
                let j = choose|j: int| 0 <= j < vc.len() && vc[j] == y;
                assert(node_reparented(t2.node(vc[j]), t0.node(vc[j]), root));
            } else if y == root {
                if pid == root {
                } else {
                }
            } else if y == pid {
            } else {
                assert(t2.node(y) == t0.node(y));
            }
        }

        // per-entry conjuncts of well-formedness
        assert forall|i: int| 0 <= i < s2.len() implies (#[trigger] s2[i]).1.spec_id()
            == s2[i].0 by {
            lemma_node_at(s2, i);
            assert(t2.has(s2[i].0));
        }
        assert(t2.has(root));
        assert(!vc.contains(root));
        assert(t2.node(root).spec_parent() is None);
        assert(t2.node(root).spec_transform() == RelativeTransform::identity());
        assert forall|i: int|
            0 <= i < s2.len() && (#[trigger] s2[i]).0 != root implies s2[i].1.spec_parent() is Some by {
            lemma_node_at(s2, i);
            let x = s2[i].0;
            assert(t2.has(x));
            if !vc.contains(x) {
                assert(t0.node(x).spec_parent() is Some);
            }
        }
        assert forall|i: int, j: int|
            0 <= i < s2.len() && 0 <= j < (#[trigger] s2[i]).1.spec_children().len() implies {
                let c = #[trigger] s2[i].1.spec_children()[j];
                tpl_has(s2, c) && tpl_node(s2, c).spec_parent() == Some(s2[i].0)
            } by {
            lemma_node_at(s2, i);
            let x = s2[i].0;
            assert(t2.has(x));
            let cs = t2.node(x).spec_children();
            let c = cs[j];
            assert(cs.contains(c));
            if x == root {
                if j < base.len() {
                    assert(c == base[j]);
                    assert(base.contains(c));
                    assert(t0.node(root).spec_children().contains(c) && c != id);
                    assert(t0.node(c).spec_parent() == Some(root));
                    assert(!vc.contains(c));
                    assert(t2.has(c));
                } else {
                    assert(c == vc[j - base.len()]);
                    assert(vc.contains(c));
                    assert(t2.has(c));
                }
            } else if x == pid {
                let st = t0.node(pid).spec_children().remove_value(id);
                assert(st.contains(c));
                assert(t0.node(pid).spec_children().contains(c) && c != id);
                assert(t0.node(c).spec_parent() == Some(pid));
                assert(!vc.contains(c));
                assert(t2.has(c));
            } else {
                assert(cs == t0.node(x).spec_children());
                assert(t0.node(x).spec_children().contains(c));
                assert(t0.has(c) && t0.node(c).spec_parent() == Some(x));
                assert(c != id) by {
                    if c == id {
                        assert(t0.node(id).spec_parent() == Some(x));
                    }
                }
                assert(!vc.contains(c)) by {
                    if vc.contains(c) {
                        assert(t0.node(c).spec_parent() == Some(id));
                    }
                }
                assert(t2.has(c));
            }
        }
        assert forall|i: int|
            0 <= i < s2.len() && (#[trigger] s2[i]).0 != root implies {
                let p = s2[i].1.spec_parent().unwrap();
                tpl_has(s2, p) && tpl_node(s2, p).spec_children().contains(s2[i].0)
            } by {
            lemma_node_at(s2, i);
            let x = s2[i].0;
            assert(t2.has(x));
            if vc.contains(x) {
                assert(t2.node(x).spec_parent() == Some(root));
                let j = choose|j: int| 0 <= j < vc.len() && vc[j] == x;
                assert((base + vc)[base.len() + j] == x);
                assert(t2.node(root).spec_children().contains(x));
            } else {
                let p = t0.node(x).spec_parent().unwrap();
                assert(t0.has(p) && t0.node(p).spec_children().contains(x));
                assert(p != id) by {
                    if p == id {
                        assert(vc.contains(x));
                    }
                }
                assert(t2.has(p));
                if p == root {
                    assert(base.contains(x));
                    let j = choose|j: int| 0 <= j < base.len() && base[j] == x;
                    assert((base + vc)[j] == x);
                    assert(t2.node(root).spec_children().contains(x));
                } else if p == pid {
                    let st = t0.node(pid).spec_children().remove_value(id);
                    assert(st.contains(x));
                } else {
                    assert(t2.node(p).spec_children() == t0.node(p).spec_children());
                }
            }
        }
        assert forall|i: int| 0 <= i < s2.len() implies (
        #[trigger] s2[i]).1.spec_children().no_duplicates() by {
            lemma_node_at(s2, i);
            let x = s2[i].0;
            assert(t2.has(x));
            if x == root {
                let cat = base + vc;
                assert forall|a: int, b: int| 0 <= a < b < cat.len() implies cat[a] != cat[b] by {
                    if b < base.len() {
                        assert(cat[a] == base[a] && cat[b] == base[b]);
                    } else if a >= base.len() {
                        assert(cat[a] == vc[a - base.len()] && cat[b] == vc[b - base.len()]);
                    } else {
                        assert(cat[a] == base[a] && cat[b] == vc[b - base.len()]);
                        if cat[a] == cat[b] {
                            let y = cat[a];
                            assert(base.contains(y));
                            assert(vc.contains(y));
                            assert(t0.node(y).spec_parent() == Some(root));
                            assert(t0.node(y).spec_parent() == Some(id));
                        }
                    }
                }
            } else if x == pid {
            } else {
                assert(t2.node(x).spec_children() == t0.node(x).spec_children());
            }
        }
        assert forall|i: int| 0 <= i < s2.len() implies reaches(s2, root, (#[trigger] s2[i]).0) by {
            lemma_node_at(s2, i);
            let x = s2[i].0;
            assert(t2.has(x));
            assert(t0.has(x));
            let f = choose|f: nat| reaches_root(s0, root, x, f);
            assert forall|y: InternalId| y != id && #[trigger] tpl_has(s0, y) implies tpl_has(
                s2,
                y,
            ) && tpl_node(s2, y).spec_parent() == (if tpl_node(s0, y).spec_parent() == Some(id) {
                Some(root)
            } else {
                tpl_node(s0, y).spec_parent()
            }) by {
                assert(t0.has(y));
                assert(t2.has(y));
                if tpl_node(s0, y).spec_parent() == Some(id) {
                    assert(vc.contains(y));
                } else {
                    assert(!vc.contains(y)) by {
                        if vc.contains(y) {
                            assert(t0.node(y).spec_parent() == Some(id));
                        }
                    }
                }
            }
            crate::reach::lemma_reach_remove(s0, s2, root, id, x, f);
        }

        // discipline is a per-node matter and every node kept its payload
        if t0.prop_discipline() {
            assert forall|i: int|
                0 <= i < s2.len() implies ((#[trigger] s2[i]).1 matches StageItem::PropItem(item)
                && item.item.valid()) by {
                lemma_node_at(s2, i);
                let x = s2[i].0;
                assert(t2.has(x));
                let i0 = choose|i0: int| 0 <= i0 < s0.len() && (#[trigger] s0[i0]).0 == x;
                lemma_node_at(s0, i0);
                assert(s0[i0].1 matches StageItem::PropItem(q) && q.item.valid());
                assert(t2.node(x).payload_eq(t0.node(x)));
            }
        }
        if t0.blueprint_discipline() {
            assert forall|i: int|
                0 <= i < s2.len() implies ((#[trigger] s2[i]).1 matches StageItem::Prop(q)
                && q.template.wf()) by {
                lemma_node_at(s2, i);
                let x = s2[i].0;
                assert(t2.has(x));
                let i0 = choose|i0: int| 0 <= i0 < s0.len() && (#[trigger] s0[i0]).0 == x;
                lemma_node_at(s0, i0);
                assert(s0[i0].1 matches StageItem::Prop(q) && q.template.wf());
                assert(t2.node(x).payload_eq(t0.node(x)));
            }
        }
    }
}

} // verus!

verus! {

impl BaseTemplate {
    /// Removes a non-root item. Its former children are re-parented to the
    /// root and appended, in their old order, at the end of the root's child
    /// list; their relative transforms are kept as they are, so they may
    /// shift on screen. The root itself cannot be removed.
    #[verifier::rlimit(100)]
    pub fn remove_item(&mut self, id: InternalId) -> (r: Result<(), PyramusError>)
        requires
            old(self).wf_core(),
        ensures
            final(self).root == old(self).root,
            final(self).size == old(self).size,
            match r {
                Ok(_) => ({
                    let t0 = *old(self);
                    let pid = t0.node(id).spec_parent().unwrap();
                    let vc = t0.node(id).spec_children();
                    &&& id != t0.root
                    &&& t0.has(id)
                    &&& final(self).wf_core()
                    &&& (t0.prop_discipline() ==> final(self).prop_discipline())
                    &&& (t0.blueprint_discipline() ==> final(self).blueprint_discipline())
                    &&& forall|x: InternalId|
                        #[trigger] final(self).has(x) <==> (t0.has(x) && x != id)
                    &&& forall|x: InternalId|
                        x != id && x != pid && x != t0.root && !vc.contains(x) && #[trigger] t0.has(
                            x,
                        ) ==> final(self).node(x) == t0.node(x)
                    &&& forall|j: int|
                        0 <= j < vc.len() ==> node_reparented(
                            final(self).node(#[trigger] vc[j]),
                            t0.node(vc[j]),
                            t0.root,
                        )
                    &&& (pid != t0.root ==> node_children_changed(
                        final(self).node(pid),
                        t0.node(pid),
                        t0.node(pid).spec_children().remove_value(id),
                    ))
                    &&& node_children_changed(
                        final(self).node(t0.root),
                        t0.node(t0.root),
                        (if pid == t0.root {
                            t0.node(t0.root).spec_children().remove_value(id)
                        } else {
                            t0.node(t0.root).spec_children()
                        }) + vc,
                    )
                }),
                Err(PyramusError::CannotRemoveRoot) => id == old(self).root && final(self).s()
                    == old(self).s(),
                Err(PyramusError::ItemNotFound) => id != old(self).root && !old(self).has(id)
                    && final(self).s() == old(self).s(),
                Err(_) => false,
            },
    {
        if id == self.root {
            return Err(PyramusError::CannotRemoveRoot);
        }
        let io = self.index_of(id);
        let i = match io {
            None => {
                return Err(PyramusError::ItemNotFound);
            },
            Some(i) => i,
        };
        let ghost t0 = *self;
        let ghost s0 = self.s();
        let root = self.root;
        proof {
            t0.lemma_wf_facts();
            lemma_node_at(s0, i as int);
        }
        let pid = match self.items[i].1.get_parent() {
            Some(p) => p,
            None => {
                proof {
                    assert(false);
                }
                return Err(PyramusError::ItemNotFound);
            },
        };
        let vc = copy_ids(self.items[i].1.get_children());
        let ghost vcs = vc@;
        proof {
            // the removed node, its parent, the root and the children are
            // pairwise apart
            lemma_no_cycle1(s0, root, id);
            assert forall|j: int| 0 <= j < vcs.len() implies #[trigger] vcs[j] != id && vcs[j]
                != root && vcs[j] != pid && t0.has(vcs[j]) && t0.node(vcs[j]).spec_parent()
                == Some(id) by {
                let c = vcs[j];
                assert(t0.has(c) && t0.node(c).spec_parent() == Some(id));
                if c == pid && pid != root {
                    lemma_no_cycle2(s0, root, id, pid);
                }
            }
            assert(vcs.no_duplicates());
            assert(t0.has(pid) && t0.node(pid).spec_children().contains(id));
        }

        // detach the node from its parent's child list
        let ip = self.index_of(pid).unwrap();
        let mut ppair = self.items.remove(ip);
        ppair.1.remove_child(id);
        let ghost pnode = ppair.1;
        self.items.insert(ip, ppair);
        proof {
            assert(self.s() =~= s0.update(ip as int, (s0[ip as int].0, pnode)));
            lemma_update_node(s0, ip as int, pnode);
        }
        let ghost s1 = self.s();

        // hand each former child to the root
        let mut j: usize = 0;
        while j < vc.len()
            invariant
                self.root == root,
                self.size == t0.size,
                unique_keys(self.s()),
                j <= vcs.len(),
                vc@ == vcs,
                vcs.no_duplicates(),
                t0.wf_core(),
                t0.has(id),
                id != root,
                t0.has(pid),
                t0.node(id).spec_parent() == Some(pid),
                t0.node(id).spec_children() == vcs,
                pid != id,
                forall|k: int|
                    0 <= k < vcs.len() ==> #[trigger] vcs[k] != id && vcs[k] != root && vcs[k]
                        != pid && t0.has(vcs[k]),
                forall|x: InternalId| #[trigger] self.has(x) <==> t0.has(x),
                node_children_changed(
                    self.node(pid),
                    t0.node(pid),
                    t0.node(pid).spec_children().remove_value(id),
                ),
                forall|k: int|
                    0 <= k < j ==> node_reparented(
                        self.node(#[trigger] vcs[k]),
                        t0.node(vcs[k]),
                        root,
                    ),
                forall|x: InternalId|
                    x != pid && !vcs.subrange(0, j as int).contains(x) && #[trigger] t0.has(x)
                        ==> self.node(x) == t0.node(x),
            decreases vcs.len() - j,
        {
            let c = vc[j];
            let ghost sc = self.s();
            proof {
                assert(c == vcs[j as int]);
                assert(t0.has(c));
                assert(self.has(c));
                assert forall|y: InternalId| #[trigger] tpl_has(sc, y) <==> t0.has(y) by {
                    assert(tpl_has(sc, y) == self.has(y));
                }
                assert forall|x: InternalId|
                    x != pid && !vcs.subrange(0, j as int).contains(x) && #[trigger] t0.has(
                        x,
                    ) implies tpl_node(sc, x) == t0.node(x) by {
                    assert(self.node(x) == tpl_node(sc, x));
                }
                assert forall|k: int| 0 <= k < j implies node_reparented(
                    tpl_node(sc, #[trigger] vcs[k]),
                    t0.node(vcs[k]),
                    root,
                ) by {
                    assert(self.node(vcs[k]) == tpl_node(sc, vcs[k]));
                }
                assert(node_children_changed(
                    tpl_node(sc, pid),
                    t0.node(pid),
                    t0.node(pid).spec_children().remove_value(id),
                )) by {
                    assert(self.node(pid) == tpl_node(sc, pid));
                }
            }
            let ic = self.index_of(c).unwrap();
            let mut cpair = self.items.remove(ic);
            cpair.1.set_parent(Some(root));
            let ghost cnode = cpair.1;
            self.items.insert(ic, cpair);
            proof {
                assert(self.s() =~= sc.update(ic as int, (sc[ic as int].0, cnode)));
                lemma_update_node(sc, ic as int, cnode);
                assert(tpl_node(sc, c) == t0.node(c)) by {
                    assert(!vcs.subrange(0, j as int).contains(c));
                }
                assert(node_reparented(self.node(c), t0.node(c), root));
                assert forall|k: int| 0 <= k < j + 1 implies node_reparented(
                    self.node(#[trigger] vcs[k]),
                    t0.node(vcs[k]),
                    root,
                ) by {
                    if k < j && vcs[k] != c {
                        assert(tpl_has(sc, vcs[k]));
                        assert(tpl_node(self.s(), vcs[k]) == tpl_node(sc, vcs[k]));
                    }
                }
                assert forall|x: InternalId|
                    x != pid && !vcs.subrange(0, j as int + 1).contains(x) && #[trigger] t0.has(
                        x,
                    ) implies self.node(x) == t0.node(x) by {
                    assert(!vcs.subrange(0, j as int).contains(x)) by {
                        if vcs.subrange(0, j as int).contains(x) {
                            let w = choose|w: int|
                                0 <= w < j && vcs.subrange(0, j as int)[w] == x;
                            assert(vcs.subrange(0, j as int + 1)[w] == x);
                        }
                    }
                    assert(x != c) by {
                        if x == c {
                            assert(vcs.subrange(0, j as int + 1)[j as int] == vcs[j as int]);
                            assert(vcs.subrange(0, j as int + 1).contains(x));
                        }
                    }
                    assert(tpl_has(sc, x));
                    assert(tpl_node(self.s(), x) == tpl_node(sc, x));
                }
                assert(self.node(pid) == tpl_node(sc, pid)) by {
                    assert(vcs[j as int] != pid);
                    assert(pid != c);
                    assert(tpl_has(sc, pid));
                }
            }
            j = j + 1;
        }

        // the root's child list gains the children, in their old order
        let ghost s2 = self.s();
        proof {
            assert(t0.has(root));
            assert(self.has(root));
            assert(vcs.subrange(0, vcs.len() as int) =~= vcs);
            assert forall|x: InternalId| #[trigger] tpl_has(s2, x) <==> t0.has(x) by {
                assert(tpl_has(s2, x) == self.has(x));
            }
            assert(node_children_changed(
                tpl_node(s2, pid),
                t0.node(pid),
                t0.node(pid).spec_children().remove_value(id),
            ));
            assert forall|k: int| 0 <= k < vcs.len() implies node_reparented(
                tpl_node(s2, #[trigger] vcs[k]),
                t0.node(vcs[k]),
                root,
            ) by {
                assert(node_reparented(self.node(vcs[k]), t0.node(vcs[k]), root));
            }
            assert forall|x: InternalId|
                x != pid && !vcs.contains(x) && #[trigger] t0.has(x) implies tpl_node(s2, x)
                == t0.node(x) by {
                assert(!vcs.subrange(0, vcs.len() as int).contains(x));
                assert(self.node(x) == t0.node(x));
            }
            assert(tpl_node(s2, root).spec_children() == (if pid == root {
                t0.node(root).spec_children().remove_value(id)
            } else {
                t0.node(root).spec_children()
            })) by {
                if pid != root {
                    assert(!vcs.contains(root));
                    assert(tpl_node(s2, root) == t0.node(root));
                }
            }
        }
        let ir = self.index_of(root).unwrap();
        let mut rpair = self.items.remove(ir);
        rpair.1.append_children(&vc);
        let ghost rnode = rpair.1;
        self.items.insert(ir, rpair);
        proof {
            assert(self.s() =~= s2.update(ir as int, (s2[ir as int].0, rnode)));
            lemma_update_node(s2, ir as int, rnode);
            assert(tpl_node(self.s(), root) == rnode);
        }

        // strike the entry of the removed node itself
        let ghost s3 = self.s();
        proof {
            assert(tpl_has(s2, id));
            assert(tpl_has(s3, id));
            assert(self.has(id));
        }
        let i2 = self.index_of(id).unwrap();
        self.items.remove(i2);
        proof {
            assert(self.s() == s3.remove(i2 as int));
            lemma_remove_entry(s3, i2 as int);
            assert forall|x: InternalId| #[trigger] self.has(x) <==> (t0.has(x) && x != id) by {
                assert(tpl_has(s3, x) <==> tpl_has(s2, x));
                assert(tpl_has(s2, x) <==> t0.has(x));
            }
            assert(node_children_changed(
                self.node(root),
                t0.node(root),
                (if pid == root {
                    t0.node(root).spec_children().remove_value(id)
                } else {
                    t0.node(root).spec_children()
                }) + vcs,
            )) by {
                assert(tpl_node(s3, root) == rnode);
                assert(tpl_has(s3, root) && root != id);
                assert(self.node(root) == tpl_node(s3, root));
            }
            assert forall|jx: int| 0 <= jx < vcs.len() implies node_reparented(
                self.node(#[trigger] vcs[jx]),
                t0.node(vcs[jx]),
                root,
            ) by {
                let c = vcs[jx];
                assert(node_reparented(tpl_node(s2, c), t0.node(c), root));
                assert(tpl_has(s2, c) && c != root);
                assert(tpl_node(s3, c) == tpl_node(s2, c));
                assert(tpl_has(s3, c) && c != id);
                assert(self.node(c) == tpl_node(s3, c));
            }
            if pid != root {
                assert(node_children_changed(
                    self.node(pid),
                    t0.node(pid),
                    t0.node(pid).spec_children().remove_value(id),
                )) by {
                    assert(node_children_changed(
                        tpl_node(s2, pid),
                        t0.node(pid),
                        t0.node(pid).spec_children().remove_value(id),
                    ));
                    assert(tpl_has(s2, pid) && pid != root);
                    assert(tpl_node(s3, pid) == tpl_node(s2, pid));
                    assert(tpl_has(s3, pid) && pid != id);
                    assert(self.node(pid) == tpl_node(s3, pid));
                }
            }
            assert forall|x: InternalId|
                x != id && x != pid && x != root && !vcs.contains(x) && #[trigger] t0.has(
                    x,
                ) implies self.node(x) == t0.node(x) by {
                assert(tpl_node(s2, x) == t0.node(x));
                assert(tpl_has(s2, x));
                assert(tpl_node(s3, x) == tpl_node(s2, x));
                assert(tpl_has(s3, x));
                assert(self.node(x) == tpl_node(s3, x));
            }
            BaseTemplate::lemma_wf_after_remove(t0, *self, id);
        }
        Ok(())
    }
}

} // verus!
