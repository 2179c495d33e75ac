use vstd::prelude::*;

use crate::ids::InternalId;
use crate::scene::{StageItem, reaches, reaches_root, tpl_has, tpl_node, tpl_keys, unique_keys};

verus! {

/// More fuel never hurts: a chain that reaches the root within some fuel
/// also reaches it within any larger fuel.
pub proof fn lemma_reach_mono(
    s: Seq<(InternalId, StageItem)>,
    root: InternalId,
    id: InternalId,
    f1: nat,
    f2: nat,
)
    requires
        reaches_root(s, root, id, f1),
        f1 <= f2,
    ensures
        reaches_root(s, root, id, f2),
    decreases f1,
{
    if id != root {
        let p = tpl_node(s, id).spec_parent().unwrap();
        lemma_reach_mono(s, root, p, (f1 - 1) as nat, (f2 - 1) as nat);
    }
}

/// Reaching the root depends only on which ids are present and on their
/// parent links: a collection that keeps both keeps every chain.
pub proof fn lemma_reach_agree(
    s1: Seq<(InternalId, StageItem)>,
    s2: Seq<(InternalId, StageItem)>,
    root: InternalId,
    id: InternalId,
    fuel: nat,
)
    requires
        reaches_root(s1, root, id, fuel),
        forall|x: InternalId|
            #[trigger] tpl_has(s1, x) ==> tpl_has(s2, x) && tpl_node(s2, x).spec_parent()
                == tpl_node(s1, x).spec_parent(),
    ensures
        reaches_root(s2, root, id, fuel),
    decreases fuel,
{
    if id != root {
        let p = tpl_node(s1, id).spec_parent().unwrap();
        lemma_reach_agree(s1, s2, root, p, (fuel - 1) as nat);
    }
}

/// The parent chain of an id, starting at the id and ending at the root,
/// as far as the fuel carries it.
pub open spec fn chain_of(
    s: Seq<(InternalId, StageItem)>,
    root: InternalId,
    id: InternalId,
    fuel: nat,
) -> Seq<InternalId>
    decreases fuel,
{
    if id == root {
        seq![root]
    } else if fuel == 0 {
        Seq::empty()
    } else if tpl_has(s, id) {
        match tpl_node(s, id).spec_parent() {
            Some(p) => seq![id] + chain_of(s, root, p, (fuel - 1) as nat),
            None => Seq::empty(),
        }
    } else {
        Seq::empty()
    }
}

/// Once a chain reaches the root, the chain itself does not depend on how
/// much fuel was allowed.
pub proof fn lemma_chain_fuel(
    s: Seq<(InternalId, StageItem)>,
    root: InternalId,
    id: InternalId,
    f1: nat,
    f2: nat,
)
    requires
        reaches_root(s, root, id, f1),
        reaches_root(s, root, id, f2),
    ensures
        chain_of(s, root, id, f1) == chain_of(s, root, id, f2),
    decreases f1,
{
    if id != root {
        let p = tpl_node(s, id).spec_parent().unwrap();
        lemma_chain_fuel(s, root, p, (f1 - 1) as nat, (f2 - 1) as nat);
    }
}

/// The shape of a reaching chain: it runs from the id to the root, stays
/// within the collection, repeats no id, and witnesses that the id reaches
/// the root within one less fuel than its length.
pub proof fn lemma_chain(
    s: Seq<(InternalId, StageItem)>,
    root: InternalId,
    id: InternalId,
    fuel: nat,
)
    requires
        reaches_root(s, root, id, fuel),
    ensures
        ({
            let c = chain_of(s, root, id, fuel);
            &&& c.len() >= 1
            &&& c.len() <= fuel + 1
            &&& c[0] == id
            &&& c.last() == root
            &&& c.no_duplicates()
            &&& forall|k: int| 0 <= k < c.len() ==> (#[trigger] c[k]) == root || tpl_has(s, c[k])
            &&& forall|k: int|
                0 <= k < c.len() ==> reaches_root(s, root, #[trigger] c[k], (c.len() - 1 - k) as nat)
            &&& forall|k: int|
                0 <= k < c.len() ==> chain_of(s, root, #[trigger] c[k], fuel) == c.skip(k)
            &&& forall|k: int|
                0 <= k < c.len() - 1 ==> tpl_node(s, #[trigger] c[k]).spec_parent() == Some(
                    c[k + 1],
                )
        }),
    decreases fuel,
{
    let c = chain_of(s, root, id, fuel);
    if id == root {
        assert(c =~= seq![root]);
        assert(c.skip(0) =~= c);
    } else {
        let p = tpl_node(s, id).spec_parent().unwrap();
        let sub = (fuel - 1) as nat;
        lemma_chain(s, root, p, sub);
        let cp = chain_of(s, root, p, sub);
        assert(c =~= seq![id] + cp);
        assert(c.last() == cp.last());
        assert(forall|k: int| 1 <= k < c.len() ==> #[trigger] c[k] == cp[k - 1]);

        // every element of the chain is present and reaches the root
        assert forall|k: int| 0 <= k < c.len() implies (#[trigger] c[k]) == root || tpl_has(
            s,
            c[k],
        ) by {
            if k >= 1 {
                assert(cp[k - 1] == root || tpl_has(s, cp[k - 1]));
            }
        }
        assert forall|k: int| 0 <= k < c.len() implies reaches_root(
            s,
            root,
            #[trigger] c[k],
            (c.len() - 1 - k) as nat,
        ) by {
            if k == 0 {
                assert(reaches_root(s, root, p, (cp.len() - 1) as nat));
            } else {
                assert(reaches_root(s, root, cp[k - 1], (cp.len() - 1 - (k - 1)) as nat));
            }
        }

        // suffix property, lifted from the parent's chain to this one
        assert forall|k: int| 0 <= k < c.len() implies chain_of(s, root, #[trigger] c[k], fuel)
            == c.skip(k) by {
            if k == 0 {
                assert(c.skip(0) =~= c);
            } else {
                assert(chain_of(s, root, cp[k - 1], sub) == cp.skip(k - 1));
                assert(reaches_root(s, root, cp[k - 1], (cp.len() - 1 - (k - 1)) as nat));
                lemma_reach_mono(
                    s,
                    root,
                    cp[k - 1],
                    (cp.len() - 1 - (k - 1)) as nat,
                    sub,
                );
                lemma_reach_mono(s, root, cp[k - 1], sub, fuel);
                lemma_chain_fuel(s, root, cp[k - 1], fuel, sub);
                assert(c.skip(k) =~= cp.skip(k - 1));
            }
        }

        // each chain entry's parent is the next entry
        assert forall|k: int| 0 <= k < c.len() - 1 implies tpl_node(
            s,
            #[trigger] c[k],
        ).spec_parent() == Some(c[k + 1]) by {
            if k == 0 {
                assert(cp[0] == p);
            } else {
                assert(tpl_node(s, cp[k - 1]).spec_parent() == Some(cp[k]));
            }
        }

        // the id itself is on none of its ancestors' chains
        if exists|j: int| 0 <= j < cp.len() && cp[j] == id {
            let j = choose|j: int| 0 <= j < cp.len() && cp[j] == id;
            assert(chain_of(s, root, cp[j], sub) == cp.skip(j));
            assert(reaches_root(s, root, cp[j], (cp.len() - 1 - j) as nat));
            lemma_reach_mono(s, root, cp[j], (cp.len() - 1 - j) as nat, sub);
            lemma_chain_fuel(s, root, id, fuel, sub);
            assert(c == cp.skip(j));
            assert(c.len() == cp.len() - j);
            assert(false);
        }
        assert(c.no_duplicates()) by {
            assert(forall|i: int, j: int|
                0 <= i < j < c.len() && i >= 1 ==> c[i] == cp[i - 1] && c[j] == cp[j - 1]);
        }
    }
}

/// A node whose chain reaches the root is not its own parent.
pub proof fn lemma_no_cycle1(s: Seq<(InternalId, StageItem)>, root: InternalId, a: InternalId)
    requires
        reaches(s, root, a),
        a != root,
        tpl_has(s, a),
    ensures
        tpl_node(s, a).spec_parent() != Some(a),
{
    if tpl_node(s, a).spec_parent() == Some(a) {
        let f = choose|f: nat| reaches_root(s, root, a, f);
        lemma_chain(s, root, a, f);
        let c = chain_of(s, root, a, f);
        assert(c[1] == a);
        assert(false);
    }
}

/// Two nodes whose chains reach the root are never each other's parents.
pub proof fn lemma_no_cycle2(
    s: Seq<(InternalId, StageItem)>,
    root: InternalId,
    a: InternalId,
    b: InternalId,
)
    requires
        reaches(s, root, a),
        a != root,
        b != root,
        tpl_has(s, a),
        tpl_has(s, b),
        tpl_node(s, a).spec_parent() == Some(b),
    ensures
        tpl_node(s, b).spec_parent() != Some(a),
{
    if tpl_node(s, b).spec_parent() == Some(a) {
        let f = choose|f: nat| reaches_root(s, root, a, f);
        lemma_chain(s, root, a, f);
        let c = chain_of(s, root, a, f);
        assert(c[1] == b);
        assert(c.last() == root && c[1] != root);
        assert(c.len() >= 3);
        assert(c[2] == a);
        assert(false);
    }
}

/// Three nodes whose chains reach the root never close a cycle of parent
/// links.
pub proof fn lemma_no_cycle3(
    s: Seq<(InternalId, StageItem)>,
    root: InternalId,
    a: InternalId,
    b: InternalId,
    x: InternalId,
)
    requires
        reaches(s, root, a),
        a != root,
        b != root,
        x != root,
        tpl_has(s, a),
        tpl_has(s, b),
        tpl_has(s, x),
        tpl_node(s, a).spec_parent() == Some(b),
        tpl_node(s, b).spec_parent() == Some(x),
    ensures
        tpl_node(s, x).spec_parent() != Some(a),
{
    if tpl_node(s, x).spec_parent() == Some(a) {
        let f = choose|f: nat| reaches_root(s, root, a, f);
        lemma_chain(s, root, a, f);
        let c = chain_of(s, root, a, f);
        assert(c[1] == b);
        assert(c.last() == root && c[1] != root);
        assert(c.len() >= 3);
        assert(c[2] == x);
        assert(c[2] != root);
        assert(c.len() >= 4);
        assert(c[3] == a);
        assert(false);
    }
}

/// Removing one non-root node and handing its children to the root keeps
/// every other node's chain to the root intact.
pub proof fn lemma_reach_remove(
    s1: Seq<(InternalId, StageItem)>,
    s2: Seq<(InternalId, StageItem)>,
    root: InternalId,
    victim: InternalId,
    id: InternalId,
    fuel: nat,
)
    requires
        reaches_root(s1, root, id, fuel),
        id != victim,
        root != victim,
        forall|x: InternalId|
            x != victim && #[trigger] tpl_has(s1, x) ==> tpl_has(s2, x) && tpl_node(
                s2,
                x,
            ).spec_parent() == (if tpl_node(s1, x).spec_parent() == Some(victim) {
                Some(root)
            } else {
                tpl_node(s1, x).spec_parent()
            }),
    ensures
        reaches_root(s2, root, id, fuel),
    decreases fuel,
{
    if id != root {
        let p = tpl_node(s1, id).spec_parent().unwrap();
        if p == victim {
            assert(tpl_node(s2, id).spec_parent() == Some(root));
            assert(reaches_root(s2, root, root, (fuel - 1) as nat));
        } else {
            lemma_reach_remove(s1, s2, root, victim, p, (fuel - 1) as nat);
        }
    }
}

/// A reaching chain never needs more fuel than the collection has entries:
/// its ids are distinct and all drawn from the collection.
pub proof fn lemma_reach_bound(
    s: Seq<(InternalId, StageItem)>,
    root: InternalId,
    id: InternalId,
    fuel: nat,
)
    requires
        reaches_root(s, root, id, fuel),
        tpl_has(s, root),
    ensures
        reaches_root(s, root, id, s.len() as nat),
{
    broadcast use vstd::seq_lib::seq_to_set_is_finite;

    lemma_chain(s, root, id, fuel);
    let c = chain_of(s, root, id, fuel);
    let keys = tpl_keys(s);
    assert(c.to_set().subset_of(keys.to_set())) by {
        assert forall|x: InternalId| c.to_set().contains(x) implies keys.to_set().contains(x) by {
            let k = choose|k: int| 0 <= k < c.len() && c[k] == x;
            assert(tpl_has(s, x));
            let i = choose|i: int| 0 <= i < s.len() && (#[trigger] s[i]).0 == x;
            assert(keys[i] == x);
            assert(keys.to_set().contains(keys[i]));
        }
    }
    c.unique_seq_to_set();
    keys.lemma_cardinality_of_set();
    vstd::set_lib::lemma_len_subset(c.to_set(), keys.to_set());
    assert(c.len() <= s.len());
    lemma_reach_mono(s, root, id, (c.len() - 1) as nat, s.len() as nat);
}

} // verus!
