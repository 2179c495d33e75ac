use vstd::prelude::*;

use crate::base::Base;
use crate::geom::{affine_hit, compose_affine, product_affine, spec_affine};
use crate::ids::InternalId;
use crate::input::MouseState;
use crate::ops::copy_ids;
use crate::reach::{chain_of, lemma_chain, lemma_chain_fuel, lemma_reach_bound, lemma_reach_mono};
use crate::scene::{BaseTemplate, StageItem, lemma_node_at, reaches, reaches_root, tpl_has, tpl_keys, tpl_node};
use crate::transform::RelativeTransform;

verus! {

/// The live editing state: the document, the ordered selection, and the
/// pointer state.
#[derive(Debug)]
pub struct Stage {
    pub base: Base,
    pub selection: Vec<InternalId>,
    pub mouse_state: MouseState,
}

/// The ids of a list that the template holds, in order, the others dropped.
pub open spec fn filter_existing(t: BaseTemplate, ids: Seq<InternalId>) -> Seq<InternalId>
    decreases ids.len(),
{
    if ids.len() == 0 {
        Seq::empty()
    } else {
        (if t.has(ids[0]) {
            seq![ids[0]]
        } else {
            Seq::empty()
        }) + filter_existing(t, ids.skip(1))
    }
}

/// Every id that the filter keeps is held by the template.
pub proof fn lemma_filter_existing(t: BaseTemplate, ids: Seq<InternalId>)
    ensures
        forall|k: int|
            0 <= k < filter_existing(t, ids).len() ==> t.has(#[trigger] filter_existing(t, ids)[k]),
    decreases ids.len(),
{
    if ids.len() > 0 {
        lemma_filter_existing(t, ids.skip(1));
        let rest = filter_existing(t, ids.skip(1));
        let whole = filter_existing(t, ids);
        assert forall|k: int| 0 <= k < whole.len() implies t.has(#[trigger] whole[k]) by {
            if t.has(ids[0]) {
                if k > 0 {
                    assert(whole[k] == rest[k - 1]);
                }
            } else {
                assert(whole =~= rest);
            }
        }
    }
}

/// Filtering by the same template twice keeps nothing more to drop.
pub proof fn lemma_filter_existing_idempotent(t: BaseTemplate, ids: Seq<InternalId>)
    ensures
        filter_existing(t, filter_existing(t, ids)) == filter_existing(t, ids),
    decreases ids.len(),
{
    if ids.len() == 0 {
        assert(filter_existing(t, ids) == Seq::<InternalId>::empty());
    } else {
        lemma_filter_existing_idempotent(t, ids.skip(1));
        let rest = filter_existing(t, ids.skip(1));
        if t.has(ids[0]) {
            let whole = seq![ids[0]] + rest;
            assert(whole[0] == ids[0]);
            assert(whole.skip(1) =~= rest);
            assert(filter_existing(t, whole) == seq![ids[0]] + filter_existing(t, rest));
        } else {
            assert(Seq::<InternalId>::empty() + rest =~= rest);
        }
    }
}

/// The render order below a node: the node first, then each child's subtree
/// in child order, so that later siblings are drawn on top.
pub open spec fn render_order_node(t: BaseTemplate, id: InternalId, fuel: nat) -> Seq<InternalId>
    decreases fuel, 0int,
{
    if fuel == 0 || !t.has(id) {
        seq![id]
    } else {
        seq![id] + render_order_list(t, t.node(id).spec_children(), (fuel - 1) as nat)
    }
}

/// The concatenation of the render orders below the listed nodes.
pub open spec fn render_order_list(t: BaseTemplate, cs: Seq<InternalId>, fuel: nat) -> Seq<
    InternalId,
>
    decreases fuel, 1int, cs.len(),
{
    if cs.len() == 0 {
        Seq::empty()
    } else {
        render_order_node(t, cs[0], fuel) + render_order_list(t, cs.skip(1), fuel)
    }
}

/// The render order of a whole template: depth-first from the root.
pub open spec fn spec_render_order(t: BaseTemplate) -> Seq<InternalId> {
    render_order_node(t, t.root, t.s().len() as nat)
}

/// The ids on the path from the root down to a node, both included.
pub open spec fn spec_path(t: BaseTemplate, id: InternalId) -> Seq<InternalId> {
    chain_of(t.s(), t.root, id, t.s().len() as nat).reverse()
}

/// The relative transforms along the path from the root down to a node.
pub open spec fn spec_path_transforms(t: BaseTemplate, id: InternalId) -> Seq<RelativeTransform> {
    spec_path(t, id).map_values(|x: InternalId| tpl_node(t.s(), x).spec_transform())
}

/// The screen-space affine map of a node: the parent-first product of the
/// relative transforms along its path from the root.
pub open spec fn spec_screen_transform(t: BaseTemplate, id: InternalId) -> glam::DAffine2 {
    product_affine(spec_path_transforms(t, id))
}

/// Whether the screen point lands in a node's local bounds once pulled back
/// through the node's screen transform.
pub open spec fn spec_hits(t: BaseTemplate, id: InternalId, x: int, y: int) -> bool {
    let b = tpl_node(t.s(), id).spec_local_bounds();
    affine_hit(spec_screen_transform(t, id), x, y, b.0, b.1, b.2, b.3)
}

impl Stage {
    /// Whether the stage is well-formed: the document is, and every selected
    /// id names an item of it.
    pub open spec fn wf(&self) -> bool {
        &&& self.base.wf()
        &&& forall|k: int|
            0 <= k < self.selection@.len() ==> self.base.tpl().has(#[trigger] self.selection@[k])
    }

    /// Wraps a document in a fresh stage: nothing selected, pointer idle.
    pub fn new(base: Base) -> (r: Stage)
        ensures
            r.base == base,
            r.selection@ =~= Seq::<InternalId>::empty(),
            r.mouse_state == MouseState::Idle,
    {
        Stage { base, selection: Vec::new(), mouse_state: MouseState::Idle }
    }

    /// Replaces the selection with the given list, keeping order and
    /// duplicates but dropping ids the document does not hold.
    pub fn set_selection(&mut self, selection: Vec<InternalId>)
        requires
            old(self).base.wf(),
        ensures
            final(self).base == old(self).base,
            final(self).mouse_state == old(self).mouse_state,
            final(self).selection@ == filter_existing(old(self).base.tpl(), selection@),
            final(self).wf(),
    {
        let ghost t = self.base.tpl();
        let ghost ids = selection@;
        let mut kept: Vec<InternalId> = Vec::new();
        let mut j: usize = 0;
        proof {
            assert(ids.skip(0) =~= ids);
            assert(Seq::<InternalId>::empty() + filter_existing(t, ids) =~= filter_existing(
                t,
                ids,
            ));
        }
        while j < selection.len()
            invariant
                j <= ids.len(),
                selection@ == ids,
                self == old(self),
                old(self).base.wf(),
                t == self.base.tpl(),
                kept@ + filter_existing(t, ids.skip(j as int)) == filter_existing(t, ids),
                forall|k: int| 0 <= k < kept@.len() ==> t.has(#[trigger] kept@[k]),
            decreases ids.len() - j,
        {
            let id = selection[j];
            proof {
                assert(ids.skip(j as int)[0] == id);
                assert(ids.skip(j as int).skip(1) =~= ids.skip(j as int + 1));
            }
            if self.base.get_item(id).is_some() {
                kept.push(id);
                proof {
                    assert(kept@ + filter_existing(t, ids.skip(j as int + 1)) =~= filter_existing(
                        t,
                        ids,
                    ));
                }
            }
            j = j + 1;
        }
        proof {
            assert(ids.skip(ids.len() as int) =~= Seq::<InternalId>::empty());
            assert(kept@ + Seq::<InternalId>::empty() =~= kept@);
        }
        self.selection = kept;
    }

    /// The selected ids, in selection order. Under well-formedness every one
    /// of them names an item.
    pub fn get_selections(&self) -> (r: Vec<InternalId>)
        ensures
            r@ == self.selection@,
    {
        copy_ids(&self.selection)
    }

    /// The render order of the whole stage: depth-first from the root, each
    /// node before its children, later siblings later.
    pub fn get_render_order(&self) -> (r: Vec<InternalId>)
        requires
            self.wf(),
        ensures
            r@ == spec_render_order(self.base.tpl()),
            forall|k: int|
                0 <= k < r@.len() ==> self.base.tpl().has(#[trigger] r@[k]),
    {
        let t = self.base.get_template();
        let ghost tg = self.base.tpl();
        proof {
            tg.lemma_wf_facts();
        }
        let r = Self::render_order_rec(t, t.root, Ghost(Seq::empty()));
        r
    }

    /// Collects the render order below one node, given the ghost path of its
    /// strict ancestors.
    fn render_order_rec(t: &BaseTemplate, id: InternalId, anc: Ghost<Seq<InternalId>>) -> (r: Vec<
        InternalId,
    >)
        requires
            t.wf_core(),
            t.has(id),
            anc@.no_duplicates(),
            !anc@.contains(id),
            forall|k: int| 0 <= k < anc@.len() ==> t.has(#[trigger] anc@[k]),
            anc@.len() == 0 ==> id == t.root,
            anc@.len() > 0 ==> anc@[0] == t.root && t.node(id).spec_parent() == Some(anc@.last()),
            forall|k: int|
                0 < k < anc@.len() ==> t.node(#[trigger] anc@[k]).spec_parent() == Some(anc@[k - 1]),
        ensures
            r@ == render_order_node(*t, id, (t.s().len() - anc@.len()) as nat),
            forall|k: int| 0 <= k < r@.len() ==> t.has(#[trigger] r@[k]),
        decreases t.s().len() - anc@.len(),
    {
        proof {
            t.lemma_wf_facts();
            // the ancestors plus this node are distinct ids of the template,
            // so the path is shorter than the item count
            let all = anc@.push(id);
            assert(all.no_duplicates());
            assert forall|x: InternalId| all.to_set().contains(x) implies tpl_keys(
                t.s(),
            ).to_set().contains(x) by {
                let k = choose|k: int| 0 <= k < all.len() && all[k] == x;
                assert(t.has(x));
                let i = choose|i: int| 0 <= i < t.s().len() && (#[trigger] t.s()[i]).0 == x;
                assert(tpl_keys(t.s())[i] == x);
            }
            all.unique_seq_to_set();
            tpl_keys(t.s()).lemma_cardinality_of_set();
            vstd::set_lib::lemma_len_subset(all.to_set(), tpl_keys(t.s()).to_set());
            assert(anc@.len() + 1 <= t.s().len());
        }
        let ghost fuel = (t.s().len() - anc@.len()) as nat;
        let mut r: Vec<InternalId> = Vec::new();
        r.push(id);
        let node = t.get(id).unwrap();
        let children = node.get_children();
        let ghost cs = t.node(id).spec_children();
        let mut j: usize = 0;
        while j < children.len()
            invariant
                t.wf_core(),
                t.has(id),
                children@ == cs,
                cs == t.node(id).spec_children(),
                j <= cs.len(),
                anc@.no_duplicates(),
                !anc@.contains(id),
                forall|k: int| 0 <= k < anc@.len() ==> t.has(#[trigger] anc@[k]),
                anc@.len() == 0 ==> id == t.root,
                anc@.len() > 0 ==> anc@[0] == t.root && t.node(id).spec_parent() == Some(
                    anc@.last(),
                ),
                forall|k: int|
                    0 < k < anc@.len() ==> t.node(#[trigger] anc@[k]).spec_parent() == Some(
                        anc@[k - 1],
                    ),
                anc@.len() + 1 <= t.s().len(),
                fuel == (t.s().len() - anc@.len()) as nat,
                fuel >= 1,
                r@ == seq![id] + render_order_list(*t, cs.subrange(0, j as int), (fuel - 1) as nat),
                forall|k: int| 0 <= k < r@.len() ==> t.has(#[trigger] r@[k]),
            decreases cs.len() - j,
        {
            let c = children[j];
            proof {
                t.lemma_wf_facts();
                assert(cs.contains(c)) by {
                    assert(cs[j as int] == c);
                }
                assert(t.has(c) && t.node(c).spec_parent() == Some(id));
                // the child is none of its own ancestors
                let anc2 = anc@.push(id);
                assert(anc2[anc@.len() as int] == id);
                assert(!anc2.contains(c)) by {
                    if anc2.contains(c) {
                        let k = choose|k: int| 0 <= k < anc2.len() && anc2[k] == c;
                        if k == anc@.len() as int {
                            crate::reach::lemma_no_cycle1(t.s(), t.root, id);
                        } else if k == 0 {
                            assert(c == t.root);
                            assert(t.node(t.root).spec_parent() is None);
                        } else {
                            assert(anc@[k] == c);
                            assert(t.node(c).spec_parent() == Some(anc@[k - 1]));
                            assert(anc@[k - 1] == id);
                            assert(anc@.contains(id));
                        }
                    }
                }
                assert(anc2.no_duplicates());
                assert(anc2[0] == (if anc@.len() == 0 { id } else { anc@[0] }));
                assert(anc2.last() == id);
                assert forall|k: int|
                    0 < k < anc2.len() implies t.node(#[trigger] anc2[k]).spec_parent() == Some(
                    anc2[k - 1],
                ) by {
                    if k < anc@.len() {
                        assert(anc2[k] == anc@[k] && anc2[k - 1] == anc@[k - 1]);
                    } else {
                        assert(anc2[k] == id);
                        if anc@.len() > 0 {
                            assert(anc2[k - 1] == anc@.last());
                        }
                    }
                }
            }
            let sub = Self::render_order_rec(t, c, Ghost(anc@.push(id)));
            let ghost rprev = r@;
            let mut sub = sub;
            r.append(&mut sub);
            proof {
                assert(r@ == rprev + render_order_node(*t, c, (fuel - 1) as nat));
                assert(cs.subrange(0, j as int + 1).skip(1) =~= cs.subrange(1, j as int + 1));
                lemma_render_order_list_snoc(*t, cs, j as int, (fuel - 1) as nat);
                assert(r@ =~= seq![id] + render_order_list(
                    *t,
                    cs.subrange(0, j as int + 1),
                    (fuel - 1) as nat,
                ));
            }
            j = j + 1;
        }
        proof {
            assert(cs.subrange(0, cs.len() as int) =~= cs);
            assert(r@ == render_order_node(*t, id, fuel));
        }
        r
    }
}

/// Extending the listed nodes by one extends their concatenated render
/// order at the end.
pub proof fn lemma_render_order_list_snoc(t: BaseTemplate, cs: Seq<InternalId>, j: int, fuel: nat)
    requires
        0 <= j < cs.len(),
    ensures
        render_order_list(t, cs.subrange(0, j + 1), fuel) == render_order_list(
            t,
            cs.subrange(0, j),
            fuel,
        ) + render_order_node(t, cs[j], fuel),
    decreases j,
{
    let pre = cs.subrange(0, j + 1);
    if j == 0 {
        assert(pre[0] == cs[0]);
        assert(pre.skip(1) =~= Seq::<InternalId>::empty());
        assert(cs.subrange(0, 0) =~= Seq::<InternalId>::empty());
        assert(render_order_list(t, Seq::empty(), fuel) == Seq::<InternalId>::empty());
        assert(render_order_node(t, cs[0], fuel) + Seq::<InternalId>::empty() =~= render_order_node(
            t,
            cs[0],
            fuel,
        ));
    } else {
        let tail = cs.skip(1);
        assert(pre[0] == cs[0]);
        assert(pre.skip(1) =~= tail.subrange(0, j));
        assert(cs.subrange(0, j).skip(1) =~= tail.subrange(0, j - 1));
        assert(cs.subrange(0, j)[0] == cs[0]);
        lemma_render_order_list_snoc(t, tail, j - 1, fuel);
        assert(tail[j - 1] == cs[j]);
        assert(render_order_list(t, pre, fuel) == render_order_node(t, cs[0], fuel)
            + render_order_list(t, tail.subrange(0, j), fuel));
        assert(render_order_list(t, cs.subrange(0, j), fuel) == render_order_node(t, cs[0], fuel)
            + render_order_list(t, tail.subrange(0, j - 1), fuel));
        assert((render_order_node(t, cs[0], fuel) + render_order_list(t, tail.subrange(0, j - 1), fuel))
            + render_order_node(t, cs[j], fuel) =~= render_order_node(t, cs[0], fuel)
            + (render_order_list(t, tail.subrange(0, j - 1), fuel) + render_order_node(
            t,
            cs[j],
            fuel,
        )));
    }
}

} // verus!

verus! {

/// The topmost id in the listed order whose bounds contain the point,
/// scanning from the end; the root counts only when asked for.
pub open spec fn last_hit(
    t: BaseTemplate,
    ord: Seq<InternalId>,
    x: int,
    y: int,
    include_root: bool,
) -> Option<InternalId>
    decreases ord.len(),
{
    if ord.len() == 0 {
        None
    } else if (include_root || ord.last() != t.root) && spec_hits(t, ord.last(), x, y) {
        Some(ord.last())
    } else {
        last_hit(t, ord.drop_last(), x, y, include_root)
    }
}

/// The front-most item under a screen point: the topmost hit in render
/// order.
pub open spec fn spec_front_item(t: BaseTemplate, x: int, y: int, include_root: bool) -> Option<
    InternalId,
> {
    last_hit(t, spec_render_order(t), x, y, include_root)
}

impl BaseTemplate {
    /// The screen-space affine map of an item: the parent-first product of
    /// the relative transforms along the path from the root down to it.
    pub fn screen_transform(&self, id: InternalId) -> (r: glam::DAffine2)
        requires
            self.wf_core(),
            self.has(id),
        ensures
            r == spec_screen_transform(*self, id),
    {
        let ghost s = self.s();
        let ghost root_g = self.root;
        let ghost n = self.s().len() as nat;
        proof {
            self.lemma_wf_facts();
            let f = choose|f: nat| reaches_root(s, root_g, id, f);
            lemma_reach_bound(s, root_g, id, f);
            lemma_chain(s, root_g, id, n);
        }
        let ghost ch = chain_of(s, root_g, id, n);

        // walk the parent links upward, collecting the chain
        let mut up: Vec<InternalId> = Vec::new();
        let mut cur = id;
        up.push(cur);
        while cur != self.root
            invariant
                self.wf_core(),
                s == self.s(),
                root_g == self.root,
                n == s.len() as nat,
                reaches_root(s, root_g, id, n),
                ch == chain_of(s, root_g, id, n),
                1 <= up@.len() <= ch.len(),
                up@ =~= ch.subrange(0, up@.len() as int),
                cur == ch[up@.len() - 1],
                cur != root_g ==> up@.len() < ch.len(),
            decreases ch.len() - up@.len(),
        {
            proof {
                lemma_chain(s, root_g, id, n);
                let k = up@.len() - 1;
                assert(ch[k] != root_g);
                assert(k != ch.len() - 1);
                assert(tpl_node(s, ch[k]).spec_parent() == Some(ch[k + 1]));
                assert(tpl_has(s, ch[k]));
            }
            let node = self.get(cur).unwrap();
            let p = node.get_parent().unwrap();
            up.push(p);
            cur = p;
            proof {
                assert(up@ =~= ch.subrange(0, up@.len() as int));
                if cur != root_g {
                    assert(ch[up@.len() - 1] != root_g);
                    assert(up@.len() - 1 != ch.len() - 1);
                }
            }
        }
        proof {
            assert(up@.len() == ch.len()) by {
                if up@.len() < ch.len() {
                    let k = up@.len() - 1;
                    assert(ch[k] == root_g && ch[ch.len() - 1] == root_g);
                    assert(ch.no_duplicates());
                }
            }
            assert(up@ =~= ch);
        }

        // fold the transforms from the root downward, parent first
        let ghost path = spec_path(*self, id);
        let ghost pts = spec_path_transforms(*self, id);
        proof {
            assert(path.len() == ch.len());
            assert(forall|k: int| 0 <= k < path.len() ==> #[trigger] path[k] == ch[path.len() - 1 - k]);
            assert(pts.len() == path.len());
        }
        let len = up.len();
        let first = self.get(up[len - 1]).unwrap();
        let mut acc = first.get_relative_transform().to_glam_affine();
        proof {
            assert(path[0] == ch[ch.len() - 1]);
            assert(tpl_has(s, path[0]));
            assert(pts.subrange(0, 1) =~= seq![pts[0]]);
            assert(pts[0] == tpl_node(s, path[0]).spec_transform());
            assert(acc == product_affine(pts.subrange(0, 1)));
        }
        let mut j: usize = 1;
        while j < len
            invariant
                self.wf_core(),
                s == self.s(),
                len == up@.len() == ch.len(),
                up@ =~= ch,
                path == spec_path(*self, id),
                pts == spec_path_transforms(*self, id),
                path.len() == len,
                pts.len() == len,
                forall|k: int| 0 <= k < len ==> #[trigger] path[k] == ch[len - 1 - k],
                forall|k: int| 0 <= k < len ==> tpl_has(s, #[trigger] path[k]),
                forall|k: int|
                    0 <= k < len ==> #[trigger] pts[k] == tpl_node(s, path[k]).spec_transform(),
                1 <= j <= len,
                acc == product_affine(pts.subrange(0, j as int)),
            decreases len - j,
        {
            let nid = up[len - 1 - j];
            proof {
                assert(path[j as int] == ch[len - 1 - j]);
                assert(tpl_has(s, path[j as int]));
            }
            let node = self.get(nid).unwrap();
            let a = node.get_relative_transform().to_glam_affine();
            acc = compose_affine(acc, a);
            proof {
                assert(pts.subrange(0, j as int + 1).drop_last() =~= pts.subrange(0, j as int));
                assert(pts.subrange(0, j as int + 1).last() == pts[j as int]);
                assert(acc == product_affine(pts.subrange(0, j as int + 1)));
            }
            j = j + 1;
        }
        proof {
            assert(pts.subrange(0, len as int) =~= pts);
        }
        acc
    }

    /// Whether a screen point lands inside an item's local bounds once
    /// pulled back through the item's screen transform.
    pub fn contains_point(&self, id: InternalId, x: i64, y: i64) -> (r: bool)
        requires
            self.wf_core(),
            self.has(id),
        ensures
            r == spec_hits(*self, id, x as int, y as int),
    {
        let st = self.screen_transform(id);
        let node = self.get(id).unwrap();
        let (x0, y0, x1, y1) = node.get_local_bounds();
        crate::geom::affine_contains(&st, x, y, x0, y0, x1, y1)
    }
}

impl Stage {
    /// The front-most item under a screen point, or nothing: items are
    /// tried from the top of the render order down; the root counts only
    /// when asked for.
    pub fn get_front_item_at(&self, x: i64, y: i64, include_root: bool) -> (r: Option<InternalId>)
        requires
            self.wf(),
        ensures
            r == spec_front_item(self.base.tpl(), x as int, y as int, include_root),
    {
        let t = self.base.get_template();
        let ghost tg = self.base.tpl();
        let ord = self.get_render_order();
        let ghost os = ord@;
        let mut i = ord.len();
        proof {
            assert(os.subrange(0, os.len() as int) =~= os);
        }
        while i > 0
            invariant
                self.wf(),
                tg == self.base.tpl(),
                os == ord@,
                os == spec_render_order(tg),
                forall|k: int| 0 <= k < os.len() ==> tg.has(#[trigger] os[k]),
                i <= os.len(),
                last_hit(tg, os, x as int, y as int, include_root) == last_hit(
                    tg,
                    os.subrange(0, i as int),
                    x as int,
                    y as int,
                    include_root,
                ),
            decreases i,
        {
            let cand = ord[i - 1];
            proof {
                assert(os.subrange(0, i as int).last() == os[i - 1]);
                assert(os.subrange(0, i as int).drop_last() =~= os.subrange(0, i as int - 1));
            }
            if include_root || cand != self.base.get_template().root {
                if self.base.get_template().contains_point(cand, x, y) {
                    return Some(cand);
                }
            }
            i = i - 1;
        }
        proof {
            assert(os.subrange(0, 0) =~= Seq::<InternalId>::empty());
        }
        None
    }
}

} // verus!
