use vstd::prelude::*;

use crate::ids::InternalId;
use crate::transform::RelativeTransform;
use crate::item::PropItemType;

verus! {

/// What every item on a stage carries: its place in the tree and its
/// transform relative to the parent. Children are ordered; the last child is
/// drawn topmost.
#[derive(Debug)]
pub struct StagingContext {
    pub parent: Option<InternalId>,
    pub children: Vec<InternalId>,
    pub transform: RelativeTransform,
}

impl StagingContext {
    /// A fresh context: no parent, no children, identity transform.
    pub fn new() -> (r: StagingContext)
        ensures
            r.parent is None,
            r.children@ =~= Seq::<InternalId>::empty(),
            r.transform == RelativeTransform::identity(),
    {
        StagingContext {
            parent: None,
            children: Vec::new(),
            transform: RelativeTransform::new_identity(),
        }
    }
}

/// A leaf item: a text or image payload inside a prop.
#[derive(Debug)]
pub struct PropItem {
    pub id: InternalId,
    pub name: String,
    pub item: PropItemType,
    pub staging: StagingContext,
}

/// A prop: a reusable sub-document of leaf items, which may itself stand as
/// a child inside a blueprint.
#[derive(Debug)]
pub struct Prop {
    pub id: InternalId,
    pub name: String,
    pub template: BaseTemplate,
    pub staging: StagingContext,
}

/// A blueprint: a document whose children are props.
#[derive(Debug)]
pub struct Blueprint {
    pub name: String,
    pub template: BaseTemplate,
}

/// Any node a template can hold.
#[derive(Debug)]
pub enum StageItem {
    PropItem(PropItem),
    Prop(Prop),
}

/// The sub-document shared by both container kinds: a keyed collection of
/// nodes, the root's id, and the stage size in pixels. Insertion order of
/// the collection is kept and keys are unique.
#[derive(Debug)]
pub struct BaseTemplate {
    pub items: Vec<(InternalId, StageItem)>,
    pub size: (u32, u32),
    pub root: InternalId,
}

impl StageItem {
    /// The id of the node.
    pub open spec fn spec_id(&self) -> InternalId {
        match self {
            StageItem::PropItem(item) => item.id,
            StageItem::Prop(prop) => prop.id,
        }
    }

    /// The name of the node.
    pub open spec fn spec_name(&self) -> Seq<char> {
        match self {
            StageItem::PropItem(item) => item.name@,
            StageItem::Prop(prop) => prop.name@,
        }
    }

    /// The parent link of the node.
    pub open spec fn spec_parent(&self) -> Option<InternalId> {
        match self {
            StageItem::PropItem(item) => item.staging.parent,
            StageItem::Prop(prop) => prop.staging.parent,
        }
    }

    /// The ordered child list of the node.
    pub open spec fn spec_children(&self) -> Seq<InternalId> {
        match self {
            StageItem::PropItem(item) => item.staging.children@,
            StageItem::Prop(prop) => prop.staging.children@,
        }
    }

    /// The transform of the node relative to its parent.
    pub open spec fn spec_transform(&self) -> RelativeTransform {
        match self {
            StageItem::PropItem(item) => item.staging.transform,
            StageItem::Prop(prop) => prop.staging.transform,
        }
    }

    /// The id of the node.
    pub fn get_id(&self) -> (r: InternalId)
        ensures
            r == self.spec_id(),
    {
        match self {
            StageItem::PropItem(item) => item.id,
            StageItem::Prop(prop) => prop.id,
        }
    }

    /// Overwrites the name of the node.
    pub fn rename(&mut self, name: String)
        ensures
            final(self).spec_name() == name@,
            final(self).spec_id() == old(self).spec_id(),
            final(self).spec_parent() == old(self).spec_parent(),
            final(self).spec_children() == old(self).spec_children(),
            final(self).spec_transform() == old(self).spec_transform(),
            final(self).payload_eq(*old(self)),
    {
        match self {
            StageItem::PropItem(item) => item.name = name,
            StageItem::Prop(prop) => prop.name = name,
        }
    }

    /// The parent link of the node.
    pub fn get_parent(&self) -> (r: Option<InternalId>)
        ensures
            r == self.spec_parent(),
    {
        match self {
            StageItem::PropItem(item) => item.staging.parent,
            StageItem::Prop(prop) => prop.staging.parent,
        }
    }

    /// Overwrites the parent link of the node.
    pub fn set_parent(&mut self, parent: Option<InternalId>)
        ensures
            final(self).spec_parent() == parent,
            final(self).spec_id() == old(self).spec_id(),
            final(self).spec_name() == old(self).spec_name(),
            final(self).spec_children() == old(self).spec_children(),
            final(self).spec_transform() == old(self).spec_transform(),
            final(self).payload_eq(*old(self)),
    {
        match self {
            StageItem::PropItem(item) => item.staging.parent = parent,
            StageItem::Prop(prop) => prop.staging.parent = parent,
        }
    }

    /// Overwrites the relative transform of the node.
    pub fn set_transform(&mut self, t: RelativeTransform)
        ensures
            final(self).spec_transform() == t,
            final(self).spec_id() == old(self).spec_id(),
            final(self).spec_name() == old(self).spec_name(),
            final(self).spec_parent() == old(self).spec_parent(),
            final(self).spec_children() == old(self).spec_children(),
            final(self).payload_eq(*old(self)),
    {
        match self {
            StageItem::PropItem(item) => item.staging.transform = t,
            StageItem::Prop(prop) => prop.staging.transform = t,
        }
    }

    /// Appends a child id at the end of the node's child list, making it the
    /// topmost child.
    pub fn push_child(&mut self, c: InternalId)
        ensures
            final(self).spec_children() == old(self).spec_children().push(c),
            final(self).spec_id() == old(self).spec_id(),
            final(self).spec_name() == old(self).spec_name(),
            final(self).spec_parent() == old(self).spec_parent(),
            final(self).spec_transform() == old(self).spec_transform(),
            final(self).payload_eq(*old(self)),
    {
        match self {
            StageItem::PropItem(item) => item.staging.children.push(c),
            StageItem::Prop(prop) => prop.staging.children.push(c),
        }
    }

    /// The ordered child list of the node.
    pub fn get_children(&self) -> (r: &Vec<InternalId>)
        ensures
            r@ == self.spec_children(),
    {
        match self {
            StageItem::PropItem(item) => &item.staging.children,
            StageItem::Prop(prop) => &prop.staging.children,
        }
    }

    /// Strikes the first occurrence of an id from the node's child list.
    pub fn remove_child(&mut self, c: InternalId)
        requires
            old(self).spec_children().contains(c),
        ensures
            final(self).spec_children() == old(self).spec_children().remove_value(c),
            final(self).spec_id() == old(self).spec_id(),
            final(self).spec_name() == old(self).spec_name(),
            final(self).spec_parent() == old(self).spec_parent(),
            final(self).spec_transform() == old(self).spec_transform(),
            final(self).payload_eq(*old(self)),
    {
        let v: &mut Vec<InternalId> = match self {
            StageItem::PropItem(item) => &mut item.staging.children,
            StageItem::Prop(prop) => &mut prop.staging.children,
        };
        let ghost v0 = v@;
        let mut j: usize = 0;
        while j < v.len() && v[j] != c
            invariant
                v@ == v0,
                j <= v0.len(),
                v0.contains(c),
                forall|k: int| 0 <= k < j ==> v0[k] != c,
            decreases v0.len() - j,
        {
            j = j + 1;
        }
        proof {
            if j == v0.len() {
                let w = choose|w: int| 0 <= w < v0.len() && v0[w] == c;
                assert(false);
            }
            v0.index_of_first_ensures(c);
            let fi = v0.index_of_first(c).unwrap();
            assert(fi == j);
        }
        v.remove(j);
    }

    /// Appends ids at the end of the node's child list, in the order given.
    pub fn append_children(&mut self, v: &Vec<InternalId>)
        ensures
            final(self).spec_children() == old(self).spec_children() + v@,
            final(self).spec_id() == old(self).spec_id(),
            final(self).spec_name() == old(self).spec_name(),
            final(self).spec_parent() == old(self).spec_parent(),
            final(self).spec_transform() == old(self).spec_transform(),
            final(self).payload_eq(*old(self)),
    {
        let target: &mut Vec<InternalId> = match self {
            StageItem::PropItem(item) => &mut item.staging.children,
            StageItem::Prop(prop) => &mut prop.staging.children,
        };
        let ghost t0 = target@;
        let mut j: usize = 0;
        while j < v.len()
            invariant
                j <= v.len(),
                target@ == t0 + v@.subrange(0, j as int),
            decreases v.len() - j,
        {
            target.push(v[j]);
            proof {
                assert(target@ =~= t0 + v@.subrange(0, j as int + 1));
            }
            j = j + 1;
        }
        proof {
            assert(t0 + v@.subrange(0, v@.len() as int) =~= t0 + v@);
        }
    }

    /// The relative transform of the node.
    pub fn get_relative_transform(&self) -> (r: RelativeTransform)
        ensures
            r == self.spec_transform(),
    {
        match self {
            StageItem::PropItem(item) => item.staging.transform,
            StageItem::Prop(prop) => prop.staging.transform,
        }
    }

    /// Whether two nodes agree on everything but their staging context and
    /// name: same kind, same id, same payload.
    pub open spec fn payload_eq(&self, other: StageItem) -> bool {
        match (self, other) {
            (StageItem::PropItem(a), StageItem::PropItem(b)) => a.item == b.item,
            (StageItem::Prop(a), StageItem::Prop(b)) => a.template == b.template,
            _ => false,
        }
    }

    /// The axis-aligned local bounds of the node, before any transform.
    /// A text leaf reports empty bounds; an image leaf its viewport; a prop
    /// the size of its own template.
    pub open spec fn spec_local_bounds(&self) -> (int, int, int, int) {
        match self {
            StageItem::PropItem(item) => item.item.spec_local_bounds(),
            StageItem::Prop(prop) => (0, 0, prop.template.size.0 as int, prop.template.size.1 as int),
        }
    }

    /// The axis-aligned local bounds of the node as pixel coordinates
    /// (left, top, right, bottom).
    pub fn get_local_bounds(&self) -> (r: (i64, i64, i64, i64))
        ensures
            (r.0 as int, r.1 as int, r.2 as int, r.3 as int) == self.spec_local_bounds(),
            r.0 == 0 && r.1 == 0,
            0 <= r.2 <= u32::MAX,
            0 <= r.3 <= u32::MAX,
    {
        match self {
            StageItem::PropItem(item) => item.item.get_local_bounds(),
            StageItem::Prop(prop) => (0, 0, prop.template.size.0 as i64, prop.template.size.1 as i64),
        }
    }
}

/// Whether some pair of the collection carries the id.
pub open spec fn tpl_has(s: Seq<(InternalId, StageItem)>, id: InternalId) -> bool {
    exists|i: int| 0 <= i < s.len() && (#[trigger] s[i]).0 == id
}

/// The node stored under the id.
pub open spec fn tpl_node(s: Seq<(InternalId, StageItem)>, id: InternalId) -> StageItem {
    s[choose|i: int| 0 <= i < s.len() && (#[trigger] s[i]).0 == id].1
}

/// The ids of the collection, in insertion order.
pub open spec fn tpl_keys(s: Seq<(InternalId, StageItem)>) -> Seq<InternalId> {
    s.map_values(|p: (InternalId, StageItem)| p.0)
}

/// Whether no id repeats in the collection.
pub open spec fn unique_keys(s: Seq<(InternalId, StageItem)>) -> bool {
    forall|i: int, j: int| 0 <= i < j < s.len() ==> (#[trigger] s[i]).0 != (#[trigger] s[j]).0
}

/// Under unique keys, the stored node of the id found at an index is the
/// node at that index.
pub proof fn lemma_node_at(s: Seq<(InternalId, StageItem)>, i: int)
    requires
        unique_keys(s),
        0 <= i < s.len(),
    ensures
        tpl_has(s, s[i].0),
        tpl_node(s, s[i].0) == s[i].1,
{
    let id = s[i].0;
    assert(tpl_has(s, id));
    let j = choose|j: int| 0 <= j < s.len() && (#[trigger] s[j]).0 == id;
    if i != j {
        assert(false);
    }
}

/// Whether the parent chain of the id reaches the root within the fuel.
pub open spec fn reaches_root(
    s: Seq<(InternalId, StageItem)>,
    root: InternalId,
    id: InternalId,
    fuel: nat,
) -> bool
    decreases fuel,
{
    if id == root {
        true
    } else if fuel == 0 {
        false
    } else {
        tpl_has(s, id) && match tpl_node(s, id).spec_parent() {
            Some(p) => reaches_root(s, root, p, (fuel - 1) as nat),
            None => false,
        }
    }
}

/// Whether the parent chain of the id reaches the root at all.
pub open spec fn reaches(s: Seq<(InternalId, StageItem)>, root: InternalId, id: InternalId) -> bool {
    exists|fuel: nat| reaches_root(s, root, id, fuel)
}

impl BaseTemplate {
    /// The pairs of the template, in insertion order.
    pub open spec fn s(&self) -> Seq<(InternalId, StageItem)> {
        self.items@
    }

    /// Whether the template holds a node under the id.
    pub open spec fn has(&self, id: InternalId) -> bool {
        tpl_has(self.s(), id)
    }

    /// The node the template holds under the id.
    pub open spec fn node(&self, id: InternalId) -> StageItem {
        tpl_node(self.s(), id)
    }

    /// Structural well-formedness of the scene graph: unique keys matching
    /// the nodes' own ids; a root without parent and with identity
    /// transform; every other node with a parent; parent and child lists
    /// that agree both ways; duplicate-free child lists; every node's
    /// parent chain reaching the root; and a positive stage size.
    pub open spec fn wf_core(&self) -> bool {
        let s = self.s();
        &&& unique_keys(s)
        &&& forall|i: int| 0 <= i < s.len() ==> (#[trigger] s[i]).1.spec_id() == s[i].0
        &&& self.has(self.root)
        &&& self.node(self.root).spec_parent() is None
        &&& self.node(self.root).spec_transform() == RelativeTransform::identity()
        &&& forall|i: int|
            0 <= i < s.len() && (#[trigger] s[i]).0 != self.root ==> s[i].1.spec_parent() is Some
        &&& forall|i: int, j: int|
            0 <= i < s.len() && 0 <= j < (#[trigger] s[i]).1.spec_children().len() ==> {
                let c = #[trigger] s[i].1.spec_children()[j];
                &&& tpl_has(s, c)
                &&& tpl_node(s, c).spec_parent() == Some(s[i].0)
            }
        &&& forall|i: int|
            0 <= i < s.len() && (#[trigger] s[i]).0 != self.root ==> {
                let p = s[i].1.spec_parent().unwrap();
                &&& tpl_has(s, p)
                &&& tpl_node(s, p).spec_children().contains(s[i].0)
            }
        &&& forall|i: int| 0 <= i < s.len() ==> (#[trigger] s[i]).1.spec_children().no_duplicates()
        &&& forall|i: int| 0 <= i < s.len() ==> reaches(s, self.root, (#[trigger] s[i]).0)
        &&& self.size.0 > 0
        &&& self.size.1 > 0
    }

    /// Whether every node is a leaf item with a valid payload: the shape of
    /// a prop's template.
    pub open spec fn prop_discipline(&self) -> bool {
        let s = self.s();
        forall|i: int|
            0 <= i < s.len() ==> ((#[trigger] s[i]).1 matches StageItem::PropItem(item)
                && item.item.valid())
    }

    /// Whether every node is a prop whose own template is a well-formed
    /// prop template: the shape of a blueprint's template.
    pub open spec fn blueprint_discipline(&self) -> bool {
        let s = self.s();
        forall|i: int|
            0 <= i < s.len() ==> ((#[trigger] s[i]).1 matches StageItem::Prop(p)
                && p.template.wf())
    }

    /// A well-formed prop template: structure and leaf discipline.
    pub open spec fn wf(&self) -> bool {
        self.wf_core() && self.prop_discipline()
    }

    /// A well-formed blueprint template: structure and prop discipline.
    pub open spec fn wf_blueprint(&self) -> bool {
        self.wf_core() && self.blueprint_discipline()
    }

    /// Looks a node up by id.
    pub fn get(&self, id: InternalId) -> (r: Option<&StageItem>)
        requires
            unique_keys(self.s()),
        ensures
            match r {
                Some(n) => self.has(id) && *n == self.node(id),
                None => !self.has(id),
            },
    {
        let n = self.items.len();
        let mut j: usize = 0;
        while j < n
            invariant
                n == self.s().len(),
                j <= n,
                unique_keys(self.s()),
                forall|k: int| 0 <= k < j ==> (#[trigger] self.s()[k]).0 != id,
            decreases n - j,
        {
            if self.items[j].0 == id {
                proof {
                    lemma_node_at(self.s(), j as int);
                }
                return Some(&self.items[j].1);
            }
            j = j + 1;
        }
        None
    }

    /// The index at which the id is stored, if any.
    pub fn index_of(&self, id: InternalId) -> (r: Option<usize>)
        requires
            unique_keys(self.s()),
        ensures
            match r {
                Some(i) => i < self.s().len() && self.s()[i as int].0 == id && self.has(id)
                    && self.node(id) == self.s()[i as int].1,
                None => !self.has(id),
            },
    {
        let n = self.items.len();
        let mut j: usize = 0;
        while j < n
            invariant
                n == self.s().len(),
                j <= n,
                unique_keys(self.s()),
                forall|k: int| 0 <= k < j ==> (#[trigger] self.s()[k]).0 != id,
            decreases n - j,
        {
            if self.items[j].0 == id {
                proof {
                    lemma_node_at(self.s(), j as int);
                }
                return Some(j);
            }
            j = j + 1;
        }
        None
    }
}

} // verus!
