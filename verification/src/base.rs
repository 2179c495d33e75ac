use vstd::prelude::*;
use vstd::string::*;

use crate::PyramusError;
use crate::ids::InternalId;
use crate::item::{PropItemImage, PropItemType};
use crate::scene::{BaseTemplate, Blueprint, Prop, StageItem, StagingContext};
use crate::builder::{BuilderType, ItemBuilder};
use crate::transform::RelativeTransform;

verus! {

/// A top-level document being edited: a prop or a blueprint, with metadata.
#[derive(Debug)]
pub struct Base {
    pub item: BaseItem,
    pub author: String,
    pub created_at: String,
    pub updated_at: String,
}

/// The two container kinds a base can hold.
#[derive(Debug)]
pub enum BaseItem {
    Prop(Prop),
    Blueprint(Blueprint),
}

impl Prop {
    /// The axis-aligned local bounds of the prop: its template's size.
    pub fn get_local_bounds(&self) -> (r: (i64, i64, i64, i64))
        ensures
            r == (0i64, 0i64, self.template.size.0 as i64, self.template.size.1 as i64),
    {
        (0, 0, self.template.size.0 as i64, self.template.size.1 as i64)
    }

    /// A new, empty prop: one root item holding a white, nearly transparent
    /// background rectangle of the prop's size. Zero sizes are rejected.
    pub fn new(name: String, width: u32, height: u32) -> (r: Result<Prop, PyramusError>)
        ensures
            match r {
                Ok(p) => {
                    &&& width > 0 && height > 0
                    &&& p.template.wf()
                    &&& p.template.size == (width, height)
                    &&& p.name@ == name@
                    &&& p.template.s().len() == 1
                    &&& p.staging.parent is None
                    &&& p.staging.children@ =~= Seq::<InternalId>::empty()
                    &&& p.staging.transform == RelativeTransform::identity()
                },
                Err(e) => e == PyramusError::InvalidSize && (width == 0 || height == 0),
            },
    {
        if width == 0 || height == 0 {
            return Err(PyramusError::InvalidSize);
        }
        let image = PropItemImage::from_rect(width, height, "white", None, 100);
        let root_id = InternalId(0);
        let root = StageItem::PropItem(
            crate::scene::PropItem {
                id: root_id,
                name: String::from_str("image"),
                item: PropItemType::Image(image),
                staging: StagingContext::new(),
            },
        );
        let mut items: Vec<(InternalId, StageItem)> = Vec::new();
        items.push((root_id, root));
        let template = BaseTemplate { items, size: (width, height), root: root_id };
        proof {
            let s = template.s();
            assert(s.len() == 1);
            crate::scene::lemma_node_at(s, 0);
            assert(template.has(root_id));
            assert forall|i: int| 0 <= i < s.len() implies crate::scene::reaches(
                s,
                root_id,
                (#[trigger] s[i]).0,
            ) by {
                assert(crate::scene::reaches_root(s, root_id, s[i].0, 0));
            }
            assert(template.wf());
        }
        Ok(
            Prop {
                id: InternalId(0),
                name,
                template,
                staging: StagingContext::new(),
            },
        )
    }
}

impl Blueprint {
    /// The axis-aligned local bounds of the blueprint: its template's size.
    pub fn get_local_bounds(&self) -> (r: (i64, i64, i64, i64))
        ensures
            r == (0i64, 0i64, self.template.size.0 as i64, self.template.size.1 as i64),
    {
        (0, 0, self.template.size.0 as i64, self.template.size.1 as i64)
    }

    /// A new blueprint holding one root prop of the same size. Zero sizes
    /// are rejected.
    pub fn new(name: String, width: u32, height: u32) -> (r: Result<Blueprint, PyramusError>)
        ensures
            match r {
                Ok(b) => {
                    &&& width > 0 && height > 0
                    &&& b.template.wf_blueprint()
                    &&& b.template.size == (width, height)
                    &&& b.name@ == name@
                },
                Err(e) => e == PyramusError::InvalidSize && (width == 0 || height == 0),
            },
    {
        let root_prop = match Prop::new(String::from_str("root"), width, height) {
            Ok(p) => p,
            Err(e) => {
                return Err(e);
            },
        };
        let root_id = root_prop.id;
        let root = StageItem::Prop(root_prop);
        let mut items: Vec<(InternalId, StageItem)> = Vec::new();
        items.push((root_id, root));
        let template = BaseTemplate { items, size: (width, height), root: root_id };
        proof {
            let s = template.s();
            assert(s.len() == 1);
            crate::scene::lemma_node_at(s, 0);
            assert(template.has(root_id));
            assert forall|i: int| 0 <= i < s.len() implies crate::scene::reaches(
                s,
                root_id,
                (#[trigger] s[i]).0,
            ) by {
                assert(crate::scene::reaches_root(s, root_id, s[i].0, 0));
            }
            assert(template.wf_blueprint());
        }
        Ok(Blueprint { name, template })
    }
}

impl BaseItem {
    /// Whether the held container's scene graph is well-formed, with the
    /// node kind matching the container kind.
    pub open spec fn wf(&self) -> bool {
        match self {
            BaseItem::Prop(p) => p.template.wf(),
            BaseItem::Blueprint(b) => b.template.wf_blueprint(),
        }
    }

    /// The template of the held container.
    pub open spec fn tpl(&self) -> BaseTemplate {
        match self {
            BaseItem::Prop(p) => p.template,
            BaseItem::Blueprint(b) => b.template,
        }
    }

    /// The template of the held container.
    pub fn get_template(&self) -> (r: &BaseTemplate)
        ensures
            *r == self.tpl(),
    {
        match self {
            BaseItem::Prop(p) => &p.template,
            BaseItem::Blueprint(b) => &b.template,
        }
    }
}

impl Base {
    /// Whether the document's scene graph is well-formed.
    pub open spec fn wf(&self) -> bool {
        self.item.wf()
    }

    /// The template of the document.
    pub open spec fn tpl(&self) -> BaseTemplate {
        self.item.tpl()
    }

    /// Wraps a container as a document, with placeholder metadata.
    pub fn new(item: BaseItem) -> (r: Base)
        ensures
            r.item == item,
            r.author@ == "Unknown"@,
            r.created_at@ == "Unknown"@,
            r.updated_at@ == "Unknown"@,
    {
        Base {
            item,
            author: String::from_str("Unknown"),
            created_at: String::from_str("Unknown"),
            updated_at: String::from_str("Unknown"),
        }
    }

    /// The template of the document.
    pub fn get_template(&self) -> (r: &BaseTemplate)
        ensures
            *r == self.tpl(),
    {
        self.item.get_template()
    }

    /// Looks an item up by id.
    pub fn get_item(&self, id: InternalId) -> (r: Option<&StageItem>)
        requires
            self.wf(),
        ensures
            match r {
                Some(n) => self.tpl().has(id) && *n == self.tpl().node(id),
                None => !self.tpl().has(id),
            },
    {
        self.item.get_template().get(id)
    }

    /// The id of the root item.
    pub fn get_root(&self) -> (r: InternalId)
        ensures
            r == self.tpl().root,
    {
        self.item.get_template().root
    }

    /// The stage size in pixels.
    pub fn get_size(&self) -> (r: (u32, u32))
        ensures
            r == self.tpl().size,
    {
        self.item.get_template().size
    }
}

} // verus!

verus! {

/// Whether two container values agree on everything but their template's
/// item collection: same kind, and the container's own id, name and staging
/// are unchanged.
pub open spec fn shell_eq(a: BaseItem, b: BaseItem) -> bool {
    match (a, b) {
        (BaseItem::Prop(p1), BaseItem::Prop(p2)) => p1.id == p2.id && p1.name == p2.name
            && p1.staging == p2.staging,
        (BaseItem::Blueprint(b1), BaseItem::Blueprint(b2)) => b1.name == b2.name,
        _ => false,
    }
}

/// Whether a builder's node kind fits the container: leaf items go into
/// props, props into blueprints.
pub open spec fn kind_matches(item: BaseItem, bt: BuilderType) -> bool {
    match (item, bt) {
        (BaseItem::Prop(_), BuilderType::PropItem(_)) => true,
        (BaseItem::Blueprint(_), BuilderType::Prop(_)) => true,
        _ => false,
    }
}

/// The parent a builder resolves to: the one it names, or the root.
pub open spec fn resolved_parent(t0: BaseTemplate, ib: ItemBuilder) -> InternalId {
    match ib.parent {
        Some(p) => p,
        None => t0.root,
    }
}

/// Why adding a child fails, if it does: an unknown parent, a node kind
/// that does not fit the container, or a payload that fails validation.
pub open spec fn spec_add_child_error(item: BaseItem, ib: ItemBuilder) -> Option<PyramusError> {
    let t0 = item.tpl();
    if !t0.has(resolved_parent(t0, ib)) {
        Some(PyramusError::ParentNotFound)
    } else if !kind_matches(item, ib.builder) {
        Some(PyramusError::MismatchedItemKind)
    } else {
        match ib.builder {
            BuilderType::PropItem(tb) => crate::builder::leaf_error(tb),
            BuilderType::Prop(crate::builder::PropTypeBuilder::Empty { width, height }) => if width
                == 0 || height == 0 {
                Some(PyramusError::InvalidSize)
            } else {
                None
            },
        }
    }
}

/// What the new node built from a builder holds, under its fresh id and
/// resolved parent.
pub open spec fn spec_built_node(ib: ItemBuilder, n: StageItem, id: InternalId, pid: InternalId) -> bool {
    &&& n.spec_id() == id
    &&& n.spec_parent() == Some(pid)
    &&& n.spec_children() == Seq::<InternalId>::empty()
    &&& n.spec_transform() == ib.transform
    &&& n.spec_name() == ib.name@
    &&& match ib.builder {
        BuilderType::PropItem(tb) => n matches StageItem::PropItem(pi) && crate::builder::leaf_built(
            tb,
            pi.item,
        ) && pi.item.valid(),
        BuilderType::Prop(crate::builder::PropTypeBuilder::Empty { width, height }) => n
            matches StageItem::Prop(p) && p.template.wf() && p.template.size == (width, height),
    }
}

impl Base {
    /// Builds the described node and attaches it under the named parent, or
    /// under the root when none is named. The new node becomes the topmost
    /// child; its id, fresh within this template, is returned. An unknown
    /// parent, a node kind that does not fit the container, and an invalid
    /// payload are rejected, in that order of checks, with nothing changed.
    pub fn add_child(&mut self, item_builder: ItemBuilder) -> (r: Result<InternalId, PyramusError>)
        requires
            old(self).wf(),
            old(self).tpl().s().len() < u32::MAX as nat,
        ensures
            final(self).wf(),
            final(self).author == old(self).author,
            final(self).created_at == old(self).created_at,
            final(self).updated_at == old(self).updated_at,
            shell_eq(final(self).item, old(self).item),
            final(self).tpl().root == old(self).tpl().root,
            final(self).tpl().size == old(self).tpl().size,
            match r {
                Ok(id) => ({
                    let t0 = old(self).tpl();
                    let t2 = final(self).tpl();
                    let pid = resolved_parent(t0, item_builder);
                    &&& spec_add_child_error(old(self).item, item_builder) is None
                    &&& !t0.has(id)
                    &&& t2.has(id)
                    &&& spec_built_node(item_builder, t2.node(id), id, pid)
                    &&& t2.node(pid).spec_children() == t0.node(pid).spec_children().push(id)
                    &&& t2.node(pid).spec_parent() == t0.node(pid).spec_parent()
                    &&& t2.node(pid).spec_transform() == t0.node(pid).spec_transform()
                    &&& t2.node(pid).spec_name() == t0.node(pid).spec_name()
                    &&& t2.node(pid).payload_eq(t0.node(pid))
                    &&& forall|x: InternalId| #[trigger] t2.has(x) <==> (t0.has(x) || x == id)
                    &&& forall|x: InternalId|
                        x != pid && x != id && #[trigger] t0.has(x) ==> t2.node(x) == t0.node(x)
                }),
                Err(e) => final(self).tpl().s() == old(self).tpl().s() && spec_add_child_error(
                    old(self).item,
                    item_builder,
                ) == Some(e),
            },
    {
        let parent = match item_builder.parent {
            Some(p) => p,
            None => self.item.get_template().root,
        };
        if self.item.get_template().get(parent).is_none() {
            return Err(PyramusError::ParentNotFound);
        }
        let kind_ok = match (&self.item, &item_builder.builder) {
            (BaseItem::Prop(_), BuilderType::PropItem(_)) => true,
            (BaseItem::Blueprint(_), BuilderType::Prop(_)) => true,
            _ => false,
        };
        if !kind_ok {
            return Err(PyramusError::MismatchedItemKind);
        }
        let id = match &self.item {
            BaseItem::Prop(p) => p.template.fresh_id(),
            BaseItem::Blueprint(b) => b.template.fresh_id(),
        };
        let node = match item_builder.build(id, parent) {
            Ok(n) => n,
            Err(e) => {
                return Err(e);
            },
        };
        match &mut self.item {
            BaseItem::Prop(p) => p.template.attach(parent, node),
            BaseItem::Blueprint(b) => b.template.attach(parent, node),
        }
        Ok(id)
    }

    /// Overwrites the relative transform of a non-root item. The root's
    /// transform stays the identity.
    pub fn edit_item_transform(&mut self, id: InternalId, t: RelativeTransform) -> (r: Result<
        (),
        PyramusError,
    >)
        requires
            old(self).wf(),
        ensures
            final(self).wf(),
            final(self).author == old(self).author,
            final(self).created_at == old(self).created_at,
            final(self).updated_at == old(self).updated_at,
            shell_eq(final(self).item, old(self).item),
            final(self).tpl().root == old(self).tpl().root,
            final(self).tpl().size == old(self).tpl().size,
            final(self).tpl().s().len() == old(self).tpl().s().len(),
            match r {
                Ok(_) => {
                    &&& id != old(self).tpl().root
                    &&& old(self).tpl().has(id)
                    &&& forall|x: InternalId|
                        #[trigger] final(self).tpl().has(x) <==> old(self).tpl().has(x)
                    &&& final(self).tpl().node(id).spec_transform() == t
                    &&& final(self).tpl().node(id).spec_id() == old(self).tpl().node(id).spec_id()
                    &&& final(self).tpl().node(id).spec_name() == old(self).tpl().node(
                        id,
                    ).spec_name()
                    &&& final(self).tpl().node(id).spec_parent() == old(self).tpl().node(
                        id,
                    ).spec_parent()
                    &&& final(self).tpl().node(id).spec_children() == old(self).tpl().node(
                        id,
                    ).spec_children()
                    &&& final(self).tpl().node(id).payload_eq(old(self).tpl().node(id))
                    &&& forall|x: InternalId|
                        x != id && #[trigger] old(self).tpl().has(x) ==> final(self).tpl().node(x)
                            == old(self).tpl().node(x)
                },
                Err(PyramusError::CannotEditRoot) => id == old(self).tpl().root && final(self).tpl().s() == old(self).tpl().s(),
                Err(PyramusError::ItemNotFound) => id != old(self).tpl().root && !old(self).tpl().has(id) && final(self).tpl().s() == old(self).tpl().s(),
                Err(_) => false,
            },
    {
        match &mut self.item {
            BaseItem::Prop(p) => p.template.set_item_transform(id, t),
            BaseItem::Blueprint(b) => b.template.set_item_transform(id, t),
        }
    }

    /// Overwrites the name of an item.
    pub fn rename_item(&mut self, id: InternalId, name: String) -> (r: Result<(), PyramusError>)
        requires
            old(self).wf(),
        ensures
            final(self).wf(),
            final(self).author == old(self).author,
            final(self).created_at == old(self).created_at,
            final(self).updated_at == old(self).updated_at,
            shell_eq(final(self).item, old(self).item),
            final(self).tpl().root == old(self).tpl().root,
            final(self).tpl().size == old(self).tpl().size,
            final(self).tpl().s().len() == old(self).tpl().s().len(),
            match r {
                Ok(_) => {
                    &&& old(self).tpl().has(id)
                    &&& forall|x: InternalId|
                        #[trigger] final(self).tpl().has(x) <==> old(self).tpl().has(x)
                    &&& final(self).tpl().node(id).spec_name() == name@
                    &&& final(self).tpl().node(id).spec_id() == old(self).tpl().node(id).spec_id()
                    &&& final(self).tpl().node(id).spec_transform() == old(self).tpl().node(
                        id,
                    ).spec_transform()
                    &&& final(self).tpl().node(id).spec_parent() == old(self).tpl().node(
                        id,
                    ).spec_parent()
                    &&& final(self).tpl().node(id).spec_children() == old(self).tpl().node(
                        id,
                    ).spec_children()
                    &&& final(self).tpl().node(id).payload_eq(old(self).tpl().node(id))
                    &&& forall|x: InternalId|
                        x != id && #[trigger] old(self).tpl().has(x) ==> final(self).tpl().node(x)
                            == old(self).tpl().node(x)
                },
                Err(PyramusError::ItemNotFound) => !old(self).tpl().has(id) && final(self).tpl().s()
                    == old(self).tpl().s(),
                Err(_) => false,
            },
    {
        match &mut self.item {
            BaseItem::Prop(p) => p.template.rename_item(id, name),
            BaseItem::Blueprint(b) => b.template.rename_item(id, name),
        }
    }

    /// Removes a non-root item, re-parenting its children to the root, where
    /// they are appended in their old order.
    pub fn remove_item(&mut self, id: InternalId) -> (r: Result<(), PyramusError>)
        requires
            old(self).wf(),
        ensures
            final(self).wf(),
            final(self).author == old(self).author,
            final(self).created_at == old(self).created_at,
            final(self).updated_at == old(self).updated_at,
            shell_eq(final(self).item, old(self).item),
            final(self).tpl().root == old(self).tpl().root,
            final(self).tpl().size == old(self).tpl().size,
            match r {
                Ok(_) => ({
                    let t0 = old(self).tpl();
                    let t2 = final(self).tpl();
                    let pid = t0.node(id).spec_parent().unwrap();
                    let vc = t0.node(id).spec_children();
                    &&& id != t0.root
                    &&& t0.has(id)
                    &&& forall|x: InternalId| #[trigger] t2.has(x) <==> (t0.has(x) && x != id)
                    &&& forall|x: InternalId|
                        x != id && x != pid && x != t0.root && !vc.contains(x) && #[trigger] t0.has(
                            x,
                        ) ==> t2.node(x) == t0.node(x)
                    &&& forall|j: int|
                        0 <= j < vc.len() ==> crate::ops::node_reparented(
                            t2.node(#[trigger] vc[j]),
                            t0.node(vc[j]),
                            t0.root,
                        )
                    &&& (pid != t0.root ==> crate::ops::node_children_changed(
                        t2.node(pid),
                        t0.node(pid),
                        t0.node(pid).spec_children().remove_value(id),
                    ))
                    &&& crate::ops::node_children_changed(
                        t2.node(t0.root),
                        t0.node(t0.root),
                        (if pid == t0.root {
                            t0.node(t0.root).spec_children().remove_value(id)
                        } else {
                            t0.node(t0.root).spec_children()
                        }) + vc,
                    )
                }),
                Err(PyramusError::CannotRemoveRoot) => id == old(self).tpl().root && final(self).tpl().s() == old(self).tpl().s(),
                Err(PyramusError::ItemNotFound) => id != old(self).tpl().root && !old(self).tpl().has(id) && final(self).tpl().s() == old(self).tpl().s(),
                Err(_) => false,
            },
    {
        match &mut self.item {
            BaseItem::Prop(p) => p.template.remove_item(id),
            BaseItem::Blueprint(b) => b.template.remove_item(id),
        }
    }
}

} // verus!
