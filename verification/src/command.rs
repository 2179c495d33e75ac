use vstd::prelude::*;
use vstd::string::*;

use crate::PyramusError;
use crate::base::{spec_add_child_error, spec_built_node, resolved_parent, shell_eq};
use crate::builder::ItemBuilder;
use crate::ids::InternalId;
use crate::input::{InputEvent, MouseState, spec_after_movement};
use crate::scene::{BaseTemplate, tpl_has};
use crate::stage::{Stage, filter_existing, lemma_filter_existing_idempotent, spec_hits,
    spec_render_order};
use crate::transform::RelativeTransform;

verus! {

/// A typed operation on the stage, submitted by the host or produced by the
/// input machine.
#[derive(Debug)]
pub enum BackendCommand {
    /// Add an item described by a builder, then select only the new item.
    CreateItem { new_item: ItemBuilder },
    /// Replace the selection with the given ids.
    SetSelection(Vec<InternalId>),
    /// Shift each listed item's position by the given whole pixels. The
    /// root, having no transform of its own, is skipped silently.
    TranslateGroup(Vec<InternalId>, (i64, i64)),
    /// Overwrite an item's relative transform.
    EditTransform(InternalId, RelativeTransform),
    /// Overwrite an item's name.
    RenameItem(InternalId, String),
    /// Remove an item, handing its children to the root.
    DeleteItem(InternalId),
}

/// A view-update event dispatched to the host after a command succeeds.
#[derive(Debug, Clone, Copy, PartialEq, Eq, Structural)]
pub enum FrontendCommand {
    /// The display should be redrawn. Never itself triggers another redraw.
    Rerender,
    /// The stage contents changed.
    UpdateStage,
}

impl FrontendCommand {
    /// Whether the event should be followed by a redraw.
    pub fn should_rerender(&self) -> (r: bool)
        ensures
            r == (*self matches FrontendCommand::UpdateStage),
    {
        match self {
            FrontendCommand::Rerender => false,
            FrontendCommand::UpdateStage => true,
        }
    }

    /// The exact name under which the event is dispatched to subscribers.
    pub fn event_name(&self) -> (r: String)
        ensures
            *self matches FrontendCommand::Rerender ==> r@ == "Rerender"@,
            *self matches FrontendCommand::UpdateStage ==> r@ == "UpdateStage"@,
    {
        match self {
            FrontendCommand::Rerender => String::from_str("Rerender"),
            FrontendCommand::UpdateStage => String::from_str("UpdateStage"),
        }
    }
}

/// The events a successful command emits: a stage update, then the redraw it
/// triggers.
pub open spec fn spec_events() -> Seq<FrontendCommand> {
    seq![FrontendCommand::UpdateStage, FrontendCommand::Rerender]
}

/// Whether two templates hold the same items under the same keys, whatever
/// the order of their collections.
pub open spec fn tpl_equiv(t1: BaseTemplate, t2: BaseTemplate) -> bool {
    &&& t1.root == t2.root
    &&& t1.size == t2.size
    &&& forall|x: InternalId| #[trigger] t1.has(x) <==> t2.has(x)
    &&& forall|x: InternalId| #[trigger] t1.has(x) ==> node_fields_eq(t1.node(x), t2.node(x))
}

/// What replacing the selection does to a stage: the document and pointer
/// state are untouched; the selection becomes the given list with ids the
/// document does not hold dropped.
pub open spec fn select_effect(s0: Stage, s1: Stage, ids: Seq<InternalId>) -> bool {
    &&& s1.base == s0.base
    &&& s1.mouse_state == s0.mouse_state
    &&& s1.selection@ == filter_existing(s0.base.tpl(), ids)
}

/// What overwriting one item's transform does to a stage: only that item's
/// transform changes, and the selection and pointer state stay.
pub open spec fn edit_transform_effect(s0: Stage, s1: Stage, id: InternalId, t: RelativeTransform) -> bool {
    let t0 = s0.base.tpl();
    let t2 = s1.base.tpl();
    &&& s1.selection == s0.selection
    &&& s1.mouse_state == s0.mouse_state
    &&& shell_eq(s1.base.item, s0.base.item)
    &&& s1.base.author == s0.base.author
    &&& s1.base.created_at == s0.base.created_at
    &&& s1.base.updated_at == s0.base.updated_at
    &&& t2.root == t0.root
    &&& t2.size == t0.size
    &&& id != t0.root
    &&& t0.has(id)
    &&& forall|x: InternalId| #[trigger] t2.has(x) <==> t0.has(x)
    &&& t2.node(id).spec_transform() == t
    &&& t2.node(id).spec_id() == t0.node(id).spec_id()
    &&& t2.node(id).spec_name() == t0.node(id).spec_name()
    &&& t2.node(id).spec_parent() == t0.node(id).spec_parent()
    &&& t2.node(id).spec_children() == t0.node(id).spec_children()
    &&& t2.node(id).payload_eq(t0.node(id))
    &&& forall|x: InternalId| x != id && #[trigger] t0.has(x) ==> t2.node(x) == t0.node(x)
}

/// What renaming one item does to a stage: only that item's name changes.
pub open spec fn rename_effect(s0: Stage, s1: Stage, id: InternalId, name: Seq<char>) -> bool {
    let t0 = s0.base.tpl();
    let t2 = s1.base.tpl();
    &&& s1.selection == s0.selection
    &&& s1.mouse_state == s0.mouse_state
    &&& shell_eq(s1.base.item, s0.base.item)
    &&& s1.base.author == s0.base.author
    &&& s1.base.created_at == s0.base.created_at
    &&& s1.base.updated_at == s0.base.updated_at
    &&& t2.root == t0.root
    &&& t2.size == t0.size
    &&& t0.has(id)
    &&& forall|x: InternalId| #[trigger] t2.has(x) <==> t0.has(x)
    &&& t2.node(id).spec_name() == name
    &&& t2.node(id).spec_id() == t0.node(id).spec_id()
    &&& t2.node(id).spec_transform() == t0.node(id).spec_transform()
    &&& t2.node(id).spec_parent() == t0.node(id).spec_parent()
    &&& t2.node(id).spec_children() == t0.node(id).spec_children()
    &&& t2.node(id).payload_eq(t0.node(id))
    &&& forall|x: InternalId| x != id && #[trigger] t0.has(x) ==> t2.node(x) == t0.node(x)
}

/// Replacing the selection with the same list twice is the same as doing it
/// once: the second replacement changes nothing further.
pub proof fn lemma_set_selection_idempotent(s0: Stage, s1: Stage, s2: Stage, ids: Seq<InternalId>)
    requires
        select_effect(s0, s1, ids),
        select_effect(s1, s2, ids),
    ensures
        s2.selection@ == s1.selection@,
        s2.base == s1.base,
        s2.mouse_state == s1.mouse_state,
{
}

/// Overwriting an item's transform with the same value twice leaves the
/// stage exactly as after doing it once.
pub proof fn lemma_edit_transform_idempotent(
    s0: Stage,
    s1: Stage,
    s2: Stage,
    id: InternalId,
    t: RelativeTransform,
)
    requires
        edit_transform_effect(s0, s1, id, t),
        edit_transform_effect(s1, s2, id, t),
    ensures
        s2.selection == s1.selection,
        s2.mouse_state == s1.mouse_state,
        tpl_equiv(s2.base.tpl(), s1.base.tpl()),
{
    let ta = s1.base.tpl();
    let tb = s2.base.tpl();
    assert forall|x: InternalId| #[trigger] tb.has(x) implies node_fields_eq(
        tb.node(x),
        ta.node(x),
    ) by {
        if x != id {
            assert(ta.has(x));
            assert(tb.node(x) == ta.node(x));
        }
    }
    assert forall|x: InternalId| #[trigger] tb.has(x) implies ta.has(x) by {}
}

/// Renaming an item to the same name twice leaves the stage exactly as
/// after doing it once.
pub proof fn lemma_rename_idempotent(
    s0: Stage,
    s1: Stage,
    s2: Stage,
    id: InternalId,
    name: Seq<char>,
)
    requires
        rename_effect(s0, s1, id, name),
        rename_effect(s1, s2, id, name),
    ensures
        s2.selection == s1.selection,
        s2.mouse_state == s1.mouse_state,
        tpl_equiv(s2.base.tpl(), s1.base.tpl()),
{
    let ta = s1.base.tpl();
    let tb = s2.base.tpl();
    assert forall|x: InternalId| #[trigger] tb.has(x) implies node_fields_eq(
        tb.node(x),
        ta.node(x),
    ) by {
        if x != id {
            assert(ta.has(x));
            assert(tb.node(x) == ta.node(x));
        }
    }
    assert forall|x: InternalId| #[trigger] tb.has(x) implies ta.has(x) by {}
}

/// Whether two nodes agree on every observable field.
pub open spec fn node_fields_eq(a: crate::scene::StageItem, b: crate::scene::StageItem) -> bool {
    &&& a.spec_id() == b.spec_id()
    &&& a.spec_name() == b.spec_name()
    &&& a.spec_parent() == b.spec_parent()
    &&& a.spec_children() == b.spec_children()
    &&& a.spec_transform() == b.spec_transform()
    &&& a.payload_eq(b)
}

} // verus!

verus! {

/// The value clamped into the signed 64-bit range.
pub open spec fn sat_i64(v: int) -> int {
    if v > i64::MAX {
        i64::MAX as int
    } else if v < i64::MIN {
        i64::MIN as int
    } else {
        v
    }
}

/// Adds two machine integers, clamping at the ends of the range.
pub fn sat_add(a: i64, b: i64) -> (r: i64)
    ensures
        r as int == sat_i64(a + b),
{
    if b >= 0 {
        if a > i64::MAX - b {
            i64::MAX
        } else {
            a + b
        }
    } else {
        if a < i64::MIN - b {
            i64::MIN
        } else {
            a + b
        }
    }
}

/// The position reached after stepping a coordinate by the same delta a
/// number of times, clamping at the ends of the range after every step.
pub open spec fn sat_steps(p: int, d: int, m: nat) -> int
    decreases m,
{
    if m == 0 {
        p
    } else {
        sat_i64(sat_steps(p, d, (m - 1) as nat) + d)
    }
}

/// How often an id occurs in a list.
pub open spec fn count_of(ids: Seq<InternalId>, x: InternalId) -> nat
    decreases ids.len(),
{
    if ids.len() == 0 {
        0
    } else {
        (if ids.last() == x {
            1nat
        } else {
            0nat
        }) + count_of(ids.drop_last(), x)
    }
}

/// What shifting a list of items does to a template: every listed non-root
/// item's position moves by the deltas once per listing, clamped at the
/// ends of the range step by step; everything else is untouched. The root
/// is skipped silently.
pub open spec fn translate_effect(
    t0: BaseTemplate,
    t1: BaseTemplate,
    ids: Seq<InternalId>,
    dx: int,
    dy: int,
) -> bool {
    &&& t1.root == t0.root
    &&& t1.size == t0.size
    &&& forall|x: InternalId| #[trigger] t1.has(x) <==> t0.has(x)
    &&& forall|x: InternalId|
        #[trigger] t0.has(x) && x != t0.root ==> {
            let tr0 = t0.node(x).spec_transform();
            let m = count_of(ids, x);
            &&& t1.node(x).spec_transform() == (RelativeTransform {
                position: (
                    (sat_steps(tr0.position.0 as int, dx, m)) as i64,
                    (sat_steps(tr0.position.1 as int, dy, m)) as i64,
                ),
                scale: tr0.scale,
                rotation: tr0.rotation,
            })
            &&& t1.node(x).spec_id() == t0.node(x).spec_id()
            &&& t1.node(x).spec_name() == t0.node(x).spec_name()
            &&& t1.node(x).spec_parent() == t0.node(x).spec_parent()
            &&& t1.node(x).spec_children() == t0.node(x).spec_children()
            &&& t1.node(x).payload_eq(t0.node(x))
        }
    &&& forall|x: InternalId|
        #[trigger] t0.has(x) && (x == t0.root || count_of(ids, x) == 0) ==> t1.node(x) == t0.node(
            x,
        )
}

/// One more listing bumps only that id's count.
pub proof fn lemma_count_push(ids: Seq<InternalId>, y: InternalId, x: InternalId)
    ensures
        count_of(ids.push(y), x) == count_of(ids, x) + (if y == x {
            1nat
        } else {
            0nat
        }),
{
    assert(ids.push(y).drop_last() =~= ids);
    assert(ids.push(y).last() == y);
}

/// The event list every successful command reports.
pub fn make_events() -> (r: Vec<FrontendCommand>)
    ensures
        r@ == spec_events(),
{
    let mut events: Vec<FrontendCommand> = Vec::new();
    events.push(FrontendCommand::UpdateStage);
    events.push(FrontendCommand::Rerender);
    proof {
        assert(events@ =~= spec_events());
    }
    events
}

impl Stage {
    /// Processes one command against the stage. A successful command applies
    /// all of its changes and reports a stage update followed by the redraw
    /// it triggers; a failed one reports its error with the stage unchanged.
    #[verifier::rlimit(100)]
    pub fn process_command(&mut self, command: BackendCommand) -> (r: Result<
        Vec<FrontendCommand>,
        PyramusError,
    >)
        requires
            old(self).wf(),
            old(self).base.tpl().s().len() < u32::MAX as nat,
        ensures
            final(self).wf(),
            match r {
                Ok(events) => events@ == spec_events() && match command {
                    BackendCommand::CreateItem { new_item } => ({
                        let t0 = old(self).base.tpl();
                        let t2 = final(self).base.tpl();
                        &&& spec_add_child_error(old(self).base.item, new_item) is None
                        &&& exists|id: InternalId|
                            {
                                &&& !t0.has(id)
                                &&& #[trigger] t2.has(id)
                                &&& spec_built_node(
                                    new_item,
                                    t2.node(id),
                                    id,
                                    resolved_parent(t0, new_item),
                                )
                                &&& final(self).selection@ =~= seq![id]
                                &&& t2.node(resolved_parent(t0, new_item)).spec_children() == t0.node(
                                    resolved_parent(t0, new_item),
                                ).spec_children().push(id)
                                &&& forall|x: InternalId|
                                    #[trigger] t2.has(x) <==> (t0.has(x) || x == id)
                                &&& forall|x: InternalId|
                                    x != resolved_parent(t0, new_item) && x != id
                                        && #[trigger] t0.has(x) ==> t2.node(x) == t0.node(x)
                            }
                        &&& final(self).mouse_state == old(self).mouse_state
                    }),
                    BackendCommand::SetSelection(ids) => select_effect(
                        *old(self),
                        *final(self),
                        ids@,
                    ),
                    BackendCommand::TranslateGroup(ids, d) => {
                        &&& translate_effect(
                            old(self).base.tpl(),
                            final(self).base.tpl(),
                            ids@,
                            d.0 as int,
                            d.1 as int,
                        )
                        &&& forall|k: int|
                            0 <= k < ids@.len() ==> old(self).base.tpl().has(#[trigger] ids@[k])
                        &&& final(self).selection == old(self).selection
                        &&& final(self).mouse_state == old(self).mouse_state
                        &&& shell_eq(final(self).base.item, old(self).base.item)
                    },
                    BackendCommand::EditTransform(id, t) => edit_transform_effect(
                        *old(self),
                        *final(self),
                        id,
                        t,
                    ),
                    BackendCommand::RenameItem(id, name) => rename_effect(
                        *old(self),
                        *final(self),
                        id,
                        name@,
                    ),
                    BackendCommand::DeleteItem(id) => ({
                        let t0 = old(self).base.tpl();
                        let t2 = final(self).base.tpl();
                        let pid = t0.node(id).spec_parent().unwrap();
                        let vc = t0.node(id).spec_children();
                        &&& id != t0.root
                        &&& t0.has(id)
                        &&& t2.root == t0.root
                        &&& t2.size == t0.size
                        &&& forall|x: InternalId| #[trigger] t2.has(x) <==> (t0.has(x) && x != id)
                        &&& forall|x: InternalId|
                            x != id && x != pid && x != t0.root && !vc.contains(x)
                                && #[trigger] t0.has(x) ==> t2.node(x) == t0.node(x)
                        &&& forall|j: int|
                            0 <= j < vc.len() ==> crate::ops::node_reparented(
                                t2.node(#[trigger] vc[j]),
                                t0.node(vc[j]),
                                t0.root,
                            )
                        &&& (pid != t0.root ==> crate::ops::node_children_changed(
                            t2.node(pid),
                            t0.node(pid),
                            t0.node(pid).spec_children().remove_value(id),
                        ))
                        &&& crate::ops::node_children_changed(
                            t2.node(t0.root),
                            t0.node(t0.root),
                            (if pid == t0.root {
                                t0.node(t0.root).spec_children().remove_value(id)
                            } else {
                                t0.node(t0.root).spec_children()
                            }) + vc,
                        )
                        &&& final(self).selection@ == filter_existing(t2, old(self).selection@)
                        &&& final(self).mouse_state == old(self).mouse_state
                        &&& shell_eq(final(self).base.item, old(self).base.item)
                    }),
                },
                Err(e) => {
                    &&& final(self).base.tpl().s() == old(self).base.tpl().s()
                    &&& final(self).selection == old(self).selection
                    &&& final(self).mouse_state == old(self).mouse_state
                    &&& shell_eq(final(self).base.item, old(self).base.item)
                    &&& match command {
                        BackendCommand::CreateItem { new_item } => spec_add_child_error(
                            old(self).base.item,
                            new_item,
                        ) == Some(e),
                        BackendCommand::SetSelection(_) => false,
                        BackendCommand::TranslateGroup(ids, _) => e == PyramusError::ItemNotFound
                            && exists|k: int|
                            0 <= k < ids@.len() && !old(self).base.tpl().has(#[trigger] ids@[k]),
                        BackendCommand::EditTransform(id, _) => (e == PyramusError::CannotEditRoot
                            && id == old(self).base.tpl().root) || (e == PyramusError::ItemNotFound
                            && id != old(self).base.tpl().root && !old(self).base.tpl().has(id)),
                        BackendCommand::RenameItem(id, _) => e == PyramusError::ItemNotFound && !old(
                            self,
                        ).base.tpl().has(id),
                        BackendCommand::DeleteItem(id) => (e == PyramusError::CannotRemoveRoot && id
                            == old(self).base.tpl().root) || (e == PyramusError::ItemNotFound && id
                            != old(self).base.tpl().root && !old(self).base.tpl().has(id)),
                    }
                },
            },
    {
        match &command {
            BackendCommand::CreateItem { .. } => {},
            BackendCommand::SetSelection(ids) => {
                let v = crate::ops::copy_ids(ids);
                self.set_selection(v);
                return Ok(make_events());
            },
            BackendCommand::EditTransform(id, t) => {
                match self.base.edit_item_transform(*id, *t) {
                    Ok(_) => {},
                    Err(e) => {
                        return Err(e);
                    },
                }
                return Ok(make_events());
            },
            BackendCommand::RenameItem(id, name) => {
                let owned = name.as_str().to_owned();
                match self.base.rename_item(*id, owned) {
                    Ok(_) => {},
                    Err(e) => {
                        return Err(e);
                    },
                }
                return Ok(make_events());
            },
            BackendCommand::DeleteItem(id) => {
                match self.base.remove_item(*id) {
                    Ok(_) => {},
                    Err(e) => {
                        return Err(e);
                    },
                }
                let sel = crate::ops::copy_ids(&self.selection);
                self.set_selection(sel);
                return Ok(make_events());
            },
            BackendCommand::TranslateGroup(ids, dr) => {
                let d = *dr;
                // all named items must exist before anything moves
                let mut j: usize = 0;
                while j < ids.len()
                    invariant
                        self == old(self),
                        old(self).wf(),
                        command is TranslateGroup,
                        command->TranslateGroup_0 == *ids,
                        command->TranslateGroup_1 == d,
                        j <= ids@.len(),
                        forall|k: int| 0 <= k < j ==> self.base.tpl().has(#[trigger] ids@[k]),
                    decreases ids@.len() - j,
                {
                    if self.base.get_item(ids[j]).is_none() {
                        proof {
                            assert(!old(self).base.tpl().has(ids@[j as int]));
                            assert(exists|k: int|
                                0 <= k < ids@.len() && !old(self).base.tpl().has(
                                    #[trigger] ids@[k],
                                ));
                        }
                        return Err(PyramusError::ItemNotFound);
                    }
                    j = j + 1;
                }
                let ghost t0 = self.base.tpl();
                proof {
                    t0.lemma_wf_facts();
                    assert forall|x: InternalId| t0.has(x) implies count_of(
                        ids@.subrange(0, 0),
                        x,
                    ) == 0 by {
                        assert(ids@.subrange(0, 0) =~= Seq::<InternalId>::empty());
                    }
                }
                let mut k: usize = 0;
                while k < ids.len()
                    invariant
                        old(self).wf(),
                        self.wf(),
                        command is TranslateGroup,
                        command->TranslateGroup_0 == *ids,
                        command->TranslateGroup_1 == d,
                        k <= ids@.len(),
                        self.base.tpl().s().len() < u32::MAX as nat,
                        forall|m: int| 0 <= m < ids@.len() ==> t0.has(#[trigger] ids@[m]),
                        t0 == old(self).base.tpl(),
                        self.selection == old(self).selection,
                        self.mouse_state == old(self).mouse_state,
                        shell_eq(self.base.item, old(self).base.item),
                        translate_effect(
                            t0,
                            self.base.tpl(),
                            ids@.subrange(0, k as int),
                            d.0 as int,
                            d.1 as int,
                        ),
                    decreases ids@.len() - k,
                {
                    let id = ids[k];
                    let ghost tm = self.base.tpl();
                    let ghost pre = ids@.subrange(0, k as int);
                    let ghost pre1 = ids@.subrange(0, k as int + 1);
                    proof {
                        assert(pre.push(id) =~= pre1);
                    }
                    if id == self.base.get_root() {
                        proof {
                            assert forall|x: InternalId| #[trigger] t0.has(x) implies count_of(
                                pre1,
                                x,
                            ) == count_of(pre, x) + (if x == t0.root {
                                1nat
                            } else {
                                0nat
                            }) by {
                                lemma_count_push(pre, id, x);
                            }
                        }
                    } else {
                        let node = match self.base.get_item(id) {
                            Some(n) => n,
                            None => {
                                proof {
                                    assert(false);
                                }
                                return Err(PyramusError::ItemNotFound);
                            },
                        };
                        let tr = node.get_relative_transform();
                        let moved = RelativeTransform {
                            position: (sat_add(tr.position.0, d.0), sat_add(tr.position.1, d.1)),
                            scale: tr.scale,
                            rotation: tr.rotation,
                        };
                        match self.base.edit_item_transform(id, moved) {
                            Ok(_) => {},
                            Err(e) => {
                                proof {
                                    assert(false);
                                }
                                return Err(e);
                            },
                        }
                        proof {
                            let t2 = self.base.tpl();
                            assert forall|x: InternalId| #[trigger] t0.has(x) implies count_of(
                                pre1,
                                x,
                            ) == count_of(pre, x) + (if x == id {
                                1nat
                            } else {
                                0nat
                            }) by {
                                lemma_count_push(pre, id, x);
                            }
                            assert(translate_effect(t0, t2, pre1, d.0 as int, d.1 as int)) by {
                                assert forall|x: InternalId|
                                    #[trigger] t0.has(x) && x != t0.root implies {
                                    let tr0 = t0.node(x).spec_transform();
                                    let m = count_of(pre1, x);
                                    &&& t2.node(x).spec_transform() == (RelativeTransform {
                                        position: (
                                            (sat_steps(tr0.position.0 as int, d.0 as int, m)) as i64,
                                            (sat_steps(tr0.position.1 as int, d.1 as int, m)) as i64,
                                        ),
                                        scale: tr0.scale,
                                        rotation: tr0.rotation,
                                    })
                                    &&& t2.node(x).spec_id() == t0.node(x).spec_id()
                                    &&& t2.node(x).spec_name() == t0.node(x).spec_name()
                                    &&& t2.node(x).spec_parent() == t0.node(x).spec_parent()
                                    &&& t2.node(x).spec_children() == t0.node(x).spec_children()
                                    &&& t2.node(x).payload_eq(t0.node(x))
                                } by {
                                    assert(tm.has(x));
                                    if x != id {
                                        assert(t2.node(x) == tm.node(x));
                                        assert(count_of(pre1, x) == count_of(pre, x));
                                    } else {
                                        assert(count_of(pre1, id) == count_of(pre, id) + 1);
                                    }
                                }
                                assert forall|x: InternalId|
                                    #[trigger] t0.has(x) && (x == t0.root || count_of(pre1, x)
                                        == 0) implies t2.node(x) == t0.node(x) by {
                                    assert(tm.has(x));
                                    if x == t0.root {
                                        assert(x != id);
                                        assert(t2.node(x) == tm.node(x));
                                    } else {
                                        assert(count_of(pre, x) == 0);
                                        assert(x != id) by {
                                            if x == id {
                                                assert(count_of(pre1, x) == count_of(pre, x) + 1);
                                            }
                                        }
                                        assert(t2.node(x) == tm.node(x));
                                    }
                                }
                            }
                        }
                    }
                    k = k + 1;
                }
                proof {
                    assert(ids@.subrange(0, ids@.len() as int) =~= ids@);
                }
                return Ok(make_events());
            },
        }
        match command {
            BackendCommand::CreateItem { new_item } => {
                let id = match self.base.add_child(new_item) {
                    Ok(id) => id,
                    Err(e) => {
                        return Err(e);
                    },
                };
                let mut sel: Vec<InternalId> = Vec::new();
                sel.push(id);
                let ghost t2 = self.base.tpl();
                self.set_selection(sel);
                proof {
                    assert(t2.has(id));
                    assert(seq![id][0] == id);
                    assert(seq![id].skip(1) =~= Seq::<InternalId>::empty());
                    assert(filter_existing(t2, Seq::<InternalId>::empty())
                        =~= Seq::<InternalId>::empty());
                    assert(filter_existing(t2, seq![id]) =~= seq![id]);
                }
                Ok(make_events())
            },
            _ => {
                proof {
                    assert(false);
                }
                Err(PyramusError::ItemNotFound)
            },
        }
    }
}

} // verus!

verus! {

/// Whether a list holds an id.
pub fn ids_contain(v: &Vec<InternalId>, id: InternalId) -> (r: bool)
    ensures
        r == v@.contains(id),
{
    let mut j: usize = 0;
    while j < v.len()
        invariant
            j <= v@.len(),
            forall|k: int| 0 <= k < j ==> v@[k] != id,
        decreases v@.len() - j,
    {
        if v[j] == id {
            return true;
        }
        j = j + 1;
    }
    false
}

impl Stage {
    /// Interprets one pointer event. A press remembers its point and updates
    /// the selection: an unselected item under the pointer becomes the sole
    /// selection; a selected one is left alone so a group can be dragged;
    /// empty space clears a non-empty selection. A release within the press
    /// state confirms a click, selecting the item under the press point, and
    /// always returns the pointer to idle. A move may cross the drag
    /// threshold, and while dragging it shifts the selection by its delta.
    /// Pointer events never fail.
    #[verifier::rlimit(100)]
    pub fn process_event(&mut self, event: InputEvent) -> (r: Result<
        Vec<FrontendCommand>,
        PyramusError,
    >)
        requires
            old(self).wf(),
            old(self).base.tpl().s().len() < u32::MAX as nat,
        ensures
            final(self).wf(),
            r is Ok,
            match event {
                InputEvent::MouseDown { x, y } => ({
                    let t = old(self).base.tpl();
                    let hit = crate::stage::spec_front_item(t, x as int, y as int, false);
                    &&& final(self).mouse_state == MouseState::MouseDown(x, y)
                    &&& final(self).base == old(self).base
                    &&& match hit {
                        Some(id) => if old(self).selection@.contains(id) {
                            final(self).selection == old(self).selection && r.unwrap()@
                                == Seq::<FrontendCommand>::empty()
                        } else {
                            final(self).selection@ == filter_existing(t, seq![id]) && r.unwrap()@
                                == spec_events()
                        },
                        None => if old(self).selection@.len() == 0 {
                            final(self).selection == old(self).selection && r.unwrap()@
                                == Seq::<FrontendCommand>::empty()
                        } else {
                            final(self).selection@ == Seq::<InternalId>::empty() && r.unwrap()@
                                == spec_events()
                        },
                    }
                }),
                InputEvent::MouseUp => ({
                    let t = old(self).base.tpl();
                    &&& final(self).mouse_state == MouseState::Idle
                    &&& final(self).base == old(self).base
                    &&& match old(self).mouse_state {
                        MouseState::MouseDown(x0, y0) => match crate::stage::spec_front_item(
                            t,
                            x0 as int,
                            y0 as int,
                            false,
                        ) {
                            Some(id) => final(self).selection@ == filter_existing(t, seq![id])
                                && r.unwrap()@ == spec_events(),
                            None => final(self).selection == old(self).selection && r.unwrap()@
                                == Seq::<FrontendCommand>::empty(),
                        },
                        _ => final(self).selection == old(self).selection && r.unwrap()@
                            == Seq::<FrontendCommand>::empty(),
                    }
                }),
                InputEvent::MouseMove { delta_x, delta_y } => ({
                    let after = spec_after_movement(
                        old(self).mouse_state,
                        delta_x as int,
                        delta_y as int,
                    );
                    &&& final(self).mouse_state == after
                    &&& final(self).selection == old(self).selection
                    &&& if after is DraggingMovement {
                        translate_effect(
                            old(self).base.tpl(),
                            final(self).base.tpl(),
                            old(self).selection@,
                            delta_x as int,
                            delta_y as int,
                        ) && shell_eq(final(self).base.item, old(self).base.item) && r.unwrap()@
                            == spec_events()
                    } else {
                        final(self).base == old(self).base && r.unwrap()@
                            == Seq::<FrontendCommand>::empty()
                    }
                }),
            },
    {
        match event {
            InputEvent::MouseDown { x, y } => {
                self.mouse_state = MouseState::MouseDown(x, y);
                let hit = self.get_front_item_at(x, y, false);
                match hit {
                    Some(id) => {
                        if ids_contain(&self.selection, id) {
                            Ok(Vec::new())
                        } else {
                            let mut v: Vec<InternalId> = Vec::new();
                            v.push(id);
                            proof {
                                assert(v@ =~= seq![id]);
                            }
                            self.process_command(BackendCommand::SetSelection(v))
                        }
                    },
                    None => {
                        if self.selection.len() == 0 {
                            Ok(Vec::new())
                        } else {
                            let v: Vec<InternalId> = Vec::new();
                            let r = self.process_command(BackendCommand::SetSelection(v));
                            proof {
                                assert(filter_existing(
                                    old(self).base.tpl(),
                                    Seq::<InternalId>::empty(),
                                ) =~= Seq::<InternalId>::empty());
                            }
                            r
                        }
                    },
                }
            },
            InputEvent::MouseUp => {
                let prev = self.mouse_state;
                self.mouse_state = MouseState::Idle;
                match prev {
                    MouseState::MouseDown(x0, y0) => {
                        let hit = self.get_front_item_at(x0, y0, false);
                        match hit {
                            Some(id) => {
                                let mut v: Vec<InternalId> = Vec::new();
                                v.push(id);
                                proof {
                                    assert(v@ =~= seq![id]);
                                }
                                self.process_command(BackendCommand::SetSelection(v))
                            },
                            None => Ok(Vec::new()),
                        }
                    },
                    _ => Ok(Vec::new()),
                }
            },
            InputEvent::MouseMove { delta_x, delta_y } => {
                self.mouse_state.update_from_movement(delta_x, delta_y);
                let dragging = match self.mouse_state {
                    MouseState::DraggingMovement => true,
                    _ => false,
                };
                if dragging {
                    let sel = crate::ops::copy_ids(&self.selection);
                    let r = self.process_command(
                        BackendCommand::TranslateGroup(sel, (delta_x, delta_y)),
                    );
                    match r {
                        Ok(events) => Ok(events),
                        Err(e) => {
                            proof {
                                let t = old(self).base.tpl();
                                let k = choose|k: int|
                                    0 <= k < old(self).selection@.len() && !t.has(
                                        #[trigger] old(self).selection@[k],
                                    );
                                assert(t.has(old(self).selection@[k]));
                                assert(false);
                            }
                            Err(e)
                        },
                    }
                } else {
                    Ok(Vec::new())
                }
            },
        }
    }
}

} // verus!
