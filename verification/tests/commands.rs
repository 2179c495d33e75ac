use pyramus::PyramusError;
use pyramus::base::{Base, BaseItem};
use pyramus::builder::ItemBuilder;
use pyramus::command::{BackendCommand, FrontendCommand};
use pyramus::ids::InternalId;
use pyramus::scene::{Prop, StageItem};
use pyramus::stage::Stage;
use pyramus::transform::RelativeTransform;

fn prop_stage(w: u32, h: u32) -> Stage {
    let prop = Prop::new("Test".to_string(), w, h).unwrap();
    Stage::new(Base::new(BaseItem::Prop(prop)))
}

fn root_of(stage: &Stage) -> InternalId {
    stage.base.get_root()
}

#[test]
fn create_and_select() {
    let mut stage = prop_stage(800, 600);
    let root = root_of(&stage);
    let events = stage
        .process_command(BackendCommand::CreateItem {
            new_item: ItemBuilder::build_text_basic("hi".to_string()).parent(root),
        })
        .unwrap();
    assert_eq!(events, vec![FrontendCommand::UpdateStage, FrontendCommand::Rerender]);
    assert_eq!(stage.selection.len(), 1);
    let new_id = stage.selection[0];
    let node = stage.base.get_item(new_id).expect("created item exists");
    match node {
        StageItem::PropItem(pi) => {
            assert_eq!(pi.name, "text");
            assert_eq!(pi.staging.parent, Some(root));
        }
        StageItem::Prop(_) => panic!("expected a leaf item"),
    }
    let svg = stage.render_string().unwrap();
    assert!(svg.contains("<text "));
    assert!(svg.contains(">hi</text>"));
}

#[test]
fn delete_root_is_rejected_and_state_unchanged() {
    let mut stage = prop_stage(800, 600);
    let root = root_of(&stage);
    let before = stage.render_string().unwrap();
    let r = stage.process_command(BackendCommand::DeleteItem(root));
    assert_eq!(r, Err(PyramusError::CannotRemoveRoot));
    assert_eq!(stage.render_string().unwrap(), before);
}

#[test]
fn edit_transform_of_root_is_rejected_and_state_unchanged() {
    let mut stage = prop_stage(800, 600);
    let root = root_of(&stage);
    let before = stage.render_string().unwrap();
    let r = stage.process_command(BackendCommand::EditTransform(
        root,
        RelativeTransform::new(1, 2, 1000, 1000, 0),
    ));
    assert_eq!(r, Err(PyramusError::CannotEditRoot));
    assert_eq!(stage.render_string().unwrap(), before);
}

#[test]
fn create_with_unknown_parent_is_rejected_and_state_unchanged() {
    let mut stage = prop_stage(800, 600);
    let before = stage.render_string().unwrap();
    let r = stage.process_command(BackendCommand::CreateItem {
        new_item: ItemBuilder::build_text_basic("x".to_string()).parent(InternalId(4040404)),
    });
    assert_eq!(r, Err(PyramusError::ParentNotFound));
    assert_eq!(stage.render_string().unwrap(), before);
}

#[test]
fn delete_with_children_reparents_to_root_in_order() {
    let mut stage = prop_stage(800, 600);
    let root = root_of(&stage);
    let mk = |stage: &mut Stage, name: &str, parent: InternalId| -> InternalId {
        stage
            .process_command(BackendCommand::CreateItem {
                new_item: ItemBuilder::build_text_basic(name.to_string())
                    .name(name.to_string())
                    .parent(parent),
            })
            .unwrap();
        stage.selection[0]
    };
    let a = mk(&mut stage, "A", root);
    let b = mk(&mut stage, "B", root);
    let a1 = mk(&mut stage, "A1", a);
    let a2 = mk(&mut stage, "A2", a);

    // select A so that the deletion also strips it from the selection
    stage
        .process_command(BackendCommand::SetSelection(vec![a, b]))
        .unwrap();
    stage.process_command(BackendCommand::DeleteItem(a)).unwrap();

    assert!(stage.base.get_item(a).is_none());
    for id in [b, a1, a2] {
        assert!(stage.base.get_item(id).is_some());
    }
    assert_eq!(stage.base.get_item(a1).unwrap().get_parent(), Some(root));
    assert_eq!(stage.base.get_item(a2).unwrap().get_parent(), Some(root));
    let root_children = stage.base.get_item(root).unwrap().get_children().clone();
    assert_eq!(root_children, vec![b, a1, a2]);
    assert_eq!(stage.selection, vec![b]);
}

#[test]
fn rename_overwrites_the_name() {
    let mut stage = prop_stage(800, 600);
    let root = root_of(&stage);
    let r = stage.process_command(BackendCommand::RenameItem(root, "backdrop".to_string()));
    assert!(r.is_ok());
    match stage.base.get_item(root).unwrap() {
        StageItem::PropItem(pi) => assert_eq!(pi.name, "backdrop"),
        StageItem::Prop(_) => panic!("prop template holds leaf items"),
    }
    let r2 = stage.process_command(BackendCommand::RenameItem(InternalId(999_999), "x".to_string()));
    assert_eq!(r2, Err(PyramusError::ItemNotFound));
}

#[test]
fn set_selection_is_idempotent_and_drops_unknown_ids() {
    let mut stage = prop_stage(800, 600);
    let root = root_of(&stage);
    stage
        .process_command(BackendCommand::SetSelection(vec![root, InternalId(777_777), root]))
        .unwrap();
    assert_eq!(stage.selection, vec![root, root]);
    stage
        .process_command(BackendCommand::SetSelection(vec![root, InternalId(777_777), root]))
        .unwrap();
    assert_eq!(stage.selection, vec![root, root]);
}

#[test]
fn edit_transform_twice_equals_once() {
    let mut stage = prop_stage(800, 600);
    let root = root_of(&stage);
    stage
        .process_command(BackendCommand::CreateItem {
            new_item: ItemBuilder::build_text_basic("t".to_string()).parent(root),
        })
        .unwrap();
    let id = stage.selection[0];
    let t = RelativeTransform::new(10, 20, 1500, 500, 45);
    stage.process_command(BackendCommand::EditTransform(id, t)).unwrap();
    let once = stage.render_string().unwrap();
    stage.process_command(BackendCommand::EditTransform(id, t)).unwrap();
    let twice = stage.render_string().unwrap();
    assert_eq!(once, twice);
    assert_eq!(
        stage.base.get_item(id).unwrap().get_relative_transform(),
        t
    );
}

#[test]
fn translate_group_shifts_each_listed_item_and_skips_root() {
    let mut stage = prop_stage(800, 600);
    let root = root_of(&stage);
    stage
        .process_command(BackendCommand::CreateItem {
            new_item: ItemBuilder::build_text_basic("t".to_string()).parent(root),
        })
        .unwrap();
    let id = stage.selection[0];
    stage
        .process_command(BackendCommand::TranslateGroup(vec![id, root, id], (3, -2)))
        .unwrap();
    let tr = stage.base.get_item(id).unwrap().get_relative_transform();
    // listed twice, so shifted twice; the root listing is skipped silently
    assert_eq!(tr.position, (6, -4));
    let root_tr = stage.base.get_item(root).unwrap().get_relative_transform();
    assert_eq!(root_tr, RelativeTransform::new(0, 0, 1000, 1000, 0));

    let r = stage.process_command(BackendCommand::TranslateGroup(vec![InternalId(31337)], (1, 1)));
    assert_eq!(r, Err(PyramusError::ItemNotFound));
}

#[test]
fn mismatched_builder_kind_is_rejected() {
    let mut stage = prop_stage(800, 600);
    let r = stage.process_command(BackendCommand::CreateItem {
        new_item: ItemBuilder::build_empty_prop(100, 100),
    });
    assert_eq!(r, Err(PyramusError::MismatchedItemKind));
}
