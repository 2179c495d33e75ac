use pyramus::base::{Base, BaseItem};
use pyramus::builder::ItemBuilder;
use pyramus::command::{BackendCommand, FrontendCommand};
use pyramus::ids::InternalId;
use pyramus::input::{InputEvent, MouseState};
use pyramus::scene::Prop;
use pyramus::stage::Stage;
use pyramus::transform::RelativeTransform;

fn stage_with_rect(x: i64, y: i64, w: u32, h: u32) -> (Stage, InternalId) {
    let prop = Prop::new("Test".to_string(), 800, 600).unwrap();
    let mut stage = Stage::new(Base::new(BaseItem::Prop(prop)));
    let root = stage.base.get_root();
    stage
        .process_command(BackendCommand::CreateItem {
            new_item: ItemBuilder::build_image_from_rect(w, h, "red", None, 1000)
                .parent(root)
                .transform(RelativeTransform::new(x, y, 1000, 1000, 0)),
        })
        .unwrap();
    let id = stage.selection[0];
    (stage, id)
}

#[test]
fn drag_threshold() {
    let (mut stage, item) = stage_with_rect(50, 50, 100, 100);
    // press on the item, which is already selected after creation
    let events = stage.process_event(InputEvent::MouseDown { x: 100, y: 100 }).unwrap();
    assert_eq!(stage.mouse_state, MouseState::MouseDown(100, 100));
    assert_eq!(events, Vec::<FrontendCommand>::new());
    // a small move stays below the five-pixel threshold: 3*3 + 3*3 = 18 <= 25
    let events = stage
        .process_event(InputEvent::MouseMove { delta_x: 3, delta_y: 3 })
        .unwrap();
    assert_eq!(stage.mouse_state, MouseState::MouseDown(100, 100));
    assert_eq!(events, Vec::<FrontendCommand>::new());
    // this move's own delta crosses it: 4*4 + 4*4 = 32 > 25, and the crossing
    // event already drags the selection by its delta
    let events = stage
        .process_event(InputEvent::MouseMove { delta_x: 4, delta_y: 4 })
        .unwrap();
    assert_eq!(stage.mouse_state, MouseState::DraggingMovement);
    assert_eq!(events, vec![FrontendCommand::UpdateStage, FrontendCommand::Rerender]);
    let tr = stage.base.get_item(item).unwrap().get_relative_transform();
    assert_eq!(tr.position, (54, 54));
    // the release leaves dragging without a click-override
    let events = stage.process_event(InputEvent::MouseUp).unwrap();
    assert_eq!(stage.mouse_state, MouseState::Idle);
    assert_eq!(events, Vec::<FrontendCommand>::new());
}

#[test]
fn click_confirms_selection() {
    let (mut stage, item) = stage_with_rect(0, 0, 200, 200);
    // make a sibling and select both, so the press finds the item selected
    let root = stage.base.get_root();
    stage
        .process_command(BackendCommand::CreateItem {
            new_item: ItemBuilder::build_image_from_rect(10, 10, "blue", None, 1000)
                .parent(root)
                .transform(RelativeTransform::new(500, 500, 1000, 1000, 0)),
        })
        .unwrap();
    let sibling = stage.selection[0];
    stage
        .process_command(BackendCommand::SetSelection(vec![item, sibling]))
        .unwrap();
    // press on the already selected item: no selection change, group kept
    let events = stage.process_event(InputEvent::MouseDown { x: 10, y: 10 }).unwrap();
    assert_eq!(events, Vec::<FrontendCommand>::new());
    assert_eq!(stage.selection, vec![item, sibling]);
    // release without crossing the threshold: the click is confirmed and
    // selects just the item under the press point
    let events = stage.process_event(InputEvent::MouseUp).unwrap();
    assert_eq!(events, vec![FrontendCommand::UpdateStage, FrontendCommand::Rerender]);
    assert_eq!(stage.selection, vec![item]);
    assert_eq!(stage.mouse_state, MouseState::Idle);
}

#[test]
fn press_on_unselected_item_selects_it() {
    let (mut stage, item) = stage_with_rect(0, 0, 200, 200);
    stage.process_command(BackendCommand::SetSelection(vec![])).unwrap();
    let events = stage.process_event(InputEvent::MouseDown { x: 10, y: 10 }).unwrap();
    assert_eq!(events, vec![FrontendCommand::UpdateStage, FrontendCommand::Rerender]);
    assert_eq!(stage.selection, vec![item]);
}

#[test]
fn press_on_empty_space_clears_a_selection() {
    // the item sits away from the press point; the root is never hit-tested
    let (mut stage, item) = stage_with_rect(500, 500, 10, 10);
    assert_eq!(stage.selection, vec![item]);
    let events = stage.process_event(InputEvent::MouseDown { x: 5, y: 5 }).unwrap();
    assert_eq!(events, vec![FrontendCommand::UpdateStage, FrontendCommand::Rerender]);
    assert_eq!(stage.selection, Vec::<InternalId>::new());
    // pressing empty space again with an empty selection does nothing
    let events = stage.process_event(InputEvent::MouseDown { x: 5, y: 5 }).unwrap();
    assert_eq!(events, Vec::<FrontendCommand>::new());
}

#[test]
fn front_item_prefers_the_topmost_sibling() {
    let (mut stage, below) = stage_with_rect(0, 0, 100, 100);
    let root = stage.base.get_root();
    stage
        .process_command(BackendCommand::CreateItem {
            new_item: ItemBuilder::build_image_from_rect(100, 100, "green", None, 1000)
                .parent(root),
        })
        .unwrap();
    let above = stage.selection[0];
    // both cover (10, 10); the later sibling is drawn on top and wins
    assert_eq!(stage.get_front_item_at(10, 10, false), Some(above));
    assert_ne!(above, below);
    // a point outside every item finds nothing when the root is excluded
    assert_eq!(stage.get_front_item_at(-5000, -5000, false), None);
}

#[test]
fn hit_test_sees_through_transforms() {
    // the rectangle is 100 by 100 at (300, 200); its centroid lies within
    let (stage, item) = stage_with_rect(300, 200, 100, 100);
    assert_eq!(stage.get_front_item_at(350, 250, false), Some(item));
    assert_eq!(stage.get_front_item_at(299, 250, false), None);
}
