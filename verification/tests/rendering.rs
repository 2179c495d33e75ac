use pyramus::base::{Base, BaseItem};
use pyramus::builder::ItemBuilder;
use pyramus::command::BackendCommand;
use pyramus::item::build_svg_rect;
use pyramus::scene::{Blueprint, Prop};
use pyramus::stage::Stage;
use pyramus::transform::RelativeTransform;

fn prop_stage() -> Stage {
    let prop = Prop::new("Test".to_string(), 800, 600).unwrap();
    Stage::new(Base::new(BaseItem::Prop(prop)))
}

#[test]
fn render_is_deterministic() {
    let mut stage = prop_stage();
    let root = stage.base.get_root();
    stage
        .process_command(BackendCommand::CreateItem {
            new_item: ItemBuilder::build_text_basic("hello".to_string())
                .parent(root)
                .transform(RelativeTransform::new(10, 20, 1500, 1000, 30)),
        })
        .unwrap();
    let a = stage.render_string().unwrap();
    let b = stage.render_string().unwrap();
    assert_eq!(a, b);
    assert!(a.starts_with("<svg xmlns=\"http://www.w3.org/2000/svg\" width=\"800\" height=\"600\" viewBox=\"0 0 800 600\">"));
    assert!(a.ends_with("</svg>"));
    assert!(a.contains("translate(10 20) rotate(30) scale(1.500 1.000)"));
}

#[test]
fn selecting_appends_exactly_one_outline_group() {
    let mut stage = prop_stage();
    let root = stage.base.get_root();
    stage
        .process_command(BackendCommand::CreateItem {
            new_item: ItemBuilder::build_image_from_rect(100, 50, "red", None, 1000).parent(root),
        })
        .unwrap();
    let id = stage.selection[0];
    stage.process_command(BackendCommand::SetSelection(vec![])).unwrap();
    let plain = stage.render_string().unwrap();
    stage.process_command(BackendCommand::SetSelection(vec![id])).unwrap();
    let selected = stage.render_string().unwrap();
    // the selected rendering is the plain one with one outline group put in
    // before the closing tag
    let plain_prefix = &plain[..plain.len() - "</svg>".len()];
    assert!(selected.starts_with(plain_prefix));
    assert!(selected.ends_with("</svg>"));
    let outline = &selected[plain_prefix.len()..selected.len() - "</svg>".len()];
    assert!(outline.starts_with("<g transform=\""));
    assert!(outline.ends_with("/></g>"));
    // the outline rectangle is the local bounds grown by 20 on every side
    assert!(outline.contains("<rect x=\"-20\" y=\"-20\" width=\"140\" height=\"90\""));
    assert!(outline.contains("fill=\"#0000ff\" fill-opacity=\"0.5\" stroke=\"#0000ff\" stroke-width=\"20\""));
}

#[test]
fn text_lowering_carries_font_and_color() {
    let mut stage = prop_stage();
    let root = stage.base.get_root();
    stage
        .process_command(BackendCommand::CreateItem {
            new_item: ItemBuilder::build_text(
                "a < b & c".to_string(),
                "Times New Roman".to_string(),
                24,
                (255, 128, 0),
                true,
            )
            .parent(root),
        })
        .unwrap();
    let svg = stage.render_string().unwrap();
    assert!(svg.contains("font-family=\"Times New Roman\""));
    assert!(svg.contains("font-size=\"24\""));
    assert!(svg.contains("font-style=\"italic\""));
    assert!(svg.contains("font-weight=\"12\""));
    assert!(svg.contains("fill=\"#ff8000\""));
    assert!(svg.contains(">a &lt; b &amp; c</text>"));
}

#[test]
fn rect_helper_emits_the_documented_document() {
    let plain = build_svg_rect(300, 200, "blue", None, 500);
    assert_eq!(
        plain,
        "<svg width=\"300\" height=\"200\" xmlns=\"http://www.w3.org/2000/svg\">\
         <rect x=\"0\" y=\"0\" width=\"300\" height=\"200\" fill=\"blue\" fill-opacity=\"0.500\"/></svg>"
    );
    let stroked = build_svg_rect(10, 10, "red", Some(2), 1000);
    assert!(stroked.contains("stroke=\"red\" stroke-width=\"2\" fill=\"red\" fill-opacity=\"1.000\""));
}

#[test]
fn rendered_svg_parses_back_as_svg() {
    let mut stage = prop_stage();
    let root = stage.base.get_root();
    stage
        .process_command(BackendCommand::CreateItem {
            new_item: ItemBuilder::build_image_from_rect(40, 30, "green", Some(3), 250)
                .parent(root)
                .transform(RelativeTransform::new(5, 6, 2000, 1000, 15)),
        })
        .unwrap();
    let svg = stage.render_string().unwrap();
    let tree = usvg::Tree::from_str(&svg, &usvg::Options::default()).expect("well-formed SVG");
    assert_eq!(tree.size().width() as u32, 800);
    assert_eq!(tree.size().height() as u32, 600);
}

#[test]
fn blueprint_renders_nested_props() {
    let bp = Blueprint::new("BP".to_string(), 640, 480).unwrap();
    let mut stage = Stage::new(Base::new(BaseItem::Blueprint(bp)));
    let root = stage.base.get_root();
    stage
        .process_command(BackendCommand::CreateItem {
            new_item: ItemBuilder::build_empty_prop(100, 80).parent(root),
        })
        .unwrap();
    let svg = stage.render_string().unwrap();
    assert!(svg.starts_with("<svg xmlns=\"http://www.w3.org/2000/svg\" width=\"640\" height=\"480\""));
    // the outer prop group nests the inner template's background image
    assert!(svg.contains("<image width=\"100\" height=\"80\""));
    let again = stage.render_string().unwrap();
    assert_eq!(svg, again);
}
