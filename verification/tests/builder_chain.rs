//! The fluent builder's command trace.

use forma_ui::AlertType;
use forma_ui::ButtonVariant;
use forma_ui::InputType;
use forma_ui::SelectOption;
use forma_ui::TextLevel;
use forma_ui::UiBuilder;
use forma_ui::UiCommand;
use forma_ui::json::parse_options;

#[test]
fn new_col_opens_a_column() {
    let plan = UiBuilder::new_col().render_into("#app");
    assert_eq!(plan.selector, "#app");
    assert_eq!(plan.commands.len(), 1);
    assert!(matches!(plan.commands[0], UiCommand::OpenCol));
}

#[test]
fn new_row_opens_a_row() {
    let plan = UiBuilder::new_row().render_into("body");
    assert_eq!(plan.selector, "body");
    assert_eq!(plan.commands.len(), 1);
    assert!(matches!(plan.commands[0], UiCommand::OpenRow));
}

#[test]
fn each_call_appends_one_command() {
    let plan = UiBuilder::new_col()
        .col()
        .end_col()
        .row()
        .end_row()
        .separator()
        .render_into("#root");
    assert_eq!(plan.commands.len(), 6);
    assert!(matches!(plan.commands[0], UiCommand::OpenCol));
    assert!(matches!(plan.commands[1], UiCommand::OpenCol));
    assert!(matches!(plan.commands[2], UiCommand::CloseCol));
    assert!(matches!(plan.commands[3], UiCommand::OpenRow));
    assert!(matches!(plan.commands[4], UiCommand::CloseRow));
    assert!(matches!(plan.commands[5], UiCommand::Separator));
}

#[test]
fn button_records_normalized_arguments() {
    let plan = UiBuilder::new_row()
        .button("Go", false, ButtonVariant::Solid, Some(7))
        .render_into("#app");
    match &plan.commands[1] {
        UiCommand::Button { label, disabled, variant, on_click } => {
            assert_eq!(label.as_str(), "Go");
            assert!(!*disabled);
            assert_eq!(variant.as_str(), "solid");
            assert_eq!(*on_click, Some(7));
        }
        other => panic!("expected a button command, got {:?}", command_name(other)),
    }
}

#[test]
fn input_records_normalized_arguments() {
    let plan = UiBuilder::new_col()
        .input(InputType::Color, "", "#4a90d9", false, Some(3))
        .render_into("#app");
    match &plan.commands[1] {
        UiCommand::Input { input_type, placeholder, value, disabled, on_change } => {
            assert_eq!(input_type.as_str(), "color");
            assert_eq!(placeholder.as_str(), "");
            assert_eq!(value.as_str(), "#4a90d9");
            assert!(!*disabled);
            assert_eq!(*on_change, Some(3));
        }
        other => panic!("expected an input command, got {:?}", command_name(other)),
    }
}

#[test]
fn disabled_leaf_without_callback_records_no_handler() {
    let plan = UiBuilder::new_col()
        .input(InputType::Text, "", "This input is disabled", true, None)
        .button("Submit", true, ButtonVariant::Solid, None)
        .checkbox("I agree", false, true, None)
        .select(&[], "", "", true, None)
        .render_into("#app");
    match &plan.commands[1] {
        UiCommand::Input { disabled, on_change, .. } => {
            assert!(*disabled);
            assert_eq!(*on_change, None);
        }
        _ => panic!("expected an input command"),
    }
    match &plan.commands[2] {
        UiCommand::Button { disabled, on_click, .. } => {
            assert!(*disabled);
            assert_eq!(*on_click, None);
        }
        _ => panic!("expected a button command"),
    }
    match &plan.commands[3] {
        UiCommand::Checkbox { disabled, on_change, .. } => {
            assert!(*disabled);
            assert_eq!(*on_change, None);
        }
        _ => panic!("expected a checkbox command"),
    }
    match &plan.commands[4] {
        UiCommand::Select { disabled, on_change, .. } => {
            assert!(*disabled);
            assert_eq!(*on_change, None);
        }
        _ => panic!("expected a select command"),
    }
}

#[test]
fn handler_handles_pass_through_in_order() {
    let plan = UiBuilder::new_row()
        .button("a", false, ButtonVariant::Flat, Some(1))
        .button("b", false, ButtonVariant::Flat, Some(2))
        .button("c", false, ButtonVariant::Flat, Some(3))
        .render_into("#app");
    let handles: Vec<Option<u64>> = plan.commands[1..4]
        .iter()
        .map(|c| match c {
            UiCommand::Button { on_click, .. } => *on_click,
            _ => panic!("expected a button command"),
        })
        .collect();
    assert_eq!(handles, vec![Some(1), Some(2), Some(3)]);
}

fn command_name(c: &UiCommand) -> &'static str {
    match c {
        UiCommand::OpenCol => "open col",
        UiCommand::CloseCol => "close col",
        UiCommand::OpenRow => "open row",
        UiCommand::CloseRow => "close row",
        UiCommand::Button { .. } => "button",
        UiCommand::Input { .. } => "input",
        UiCommand::Text { .. } => "text",
        UiCommand::Alert { .. } => "alert",
        UiCommand::Image { .. } => "image",
        UiCommand::Checkbox { .. } => "checkbox",
        UiCommand::Select { .. } => "select",
        UiCommand::Separator => "separator",
    }
}

fn row_button_segment(commands: &[UiCommand], start: usize) {
    assert!(matches!(commands[start], UiCommand::OpenRow));
    match &commands[start + 1] {
        UiCommand::Button { label, disabled, variant, on_click } => {
            assert_eq!(label.as_str(), "Go");
            assert!(!*disabled);
            assert_eq!(variant.as_str(), "solid");
            assert_eq!(*on_click, None);
        }
        _ => panic!("expected a button command"),
    }
    assert!(matches!(commands[start + 2], UiCommand::CloseRow));
}

#[test]
fn chain_contributes_its_own_segment_regardless_of_neighbors() {
    // The same row/button/end-row chain, with nothing, little, and much
    // chained around it: the trace always holds exactly that segment.
    let bare = UiBuilder::new_col()
        .row()
        .button("Go", false, ButtonVariant::Solid, None)
        .end_row()
        .render_into("#app");
    assert_eq!(bare.commands.len(), 4);
    row_button_segment(&bare.commands, 1);

    let framed = UiBuilder::new_col()
        .p("before", TextLevel::P)
        .separator()
        .row()
        .button("Go", false, ButtonVariant::Solid, None)
        .end_row()
        .separator()
        .p("after", TextLevel::P)
        .end_col()
        .render_into("#app");
    assert_eq!(framed.commands.len(), 9);
    row_button_segment(&framed.commands, 3);
    let rows = framed
        .commands
        .iter()
        .filter(|c| matches!(c, UiCommand::OpenRow))
        .count();
    let buttons = framed
        .commands
        .iter()
        .filter(|c| matches!(c, UiCommand::Button { .. }))
        .count();
    assert_eq!(rows, 1);
    assert_eq!(buttons, 1);
}

#[test]
fn structured_and_textual_select_meet_in_one_command() {
    let structured = vec![
        SelectOption::new("sans", "Sans-serif"),
        SelectOption::new("serif", "Serif"),
        SelectOption::new("mono", "Monospace"),
    ];
    let textual = parse_options(
        r#"[{"value":"sans","label":"Sans-serif"},{"value":"serif","label":"Serif"},{"value":"mono","label":"Monospace"}]"#,
    )
    .unwrap();
    let a = UiBuilder::new_col()
        .select(&structured, "sans", "Choose a font...", false, Some(9))
        .render_into("#app");
    let b = UiBuilder::new_col()
        .select(&textual, "sans", "Choose a font...", false, Some(9))
        .render_into("#app");
    match (&a.commands[1], &b.commands[1]) {
        (
            UiCommand::Select { options: oa, value: va, placeholder: pa, disabled: da, on_change: ca },
            UiCommand::Select { options: ob, value: vb, placeholder: pb, disabled: db, on_change: cb },
        ) => {
            assert_eq!(oa.len(), ob.len());
            for k in 0..oa.len() {
                assert_eq!(oa[k].value, ob[k].value);
                assert_eq!(oa[k].label, ob[k].label);
            }
            assert_eq!(va, vb);
            assert_eq!(pa, pb);
            assert_eq!(da, db);
            assert_eq!(ca, cb);
        }
        _ => panic!("expected select commands"),
    }
}

#[test]
fn full_scenario_trace_and_mount() {
    // column -> [h1 "Title", row -> [button "Go" (enabled, solid)],
    // separator, alert("msg", info, "")], mounted at "#app".
    let plan = UiBuilder::new_col()
        .p("Title", TextLevel::H1)
        .row()
        .button("Go", false, ButtonVariant::Solid, None)
        .end_row()
        .separator()
        .alert("msg", AlertType::Info, "")
        .end_col()
        .render_into("#app");
    assert_eq!(plan.selector, "#app");
    assert_eq!(plan.commands.len(), 8);
    assert!(matches!(plan.commands[0], UiCommand::OpenCol));
    match &plan.commands[1] {
        UiCommand::Text { text, level } => {
            assert_eq!(text.as_str(), "Title");
            assert_eq!(level.as_str(), "h1");
        }
        _ => panic!("expected a text command"),
    }
    row_button_segment(&plan.commands, 2);
    assert!(matches!(plan.commands[5], UiCommand::Separator));
    match &plan.commands[6] {
        UiCommand::Alert { text, alert_type, title } => {
            assert_eq!(text.as_str(), "msg");
            assert_eq!(alert_type.as_str(), "info");
            assert_eq!(title.as_str(), "");
        }
        _ => panic!("expected an alert command"),
    }
    assert!(matches!(plan.commands[7], UiCommand::CloseCol));
}

#[test]
fn image_and_text_record_their_arguments() {
    let plan = UiBuilder::new_col()
        .img("https://example.test/x.png", "Placeholder image")
        .p("Hello", TextLevel::Code)
        .render_into("#app");
    match &plan.commands[1] {
        UiCommand::Image { src, alt } => {
            assert_eq!(src.as_str(), "https://example.test/x.png");
            assert_eq!(alt.as_str(), "Placeholder image");
        }
        _ => panic!("expected an image command"),
    }
    match &plan.commands[2] {
        UiCommand::Text { text, level } => {
            assert_eq!(text.as_str(), "Hello");
            assert_eq!(level.as_str(), "code");
        }
        _ => panic!("expected a text command"),
    }
}

#[test]
fn checkbox_records_its_arguments() {
    let plan = UiBuilder::new_col()
        .checkbox("I agree to the terms", true, false, Some(11))
        .render_into("#app");
    match &plan.commands[1] {
        UiCommand::Checkbox { label, checked, disabled, on_change } => {
            assert_eq!(label.as_str(), "I agree to the terms");
            assert!(*checked);
            assert!(!*disabled);
            assert_eq!(*on_change, Some(11));
        }
        _ => panic!("expected a checkbox command"),
    }
}
