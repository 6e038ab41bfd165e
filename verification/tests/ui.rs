use omm::{UiBuilder, UiElement, UiPlugin};

#[test]
fn ui_element_marker_constructs() {
    let _elem = UiElement;
}

#[test]
fn ui_builder_constructs() {
    let _a = UiBuilder::new();
    let _b = UiBuilder;
}

#[test]
fn ui_plugin_constructs() {
    let _p = UiPlugin;
}
