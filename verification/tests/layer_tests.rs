use tilemap_editor::layers::{active_layer_name, layer_bar_text, pad_layer_metas, rename_active_layer, toggle_layer_flag, LayerFlag, LayerMeta};

fn meta(name: &str) -> LayerMeta {
    LayerMeta { name: name.to_string(), visible: true, locked: false }
}

#[test]
fn layer_bar_without_map() {
    let mut active = 3;
    let t = layer_bar_text(&mut active, None, &vec![meta("a")]);
    assert_eq!((t.label.as_str(), t.visibility.as_str(), t.lock.as_str()), ("-/-", "-", "-"));
    assert_eq!(active, 3);
}

#[test]
fn layer_bar_clamps_and_marks() {
    let mut metas = vec![meta("Ground"), meta("Upper")];
    let mut active = 5;
    let t = layer_bar_text(&mut active, Some(2), &metas);
    assert_eq!(active, 1);
    assert_eq!(t.label, "2/2 Upper");
    assert_eq!((t.visibility.as_str(), t.lock.as_str()), ("显", "解"));
    toggle_layer_flag(&mut metas, &mut active, 2, LayerFlag::Visible);
    toggle_layer_flag(&mut metas, &mut active, 2, LayerFlag::Locked);
    let t = layer_bar_text(&mut active, Some(2), &metas);
    assert_eq!(t.label, "2/2 Upper 隐藏 锁定");
    assert_eq!((t.visibility.as_str(), t.lock.as_str()), ("隐", "锁"));
    toggle_layer_flag(&mut metas, &mut active, 2, LayerFlag::Visible);
    assert!(metas[1].visible && metas[1].locked && metas[0].visible && !metas[0].locked);
}

#[test]
fn layer_bar_defaults_without_metadata() {
    let mut active = 0;
    let t = layer_bar_text(&mut active, Some(0), &Vec::new());
    assert_eq!(t.label, "1/1 Layer");
    let mut metas: Vec<LayerMeta> = Vec::new();
    toggle_layer_flag(&mut metas, &mut active, 3, LayerFlag::Locked);
    assert!(metas.is_empty());
    assert_eq!(active_layer_name(9, 3, &metas), "Layer");
}

#[test]
fn rename_layers() {
    let mut metas = vec![meta("Ground"), meta("Upper")];
    rename_active_layer(&mut metas, 1, 2, "  Roof  ");
    assert_eq!(metas[1].name, "Roof");
    rename_active_layer(&mut metas, 7, 2, "   ");
    assert_eq!(metas[1].name, "Layer 2");
    assert_eq!(active_layer_name(0, 2, &metas), "Ground");
    assert_eq!(active_layer_name(4, 2, &metas), "Layer 2");
}

#[test]
fn pad_keeps_and_fills() {
    let mut metas = vec![meta("Ground")];
    pad_layer_metas(&mut metas, 3);
    assert_eq!(metas.len(), 3);
    assert_eq!(metas[0].name, "Ground");
    assert_eq!((metas[1].name.as_str(), metas[1].visible, metas[1].locked), ("Layer 2", true, false));
    assert_eq!(metas[2].name, "Layer 3");
    pad_layer_metas(&mut metas, 1);
    assert_eq!(metas.len(), 3);
}
