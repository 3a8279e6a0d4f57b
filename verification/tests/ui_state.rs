use voxel_engine::ui_logic::{
    handle_button_interaction, update_ui_state, AppState, ButtonInteraction, ButtonShade,
    ChunkManager, EditorView, RENDER_DISTANCE,
};

#[test]
fn pressing_a_tab_switches_view() {
    let mut s = AppState::new();
    assert_eq!(s.active_view, EditorView::Scene);
    let shade = handle_button_interaction(&mut s, ButtonInteraction::Pressed, Some(EditorView::Code));
    assert_eq!(shade, ButtonShade::Accent);
    assert_eq!(s.active_view, EditorView::Code);
    let shade = handle_button_interaction(&mut s, ButtonInteraction::Hovered, Some(EditorView::Scene));
    assert_eq!(shade, ButtonShade::Hover);
    assert_eq!(s.active_view, EditorView::Code);
    let shade = handle_button_interaction(&mut s, ButtonInteraction::Idle, Some(EditorView::Scene));
    assert_eq!(shade, ButtonShade::Clear);
    assert_eq!(s.active_view, EditorView::Code);
    let shade = handle_button_interaction(&mut s, ButtonInteraction::Pressed, None);
    assert_eq!(shade, ButtonShade::Accent);
    assert_eq!(s.active_view, EditorView::Code);
}

#[test]
fn only_the_active_view_is_shown() {
    let s = AppState { active_view: EditorView::System };
    assert!(update_ui_state(&s, EditorView::System));
    assert!(!update_ui_state(&s, EditorView::Scene));
    assert!(!update_ui_state(&s, EditorView::Code));
}

#[test]
fn editor_chunks_load_and_unload() {
    assert_eq!(RENDER_DISTANCE, 4);
    let mut m = ChunkManager::new();
    let plan = m.manage_chunks(0, 0);
    assert_eq!(plan.load.len(), 49);
    assert!(plan.despawn.is_empty());
    for (i, p) in plan.load.iter().enumerate() {
        m.record_loaded(*p, i as u64);
    }
    assert!(m.manage_chunks(0, 0).load.is_empty());
    let plan = m.manage_chunks(1, 0);
    assert_eq!(plan.despawn.len(), 9);
    assert_eq!(plan.load.len(), 9);
    assert!(plan.load.iter().all(|p| p.0 >= 1));
    assert_eq!(m.loaded_chunks.len(), 40);
    assert!(m.is_loaded((-3, 0, 0)));
    assert!(!m.is_loaded((-4, 0, 0)));
}
