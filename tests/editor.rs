use fyrox_resource::builtin::{BuiltInResource, DataSource, UntypedBuiltInResource};
use fyrox_resource::editor::{
    CoordinateSystem, InspectorError, PathEditorBuilder, PathEditorMessage, TextureEditorBuilder,
    TextureEditorMessage, TextureField, TexturePropertyEditorDefinition,
};
use fyrox_resource::manager::{Resource, ResourceManagerState};
use fyrox_resource::state::{ResourceData, ResourceKind};

const TEXTURE: u128 = 0x02c2_3a44;

fn texture_data() -> ResourceData {
    ResourceData { type_uuid: TEXTURE, can_be_saved: true, bytes: vec![1, 2, 3] }
}

#[test]
fn texture_builder() {
    let mut state = ResourceManagerState::new();
    let h = state.new_ok(11, ResourceKind::Embedded, texture_data());
    let t = Resource { untyped: h, type_uuid: TEXTURE };
    assert_eq!(TextureEditorBuilder::new().texture, None);
    assert_eq!(TextureEditorBuilder::new().with_texture(Some(t)).texture, Some(t));
    let m = TextureEditorMessage::Texture(Some(t));
    assert_eq!(m, TextureEditorMessage::Texture(Some(t)));
}

#[test]
fn texture_property_value() {
    let mut state = ResourceManagerState::new();
    let tex = state.new_ok(11, ResourceKind::Embedded, texture_data());
    let other = state.new_ok(12, ResourceKind::Embedded, ResourceData { type_uuid: 5, can_be_saved: false, bytes: vec![] });
    let untyped = TexturePropertyEditorDefinition { untyped: true, texture_type: TEXTURE };
    let typed = TexturePropertyEditorDefinition { untyped: false, texture_type: TEXTURE };
    assert_eq!(
        untyped.value(&state, &TextureField::Untyped(Some(tex))),
        Ok(Some(Resource { untyped: tex, type_uuid: TEXTURE }))
    );
    assert_eq!(untyped.value(&state, &TextureField::Untyped(Some(other))), Ok(None));
    assert_eq!(untyped.value(&state, &TextureField::Untyped(None)), Ok(None));
    let t = Resource { untyped: tex, type_uuid: TEXTURE };
    assert_eq!(typed.value(&state, &TextureField::Typed(Some(t))), Ok(Some(t)));
    assert_eq!(typed.value(&state, &TextureField::Untyped(None)), Err(InspectorError::CastError));
}

#[test]
fn path_editor_builder() {
    assert_eq!(PathEditorBuilder::new().path, "");
    assert_eq!(PathEditorBuilder::new().with_path("a/b.txt").path, "a/b.txt");
    let PathEditorMessage::Path(p) = PathEditorMessage::Path("x".to_string());
    assert_eq!(p, "x");
}

#[test]
fn coordinate_system_default() {
    assert_eq!(CoordinateSystem::default(), CoordinateSystem::Local);
}

#[test]
fn built_in_resources_win() {
    let mut state = ResourceManagerState::new();
    let h = state.new_ok(21, ResourceKind::Embedded, texture_data());
    let source = DataSource::new("shaders/standard.shader", b"code");
    assert_eq!(source.extension, "shader");
    assert_eq!(source.bytes, b"code".to_vec());
    let built_in = BuiltInResource::new("Standard", source, |_| Resource { untyped: h, type_uuid: TEXTURE });
    assert_eq!(built_in.resource().untyped, h);
    state.add_built_in(built_in);
    assert_eq!(state.request("Standard"), h);
    assert_eq!(state.request_by_uuid(21), h);
    assert!(state.is_empty());

    let plain = BuiltInResource::new_no_source("Other", Resource { untyped: h, type_uuid: TEXTURE });
    assert!(plain.data_source.is_none());
    let untyped = UntypedBuiltInResource::from(plain);
    assert_eq!(untyped.resource, h);
    assert_eq!(DataSource::new("noext", b"").extension, "");
}

#[test]
fn path_test_deletion() {
    let editor = PathEditorBuilder::new().build();
    assert_eq!(editor.path, "");
    assert_eq!(editor.text, "");
    drop(editor);
}

#[test]
fn path_editor_set_path() {
    let mut editor = PathEditorBuilder::new().with_path("a.txt").build();
    assert!(!editor.set_path("a.txt"));
    assert!(editor.set_path("b.txt"));
    assert_eq!(editor.path, "b.txt");
    assert_eq!(editor.text, "b.txt");
}
