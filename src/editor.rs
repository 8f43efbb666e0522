//! Editor-side values that carry resources: the texture property editor's
//! messages, builder and value conversion, and the path editor's message and
//! builder. The widgets themselves live with the user interface.
use vstd::prelude::*;
use crate::manager::{Resource, ResourceManagerState, UntypedResource};
use crate::path::same_text;
use crate::state::ResourceState;

verus! {

/// A message of the texture editor: the texture it shows, if any.
#[derive(Clone, Copy, Debug, PartialEq, Eq, Structural)]
pub enum TextureEditorMessage {
    Texture(Option<Resource>),
}

/// Builds a texture editor.
#[derive(Clone, Copy, Debug, PartialEq, Eq, Structural)]
pub struct TextureEditorBuilder {
    pub texture: Option<Resource>,
}

impl TextureEditorBuilder {
    /// A builder that shows no texture.
    pub fn new() -> (r: Self)
        ensures
            r.texture is None,
    {
        TextureEditorBuilder { texture: None }
    }

    /// Sets the texture to show.
    pub fn with_texture(self, texture: Option<Resource>) -> (r: Self)
        ensures
            r.texture == texture,
    {
        TextureEditorBuilder { texture }
    }
}

/// The value of an inspected texture property: a handle without a type, or one
/// typed as a texture.
#[derive(Clone, Copy, Debug, PartialEq, Eq, Structural)]
pub enum TextureField {
    Untyped(Option<UntypedResource>),
    Typed(Option<Resource>),
}

/// The property does not hold the kind of value the editor was made for.
#[derive(Clone, Copy, Debug, PartialEq, Eq, Structural)]
pub enum InspectorError {
    CastError,
}

/// Makes texture editors for properties that hold a texture, either as an
/// untyped handle or as a typed one.
#[derive(Clone, Copy, Debug, PartialEq, Eq, Structural)]
pub struct TexturePropertyEditorDefinition {
    pub untyped: bool,
    /// The type UUID of texture data.
    pub texture_type: u128,
}

impl TexturePropertyEditorDefinition {
    /// The texture a property holds. For untyped properties the handle is cast:
    /// it is a texture only when loaded with texture data. A property of the other
    /// kind is an error.
    pub fn value(&self, state: &ResourceManagerState, field: &TextureField) -> (r: Result<Option<Resource>, InspectorError>)
        requires
            *field matches TextureField::Untyped(Some(h)) ==> state.valid(h),
        ensures
            match (self.untyped, *field) {
                (true, TextureField::Untyped(None)) => r == Ok::<Option<Resource>, InspectorError>(None),
                (true, TextureField::Untyped(Some(h))) => r == Ok::<Option<Resource>, InspectorError>(
                    if state.state_of(h) matches ResourceState::Ready { data, .. } && data.type_uuid == self.texture_type {
                        Some(Resource { untyped: h, type_uuid: self.texture_type })
                    } else {
                        None
                    },
                ),
                (false, TextureField::Typed(t)) => r == Ok::<Option<Resource>, InspectorError>(t),
                _ => r == Err::<Option<Resource>, InspectorError>(InspectorError::CastError),
            },
    {
        match (self.untyped, field) {
            (true, TextureField::Untyped(None)) => Ok(None),
            (true, TextureField::Untyped(Some(h))) => Ok(state.try_cast(*h, self.texture_type)),
            (false, TextureField::Typed(t)) => Ok(*t),
            _ => Err(InspectorError::CastError),
        }
    }
}

/// A message of the path editor: the path it shows.
#[derive(Debug)]
pub enum PathEditorMessage {
    Path(String),
}

/// Builds a path editor.
#[derive(Debug)]
pub struct PathEditorBuilder {
    pub path: String,
}

impl PathEditorBuilder {
    /// A builder with an empty path.
    pub fn new() -> (r: Self)
        ensures
            r.path@ == Seq::<char>::empty(),
    {
        PathEditorBuilder { path: String::new() }
    }

    /// Sets the path to show.
    pub fn with_path(self, path: &str) -> (r: Self)
        ensures
            r.path@ == path@,
    {
        PathEditorBuilder { path: path.to_owned() }
    }

    /// Builds the editor, showing the builder's path.
    pub fn build(self) -> (r: PathEditor)
        ensures
            r.path@ == self.path@,
            r.text@ == self.path@,
    {
        let text = self.path.clone();
        PathEditor { path: self.path, text }
    }
}

/// The state of a path editor: the current path and the text its field shows.
#[derive(Debug)]
pub struct PathEditor {
    pub path: String,
    pub text: String,
}

impl PathEditor {
    /// Handles a request to show `path`: a different path replaces the current
    /// one and the field's text, and the change is to be announced (true); the
    /// same path changes nothing (false).
    pub fn set_path(&mut self, path: &str) -> (r: bool)
        ensures
            r == (old(self).path@ != path@),
            r ==> final(self).path@ == path@ && final(self).text@ == path@,
            !r ==> final(self).path@ == old(self).path@ && final(self).text@ == old(self).text@,
    {
        if same_text(self.path.as_str(), path) {
            false
        } else {
            self.path = path.to_owned();
            self.text = path.to_owned();
            true
        }
    }
}

/// How a particle system moves its particles.
#[derive(Clone, Copy, Debug, PartialEq, Eq, Structural)]
pub enum CoordinateSystem {
    /// Particles move with the particle system.
    Local,
    /// Particles are spawned with the system's world transform and then move on
    /// their own.
    World,
}

impl Default for CoordinateSystem {
    fn default() -> (r: Self)
        ensures
            r == CoordinateSystem::Local,
    {
        CoordinateSystem::Local
    }
}

} // verus!
