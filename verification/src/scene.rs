use crate::registry::HandleRegistry;
use crate::status::XvStatus;
use vstd::prelude::*;

verus! {

/// A scene handle holds either a mutable builder or a compiled snapshot.
pub enum SceneSlot<B, S> {
    /// The scene is still being assembled.
    Building(B),
    /// The scene was compiled and can be queried.
    Ready(S),
}

/// The compiled scene behind a handle: `InvalidState` while the scene is
/// still being built, `InvalidHandle` when the handle is not live.
pub fn get_ready_scene<B, S>(registry: &HandleRegistry<SceneSlot<B, S>>, handle: u64) -> (scene:
    Result<&S, XvStatus>)
    ensures
        match scene {
            Ok(s) => registry.entries().contains_key(handle) && registry.entries()[handle]
                == SceneSlot::<B, S>::Ready(*s),
            Err(status) => if !registry.entries().contains_key(handle) {
                status == XvStatus::InvalidHandle
            } else {
                registry.entries()[handle] is Building && status == XvStatus::InvalidState
            },
        },
{
    match registry.get(handle) {
        Ok(SceneSlot::Ready(scene)) => Ok(scene),
        Ok(SceneSlot::Building(_)) => Err(XvStatus::InvalidState),
        Err(status) => Err(status),
    }
}

/// Takes the builder out of a building scene, leaving the handle unbound
/// until the compiled scene is stored under it. A compiled scene is left in
/// place and reported as `InvalidState`; a handle that is not live as
/// `InvalidHandle`.
pub fn take_builder<B, S>(registry: &mut HandleRegistry<SceneSlot<B, S>>, handle: u64) -> (builder:
    Result<B, XvStatus>)
    ensures
        final(registry).next() == old(registry).next(),
        old(registry).wf() ==> final(registry).wf(),
        match builder {
            Ok(b) => {
                &&& old(registry).entries().contains_key(handle)
                &&& old(registry).entries()[handle] == SceneSlot::<B, S>::Building(b)
                &&& final(registry).entries() == old(registry).entries().remove(handle)
            },
            Err(status) => {
                &&& final(registry).entries() == old(registry).entries()
                &&& if !old(registry).entries().contains_key(handle) {
                    status == XvStatus::InvalidHandle
                } else {
                    old(registry).entries()[handle] is Ready && status == XvStatus::InvalidState
                }
            },
        },
{
    let building = match registry.get(handle) {
        Ok(SceneSlot::Ready(_)) => false,
        Ok(SceneSlot::Building(_)) => true,
        Err(status) => {
            return Err(status);
        },
    };
    if !building {
        return Err(XvStatus::InvalidState);
    }
    match registry.take(handle) {
        Ok(SceneSlot::Building(builder)) => Ok(builder),
        Ok(SceneSlot::Ready(_)) => {
            assert(false);
            Err(XvStatus::InvalidState)
        },
        Err(status) => Err(status),
    }
}

/// Acceleration layer of a scene instance.
#[derive(Clone, Copy, Debug, PartialEq, Eq, Structural)]
pub enum SceneLayer {
    /// Rarely moving geometry.
    Static,
    /// Geometry refitted on every update.
    Dynamic,
}

/// The layer named by its stable code: zero static, one dynamic.
pub fn scene_layer(value: u32) -> (layer: Result<SceneLayer, XvStatus>)
    ensures
        layer == if value == 0 {
            Ok::<SceneLayer, XvStatus>(SceneLayer::Static)
        } else if value == 1 {
            Ok(SceneLayer::Dynamic)
        } else {
            Err(XvStatus::InvalidArgument)
        },
{
    match value {
        0 => Ok(SceneLayer::Static),
        1 => Ok(SceneLayer::Dynamic),
        _ => Err(XvStatus::InvalidArgument),
    }
}

/// Instance-delta flag: replace the transform.
pub const UPDATE_TRANSFORM: u32 = 1;

/// Instance-delta flag: replace the object identifier.
pub const UPDATE_OBJECT: u32 = 2;

/// Instance-delta flag: replace the category mask.
pub const UPDATE_CATEGORY: u32 = 4;

/// Instance-delta flag: move to another layer.
pub const UPDATE_LAYER: u32 = 8;

/// What an instance-delta record asks for.
#[derive(Clone, Copy, Debug, PartialEq, Eq, Structural)]
pub enum DeltaKind {
    /// Update selected properties of an existing instance.
    Update {
        /// The transform is replaced.
        transform: bool,
        /// The object identifier is replaced.
        object: bool,
        /// The category mask is replaced.
        category: bool,
        /// The instance moves to this layer.
        layer: Option<SceneLayer>,
    },
    /// Add a new instance on a layer.
    Add {
        /// Layer of the new instance.
        layer: SceneLayer,
    },
    /// Remove an instance.
    Remove,
}

/// The layer a code names, if any.
pub open spec fn layer_of(value: u32) -> Option<SceneLayer> {
    if value == 0 {
        Some(SceneLayer::Static)
    } else if value == 1 {
        Some(SceneLayer::Dynamic)
    } else {
        None
    }
}

/// Validates the integer fields of an instance-delta record: its declared
/// size, its update flags, its operation (zero update, one add, two
/// remove; add and remove take no flags) and its layer code where one is
/// used. Every violation is `InvalidArgument`.
pub fn classify_instance_delta(
    structure_size: u32,
    expected_size: u32,
    flags: u32,
    operation: u32,
    layer: u32,
) -> (kind: Result<DeltaKind, XvStatus>)
    ensures
        kind == if structure_size != expected_size || flags >= 16 {
            Err::<DeltaKind, XvStatus>(XvStatus::InvalidArgument)
        } else if operation == 0 {
            if flags & UPDATE_LAYER != 0 && layer_of(layer) is None {
                Err(XvStatus::InvalidArgument)
            } else {
                Ok(
                    DeltaKind::Update {
                        transform: flags & UPDATE_TRANSFORM != 0,
                        object: flags & UPDATE_OBJECT != 0,
                        category: flags & UPDATE_CATEGORY != 0,
                        layer: if flags & UPDATE_LAYER != 0 {
                            layer_of(layer)
                        } else {
                            None
                        },
                    },
                )
            }
        } else if operation == 1 && flags == 0 {
            match layer_of(layer) {
                Some(l) => Ok(DeltaKind::Add { layer: l }),
                None => Err(XvStatus::InvalidArgument),
            }
        } else if operation == 2 && flags == 0 {
            Ok(DeltaKind::Remove)
        } else {
            Err(XvStatus::InvalidArgument)
        },
{
    let all = UPDATE_TRANSFORM | UPDATE_OBJECT | UPDATE_CATEGORY | UPDATE_LAYER;
    proof {
        assert(1u32 | 2u32 | 4u32 | 8u32 == 15u32) by (bit_vector);
        assert(flags & !15u32 != 0 <==> flags >= 16) by (bit_vector);
    }
    if structure_size != expected_size || flags & !all != 0 {
        return Err(XvStatus::InvalidArgument);
    }
    if operation == 0 {
        let moved = if flags & UPDATE_LAYER != 0 {
            match scene_layer(layer) {
                Ok(l) => Some(l),
                Err(status) => {
                    return Err(status);
                },
            }
        } else {
            None
        };
        Ok(
            DeltaKind::Update {
                transform: flags & UPDATE_TRANSFORM != 0,
                object: flags & UPDATE_OBJECT != 0,
                category: flags & UPDATE_CATEGORY != 0,
                layer: moved,
            },
        )
    } else if operation == 1 && flags == 0 {
        match scene_layer(layer) {
            Ok(l) => Ok(DeltaKind::Add { layer: l }),
            Err(status) => Err(status),
        }
    } else if operation == 2 && flags == 0 {
        Ok(DeltaKind::Remove)
    } else {
        Err(XvStatus::InvalidArgument)
    }
}

} // verus!
