//! A virtual-tree model for user interfaces: an immutable description of a
//! tree of elements and text, typed event callbacks that can be remapped from
//! one message type to another, a reconciliation engine that turns two tree
//! states into an ordered list of mutations, and the lifecycle rules of an
//! application that is hosted as a custom element.
pub mod callback;
pub mod component;
pub mod custom_element;
pub mod diff;
pub mod patch;
pub mod pretty;
pub mod program;
pub mod query;
pub mod remap;
pub mod structure;
pub mod surface;
pub mod text;
pub mod value;
pub mod vnode;

pub use callback::Callback;
pub use callback::CallbackView;
pub use component::Cmd;
pub use component::Effects;
pub use custom_element::Command;
pub use custom_element::HostEvent;
pub use custom_element::WebComponent;
pub use diff::diff;
pub use diff::reconcile;
pub use patch::Operation;
pub use patch::Patch;
pub use patch::PatchView;
pub use pretty::padd;
pub use program::ApplyError;
pub use program::Lifecycle;
pub use program::MountAction;
pub use program::MountTarget;
pub use program::Program;
pub use surface::Surface;
pub use value::Value;
pub use value::ValueView;
pub use vnode::AttribValue;
pub use vnode::AttribValueView;
pub use vnode::Attribute;
pub use vnode::AttributeView;
pub use vnode::Element;
pub use vnode::ElementView;
pub use vnode::IntoText;
pub use vnode::Node;
pub use vnode::NodeView;
pub use vnode::Tag;
pub use vnode::Text;
