//! The runtime of one hosted application: its place in the lifecycle, how
//! it is mounted, and the tree that the surface shows.
use vstd::prelude::*;
use crate::diff::reconcile;
use crate::diff::lemma_diff_same_structure;
use crate::diff::reconciliation;
use crate::surface::lemma_reconciliation_sound;
use crate::surface::shown_or_empty;
use crate::patch::Operation;
use crate::patch::Patch;
use crate::patch::PatchView;
use crate::patch::patches_view;
use crate::vnode::Node;
use crate::vnode::NodeView;
use crate::vnode::Tag;

verus! {

/// How the rendered tree is attached to the mount node.
#[derive(Clone, Copy, Debug, PartialEq, Eq, Structural)]
pub enum MountAction {
    /// The tree is appended to what the mount node holds.
    Append,
    /// The tree takes the place of what the mount node holds.
    Replace,
}

/// Where under the mount node the tree is attached.
#[derive(Clone, Copy, Debug, PartialEq, Eq, Structural)]
pub enum MountTarget {
    /// As a direct child of the mount node.
    MountNode,
    /// In a scope of its own under the mount node, which isolates its
    /// styles.
    ShadowRoot,
}

/// The place of a program in its lifecycle.
#[derive(Clone, Copy, Debug, PartialEq, Eq, Structural)]
pub enum Lifecycle {
    /// Built, not attached to a surface.
    Created,
    /// Attached; the first tree has not been committed yet.
    Mounted,
    /// Attached, with a committed tree.
    Running,
    /// Detached for good: the surface is not touched any more.
    Detached,
}

impl Lifecycle {
    /// Whether the program is attached to a surface.
    pub open spec fn attached(self) -> bool {
        self == Lifecycle::Mounted || self == Lifecycle::Running
    }

    /// Whether the program is attached to a surface.
    pub fn is_attached(&self) -> (attached: bool)
        ensures
            attached == self.attached(),
    {
        match self {
            Lifecycle::Mounted => true,
            Lifecycle::Running => true,
            _ => false,
        }
    }
}

/// The failure of a surface to take a mutation: which mutation of the
/// cycle it was, and of what kind.
#[derive(Clone, Copy, Debug, PartialEq, Eq, Structural)]
pub struct ApplyError {
    pub index: usize,
    pub operation: Operation,
}

/// One live application: its lifecycle state, its mount configuration,
/// which is fixed when it is made, and the tree that was rendered last.
#[verifier::reject_recursive_types(EVENT)]
#[verifier::reject_recursive_types(MSG)]
pub struct Program<T, EVENT, MSG> {
    state: Lifecycle,
    action: MountAction,
    target: MountTarget,
    rendered: Option<Node<T, EVENT, MSG>>,
}

impl<T: Tag, EVENT: 'static, MSG: 'static> Program<T, EVENT, MSG> {
    /// The lifecycle state.
    pub closed spec fn lifecycle(&self) -> Lifecycle {
        self.state
    }

    /// The mount configuration.
    pub closed spec fn mount_config(&self) -> (MountAction, MountTarget) {
        (self.action, self.target)
    }

    /// The tree that the surface shows, if any.
    pub closed spec fn committed(&self) -> Option<NodeView<EVENT, MSG>> {
        match self.rendered {
            Some(node) => Some(node@),
            None => None,
        }
    }

    /// A program that is not attached and has rendered nothing.
    pub fn new(action: MountAction, target: MountTarget) -> (out: Self)
        ensures
            out.lifecycle() == Lifecycle::Created,
            out.mount_config() == (action, target),
            out.committed() is None,
    {
        Program { state: Lifecycle::Created, action, target, rendered: None }
    }

    /// The lifecycle state.
    pub fn state(&self) -> (state: Lifecycle)
        ensures
            state == self.lifecycle(),
    {
        self.state
    }

    /// How the tree is attached to the mount node.
    pub fn mount_action(&self) -> (action: MountAction)
        ensures
            action == self.mount_config().0,
    {
        self.action
    }

    /// Where under the mount node the tree is attached.
    pub fn mount_target(&self) -> (target: MountTarget)
        ensures
            target == self.mount_config().1,
    {
        self.target
    }

    /// The tree that the surface shows, if any.
    pub fn rendered(&self) -> (tree: Option<&Node<T, EVENT, MSG>>)
        ensures
            match tree {
                Some(node) => self.committed() == Some(node@),
                None => self.committed() is None,
            },
    {
        self.rendered.as_ref()
    }

    /// Attaches a program that was only created; any other program is left
    /// as it is. Returns whether the program was attached by this call.
    pub fn mount(&mut self) -> (mounted: bool)
        ensures
            mounted == (old(self).lifecycle() == Lifecycle::Created),
            final(self).lifecycle() == (if mounted {
                Lifecycle::Mounted
            } else {
                old(self).lifecycle()
            }),
            final(self).mount_config() == old(self).mount_config(),
            final(self).committed() == old(self).committed(),
    {
        match self.state {
            Lifecycle::Created => {
                self.state = Lifecycle::Mounted;
                true
            },
            _ => false,
        }
    }

    /// The mutations that bring the surface to the tree `next`: those of
    /// the reconciliation against the committed tree while the program is
    /// attached, and none otherwise. While the program is attached they
    /// lead from the surface of the committed tree to that of `next`, and
    /// there are none where `next` has the structure of the committed tree.
    pub fn update_dom<'a>(&'a self, next: &'a Node<T, EVENT, MSG>) -> (patches: Vec<
        Patch<'a, T, EVENT, MSG>,
    >)
        ensures
            patches_view(patches@) == (if self.lifecycle().attached() {
                reconciliation(self.committed(), next@)
            } else {
                Seq::<PatchView<EVENT, MSG>>::empty()
            }),
            self.lifecycle().attached() ==> shown_or_empty(self.committed()).apply_all(
                patches_view(patches@),
            ) == Some(next@.shown()),
            self.committed() matches Some(tree) && tree.same_structure(next@) ==> patches@.len()
                == 0,
    {
        proof {
            lemma_reconciliation_sound(self.committed(), next@);
            if self.committed() matches Some(tree) && tree.same_structure(next@) {
                lemma_diff_same_structure(self.committed()->0, next@, Seq::empty());
            }
        }
        if self.state.is_attached() {
            reconcile(self.rendered.as_ref(), next)
        } else {
            let patches: Vec<Patch<'a, T, EVENT, MSG>> = Vec::new();
            patches
        }
    }

    /// Makes `next` the committed tree of an attached program, which is
    /// running from then on; any other program is left as it is. Returns
    /// whether the tree was committed.
    pub fn commit(&mut self, next: Node<T, EVENT, MSG>) -> (committed: bool)
        ensures
            committed == old(self).lifecycle().attached(),
            final(self).mount_config() == old(self).mount_config(),
            committed ==> final(self).lifecycle() == Lifecycle::Running,
            committed ==> final(self).committed() == Some(next@),
            !committed ==> final(self).lifecycle() == old(self).lifecycle(),
            !committed ==> final(self).committed() == old(self).committed(),
    {
        if self.state.is_attached() {
            self.state = Lifecycle::Running;
            self.rendered = Some(next);
            true
        } else {
            false
        }
    }

    /// Ends a cycle. Where every mutation was applied, `next` is committed
    /// as by [`Program::commit`]. Where one was not, the cycle has failed:
    /// the failure is handed back, and the program keeps its state and the
    /// tree that was committed before.
    pub fn settle(&mut self, next: Node<T, EVENT, MSG>, failure: Option<ApplyError>) -> (outcome:
        Result<bool, ApplyError>)
        ensures
            final(self).mount_config() == old(self).mount_config(),
            outcome == match failure {
                Some(error) => Err::<bool, ApplyError>(error),
                None => Ok(old(self).lifecycle().attached()),
            },
            outcome == Ok::<bool, ApplyError>(true) ==> final(self).lifecycle()
                == Lifecycle::Running,
            outcome == Ok::<bool, ApplyError>(true) ==> final(self).committed() == Some(next@),
            outcome != Ok::<bool, ApplyError>(true) ==> final(self).lifecycle()
                == old(self).lifecycle(),
            outcome != Ok::<bool, ApplyError>(true) ==> final(self).committed()
                == old(self).committed(),
    {
        match failure {
            Some(error) => Err(error),
            None => Ok(self.commit(next)),
        }
    }

    /// Detaches an attached program for good; any other program is left as
    /// it is. Returns whether the program was detached by this call.
    pub fn detach(&mut self) -> (detached: bool)
        ensures
            detached == old(self).lifecycle().attached(),
            final(self).lifecycle() == (if detached {
                Lifecycle::Detached
            } else {
                old(self).lifecycle()
            }),
            final(self).mount_config() == old(self).mount_config(),
            final(self).committed() == old(self).committed(),
    {
        if self.state.is_attached() {
            self.state = Lifecycle::Detached;
            true
        } else {
            false
        }
    }
}

} // verus!
