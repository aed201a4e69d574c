//! The lifecycle of an application that is hosted as a custom element: what
//! each notification of the host leads to.
use vstd::prelude::*;
use vstd::string::StringExecFns;
use crate::program::Lifecycle;
use crate::program::MountAction;
use crate::program::MountTarget;
use crate::program::Program;
use crate::text::str_eq;
use crate::vnode::Tag;

verus! {

/// One thing that the host glue has to do for a notification, in the order
/// in which the commands are handed out.
#[derive(Debug)]
pub enum Command {
    /// Attach the program to the mount node.
    Mount { action: MountAction, target: MountTarget },
    /// Insert a block of style declarations into the mount scope.
    InjectStyle { css: String },
    /// Tell the application that it is attached.
    Connected,
    /// Render the application, reconcile and apply.
    UpdateDom,
    /// Tell the application that an observed attribute has changed.
    AttributeChanged { name: String, old_value: Option<String>, new_value: Option<String> },
    /// Tell the application that it is detached.
    Disconnected,
    /// Tell the application that its mount point has moved.
    Adopted,
}

/// One notification of the host. The host delivers them in order: the
/// attachment first, then any number of attribute changes and at most one
/// adoption, and at most one detachment, after which there is none.
pub enum HostEvent {
    /// The element is attached; the style blocks of the application come
    /// along, the static one and that of this instance.
    Attach { stylesheet: Vec<String>, style: Vec<String> },
    /// An attribute of the element has changed from `old_value` to
    /// `new_value`, where nothing stands for an absent attribute.
    AttributeChanged { name: String, old_value: Option<String>, new_value: Option<String> },
    /// The mount point has moved.
    Adopted,
    /// The element is detached.
    Detach,
}

/// The mathematical content of a [`Command`].
pub enum CommandView {
    Mount { action: MountAction, target: MountTarget },
    InjectStyle { css: Seq<char> },
    Connected,
    UpdateDom,
    AttributeChanged { name: Seq<char>, old_value: Option<Seq<char>>, new_value: Option<Seq<char>> },
    Disconnected,
    Adopted,
}

/// The characters of an optional string.
pub open spec fn optional_text(value: Option<String>) -> Option<Seq<char>> {
    match value {
        Some(text) => Some(text@),
        None => None,
    }
}

impl View for Command {
    type V = CommandView;

    open spec fn view(&self) -> CommandView {
        match *self {
            Command::Mount { action, target } => CommandView::Mount { action, target },
            Command::InjectStyle { css } => CommandView::InjectStyle { css: css@ },
            Command::Connected => CommandView::Connected,
            Command::UpdateDom => CommandView::UpdateDom,
            Command::AttributeChanged { name, old_value, new_value } => CommandView::AttributeChanged {
                name: name@,
                old_value: optional_text(old_value),
                new_value: optional_text(new_value),
            },
            Command::Disconnected => CommandView::Disconnected,
            Command::Adopted => CommandView::Adopted,
        }
    }
}

/// The views of a sequence of commands, in order.
pub open spec fn commands_view(commands: Seq<Command>) -> Seq<CommandView> {
    Seq::new(commands.len(), |i: int| commands[i]@)
}

/// The blocks of a style sheet, one after the other.
pub open spec fn joined(blocks: Seq<String>) -> Seq<char>
    decreases blocks.len(),
{
    if blocks.len() == 0 {
        Seq::empty()
    } else {
        joined(blocks.drop_last()) + blocks.last()@
    }
}

/// Whether `name` is one of the observed attribute names.
pub open spec fn observes(observed: Seq<&'static str>, name: Seq<char>) -> bool {
    exists|i: int| 0 <= i < observed.len() && (#[trigger] observed[i])@ == name
}

/// Concatenates the blocks of a style sheet.
pub fn join_styles(blocks: &Vec<String>) -> (css: String)
    ensures
        css@ == joined(blocks@),
{
    let mut css = String::new();
    let mut i: usize = 0;
    while i < blocks.len()
        invariant
            i <= blocks.len(),
            css@ == joined(blocks@.take(i as int)),
        decreases blocks.len() - i,
    {
        proof {
            assert(blocks@.take(i + 1).drop_last() =~= blocks@.take(i as int));
        }
        css.append(blocks[i].as_str());
        i = i + 1;
    }
    assert(blocks@.take(blocks@.len() as int) =~= blocks@);
    css
}

/// What the commands of an attachment are: mount, the static style block,
/// the dynamic style block, the notification, and the first render.
pub open spec fn attachment(
    config: (MountAction, MountTarget),
    stylesheet: Seq<String>,
    style: Seq<String>,
) -> Seq<CommandView> {
    seq![
        CommandView::Mount { action: config.0, target: config.1 },
        CommandView::InjectStyle { css: joined(stylesheet) },
        CommandView::InjectStyle { css: joined(style) },
        CommandView::Connected,
        CommandView::UpdateDom,
    ]
}

/// The state that a notification leads to: an attachment mounts a
/// component that was only created, a detachment detaches an attached one
/// for good, and nothing else changes the state.
pub open spec fn next_state(state: Lifecycle, event: HostEvent) -> Lifecycle {
    match event {
        HostEvent::Attach { .. } => if state == Lifecycle::Created {
            Lifecycle::Mounted
        } else {
            state
        },
        HostEvent::Detach => if state.attached() {
            Lifecycle::Detached
        } else {
            state
        },
        _ => state,
    }
}

/// The commands that a notification leads to in a given state.
pub open spec fn reaction(
    state: Lifecycle,
    config: (MountAction, MountTarget),
    observed: Seq<&'static str>,
    event: HostEvent,
) -> Seq<CommandView> {
    match event {
        HostEvent::Attach { stylesheet, style } => if state == Lifecycle::Created {
            attachment(config, stylesheet@, style@)
        } else {
            Seq::empty()
        },
        HostEvent::AttributeChanged { name, old_value, new_value } => if state.attached()
            && observes(observed, name@) {
            seq![
                CommandView::AttributeChanged {
                    name: name@,
                    old_value: optional_text(old_value),
                    new_value: optional_text(new_value),
                },
            ]
        } else {
            Seq::empty()
        },
        HostEvent::Adopted => if state.attached() {
            seq![CommandView::Adopted]
        } else {
            Seq::empty()
        },
        HostEvent::Detach => if state.attached() {
            seq![CommandView::Disconnected]
        } else {
            Seq::empty()
        },
    }
}

/// A detached component stays detached, and is told nothing, whatever the
/// host reports.
pub proof fn lemma_detached_is_final(
    config: (MountAction, MountTarget),
    observed: Seq<&'static str>,
    event: HostEvent,
)
    ensures
        next_state(Lifecycle::Detached, event) == Lifecycle::Detached,
        reaction(Lifecycle::Detached, config, observed, event) == Seq::<CommandView>::empty(),
{
}

/// The change of an attribute that is not observed leads to nothing, in
/// any state.
pub proof fn lemma_unobserved_is_dropped(
    state: Lifecycle,
    config: (MountAction, MountTarget),
    observed: Seq<&'static str>,
    name: String,
    old_value: Option<String>,
    new_value: Option<String>,
)
    requires
        !observes(observed, name@),
    ensures
        reaction(state, config, observed, HostEvent::AttributeChanged { name, old_value, new_value })
            == Seq::<CommandView>::empty(),
{
}

/// An application hosted as a custom element: its program, and the names
/// of the attributes whose changes it wants to hear of.
#[verifier::reject_recursive_types(EVENT)]
#[verifier::reject_recursive_types(MSG)]
pub struct WebComponent<T, EVENT, MSG> {
    pub program: Program<T, EVENT, MSG>,
    pub observed: Vec<&'static str>,
}

impl<T: Tag, EVENT: 'static, MSG: 'static> WebComponent<T, EVENT, MSG> {
    /// A component that is not attached yet. It will be appended to its
    /// mount node in a scope of its own, and hears of the changes of the
    /// attributes named in `observed`.
    pub fn new(observed: Vec<&'static str>) -> (out: Self)
        ensures
            out.observed == observed,
            out.program.lifecycle() == Lifecycle::Created,
            out.program.mount_config() == (MountAction::Append, MountTarget::ShadowRoot),
            out.program.committed() is None,
    {
        WebComponent {
            program: Program::new(MountAction::Append, MountTarget::ShadowRoot),
            observed,
        }
    }

    /// Whether the component observes the attribute `name`.
    pub fn is_observed(&self, name: &str) -> (observed: bool)
        ensures
            observed == observes(self.observed@, name@),
    {
        let mut i: usize = 0;
        while i < self.observed.len()
            invariant
                i <= self.observed.len(),
                forall|j: int| 0 <= j < i ==> (#[trigger] self.observed@[j])@ != name@,
            decreases self.observed.len() - i,
        {
            if str_eq(self.observed[i], name) {
                return true;
            }
            i = i + 1;
        }
        false
    }

    /// The host reports that an attribute has changed. The application is
    /// told so only while the component is attached, and only of an
    /// attribute that it observes; nothing else happens.
    pub fn attribute_changed(
        &self,
        attr_name: &str,
        old_value: Option<String>,
        new_value: Option<String>,
    ) -> (commands: Vec<Command>)
        ensures
            commands_view(commands@) == (if self.program.lifecycle().attached() && observes(
                self.observed@,
                attr_name@,
            ) {
                seq![
                    CommandView::AttributeChanged {
                        name: attr_name@,
                        old_value: optional_text(old_value),
                        new_value: optional_text(new_value),
                    },
                ]
            } else {
                Seq::<CommandView>::empty()
            }),
    {
        let mut commands: Vec<Command> = Vec::new();
        if self.program.state().is_attached() && self.is_observed(attr_name) {
            commands.push(
                Command::AttributeChanged { name: String::from_str(attr_name), old_value, new_value },
            );
        }
        commands
    }

    /// The host reports that the component is attached. A component that
    /// was only created is mounted, its static and its dynamic style blocks
    /// are injected, the application is told, and the first tree is
    /// rendered; for any other component nothing happens.
    pub fn connected_callback(&mut self, stylesheet: &Vec<String>, style: &Vec<String>) -> (commands:
        Vec<Command>)
        ensures
            final(self).observed == old(self).observed,
            final(self).program.mount_config() == old(self).program.mount_config(),
            final(self).program.committed() == old(self).program.committed(),
            final(self).program.lifecycle() == (if old(self).program.lifecycle()
                == Lifecycle::Created {
                Lifecycle::Mounted
            } else {
                old(self).program.lifecycle()
            }),
            commands_view(commands@) == (if old(self).program.lifecycle() == Lifecycle::Created {
                attachment(old(self).program.mount_config(), stylesheet@, style@)
            } else {
                Seq::<CommandView>::empty()
            }),
    {
        let mut commands: Vec<Command> = Vec::new();
        if self.program.mount() {
            commands.push(
                Command::Mount {
                    action: self.program.mount_action(),
                    target: self.program.mount_target(),
                },
            );
            commands.push(Command::InjectStyle { css: join_styles(stylesheet) });
            commands.push(Command::InjectStyle { css: join_styles(style) });
            commands.push(Command::Connected);
            commands.push(Command::UpdateDom);
        }
        commands
    }

    /// The host reports that the component is detached. An attached
    /// component is detached for good and the application is told; for any
    /// other component nothing happens.
    pub fn disconnected_callback(&mut self) -> (commands: Vec<Command>)
        ensures
            final(self).observed == old(self).observed,
            final(self).program.mount_config() == old(self).program.mount_config(),
            final(self).program.committed() == old(self).program.committed(),
            final(self).program.lifecycle() == (if old(self).program.lifecycle().attached() {
                Lifecycle::Detached
            } else {
                old(self).program.lifecycle()
            }),
            commands_view(commands@) == (if old(self).program.lifecycle().attached() {
                seq![CommandView::Disconnected]
            } else {
                Seq::<CommandView>::empty()
            }),
    {
        let mut commands: Vec<Command> = Vec::new();
        if self.program.detach() {
            commands.push(Command::Disconnected);
        }
        commands
    }

    /// Takes one notification of the host, whichever it is, and hands out
    /// what it leads to. A notification that comes out of order leads to
    /// nothing and leaves the component as it is.
    pub fn notify(&mut self, event: HostEvent) -> (commands: Vec<Command>)
        ensures
            final(self).observed == old(self).observed,
            final(self).program.mount_config() == old(self).program.mount_config(),
            final(self).program.committed() == old(self).program.committed(),
            final(self).program.lifecycle() == next_state(old(self).program.lifecycle(), event),
            commands_view(commands@) == reaction(
                old(self).program.lifecycle(),
                old(self).program.mount_config(),
                old(self).observed@,
                event,
            ),
    {
        match event {
            HostEvent::Attach { stylesheet, style } => self.connected_callback(&stylesheet, &style),
            HostEvent::AttributeChanged { name, old_value, new_value } => self.attribute_changed(
                name.as_str(),
                old_value,
                new_value,
            ),
            HostEvent::Adopted => self.adopted_callback(),
            HostEvent::Detach => self.disconnected_callback(),
        }
    }

    /// The host reports that the mount point has moved. The application of
    /// an attached component is told; the component stays as it is.
    pub fn adopted_callback(&mut self) -> (commands: Vec<Command>)
        ensures
            *final(self) == *old(self),
            commands_view(commands@) == (if old(self).program.lifecycle().attached() {
                seq![CommandView::Adopted]
            } else {
                Seq::<CommandView>::empty()
            }),
    {
        let mut commands: Vec<Command> = Vec::new();
        if self.program.state().is_attached() {
            commands.push(Command::Adopted);
        }
        commands
    }
}

} // verus!
