//! The fluent builder and its command trace.
//!
//! A [`UiBuilder`] is an in-progress UI tree, represented as the ordered
//! sequence of construction commands that the foreign renderer is to
//! receive.  Every method consumes the builder and returns a new one
//! whose trace is the old trace with exactly one command appended; the
//! old value cannot be reused (move semantics).  [`UiBuilder::render_into`]
//! closes the chain: it pairs the trace with a mount selector in a
//! [`RenderPlan`], which an unverified shim replays across the
//! foreign-function boundary one call per command, in order.
//!
//! Callbacks cross that boundary as stable `u64` registry handles: the
//! shim owns a table from handle to host closure, and the builder only
//! records which handle, if any, each element carries.

use vstd::prelude::*;

use crate::types::AlertType;
use crate::types::ButtonVariant;
use crate::types::InputType;
use crate::types::SelectOption;
use crate::types::TextLevel;
use crate::types::opts_view;

verus! {

/// The mathematical form of one construction command: every text
/// argument as a sequence of characters, options as value/label pairs.
pub enum CmdView {
    OpenCol,
    CloseCol,
    OpenRow,
    CloseRow,
    Button { label: Seq<char>, disabled: bool, variant: ButtonVariant, on_click: Option<u64> },
    Input {
        input_type: InputType,
        placeholder: Seq<char>,
        value: Seq<char>,
        disabled: bool,
        on_change: Option<u64>,
    },
    Text { text: Seq<char>, level: TextLevel },
    Alert { text: Seq<char>, alert_type: AlertType, title: Seq<char> },
    Image { src: Seq<char>, alt: Seq<char> },
    Checkbox { label: Seq<char>, checked: bool, disabled: bool, on_change: Option<u64> },
    Select {
        options: Seq<(Seq<char>, Seq<char>)>,
        value: Seq<char>,
        placeholder: Seq<char>,
        disabled: bool,
        on_change: Option<u64>,
    },
    Separator,
}

/// One construction command, ready to be forwarded to the foreign
/// renderer.  A `Some(h)` callback field names the handle of a closure
/// registered with the replaying shim; `None` means the element carries
/// no handler and none is to be registered.
pub enum UiCommand {
    OpenCol,
    CloseCol,
    OpenRow,
    CloseRow,
    Button { label: String, disabled: bool, variant: ButtonVariant, on_click: Option<u64> },
    Input {
        input_type: InputType,
        placeholder: String,
        value: String,
        disabled: bool,
        on_change: Option<u64>,
    },
    Text { text: String, level: TextLevel },
    Alert { text: String, alert_type: AlertType, title: String },
    Image { src: String, alt: String },
    Checkbox { label: String, checked: bool, disabled: bool, on_change: Option<u64> },
    Select {
        options: Vec<SelectOption>,
        value: String,
        placeholder: String,
        disabled: bool,
        on_change: Option<u64>,
    },
    Separator,
}

impl View for UiCommand {
    type V = CmdView;

    open spec fn view(&self) -> CmdView {
        match self {
            UiCommand::OpenCol => CmdView::OpenCol,
            UiCommand::CloseCol => CmdView::CloseCol,
            UiCommand::OpenRow => CmdView::OpenRow,
            UiCommand::CloseRow => CmdView::CloseRow,
            UiCommand::Button { label, disabled, variant, on_click } => CmdView::Button {
                label: label@,
                disabled: *disabled,
                variant: *variant,
                on_click: *on_click,
            },
            UiCommand::Input { input_type, placeholder, value, disabled, on_change } => CmdView::Input {
                input_type: *input_type,
                placeholder: placeholder@,
                value: value@,
                disabled: *disabled,
                on_change: *on_change,
            },
            UiCommand::Text { text, level } => CmdView::Text { text: text@, level: *level },
            UiCommand::Alert { text, alert_type, title } => CmdView::Alert {
                text: text@,
                alert_type: *alert_type,
                title: title@,
            },
            UiCommand::Image { src, alt } => CmdView::Image { src: src@, alt: alt@ },
            UiCommand::Checkbox { label, checked, disabled, on_change } => CmdView::Checkbox {
                label: label@,
                checked: *checked,
                disabled: *disabled,
                on_change: *on_change,
            },
            UiCommand::Select { options, value, placeholder, disabled, on_change } => CmdView::Select {
                options: opts_view(options@),
                value: value@,
                placeholder: placeholder@,
                disabled: *disabled,
                on_change: *on_change,
            },
            UiCommand::Separator => CmdView::Separator,
        }
    }
}

/// The trace that a sequence of commands denotes.
pub open spec fn cmds_view(s: Seq<UiCommand>) -> Seq<CmdView> {
    s.map_values(|c: UiCommand| c@)
}

/// Appending a command to a sequence appends its view to the trace.
pub proof fn lemma_cmds_view_push(s: Seq<UiCommand>, c: UiCommand)
    ensures
        cmds_view(s.push(c)) == cmds_view(s).push(c@),
{
    assert(cmds_view(s.push(c)) =~= cmds_view(s).push(c@));
}

/// A chain of three calls appends exactly its own three commands: after
/// any prefix, the trace grows by that segment and nothing else.  This
/// is the structural form of associativity of chaining; together with
/// [`lemma_trace_segment`] it gives that a `row / leaf / end-row` chain
/// contributes exactly one row containing exactly that leaf, no matter
/// what is chained before or after.
pub proof fn lemma_chain_three(t: Seq<CmdView>, a: CmdView, b: CmdView, c: CmdView)
    ensures
        t.push(a).push(b).push(c) == t + seq![a, b, c],
{
    assert(t.push(a).push(b).push(c) =~= t + seq![a, b, c]);
}

/// Whatever is chained before (`prefix`) or after (`suffix`) a segment
/// of commands, the finished trace still holds exactly that segment, in
/// place, unchanged.
pub proof fn lemma_trace_segment(prefix: Seq<CmdView>, mid: Seq<CmdView>, suffix: Seq<CmdView>)
    ensures
        (prefix + mid + suffix).subrange(
            prefix.len() as int,
            prefix.len() + mid.len() as int,
        ) == mid,
{
    assert((prefix + mid + suffix).subrange(prefix.len() as int, prefix.len() + mid.len() as int) =~= mid);
}

/// Fluent builder for constructing UI trees.
///
/// Its view is the ordered trace of construction commands recorded so
/// far.  All interaction with the foreign renderer is deferred: the
/// builder itself never crosses the boundary.
pub struct UiBuilder {
    pub commands: Vec<UiCommand>,
}

impl View for UiBuilder {
    type V = Seq<CmdView>;

    open spec fn view(&self) -> Seq<CmdView> {
        cmds_view(self.commands@)
    }
}

/// A finished tree: the full command trace and the selector naming where
/// to mount it.  This is everything the replaying shim needs; the
/// builder that produced it is gone.
pub struct RenderPlan {
    pub commands: Vec<UiCommand>,
    pub selector: String,
}

impl View for RenderPlan {
    type V = (Seq<CmdView>, Seq<char>);

    open spec fn view(&self) -> (Seq<CmdView>, Seq<char>) {
        (cmds_view(self.commands@), self.selector@)
    }
}

impl UiBuilder {
    /// Start a new UI tree rooted in a column layout.
    pub fn new_col() -> (r: Self)
        ensures
            r@ == seq![CmdView::OpenCol],
    {
        let mut commands: Vec<UiCommand> = Vec::new();
        commands.push(UiCommand::OpenCol);
        proof {
            lemma_cmds_view_push(Seq::<UiCommand>::empty(), UiCommand::OpenCol);
            assert(cmds_view(Seq::<UiCommand>::empty()) =~= Seq::<CmdView>::empty());
            assert(Seq::<CmdView>::empty().push(CmdView::OpenCol) =~= seq![CmdView::OpenCol]);
        }
        UiBuilder { commands }
    }

    /// Start a new UI tree rooted in a row layout.
    pub fn new_row() -> (r: Self)
        ensures
            r@ == seq![CmdView::OpenRow],
    {
        let mut commands: Vec<UiCommand> = Vec::new();
        commands.push(UiCommand::OpenRow);
        proof {
            lemma_cmds_view_push(Seq::<UiCommand>::empty(), UiCommand::OpenRow);
            assert(cmds_view(Seq::<UiCommand>::empty()) =~= Seq::<CmdView>::empty());
            assert(Seq::<CmdView>::empty().push(CmdView::OpenRow) =~= seq![CmdView::OpenRow]);
        }
        UiBuilder { commands }
    }

    /// Record one command.  Every public construction method comes down
    /// to this single append.
    fn append(self, cmd: UiCommand) -> (r: Self)
        ensures
            r@ == self@.push(cmd@),
    {
        let ghost old_commands = self.commands@;
        let mut commands = self.commands;
        commands.push(cmd);
        proof {
            lemma_cmds_view_push(old_commands, cmd);
        }
        UiBuilder { commands }
    }

    /// Open a nested column inside the current container.
    pub fn col(self) -> (r: Self)
        ensures
            r@ == self@.push(CmdView::OpenCol),
    {
        self.append(UiCommand::OpenCol)
    }

    /// Close the current column container.
    pub fn end_col(self) -> (r: Self)
        ensures
            r@ == self@.push(CmdView::CloseCol),
    {
        self.append(UiCommand::CloseCol)
    }

    /// Open a nested row inside the current container.
    pub fn row(self) -> (r: Self)
        ensures
            r@ == self@.push(CmdView::OpenRow),
    {
        self.append(UiCommand::OpenRow)
    }

    /// Close the current row container.
    pub fn end_row(self) -> (r: Self)
        ensures
            r@ == self@.push(CmdView::CloseRow),
    {
        self.append(UiCommand::CloseRow)
    }

    /// Add a button.  `on_click` is the registry handle of the click
    /// closure, or `None` for a button with no handler, in which case no
    /// handler is recorded and none will be registered.
    pub fn button(self, label: &str, disabled: bool, variant: ButtonVariant, on_click: Option<
        u64,
    >) -> (r: Self)
        ensures
            r@ == self@.push(
                CmdView::Button { label: label@, disabled, variant, on_click },
            ),
    {
        self.append(UiCommand::Button { label: label.to_owned(), disabled, variant, on_click })
    }

    /// Add a text input.  `on_change` is the registry handle of the
    /// change closure (called with the new text), or `None` for none.
    pub fn input(
        self,
        input_type: InputType,
        placeholder: &str,
        value: &str,
        disabled: bool,
        on_change: Option<u64>,
    ) -> (r: Self)
        ensures
            r@ == self@.push(
                CmdView::Input {
                    input_type,
                    placeholder: placeholder@,
                    value: value@,
                    disabled,
                    on_change,
                },
            ),
    {
        self.append(
            UiCommand::Input {
                input_type,
                placeholder: placeholder.to_owned(),
                value: value.to_owned(),
                disabled,
                on_change,
            },
        )
    }

    /// Add a text or heading element at the given level.
    pub fn p(self, text: &str, level: TextLevel) -> (r: Self)
        ensures
            r@ == self@.push(CmdView::Text { text: text@, level }),
    {
        self.append(UiCommand::Text { text: text.to_owned(), level })
    }

    /// Add an alert banner.  Pass an empty string for `title` to omit it.
    pub fn alert(self, text: &str, alert_type: AlertType, title: &str) -> (r: Self)
        ensures
            r@ == self@.push(
                CmdView::Alert { text: text@, alert_type, title: title@ },
            ),
    {
        self.append(
            UiCommand::Alert { text: text.to_owned(), alert_type, title: title.to_owned() },
        )
    }

    /// Add an image element.  Pass an empty string for `alt` to omit the
    /// alternative text.
    pub fn img(self, src: &str, alt: &str) -> (r: Self)
        ensures
            r@ == self@.push(CmdView::Image { src: src@, alt: alt@ }),
    {
        self.append(UiCommand::Image { src: src.to_owned(), alt: alt.to_owned() })
    }

    /// Add a checkbox.  `on_change` is the registry handle of the change
    /// closure (called with the new checked state), or `None` for none.
    pub fn checkbox(self, label: &str, checked: bool, disabled: bool, on_change: Option<u64>) -> (r:
        Self)
        ensures
            r@ == self@.push(
                CmdView::Checkbox { label: label@, checked, disabled, on_change },
            ),
    {
        self.append(UiCommand::Checkbox { label: label.to_owned(), checked, disabled, on_change })
    }

    /// Add a select element over the given options.  `value` is the
    /// currently selected submission value; `on_change` is the registry
    /// handle of the change closure (called with the new value), or
    /// `None` for none.
    pub fn select(
        self,
        options: &[SelectOption],
        value: &str,
        placeholder: &str,
        disabled: bool,
        on_change: Option<u64>,
    ) -> (r: Self)
        ensures
            r@ == self@.push(
                CmdView::Select {
                    options: opts_view(options@),
                    value: value@,
                    placeholder: placeholder@,
                    disabled,
                    on_change,
                },
            ),
    {
        self.append(
            UiCommand::Select {
                options: crate::types::clone_options(options),
                value: value.to_owned(),
                placeholder: placeholder.to_owned(),
                disabled,
                on_change,
            },
        )
    }

    /// Add a horizontal separator line.
    pub fn separator(self) -> (r: Self)
        ensures
            r@ == self@.push(CmdView::Separator),
    {
        self.append(UiCommand::Separator)
    }

    /// Finish the tree: pair the full trace with the selector naming
    /// where to mount it.  Consumes the builder; the plan carries the
    /// commands unchanged and in order.
    pub fn render_into(self, selector: &str) -> (r: RenderPlan)
        ensures
            r@ == (self@, selector@),
    {
        RenderPlan { commands: self.commands, selector: selector.to_owned() }
    }
}

} // verus!
