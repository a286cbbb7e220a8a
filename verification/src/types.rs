//! Style tokens and select options.
//!
//! Each of the four style enumerations is a closed set of symbolic
//! constants; `as_str` maps every variant to the one canonical lowercase
//! string token the foreign renderer matches on.  The mapping is total
//! (every variant handled) and injective (no two variants collide), and
//! the canonical strings are fixed: they are part of the wire contract.

use vstd::prelude::*;

verus! {

/// Level token for text elements: `h1`, `h2`, `h3`, `p` or `code`.
#[derive(Debug, Clone, Copy, PartialEq, Eq, Structural)]
pub enum TextLevel {
    H1,
    H2,
    H3,
    P,
    Code,
}

impl TextLevel {
    /// The canonical string token of this level.
    pub open spec fn canon(self) -> Seq<char> {
        match self {
            TextLevel::H1 => "h1"@,
            TextLevel::H2 => "h2"@,
            TextLevel::H3 => "h3"@,
            TextLevel::P => "p"@,
            TextLevel::Code => "code"@,
        }
    }

    /// Normalize to the canonical string token.
    pub fn as_str(self) -> (r: &'static str)
        ensures
            r@ == self.canon(),
    {
        match self {
            TextLevel::H1 => "h1",
            TextLevel::H2 => "h2",
            TextLevel::H3 => "h3",
            TextLevel::P => "p",
            TextLevel::Code => "code",
        }
    }
}

/// Severity token for alert elements: `error`, `warning` or `info`.
#[derive(Debug, Clone, Copy, PartialEq, Eq, Structural)]
pub enum AlertType {
    Error,
    Warning,
    Info,
}

impl AlertType {
    /// The canonical string token of this alert kind.
    pub open spec fn canon(self) -> Seq<char> {
        match self {
            AlertType::Error => "error"@,
            AlertType::Warning => "warning"@,
            AlertType::Info => "info"@,
        }
    }

    /// Normalize to the canonical string token.
    pub fn as_str(self) -> (r: &'static str)
        ensures
            r@ == self.canon(),
    {
        match self {
            AlertType::Error => "error",
            AlertType::Warning => "warning",
            AlertType::Info => "info",
        }
    }
}

/// Subtype token for input elements: the standard text-field subtypes.
#[derive(Debug, Clone, Copy, PartialEq, Eq, Structural)]
pub enum InputType {
    Text,
    Number,
    Email,
    Password,
    Tel,
    Url,
    Search,
    Date,
    Time,
    DateTimeLocal,
    Month,
    Week,
    Color,
    Range,
    Hidden,
}

impl InputType {
    /// The canonical string token of this input kind.
    pub open spec fn canon(self) -> Seq<char> {
        match self {
            InputType::Text => "text"@,
            InputType::Number => "number"@,
            InputType::Email => "email"@,
            InputType::Password => "password"@,
            InputType::Tel => "tel"@,
            InputType::Url => "url"@,
            InputType::Search => "search"@,
            InputType::Date => "date"@,
            InputType::Time => "time"@,
            InputType::DateTimeLocal => "datetime-local"@,
            InputType::Month => "month"@,
            InputType::Week => "week"@,
            InputType::Color => "color"@,
            InputType::Range => "range"@,
            InputType::Hidden => "hidden"@,
        }
    }

    /// Normalize to the canonical string token.
    pub fn as_str(self) -> (r: &'static str)
        ensures
            r@ == self.canon(),
    {
        match self {
            InputType::Text => "text",
            InputType::Number => "number",
            InputType::Email => "email",
            InputType::Password => "password",
            InputType::Tel => "tel",
            InputType::Url => "url",
            InputType::Search => "search",
            InputType::Date => "date",
            InputType::Time => "time",
            InputType::DateTimeLocal => "datetime-local",
            InputType::Month => "month",
            InputType::Week => "week",
            InputType::Color => "color",
            InputType::Range => "range",
            InputType::Hidden => "hidden",
        }
    }
}

/// Visual variant token for buttons: `outlined`, `flat` or `solid`.
#[derive(Debug, Clone, Copy, PartialEq, Eq, Structural)]
pub enum ButtonVariant {
    Outlined,
    Flat,
    Solid,
}

impl ButtonVariant {
    /// The canonical string token of this variant.
    pub open spec fn canon(self) -> Seq<char> {
        match self {
            ButtonVariant::Outlined => "outlined"@,
            ButtonVariant::Flat => "flat"@,
            ButtonVariant::Solid => "solid"@,
        }
    }

    /// Normalize to the canonical string token.
    pub fn as_str(self) -> (r: &'static str)
        ensures
            r@ == self.canon(),
    {
        match self {
            ButtonVariant::Outlined => "outlined",
            ButtonVariant::Flat => "flat",
            ButtonVariant::Solid => "solid",
        }
    }
}

/// One entry of a select element: a submission value and a display label.
#[derive(Debug, Clone)]
pub struct SelectOption {
    pub value: String,
    pub label: String,
}

impl View for SelectOption {
    type V = (Seq<char>, Seq<char>);

    open spec fn view(&self) -> (Seq<char>, Seq<char>) {
        (self.value@, self.label@)
    }
}

impl SelectOption {
    /// Pair a submission value with its display label.
    pub fn new(value: &str, label: &str) -> (r: Self)
        ensures
            r@ == (value@, label@),
    {
        SelectOption { value: value.to_owned(), label: label.to_owned() }
    }
}

/// No two text levels share a canonical string token.
pub proof fn lemma_text_level_canon_injective(a: TextLevel, b: TextLevel)
    requires
        a.canon() == b.canon(),
    ensures
        a == b,
{
    reveal_strlit("h1");
    reveal_strlit("h2");
    reveal_strlit("h3");
    reveal_strlit("p");
    reveal_strlit("code");
    assert(("h1"@).len() == 2 && ("h2"@).len() == 2 && ("h3"@).len() == 2);
    assert(("p"@).len() == 1 && ("code"@).len() == 4);
    assert(("h1"@)[1] == '1' && ("h2"@)[1] == '2' && ("h3"@)[1] == '3');
}

/// No two alert kinds share a canonical string token.
pub proof fn lemma_alert_type_canon_injective(a: AlertType, b: AlertType)
    requires
        a.canon() == b.canon(),
    ensures
        a == b,
{
    reveal_strlit("error");
    reveal_strlit("warning");
    reveal_strlit("info");
    assert(("error"@).len() == 5 && ("warning"@).len() == 7 && ("info"@).len() == 4);
}

/// No two input kinds share a canonical string token.
pub proof fn lemma_input_type_canon_injective(a: InputType, b: InputType)
    requires
        a.canon() == b.canon(),
    ensures
        a == b,
{
    reveal_strlit("text");
    reveal_strlit("number");
    reveal_strlit("email");
    reveal_strlit("password");
    reveal_strlit("tel");
    reveal_strlit("url");
    reveal_strlit("search");
    reveal_strlit("date");
    reveal_strlit("time");
    reveal_strlit("datetime-local");
    reveal_strlit("month");
    reveal_strlit("week");
    reveal_strlit("color");
    reveal_strlit("range");
    reveal_strlit("hidden");
    assert(("text"@).len() == 4 && ("number"@).len() == 6 && ("email"@).len() == 5);
    assert(("password"@).len() == 8 && ("tel"@).len() == 3 && ("url"@).len() == 3);
    assert(("search"@).len() == 6 && ("date"@).len() == 4 && ("time"@).len() == 4);
    assert(("datetime-local"@).len() == 14 && ("month"@).len() == 5 && ("week"@).len() == 4);
    assert(("color"@).len() == 5 && ("range"@).len() == 5 && ("hidden"@).len() == 6);
    assert(("tel"@)[0] == 't' && ("url"@)[0] == 'u');
    assert(("text"@)[0] == 't' && ("date"@)[0] == 'd' && ("time"@)[0] == 't' && ("week"@)[0]
        == 'w');
    assert(("text"@)[1] == 'e' && ("time"@)[1] == 'i');
    assert(("email"@)[0] == 'e' && ("month"@)[0] == 'm' && ("color"@)[0] == 'c' && ("range"@)[0]
        == 'r');
    assert(("number"@)[0] == 'n' && ("search"@)[0] == 's' && ("hidden"@)[0] == 'h');
}

/// No two button variants share a canonical string token.
pub proof fn lemma_button_variant_canon_injective(a: ButtonVariant, b: ButtonVariant)
    requires
        a.canon() == b.canon(),
    ensures
        a == b,
{
    reveal_strlit("outlined");
    reveal_strlit("flat");
    reveal_strlit("solid");
    assert(("outlined"@).len() == 8 && ("flat"@).len() == 4 && ("solid"@).len() == 5);
}

/// The value/label pairs that a sequence of options denotes, in order.
pub open spec fn opts_view(s: Seq<SelectOption>) -> Seq<(Seq<char>, Seq<char>)> {
    s.map_values(|o: SelectOption| o@)
}

/// Copy a borrowed option list into an owned one denoting the same
/// value/label pairs.
pub(crate) fn clone_options(options: &[SelectOption]) -> (r: Vec<SelectOption>)
    ensures
        opts_view(r@) == opts_view(options@),
{
    let mut r: Vec<SelectOption> = Vec::new();
    let n = options.len();
    for i in 0..n
        invariant
            n == options@.len(),
            r@.len() == i,
            opts_view(r@) == opts_view(options@).take(i as int),
    {
        let o = &options[i];
        r.push(SelectOption { value: o.value.clone(), label: o.label.clone() });
        proof {
            assert(opts_view(r@) =~= opts_view(options@).take(i + 1));
        }
    }
    proof {
        assert(opts_view(options@).take(n as int) =~= opts_view(options@));
    }
    r
}

} // verus!
