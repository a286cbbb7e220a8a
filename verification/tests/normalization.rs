//! The canonical string tokens of the four style enumerations.

use forma_ui::AlertType;
use forma_ui::ButtonVariant;
use forma_ui::InputType;
use forma_ui::TextLevel;

#[test]
fn text_level_canonical_strings() {
    assert_eq!(TextLevel::H1.as_str(), "h1");
    assert_eq!(TextLevel::H2.as_str(), "h2");
    assert_eq!(TextLevel::H3.as_str(), "h3");
    assert_eq!(TextLevel::P.as_str(), "p");
    assert_eq!(TextLevel::Code.as_str(), "code");
}

#[test]
fn alert_type_canonical_strings() {
    assert_eq!(AlertType::Error.as_str(), "error");
    assert_eq!(AlertType::Warning.as_str(), "warning");
    assert_eq!(AlertType::Info.as_str(), "info");
}

#[test]
fn input_type_canonical_strings() {
    assert_eq!(InputType::Text.as_str(), "text");
    assert_eq!(InputType::Number.as_str(), "number");
    assert_eq!(InputType::Email.as_str(), "email");
    assert_eq!(InputType::Password.as_str(), "password");
    assert_eq!(InputType::Tel.as_str(), "tel");
    assert_eq!(InputType::Url.as_str(), "url");
    assert_eq!(InputType::Search.as_str(), "search");
    assert_eq!(InputType::Date.as_str(), "date");
    assert_eq!(InputType::Time.as_str(), "time");
    assert_eq!(InputType::DateTimeLocal.as_str(), "datetime-local");
    assert_eq!(InputType::Month.as_str(), "month");
    assert_eq!(InputType::Week.as_str(), "week");
    assert_eq!(InputType::Color.as_str(), "color");
    assert_eq!(InputType::Range.as_str(), "range");
    assert_eq!(InputType::Hidden.as_str(), "hidden");
}

#[test]
fn button_variant_canonical_strings() {
    assert_eq!(ButtonVariant::Outlined.as_str(), "outlined");
    assert_eq!(ButtonVariant::Flat.as_str(), "flat");
    assert_eq!(ButtonVariant::Solid.as_str(), "solid");
}

fn all_distinct(tokens: &[&str]) {
    for a in 0..tokens.len() {
        for b in 0..tokens.len() {
            if a != b {
                assert_ne!(tokens[a], tokens[b]);
            }
        }
    }
}

#[test]
fn text_level_tokens_injective() {
    all_distinct(&[
        TextLevel::H1.as_str(),
        TextLevel::H2.as_str(),
        TextLevel::H3.as_str(),
        TextLevel::P.as_str(),
        TextLevel::Code.as_str(),
    ]);
}

#[test]
fn alert_type_tokens_injective() {
    all_distinct(&[
        AlertType::Error.as_str(),
        AlertType::Warning.as_str(),
        AlertType::Info.as_str(),
    ]);
}

#[test]
fn input_type_tokens_injective() {
    all_distinct(&[
        InputType::Text.as_str(),
        InputType::Number.as_str(),
        InputType::Email.as_str(),
        InputType::Password.as_str(),
        InputType::Tel.as_str(),
        InputType::Url.as_str(),
        InputType::Search.as_str(),
        InputType::Date.as_str(),
        InputType::Time.as_str(),
        InputType::DateTimeLocal.as_str(),
        InputType::Month.as_str(),
        InputType::Week.as_str(),
        InputType::Color.as_str(),
        InputType::Range.as_str(),
        InputType::Hidden.as_str(),
    ]);
}

#[test]
fn button_variant_tokens_injective() {
    all_distinct(&[
        ButtonVariant::Outlined.as_str(),
        ButtonVariant::Flat.as_str(),
        ButtonVariant::Solid.as_str(),
    ]);
}
