//! Terminal styles for the parts of an output line.
//!
//! A style is an `anstyle` style as `clap` hands it on. How a style is
//! built and what escape sequences it renders to is the business of that
//! crate; the functions of this module that reach into it are stated, not
//! proved.

use clap::builder::styling::{AnsiColor, Style};
use vstd::prelude::*;

verus! {

/// A terminal style, `clap::builder::styling::Style`. Nothing is known of
/// what is inside one.
#[verifier::external_type_specification]
#[verifier::external_body]
pub struct ExStyle(Style);

/// The bytes that switch a style on.
pub uninterp spec fn style_on(style: Style) -> Seq<u8>;

/// The bytes that switch a style off again.
pub uninterp spec fn style_off(style: Style) -> Seq<u8>;

/// The escape sequence with the given parameter: `ESC [ code m`.
pub open spec fn escape(code: Seq<u8>) -> Seq<u8> {
    seq![0x1bu8, 0x5bu8] + code + seq![0x6du8]
}

/// The sequence that resets every attribute: `ESC [ 0 m`.
pub open spec fn reset() -> Seq<u8> {
    escape(seq![0x30u8])
}

/// `Display` of a style: the escape sequences that switch it on.
#[verifier::external_body]
pub(crate) fn render_on(style: &Style) -> (bytes: Vec<u8>)
    ensures
        bytes@ == style_on(*style),
{
    format!("{}", style).into_bytes()
}

/// `Display` of a style in its alternate form: the sequence that switches
/// it off.
#[verifier::external_body]
pub(crate) fn render_off(style: &Style) -> (bytes: Vec<u8>)
    ensures
        bytes@ == style_off(*style),
{
    format!("{:#}", style).into_bytes()
}

/// `Style::new().bold()` with `AnsiColor::Red` in the foreground. It
/// renders as the bold effect, `ESC [ 1 m`, followed by the colour,
/// `ESC [ 3 1 m`, and is switched off by a reset.
#[verifier::external_body]
fn bold_red() -> (style: Style)
    ensures
        style_on(style) == escape(seq![0x31u8]) + escape(seq![0x33u8, 0x31u8]),
        style_off(style) == reset(),
{
    Style::new().bold().fg_color(Some(AnsiColor::Red.into()))
}

/// `Style::new()` with `AnsiColor::Magenta` in the foreground, which
/// renders as `ESC [ 3 5 m` and is switched off by a reset.
#[verifier::external_body]
fn magenta() -> (style: Style)
    ensures
        style_on(style) == escape(seq![0x33u8, 0x35u8]),
        style_off(style) == reset(),
{
    Style::new().fg_color(Some(AnsiColor::Magenta.into()))
}

/// `Style::new()` with `AnsiColor::Green` in the foreground, which renders
/// as `ESC [ 3 2 m` and is switched off by a reset.
#[verifier::external_body]
fn green() -> (style: Style)
    ensures
        style_on(style) == escape(seq![0x33u8, 0x32u8]),
        style_off(style) == reset(),
{
    Style::new().fg_color(Some(AnsiColor::Green.into()))
}

/// `Style::new()` with `AnsiColor::Cyan` in the foreground, which renders
/// as `ESC [ 3 6 m` and is switched off by a reset.
#[verifier::external_body]
fn cyan() -> (style: Style)
    ensures
        style_on(style) == escape(seq![0x33u8, 0x36u8]),
        style_off(style) == reset(),
{
    Style::new().fg_color(Some(AnsiColor::Cyan.into()))
}

/// The parts of an output line that can be styled on their own.
#[derive(Debug, PartialEq, Eq, Structural, Clone, Copy)]
pub enum Slot {
    /// Text that a search pattern matched.
    MatchText,
    /// The name of the file a record came from.
    Filename,
    /// The number of a line.
    LineNumber,
    /// The character between the annotations and the text.
    Separator,
}

/// The style of each slot. A slot without a style is written plain.
pub struct Capabilities {
    pub match_text: Option<Style>,
    pub filename: Option<Style>,
    pub line_number: Option<Style>,
    pub separator: Option<Style>,
}

impl Capabilities {
    /// The style of `slot`.
    pub open spec fn slot(&self, slot: Slot) -> Option<Style> {
        match slot {
            Slot::MatchText => self.match_text,
            Slot::Filename => self.filename,
            Slot::LineNumber => self.line_number,
            Slot::Separator => self.separator,
        }
    }

    /// The style of `slot`.
    pub fn style(&self, slot: Slot) -> (style: &Option<Style>)
        ensures
            *style == self.slot(slot),
    {
        match slot {
            Slot::MatchText => &self.match_text,
            Slot::Filename => &self.filename,
            Slot::LineNumber => &self.line_number,
            Slot::Separator => &self.separator,
        }
    }

    /// No slot is styled.
    pub fn none() -> (caps: Capabilities)
        ensures
            forall|slot: Slot| (#[trigger] caps.slot(slot)) is None,
    {
        Capabilities { match_text: None, filename: None, line_number: None, separator: None }
    }
}

/// What the default capabilities render: matches in bold red, file names
/// in magenta, line numbers in green, separators in cyan.
pub open spec fn default_on(slot: Slot) -> Seq<u8> {
    match slot {
        Slot::MatchText => escape(seq![0x31u8]) + escape(seq![0x33u8, 0x31u8]),
        Slot::Filename => escape(seq![0x33u8, 0x35u8]),
        Slot::LineNumber => escape(seq![0x33u8, 0x32u8]),
        Slot::Separator => escape(seq![0x33u8, 0x36u8]),
    }
}

impl Default for Capabilities {
    /// Every slot is styled, in the colours `grep` uses by default.
    fn default() -> (caps: Capabilities)
        ensures
            forall|slot: Slot|
                (#[trigger] caps.slot(slot)) is Some && style_on(caps.slot(slot)->0) == default_on(
                    slot,
                ) && style_off(caps.slot(slot)->0) == reset(),
    {
        Capabilities {
            match_text: Some(bold_red()),
            filename: Some(magenta()),
            line_number: Some(green()),
            separator: Some(cyan()),
        }
    }
}

} // verus!
