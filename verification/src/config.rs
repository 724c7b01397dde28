//! The immutable configuration of one invocation.

use vstd::prelude::*;

verus! {

/// Which lines receive a numbering prefix.
#[derive(Clone, Copy, Debug, PartialEq, Eq, Structural)]
pub enum NumberingMode {
    /// Every line is numbered.
    All,
    /// Only non-blank lines are numbered.
    NonEmpty,
    /// No line is numbered.
    Off,
}

/// The settings of one invocation, built once by the caller.
///
/// An absent marker or tab replacement means "pass through unmodified";
/// a present one is used verbatim. The configuration is agnostic to the
/// conventional literals (`$`, `^I`): it stores whatever bytes the caller
/// supplies.
pub struct CatOptions {
    /// Which lines receive a numbering prefix.
    pub numbering_mode: NumberingMode,
    /// Bytes inserted immediately before each line-feed delimiter, if any.
    pub end_char: Option<Vec<u8>>,
    /// Collapse runs of consecutive blank lines to a single blank line.
    pub squeeze_blank: bool,
    /// Bytes emitted in place of each tab byte, if any.
    pub tab_char: Option<Vec<u8>>,
    /// Escape non-printable bytes with `^` and `M-` notation.
    pub show_nonprinting: bool,
}

/// The mathematical view of a configuration.
pub struct Config {
    pub mode: NumberingMode,
    pub end: Option<Seq<u8>>,
    pub squeeze: bool,
    pub tab: Option<Seq<u8>>,
    pub show_nonprinting: bool,
}

impl View for CatOptions {
    type V = Config;

    open spec fn view(&self) -> Config {
        Config {
            mode: self.numbering_mode,
            end: match self.end_char {
                Option::Some(v) => Option::Some(v@),
                Option::None => Option::None,
            },
            squeeze: self.squeeze_blank,
            tab: match self.tab_char {
                Option::Some(v) => Option::Some(v@),
                Option::None => Option::None,
            },
            show_nonprinting: self.show_nonprinting,
        }
    }
}

/// A configuration that asks for no transformation at all: under it the
/// output is the raw concatenation of the inputs.
pub open spec fn plain_config(c: Config) -> bool {
    &&& c.mode == NumberingMode::Off
    &&& c.end is None
    &&& !c.squeeze
    &&& c.tab is None
    &&& !c.show_nonprinting
}

impl CatOptions {
    /// True when no transformation is configured, so that the whole-stream
    /// copy path may be taken.
    pub fn is_plain(&self) -> (r: bool)
        ensures
            r == plain_config(self@),
    {
        matches!(self.numbering_mode, NumberingMode::Off) && self.end_char.is_none()
            && !self.squeeze_blank && self.tab_char.is_none() && !self.show_nonprinting
    }
}

} // verus!
