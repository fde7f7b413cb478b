//! A progress bar on the standard error stream that is not redrawn too often.

use vstd::prelude::*;
use crate::clock::{duration_subsec_nanos, instant_duration_since, instant_now};

verus! {

#[verifier::external_type_specification]
#[verifier::external_body]
pub struct ExProgressBar(indicatif::ProgressBar);

#[verifier::external_type_specification]
#[verifier::external_body]
pub struct ExProgressStyle(indicatif::ProgressStyle);

/// `indicatif::ProgressBar::new`.
#[verifier::external_body]
fn bar_new(len: u64) -> indicatif::ProgressBar {
    indicatif::ProgressBar::new(len)
}

/// `indicatif::ProgressBar::set_prefix`.
#[verifier::external_body]
fn bar_set_prefix(bar: &indicatif::ProgressBar, prefix: &str) {
    bar.set_prefix(prefix)
}

/// `indicatif::ProgressStyle::default_bar`.
#[verifier::external_body]
fn style_default_bar() -> indicatif::ProgressStyle {
    indicatif::ProgressStyle::default_bar()
}

/// `indicatif::ProgressStyle::template`.
#[verifier::external_body]
fn style_template(style: indicatif::ProgressStyle, template: &str) -> indicatif::ProgressStyle {
    style.template(template)
}

/// `indicatif::ProgressBar::set_style`.
#[verifier::external_body]
fn bar_set_style(bar: &indicatif::ProgressBar, style: indicatif::ProgressStyle) {
    bar.set_style(style)
}

/// `indicatif::ProgressBar::set_position`.
#[verifier::external_body]
fn bar_set_position(bar: &indicatif::ProgressBar, pos: u64) {
    bar.set_position(pos)
}

/// `indicatif::ProgressBar::finish_and_clear`.
#[verifier::external_body]
fn bar_finish_and_clear(bar: &indicatif::ProgressBar) {
    bar.finish_and_clear()
}

/// The part of a second, in nanoseconds, that must have passed since the
/// last redraw. Redrawing more often costs time.
pub const MIN_DURATION_NS: u32 = 250_000_000;

/// Whether the bar is redrawn when the time since the last redraw has the
/// given part below one second.
pub fn is_redraw_due(subsec_nanos: u32) -> (due: bool)
    ensures
        due == (subsec_nanos > MIN_DURATION_NS),
{
    subsec_nanos > MIN_DURATION_NS
}

/// A progress bar over the files of a commit.
pub struct ProgressMeter {
    pb: indicatif::ProgressBar,
    last_updated: std::time::Instant,
}

impl ProgressMeter {
    /// A bar for `len` files, with `prefix` in front of it.
    pub fn setup(len: usize, prefix: &str) -> Self {
        let pb = bar_new(len as u64);
        bar_set_prefix(&pb, prefix);
        bar_set_style(&pb, style_template(style_default_bar(), "{prefix} {wide_bar} {pos}/{len} files"));
        ProgressMeter { pb, last_updated: instant_now() }
    }

    /// Moves the bar to `pos`, unless it was redrawn a moment ago.
    pub fn set_position_rate_limited(&mut self, pos: usize) {
        let now = instant_now();
        let elapsed = instant_duration_since(&now, &self.last_updated);
        if is_redraw_due(duration_subsec_nanos(&elapsed)) {
            self.last_updated = now;
            bar_set_position(&self.pb, pos as u64);
        }
    }

    /// Ends the bar and wipes it from the screen.
    pub fn finish_and_clear(&self) {
        bar_finish_and_clear(&self.pb);
    }
}

} // verus!
