//! Source spans. A span is a `ruff_text_size::TextRange`, carried through the
//! library as it comes from the parser.
use vstd::prelude::*;
use ruff_text_size::TextRange;

verus! {

#[verifier::external_type_specification]
#[verifier::external_body]
pub struct ExTextRange(TextRange);

/// The offset at which a span starts, as `TextRange::start` reports it.
pub uninterp spec fn range_start(range: TextRange) -> u32;

/// Reads the start offset of a span.
///
/// Trusted: calls `TextRange::start` and widens the `TextSize` it returns
/// with `TextSize::to_u32`. Both only read the stored offset, so the result
/// is a function of the span alone; it is named `range_start`.
#[verifier::external_body]
pub(crate) fn start_offset(range: &TextRange) -> (offset: u32)
    ensures
        offset == range_start(*range),
{
    range.start().to_u32()
}

} // verus!
