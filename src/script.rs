//! Character classification used by coverage checks.

use vstd::prelude::*;

verus! {

/// The Unicode `Script` property of a character, as the `u8` representation
/// of `unicode_script::Script`.
pub uninterp spec fn script_of(c: char) -> u8;

/// `unicode_script::Script::Inherited` as `u8`; `Common` is `0xFE` and
/// `Unknown` is `0xFF`.
pub const SCRIPT_INHERITED: u8 = 0xFD;

/// Common, Inherited and Unknown: scripts whose characters are too varied for
/// one sample character to stand for all of them.
pub open spec fn is_shared_script(code: u8) -> bool {
    code >= SCRIPT_INHERITED
}

/// General category Cc: the C0 and C1 control codes.
pub open spec fn is_control_spec(c: char) -> bool {
    (c as u32) <= 0x1f || (0x7f <= (c as u32) && (c as u32) <= 0x9f)
}

/// The Unicode `White_Space` property.
pub open spec fn is_whitespace_spec(c: char) -> bool {
    let u = c as u32;
    (0x09 <= u && u <= 0x0d) || u == 0x20 || u == 0x85 || u == 0xa0 || u == 0x1680 || (0x2000
        <= u && u <= 0x200a) || u == 0x2028 || u == 0x2029 || u == 0x202f || u == 0x205f || u
        == 0x3000
}

/// Control and whitespace characters take part in layout but never need a glyph.
pub open spec fn needs_glyph_spec(c: char) -> bool {
    !is_control_spec(c) && !is_whitespace_spec(c)
}

/// What coverage is memoised under: the script for most characters, the
/// character itself for those of a shared script.
#[derive(Clone, Copy, Debug, PartialEq, Eq, Hash, Structural)]
pub enum CoverageKey {
    Script(u8),
    Char(char),
}

pub open spec fn coverage_key_of(c: char) -> CoverageKey {
    if is_shared_script(script_of(c)) {
        CoverageKey::Char(c)
    } else {
        CoverageKey::Script(script_of(c))
    }
}

/// Relies on `unicode_script::UnicodeScript::script` for `char`, read as the
/// `u8` representation of the `Script` enum.
#[verifier::external_body]
fn char_script(c: char) -> (r: u8)
    ensures
        r == script_of(c),
{
    unicode_script::UnicodeScript::script(&c) as u8
}

/// Whether `c` is a control character (general category Cc).
pub fn char_is_control(c: char) -> (r: bool)
    ensures
        r == is_control_spec(c),
{
    let u = c as u32;
    u <= 0x1f || (0x7f <= u && u <= 0x9f)
}

/// Whether `c` has the `White_Space` property.
pub fn char_is_whitespace(c: char) -> (r: bool)
    ensures
        r == is_whitespace_spec(c),
{
    let u = c as u32;
    (0x09 <= u && u <= 0x0d) || u == 0x20 || u == 0x85 || u == 0xa0 || u == 0x1680 || (0x2000
        <= u && u <= 0x200a) || u == 0x2028 || u == 0x2029 || u == 0x202f || u == 0x205f || u
        == 0x3000
}

/// Whether a character must be drawn with a glyph (it is neither a control
/// character nor whitespace).
pub fn needs_glyph(c: char) -> (r: bool)
    ensures
        r == needs_glyph_spec(c),
{
    !char_is_control(c) && !char_is_whitespace(c)
}

/// The key under which the coverage of `c` is recorded.
pub fn coverage_key(c: char) -> (r: CoverageKey)
    ensures
        r == coverage_key_of(c),
{
    let code = char_script(c);
    if code >= SCRIPT_INHERITED {
        CoverageKey::Char(c)
    } else {
        CoverageKey::Script(code)
    }
}

} // verus!
