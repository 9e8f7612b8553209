//! The plugin contract as the engine sees it: what a plugin describes about
//! itself, and the input check every plugin applies.

use vstd::prelude::*;
use vstd::string::*;

verus! {

/// The version of the plugin function table that this engine expects.
pub const PLUGIN_ABI_VERSION: u32 = 1;

/// One thing a plugin can do.
#[derive(Clone, Debug)]
pub struct Capability {
    pub name: String,
    pub description: String,
    pub input_type: String,
    pub output_type: String,
}

/// What a plugin tells about itself once loaded.
#[derive(Clone, Debug)]
pub struct PluginDescriptor {
    pub name: String,
    pub version: String,
    pub description: String,
    pub author: String,
    pub tags: Vec<String>,
    pub capabilities: Vec<Capability>,
    pub input_schema: Option<String>,
    pub output_schema: Option<String>,
}

/// The characters with the Unicode White_Space property.
pub open spec fn is_space(c: char) -> bool {
    ('\t' <= c && c <= '\r') || c == ' ' || c == '\u{85}' || c == '\u{A0}' || c == '\u{1680}' || (
    '\u{2000}' <= c && c <= '\u{200A}') || c == '\u{2028}' || c == '\u{2029}' || c == '\u{202F}'
        || c == '\u{205F}' || c == '\u{3000}'
}

pub open spec fn is_blank(s: Seq<char>) -> bool {
    forall|i: int| 0 <= i < s.len() ==> is_space(#[trigger] s[i])
}

fn space_char(c: char) -> (r: bool)
    ensures
        r == is_space(c),
{
    ('\t' <= c && c <= '\r') || c == ' ' || c == '\u{85}' || c == '\u{A0}' || c == '\u{1680}' || (
    '\u{2000}' <= c && c <= '\u{200A}') || c == '\u{2028}' || c == '\u{2029}' || c == '\u{202F}'
        || c == '\u{205F}' || c == '\u{3000}'
}

/// The pre-flight check of a plugin: the input holds something besides
/// white space.
pub fn validate_input(text: &str) -> (r: bool)
    ensures
        r == !is_blank(text@),
{
    let n = text.unicode_len();
    let mut i: usize = 0;
    while i < n
        invariant
            n == text@.len(),
            i <= n,
            forall|k: int| 0 <= k < i ==> is_space(#[trigger] text@[k]),
        decreases n - i,
    {
        if !space_char(text.get_char(i)) {
            return true;
        }
        i = i + 1;
    }
    false
}

} // verus!
