//! Grammar selection by file extension: a pure lookup, with an explicit
//! error (here `None`) for unrecognized extensions. The caller maps the
//! returned handle to its parsing engine before any traversal begins.

use vstd::prelude::*;

verus! {

/// The grammars a source file can be parsed with.
#[derive(Clone, Copy, PartialEq, Eq, Structural, Debug)]
pub enum Grammar {
    Java,
    CSharp,
}

/// Which grammar a file extension selects, if any.
pub open spec fn grammar_for(ext: Seq<char>) -> Option<Grammar> {
    if ext == "java"@ {
        Some(Grammar::Java)
    } else if ext == "cs"@ {
        Some(Grammar::CSharp)
    } else {
        None
    }
}

/// Maps a file extension to its grammar; `None` for an unsupported one.
pub fn grammar_for_extension(ext: &str) -> (r: Option<Grammar>)
    ensures
        r == grammar_for(ext@),
{
    let e: String = ext.to_owned();
    let java_ext: String = "java".to_owned();
    if e == java_ext {
        return Some(Grammar::Java);
    }
    let cs_ext: String = "cs".to_owned();
    if e == cs_ext {
        return Some(Grammar::CSharp);
    }
    None
}

} // verus!
