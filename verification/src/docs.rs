//! The documents that come with the emulator, and the names they go by.

use vstd::prelude::*;
use vstd::string::StringExecFns;

verus! {

/// A document of the emulator.
#[derive(Debug, Clone, Copy, PartialEq, Eq, Structural)]
pub enum Docs {
    Instructions,
    SystemCalls,
    Memory,
}

/// What `str::to_lowercase` of the standard library makes of a text.
pub uninterp spec fn lowercase_of(text: Seq<char>) -> Seq<char>;

/// `str::to_lowercase` of the standard library: the text with every
/// character replaced by its lower case form, which depends on the
/// characters alone.
#[verifier::external_body]
fn to_lowercase(text: &String) -> (lower: String)
    ensures
        lower@ == lowercase_of(text@),
{
    text.to_lowercase()
}

/// The document whose name, in lower case, is `name`.
pub open spec fn doc_named(name: Seq<char>) -> Option<Docs> {
    if name == "instructions"@ {
        Some(Docs::Instructions)
    } else if name == "syscalls"@ {
        Some(Docs::SystemCalls)
    } else if name == "memory"@ {
        Some(Docs::Memory)
    } else {
        None
    }
}

impl Docs {
    /// The document that goes by `name`, which is taken as it is written.
    pub fn from_name(name: &String) -> (doc: Option<Docs>)
        ensures
            doc == doc_named(name@),
    {
        if *name == String::from_str("instructions") {
            Some(Docs::Instructions)
        } else if *name == String::from_str("syscalls") {
            Some(Docs::SystemCalls)
        } else if *name == String::from_str("memory") {
            Some(Docs::Memory)
        } else {
            None
        }
    }

    /// The document that goes by `input`, whatever the case of its letters.
    pub fn from_string(input: String) -> (doc: Option<Docs>)
        ensures
            doc == doc_named(lowercase_of(input@)),
    {
        let lower = to_lowercase(&input);
        Docs::from_name(&lower)
    }
}

} // verus!
