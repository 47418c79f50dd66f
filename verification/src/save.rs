//! Save slots and the save format's version check. A save whose format
//! version differs from this build's is refused outright, never migrated.

use vstd::prelude::*;

use crate::text::{decimal, decimal_chars};

verus! {

pub const FORMAT_VERSION: u32 = 1;

#[verifier::external_type_specification]
#[verifier::external_body]
pub struct ExIoError(std::io::Error);

#[derive(Debug)]
pub enum SaveError {
    Io(std::io::Error),
    Encode(String),
    Decode(String),
    /// Incompatible data, refused without touching it.
    Incompatible { found: u32, expected: u32 },
}

/// The message shown for an I/O error: what `std::io::Error`'s `Display`
/// writes. Nothing is promised of the text.
#[verifier::external_body]
fn io_error_text(e: &std::io::Error) -> String {
    e.to_string()
}

impl SaveError {
    /// The error as one line of text.
    pub fn describe(&self) -> (s: String)
        ensures
            self matches SaveError::Io(_) ==> s@.len() >= 4 && s@.take(4) == "io: "@,
            self matches SaveError::Encode(e) ==> s@ == "encode: "@ + e@,
            self matches SaveError::Decode(e) ==> s@ == "decode: "@ + e@,
            self matches SaveError::Incompatible { found, expected } ==> s@ == "incompatible save: found "@
                + decimal_chars(found as nat) + ", expected "@ + decimal_chars(expected as nat),
    {
        match self {
            SaveError::Io(e) => {
                let mut s = String::from_str("io: ");
                let t = io_error_text(e);
                s.append(t.as_str());
                proof {
                    reveal_strlit("io: ");
                    assert(s@.take(4) =~= "io: "@);
                }
                s
            },
            SaveError::Encode(e) => {
                let mut s = String::from_str("encode: ");
                s.append(e.as_str());
                s
            },
            SaveError::Decode(e) => {
                let mut s = String::from_str("decode: ");
                s.append(e.as_str());
                s
            },
            SaveError::Incompatible { found, expected } => {
                let mut s = String::from_str("incompatible save: found ");
                s.append(decimal(*found as u64).as_str());
                s.append(", expected ");
                s.append(decimal(*expected as u64).as_str());
                s
            },
        }
    }
}

/// Accepts exactly this build's format version.
pub fn check_format_version(found: u32) -> (r: Result<(), SaveError>)
    ensures
        found == FORMAT_VERSION ==> r is Ok,
        found != FORMAT_VERSION ==> (r matches Err(SaveError::Incompatible { found: f, expected: e })
            && f == found && e == FORMAT_VERSION),
{
    if found != FORMAT_VERSION {
        return Err(SaveError::Incompatible { found, expected: FORMAT_VERSION });
    }
    Ok(())
}

/// The file name of a save slot, relative to the save directory.
pub fn slot_path(slot: &str) -> (p: String)
    ensures
        p@ == slot@ + ".ron"@,
{
    let mut p = String::from_str(slot);
    p.append(".ron");
    p
}

/// The name of the `index`-th autosave: autosaves rotate over three slots.
pub open spec fn spec_autosave_slot(index: u32) -> Seq<char> {
    "auto"@ + decimal_chars((index % 3) as nat)
}

pub fn autosave_slot(index: u32) -> (s: String)
    ensures
        s@ == spec_autosave_slot(index),
{
    let mut s = String::from_str("auto");
    s.append(decimal((index % 3) as u64).as_str());
    s
}

/// Counts the autosaves written so far, to pick the next slot.
#[derive(Clone, Copy, PartialEq, Eq, Debug, Structural)]
pub struct AutosaveCounter(pub u32);

impl Default for AutosaveCounter {
    fn default() -> (c: AutosaveCounter)
        ensures
            c.0 == 0,
    {
        AutosaveCounter(0)
    }
}

impl AutosaveCounter {
    /// The slot for the next autosave; the counter moves on by one.
    pub fn next_slot(&mut self) -> (s: String)
        requires
            old(self).0 < u32::MAX,
        ensures
            s@ == spec_autosave_slot(old(self).0),
            final(self).0 == old(self).0 + 1,
    {
        let slot = autosave_slot(self.0);
        self.0 = self.0 + 1;
        slot
    }
}

/// Autosaves rotate over exactly three slots: the slot repeats every three
/// saves, and three consecutive saves use three different slots.
pub proof fn lemma_autosave_rotation(index: u32)
    requires
        index <= u32::MAX - 2,
    ensures
        index <= u32::MAX - 3 ==> spec_autosave_slot(index) == spec_autosave_slot(
            (index + 3) as u32,
        ),
        spec_autosave_slot(index) != spec_autosave_slot((index + 1) as u32),
        spec_autosave_slot(index) != spec_autosave_slot((index + 2) as u32),
        spec_autosave_slot((index + 1) as u32) != spec_autosave_slot((index + 2) as u32),
{
    reveal_strlit("auto");
    let a = spec_autosave_slot(index);
    let b = spec_autosave_slot((index + 1) as u32);
    let c = spec_autosave_slot((index + 2) as u32);
    assert(a[4] != b[4]);
    assert(a[4] != c[4]);
    assert(b[4] != c[4]);
}

} // verus!
