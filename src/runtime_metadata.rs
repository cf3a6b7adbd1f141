use vstd::prelude::*;

verus! {

/// A part that a pallet declares in a runtime.
#[derive(Clone, Copy, Debug, PartialEq, Eq, Structural)]
pub enum PalletPart {
    Pallet,
    Call,
    Storage,
    Event,
    Config,
    Origin,
    Inherent,
    ValidateUnsigned,
}

/// Which optional sections the runtime metadata describes for one pallet. Constants and
/// errors are always described.
#[derive(Clone, Copy, Debug, PartialEq, Eq, Structural)]
pub struct MetadataSections {
    pub storage: bool,
    pub calls: bool,
    pub event: bool,
}

/// The sections of the runtime metadata for a pallet declared with `parts`: none at all
/// unless it declares its `Pallet` part; then storage, calls and event exactly where it
/// declares the matching part.
pub fn metadata_sections(parts: &Vec<PalletPart>) -> (r: Option<MetadataSections>)
    ensures
        r is Some <==> parts@.contains(PalletPart::Pallet),
        r matches Some(m) ==> {
            &&& m.storage == parts@.contains(PalletPart::Storage)
            &&& m.calls == parts@.contains(PalletPart::Call)
            &&& m.event == parts@.contains(PalletPart::Event)
        },
{
    let mut pallet = false;
    let mut m = MetadataSections { storage: false, calls: false, event: false };
    let mut i: usize = 0;
    while i < parts.len()
        invariant
            i <= parts@.len(),
            pallet == (exists|j: int| 0 <= j < i && parts@[j] == PalletPart::Pallet),
            m.storage == (exists|j: int| 0 <= j < i && parts@[j] == PalletPart::Storage),
            m.calls == (exists|j: int| 0 <= j < i && parts@[j] == PalletPart::Call),
            m.event == (exists|j: int| 0 <= j < i && parts@[j] == PalletPart::Event),
        decreases parts@.len() - i,
    {
        let part = parts[i];
        if part == PalletPart::Pallet {
            pallet = true;
        } else if part == PalletPart::Storage {
            m.storage = true;
        } else if part == PalletPart::Call {
            m.calls = true;
        } else if part == PalletPart::Event {
            m.event = true;
        }
        proof {
            assert(parts@[i as int] == part);
        }
        i += 1;
    }
    if pallet {
        Some(m)
    } else {
        None
    }
}

} // verus!
