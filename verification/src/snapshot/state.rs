//! The durable record of a restoration in progress.
use crate::bytes::from_le16;
use crate::bytes::from_le32;
use crate::bytes::le16;
use crate::bytes::le16_bytes;
use crate::bytes::le32;
use crate::bytes::le32_bytes;
use crate::bytes::lemma_le16;
use crate::bytes::lemma_le32;
use crate::bytes::read_le16;
use crate::bytes::read_le32;
use crate::checksum::crc32;
use crate::error::outcome;
use crate::error::Error;
use crate::error::ErrorView;
use crate::text::decimal;
use crate::text::decimal_digits;
use vstd::prelude::*;
use vstd::slice::slice_subrange;
use vstd::string::StringExecFns;

verus! {

/// How far a restoration got.
#[derive(Debug, Clone, Copy, PartialEq, Eq, Structural)]
pub enum PhysicalRestorePhase {
    Prepared,
    OldMoved,
    NewMoved,
    Committed,
}

/// The phase and the components that existed before, one bit each.
#[derive(Debug, Clone, Copy, PartialEq, Eq, Structural)]
pub struct PhysicalRestoreState {
    pub phase: PhysicalRestorePhase,
    pub old_components: u16,
}

impl View for PhysicalRestoreState {
    type V = PhysicalRestoreState;

    open spec fn view(&self) -> PhysicalRestoreState {
        *self
    }
}

/// Byte length of an encoded state.
pub const ENCODED_STATE_BYTES: usize = 16;

/// Version of the encoding.
pub const RESTORE_STATE_VERSION: u32 = 1;

pub open spec fn state_magic() -> Seq<u8> {
    seq![82u8, 68u8, 88u8, 82u8]
}

pub open spec fn phase_byte(phase: PhysicalRestorePhase) -> u8 {
    match phase {
        PhysicalRestorePhase::Prepared => 1,
        PhysicalRestorePhase::OldMoved => 2,
        PhysicalRestorePhase::NewMoved => 3,
        PhysicalRestorePhase::Committed => 4,
    }
}

pub open spec fn phase_of_byte(byte: u8) -> Option<PhysicalRestorePhase> {
    if byte == 1 {
        Some(PhysicalRestorePhase::Prepared)
    } else if byte == 2 {
        Some(PhysicalRestorePhase::OldMoved)
    } else if byte == 3 {
        Some(PhysicalRestorePhase::NewMoved)
    } else if byte == 4 {
        Some(PhysicalRestorePhase::Committed)
    } else {
        None
    }
}

/// Magic, version, phase, a reserved byte and the components.
pub open spec fn state_body(state: PhysicalRestoreState) -> Seq<u8> {
    state_magic() + le32(RESTORE_STATE_VERSION) + seq![
        phase_byte(state.phase),
        0u8,
    ] + le16(state.old_components)
}

/// The body behind which its checksum stands.
pub open spec fn encoded_state(state: PhysicalRestoreState) -> Seq<u8> {
    state_body(state) + le32(crc32(state_body(state)))
}

pub open spec fn bytes_version(bytes: Seq<u8>) -> u32 {
    from_le32(bytes.subrange(4, 8))
}

pub open spec fn bytes_components(bytes: Seq<u8>) -> u16 {
    from_le16(bytes.subrange(10, 12))
}

/// What bytes say, or why they are not a state.
pub open spec fn decoded_state(bytes: Seq<u8>) -> Result<PhysicalRestoreState, ErrorView> {
    if bytes.len() != ENCODED_STATE_BYTES || bytes.subrange(0, 4) != state_magic() {
        Err(ErrorView::Internal("invalid physical restore state header"@))
    } else if bytes_version(bytes) != RESTORE_STATE_VERSION {
        Err(
            ErrorView::Internal(
                "unsupported physical restore state version "@ + decimal_digits(
                    bytes_version(bytes) as nat,
                ),
            ),
        )
    } else if bytes[9] != 0 {
        Err(ErrorView::Internal("physical restore state has non-zero reserved flags"@))
    } else if from_le32(bytes.subrange(12, 16)) != crc32(bytes.subrange(0, 12)) {
        Err(ErrorView::Internal("physical restore state checksum mismatch"@))
    } else {
        match phase_of_byte(bytes[8]) {
            None => Err(
                ErrorView::Internal(
                    "invalid physical restore phase "@ + decimal_digits(bytes[8] as nat),
                ),
            ),
            Some(phase) => if bytes_components(bytes) >= 256 {
                Err(ErrorView::Internal("physical restore state has an invalid component mask"@))
            } else if bytes_components(bytes) % 4 == 0 {
                Err(
                    ErrorView::Internal(
                        "physical restore state does not preserve a CONTROL slot"@,
                    ),
                )
            } else {
                Ok(PhysicalRestoreState { phase, old_components: bytes_components(bytes) })
            },
        }
    }
}

/// What a state can hold: known components, one of the control slots.
pub open spec fn is_storable(state: PhysicalRestoreState) -> bool {
    state.old_components < 256 && state.old_components % 4 != 0
}

fn has_magic(bytes: &[u8]) -> (r: bool)
    requires
        bytes@.len() >= 4,
    ensures
        r == (bytes@.subrange(0, 4) == state_magic()),
{
    let r: bool = bytes[0] == 82 && bytes[1] == 68 && bytes[2] == 88 && bytes[3] == 82;
    proof {
        if r {
            assert(bytes@.subrange(0, 4) =~= state_magic());
        } else if bytes@.subrange(0, 4) == state_magic() {
            assert(bytes@.subrange(0, 4)[0] == bytes@[0]);
            assert(bytes@.subrange(0, 4)[1] == bytes@[1]);
            assert(bytes@.subrange(0, 4)[2] == bytes@[2]);
            assert(bytes@.subrange(0, 4)[3] == bytes@[3]);
        }
    }
    r
}

impl PhysicalRestoreState {
    /// The state as it is stored.
    pub fn encode(self) -> (bytes: Vec<u8>)
        ensures
            bytes@ == encoded_state(self),
    {
        let mut bytes: Vec<u8> = Vec::new();
        bytes.push(82);
        bytes.push(68);
        bytes.push(88);
        bytes.push(82);
        assert(bytes@ =~= state_magic());
        let mut version: Vec<u8> = le32_bytes(RESTORE_STATE_VERSION);
        bytes.append(&mut version);
        let phase: u8 = match self.phase {
            PhysicalRestorePhase::Prepared => 1,
            PhysicalRestorePhase::OldMoved => 2,
            PhysicalRestorePhase::NewMoved => 3,
            PhysicalRestorePhase::Committed => 4,
        };
        let ghost head = bytes@;
        bytes.push(phase);
        bytes.push(0);
        assert(bytes@ =~= head + seq![phase_byte(self.phase), 0u8]);
        let mut mask: Vec<u8> = le16_bytes(self.old_components);
        bytes.append(&mut mask);
        assert(bytes@ =~= state_body(self));
        let checksum: u32 = crc32fast::hash(bytes.as_slice());
        let mut tail: Vec<u8> = le32_bytes(checksum);
        bytes.append(&mut tail);
        assert(bytes@ =~= encoded_state(self));
        bytes
    }

    /// Reads a stored state back.
    pub fn decode(bytes: &[u8]) -> (r: Result<Self, Error>)
        ensures
            outcome(r) == decoded_state(bytes@),
    {
        if bytes.len() != ENCODED_STATE_BYTES || !has_magic(bytes) {
            return Err(Error::internal("invalid physical restore state header"));
        }
        let version: u32 = read_le32(slice_subrange(bytes, 4, 8));
        if version != RESTORE_STATE_VERSION {
            return Err(
                Error::Internal {
                    message: String::from_str("unsupported physical restore state version ").concat(
                        decimal(version as u64).as_str(),
                    ),
                },
            );
        }
        if bytes[9] != 0 {
            return Err(Error::internal("physical restore state has non-zero reserved flags"));
        }
        let stored: u32 = read_le32(slice_subrange(bytes, 12, 16));
        if stored != crc32fast::hash(slice_subrange(bytes, 0, 12)) {
            return Err(Error::internal("physical restore state checksum mismatch"));
        }
        let phase: PhysicalRestorePhase = if bytes[8] == 1 {
            PhysicalRestorePhase::Prepared
        } else if bytes[8] == 2 {
            PhysicalRestorePhase::OldMoved
        } else if bytes[8] == 3 {
            PhysicalRestorePhase::NewMoved
        } else if bytes[8] == 4 {
            PhysicalRestorePhase::Committed
        } else {
            return Err(
                Error::Internal {
                    message: String::from_str("invalid physical restore phase ").concat(
                        decimal(bytes[8] as u64).as_str(),
                    ),
                },
            );
        };
        let old_components: u16 = read_le16(slice_subrange(bytes, 10, 12));
        if old_components >= 256 {
            return Err(Error::internal("physical restore state has an invalid component mask"));
        }
        if old_components % 4 == 0 {
            return Err(
                Error::internal("physical restore state does not preserve a CONTROL slot"),
            );
        }
        Ok(PhysicalRestoreState { phase, old_components })
    }
}

/// A state that was stored reads back as it was.
pub proof fn law_restore_state_round_trip(state: PhysicalRestoreState)
    requires
        is_storable(state),
    ensures
        decoded_state(encoded_state(state)) == Ok::<PhysicalRestoreState, ErrorView>(state),
{
    lemma_le32();
    lemma_le16();
    let bytes = encoded_state(state);
    let version = le32(RESTORE_STATE_VERSION);
    let mask = le16(state.old_components);
    let sum = le32(crc32(state_body(state)));
    assert(version.len() == 4 && mask.len() == 2 && sum.len() == 4);
    assert(bytes.len() == 16);
    assert(bytes.subrange(0, 4) =~= state_magic());
    assert(bytes.subrange(4, 8) =~= version);
    assert(bytes[8] == phase_byte(state.phase));
    assert(bytes[9] == 0);
    assert(bytes.subrange(10, 12) =~= mask);
    assert(bytes.subrange(0, 12) =~= state_body(state));
    assert(bytes.subrange(12, 16) =~= sum);
}

/// Whatever reads back preserves a control slot and names known components.
pub proof fn law_decoded_state_is_storable(bytes: Seq<u8>)
    requires
        decoded_state(bytes) is Ok,
    ensures
        is_storable(decoded_state(bytes)->Ok_0),
{
}

/// Bytes that read back are exactly what storing the state writes.
pub proof fn law_decoded_bytes_are_the_encoding(bytes: Seq<u8>)
    requires
        decoded_state(bytes) is Ok,
    ensures
        encoded_state(decoded_state(bytes)->Ok_0) == bytes,
{
    lemma_le32();
    lemma_le16();
    let state = decoded_state(bytes)->Ok_0;
    assert(le32(RESTORE_STATE_VERSION) == bytes.subrange(4, 8));
    assert(le16(state.old_components) == bytes.subrange(10, 12));
    assert(phase_byte(state.phase) == bytes[8]);
    assert(state_body(state) =~= bytes.subrange(0, 12));
    assert(le32(crc32(state_body(state))) == bytes.subrange(12, 16));
    assert(encoded_state(state) =~= bytes);
}

} // verus!
