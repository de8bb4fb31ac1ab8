//! The saved state of a root port: what is kept, and the bytes it is kept
//! in.

use vstd::prelude::*;
use crate::config::{le_u16_at, PCIE_CONFIG_SPACE_SIZE};

verus! {

/// Size in bytes of the saved state of a root port.
pub const ROOT_PORT_STATE_SIZE: usize = 12294;

/// Offset of the write mask in the saved state.
pub const STATE_WRITE_MASK: usize = 4096;

/// Offset of the write-clear mask in the saved state.
pub const STATE_WRITE_CLEAR_MASK: usize = 8192;

/// Offset of the end of the capabilities in the saved state.
pub const STATE_LAST_CAP_END: usize = 12288;

/// Offset of the place of the last extended capability in the saved state.
pub const STATE_LAST_EXT_CAP_OFFSET: usize = 12290;

/// Offset of the end of the extended capabilities in the saved state.
pub const STATE_LAST_EXT_CAP_END: usize = 12292;

/// Alias of a device kind that the registry of saved states does not know.
pub const UNKNOWN_DEVICE_ALIAS: u64 = 0xffff_ffff_ffff_ffff;

/// Oldest version of the saved state that this one can be read as: 0.1.0.
pub const ROOT_PORT_STATE_COMPAT_VERSION: u32 = 0x0000_0100;

/// The state of a root port that survives a snapshot.
#[derive(Clone, Copy, Debug)]
pub struct RootPortState {
    /// The register bytes, padded with zeros.
    pub config_space: [u8; 4096],
    /// The write mask, padded with zeros.
    pub write_mask: [u8; 4096],
    /// The write-clear mask, padded with zeros.
    pub write_clear_mask: [u8; 4096],
    /// Offset behind the last standard capability.
    pub last_cap_end: u16,
    /// Offset of the last extended capability.
    pub last_ext_cap_offset: u16,
    /// Offset behind the last extended capability.
    pub last_ext_cap_end: u16,
}

/// What names the layout of a saved state, so that a reader can tell whether
/// it understands the bytes.
#[derive(Debug)]
pub struct DeviceStateDesc {
    /// Name of the state.
    pub name: String,
    /// Size in bytes of the state.
    pub size: u32,
    /// Oldest version of the state that this one can be read as.
    pub compat_version: u32,
}

/// A saved state as a mathematical value.
pub struct StateModel {
    /// The register bytes, padded with zeros.
    pub config_space: Seq<u8>,
    /// The write mask, padded with zeros.
    pub write_mask: Seq<u8>,
    /// The write-clear mask, padded with zeros.
    pub write_clear_mask: Seq<u8>,
    /// Offset behind the last standard capability.
    pub last_cap_end: u16,
    /// Offset of the last extended capability.
    pub last_ext_cap_offset: u16,
    /// Offset behind the last extended capability.
    pub last_ext_cap_end: u16,
}

impl View for RootPortState {
    type V = StateModel;

    open spec fn view(&self) -> StateModel {
        StateModel {
            config_space: self.config_space@,
            write_mask: self.write_mask@,
            write_clear_mask: self.write_clear_mask@,
            last_cap_end: self.last_cap_end,
            last_ext_cap_offset: self.last_ext_cap_offset,
            last_ext_cap_end: self.last_ext_cap_end,
        }
    }
}

/// The two bytes of `value`, low byte first.
pub open spec fn le_bytes_u16(value: u16) -> Seq<u8> {
    seq![(value % 0x100) as u8, (value / 0x100) as u8]
}

/// `bytes` cut or padded with zeros to the size of a configuration space.
pub open spec fn padded(bytes: Seq<u8>) -> Seq<u8> {
    Seq::new(
        PCIE_CONFIG_SPACE_SIZE as nat,
        |i: int|
            if i < bytes.len() {
                bytes[i]
            } else {
                0u8
            },
    )
}

/// Whether the three buffers of a state have the size of a configuration
/// space.
pub open spec fn state_wf(state: StateModel) -> bool {
    &&& state.config_space.len() == PCIE_CONFIG_SPACE_SIZE
    &&& state.write_mask.len() == PCIE_CONFIG_SPACE_SIZE
    &&& state.write_clear_mask.len() == PCIE_CONFIG_SPACE_SIZE
}

/// The bytes that a state is saved in: the register bytes, the write mask
/// and the write-clear mask, then the three offsets of the capability
/// chain, each low byte first.
pub open spec fn encode_state(state: StateModel) -> Seq<u8> {
    state.config_space + state.write_mask + state.write_clear_mask + le_bytes_u16(
        state.last_cap_end,
    ) + le_bytes_u16(state.last_ext_cap_offset) + le_bytes_u16(state.last_ext_cap_end)
}

/// The state that `bytes` hold; `None` when they have not the size of a
/// saved state.
pub open spec fn decode_state(bytes: Seq<u8>) -> Option<StateModel> {
    if bytes.len() != ROOT_PORT_STATE_SIZE {
        None
    } else {
        Some(
            StateModel {
                config_space: bytes.subrange(0, STATE_WRITE_MASK as int),
                write_mask: bytes.subrange(STATE_WRITE_MASK as int, STATE_WRITE_CLEAR_MASK as int),
                write_clear_mask: bytes.subrange(
                    STATE_WRITE_CLEAR_MASK as int,
                    STATE_LAST_CAP_END as int,
                ),
                last_cap_end: le_u16_at(bytes, STATE_LAST_CAP_END as int),
                last_ext_cap_offset: le_u16_at(bytes, STATE_LAST_EXT_CAP_OFFSET as int),
                last_ext_cap_end: le_u16_at(bytes, STATE_LAST_EXT_CAP_END as int),
            },
        )
    }
}

/// A state that is saved and read back is the same state.
pub proof fn lemma_decode_of_encode(state: StateModel)
    requires
        state_wf(state),
    ensures
        encode_state(state).len() == ROOT_PORT_STATE_SIZE,
        decode_state(encode_state(state)) == Some(state),
{
    let bytes = encode_state(state);
    let back = decode_state(bytes)->0;
    assert(back.config_space =~= state.config_space);
    assert(back.write_mask =~= state.write_mask);
    assert(back.write_clear_mask =~= state.write_clear_mask);
    assert(bytes[STATE_LAST_CAP_END as int] == (state.last_cap_end % 0x100) as u8);
    assert(bytes[STATE_LAST_CAP_END + 1] == (state.last_cap_end / 0x100) as u8);
    assert(bytes[STATE_LAST_EXT_CAP_OFFSET as int] == (state.last_ext_cap_offset % 0x100) as u8);
    assert(bytes[STATE_LAST_EXT_CAP_OFFSET + 1] == (state.last_ext_cap_offset / 0x100) as u8);
    assert(bytes[STATE_LAST_EXT_CAP_END as int] == (state.last_ext_cap_end % 0x100) as u8);
    assert(bytes[STATE_LAST_EXT_CAP_END + 1] == (state.last_ext_cap_end / 0x100) as u8);
}

/// Bytes of the right size that are read and saved again are the same
/// bytes: the layout has no bit to spare.
pub proof fn lemma_encode_of_decode(bytes: Seq<u8>)
    requires
        bytes.len() == ROOT_PORT_STATE_SIZE,
    ensures
        decode_state(bytes) matches Some(state) && state_wf(state) && encode_state(state) == bytes,
{
    let state = decode_state(bytes)->0;
    let again = encode_state(state);
    assert(again.len() == bytes.len());
    assert(again =~= bytes);
}

impl RootPortState {
    /// A state of zeros.
    pub fn new() -> (state: RootPortState)
        ensures
            state@.config_space == Seq::new(PCIE_CONFIG_SPACE_SIZE as nat, |i: int| 0u8),
            state@.write_mask == Seq::new(PCIE_CONFIG_SPACE_SIZE as nat, |i: int| 0u8),
            state@.write_clear_mask == Seq::new(PCIE_CONFIG_SPACE_SIZE as nat, |i: int| 0u8),
            state.last_cap_end == 0,
            state.last_ext_cap_offset == 0,
            state.last_ext_cap_end == 0,
    {
        let state = RootPortState {
            config_space: [0u8;4096],
            write_mask: [0u8;4096],
            write_clear_mask: [0u8;4096],
            last_cap_end: 0,
            last_ext_cap_offset: 0,
            last_ext_cap_end: 0,
        };
        state
    }

    /// What names the layout of this state.
    pub fn descriptor() -> (desc: DeviceStateDesc)
        ensures
            desc.name@ == "RootPortState"@,
            desc.size == ROOT_PORT_STATE_SIZE,
            desc.compat_version == ROOT_PORT_STATE_COMPAT_VERSION,
    {
        DeviceStateDesc {
            name: "RootPortState".to_string(),
            size: ROOT_PORT_STATE_SIZE as u32,
            compat_version: ROOT_PORT_STATE_COMPAT_VERSION,
        }
    }

    /// The bytes that the state is saved in; see [`encode_state`].
    pub fn as_bytes(&self) -> (bytes: Vec<u8>)
        ensures
            bytes@ == encode_state(self@),
            bytes@.len() == ROOT_PORT_STATE_SIZE,
    {
        let mut bytes: Vec<u8> = Vec::with_capacity(ROOT_PORT_STATE_SIZE);
        bytes.extend_from_slice(self.config_space.as_slice());
        bytes.extend_from_slice(self.write_mask.as_slice());
        bytes.extend_from_slice(self.write_clear_mask.as_slice());
        assert(bytes@ =~= self.config_space@ + self.write_mask@ + self.write_clear_mask@);
        bytes.push((self.last_cap_end % 0x100) as u8);
        bytes.push((self.last_cap_end / 0x100) as u8);
        bytes.push((self.last_ext_cap_offset % 0x100) as u8);
        bytes.push((self.last_ext_cap_offset / 0x100) as u8);
        bytes.push((self.last_ext_cap_end % 0x100) as u8);
        bytes.push((self.last_ext_cap_end / 0x100) as u8);
        bytes
    }

    /// The state that `bytes` hold; `None` when they have not the size of a
    /// saved state. See [`decode_state`].
    pub fn from_bytes(bytes: &[u8]) -> (r: Option<RootPortState>)
        ensures
            match r {
                Some(state) => decode_state(bytes@) == Some(state@),
                None => decode_state(bytes@) is None,
            },
    {
        if bytes.len() != ROOT_PORT_STATE_SIZE {
            return None;
        }
        let mut state = RootPortState::new();
        let mut i: usize = 0;
        while i < PCIE_CONFIG_SPACE_SIZE
            invariant
                i <= PCIE_CONFIG_SPACE_SIZE,
                bytes.len() == ROOT_PORT_STATE_SIZE,
                forall|k: int| 0 <= k < i ==> state.config_space@[k] == bytes@[k],
                forall|k: int| 0 <= k < i ==> state.write_mask@[k] == bytes@[STATE_WRITE_MASK + k],
                forall|k: int|
                    0 <= k < i ==> state.write_clear_mask@[k] == bytes@[STATE_WRITE_CLEAR_MASK + k],
            decreases PCIE_CONFIG_SPACE_SIZE - i,
        {
            state.config_space[i] = bytes[i];
            state.write_mask[i] = bytes[STATE_WRITE_MASK + i];
            state.write_clear_mask[i] = bytes[STATE_WRITE_CLEAR_MASK + i];
            i = i + 1;
        }
        let low: u16 = bytes[STATE_LAST_CAP_END] as u16;
        let high: u16 = bytes[STATE_LAST_CAP_END + 1] as u16;
        state.last_cap_end = low + 0x100 * high;
        let low: u16 = bytes[STATE_LAST_EXT_CAP_OFFSET] as u16;
        let high: u16 = bytes[STATE_LAST_EXT_CAP_OFFSET + 1] as u16;
        state.last_ext_cap_offset = low + 0x100 * high;
        let low: u16 = bytes[STATE_LAST_EXT_CAP_END] as u16;
        let high: u16 = bytes[STATE_LAST_EXT_CAP_END + 1] as u16;
        state.last_ext_cap_end = low + 0x100 * high;
        proof {
            let model = decode_state(bytes@)->0;
            assert(state@.config_space =~= model.config_space);
            assert(state@.write_mask =~= model.write_mask);
            assert(state@.write_clear_mask =~= model.write_clear_mask);
        }
        Some(state)
    }
}

impl Default for RootPortState {
    fn default() -> (state: RootPortState)
        ensures
            state@.config_space == Seq::new(PCIE_CONFIG_SPACE_SIZE as nat, |i: int| 0u8),
            state@.write_mask == Seq::new(PCIE_CONFIG_SPACE_SIZE as nat, |i: int| 0u8),
            state@.write_clear_mask == Seq::new(PCIE_CONFIG_SPACE_SIZE as nat, |i: int| 0u8),
            state.last_cap_end == 0,
            state.last_ext_cap_offset == 0,
            state.last_ext_cap_end == 0,
    {
        RootPortState::new()
    }
}

} // verus!
