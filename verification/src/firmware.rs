//! Firmware images.
use crate::fault::{fault, passes, EngineError, Fault};
use vstd::prelude::*;

verus! {

#[derive(Clone, Copy, Debug, PartialEq, Eq, Hash, Structural)]
pub enum FirmwareFormat {
    Elf,
    IntelHex,
    Binary,
}

/// Immutable firmware payload handed to an MCU backend.
///
/// Executable formats are not parsed or emulated here. The backend owns
/// ELF/HEX/BIN loading; the bytes and the minimal metadata needed to invoke
/// that backend deterministically are kept.
#[derive(Clone, Debug, PartialEq, Eq)]
pub struct FirmwareArtifact {
    pub format: FirmwareFormat,
    pub bytes: Vec<u8>,
    pub load_address: Option<u64>,
    pub entry_point: Option<u64>,
}

impl FirmwareArtifact {
    pub fn elf(bytes: Vec<u8>) -> (r: Self)
        ensures
            r.format == FirmwareFormat::Elf,
            r.bytes == bytes,
            r.load_address is None,
            r.entry_point is None,
    {
        FirmwareArtifact {
            format: FirmwareFormat::Elf,
            bytes,
            load_address: None,
            entry_point: None,
        }
    }

    pub fn intel_hex(bytes: Vec<u8>) -> (r: Self)
        ensures
            r.format == FirmwareFormat::IntelHex,
            r.bytes == bytes,
            r.load_address is None,
            r.entry_point is None,
    {
        FirmwareArtifact {
            format: FirmwareFormat::IntelHex,
            bytes,
            load_address: None,
            entry_point: None,
        }
    }

    pub fn binary(bytes: Vec<u8>, load_address: u64) -> (r: Self)
        ensures
            r.format == FirmwareFormat::Binary,
            r.bytes == bytes,
            r.load_address == Some(load_address),
            r.entry_point is None,
    {
        FirmwareArtifact {
            format: FirmwareFormat::Binary,
            bytes,
            load_address: Some(load_address),
            entry_point: None,
        }
    }

    pub fn with_entry_point(self, entry_point: u64) -> (r: Self)
        ensures
            r == (FirmwareArtifact { entry_point: Some(entry_point), ..self }),
    {
        FirmwareArtifact {
            format: self.format,
            bytes: self.bytes,
            load_address: self.load_address,
            entry_point: Some(entry_point),
        }
    }

    /// What is wrong with the artifact, if anything.
    pub open spec fn failure(self) -> Option<Fault> {
        if self.bytes@.len() == 0 {
            Some(fault("firmware_artifact_invalid"@, "firmware artifact must not be empty"@))
        } else if self.format == FirmwareFormat::Binary && self.load_address is None {
            Some(
                fault(
                    "firmware_artifact_invalid"@,
                    "raw binary firmware requires an explicit load_address"@,
                ),
            )
        } else {
            None
        }
    }

    pub fn validate(&self) -> (r: Result<(), EngineError>)
        ensures
            passes(r, self.failure()),
    {
        if self.bytes.len() == 0 {
            return Err(
                EngineError::new(
                    "firmware_artifact_invalid",
                    "firmware artifact must not be empty",
                ),
            );
        }
        if self.format == FirmwareFormat::Binary && self.load_address.is_none() {
            return Err(
                EngineError::new(
                    "firmware_artifact_invalid",
                    "raw binary firmware requires an explicit load_address",
                ),
            );
        }
        Ok(())
    }

    /// The file name extension of the format.
    pub open spec fn spec_extension(self) -> Seq<char> {
        match self.format {
            FirmwareFormat::Elf => "elf"@,
            FirmwareFormat::IntelHex => "hex"@,
            FirmwareFormat::Binary => "bin"@,
        }
    }

    pub fn extension(&self) -> (r: &'static str)
        ensures
            r@ == self.spec_extension(),
    {
        match self.format {
            FirmwareFormat::Elf => "elf",
            FirmwareFormat::IntelHex => "hex",
            FirmwareFormat::Binary => "bin",
        }
    }
}

} // verus!
