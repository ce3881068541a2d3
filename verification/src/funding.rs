//! Funding a channel: the address of its funding output and the signed transaction.

use crate::chain::Network;
use crate::text::hex_value;
use crate::text::is_hex;
use crate::text::to_vec;
use vstd::prelude::*;
use vstd::utf8::encode_utf8;

verus! {

/// Why an output script is no witness program.
#[derive(Clone, Copy, Debug, PartialEq, Eq, Structural)]
pub enum ScriptError {
    /// Fewer than four bytes: no room for a version, a length and a program.
    TooShort,
    /// The length byte does not say how many bytes follow it.
    LengthMismatch,
    /// The version is above sixteen.
    InvalidVersion,
    /// The program is longer than forty bytes, or has version zero and neither twenty
    /// nor thirty-two bytes.
    InvalidProgramLength,
}

/// Why a signed transaction cannot be handed on.
#[derive(Clone, Copy, Debug, PartialEq, Eq, Structural)]
pub enum SignedError {
    /// The text is not hexadecimal.
    InvalidHex,
    /// The bytes do not decode as a transaction.
    InvalidTransaction,
}

/// The witness version that the first byte of a script stands for: the byte itself up
/// to `0x50`, and the byte less `0x50` above that.
pub open spec fn witness_version(first: u8) -> int {
    if first > 0x50 {
        first - 0x50
    } else {
        first as int
    }
}

/// What keeps a script from being a witness program, if anything: a witness program is a
/// version byte, a length byte and a program of that length, of two to forty bytes.
pub open spec fn script_fault(script: Seq<u8>) -> Option<ScriptError> {
    if script.len() < 4 {
        Some(ScriptError::TooShort)
    } else if script.len() != 2 + script[1] {
        Some(ScriptError::LengthMismatch)
    } else if witness_version(script[0]) > 16 {
        Some(ScriptError::InvalidVersion)
    } else if script[1] > 40 {
        Some(ScriptError::InvalidProgramLength)
    } else if witness_version(script[0]) == 0 && script[1] != 20 && script[1] != 32 {
        Some(ScriptError::InvalidProgramLength)
    } else {
        None
    }
}

/// The segwit address of a witness program on a network, as `bitcoin_bech32` encodes it.
pub uninterp spec fn segwit_address(script: Seq<u8>, network: Network) -> Seq<char>;

/// Whether bytes are the consensus encoding of a transaction, as `bitcoin` decodes it.
pub uninterp spec fn decodes_as_transaction(bytes: Seq<u8>) -> bool;

/// Calls `WitnessProgram::from_scriptpubkey` of `bitcoin_bech32` and, where that gives a
/// program, `WitnessProgram::to_address`.
///
/// The contract claims two things of a script that is a witness program. The call gives
/// an address: `from_scriptpubkey` fails on a script that is too short, whose length byte
/// is wrong, whose version is above sixteen or whose program has a length that its
/// version does not allow, and `script_fault` rules each of these out. And the address
/// is the named one, of which nothing more is said. The scripts on which
/// `from_scriptpubkey` stops with a panic, those with a version byte out of range, are
/// among those left out.
#[verifier::external_body]
fn encode_address(script: &[u8], network: Network) -> (address: Option<String>)
    requires
        script_fault(script@) is None,
    ensures
        address is Some,
        address.unwrap()@ == segwit_address(script@, network),
{
    let on = match network {
        Network::Bitcoin => bitcoin_bech32::constants::Network::Bitcoin,
        Network::Testnet => bitcoin_bech32::constants::Network::Testnet,
        Network::Regtest => bitcoin_bech32::constants::Network::Regtest,
        Network::Signet => bitcoin_bech32::constants::Network::Signet,
    };
    bitcoin_bech32::WitnessProgram::from_scriptpubkey(script, on).ok().map(|p| p.to_address())
}

/// Calls `consensus::encode::deserialize` of `bitcoin` for a `Transaction` and says
/// whether it succeeded. The contract names the answer and says nothing more of it.
#[verifier::external_body]
fn decode_transaction(bytes: &[u8]) -> (decodes: bool)
    ensures
        decodes == decodes_as_transaction(bytes@),
{
    bitcoin::consensus::encode::deserialize::<bitcoin::Transaction>(bytes).is_ok()
}

/// Checks that a script is a witness program.
pub fn check_script(script: &[u8]) -> (outcome: Result<(), ScriptError>)
    ensures
        match script_fault(script@) {
            Some(fault) => outcome == Err::<(), ScriptError>(fault),
            None => outcome is Ok,
        },
{
    if script.len() < 4 {
        return Err(ScriptError::TooShort);
    }
    let length: u8 = script[1];
    if script.len() - 2 != length as usize {
        return Err(ScriptError::LengthMismatch);
    }
    let first: u8 = script[0];
    let version: u8 = if first > 0x50 {
        first - 0x50
    } else {
        first
    };
    if version > 16 {
        return Err(ScriptError::InvalidVersion);
    }
    if length > 40 {
        return Err(ScriptError::InvalidProgramLength);
    }
    if version == 0 && length != 20 && length != 32 {
        return Err(ScriptError::InvalidProgramLength);
    }
    Ok(())
}

/// The funding address of a script on a network: every witness program has one, and a
/// script that is none has a fault in its place.
pub open spec fn address_of(script: Seq<u8>, network: Network) -> Result<Seq<char>, ScriptError> {
    match script_fault(script) {
        Some(fault) => Err(fault),
        None => Ok(segwit_address(script, network)),
    }
}

/// The segwit address that pays to an output script on a network.
///
/// Every witness program has an address. A script that is no witness program has none,
/// and the fault says why.
pub fn funding_address(script: &[u8], network: Network) -> (address: Result<String, ScriptError>)
    ensures
        address is Ok <==> script_fault(script@) is None,
        match address_of(script@, network) {
            Ok(text) => address matches Ok(a) && a@ == text,
            Err(fault) => address == Err::<String, ScriptError>(fault),
        },
{
    match check_script(script) {
        Err(fault) => Err(fault),
        Ok(()) => match encode_address(script, network) {
            Some(address) => Ok(address),
            None => vstd::pervasive::unreached(),
        },
    }
}

/// What the signed transaction is, given its hexadecimal text: the bytes that the text
/// stands for, where it is hexadecimal and the bytes decode as a transaction.
pub open spec fn signed_bytes(hex: Seq<char>) -> Result<Seq<u8>, SignedError> {
    let text = encode_utf8(hex);
    if !is_hex(text) {
        Err(SignedError::InvalidHex)
    } else if !decodes_as_transaction(hex_value(text)) {
        Err(SignedError::InvalidTransaction)
    } else {
        Ok(hex_value(text))
    }
}

/// Reads the signed transaction that the wallet gave as hexadecimal text.
pub fn signed_transaction(hex: &str) -> (transaction: Result<Vec<u8>, SignedError>)
    ensures
        match signed_bytes(hex@) {
            Ok(bytes) => transaction matches Ok(t) && t@ == bytes,
            Err(fault) => transaction == Err::<Vec<u8>, SignedError>(fault),
        },
{
    match to_vec(hex) {
        None => Err(SignedError::InvalidHex),
        Some(bytes) => {
            if decode_transaction(bytes.as_slice()) {
                Ok(bytes)
            } else {
                Err(SignedError::InvalidTransaction)
            }
        },
    }
}

} // verus!
