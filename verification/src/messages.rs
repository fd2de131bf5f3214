//! Messages of the installer flows that define a wallet's descriptor,
//! reduced to the plain values this library exchanges with its
//! surrounding interface layers: free-form text edits, selected indexes,
//! thresholds and sequence values, and descriptor keys in the library's
//! own model. The interface layers drive these flows; the library only
//! supplies the key and policy values they carry.

use vstd::prelude::*;

use crate::keys::DescKey;

verus! {

/// Choosing whether the wallet connects to an external bitcoind or
/// manages its own.
#[derive(Debug, Clone, PartialEq, Eq)]
pub enum SelectBitcoindTypeMsg {
    UseExternal(bool),
}

/// Editing an electrum node's configuration: the edited text of its one
/// configuration field, the address.
#[derive(Debug, Clone, PartialEq, Eq)]
pub enum DefineElectrum {
    ConfigFieldEdited(String),
}

/// Editing one key of a spending path.
#[derive(Debug, Clone, PartialEq, Eq)]
pub enum DefineKey {
    Delete,
    Edit,
    Clipboard(String),
    Edited(DescKey),
}

/// Editing one spending path of the descriptor being defined.
#[derive(Debug, Clone, PartialEq, Eq)]
pub enum DefinePath {
    AddKey,
    Key(usize, DefineKey),
    ThresholdEdited(usize),
    SequenceEdited(u16),
    EditSequence,
    EditThreshold,
}

/// The modal that imports one key, by fetching it from a signer (the
/// failure carries the signer's message) or from edited text.
#[derive(Debug, PartialEq, Eq)]
pub enum ImportKeyModal {
    FetchedKey(Result<DescKey, String>),
    XPubEdited(String),
    NameEdited(String),
    ManuallyImportXpub,
    ConfirmXpub,
    SelectKey(usize),
}

/// The modal that edits a path's threshold and its sequence value.
#[derive(Debug, Clone, PartialEq, Eq)]
pub enum ThresholdSequenceModal {
    ThresholdEdited(usize),
    SequenceEdited(String),
    Confirm,
}

} // verus!
