//! The networks a node can run on, and what the chain backend reports of itself.

use vstd::prelude::*;

verus! {

/// The network a node runs on.
#[derive(Clone, Copy, Debug, PartialEq, Eq, Structural)]
pub enum Network {
    Bitcoin,
    Testnet,
    Regtest,
    Signet,
}

/// What the chain backend reports: the tip of its best chain.
#[derive(Clone, Copy, Debug, PartialEq, Eq)]
pub struct ChainTip {
    pub best_hash: [u8; 32],
    pub best_height: u32,
}

/// How soon a transaction is to confirm.
#[derive(Clone, Copy, Debug, PartialEq, Eq, Hash, Structural)]
pub enum UrgencyTier {
    Background,
    Normal,
    HighPriority,
}

/// The least fee rate, in satoshis per thousand weight units, that the engine accepts.
pub const MIN_FEERATE: u32 = 253;

impl UrgencyTier {
    /// The fee rate that is taken while the chain backend has no estimate.
    pub open spec fn fallback(self) -> u32 {
        match self {
            UrgencyTier::Background => MIN_FEERATE,
            UrgencyTier::Normal => 2000,
            UrgencyTier::HighPriority => 5000,
        }
    }

    /// The fee rate for a tier, given the estimate of the chain backend: the estimate,
    /// but no less than the least rate; the fallback of the tier without an estimate.
    pub open spec fn rate(self, estimate: Option<u32>) -> u32 {
        match estimate {
            Some(rate) => if rate < MIN_FEERATE {
                MIN_FEERATE
            } else {
                rate
            },
            None => self.fallback(),
        }
    }

    /// Within how many blocks a transaction of the tier is to confirm.
    pub open spec fn blocks(self) -> u32 {
        match self {
            UrgencyTier::Background => 144,
            UrgencyTier::Normal => 18,
            UrgencyTier::HighPriority => 6,
        }
    }

    /// Within how many blocks a transaction of the tier is to confirm.
    pub fn confirmation_target(&self) -> (blocks: u32)
        ensures
            blocks == self.blocks(),
    {
        match self {
            UrgencyTier::Background => 144,
            UrgencyTier::Normal => 18,
            UrgencyTier::HighPriority => 6,
        }
    }

    /// The fee rate for the tier, in satoshis per thousand weight units.
    pub fn fee_rate(&self, estimate: Option<u32>) -> (rate: u32)
        ensures
            rate == self.rate(estimate),
            rate >= MIN_FEERATE,
    {
        match estimate {
            Some(rate) => if rate < MIN_FEERATE {
                MIN_FEERATE
            } else {
                rate
            },
            None => match self {
                UrgencyTier::Background => MIN_FEERATE,
                UrgencyTier::Normal => 2000,
                UrgencyTier::HighPriority => 5000,
            },
        }
    }
}

impl Network {
    /// The name by which the chain backend calls the network.
    pub open spec fn chain_name(self) -> Seq<char> {
        match self {
            Network::Bitcoin => "main"@,
            Network::Testnet => "test"@,
            Network::Regtest => "regtest"@,
            Network::Signet => "signet"@,
        }
    }

    /// The name by which the chain backend calls the network.
    pub fn chain(&self) -> (name: &'static str)
        ensures
            name@ == self.chain_name(),
    {
        match self {
            Network::Bitcoin => "main",
            Network::Testnet => "test",
            Network::Regtest => "regtest",
            Network::Signet => "signet",
        }
    }

    /// Whether the chain that the backend reports is the one of this network.
    pub fn runs_on(&self, reported: &str) -> (same: bool)
        ensures
            same == (reported@ == self.chain_name()),
    {
        same_text(reported, self.chain())
    }
}

/// Whether two texts are the same.
pub fn same_text(a: &str, b: &str) -> (same: bool)
    ensures
        same == (a@ == b@),
{
    let left = a.as_bytes();
    let right = b.as_bytes();
    proof {
        vstd::utf8::encode_utf8_decode_utf8(a@);
        vstd::utf8::encode_utf8_decode_utf8(b@);
    }
    if left.len() != right.len() {
        return false;
    }
    let mut i: usize = 0;
    while i < left.len()
        invariant
            left@ == vstd::utf8::encode_utf8(a@),
            right@ == vstd::utf8::encode_utf8(b@),
            left@.len() == right@.len(),
            i <= left@.len(),
            forall|k: int| 0 <= k < i ==> left@[k] == right@[k],
        decreases left@.len() - i,
    {
        if left[i] != right[i] {
            return false;
        }
        i = i + 1;
    }
    assert(left@ =~= right@);
    true
}

} // verus!
