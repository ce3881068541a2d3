//! Failed payment paths: which hop is blamed, and the record that is kept of it.

use crate::text::decimal;
use crate::text::decimal_chars;
use crate::text::hex_chars;
use crate::text::hex_str;
use vstd::prelude::*;
use vstd::string::StringExecFns;

verus! {

/// One hop of a payment path: the node it leads to and the channel it goes through.
#[derive(Clone, Copy, Debug, PartialEq, Eq)]
pub struct RouteHop {
    /// The node's public key in its compressed form.
    pub pubkey: [u8; 33],
    pub short_channel_id: u64,
}

/// The meaning of a failure code reported by a hop on a payment path.
#[derive(Clone, Copy, Debug, PartialEq, Eq, Structural)]
pub enum FailureClass {
    IncorrectOrUnknownPaymentDetails,
    FeeInsufficient,
    InvalidOnionHmac,
    UnknownNextPeer,
    Unknown,
}

/// A failed attempt through an intermediate hop: the hop before the last is the target,
/// the last hop is the one guessed to be at fault, on the channel that leads to it.
#[derive(Clone, Copy, Debug, PartialEq, Eq)]
pub struct RoutingAttemptRecord {
    pub target_node_id: [u8; 33],
    pub guessed_node_id: [u8; 33],
    pub channel_id: u64,
    pub result: FailureClass,
}

/// A routing attempt as the four texts that are stored of it.
#[derive(Clone, Debug, PartialEq, Eq)]
pub struct Attempt {
    pub target_pubkey: String,
    pub guess_pubkey: String,
    pub channel_id: String,
    pub result: String,
}

/// A path-failure notification without a single hop.
#[derive(Clone, Copy, Debug, PartialEq, Eq, Structural)]
pub struct EmptyPath;

/// The class of each failure code: four codes are known, every other code is `Unknown`.
pub open spec fn class_of(code: u16) -> FailureClass {
    if code == 0x400f {
        FailureClass::IncorrectOrUnknownPaymentDetails
    } else if code == 0x100c {
        FailureClass::FeeInsufficient
    } else if code == 0xc005 {
        FailureClass::InvalidOnionHmac
    } else if code == 0x400a {
        FailureClass::UnknownNextPeer
    } else {
        FailureClass::Unknown
    }
}

/// Classifies a failure code.
pub fn classify(code: u16) -> (class: FailureClass)
    ensures
        class == class_of(code),
{
    match code {
        0x400f => FailureClass::IncorrectOrUnknownPaymentDetails,
        0x100c => FailureClass::FeeInsufficient,
        0xc005 => FailureClass::InvalidOnionHmac,
        0x400a => FailureClass::UnknownNextPeer,
        _ => FailureClass::Unknown,
    }
}

impl FailureClass {
    /// The name under which a class is stored.
    pub open spec fn name(self) -> Seq<char> {
        match self {
            FailureClass::IncorrectOrUnknownPaymentDetails => "incorrect_or_unknown_payment_details"@,
            FailureClass::FeeInsufficient => "fee_insufficient"@,
            FailureClass::InvalidOnionHmac => "invalid_onion_hmac"@,
            FailureClass::UnknownNextPeer => "unknown_next_peer"@,
            FailureClass::Unknown => "unknown"@,
        }
    }

    /// The name under which the class is stored.
    pub fn as_str(&self) -> (name: &'static str)
        ensures
            name@ == self.name(),
    {
        match self {
            FailureClass::IncorrectOrUnknownPaymentDetails => "incorrect_or_unknown_payment_details",
            FailureClass::FeeInsufficient => "fee_insufficient",
            FailureClass::InvalidOnionHmac => "invalid_onion_hmac",
            FailureClass::UnknownNextPeer => "unknown_next_peer",
            FailureClass::Unknown => "unknown",
        }
    }
}

/// The record that a failed path gives rise to.
///
/// A path of one hop names no earlier node to hold against the last, and a failure
/// without a code cannot be classified: neither leaves a record.
pub open spec fn blame(path: Seq<RouteHop>, error_code: Option<u16>) -> Option<RoutingAttemptRecord> {
    if path.len() >= 2 && error_code is Some {
        Some(
            RoutingAttemptRecord {
                target_node_id: path[path.len() - 2].pubkey,
                guessed_node_id: path[path.len() - 1].pubkey,
                channel_id: path[path.len() - 1].short_channel_id,
                result: class_of(error_code.unwrap()),
            },
        )
    } else {
        None
    }
}

/// Attributes a failed path: the last hop reported the failure, the hop before it is the
/// target of the attempt.
pub fn attribute_failure(path: &Vec<RouteHop>, error_code: Option<u16>) -> (outcome: Result<
    Option<RoutingAttemptRecord>,
    EmptyPath,
>)
    ensures
        path@.len() == 0 ==> outcome == Err::<Option<RoutingAttemptRecord>, EmptyPath>(EmptyPath),
        path@.len() > 0 ==> outcome == Ok::<Option<RoutingAttemptRecord>, EmptyPath>(
            blame(path@, error_code),
        ),
{
    let hops = path.len();
    if hops == 0 {
        return Err(EmptyPath);
    }
    let last_hop = path[hops - 1];
    if hops < 2 {
        return Ok(None);
    }
    let target = path[hops - 2];
    match error_code {
        Some(code) => Ok(
            Some(
                RoutingAttemptRecord {
                    target_node_id: target.pubkey,
                    guessed_node_id: last_hop.pubkey,
                    channel_id: last_hop.short_channel_id,
                    result: classify(code),
                },
            ),
        ),
        None => Ok(None),
    }
}

impl RoutingAttemptRecord {
    /// Writes the record as the texts that are stored of it: the two node ids in
    /// hexadecimal, the channel id in decimal, and the name of the failure class.
    pub fn to_attempt(&self) -> (row: Attempt)
        ensures
            row.target_pubkey@ == hex_chars(self.target_node_id@),
            row.guess_pubkey@ == hex_chars(self.guessed_node_id@),
            row.channel_id@ == decimal_chars(self.channel_id as nat),
            row.result@ == self.result.name(),
    {
        Attempt {
            target_pubkey: hex_str(self.target_node_id.as_slice()),
            guess_pubkey: hex_str(self.guessed_node_id.as_slice()),
            channel_id: decimal(self.channel_id),
            result: String::from_str(self.result.as_str()),
        }
    }
}

/// The three lines that describe the hop at position `i` of a route.
pub open spec fn hop_text(hop: RouteHop, i: nat) -> Seq<Seq<char>> {
    seq![
        "==== Hop "@ + decimal_chars(i) + " ===="@,
        "PublicKey("@ + hex_chars(hop.pubkey@) + ")"@,
        "channel_id: "@ + decimal_chars(hop.short_channel_id as nat),
    ]
}

/// The lines that describe a route: three for each hop, in the order of the hops.
pub open spec fn route_text(route: Seq<RouteHop>) -> Seq<Seq<char>>
    decreases route.len(),
{
    if route.len() == 0 {
        Seq::empty()
    } else {
        route_text(route.drop_last()) + hop_text(route.last(), (route.len() - 1) as nat)
    }
}

/// The texts of a sequence of strings.
pub open spec fn texts(lines: Seq<String>) -> Seq<Seq<char>> {
    lines.map_values(|line: String| line@)
}

/// Describes a route, hop by hop, as lines of text.
pub fn hop_lines(route: &Vec<RouteHop>) -> (lines: Vec<String>)
    ensures
        texts(lines@) == route_text(route@),
{
    let mut lines: Vec<String> = Vec::new();
    let mut i: usize = 0;
    proof {
        assert(route@.take(0) =~= Seq::<RouteHop>::empty());
        assert(texts(lines@) =~= route_text(route@.take(0)));
    }
    while i < route.len()
        invariant
            i <= route@.len(),
            texts(lines@) == route_text(route@.take(i as int)),
        decreases route@.len() - i,
    {
        let hop = route[i];
        let ghost before = texts(lines@);
        let mut title = String::from_str("==== Hop ");
        title.append(decimal(i as u64).as_str());
        title.append(" ====");
        let mut key = String::from_str("PublicKey(");
        key.append(hex_str(hop.pubkey.as_slice()).as_str());
        key.append(")");
        let mut channel = String::from_str("channel_id: ");
        channel.append(decimal(hop.short_channel_id).as_str());
        lines.push(title);
        lines.push(key);
        lines.push(channel);
        proof {
            let next = route@.take(i + 1);
            assert(next.drop_last() =~= route@.take(i as int));
            assert(next.last() == hop);
            assert(texts(lines@) =~= before + hop_text(hop, i as nat));
        }
        i = i + 1;
    }
    proof {
        assert(route@.take(i as int) =~= route@);
    }
    lines
}

/// A failure on a path of a single hop leaves no record, whatever its code.
pub proof fn lemma_single_hop_is_ignored(path: Seq<RouteHop>, error_code: Option<u16>)
    requires
        path.len() == 1,
    ensures
        blame(path, error_code) is None,
{
}

/// A classified failure on a path of two or more hops leaves one record: it blames the
/// last hop, on its channel, and its target is the hop before the last.
pub proof fn lemma_longer_path_blames_last_hop(path: Seq<RouteHop>, code: u16)
    requires
        path.len() >= 2,
    ensures
        blame(path, Some(code)) == Some(
            RoutingAttemptRecord {
                target_node_id: path[path.len() - 2].pubkey,
                guessed_node_id: path.last().pubkey,
                channel_id: path.last().short_channel_id,
                result: class_of(code),
            },
        ),
{
}

/// Every code but the four known ones is classified as unknown.
pub proof fn lemma_unlisted_code_is_unknown(code: u16)
    requires
        code != 0x400f,
        code != 0x100c,
        code != 0xc005,
        code != 0x400a,
    ensures
        class_of(code) == FailureClass::Unknown,
{
}

} // verus!
