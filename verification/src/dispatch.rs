//! The event dispatcher: what the node does on each notification of the protocol engine.
//!
//! The dispatcher decides and keeps the payment records; it performs no call to the
//! chain backend or to the engine itself. Each notification is answered by an action
//! for the caller to carry out. Where an action has an answer, the caller hands it
//! back as a reply, and the dispatcher says what comes next. One notification is
//! worked off before the next is taken.

use crate::chain::Network;
use crate::funding::address_of;
use crate::funding::funding_address;
use crate::funding::signed_bytes;
use crate::funding::signed_transaction;
use crate::funding::ScriptError;
use crate::funding::SignedError;
use crate::payment::HTLCStatus;
use crate::payment::MillisatAmount;
use crate::payment::PaymentInfo;
use crate::payment::PaymentInfoStorage;
use crate::routing::attribute_failure;
use crate::routing::blame;
use crate::routing::RouteHop;
use crate::routing::RoutingAttemptRecord;
use vstd::prelude::*;

verus! {

/// What a received payment was made for.
#[derive(Clone, Copy, Debug, PartialEq, Eq)]
pub enum PaymentPurpose {
    /// A payment of an invoice: its secret, and its preimage where the node knows it.
    InvoicePayment { payment_preimage: Option<[u8; 32]>, payment_secret: [u8; 32] },
    /// A payment that brings its own preimage.
    SpontaneousPayment([u8; 32]),
}

/// A notification of the protocol engine.
#[derive(Clone, Debug, PartialEq, Eq)]
pub enum Event {
    FundingGenerationReady {
        temporary_channel_id: [u8; 32],
        channel_value_satoshis: u64,
        output_script: Vec<u8>,
        user_channel_id: u64,
    },
    PaymentReceived { payment_hash: [u8; 32], amt: u64, purpose: PaymentPurpose },
    PaymentSent { payment_preimage: [u8; 32], payment_hash: [u8; 32], fee_paid_msat: Option<u64> },
    PaymentPathFailed { path: Vec<RouteHop>, error_code: Option<u16> },
    PaymentFailed { payment_hash: [u8; 32] },
    PendingHTLCsForwardable { time_forwardable_ms: u64 },
    SpendableOutputs,
    PaymentForwarded { fee_earned_msat: Option<u64>, claim_from_onchain_tx: bool },
    ChannelClosed { channel_id: [u8; 32] },
    DiscardFunding,
    PaymentPathSuccessful,
    OpenChannelRequest,
}

/// The answer to an action.
#[derive(Clone, Debug, PartialEq, Eq)]
pub enum Reply {
    /// The raw funding transaction, in hexadecimal.
    RawTransaction(String),
    /// The funding transaction with its inputs, in hexadecimal.
    FundedTransaction(String),
    /// The signed transaction, in hexadecimal, and whether every input is signed.
    SignedTransaction { hex: String, complete: bool },
    /// Whether the engine took the funding transaction.
    FundingVerdict { accepted: bool },
    /// Whether the engine claimed the payment.
    Claimed { claimed: bool },
    /// A fresh address is at hand for the sweep.
    SweepAddress,
    /// Whether the engine built the sweep transaction.
    SweepTransaction { built: bool },
}

/// Something to tell the operator.
#[derive(Clone, Copy, Debug, PartialEq, Eq)]
pub enum Notice {
    FundingRejected,
    PaymentClaimed { payment_hash: [u8; 32], amt: u64 },
    PaymentSent {
        payment_hash: [u8; 32],
        payment_preimage: [u8; 32],
        amt_msat: MillisatAmount,
        fee_paid_msat: Option<u64>,
    },
    PathSucceeded,
    PaymentFailed { payment_hash: [u8; 32], removed: bool },
    Forwarded { fee_earned_msat: Option<u64>, claim_from_onchain_tx: bool },
    ChannelClosed { channel_id: [u8; 32] },
}

/// What the caller is to do next.
#[derive(Clone, Debug, PartialEq, Eq)]
pub enum Action {
    /// Build a transaction with one output that pays `amount_sat` to `address`.
    CreateRawTransaction { address: String, amount_sat: u64 },
    /// Let the wallet of the chain backend add inputs to the transaction.
    FundRawTransaction { raw_tx: String },
    /// Let the wallet of the chain backend sign the transaction.
    SignRawTransaction { funded_tx: String },
    /// Hand the signed transaction to the engine as the funding of the channel.
    SubmitFunding { temporary_channel_id: [u8; 32], transaction: Vec<u8> },
    /// Claim a received payment with its preimage.
    ClaimFunds { preimage: [u8; 32] },
    /// Append the record to the log of routing attempts.
    RecordAttempt(RoutingAttemptRecord),
    /// Release the queued forwards after a delay drawn from `min_delay_ms` on.
    ScheduleForward { min_delay_ms: u64 },
    /// Fetch a fresh address of the chain backend for the sweep.
    FetchSweepAddress,
    /// Let the engine build the transaction that spends the outputs to the address.
    BuildSweep,
    /// Broadcast the sweep transaction.
    BroadcastSweep,
    /// Tell the operator.
    Report(Notice),
    /// Nothing is left to do for this notification.
    Nothing,
}

/// An action as a value: its texts are sequences of characters, its bytes a sequence.
pub enum ActionView {
    CreateRawTransaction { address: Seq<char>, amount_sat: u64 },
    FundRawTransaction { raw_tx: Seq<char> },
    SignRawTransaction { funded_tx: Seq<char> },
    SubmitFunding { temporary_channel_id: [u8; 32], transaction: Seq<u8> },
    ClaimFunds { preimage: [u8; 32] },
    RecordAttempt(RoutingAttemptRecord),
    ScheduleForward { min_delay_ms: u64 },
    FetchSweepAddress,
    BuildSweep,
    BroadcastSweep,
    Report(Notice),
    Nothing,
}

impl View for Action {
    type V = ActionView;

    open spec fn view(&self) -> ActionView {
        match *self {
            Action::CreateRawTransaction { address, amount_sat } => ActionView::CreateRawTransaction {
                address: address@,
                amount_sat,
            },
            Action::FundRawTransaction { raw_tx } => ActionView::FundRawTransaction {
                raw_tx: raw_tx@,
            },
            Action::SignRawTransaction { funded_tx } => ActionView::SignRawTransaction {
                funded_tx: funded_tx@,
            },
            Action::SubmitFunding { temporary_channel_id, transaction } => ActionView::SubmitFunding {
                temporary_channel_id,
                transaction: transaction@,
            },
            Action::ClaimFunds { preimage } => ActionView::ClaimFunds { preimage },
            Action::RecordAttempt(record) => ActionView::RecordAttempt(record),
            Action::ScheduleForward { min_delay_ms } => ActionView::ScheduleForward { min_delay_ms },
            Action::FetchSweepAddress => ActionView::FetchSweepAddress,
            Action::BuildSweep => ActionView::BuildSweep,
            Action::BroadcastSweep => ActionView::BroadcastSweep,
            Action::Report(notice) => ActionView::Report(notice),
            Action::Nothing => ActionView::Nothing,
        }
    }
}

/// Why a notification or a reply could not be worked off.
#[derive(Clone, Copy, Debug, PartialEq, Eq)]
pub enum DispatchError {
    /// A notification came while the answer to an action is still awaited.
    Busy,
    /// The reply is not the answer to the action that was handed out.
    UnexpectedReply,
    /// The funding output is no witness program.
    Script(ScriptError),
    /// The wallet did not sign every input.
    IncompleteSignature,
    /// The signed transaction is not hexadecimal text.
    InvalidHex,
    /// The signed transaction does not decode.
    InvalidTransaction,
    /// A payment of an invoice whose preimage the node does not know.
    MissingPreimage,
    /// A failed path without a hop.
    EmptyPath,
    /// The engine built no sweep transaction.
    SweepFailed,
}

/// The answer that the dispatcher waits for.
#[derive(Clone, Copy, Debug, PartialEq, Eq)]
pub enum Waiting {
    Nothing,
    RawTransaction { temporary_channel_id: [u8; 32] },
    FundedTransaction { temporary_channel_id: [u8; 32] },
    SignedTransaction { temporary_channel_id: [u8; 32] },
    FundingVerdict,
    Claim { payment_hash: [u8; 32], preimage: [u8; 32], secret: Option<[u8; 32]>, amt: u64 },
    SweepAddress,
    SweepTransaction,
}

/// The payment records as a map.
pub type Records = Map<[u8; 32], PaymentInfo>;

/// What a notification leads to.
pub struct EventStep {
    pub waiting: Waiting,
    pub result: Result<ActionView, DispatchError>,
    pub outbound: Records,
    pub pending: Records,
}

/// What a reply leads to.
pub struct ReplyStep {
    pub waiting: Waiting,
    pub result: Result<ActionView, DispatchError>,
    pub inbound: Records,
}

/// The preimage with which a received payment is claimed, and its secret.
pub open spec fn claim_of(purpose: PaymentPurpose) -> (Option<[u8; 32]>, Option<[u8; 32]>) {
    match purpose {
        PaymentPurpose::InvoicePayment { payment_preimage, payment_secret } => (
            payment_preimage,
            Some(payment_secret),
        ),
        PaymentPurpose::SpontaneousPayment(preimage) => (Some(preimage), None),
    }
}

/// The outbound records after a payment was sent: the record under the hash, if there is
/// one, has succeeded and holds the preimage.
pub open spec fn after_sent(outbound: Records, payment_hash: [u8; 32], preimage: [u8; 32]) -> Records {
    if outbound.contains_key(payment_hash) {
        outbound.insert(
            payment_hash,
            PaymentInfo {
                preimage: Some(preimage),
                secret: outbound[payment_hash].secret,
                status: HTLCStatus::Succeeded,
                amt_msat: outbound[payment_hash].amt_msat,
            },
        )
    } else {
        outbound
    }
}

/// The inbound records after a claim: the record under the hash holds the preimage, the
/// secret and whether the claim succeeded. After a claim that succeeded it holds the
/// amount that was received. After one that failed, a record that stood there keeps its
/// amount, and a new record holds the amount that was received.
pub open spec fn after_claim(
    inbound: Records,
    payment_hash: [u8; 32],
    preimage: [u8; 32],
    secret: Option<[u8; 32]>,
    amt: u64,
    claimed: bool,
) -> Records {
    inbound.insert(
        payment_hash,
        PaymentInfo {
            preimage: Some(preimage),
            secret,
            status: if claimed {
                HTLCStatus::Succeeded
            } else {
                HTLCStatus::Failed
            },
            amt_msat: if !claimed && inbound.contains_key(payment_hash) {
                inbound[payment_hash].amt_msat
            } else {
                MillisatAmount(Some(amt))
            },
        },
    )
}

/// What a notification leads to when no answer is awaited.
pub open spec fn idle_event_step(
    network: Network,
    event: Event,
    outbound: Records,
    pending: Records,
) -> EventStep {
    match event {
        Event::FundingGenerationReady {
            temporary_channel_id,
            channel_value_satoshis,
            output_script,
            user_channel_id,
        } => {
            let step = address_step(
                temporary_channel_id,
                channel_value_satoshis,
                address_of(output_script@, network),
            );
            EventStep { waiting: step.0, result: step.1, outbound, pending }
        },
        Event::PaymentReceived { payment_hash, amt, purpose } => match claim_of(purpose).0 {
            Some(preimage) => EventStep {
                waiting: Waiting::Claim {
                    payment_hash,
                    preimage,
                    secret: claim_of(purpose).1,
                    amt,
                },
                result: Ok(ActionView::ClaimFunds { preimage }),
                outbound,
                pending,
            },
            None => EventStep {
                waiting: Waiting::Nothing,
                result: Err(DispatchError::MissingPreimage),
                outbound,
                pending,
            },
        },
        Event::PaymentSent { payment_preimage, payment_hash, fee_paid_msat } => EventStep {
            waiting: Waiting::Nothing,
            result: Ok(
                if outbound.contains_key(payment_hash) {
                    ActionView::Report(
                        Notice::PaymentSent {
                            payment_hash,
                            payment_preimage,
                            amt_msat: outbound[payment_hash].amt_msat,
                            fee_paid_msat,
                        },
                    )
                } else {
                    ActionView::Nothing
                },
            ),
            outbound: after_sent(outbound, payment_hash, payment_preimage),
            pending,
        },
        Event::PaymentPathFailed { path, error_code } => EventStep {
            waiting: Waiting::Nothing,
            result: if path@.len() == 0 {
                Err(DispatchError::EmptyPath)
            } else {
                Ok(
                    match blame(path@, error_code) {
                        Some(record) => ActionView::RecordAttempt(record),
                        None => ActionView::Nothing,
                    },
                )
            },
            outbound,
            pending,
        },
        Event::PaymentFailed { payment_hash } => EventStep {
            waiting: Waiting::Nothing,
            result: Ok(
                ActionView::Report(
                    Notice::PaymentFailed {
                        payment_hash,
                        removed: pending.contains_key(payment_hash),
                    },
                ),
            ),
            outbound,
            pending: pending.remove(payment_hash),
        },
        Event::PendingHTLCsForwardable { time_forwardable_ms } => EventStep {
            waiting: Waiting::Nothing,
            result: Ok(ActionView::ScheduleForward { min_delay_ms: time_forwardable_ms }),
            outbound,
            pending,
        },
        Event::SpendableOutputs => EventStep {
            waiting: Waiting::SweepAddress,
            result: Ok(ActionView::FetchSweepAddress),
            outbound,
            pending,
        },
        Event::PaymentForwarded { fee_earned_msat, claim_from_onchain_tx } => EventStep {
            waiting: Waiting::Nothing,
            result: Ok(
                ActionView::Report(Notice::Forwarded { fee_earned_msat, claim_from_onchain_tx }),
            ),
            outbound,
            pending,
        },
        Event::ChannelClosed { channel_id } => EventStep {
            waiting: Waiting::Nothing,
            result: Ok(ActionView::Report(Notice::ChannelClosed { channel_id })),
            outbound,
            pending,
        },
        Event::PaymentPathSuccessful => EventStep {
            waiting: Waiting::Nothing,
            result: Ok(ActionView::Report(Notice::PathSucceeded)),
            outbound,
            pending,
        },
        Event::DiscardFunding => EventStep {
            waiting: Waiting::Nothing,
            result: Ok(ActionView::Nothing),
            outbound,
            pending,
        },
        Event::OpenChannelRequest => EventStep {
            waiting: Waiting::Nothing,
            result: Ok(ActionView::Nothing),
            outbound,
            pending,
        },
    }
}

/// What a notification leads to. While an answer is awaited the dispatcher is busy and
/// nothing changes.
pub open spec fn event_step(
    waiting: Waiting,
    network: Network,
    event: Event,
    outbound: Records,
    pending: Records,
) -> EventStep {
    if waiting == Waiting::Nothing {
        idle_event_step(network, event, outbound, pending)
    } else {
        EventStep { waiting, result: Err(DispatchError::Busy), outbound, pending }
    }
}

/// What follows the signed transaction: it goes to the engine if every input is signed
/// and the text is the hexadecimal form of a transaction.
pub open spec fn signed_step(
    temporary_channel_id: [u8; 32],
    complete: bool,
    transaction: Result<Seq<u8>, SignedError>,
) -> (Waiting, Result<ActionView, DispatchError>) {
    if !complete {
        (Waiting::Nothing, Err(DispatchError::IncompleteSignature))
    } else {
        match transaction {
            Err(SignedError::InvalidHex) => (Waiting::Nothing, Err(DispatchError::InvalidHex)),
            Err(SignedError::InvalidTransaction) => (
                Waiting::Nothing,
                Err(DispatchError::InvalidTransaction),
            ),
            Ok(bytes) => (
                Waiting::FundingVerdict,
                Ok(ActionView::SubmitFunding { temporary_channel_id, transaction: bytes }),
            ),
        }
    }
}

/// What follows the address of the funding output: with an address the raw transaction
/// is asked for, without one the funding fails.
pub open spec fn address_step(
    temporary_channel_id: [u8; 32],
    channel_value_satoshis: u64,
    address: Result<Seq<char>, ScriptError>,
) -> (Waiting, Result<ActionView, DispatchError>) {
    match address {
        Ok(text) => (
            Waiting::RawTransaction { temporary_channel_id },
            Ok(ActionView::CreateRawTransaction { address: text, amount_sat: channel_value_satoshis }),
        ),
        Err(fault) => (Waiting::Nothing, Err(DispatchError::Script(fault))),
    }
}

/// What a reply leads to. A reply that does not answer the action that was handed out
/// changes nothing.
pub open spec fn reply_step(waiting: Waiting, reply: Reply, inbound: Records) -> ReplyStep {
    match (waiting, reply) {
        (Waiting::RawTransaction { temporary_channel_id }, Reply::RawTransaction(hex)) => ReplyStep {
            waiting: Waiting::FundedTransaction { temporary_channel_id },
            result: Ok(ActionView::FundRawTransaction { raw_tx: hex@ }),
            inbound,
        },
        (
            Waiting::FundedTransaction { temporary_channel_id },
            Reply::FundedTransaction(hex),
        ) => ReplyStep {
            waiting: Waiting::SignedTransaction { temporary_channel_id },
            result: Ok(ActionView::SignRawTransaction { funded_tx: hex@ }),
            inbound,
        },
        (
            Waiting::SignedTransaction { temporary_channel_id },
            Reply::SignedTransaction { hex, complete },
        ) => {
            let step = signed_step(temporary_channel_id, complete, signed_bytes(hex@));
            ReplyStep { waiting: step.0, result: step.1, inbound }
        },
        (Waiting::FundingVerdict, Reply::FundingVerdict { accepted }) => ReplyStep {
            waiting: Waiting::Nothing,
            result: Ok(
                if accepted {
                    ActionView::Nothing
                } else {
                    ActionView::Report(Notice::FundingRejected)
                },
            ),
            inbound,
        },
        (Waiting::Claim { payment_hash, preimage, secret, amt }, Reply::Claimed { claimed }) => ReplyStep {
            waiting: Waiting::Nothing,
            result: Ok(
                if claimed {
                    ActionView::Report(Notice::PaymentClaimed { payment_hash, amt })
                } else {
                    ActionView::Nothing
                },
            ),
            inbound: after_claim(inbound, payment_hash, preimage, secret, amt, claimed),
        },
        (Waiting::SweepAddress, Reply::SweepAddress) => ReplyStep {
            waiting: Waiting::SweepTransaction,
            result: Ok(ActionView::BuildSweep),
            inbound,
        },
        (Waiting::SweepTransaction, Reply::SweepTransaction { built }) => ReplyStep {
            waiting: Waiting::Nothing,
            result: if built {
                Ok(ActionView::BroadcastSweep)
            } else {
                Err(DispatchError::SweepFailed)
            },
            inbound,
        },
        _ => ReplyStep { waiting, result: Err(DispatchError::UnexpectedReply), inbound },
    }
}

/// Whether an outcome of the dispatcher is the one that was specified.
pub open spec fn is_outcome(
    outcome: Result<Action, DispatchError>,
    expected: Result<ActionView, DispatchError>,
) -> bool {
    match expected {
        Ok(action) => outcome matches Ok(a) && a@ == action,
        Err(fault) => outcome == Err::<Action, DispatchError>(fault),
    }
}

/// The texts of an address or the fault in its place.
pub open spec fn address_view(address: Result<String, ScriptError>) -> Result<Seq<char>, ScriptError> {
    match address {
        Ok(text) => Ok(text@),
        Err(fault) => Err(fault),
    }
}

/// The bytes of a transaction or the fault in its place.
pub open spec fn transaction_view(transaction: Result<Vec<u8>, SignedError>) -> Result<
    Seq<u8>,
    SignedError,
> {
    match transaction {
        Ok(bytes) => Ok(bytes@),
        Err(fault) => Err(fault),
    }
}

/// Begins the funding of a channel, given the address of its funding output: says what
/// is awaited next and what is to be done.
pub fn after_address(
    temporary_channel_id: [u8; 32],
    channel_value_satoshis: u64,
    address: Result<String, ScriptError>,
) -> (step: (Waiting, Result<Action, DispatchError>))
    ensures
        step.0 == address_step(temporary_channel_id, channel_value_satoshis, address_view(address)).0,
        is_outcome(
            step.1,
            address_step(temporary_channel_id, channel_value_satoshis, address_view(address)).1,
        ),
{
    match address {
        Ok(text) => (
            Waiting::RawTransaction { temporary_channel_id },
            Ok(Action::CreateRawTransaction { address: text, amount_sat: channel_value_satoshis }),
        ),
        Err(fault) => (Waiting::Nothing, Err(DispatchError::Script(fault))),
    }
}

/// Goes on with the funding once the wallet has answered, given whether it signed every
/// input and what was read of the signed transaction.
pub fn after_signing(
    temporary_channel_id: [u8; 32],
    complete: bool,
    transaction: Result<Vec<u8>, SignedError>,
) -> (step: (Waiting, Result<Action, DispatchError>))
    ensures
        step.0 == signed_step(temporary_channel_id, complete, transaction_view(transaction)).0,
        is_outcome(
            step.1,
            signed_step(temporary_channel_id, complete, transaction_view(transaction)).1,
        ),
{
    if !complete {
        return (Waiting::Nothing, Err(DispatchError::IncompleteSignature));
    }
    match transaction {
        Err(SignedError::InvalidHex) => (Waiting::Nothing, Err(DispatchError::InvalidHex)),
        Err(SignedError::InvalidTransaction) => (
            Waiting::Nothing,
            Err(DispatchError::InvalidTransaction),
        ),
        Ok(bytes) => (
            Waiting::FundingVerdict,
            Ok(Action::SubmitFunding { temporary_channel_id, transaction: bytes }),
        ),
    }
}

/// The event dispatcher of a node.
#[derive(Debug)]
pub struct Dispatcher {
    network: Network,
    waiting: Waiting,
}

impl Dispatcher {
    /// The network of the node.
    pub closed spec fn spec_network(&self) -> Network {
        self.network
    }

    /// The answer that is awaited.
    pub closed spec fn spec_waiting(&self) -> Waiting {
        self.waiting
    }

    /// A dispatcher that awaits no answer.
    pub fn new(network: Network) -> (dispatcher: Dispatcher)
        ensures
            dispatcher.spec_network() == network,
            dispatcher.spec_waiting() == Waiting::Nothing,
    {
        Dispatcher { network, waiting: Waiting::Nothing }
    }

    /// The network of the node.
    #[verifier::when_used_as_spec(spec_network)]
    pub fn network(&self) -> (network: Network)
        ensures
            network == self.spec_network(),
    {
        self.network
    }

    /// The answer that is awaited.
    #[verifier::when_used_as_spec(spec_waiting)]
    pub fn waiting(&self) -> (waiting: Waiting)
        ensures
            waiting == self.spec_waiting(),
    {
        self.waiting
    }

    /// Whether the dispatcher is free to take the next notification.
    pub fn is_idle(&self) -> (idle: bool)
        ensures
            idle == (self.spec_waiting() == Waiting::Nothing),
    {
        match self.waiting {
            Waiting::Nothing => true,
            _ => false,
        }
    }

    /// Takes a notification of the engine and says what is to be done.
    ///
    /// A sent payment is entered into the outbound records, a payment that failed for
    /// good is taken out of the pending records.
    pub fn on_event(
        &mut self,
        event: Event,
        outbound: &mut PaymentInfoStorage,
        pending: &mut PaymentInfoStorage,
    ) -> (outcome: Result<Action, DispatchError>)
        ensures
            final(self).spec_network() == old(self).spec_network(),
            ({
                let step = event_step(
                    old(self).spec_waiting(),
                    old(self).spec_network(),
                    event,
                    old(outbound)@,
                    old(pending)@,
                );
                &&& final(self).spec_waiting() == step.waiting
                &&& is_outcome(outcome, step.result)
                &&& final(outbound)@ == step.outbound
                &&& final(pending)@ == step.pending
            }),
    {
        if !self.is_idle() {
            return Err(DispatchError::Busy);
        }
        match event {
            Event::FundingGenerationReady {
                temporary_channel_id,
                channel_value_satoshis,
                output_script,
                user_channel_id,
            } => {
                let address = funding_address(output_script.as_slice(), self.network);
                let (waiting, outcome) = after_address(
                    temporary_channel_id,
                    channel_value_satoshis,
                    address,
                );
                self.waiting = waiting;
                outcome
            },
            Event::PaymentReceived { payment_hash, amt, purpose } => {
                let (preimage, secret) = match purpose {
                    PaymentPurpose::InvoicePayment { payment_preimage, payment_secret } => (
                        payment_preimage,
                        Some(payment_secret),
                    ),
                    PaymentPurpose::SpontaneousPayment(preimage) => (Some(preimage), None),
                };
                match preimage {
                    Some(preimage) => {
                        self.waiting = Waiting::Claim { payment_hash, preimage, secret, amt };
                        Ok(Action::ClaimFunds { preimage })
                    },
                    None => Err(DispatchError::MissingPreimage),
                }
            },
            Event::PaymentSent { payment_preimage, payment_hash, fee_paid_msat } => {
                match outbound.get(&payment_hash) {
                    Some(payment) => {
                        outbound.insert(
                            payment_hash,
                            PaymentInfo {
                                preimage: Some(payment_preimage),
                                secret: payment.secret,
                                status: HTLCStatus::Succeeded,
                                amt_msat: payment.amt_msat,
                            },
                        );
                        Ok(
                            Action::Report(
                                Notice::PaymentSent {
                                    payment_hash,
                                    payment_preimage,
                                    amt_msat: payment.amt_msat,
                                    fee_paid_msat,
                                },
                            ),
                        )
                    },
                    None => Ok(Action::Nothing),
                }
            },
            Event::PaymentPathFailed { path, error_code } => {
                match attribute_failure(&path, error_code) {
                    Err(_) => Err(DispatchError::EmptyPath),
                    Ok(Some(record)) => Ok(Action::RecordAttempt(record)),
                    Ok(None) => Ok(Action::Nothing),
                }
            },
            Event::PaymentFailed { payment_hash } => {
                let removed = pending.remove(&payment_hash).is_some();
                Ok(Action::Report(Notice::PaymentFailed { payment_hash, removed }))
            },
            Event::PendingHTLCsForwardable { time_forwardable_ms } => Ok(
                Action::ScheduleForward { min_delay_ms: time_forwardable_ms },
            ),
            Event::SpendableOutputs => {
                self.waiting = Waiting::SweepAddress;
                Ok(Action::FetchSweepAddress)
            },
            Event::PaymentForwarded { fee_earned_msat, claim_from_onchain_tx } => Ok(
                Action::Report(Notice::Forwarded { fee_earned_msat, claim_from_onchain_tx }),
            ),
            Event::ChannelClosed { channel_id } => Ok(
                Action::Report(Notice::ChannelClosed { channel_id }),
            ),
            Event::PaymentPathSuccessful => Ok(Action::Report(Notice::PathSucceeded)),
            Event::DiscardFunding => Ok(Action::Nothing),
            Event::OpenChannelRequest => Ok(Action::Nothing),
        }
    }

    /// Takes the answer to the action that was handed out and says what comes next.
    ///
    /// The outcome of a claim is entered into the inbound records.
    pub fn on_reply(&mut self, reply: Reply, inbound: &mut PaymentInfoStorage) -> (outcome: Result<
        Action,
        DispatchError,
    >)
        ensures
            final(self).spec_network() == old(self).spec_network(),
            ({
                let step = reply_step(old(self).spec_waiting(), reply, old(inbound)@);
                &&& final(self).spec_waiting() == step.waiting
                &&& is_outcome(outcome, step.result)
                &&& final(inbound)@ == step.inbound
            }),
    {
        match (self.waiting, reply) {
            (Waiting::RawTransaction { temporary_channel_id }, Reply::RawTransaction(hex)) => {
                self.waiting = Waiting::FundedTransaction { temporary_channel_id };
                Ok(Action::FundRawTransaction { raw_tx: hex })
            },
            (Waiting::FundedTransaction { temporary_channel_id }, Reply::FundedTransaction(hex)) => {
                self.waiting = Waiting::SignedTransaction { temporary_channel_id };
                Ok(Action::SignRawTransaction { funded_tx: hex })
            },
            (
                Waiting::SignedTransaction { temporary_channel_id },
                Reply::SignedTransaction { hex, complete },
            ) => {
                let transaction = signed_transaction(hex.as_str());
                let (waiting, outcome) = after_signing(temporary_channel_id, complete, transaction);
                self.waiting = waiting;
                outcome
            },
            (Waiting::FundingVerdict, Reply::FundingVerdict { accepted }) => {
                self.waiting = Waiting::Nothing;
                if accepted {
                    Ok(Action::Nothing)
                } else {
                    Ok(Action::Report(Notice::FundingRejected))
                }
            },
            (Waiting::Claim { payment_hash, preimage, secret, amt }, Reply::Claimed { claimed }) => {
                self.waiting = Waiting::Nothing;
                let status = if claimed {
                    HTLCStatus::Succeeded
                } else {
                    HTLCStatus::Failed
                };
                let amt_msat = if claimed {
                    MillisatAmount(Some(amt))
                } else {
                    match inbound.get(&payment_hash) {
                        Some(payment) => payment.amt_msat,
                        None => MillisatAmount(Some(amt)),
                    }
                };
                inbound.insert(
                    payment_hash,
                    PaymentInfo { preimage: Some(preimage), secret, status, amt_msat },
                );
                if claimed {
                    Ok(Action::Report(Notice::PaymentClaimed { payment_hash, amt }))
                } else {
                    Ok(Action::Nothing)
                }
            },
            (Waiting::SweepAddress, Reply::SweepAddress) => {
                self.waiting = Waiting::SweepTransaction;
                Ok(Action::BuildSweep)
            },
            (Waiting::SweepTransaction, Reply::SweepTransaction { built }) => {
                self.waiting = Waiting::Nothing;
                if built {
                    Ok(Action::BroadcastSweep)
                } else {
                    Err(DispatchError::SweepFailed)
                }
            },
            _ => Err(DispatchError::UnexpectedReply),
        }
    }
}

/// Whether the answer that is awaited belongs to the funding of a channel.
pub open spec fn funding_in_progress(waiting: Waiting) -> bool {
    waiting is RawTransaction || waiting is FundedTransaction || waiting is SignedTransaction
        || waiting is FundingVerdict
}

/// A received payment that brings its own preimage is claimed with it, and the outcome of
/// the claim is entered under its hash, without a secret: as succeeded where the claim
/// succeeded, with the amount that was received, and as failed otherwise. No other
/// record changes.
pub proof fn lemma_spontaneous_payment_is_recorded(
    network: Network,
    payment_hash: [u8; 32],
    preimage: [u8; 32],
    amt: u64,
    claimed: bool,
    inbound: Records,
    outbound: Records,
    pending: Records,
)
    ensures
        ({
            let event = Event::PaymentReceived {
                payment_hash,
                amt,
                purpose: PaymentPurpose::SpontaneousPayment(preimage),
            };
            let first = event_step(Waiting::Nothing, network, event, outbound, pending);
            let second = reply_step(first.waiting, Reply::Claimed { claimed }, inbound);
            &&& first.result == Ok::<ActionView, DispatchError>(ActionView::ClaimFunds { preimage })
            &&& second.result is Ok
            &&& second.waiting == Waiting::Nothing
            &&& second.inbound.contains_key(payment_hash)
            &&& second.inbound[payment_hash].secret is None
            &&& second.inbound[payment_hash].preimage == Some(preimage)
            &&& second.inbound[payment_hash].status == if claimed {
                HTLCStatus::Succeeded
            } else {
                HTLCStatus::Failed
            }
            &&& claimed ==> second.inbound[payment_hash] == (PaymentInfo {
                preimage: Some(preimage),
                secret: None,
                status: HTLCStatus::Succeeded,
                amt_msat: MillisatAmount(Some(amt)),
            })
            &&& !claimed && !inbound.contains_key(payment_hash) ==> second.inbound[payment_hash].amt_msat
                == MillisatAmount(Some(amt))
            &&& second.inbound.dom() == inbound.dom().insert(payment_hash)
            &&& second.inbound.remove(payment_hash) == inbound.remove(payment_hash)
        }),
{
    let event = Event::PaymentReceived {
        payment_hash,
        amt,
        purpose: PaymentPurpose::SpontaneousPayment(preimage),
    };
    let first = event_step(Waiting::Nothing, network, event, outbound, pending);
    let second = reply_step(first.waiting, Reply::Claimed { claimed }, inbound);
    assert(second.inbound.remove(payment_hash) =~= inbound.remove(payment_hash));
    assert(second.inbound.dom() =~= inbound.dom().insert(payment_hash));
}

/// A failure on a path of one hop leaves no record. A failure with a code on a path of
/// two or more hops leaves one record, which blames the last hop and has the hop before
/// it as its target.
pub proof fn lemma_failed_path_attribution(
    network: Network,
    path: Vec<RouteHop>,
    error_code: Option<u16>,
    outbound: Records,
    pending: Records,
)
    requires
        path@.len() >= 1,
    ensures
        ({
            let event = Event::PaymentPathFailed { path, error_code };
            let step = event_step(Waiting::Nothing, network, event, outbound, pending);
            &&& step.waiting == Waiting::Nothing
            &&& step.outbound == outbound
            &&& step.pending == pending
            &&& path@.len() == 1 ==> step.result == Ok::<ActionView, DispatchError>(
                ActionView::Nothing,
            )
            &&& path@.len() >= 2 && error_code is Some ==> step.result == Ok::<
                ActionView,
                DispatchError,
            >(
                ActionView::RecordAttempt(
                    RoutingAttemptRecord {
                        target_node_id: path@[path@.len() - 2].pubkey,
                        guessed_node_id: path@[path@.len() - 1].pubkey,
                        channel_id: path@[path@.len() - 1].short_channel_id,
                        result: crate::routing::class_of(error_code.unwrap()),
                    },
                ),
            )
        }),
{
}

/// A payment that failed for good is taken out of the pending records once: the same
/// notification a second time is no error and changes nothing.
pub proof fn lemma_repeated_failure_changes_nothing(
    network: Network,
    payment_hash: [u8; 32],
    outbound: Records,
    pending: Records,
)
    ensures
        ({
            let event = Event::PaymentFailed { payment_hash };
            let first = event_step(Waiting::Nothing, network, event, outbound, pending);
            let second = event_step(first.waiting, network, event, first.outbound, first.pending);
            &&& first.result is Ok
            &&& !first.pending.contains_key(payment_hash)
            &&& second.result == Ok::<ActionView, DispatchError>(
                ActionView::Report(Notice::PaymentFailed { payment_hash, removed: false }),
            )
            &&& second.waiting == Waiting::Nothing
            &&& second.pending == first.pending
            &&& second.outbound == first.outbound
        }),
{
    let event = Event::PaymentFailed { payment_hash };
    let first = event_step(Waiting::Nothing, network, event, outbound, pending);
    assert(first.pending.remove(payment_hash) =~= first.pending);
}

/// The funding of a channel goes from the raw transaction to the funded one, to the
/// signed one, and to the engine; where the engine takes it nothing is left to do.
pub proof fn lemma_funding_sequence(
    temporary_channel_id: [u8; 32],
    raw: String,
    funded: String,
    signed: String,
    inbound: Records,
)
    requires
        signed_bytes(signed@) is Ok,
    ensures
        ({
            let first = reply_step(
                Waiting::RawTransaction { temporary_channel_id },
                Reply::RawTransaction(raw),
                inbound,
            );
            let second = reply_step(first.waiting, Reply::FundedTransaction(funded), inbound);
            let third = reply_step(
                second.waiting,
                Reply::SignedTransaction { hex: signed, complete: true },
                inbound,
            );
            let fourth = reply_step(third.waiting, Reply::FundingVerdict { accepted: true }, inbound);
            &&& first.result == Ok::<ActionView, DispatchError>(
                ActionView::FundRawTransaction { raw_tx: raw@ },
            )
            &&& second.result == Ok::<ActionView, DispatchError>(
                ActionView::SignRawTransaction { funded_tx: funded@ },
            )
            &&& third.result == Ok::<ActionView, DispatchError>(
                ActionView::SubmitFunding {
                    temporary_channel_id,
                    transaction: signed_bytes(signed@).unwrap(),
                },
            )
            &&& fourth.result == Ok::<ActionView, DispatchError>(ActionView::Nothing)
            &&& fourth.waiting == Waiting::Nothing
        }),
{
}

/// While a channel is funded no reply leads to a broadcast: the next step belongs to the
/// funding or ends it, and the payment records stay as they are.
pub proof fn lemma_funding_never_broadcasts(waiting: Waiting, reply: Reply, inbound: Records)
    requires
        funding_in_progress(waiting),
    ensures
        ({
            let step = reply_step(waiting, reply, inbound);
            &&& step.result != Ok::<ActionView, DispatchError>(ActionView::BroadcastSweep)
            &&& funding_in_progress(step.waiting) || step.waiting == Waiting::Nothing
            &&& step.inbound == inbound
        }),
{
}

/// While an answer is awaited no notification is taken, and nothing changes.
pub proof fn lemma_busy_dispatcher_takes_no_event(
    waiting: Waiting,
    network: Network,
    event: Event,
    outbound: Records,
    pending: Records,
)
    requires
        waiting != Waiting::Nothing,
    ensures
        event_step(waiting, network, event, outbound, pending) == (EventStep {
            waiting,
            result: Err(DispatchError::Busy),
            outbound,
            pending,
        }),
{
}

} // verus!
