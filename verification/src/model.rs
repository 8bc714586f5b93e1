//! The domain model: the records that the binary format carries, each with
//! the mathematical value that contracts speak of.

use crate::content::ascending;
use vstd::prelude::*;

verus! {

/// A discrete period of on-chain time.
pub type Epoch = u64;

/// An on-chain identifier, held in its canonical textual form.
#[derive(Clone, Debug, PartialEq, Eq)]
pub struct Address {
    pub text: String,
}

impl View for Address {
    type V = Seq<char>;

    open spec fn view(&self) -> Seq<char> {
        self.text@
    }
}

/// A digest of thirty-two bytes.
#[derive(Clone, Debug, PartialEq, Eq)]
pub struct Hash {
    pub bytes: [u8; 32],
}

impl View for Hash {
    type V = Seq<u8>;

    open spec fn view(&self) -> Seq<u8> {
        self.bytes@
    }
}

/// An addition to a set, or a removal from it.
#[derive(Clone, Debug, PartialEq, Eq)]
pub enum AddRemove<T> {
    Add(T),
    Remove(T),
}

impl<T: View> View for AddRemove<T> {
    type V = AddRemove<T::V>;

    open spec fn view(&self) -> AddRemove<T::V> {
        match self {
            AddRemove::Add(t) => AddRemove::Add(t@),
            AddRemove::Remove(t) => AddRemove::Remove(t@),
        }
    }
}

/// The receiver of a funding payment.
#[derive(Clone, Debug, PartialEq, Eq)]
pub struct PaymentTarget {
    pub target: Address,
}

impl View for PaymentTarget {
    type V = Seq<char>;

    open spec fn view(&self) -> Seq<char> {
        self.target@
    }
}

impl PaymentTarget {
    /// The identifier that this target exposes.
    pub fn target(&self) -> (r: &Address)
        ensures
            r@ == self@,
    {
        &self.target
    }
}

/// One change to the payment schedule.
#[derive(Clone, Debug, PartialEq, Eq)]
pub enum PGFAction {
    Continuous(AddRemove<PaymentTarget>),
    Retro(PaymentTarget),
}

/// The value of a `PGFAction`.
pub enum PGFActionModel {
    Continuous(AddRemove<Seq<char>>),
    Retro(Seq<char>),
}

impl View for PGFAction {
    type V = PGFActionModel;

    open spec fn view(&self) -> PGFActionModel {
        match self {
            PGFAction::Continuous(a) => PGFActionModel::Continuous(a@),
            PGFAction::Retro(t) => PGFActionModel::Retro(t@),
        }
    }
}

/// What a proposal asks for.
#[derive(Clone, Debug, PartialEq, Eq)]
pub enum ProposalType {
    Default(Option<Hash>),
    PGFSteward(Vec<AddRemove<Address>>),
    PGFPayment(Vec<PGFAction>),
}

/// The value of a `ProposalType`.
pub enum ProposalTypeModel {
    Default(Option<Seq<u8>>),
    PGFSteward(Seq<AddRemove<Seq<char>>>),
    PGFPayment(Seq<PGFActionModel>),
}

/// The values of a list, in order.
pub open spec fn views<T: View>(list: Seq<T>) -> Seq<T::V> {
    Seq::new(list.len(), |i: int| list[i]@)
}

impl View for ProposalType {
    type V = ProposalTypeModel;

    open spec fn view(&self) -> ProposalTypeModel {
        match self {
            ProposalType::Default(None) => ProposalTypeModel::Default(None),
            ProposalType::Default(Some(h)) => ProposalTypeModel::Default(Some(h@)),
            ProposalType::PGFSteward(list) => ProposalTypeModel::PGFSteward(views(list@)),
            ProposalType::PGFPayment(list) => ProposalTypeModel::PGFPayment(views(list@)),
        }
    }
}

/// One entry of a mapping from keys to texts: a key and the text under it.
#[derive(Clone, Debug, PartialEq, Eq)]
pub struct Entry {
    pub key: String,
    pub value: String,
}

impl View for Entry {
    type V = (Seq<char>, Seq<char>);

    open spec fn view(&self) -> (Seq<char>, Seq<char>) {
        (self.key@, self.value@)
    }
}

/// A governance proposal as it is stored. A well-formed proposal holds each
/// key of its content once, in ascending order of the keys.
#[derive(Clone, Debug, PartialEq, Eq)]
pub struct Proposal {
    pub id: u64,
    pub content: Vec<Entry>,
    pub author: Address,
    pub proposal_type: ProposalType,
    pub voting_start_epoch: Epoch,
    pub voting_end_epoch: Epoch,
    pub grace_epoch: Epoch,
}

/// The value of a `Proposal`.
pub struct ProposalModel {
    pub id: u64,
    pub content: Seq<(Seq<char>, Seq<char>)>,
    pub author: Seq<char>,
    pub proposal_type: ProposalTypeModel,
    pub voting_start_epoch: Epoch,
    pub voting_end_epoch: Epoch,
    pub grace_epoch: Epoch,
}

impl View for Proposal {
    type V = ProposalModel;

    open spec fn view(&self) -> ProposalModel {
        ProposalModel {
            id: self.id,
            content: views(self.content@),
            author: self.author@,
            proposal_type: self.proposal_type@,
            voting_start_epoch: self.voting_start_epoch,
            voting_end_epoch: self.voting_end_epoch,
            grace_epoch: self.grace_epoch,
        }
    }
}

impl Proposal {
    /// Whether the keys of the content ascend strictly.
    pub open spec fn well_formed(&self) -> bool {
        ascending(self@.content)
    }
}

/// Where a proposal stands at a given epoch.
#[derive(Clone, Copy, Debug, PartialEq, Eq, Structural)]
pub enum ProposalStatus {
    Pending,
    OnGoing,
    Ended,
}

/// The choice that a vote expresses.
#[derive(Clone, Copy, Debug, PartialEq, Eq, Structural)]
pub enum ProposalVote {
    Yay,
    Nay,
    Abstain,
}

impl View for ProposalVote {
    type V = ProposalVote;

    open spec fn view(&self) -> ProposalVote {
        *self
    }
}

/// One vote on a proposal.
#[derive(Clone, Debug, PartialEq, Eq)]
pub struct Vote {
    pub validator: Address,
    pub delegator: Address,
    pub data: ProposalVote,
}

/// The value of a `Vote`.
pub struct VoteModel {
    pub validator: Seq<char>,
    pub delegator: Seq<char>,
    pub data: ProposalVote,
}

impl View for Vote {
    type V = VoteModel;

    open spec fn view(&self) -> VoteModel {
        VoteModel { validator: self.validator@, delegator: self.delegator@, data: self.data }
    }
}

/// Whether a proposal passed.
#[derive(Clone, Copy, Debug, PartialEq, Eq, Structural)]
pub enum TallyResult {
    Passed,
    Rejected,
}

/// The rule by which the votes were counted.
#[derive(Clone, Copy, Debug, PartialEq, Eq, Structural)]
pub enum TallyType {
    TwoThirds,
    OneHalfOverOneThird,
    LessOneHalfOverOneThirdNay,
}

/// An unsigned number of 256 bits, in four words of 64 bits, the least
/// significant first.
#[derive(Clone, Copy, Debug, PartialEq, Eq, Structural)]
pub struct Amount {
    pub w0: u64,
    pub w1: u64,
    pub w2: u64,
    pub w3: u64,
}

/// The number that four words of 64 bits make, the least significant first.
pub open spec fn words_value(w0: u64, w1: u64, w2: u64, w3: u64) -> nat {
    (w0 as nat) + (w1 as nat) * 0x1_0000_0000_0000_0000nat + (w2 as nat)
        * 0x1_0000_0000_0000_0000_0000_0000_0000_0000nat + (w3 as nat)
        * 0x1_0000_0000_0000_0000_0000_0000_0000_0000_0000_0000_0000_0000nat
}

impl View for Amount {
    type V = nat;

    open spec fn view(&self) -> nat {
        words_value(self.w0, self.w1, self.w2, self.w3)
    }
}

/// The outcome of a tally, with the voting power behind it.
#[derive(Clone, Copy, Debug, PartialEq, Eq, Structural)]
pub struct ProposalResult {
    pub result: TallyResult,
    pub tally_type: TallyType,
    pub total_voting_power: Amount,
    pub total_yay_power: Amount,
    pub total_nay_power: Amount,
    pub total_abstain_power: Amount,
}

/// The value of a `ProposalResult`.
pub struct ProposalResultModel {
    pub result: TallyResult,
    pub tally_type: TallyType,
    pub total_voting_power: nat,
    pub total_yay_power: nat,
    pub total_nay_power: nat,
    pub total_abstain_power: nat,
}

impl View for ProposalResult {
    type V = ProposalResultModel;

    open spec fn view(&self) -> ProposalResultModel {
        ProposalResultModel {
            result: self.result,
            tally_type: self.tally_type,
            total_voting_power: self.total_voting_power@,
            total_yay_power: self.total_yay_power@,
            total_nay_power: self.total_nay_power@,
            total_abstain_power: self.total_abstain_power@,
        }
    }
}

/// A signed decimal number with twelve places after the point, held as a
/// 256-bit integer in two's complement.
#[derive(Clone, Copy, Debug, PartialEq, Eq, Structural)]
pub struct Dec {
    pub raw: Amount,
}

/// Two to the power 255: the least magnitude that two's complement reads as
/// negative.
pub open spec fn sign_bound() -> nat {
    0x8000_0000_0000_0000_0000_0000_0000_0000_0000_0000_0000_0000_0000_0000_0000_0000nat
}

/// The signed number that 256 bits hold in two's complement, given the
/// unsigned number that they hold.
#[verifier::opaque]
pub open spec fn twos_complement(raw: nat) -> int {
    if raw >= sign_bound() {
        raw - 2 * sign_bound()
    } else {
        raw as int
    }
}

impl View for Dec {
    type V = int;

    /// The number held, in units of ten to the power minus twelve.
    open spec fn view(&self) -> int {
        twos_complement(self.raw@)
    }
}

/// A validator's commission rate and the most it may change in one epoch.
#[derive(Clone, Copy, Debug, PartialEq, Eq, Structural)]
pub struct CommissionPair {
    pub commission_rate: Dec,
    pub max_commission_change_per_epoch: Dec,
}

/// The value of a `CommissionPair`.
pub struct CommissionPairModel {
    pub commission_rate: int,
    pub max_commission_change_per_epoch: int,
}

impl View for CommissionPair {
    type V = CommissionPairModel;

    open spec fn view(&self) -> CommissionPairModel {
        CommissionPairModel {
            commission_rate: self.commission_rate@,
            max_commission_change_per_epoch: self.max_commission_change_per_epoch@,
        }
    }
}

} // verus!
