//! Core data model: heights, rounds, identities, proposed values and the
//! records that the handler loop reads and writes.

use vstd::prelude::*;

verus! {

/// Round within a height. `Nil` is the distinguished "no round" sentinel;
/// `At(n)` is round number `n`.
#[derive(Clone, Copy, PartialEq, Eq, Structural, Debug)]
pub enum Round {
    Nil,
    At(u32),
}

/// The node's role for the current round, set exactly once per started round.
#[derive(Clone, Copy, PartialEq, Eq, Structural, Debug)]
pub enum Role {
    Proposer,
    Validator,
    NoRole,
}

/// Outcome of validating a reassembled or synced value.
#[derive(Clone, Copy, PartialEq, Eq, Structural, Debug)]
pub enum Validity {
    Valid,
    Invalid,
}

/// Fixed-size validator identity.
#[derive(Clone, Copy, Debug, PartialEq, Eq)]
pub struct Address {
    pub bytes: [u8; 20],
}

impl View for Address {
    type V = Seq<u8>;

    open spec fn view(&self) -> Seq<u8> {
        self.bytes@
    }
}

impl Address {
    pub fn new(bytes: [u8; 20]) -> (r: Address)
        ensures
            r@ == bytes@,
    {
        Address { bytes }
    }
}

/// Equality of two validator identities, byte for byte.
pub fn addr_eq(a: &Address, b: &Address) -> (r: bool)
    ensures
        r <==> a@ == b@,
{
    let mut i: usize = 0;
    while i < 20
        invariant
            i <= 20,
            forall|j: int| 0 <= j < i ==> a.bytes@[j] == b.bytes@[j],
        decreases 20 - i,
    {
        if a.bytes[i] != b.bytes[i] {
            assert(a@ != b@);
            return false;
        }
        i += 1;
    }
    assert(a@ =~= b@);
    true
}

/// Byte-for-byte copy of a byte vector.
pub fn copy_bytes(v: &Vec<u8>) -> (r: Vec<u8>)
    ensures
        r@ == v@,
{
    let mut r: Vec<u8> = Vec::new();
    let mut i: usize = 0;
    while i < v.len()
        invariant
            i <= v.len(),
            r@ == v@.take(i as int),
        decreases v.len() - i,
    {
        r.push(v[i]);
        assert(r@ =~= v@.take(i + 1 as int));
        i += 1;
    }
    assert(v@.take(v.len() as int) =~= v@);
    r
}

/// A candidate block value: an application-chosen identifier plus the
/// serialized block payload.
#[derive(Clone, Debug, PartialEq, Eq)]
pub struct Value {
    pub id: u64,
    pub payload: Vec<u8>,
}

/// Mathematical model of a [`Value`].
pub struct ValueModel {
    pub id: u64,
    pub payload: Seq<u8>,
}

impl View for Value {
    type V = ValueModel;

    open spec fn view(&self) -> ValueModel {
        ValueModel { id: self.id, payload: self.payload@ }
    }
}

impl Value {
    /// Copy that provably preserves the value's model.
    pub fn duplicate(&self) -> (r: Value)
        ensures
            r@ == self@,
    {
        Value { id: self.id, payload: copy_bytes(&self.payload) }
    }
}

/// A validator's identity, voting power and public-key bytes.
#[derive(Clone, Debug, PartialEq, Eq)]
pub struct ValidatorInfo {
    pub address: Address,
    pub power: u64,
    pub public_key: Vec<u8>,
}

/// Mathematical model of a [`ValidatorInfo`].
pub struct ValidatorInfoModel {
    pub address: Seq<u8>,
    pub power: u64,
    pub public_key: Seq<u8>,
}

impl View for ValidatorInfo {
    type V = ValidatorInfoModel;

    open spec fn view(&self) -> ValidatorInfoModel {
        ValidatorInfoModel {
            address: self.address@,
            power: self.power,
            public_key: self.public_key@,
        }
    }
}

impl ValidatorInfo {
    /// Copy that provably preserves the validator's model.
    pub fn duplicate(&self) -> (r: ValidatorInfo)
        ensures
            r@ == self@,
    {
        ValidatorInfo {
            address: self.address,
            power: self.power,
            public_key: copy_bytes(&self.public_key),
        }
    }
}

/// The weighted set of validators eligible to vote at some height.
#[derive(Clone, Debug, PartialEq, Eq)]
pub struct ValidatorSet {
    pub validators: Vec<ValidatorInfo>,
}

impl View for ValidatorSet {
    type V = Seq<ValidatorInfoModel>;

    open spec fn view(&self) -> Seq<ValidatorInfoModel> {
        self.validators@.map_values(|v: ValidatorInfo| v@)
    }
}

impl ValidatorSet {
    /// Copy that provably preserves the set's model.
    pub fn duplicate(&self) -> (r: ValidatorSet)
        ensures
            r@ == self@,
    {
        let mut vs: Vec<ValidatorInfo> = Vec::new();
        let mut i: usize = 0;
        while i < self.validators.len()
            invariant
                i <= self.validators.len(),
                vs@.len() == i,
                forall|j: int| 0 <= j < i ==> vs@[j]@ == self.validators@[j]@,
            decreases self.validators.len() - i,
        {
            vs.push(self.validators[i].duplicate());
            i += 1;
        }
        assert(vs@.map_values(|v: ValidatorInfo| v@)
            =~= self.validators@.map_values(|v: ValidatorInfo| v@));
        ValidatorSet { validators: vs }
    }
}

/// A candidate block value together with its provenance and validity.
#[derive(Clone, Debug, PartialEq, Eq)]
pub struct ProposedValue {
    pub height: u64,
    pub round: Round,
    pub valid_round: Round,
    pub proposer: Address,
    pub value: Value,
    pub validity: Validity,
}

/// Mathematical model of a [`ProposedValue`].
pub struct ProposedValueModel {
    pub height: u64,
    pub round: Round,
    pub valid_round: Round,
    pub proposer: Seq<u8>,
    pub value: ValueModel,
    pub validity: Validity,
}

impl View for ProposedValue {
    type V = ProposedValueModel;

    open spec fn view(&self) -> ProposedValueModel {
        ProposedValueModel {
            height: self.height,
            round: self.round,
            valid_round: self.valid_round,
            proposer: self.proposer@,
            value: self.value@,
            validity: self.validity,
        }
    }
}

impl ProposedValue {
    /// Copy that provably preserves the proposal's model.
    pub fn duplicate(&self) -> (r: ProposedValue)
        ensures
            r@ == self@,
    {
        ProposedValue {
            height: self.height,
            round: self.round,
            valid_round: self.valid_round,
            proposer: self.proposer,
            value: self.value.duplicate(),
            validity: self.validity,
        }
    }
}

/// Proof that a value was decided at a given height and round.
#[derive(Clone, Debug, PartialEq, Eq)]
pub struct Certificate {
    pub height: u64,
    pub round: Round,
    pub value_id: u64,
    pub commit_proof: Vec<u8>,
}

/// Mathematical model of a [`Certificate`].
pub struct CertificateModel {
    pub height: u64,
    pub round: Round,
    pub value_id: u64,
    pub commit_proof: Seq<u8>,
}

impl View for Certificate {
    type V = CertificateModel;

    open spec fn view(&self) -> CertificateModel {
        CertificateModel {
            height: self.height,
            round: self.round,
            value_id: self.value_id,
            commit_proof: self.commit_proof@,
        }
    }
}

impl Certificate {
    /// Copy that provably preserves the certificate's model.
    pub fn duplicate(&self) -> (r: Certificate)
        ensures
            r@ == self@,
    {
        Certificate {
            height: self.height,
            round: self.round,
            value_id: self.value_id,
            commit_proof: copy_bytes(&self.commit_proof),
        }
    }
}

/// The permanent record of what was committed at a height.
#[derive(Clone, Debug, PartialEq, Eq)]
pub struct DecidedValue {
    pub certificate: Certificate,
    pub value: Value,
}

/// Mathematical model of a [`DecidedValue`].
pub struct DecidedValueModel {
    pub certificate: CertificateModel,
    pub value: ValueModel,
}

impl View for DecidedValue {
    type V = DecidedValueModel;

    open spec fn view(&self) -> DecidedValueModel {
        DecidedValueModel { certificate: self.certificate@, value: self.value@ }
    }
}

impl DecidedValue {
    /// Copy that provably preserves the record's model.
    pub fn duplicate(&self) -> (r: DecidedValue)
        ensures
            r@ == self@,
    {
        DecidedValue {
            certificate: self.certificate.duplicate(),
            value: self.value.duplicate(),
        }
    }
}

/// One ordered wire fragment of a proposed value's encoding.
#[derive(Clone, Debug, PartialEq, Eq)]
pub struct ProposalPart {
    pub height: u64,
    pub round: Round,
    pub valid_round: Round,
    pub proposer: Address,
    pub sequence: u64,
    pub data: Vec<u8>,
    pub last: bool,
}

/// Mathematical model of a [`ProposalPart`].
pub struct ProposalPartModel {
    pub height: u64,
    pub round: Round,
    pub valid_round: Round,
    pub proposer: Seq<u8>,
    pub sequence: u64,
    pub data: Seq<u8>,
    pub last: bool,
}

impl View for ProposalPart {
    type V = ProposalPartModel;

    open spec fn view(&self) -> ProposalPartModel {
        ProposalPartModel {
            height: self.height,
            round: self.round,
            valid_round: self.valid_round,
            proposer: self.proposer@,
            sequence: self.sequence,
            data: self.data@,
            last: self.last,
        }
    }
}

impl ProposalPart {
    /// Copy that provably preserves the part's model.
    pub fn duplicate(&self) -> (r: ProposalPart)
        ensures
            r@ == self@,
    {
        ProposalPart {
            height: self.height,
            round: self.round,
            valid_round: self.valid_round,
            proposer: self.proposer,
            sequence: self.sequence,
            data: copy_bytes(&self.data),
            last: self.last,
        }
    }
}

} // verus!
