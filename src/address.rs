//! Addresses of data on the network, their binary form and their canonical
//! text.
use crate::name::{lemma_xor_name_eq, lemma_xor_name_key, XorName};
use crate::order::{
    flip, lemma_lex_append, lemma_lex_equal, lemma_lex_flip, lemma_lex_single, lemma_lex_transitive,
    lex,
};
use core::cmp::Ordering;
use crate::wire::{
    lemma_u64_le_injective, push_name, push_u64_le, push_variant, read_name, read_u64_le, u64_le,
    variant_le,
};
use crate::zbase32::{
    bit_at, bit_of_quint, decode, encode, encoded_len, lemma_quint_at, lemma_symbol_inverse,
    lemma_zbase32_injective, quint_at, symbol, symbol_value, zbase32,
};
use vstd::prelude::*;

verus! {

/// Why an address could not be turned into text or read back from it.
#[derive(Clone, Copy, Debug, PartialEq, Eq, Structural)]
pub enum Error {
    /// The address could not be put in binary form.
    Serialisation,
    /// The text is not the canonical text of an address.
    FailedToParse,
}

/// Address of a register: its identifier and a tag that tells apart
/// registers sharing that identifier.
#[derive(Clone, Copy, Debug, Hash, Eq, Ord)]
pub struct RegisterAddress {
    pub name: XorName,
    pub tag: u64,
}

impl RegisterAddress {
    /// The key that register addresses are ordered by: identifier, then tag.
    pub open spec fn key(self) -> Seq<int> {
        self.name.key() + seq![self.tag as int]
    }

    /// How `self` compares with `other`.
    pub open spec fn order(self, other: RegisterAddress) -> Ordering {
        lex(self.key(), other.key())
    }

    /// The address of the register with identifier `name` and tag `tag`.
    pub fn new(name: XorName, tag: u64) -> (r: RegisterAddress)
        ensures
            r == (RegisterAddress { name, tag }),
    {
        RegisterAddress { name, tag }
    }

    /// The identifier, without the tag.
    pub fn name(&self) -> (r: &XorName)
        ensures
            *r == self.name,
    {
        &self.name
    }

    /// The tag.
    pub fn tag(&self) -> (r: u64)
        ensures
            r == self.tag,
    {
        self.tag
    }
}

impl PartialEq for RegisterAddress {
    fn eq(&self, other: &RegisterAddress) -> (r: bool) {
        proof {
            lemma_xor_name_eq(self.name, other.name);
        }
        self.name == other.name && self.tag == other.tag
    }
}

impl vstd::std_specs::cmp::PartialEqSpecImpl for RegisterAddress {
    open spec fn obeys_eq_spec() -> bool {
        true
    }

    open spec fn eq_spec(&self, other: &RegisterAddress) -> bool {
        *self == *other
    }
}

/// An address of data on the network.
#[derive(Clone, Copy, Debug, Hash, Eq, Ord)]
pub enum DataAddress {
    /// An identity key.
    SafeKey(XorName),
    /// Immutable bytes.
    Bytes(XorName),
    /// A register.
    Register(RegisterAddress),
}

impl DataAddress {
    /// Position of the variant in the order of addresses: identity keys,
    /// then bytes, then registers.
    pub open spec fn rank(self) -> int {
        match self {
            DataAddress::SafeKey(_) => 0,
            DataAddress::Bytes(_) => 1,
            DataAddress::Register(_) => 2,
        }
    }

    /// The key of what the variant holds.
    pub open spec fn payload_key(self) -> Seq<int> {
        match self {
            DataAddress::SafeKey(n) => n.key(),
            DataAddress::Bytes(n) => n.key(),
            DataAddress::Register(r) => r.key(),
        }
    }

    /// The key that addresses are ordered by: rank, then what the variant holds.
    pub open spec fn key(self) -> Seq<int> {
        seq![self.rank()] + self.payload_key()
    }

    /// How `self` compares with `other`.
    pub open spec fn order(self, other: DataAddress) -> Ordering {
        lex(self.key(), other.key())
    }

    /// The identifier that the address routes to.
    pub open spec fn xor_name(self) -> XorName {
        match self {
            DataAddress::SafeKey(n) => n,
            DataAddress::Bytes(n) => n,
            DataAddress::Register(r) => r.name,
        }
    }

    /// The binary form: the variant's index as four little-endian bytes,
    /// then the identifier's 32 bytes, then for a register its tag as
    /// eight little-endian bytes.
    pub open spec fn wire(self) -> Seq<u8> {
        match self {
            DataAddress::SafeKey(n) => variant_le(0) + n.bytes(),
            DataAddress::Bytes(n) => variant_le(1) + n.bytes(),
            DataAddress::Register(r) => variant_le(2) + r.name.bytes() + u64_le(r.tag),
        }
    }

    /// The canonical text: the z-base-32 text of the binary form.
    pub open spec fn canonical_text(self) -> Seq<char> {
        zbase32(self.wire())
    }

    /// The identifier.
    pub fn name(&self) -> (r: &XorName)
        ensures
            *r == self.xor_name(),
    {
        match self {
            DataAddress::SafeKey(address) => address,
            DataAddress::Bytes(address) => address,
            DataAddress::Register(address) => address.name(),
        }
    }

    /// The binary form of the address.
    pub fn to_bytes(&self) -> (r: Vec<u8>)
        ensures
            r@ == self.wire(),
            r@.len() <= 44,
    {
        let mut out: Vec<u8> = Vec::new();
        match self {
            DataAddress::SafeKey(n) => {
                push_variant(&mut out, 0);
                push_name(&mut out, n);
            },
            DataAddress::Bytes(n) => {
                push_variant(&mut out, 1);
                push_name(&mut out, n);
            },
            DataAddress::Register(r) => {
                push_variant(&mut out, 2);
                push_name(&mut out, &r.name);
                push_u64_le(&mut out, r.tag);
            },
        }
        out
    }

    /// The address whose binary form is `bytes`, if there is one.
    pub fn from_bytes(bytes: &Vec<u8>) -> (r: Option<DataAddress>)
        ensures
            match r {
                Some(a) => a.wire() == bytes@,
                None => forall|a: DataAddress| #[trigger] a.wire() != bytes@,
            },
    {
        let len: usize = bytes.len();
        if len < 4 || bytes[1] != 0 || bytes[2] != 0 || bytes[3] != 0 || !(bytes[0] <= 2) || (
        bytes[0] < 2 && len != 36) || (bytes[0] == 2 && len != 44) {
            proof {
                assert forall|a: DataAddress| #[trigger] a.wire() != bytes@ by {
                    if a.wire() == bytes@ {
                        assert(a.wire()[1] == 0 && a.wire()[2] == 0 && a.wire()[3] == 0);
                        match a {
                            DataAddress::SafeKey(n) => assert(a.wire()[0] == 0),
                            DataAddress::Bytes(n) => assert(a.wire()[0] == 1),
                            DataAddress::Register(r) => assert(a.wire()[0] == 2),
                        }
                    }
                }
            }
            return None;
        }
        let name = read_name(bytes, 4);
        if bytes[0] == 0 {
            let a = DataAddress::SafeKey(name);
            assert(a.wire() =~= bytes@);
            Some(a)
        } else if bytes[0] == 1 {
            let a = DataAddress::Bytes(name);
            assert(a.wire() =~= bytes@);
            Some(a)
        } else {
            let tag = read_u64_le(bytes, 36);
            let a = DataAddress::Register(RegisterAddress { name, tag });
            assert(a.wire() =~= bytes@);
            Some(a)
        }
    }

    /// The canonical text of the address.
    pub fn encode_to_zbase32(&self) -> (r: Result<String, Error>)
        ensures
            r matches Ok(text) && text@ == self.canonical_text(),
    {
        let bytes = self.to_bytes();
        Ok(encode(bytes.as_slice()))
    }

    /// The address whose canonical text is `encoded`.
    pub fn decode_from_zbase32(encoded: &str) -> (r: Result<DataAddress, Error>)
        ensures
            match r {
                Ok(a) => a.canonical_text() == encoded@,
                Err(e) => e == Error::FailedToParse && forall|a: DataAddress|
                    #[trigger] a.canonical_text() != encoded@,
            },
    {
        match decode(encoded) {
            None => Err(Error::FailedToParse),
            Some(bytes) => match DataAddress::from_bytes(&bytes) {
                Some(a) => Ok(a),
                None => {
                    proof {
                        assert forall|a: DataAddress| #[trigger] a.canonical_text() != encoded@ by {
                            if a.canonical_text() == encoded@ {
                                lemma_zbase32_injective(a.wire(), bytes@);
                            }
                        }
                    }
                    Err(Error::FailedToParse)
                },
            },
        }
    }

    /// The address of the register with identifier `name` and tag `tag`.
    pub fn register(name: XorName, tag: u64) -> (r: DataAddress)
        ensures
            r == DataAddress::Register(RegisterAddress { name, tag }),
    {
        DataAddress::Register(RegisterAddress::new(name, tag))
    }

    /// The address of immutable bytes with identifier `name`.
    pub fn bytes(name: XorName) -> (r: DataAddress)
        ensures
            r == DataAddress::Bytes(name),
    {
        DataAddress::Bytes(name)
    }

    /// The address of the identity key with identifier `name`.
    pub fn safe_key(name: XorName) -> (r: DataAddress)
        ensures
            r == DataAddress::SafeKey(name),
    {
        DataAddress::SafeKey(name)
    }
}

impl PartialEq for DataAddress {
    fn eq(&self, other: &DataAddress) -> (r: bool) {
        match (self, other) {
            (DataAddress::SafeKey(a), DataAddress::SafeKey(b)) => {
                proof {
                    lemma_xor_name_eq(*a, *b);
                }
                a == b
            },
            (DataAddress::Bytes(a), DataAddress::Bytes(b)) => {
                proof {
                    lemma_xor_name_eq(*a, *b);
                }
                a == b
            },
            (DataAddress::Register(a), DataAddress::Register(b)) => a == b,
            _ => false,
        }
    }
}

impl vstd::std_specs::cmp::PartialEqSpecImpl for DataAddress {
    open spec fn obeys_eq_spec() -> bool {
        true
    }

    open spec fn eq_spec(&self, other: &DataAddress) -> bool {
        *self == *other
    }
}

/// Address of a chunk of immutable content.
#[derive(Clone, Copy, Debug, Hash, Eq, Ord)]
pub struct ChunkAddress(pub XorName);

impl ChunkAddress {
    /// The key that chunk addresses are ordered by: the identifier's.
    pub open spec fn key(self) -> Seq<int> {
        self.0.key()
    }

    /// How `self` compares with `other`.
    pub open spec fn order(self, other: ChunkAddress) -> Ordering {
        lex(self.key(), other.key())
    }

    /// The binary form: the identifier's 32 bytes.
    pub open spec fn wire(self) -> Seq<u8> {
        self.0.bytes()
    }

    /// The canonical text: the z-base-32 text of the binary form.
    pub open spec fn canonical_text(self) -> Seq<char> {
        zbase32(self.wire())
    }

    /// The identifier.
    pub fn name(&self) -> (r: &XorName)
        ensures
            *r == self.0,
    {
        &self.0
    }

    /// The binary form of the address.
    pub fn to_bytes(&self) -> (r: Vec<u8>)
        ensures
            r@ == self.wire(),
            r@.len() == 32,
    {
        let mut out: Vec<u8> = Vec::new();
        push_name(&mut out, &self.0);
        out
    }

    /// The address whose binary form is `bytes`, if there is one.
    pub fn from_bytes(bytes: &Vec<u8>) -> (r: Option<ChunkAddress>)
        ensures
            match r {
                Some(a) => a.wire() == bytes@,
                None => forall|a: ChunkAddress| #[trigger] a.wire() != bytes@,
            },
    {
        if bytes.len() != 32 {
            return None;
        }
        let a = ChunkAddress(read_name(bytes, 0));
        assert(a.wire() =~= bytes@);
        Some(a)
    }

    /// The canonical text of the address.
    pub fn encode_to_zbase32(&self) -> (r: Result<String, Error>)
        ensures
            r matches Ok(text) && text@ == self.canonical_text(),
    {
        let bytes = self.to_bytes();
        Ok(encode(bytes.as_slice()))
    }

    /// The address whose canonical text is `encoded`.
    pub fn decode_from_zbase32(encoded: &str) -> (r: Result<ChunkAddress, Error>)
        ensures
            match r {
                Ok(a) => a.canonical_text() == encoded@,
                Err(e) => e == Error::FailedToParse && forall|a: ChunkAddress|
                    #[trigger] a.canonical_text() != encoded@,
            },
    {
        match decode(encoded) {
            None => Err(Error::FailedToParse),
            Some(bytes) => match ChunkAddress::from_bytes(&bytes) {
                Some(a) => Ok(a),
                None => {
                    proof {
                        assert forall|a: ChunkAddress| #[trigger] a.canonical_text() != encoded@ by {
                            if a.canonical_text() == encoded@ {
                                lemma_zbase32_injective(a.wire(), bytes@);
                            }
                        }
                    }
                    Err(Error::FailedToParse)
                },
            },
        }
    }
}

impl PartialEq for ChunkAddress {
    fn eq(&self, other: &ChunkAddress) -> (r: bool) {
        proof {
            lemma_xor_name_eq(self.0, other.0);
        }
        self.0 == other.0
    }
}

impl vstd::std_specs::cmp::PartialEqSpecImpl for ChunkAddress {
    open spec fn obeys_eq_spec() -> bool {
        true
    }

    open spec fn eq_spec(&self, other: &ChunkAddress) -> bool {
        *self == *other
    }
}

/// An address of data that is replicated across storage nodes.
#[derive(Clone, Copy, Debug, Hash, Eq, Ord)]
pub enum ReplicatedDataAddress {
    /// A chunk.
    Chunk(ChunkAddress),
    /// A register.
    Register(RegisterAddress),
}

impl ReplicatedDataAddress {
    /// The key that replicated addresses are ordered by: chunks first, then
    /// what the variant holds.
    pub open spec fn key(self) -> Seq<int> {
        match self {
            ReplicatedDataAddress::Chunk(c) => seq![0] + c.key(),
            ReplicatedDataAddress::Register(r) => seq![1] + r.key(),
        }
    }

    /// How `self` compares with `other`.
    pub open spec fn order(self, other: ReplicatedDataAddress) -> Ordering {
        lex(self.key(), other.key())
    }

    /// The identifier that the address routes to.
    pub open spec fn xor_name(self) -> XorName {
        match self {
            ReplicatedDataAddress::Chunk(c) => c.0,
            ReplicatedDataAddress::Register(r) => r.name,
        }
    }

    /// The identifier.
    pub fn name(&self) -> (r: &XorName)
        ensures
            *r == self.xor_name(),
    {
        match self {
            ReplicatedDataAddress::Chunk(address) => address.name(),
            ReplicatedDataAddress::Register(address) => address.name(),
        }
    }

    /// An owned copy of the address.
    pub fn to_replicated_address(&self) -> (r: ReplicatedDataAddress)
        ensures
            r == *self,
    {
        match self {
            ReplicatedDataAddress::Chunk(address) => ReplicatedDataAddress::Chunk(*address),
            ReplicatedDataAddress::Register(address) => ReplicatedDataAddress::Register(*address),
        }
    }
}

impl PartialEq for ReplicatedDataAddress {
    fn eq(&self, other: &ReplicatedDataAddress) -> (r: bool) {
        match (self, other) {
            (ReplicatedDataAddress::Chunk(a), ReplicatedDataAddress::Chunk(b)) => a == b,
            (ReplicatedDataAddress::Register(a), ReplicatedDataAddress::Register(b)) => a == b,
            _ => false,
        }
    }
}

impl vstd::std_specs::cmp::PartialEqSpecImpl for ReplicatedDataAddress {
    open spec fn obeys_eq_spec() -> bool {
        true
    }

    open spec fn eq_spec(&self, other: &ReplicatedDataAddress) -> bool {
        *self == *other
    }
}

impl PartialOrd for RegisterAddress {
    fn partial_cmp(&self, other: &RegisterAddress) -> (r: Option<Ordering>) {
        proof {
            lemma_lex_append(
                self.name.key(),
                other.name.key(),
                seq![self.tag as int],
                seq![other.tag as int],
            );
            lemma_lex_single(self.tag as int, other.tag as int);
        }
        match self.name.partial_cmp(&other.name) {
            Some(Ordering::Equal) => if self.tag < other.tag {
                Some(Ordering::Less)
            } else if self.tag > other.tag {
                Some(Ordering::Greater)
            } else {
                Some(Ordering::Equal)
            },
            c => c,
        }
    }
}

impl vstd::std_specs::cmp::PartialOrdSpecImpl for RegisterAddress {
    open spec fn obeys_partial_cmp_spec() -> bool {
        true
    }

    open spec fn partial_cmp_spec(&self, other: &RegisterAddress) -> Option<Ordering> {
        Some(self.order(*other))
    }
}

/// The position of a data address's variant in the order.
fn data_rank(a: &DataAddress) -> (r: u8)
    ensures
        r as int == a.rank(),
{
    match a {
        DataAddress::SafeKey(_) => 0,
        DataAddress::Bytes(_) => 1,
        DataAddress::Register(_) => 2,
    }
}

impl PartialOrd for DataAddress {
    fn partial_cmp(&self, other: &DataAddress) -> (r: Option<Ordering>) {
        let ra = data_rank(self);
        let rb = data_rank(other);
        proof {
            lemma_lex_append(
                seq![self.rank()],
                seq![other.rank()],
                self.payload_key(),
                other.payload_key(),
            );
            lemma_lex_single(self.rank(), other.rank());
        }
        if ra < rb {
            return Some(Ordering::Less);
        } else if ra > rb {
            return Some(Ordering::Greater);
        }
        match (self, other) {
            (DataAddress::SafeKey(a), DataAddress::SafeKey(b)) => a.partial_cmp(b),
            (DataAddress::Bytes(a), DataAddress::Bytes(b)) => a.partial_cmp(b),
            (DataAddress::Register(a), DataAddress::Register(b)) => a.partial_cmp(b),
            _ => Some(Ordering::Equal),
        }
    }
}

impl vstd::std_specs::cmp::PartialOrdSpecImpl for DataAddress {
    open spec fn obeys_partial_cmp_spec() -> bool {
        true
    }

    open spec fn partial_cmp_spec(&self, other: &DataAddress) -> Option<Ordering> {
        Some(self.order(*other))
    }
}

impl PartialOrd for ChunkAddress {
    fn partial_cmp(&self, other: &ChunkAddress) -> (r: Option<Ordering>) {
        self.0.partial_cmp(&other.0)
    }
}

impl vstd::std_specs::cmp::PartialOrdSpecImpl for ChunkAddress {
    open spec fn obeys_partial_cmp_spec() -> bool {
        true
    }

    open spec fn partial_cmp_spec(&self, other: &ChunkAddress) -> Option<Ordering> {
        Some(self.order(*other))
    }
}

impl PartialOrd for ReplicatedDataAddress {
    fn partial_cmp(&self, other: &ReplicatedDataAddress) -> (r: Option<Ordering>) {
        match (self, other) {
            (ReplicatedDataAddress::Chunk(a), ReplicatedDataAddress::Chunk(b)) => {
                proof {
                    lemma_lex_append(seq![0], seq![0], a.key(), b.key());
                    lemma_lex_single(0, 0);
                }
                a.partial_cmp(b)
            },
            (ReplicatedDataAddress::Register(a), ReplicatedDataAddress::Register(b)) => {
                proof {
                    lemma_lex_append(seq![1], seq![1], a.key(), b.key());
                    lemma_lex_single(1, 1);
                }
                a.partial_cmp(b)
            },
            (ReplicatedDataAddress::Chunk(a), ReplicatedDataAddress::Register(b)) => {
                proof {
                    lemma_lex_append(seq![0], seq![1], a.key(), b.key());
                    lemma_lex_single(0, 1);
                }
                Some(Ordering::Less)
            },
            (ReplicatedDataAddress::Register(a), ReplicatedDataAddress::Chunk(b)) => {
                proof {
                    lemma_lex_append(seq![1], seq![0], a.key(), b.key());
                    lemma_lex_single(1, 0);
                }
                Some(Ordering::Greater)
            },
        }
    }
}

impl vstd::std_specs::cmp::PartialOrdSpecImpl for ReplicatedDataAddress {
    open spec fn obeys_partial_cmp_spec() -> bool {
        true
    }

    open spec fn partial_cmp_spec(&self, other: &ReplicatedDataAddress) -> Option<Ordering> {
        Some(self.order(*other))
    }
}

/// Distinct data addresses have distinct keys.
pub proof fn lemma_data_address_key_injective(a: DataAddress, b: DataAddress)
    requires
        a.key() == b.key(),
    ensures
        a == b,
{
    assert(a.key()[0] == a.rank());
    assert(b.key()[0] == b.rank());
    assert(a.payload_key() =~= a.key().drop_first());
    assert(b.payload_key() =~= b.key().drop_first());
    match (a, b) {
        (DataAddress::SafeKey(x), DataAddress::SafeKey(y)) => lemma_xor_name_key(x, y),
        (DataAddress::Bytes(x), DataAddress::Bytes(y)) => lemma_xor_name_key(x, y),
        (DataAddress::Register(x), DataAddress::Register(y)) => {
            assert(x.name.key() =~= x.key().take(32));
            assert(y.name.key() =~= y.key().take(32));
            assert(x.key()[32] == y.key()[32]);
            lemma_xor_name_key(x.name, y.name);
        },
        _ => {},
    }
}

/// Data addresses are totally ordered: of `a < b`, `a == b` and `a > b`
/// exactly one holds, comparing the other way round gives the opposite
/// result, and the order is transitive.
pub proof fn lemma_data_address_order(a: DataAddress, b: DataAddress, c: DataAddress)
    ensures
        (a.order(b) == Ordering::Equal) == (a == b),
        b.order(a) == flip(a.order(b)),
        a.order(b) == Ordering::Less && b.order(c) == Ordering::Less ==> a.order(c)
            == Ordering::Less,
{
    lemma_lex_equal(a.key(), b.key());
    if a.key() == b.key() {
        lemma_data_address_key_injective(a, b);
    }
    lemma_lex_flip(a.key(), b.key());
    if a.order(b) == Ordering::Less && b.order(c) == Ordering::Less {
        lemma_lex_transitive(a.key(), b.key(), c.key());
    }
}

/// Distinct addresses have distinct binary forms.
pub proof fn lemma_data_address_wire_injective(a: DataAddress, b: DataAddress)
    requires
        a.wire() == b.wire(),
    ensures
        a == b,
{
    assert(a.wire()[0] == b.wire()[0]);
    match (a, b) {
        (DataAddress::SafeKey(x), DataAddress::SafeKey(y)) => {
            assert(x.bytes() =~= a.wire().subrange(4, 36));
            assert(y.bytes() =~= b.wire().subrange(4, 36));
            lemma_xor_name_eq(x, y);
        },
        (DataAddress::Bytes(x), DataAddress::Bytes(y)) => {
            assert(x.bytes() =~= a.wire().subrange(4, 36));
            assert(y.bytes() =~= b.wire().subrange(4, 36));
            lemma_xor_name_eq(x, y);
        },
        (DataAddress::Register(x), DataAddress::Register(y)) => {
            assert(x.name.bytes() =~= a.wire().subrange(4, 36));
            assert(y.name.bytes() =~= b.wire().subrange(4, 36));
            assert(u64_le(x.tag) =~= a.wire().subrange(36, 44));
            assert(u64_le(y.tag) =~= b.wire().subrange(36, 44));
            lemma_xor_name_eq(x.name, y.name);
            lemma_u64_le_injective(x.tag, y.tag);
        },
        (DataAddress::SafeKey(x), _) => assert(a.wire()[0] == 0),
        (DataAddress::Bytes(x), _) => assert(a.wire()[0] == 1),
        (DataAddress::Register(x), _) => assert(a.wire()[0] == 2),
    }
}

/// Round trip: `a`'s canonical text is the canonical text of no other
/// address, so decoding what encoding `a` gives yields `a` again.
pub proof fn lemma_data_address_round_trip(a: DataAddress, b: DataAddress)
    requires
        b.canonical_text() == a.canonical_text(),
    ensures
        b == a,
{
    lemma_zbase32_injective(a.wire(), b.wire());
    lemma_data_address_wire_injective(a, b);
}

/// Round trip: `c`'s canonical text is the canonical text of no other
/// chunk address, so decoding what encoding `c` gives yields `c` again.
pub proof fn lemma_chunk_address_round_trip(c: ChunkAddress, d: ChunkAddress)
    requires
        d.canonical_text() == c.canonical_text(),
    ensures
        d == c,
{
    lemma_zbase32_injective(c.wire(), d.wire());
    lemma_xor_name_eq(c.0, d.0);
}

/// The three kinds of address built from one identifier are pairwise
/// distinct, and so are their canonical texts.
pub proof fn lemma_variants_distinct(n: XorName, tag: u64)
    ensures
        DataAddress::Bytes(n) != DataAddress::SafeKey(n),
        DataAddress::Bytes(n) != DataAddress::Register(RegisterAddress { name: n, tag }),
        DataAddress::SafeKey(n) != DataAddress::Register(RegisterAddress { name: n, tag }),
        DataAddress::Bytes(n).canonical_text() != DataAddress::SafeKey(n).canonical_text(),
        DataAddress::Bytes(n).canonical_text() != DataAddress::Register(
            RegisterAddress { name: n, tag },
        ).canonical_text(),
        DataAddress::SafeKey(n).canonical_text() != DataAddress::Register(
            RegisterAddress { name: n, tag },
        ).canonical_text(),
{
    let r = DataAddress::Register(RegisterAddress { name: n, tag });
    if DataAddress::Bytes(n).canonical_text() == DataAddress::SafeKey(n).canonical_text() {
        lemma_data_address_round_trip(DataAddress::Bytes(n), DataAddress::SafeKey(n));
    }
    if DataAddress::Bytes(n).canonical_text() == r.canonical_text() {
        lemma_data_address_round_trip(DataAddress::Bytes(n), r);
    }
    if DataAddress::SafeKey(n).canonical_text() == r.canonical_text() {
        lemma_data_address_round_trip(DataAddress::SafeKey(n), r);
    }
}

/// Registers with one identifier and different tags have different
/// addresses and different canonical texts.
pub proof fn lemma_tag_distinguishes(n: XorName, t1: u64, t2: u64)
    requires
        t1 != t2,
    ensures
        DataAddress::Register(RegisterAddress { name: n, tag: t1 }) != DataAddress::Register(
            RegisterAddress { name: n, tag: t2 },
        ),
        DataAddress::Register(RegisterAddress { name: n, tag: t1 }).canonical_text()
            != DataAddress::Register(RegisterAddress { name: n, tag: t2 }).canonical_text(),
{
    let a = DataAddress::Register(RegisterAddress { name: n, tag: t1 });
    let b = DataAddress::Register(RegisterAddress { name: n, tag: t2 });
    if a.canonical_text() == b.canonical_text() {
        lemma_data_address_round_trip(a, b);
    }
}

/// A register's address routes to its identifier, whatever its tag.
pub proof fn lemma_register_name(n: XorName, tag: u64)
    ensures
        DataAddress::Register(RegisterAddress { name: n, tag }).xor_name() == n,
{
}

/// Text with a symbol outside the alphabet is the canonical text of no
/// address.
pub proof fn lemma_foreign_symbol_rejected(text: Seq<char>, i: int)
    requires
        0 <= i < text.len(),
        symbol_value(text[i]) == -1,
    ensures
        forall|a: DataAddress| #[trigger] a.canonical_text() != text,
        forall|c: ChunkAddress| #[trigger] c.canonical_text() != text,
{
    assert forall|b: Seq<u8>| #[trigger] zbase32(b) != text by {
        if zbase32(b) == text {
            lemma_quint_at(b, i);
            assert(zbase32(b)[i] == symbol(quint_at(b, i) as int));
        }
    }
    assert forall|a: DataAddress| #[trigger] a.canonical_text() != text by {
        assert(zbase32(a.wire()) != text);
    }
    assert forall|c: ChunkAddress| #[trigger] c.canonical_text() != text by {
        assert(zbase32(c.wire()) != text);
    }
}

/// A canonical text cut short is the canonical text of no address.
pub proof fn lemma_truncated_rejected(a: DataAddress, k: int)
    requires
        0 <= k < a.canonical_text().len(),
    ensures
        forall|b: DataAddress| #[trigger] b.canonical_text() != a.canonical_text().take(k),
{
    assert forall|b: DataAddress| #[trigger] b.canonical_text() != a.canonical_text().take(k) by {
        if b.canonical_text() == a.canonical_text().take(k) {
            let aw = a.wire();
            let bw = b.wire();
            assert(encoded_len(36) == 58 && encoded_len(44) == 71);
            assert(aw.len() == 36 || aw.len() == 44);
            assert(bw.len() == 36 || bw.len() == 44);
            assert(zbase32(aw).len() == encoded_len(aw.len()));
            assert(zbase32(bw).len() == encoded_len(bw.len()));
            assert(b.canonical_text().len() == k);
            // Only a register's text is longer than another address's.
            assert(aw.len() == 44 && bw.len() == 36);
            assert(b.canonical_text()[1] == a.canonical_text().take(k)[1]);
            assert(b.canonical_text()[1] == a.canonical_text()[1]);
            assert(zbase32(aw)[1] == symbol(quint_at(aw, 1) as int));
            assert(zbase32(bw)[1] == symbol(quint_at(bw, 1) as int));
            lemma_quint_at(aw, 1);
            lemma_quint_at(bw, 1);
            lemma_symbol_inverse(quint_at(aw, 1) as int);
            lemma_symbol_inverse(quint_at(bw, 1) as int);
            assert(bit_of_quint(quint_at(aw, 1), 1) == bit_at(aw, 6));
            assert(bit_of_quint(quint_at(bw, 1), 1) == bit_at(bw, 6));
            assert(aw[0] == 2);
            assert(bw[0] <= 1);
            assert((2u8 >> 1u8) & 1u8 == 1) by (bit_vector);
            assert((0u8 >> 1u8) & 1u8 == 0) by (bit_vector);
            assert((1u8 >> 1u8) & 1u8 == 0) by (bit_vector);
        }
    }
}

} // verus!
