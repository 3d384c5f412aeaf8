//! Chain setups and the agent core built from them: one home and the
//! replicas by name, all resolved or none.

use vstd::prelude::*;
use vstd::utf8::encode_utf8;
use std::sync::Arc;

verus! {

/// How to reach an Ethereum-family chain.
#[derive(Debug)]
pub struct EthereumConf {
    /// The RPC endpoint.
    pub url: String,
}

/// The connection to some chain, by chain family.
#[derive(Debug)]
pub enum ChainConf {
    Ethereum(EthereumConf),
}

/// A chain setup: a name, a domain id, the address of the contract on that
/// chain, and how to reach the chain.
#[derive(Debug)]
pub struct ChainSetup {
    pub name: String,
    pub domain: u32,
    pub address: String,
    pub chain: ChainConf,
}

/// Output style of the tracing sink.
#[derive(Clone, Copy, Debug, PartialEq, Eq, Structural)]
pub enum Style {
    Pretty,
    Json,
    Compact,
    Full,
}

/// Least severity that the tracing sink records.
#[derive(Clone, Copy, Debug, PartialEq, Eq, Structural)]
pub enum Level {
    Trace,
    Debug,
    Info,
    Warn,
    Error,
    Off,
}

/// The tracing configuration.
#[derive(Clone, Copy, Debug, PartialEq, Eq, Structural)]
pub struct TracingConfig {
    pub style: Style,
    pub level: Level,
}

/// Settings: the home, the replicas and the tracing configuration.
#[derive(Debug)]
pub struct Settings {
    pub home: ChainSetup,
    pub replicas: Vec<ChainSetup>,
    pub tracing: TracingConfig,
}

/// A contract located on its chain: what a chain adapter connects to.
#[derive(Debug)]
pub struct ChainContract {
    pub name: String,
    pub domain: u32,
    /// The 20 bytes of the contract's address.
    pub address: Vec<u8>,
    pub chain: ChainConf,
}

/// The home contract of an agent.
#[derive(Debug)]
pub struct Home {
    pub contract: ChainContract,
}

/// A replica contract of an agent.
#[derive(Debug)]
pub struct Replica {
    pub contract: ChainContract,
}

/// Why a chain setup could not be resolved.
#[derive(Clone, Debug, PartialEq, Eq)]
pub enum SetupError {
    /// The address of the named setup is not 20 bytes of hexadecimal, with
    /// or without a leading `0x`.
    InvalidAddress(String),
}

/// An ASCII hexadecimal digit, either case.
pub open spec fn is_hex_byte(b: u8) -> bool {
    (48 <= b <= 57) || (65 <= b <= 70) || (97 <= b <= 102)
}

/// The value of an ASCII hexadecimal digit.
pub open spec fn hex_byte_value(b: u8) -> int {
    if b <= 57 {
        b - 48
    } else if b <= 70 {
        b - 55
    } else {
        b - 87
    }
}

/// Whether `text` is an even number of hexadecimal digits.
pub open spec fn is_hex_text(text: Seq<u8>) -> bool {
    &&& text.len() % 2 == 0
    &&& forall|i: int| 0 <= i < text.len() ==> #[trigger] is_hex_byte(text[i])
}

/// The bytes that an even number of hexadecimal digits spell, two digits
/// per byte, high digit first.
pub open spec fn hex_decoded(text: Seq<u8>) -> Seq<u8> {
    Seq::new(
        text.len() / 2,
        |i: int| (hex_byte_value(text[2 * i]) * 16 + hex_byte_value(text[2 * i + 1])) as u8,
    )
}

/// Relies on hex::decode: it succeeds exactly on an even number of
/// hexadecimal digits of either case, and then gives one byte per pair.
#[verifier::external_body]
fn decode_hex(text: &[u8]) -> (r: Option<Vec<u8>>)
    ensures
        r is Some <==> is_hex_text(text@),
        r is Some ==> r->0@ == hex_decoded(text@),
{
    hex::decode(text).ok()
}

/// The digits of an address: the text without a leading `0x`.
pub open spec fn address_digits(text: Seq<u8>) -> Seq<u8> {
    if text.len() >= 2 && text[0] == 48 && text[1] == 120 {
        text.subrange(2, text.len() as int)
    } else {
        text
    }
}

/// Whether the UTF-8 text is an address: forty hexadecimal digits, with or
/// without a leading `0x`.
pub open spec fn valid_address(text: Seq<u8>) -> bool {
    address_digits(text).len() == 40 && is_hex_text(address_digits(text))
}

/// The 20 bytes of an address text.
pub open spec fn address_value(text: Seq<u8>) -> Seq<u8> {
    hex_decoded(address_digits(text))
}

/// The 20 bytes of the address `text`, or `None` when it is not forty
/// hexadecimal digits with or without a leading `0x`.
pub fn parse_address(text: &str) -> (r: Option<Vec<u8>>)
    ensures
        r is Some <==> valid_address(encode_utf8(text@)),
        r is Some ==> r->0@ == address_value(encode_utf8(text@)),
{
    let bytes = text.as_bytes();
    let ghost all = encode_utf8(text@);
    assert(bytes@ == all);
    let start: usize = if bytes.len() >= 2 && bytes[0] == 48 && bytes[1] == 120 { 2 } else { 0 };
    let mut digits: Vec<u8> = Vec::new();
    let mut i: usize = start;
    while i < bytes.len()
        invariant
            start <= i <= bytes@.len(),
            bytes@ == all,
            address_digits(all) == all.subrange(start as int, all.len() as int),
            digits@ == all.subrange(start as int, i as int),
        decreases bytes@.len() - i,
    {
        digits.push(bytes[i]);
        i = i + 1;
    }
    assert(digits@ == address_digits(all));
    if digits.len() != 40 {
        return None;
    }
    decode_hex(digits.as_slice())
}

/// The UTF-8 bytes of a setup's address text.
pub open spec fn address_text(setup: &ChainSetup) -> Seq<u8> {
    encode_utf8(setup.address@)
}

/// `e` reports that `setup` did not resolve.
pub open spec fn names_setup(e: &SetupError, setup: &ChainSetup) -> bool {
    match e {
        SetupError::InvalidAddress(name) => name@ == setup.name@,
    }
}

/// Two connection settings say the same.
pub open spec fn same_conf(a: &ChainConf, b: &ChainConf) -> bool {
    match (a, b) {
        (ChainConf::Ethereum(x), ChainConf::Ethereum(y)) => x.url@ == y.url@,
    }
}

/// `contract` is what `setup` locates.
pub open spec fn locates(setup: &ChainSetup, contract: &ChainContract) -> bool {
    &&& contract.name@ == setup.name@
    &&& contract.domain == setup.domain
    &&& contract.address@ == address_value(address_text(setup))
    &&& same_conf(&contract.chain, &setup.chain)
}

impl ChainConf {
    /// A copy of the connection settings.
    pub fn duplicate(&self) -> (r: ChainConf)
        ensures
            same_conf(&r, self),
    {
        match self {
            ChainConf::Ethereum(conf) => ChainConf::Ethereum(EthereumConf { url: conf.url.clone() }),
        }
    }
}

impl ChainSetup {
    /// The contract this setup locates, or the setup's name in an
    /// `InvalidAddress` error when its address does not parse.
    pub fn locate(&self) -> (r: Result<ChainContract, SetupError>)
        ensures
            r is Ok <==> valid_address(address_text(self)),
            r is Ok ==> locates(self, &r->Ok_0),
            r is Err ==> names_setup(&r->Err_0, self),
    {
        match parse_address(self.address.as_str()) {
            Some(address) => Ok(
                ChainContract {
                    name: self.name.clone(),
                    domain: self.domain,
                    address,
                    chain: self.chain.duplicate(),
                },
            ),
            None => Err(SetupError::InvalidAddress(self.name.clone())),
        }
    }

    /// The home contract this setup locates.
    pub fn try_into_home(&self) -> (r: Result<Home, SetupError>)
        ensures
            r is Ok <==> valid_address(address_text(self)),
            r is Ok ==> locates(self, &r->Ok_0.contract),
            r is Err ==> names_setup(&r->Err_0, self),
    {
        match self.locate() {
            Ok(contract) => Ok(Home { contract }),
            Err(e) => Err(e),
        }
    }

    /// The replica contract this setup locates.
    pub fn try_into_replica(&self) -> (r: Result<Replica, SetupError>)
        ensures
            r is Ok <==> valid_address(address_text(self)),
            r is Ok ==> locates(self, &r->Ok_0.contract),
            r is Err ==> names_setup(&r->Err_0, self),
    {
        match self.locate() {
            Ok(contract) => Ok(Replica { contract }),
            Err(e) => Err(e),
        }
    }
}


/// Replicas by name, in the order of their setups. Where two carry one
/// name, the later stands for it.
#[derive(Debug)]
pub struct ReplicaMap {
    entries: Vec<Arc<Replica>>,
}

impl View for ReplicaMap {
    type V = Seq<Arc<Replica>>;

    closed spec fn view(&self) -> Seq<Arc<Replica>> {
        self.entries@
    }
}

/// Entry `k` of `entries` is the last one named `name`.
pub open spec fn last_named(entries: Seq<Arc<Replica>>, name: Seq<char>, k: int) -> bool {
    &&& 0 <= k < entries.len()
    &&& entries[k].contract.name@ == name
    &&& forall|j: int| k < j < entries.len() ==> #[trigger] entries[j].contract.name@ != name
}

impl ReplicaMap {
    /// A map with no replica.
    pub fn new() -> (r: ReplicaMap)
        ensures
            r@ == Seq::<Arc<Replica>>::empty(),
    {
        ReplicaMap { entries: Vec::new() }
    }

    /// Adds `replica` after the others; it stands for its name from now on.
    pub fn insert(&mut self, replica: Arc<Replica>)
        ensures
            final(self)@ == old(self)@.push(replica),
    {
        self.entries.push(replica);
    }

    /// The number of replicas added, names repeated or not.
    pub fn len(&self) -> (r: usize)
        ensures
            r == self@.len(),
    {
        self.entries.len()
    }

    /// The replica that stands for `name`: the last one added under it.
    pub fn get(&self, name: &String) -> (r: Option<&Arc<Replica>>)
        ensures
            r is None <==> forall|k: int| 0 <= k < self@.len() ==> #[trigger] self@[k].contract.name@ != name@,
            r is Some ==> exists|k: int| last_named(self@, name@, k) && *r->0 == self@[k],
    {
        let mut k: usize = self.entries.len();
        while k > 0
            invariant
                k <= self.entries@.len(),
                forall|j: int| k <= j < self.entries@.len() ==> #[trigger] self.entries@[j].contract.name@ != name@,
            decreases k,
        {
            let entry = &self.entries[k - 1];
            if entry.contract.name == *name {
                assert(last_named(self@, name@, k - 1));
                return Some(entry);
            }
            k = k - 1;
        }
        None
    }
}

/// One home and the replicas by name, for the life of an agent.
#[derive(Debug)]
pub struct AgentCore {
    pub home: Arc<Home>,
    pub replicas: ReplicaMap,
}

/// Every setup of `setups` has a valid address.
pub open spec fn all_valid(setups: Seq<ChainSetup>) -> bool {
    forall|k: int| 0 <= k < setups.len() ==> valid_address(#[trigger] address_text(&setups[k]))
}

/// Setup `k` is the first of `setups` whose address is not valid.
pub open spec fn first_invalid(setups: Seq<ChainSetup>, k: int) -> bool {
    &&& 0 <= k < setups.len()
    &&& !valid_address(address_text(&setups[k]))
    &&& forall|j: int| 0 <= j < k ==> valid_address(#[trigger] address_text(&setups[j]))
}

/// Every setup of `settings`, home and replicas, resolves.
pub open spec fn core_resolves(settings: &Settings) -> bool {
    valid_address(address_text(&settings.home)) && all_valid(settings.replicas@)
}

impl Settings {
    /// The replicas of every replica setup, in order; fails on the first
    /// setup that does not resolve, naming it.
    pub fn try_replicas(&self) -> (r: Result<ReplicaMap, SetupError>)
        ensures
            r is Ok <==> all_valid(self.replicas@),
            r is Ok ==> r->Ok_0@.len() == self.replicas@.len() && forall|k: int| 0 <= k < self.replicas@.len()
                ==> locates(&self.replicas@[k], &(#[trigger] r->Ok_0@[k]).contract),
            r is Err ==> exists|k: int| first_invalid(self.replicas@, k)
                && names_setup(&r->Err_0, &self.replicas@[k]),
    {
        let mut result = ReplicaMap::new();
        let mut k: usize = 0;
        while k < self.replicas.len()
            invariant
                k <= self.replicas@.len(),
                result@.len() == k,
                forall|j: int| 0 <= j < k ==> valid_address(#[trigger] address_text(&self.replicas@[j])),
                forall|j: int| 0 <= j < k ==> locates(&self.replicas@[j], &(#[trigger] result@[j]).contract),
            decreases self.replicas@.len() - k,
        {
            match self.replicas[k].try_into_replica() {
                Ok(replica) => {
                    result.insert(Arc::new(replica));
                },
                Err(e) => {
                    assert(first_invalid(self.replicas@, k as int));
                    return Err(e);
                },
            }
            k = k + 1;
        }
        Ok(result)
    }

    /// The home of the home setup.
    pub fn try_home(&self) -> (r: Result<Home, SetupError>)
        ensures
            r is Ok <==> valid_address(address_text(&self.home)),
            r is Ok ==> locates(&self.home, &r->Ok_0.contract),
            r is Err ==> names_setup(&r->Err_0, &self.home),
    {
        self.home.try_into_home()
    }

    /// The agent core: the home and every replica, or the first setup that
    /// does not resolve (the home before the replicas). No core is made
    /// from a part of the setups.
    pub fn try_into_core(&self) -> (r: Result<AgentCore, SetupError>)
        ensures
            r is Ok <==> core_resolves(self),
            r is Ok ==> locates(&self.home, &r->Ok_0.home.contract) && r->Ok_0.replicas@.len()
                == self.replicas@.len() && forall|k: int| 0 <= k < self.replicas@.len()
                ==> locates(&self.replicas@[k], &(#[trigger] r->Ok_0.replicas@[k]).contract),
            !valid_address(address_text(&self.home)) ==> r is Err && names_setup(&r->Err_0, &self.home),
            valid_address(address_text(&self.home)) && r is Err ==> exists|k: int|
                first_invalid(self.replicas@, k) && names_setup(&r->Err_0, &self.replicas@[k]),
    {
        let home = match self.try_home() {
            Ok(h) => Arc::new(h),
            Err(e) => {
                return Err(e);
            },
        };
        let replicas = match self.try_replicas() {
            Ok(m) => m,
            Err(e) => {
                return Err(e);
            },
        };
        Ok(AgentCore { home, replicas })
    }
}

/// A core is made only when every setup resolves: one replica setup that
/// does not resolve is enough for construction to fail, however well the
/// home and the other replicas resolve.
pub proof fn lemma_core_all_or_nothing(settings: &Settings, k: int)
    requires
        0 <= k < settings.replicas@.len(),
        !valid_address(address_text(&settings.replicas@[k])),
    ensures
        !core_resolves(settings),
{
}

} // verus!
