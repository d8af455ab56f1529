//! Client access control: allow and deny lists of addresses and CIDR blocks.
use crate::text::texts;
use vstd::arithmetic::power2::{lemma2_to64, pow2};
use vstd::prelude::*;

verus! {

/// An IP address as a number.
#[derive(Clone, Copy, Debug, PartialEq, Eq, Structural)]
pub enum IpAddress {
    V4(u32),
    V6(u128),
}

/// A block of addresses: those that agree with `address` in their first
/// `prefix` bits.
#[derive(Clone, Copy, Debug, PartialEq, Eq, Structural)]
pub struct Cidr {
    pub address: IpAddress,
    pub prefix: u8,
}

impl Cidr {
    /// Whether the prefix is no longer than the address.
    pub open spec fn valid(self) -> bool {
        match self.address {
            IpAddress::V4(_) => self.prefix <= 32,
            IpAddress::V6(_) => self.prefix <= 128,
        }
    }

    /// Whether the address lies in the block.
    pub open spec fn holds(self, ip: IpAddress) -> bool {
        match (self.address, ip) {
            (IpAddress::V4(a), IpAddress::V4(b)) => same_front(
                a as nat,
                b as nat,
                (32 - self.prefix) as nat,
            ),
            (IpAddress::V6(a), IpAddress::V6(b)) => same_front(
                a as nat,
                b as nat,
                (128 - self.prefix) as nat,
            ),
            _ => false,
        }
    }
}

/// Whether two numbers agree in all but their last `low` bits.
pub open spec fn same_front(a: nat, b: nat, low: nat) -> bool {
    a / pow2(low) == b / pow2(low)
}

/// The block that holds one address alone.
pub open spec fn single(ip: IpAddress) -> Cidr {
    match ip {
        IpAddress::V4(_) => Cidr { address: ip, prefix: 32 },
        IpAddress::V6(_) => Cidr { address: ip, prefix: 128 },
    }
}

/// What `ipnet::IpNet` reads in a text.
pub uninterp spec fn block_in(text: Seq<char>) -> Option<Cidr>;

/// What the standard library's IP address reads in a text.
pub uninterp spec fn address_in(text: Seq<char>) -> Option<IpAddress>;

/// `str::parse` to an `ipnet::IpNet` reads a CIDR block; the address and the
/// prefix length it reads are named `block_in`. The prefix length of an
/// `IpNet` is at most the number of bits of its address.
#[verifier::external_body]
fn parse_block(entry: &str) -> (r: Option<Cidr>)
    ensures
        r == block_in(entry@),
        r matches Some(block) ==> block.valid(),
{
    match entry.parse::<ipnet::IpNet>().ok()? {
        ipnet::IpNet::V4(n) => Some(
            Cidr { address: IpAddress::V4(u32::from(n.addr())), prefix: n.prefix_len() },
        ),
        ipnet::IpNet::V6(n) => Some(
            Cidr { address: IpAddress::V6(u128::from(n.addr())), prefix: n.prefix_len() },
        ),
    }
}

/// `str::parse` to the standard library's IP address reads an IPv4 or IPv6
/// address; what it reads is named `address_in`. `ipnet::IpNet::new` with a
/// prefix of 0, which never fails, only gives access to the number.
#[verifier::external_body]
pub(crate) fn parse_address(entry: &str) -> (r: Option<IpAddress>)
    ensures
        r == address_in(entry@),
{
    match ipnet::IpNet::new(entry.parse().ok()?, 0).ok()? {
        ipnet::IpNet::V4(n) => Some(IpAddress::V4(u32::from(n.addr()))),
        ipnet::IpNet::V6(n) => Some(IpAddress::V6(u128::from(n.addr()))),
    }
}

/// `ipnet::Ipv4Net::contains` tells whether an IPv4 address lies between the
/// first and the last address of the block: whether it agrees with the block's
/// address in the first `prefix` bits.
#[verifier::external_body]
fn v4_contains(address: u32, prefix: u8, ip: u32) -> (r: bool)
    requires
        prefix <= 32,
    ensures
        r == same_front(address as nat, ip as nat, (32 - prefix) as nat),
{
    let block = ipnet::Ipv4Net::new(address.into(), prefix).unwrap();
    block.contains(&ipnet::Ipv4Net::new(ip.into(), 32).unwrap().addr())
}

/// `ipnet::Ipv6Net::contains` tells whether an IPv6 address lies between the
/// first and the last address of the block: whether it agrees with the block's
/// address in the first `prefix` bits.
#[verifier::external_body]
fn v6_contains(address: u128, prefix: u8, ip: u128) -> (r: bool)
    requires
        prefix <= 128,
    ensures
        r == same_front(address as nat, ip as nat, (128 - prefix) as nat),
{
    let block = ipnet::Ipv6Net::new(address.into(), prefix).unwrap();
    block.contains(&ipnet::Ipv6Net::new(ip.into(), 128).unwrap().addr())
}

/// What an entry of a list stands for: a CIDR block, or one address.
pub open spec fn entry_block(text: Seq<char>) -> Option<Cidr> {
    match block_in(text) {
        Some(block) => Some(block),
        None => match address_in(text) {
            Some(ip) => Some(single(ip)),
            None => None,
        },
    }
}

/// What the entries of a list stand for, or the first that stands for nothing.
pub open spec fn entry_blocks(entries: Seq<Seq<char>>) -> Result<Seq<Cidr>, Seq<char>>
    decreases entries.len(),
{
    if entries.len() == 0 {
        Ok(Seq::empty())
    } else {
        match entry_blocks(entries.drop_last()) {
            Ok(front) => match entry_block(entries.last()) {
                Some(block) => Ok(front.push(block)),
                None => Err(entries.last()),
            },
            Err(entry) => Err(entry),
        }
    }
}

/// What the entries of an allow list and of a deny list stand for, or the first
/// that stands for nothing; the allow list is read first.
pub open spec fn both_lists(allow: Seq<Seq<char>>, deny: Seq<Seq<char>>) -> Result<
    (Seq<Cidr>, Seq<Cidr>),
    Seq<char>,
> {
    match entry_blocks(allow) {
        Ok(allowed) => match entry_blocks(deny) {
            Ok(denied) => Ok((allowed, denied)),
            Err(entry) => Err(entry),
        },
        Err(entry) => Err(entry),
    }
}

/// Whether one of the blocks holds the address.
pub open spec fn listed(blocks: Seq<Cidr>, ip: IpAddress) -> bool {
    exists|i: int| 0 <= i < blocks.len() && (#[trigger] blocks[i]).holds(ip)
}

/// Whether the lists permit an address: it is on no deny list, and on the
/// allow list where there is one.
pub open spec fn permitted(allow: Seq<Cidr>, deny: Seq<Cidr>, ip: IpAddress) -> bool {
    !listed(deny, ip) && (allow.len() > 0 ==> listed(allow, ip))
}

/// Reads one entry as a CIDR block or a bare address.
fn parse_net(entry: &String) -> (r: Result<Cidr, String>)
    ensures
        match r {
            Ok(block) => block.valid() && entry_block(entry@) == Some(block),
            Err(text) => entry_block(entry@) is None && text@ == entry@,
        },
{
    match parse_block(entry.as_str()) {
        Some(block) => Ok(block),
        None => match parse_address(entry.as_str()) {
            Some(ip) => match ip {
                IpAddress::V4(_) => Ok(Cidr { address: ip, prefix: 32 }),
                IpAddress::V6(_) => Ok(Cidr { address: ip, prefix: 128 }),
            },
            None => Err(entry.clone()),
        },
    }
}

/// Whether every prefix is no longer than its address.
pub open spec fn all_valid(blocks: Seq<Cidr>) -> bool {
    forall|i: int| 0 <= i < blocks.len() ==> (#[trigger] blocks[i]).valid()
}

proof fn lemma_error_is_first(entries: Seq<Seq<char>>, n: int)
    requires
        0 <= n <= entries.len(),
        entry_blocks(entries.take(n)) is Err,
    ensures
        entry_blocks(entries) == entry_blocks(entries.take(n)),
    decreases entries.len() - n,
{
    if n == entries.len() {
        assert(entries.take(n) =~= entries);
    } else {
        assert(entries.take(n + 1).drop_last() =~= entries.take(n));
        lemma_error_is_first(entries, n + 1);
    }
}

/// Reads the entries of a list.
fn parse_nets(entries: &[String]) -> (r: Result<Vec<Cidr>, String>)
    ensures
        match r {
            Ok(blocks) => all_valid(blocks@) && entry_blocks(texts(entries@)) == Ok::<
                Seq<Cidr>,
                Seq<char>,
            >(blocks@),
            Err(text) => entry_blocks(texts(entries@)) == Err::<Seq<Cidr>, Seq<char>>(text@),
        },
{
    let ghost all = texts(entries@);
    let mut out: Vec<Cidr> = Vec::new();
    let mut i: usize = 0;
    assert(all.take(0) =~= Seq::<Seq<char>>::empty());
    while i < entries.len()
        invariant
            i <= entries.len(),
            all == texts(entries@),
            all_valid(out@),
            entry_blocks(all.take(i as int)) == Ok::<Seq<Cidr>, Seq<char>>(out@),
        decreases entries.len() - i,
    {
        assert(all[i as int] == entries@[i as int]@);
        assert(all.take(i + 1).drop_last() =~= all.take(i as int));
        match parse_net(&entries[i]) {
            Ok(block) => {
                out.push(block);
            },
            Err(text) => {
                proof {
                    lemma_error_is_first(all, i + 1);
                }
                return Err(text);
            },
        }
        i = i + 1;
    }
    assert(all.take(i as int) =~= all);
    Ok(out)
}

/// Whether a block holds an address.
fn block_contains(block: &Cidr, ip: IpAddress) -> (r: bool)
    requires
        block.valid(),
    ensures
        r == block.holds(ip),
{
    match (block.address, ip) {
        (IpAddress::V4(a), IpAddress::V4(b)) => v4_contains(a, block.prefix, b),
        (IpAddress::V6(a), IpAddress::V6(b)) => v6_contains(a, block.prefix, b),
        _ => false,
    }
}

/// Whether one of the blocks holds an address.
fn any_contains(blocks: &Vec<Cidr>, ip: IpAddress) -> (r: bool)
    requires
        all_valid(blocks@),
    ensures
        r == listed(blocks@, ip),
{
    let mut i: usize = 0;
    while i < blocks.len()
        invariant
            i <= blocks.len(),
            all_valid(blocks@),
            forall|j: int| 0 <= j < i ==> !(#[trigger] blocks@[j]).holds(ip),
        decreases blocks.len() - i,
    {
        if block_contains(&blocks[i], ip) {
            return true;
        }
        i = i + 1;
    }
    false
}

/// Allow and deny rules evaluated against a client address.
#[derive(Debug)]
pub struct AccessControl {
    allow: Vec<Cidr>,
    deny: Vec<Cidr>,
}

impl Default for AccessControl {
    /// No rules: every client is allowed.
    fn default() -> (r: AccessControl)
        ensures
            r.wf(),
            r.allowed().len() == 0,
            r.denied().len() == 0,
    {
        AccessControl { allow: Vec::new(), deny: Vec::new() }
    }
}

impl AccessControl {
    /// The blocks of the allow list.
    pub closed spec fn allowed(&self) -> Seq<Cidr> {
        self.allow@
    }

    /// The blocks of the deny list.
    pub closed spec fn denied(&self) -> Seq<Cidr> {
        self.deny@
    }

    /// Every block's prefix fits its address.
    pub closed spec fn wf(&self) -> bool {
        all_valid(self.allow@) && all_valid(self.deny@)
    }

    /// Rules from allow and deny entries, each a bare address (`1.2.3.4`) or a
    /// CIDR block (`10.0.0.0/8`). The error is the first entry that is
    /// neither; the allow list is read first.
    pub fn parse(allow: &[String], deny: &[String]) -> (r: Result<AccessControl, String>)
        ensures
            match both_lists(texts(allow@), texts(deny@)) {
                Ok((allowed, denied)) => r matches Ok(rules) && rules.wf() && rules.allowed()
                    == allowed && rules.denied() == denied,
                Err(entry) => r matches Err(text) && text@ == entry,
            },
    {
        match parse_nets(allow) {
            Ok(allow) => match parse_nets(deny) {
                Ok(deny) => Ok(AccessControl { allow, deny }),
                Err(text) => Err(text),
            },
            Err(text) => Err(text),
        }
    }

    /// Whether no rules are configured, so that every client is allowed.
    pub fn is_empty(&self) -> (r: bool)
        ensures
            r == (self.allowed().len() == 0 && self.denied().len() == 0),
    {
        self.allow.len() == 0 && self.deny.len() == 0
    }

    /// Whether `ip` is permitted: not where it matches a deny rule, nor where
    /// there is an allow list and it matches none of it.
    pub fn allows(&self, ip: IpAddress) -> (r: bool)
        requires
            self.wf(),
        ensures
            r == permitted(self.allowed(), self.denied(), ip),
    {
        if any_contains(&self.deny, ip) {
            return false;
        }
        if self.allow.len() > 0 && !any_contains(&self.allow, ip) {
            return false;
        }
        true
    }
}

/// A deny rule decides against every allow rule.
pub proof fn law_deny_wins(allow: Seq<Cidr>, deny: Seq<Cidr>, ip: IpAddress)
    requires
        listed(deny, ip),
    ensures
        !permitted(allow, deny, ip),
{
}

/// Without rules every client is permitted.
pub proof fn law_no_rules_permit_all(ip: IpAddress)
    ensures
        permitted(Seq::empty(), Seq::empty(), ip),
{
}

/// An allow list permits nobody but those on it.
pub proof fn law_allow_list_is_exclusive(allow: Seq<Cidr>, deny: Seq<Cidr>, ip: IpAddress)
    requires
        allow.len() > 0,
        permitted(allow, deny, ip),
    ensures
        listed(allow, ip),
        !listed(deny, ip),
{
}

/// A bare address in a list stands for that address and no other.
pub proof fn law_single_holds_itself_alone(a: IpAddress, b: IpAddress)
    ensures
        single(a).valid(),
        single(a).holds(b) <==> a == b,
{
    lemma2_to64();
    assert(forall|x: nat| #[trigger] (x / 1) == x);
    match (a, b) {
        (IpAddress::V4(x), IpAddress::V4(y)) => {
            assert(same_front(x as nat, y as nat, 0) <==> x == y);
        },
        (IpAddress::V6(x), IpAddress::V6(y)) => {
            assert(same_front(x as nat, y as nat, 0) <==> x == y);
        },
        _ => {},
    }
}

} // verus!
