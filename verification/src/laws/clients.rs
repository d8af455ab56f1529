//! Which clients are admitted.
use crate::access::{
    address_in, block_in, both_lists, entry_block, entry_blocks, permitted, Cidr, IpAddress,
};
use crate::config::Config;
use crate::setup::access_of;
use crate::text::texts;
use vstd::arithmetic::div_mod::{lemma_fundamental_div_mod, lemma_fundamental_div_mod_converse};
use vstd::arithmetic::power2::{lemma_pow2_pos, pow2};
use vstd::prelude::*;

verus! {

/// A client is permitted exactly where no denied block holds its address and,
/// where any block is allowed, an allowed one does.
pub proof fn law_who_is_permitted(allow: Seq<Cidr>, deny: Seq<Cidr>, ip: IpAddress)
    ensures
        permitted(allow, deny, ip) <==> {
            &&& forall|i: int| 0 <= i < deny.len() ==> !(#[trigger] deny[i]).holds(ip)
            &&& allow.len() == 0 || exists|i: int|
                0 <= i < allow.len() && (#[trigger] allow[i]).holds(ip)
        },
{
}

/// How many addresses of its kind a block holds.
pub open spec fn block_size(block: Cidr) -> nat {
    match block.address {
        IpAddress::V4(_) => pow2((32 - block.prefix) as nat),
        IpAddress::V6(_) => pow2((128 - block.prefix) as nat),
    }
}

/// The number of an address.
pub open spec fn number_of(ip: IpAddress) -> nat {
    match ip {
        IpAddress::V4(n) => n as nat,
        IpAddress::V6(n) => n as nat,
    }
}

/// The first address of a block, as a number.
pub open spec fn block_start(block: Cidr) -> int {
    number_of(block.address) - number_of(block.address) % block_size(block)
}

/// A block holds the addresses of its kind from its first one on, as many as its
/// prefix leaves open, and no address of the other kind.
pub proof fn law_block_is_a_range(block: Cidr, ip: IpAddress)
    requires
        block.valid(),
    ensures
        block.holds(ip) <==> {
            &&& block.address is V4 <==> ip is V4
            &&& block_start(block) <= number_of(ip) < block_start(block) + block_size(block)
        },
        block.holds(block.address),
{
    let size = block_size(block);
    let a = number_of(block.address);
    let b = number_of(ip);
    match block.address {
        IpAddress::V4(_) => lemma_pow2_pos((32 - block.prefix) as nat),
        IpAddress::V6(_) => lemma_pow2_pos((128 - block.prefix) as nat),
    }
    lemma_fundamental_div_mod(a as int, size as int);
    lemma_fundamental_div_mod(b as int, size as int);
    let q = a as int / size as int;
    assert(block_start(block) == size * q);
    assert(0 <= b as int % size as int && (b as int % size as int) < size);
    if a / size == b / size {
        assert(b == size * q + b as int % size as int);
    }
    if size * q <= b && b < size * q + size {
        lemma_fundamental_div_mod_converse(b as int, size as int, q, b - size * q);
        assert(b as int / size as int == q);
    }
}

/// An entry is read as a block where it is one, and otherwise as one address;
/// what is neither is refused.
pub proof fn law_entry_is_a_block_or_an_address(text: Seq<char>)
    ensures
        block_in(text) matches Some(block) ==> entry_block(text) == Some(block),
        block_in(text) is None ==> (address_in(text) matches Some(ip) ==> (entry_block(
            text,
        ) matches Some(block) && block.address == ip && block_size(block) == 1)),
        block_in(text) is None && address_in(text) is None ==> entry_block(text) is None,
{
    vstd::arithmetic::power2::lemma2_to64();
}

/// A list is read where every entry is: the blocks are those of the entries, one
/// for each and in order. Otherwise the first entry that is none is told.
pub proof fn law_list_is_read_whole(entries: Seq<Seq<char>>)
    ensures
        match entry_blocks(entries) {
            Ok(blocks) => blocks.len() == entries.len() && forall|i: int|
                0 <= i < entries.len() ==> entry_block(#[trigger] entries[i]) == Some(blocks[i]),
            Err(text) => exists|k: int|
                0 <= k < entries.len() && #[trigger] entries[k] == text && entry_block(text) is None
                    && forall|i: int|
                    0 <= i < k ==> entry_block(#[trigger] entries[i]) is Some,
        },
    decreases entries.len(),
{
    if entries.len() > 0 {
        let front = entries.drop_last();
        law_list_is_read_whole(front);
        match entry_blocks(front) {
            Ok(blocks) => {
                assert forall|i: int| 0 <= i < front.len() implies entry_block(
                    #[trigger] entries[i],
                ) == Some(blocks[i]) by {
                    assert(front[i] == entries[i]);
                }
                assert(entries[entries.len() - 1] == entries.last());
            },
            Err(text) => {
                let k = choose|k: int|
                    0 <= k < front.len() && #[trigger] front[k] == text && entry_block(text) is None
                        && forall|i: int|
                        0 <= i < k ==> entry_block(#[trigger] front[i]) is Some;
                assert(entries[k] == text);
                assert forall|i: int| 0 <= i < k implies entry_block(#[trigger] entries[i]) is Some by {
                    assert(front[i] == entries[i]);
                }
            },
        }
    }
}

/// The allow list allows and the deny list denies: each stands for its own
/// entries; a bad entry of the allow list is told before one of the deny list.
pub proof fn law_lists_are_kept_apart(allow: Seq<Seq<char>>, deny: Seq<Seq<char>>)
    ensures
        both_lists(allow, deny) is Ok <==> entry_blocks(allow) is Ok && entry_blocks(deny) is Ok,
        both_lists(allow, deny) matches Ok((allowed, denied)) ==> {
            &&& allowed.len() == allow.len()
            &&& denied.len() == deny.len()
            &&& forall|i: int|
                0 <= i < allow.len() ==> entry_block(#[trigger] allow[i]) == Some(allowed[i])
            &&& forall|i: int|
                0 <= i < deny.len() ==> entry_block(#[trigger] deny[i]) == Some(denied[i])
        },
        entry_blocks(allow) matches Err(text) ==> both_lists(allow, deny) == Err::<
            (Seq<Cidr>, Seq<Cidr>),
            Seq<char>,
        >(text),
        entry_blocks(allow) is Ok ==> (entry_blocks(deny) matches Err(text) ==> both_lists(
            allow,
            deny,
        ) == Err::<(Seq<Cidr>, Seq<Cidr>), Seq<char>>(text)),
{
    law_list_is_read_whole(allow);
    law_list_is_read_whole(deny);
}

/// The access rules are those that are configured; without any, every client is
/// permitted.
pub proof fn law_access_is_as_configured(config: Config, ip: IpAddress)
    ensures
        config.access matches Some(a) ==> access_of(config) == both_lists(
            texts(a.allow@),
            texts(a.deny@),
        ),
        config.access is None ==> (access_of(config) matches Ok((allowed, denied)) && permitted(
            allowed,
            denied,
            ip,
        )),
{
}

} // verus!
