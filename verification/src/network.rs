//! The configured address block and the addresses derived from it. An IPv4
//! address is held as its 32-bit value, first octet most significant.

use vstd::arithmetic::power2::{lemma2_to64, lemma_pow2_unfold, pow2};
use vstd::prelude::*;

verus! {

/// Why a block could not be configured.
#[derive(Clone, Copy, Debug, PartialEq, Eq, Structural)]
pub enum NetworkError {
    /// The prefix length exceeds 32.
    InvalidPrefix,
    /// The text is not an IPv4 block in CIDR notation.
    InvalidCidr,
}

/// The bits of an address that vary inside a block of the given prefix length.
pub open spec fn host_mask(prefix: u8) -> u32 {
    if prefix >= 32 {
        0u32
    } else {
        0xffff_ffffu32 >> prefix
    }
}

/// What the `ipnetwork` crate reads from a text in CIDR notation: the address
/// and the prefix length, or `None` where it refuses the text.
pub uninterp spec fn parsed_cidr(text: Seq<char>) -> Option<(u32, u8)>;

/// Runs the `FromStr` parser of `ipnetwork::Ipv4Network` on the text and
/// returns the address and prefix length of the block it yields. The contract
/// gives the outcome its name and adds that the prefix length of a block is at
/// most 32, since the crate makes no block with a longer prefix; nothing is
/// claimed about which texts the parser accepts.
#[verifier::external_body]
fn parse_cidr(text: &str) -> (r: Option<(u32, u8)>)
    ensures
        r == parsed_cidr(text@),
        r matches Some((_, prefix)) ==> prefix <= 32,
{
    match text.parse::<ipnetwork::Ipv4Network>() {
        Ok(net) => Some((u32::from(net.ip()), net.prefix())),
        Err(_) => None,
    }
}

/// An immutable CIDR block: an address inside it and the prefix length.
#[derive(Clone, Copy, Debug, PartialEq, Eq, Structural)]
pub struct ConfiguredNetwork {
    addr: u32,
    prefix: u8,
}

impl ConfiguredNetwork {
    /// The prefix length is at most 32.
    #[verifier::type_invariant]
    pub open spec fn wf(&self) -> bool {
        self.spec_prefix() <= 32
    }

    pub closed spec fn spec_ip(&self) -> u32 {
        self.addr
    }

    pub closed spec fn spec_prefix(&self) -> u8 {
        self.prefix
    }

    /// Lowest address of the block.
    pub open spec fn spec_network(&self) -> u32 {
        self.spec_ip() & !host_mask(self.spec_prefix())
    }

    /// Highest address of the block.
    pub open spec fn spec_broadcast(&self) -> u32 {
        self.spec_ip() | host_mask(self.spec_prefix())
    }

    /// Number of addresses in the block.
    pub open spec fn block_size(&self) -> int {
        host_mask(self.spec_prefix()) + 1
    }

    /// Whether the address lies in the block.
    pub open spec fn spec_contains(&self, a: u32) -> bool {
        self.spec_network() <= a <= self.spec_broadcast()
    }

    /// The first usable address, which stands for the server inside the
    /// virtual network. A block of fewer than two addresses has none.
    pub open spec fn spec_gateway(&self) -> Option<u32> {
        if self.spec_prefix() < 32 {
            Some((self.spec_network() + 1) as u32)
        } else {
            None
        }
    }

    /// Whether the address may be handed to a peer: it lies in the block and is
    /// neither the network address, nor the broadcast address, nor the gateway.
    pub open spec fn assignable(&self, a: u32) -> bool {
        &&& self.spec_contains(a)
        &&& a != self.spec_network()
        &&& a != self.spec_broadcast()
        &&& self.spec_gateway() != Some(a)
    }

    /// The addresses that may be handed to peers.
    pub open spec fn pool(&self) -> Set<u32> {
        Set::new(|a: u32| self.assignable(a))
    }

    /// Hosts of the block by the usual count: all addresses but the network
    /// and the broadcast address.
    pub open spec fn usable_hosts(&self) -> int {
        self.block_size() - 2
    }

    /// The block `addr/prefix`; refused when the prefix is longer than 32 bits.
    pub fn new(addr: u32, prefix: u8) -> (r: Result<ConfiguredNetwork, NetworkError>)
        ensures
            prefix <= 32 ==> r is Ok && r->Ok_0.wf() && r->Ok_0.spec_ip() == addr
                && r->Ok_0.spec_prefix() == prefix,
            prefix > 32 ==> r == Err::<ConfiguredNetwork, NetworkError>(NetworkError::InvalidPrefix),
    {
        if prefix > 32 {
            Err(NetworkError::InvalidPrefix)
        } else {
            Ok(ConfiguredNetwork { addr, prefix })
        }
    }

    /// The address the block was written with.
    #[verifier::when_used_as_spec(spec_ip)]
    pub fn ip(&self) -> (r: u32)
        ensures
            r == self.spec_ip(),
    {
        self.addr
    }

    /// The prefix length.
    #[verifier::when_used_as_spec(spec_prefix)]
    pub fn prefix(&self) -> (r: u8)
        ensures
            r == self.spec_prefix(),
            r <= 32,
    {
        proof {
            use_type_invariant(self);
        }
        self.prefix
    }

    fn mask(&self) -> (m: u32)
        ensures
            m == host_mask(self.spec_prefix()),
    {
        if self.prefix >= 32 {
            0
        } else {
            0xffff_ffffu32 >> self.prefix
        }
    }

    /// Lowest address of the block.
    #[verifier::when_used_as_spec(spec_network)]
    pub fn network(&self) -> (r: u32)
        ensures
            r == self.spec_network(),
    {
        self.addr & !self.mask()
    }

    /// Highest address of the block.
    #[verifier::when_used_as_spec(spec_broadcast)]
    pub fn broadcast(&self) -> (r: u32)
        ensures
            r == self.spec_broadcast(),
    {
        self.addr | self.mask()
    }

    /// The gateway address, where the block has one.
    #[verifier::when_used_as_spec(spec_gateway)]
    pub fn gateway(&self) -> (r: Option<u32>)
        ensures
            r == self.spec_gateway(),
    {
        if self.prefix < 32 {
            let net: u32 = self.network();
            proof {
                use_type_invariant(self);
                lemma_block_bounds(self.addr, self.prefix);
            }
            Some(net + 1)
        } else {
            None
        }
    }

    /// Whether the address lies in the block.
    #[verifier::when_used_as_spec(spec_contains)]
    pub fn contains(&self, a: u32) -> (r: bool)
        ensures
            r == self.spec_contains(a),
    {
        self.network() <= a && a <= self.broadcast()
    }

    /// Whether the address may be handed to a peer.
    pub fn is_assignable(&self, a: u32) -> (r: bool)
        ensures
            r == self.assignable(a),
    {
        let net: u32 = self.network();
        let top: u32 = self.broadcast();
        net <= a && a <= top && a != net && a != top && self.gateway() != Some(a)
    }

    /// Number of addresses that may be handed to peers.
    pub fn pool_size(&self) -> (r: u32)
        ensures
            r == self.pool().len(),
    {
        proof {
            use_type_invariant(self);
            lemma_block_bounds(self.addr, self.prefix);
            lemma_pool_size(*self);
        }
        let span: u32 = self.broadcast() - self.network();
        if span >= 3 {
            span - 2
        } else {
            0
        }
    }

    /// The block that a text in CIDR notation describes.
    pub fn parse(text: &str) -> (r: Result<ConfiguredNetwork, NetworkError>)
        ensures
            match parsed_cidr(text@) {
                Some((addr, prefix)) => r is Ok && r->Ok_0.wf() && r->Ok_0.spec_ip() == addr
                    && r->Ok_0.spec_prefix() == prefix,
                None => r == Err::<ConfiguredNetwork, NetworkError>(NetworkError::InvalidCidr),
            },
    {
        match parse_cidr(text) {
            Some((addr, prefix)) => ConfiguredNetwork::new(addr, prefix),
            None => Err(NetworkError::InvalidCidr),
        }
    }

    /// The bounds of the pool: every assignable address `a` has
    /// `first <= a < end`, and every such address is assignable. `None` where
    /// the block is too small to hold a peer.
    pub fn pool_bounds(&self) -> (r: Option<(u32, u32)>)
        ensures
            match r {
                Some((first, end)) => first < end && forall|a: u32|
                    self.assignable(a) <==> first <= a < end,
                None => forall|a: u32| !self.assignable(a),
            },
            r matches Some((first, end)) ==> first == self.spec_network() + 2 && end
                == self.spec_broadcast(),
    {
        proof {
            use_type_invariant(self);
            lemma_block_bounds(self.addr, self.prefix);
        }
        let net: u32 = self.network();
        let top: u32 = self.broadcast();
        if top - net >= 3 {
            Some((net + 2, top))
        } else {
            None
        }
    }
}

/// Shape of a block: the network address is the lowest address, the broadcast
/// address lies `host_mask` above it, and the mask covers at least two further
/// addresses exactly when the prefix is shorter than 31 bits.
pub proof fn lemma_block_bounds(addr: u32, prefix: u8)
    requires
        prefix <= 32,
    ensures
        (addr & !host_mask(prefix)) <= addr <= (addr | host_mask(prefix)),
        (addr | host_mask(prefix)) == (addr & !host_mask(prefix)) + host_mask(prefix),
        prefix < 32 ==> host_mask(prefix) >= 1,
        prefix <= 30 <==> host_mask(prefix) >= 3,
        prefix == 31 ==> host_mask(prefix) == 1,
{
    let m = host_mask(prefix);
    assert((addr & !m) <= addr && addr <= (addr | m)) by (bit_vector);
    assert((addr | m) == (addr & !m) + m) by (bit_vector);
    if prefix < 32 {
        assert(prefix <= 31 ==> (0xffff_ffffu32 >> prefix) >= 1) by (bit_vector);
        assert(prefix <= 30 ==> (0xffff_ffffu32 >> prefix) >= 3) by (bit_vector);
        assert(prefix == 31 ==> (0xffff_ffffu32 >> prefix) == 1) by (bit_vector);
    }
}

/// The addresses from `lo` up to, but without, `hi`.
pub open spec fn address_range(lo: u32, hi: u32) -> Set<u32> {
    Set::new(|a: u32| lo <= a < hi)
}

/// A range of addresses is finite and holds `hi - lo` of them.
pub proof fn lemma_address_range_len(lo: u32, hi: u32)
    requires
        lo <= hi,
    ensures
        address_range(lo, hi).finite(),
        address_range(lo, hi).len() == hi - lo,
    decreases hi - lo,
{
    if lo == hi {
        assert(address_range(lo, hi) =~= Set::<u32>::empty());
    } else {
        let below = (hi - 1) as u32;
        lemma_address_range_len(lo, below);
        assert(address_range(lo, hi) =~= address_range(lo, below).insert(below));
    }
}

/// The pool of a block leaves out the network address, the broadcast address
/// and the gateway, and nothing else of the block.
pub proof fn lemma_pool_excludes_reserved(n: ConfiguredNetwork)
    requires
        n.wf(),
    ensures
        !n.pool().contains(n.spec_network()),
        !n.pool().contains(n.spec_broadcast()),
        n.spec_gateway() matches Some(g) ==> !n.pool().contains(g),
        forall|a: u32|
            n.spec_contains(a) && a != n.spec_network() && a != n.spec_broadcast()
                && n.spec_gateway() != Some(a) ==> n.pool().contains(a),
        forall|a: u32| n.pool().contains(a) ==> n.spec_contains(a),
{
}

/// The pool is the run of addresses between the gateway and the broadcast
/// address. In a block of four or more addresses it holds one address fewer
/// than the block has usable hosts; a smaller block has an empty pool.
pub proof fn lemma_pool_size(n: ConfiguredNetwork)
    requires
        n.wf(),
    ensures
        n.pool().finite(),
        n.spec_prefix() <= 30 ==> n.pool().len() == n.usable_hosts() - 1,
        n.spec_prefix() <= 30 ==> n.pool() == address_range(
            (n.spec_network() + 2) as u32,
            n.spec_broadcast(),
        ),
        n.spec_prefix() > 30 ==> n.pool().len() == 0,
{
    lemma_block_bounds(n.spec_ip(), n.spec_prefix());
    let net = n.spec_network();
    let top = n.spec_broadcast();
    if n.spec_prefix() <= 30 {
        let first = (net + 2) as u32;
        assert(n.pool() =~= address_range(first, top));
        lemma_address_range_len(first, top);
    } else {
        assert(n.pool() =~= Set::<u32>::empty());
    }
}

/// Number of addresses in a block of the given prefix length.
pub open spec fn block_size_of(prefix: u8) -> int {
    host_mask(prefix) + 1
}

/// A block of prefix length `p` holds two to the power `32 - p` addresses.
pub proof fn lemma_block_size_is_power_of_two(prefix: u8)
    requires
        prefix <= 32,
    ensures
        block_size_of(prefix) == pow2((32 - prefix) as nat),
    decreases 32 - prefix,
{
    if prefix == 32 {
        lemma2_to64();
    } else {
        let longer = (prefix + 1) as u8;
        lemma_block_size_is_power_of_two(longer);
        lemma_pow2_unfold((32 - prefix) as nat);
        if prefix == 31 {
            assert(0xffff_ffffu32 >> 31u8 == 1u32) by (bit_vector);
        } else {
            assert((0xffff_ffffu32 >> prefix) == 2 * (0xffff_ffffu32 >> longer) + 1) by (bit_vector)
                requires
                    prefix < 31,
                    longer == prefix + 1,
            ;
        }
    }
}

} // verus!
