//! Plain data types shared by the sync components: identifiers, capability
//! masks, chain tips and the status values reported upward.

use vstd::prelude::*;

verus! {

/// The text of a hash: its sixty-four hexadecimal digits.
pub open spec fn spec_hash_text(h: Hash) -> Seq<char> {
    crate::text::hex_fixed_digits(h.w0 as int, 16) + crate::text::hex_fixed_digits(
        h.w1 as int,
        16,
    ) + crate::text::hex_fixed_digits(h.w2 as int, 16) + crate::text::hex_fixed_digits(
        h.w3 as int,
        16,
    )
}

/// The text of a peer address: its model fields, dotted and followed by
/// the port.
pub open spec fn spec_peer_addr_text(p: PeerAddr) -> Seq<char> {
    crate::text::dec_digits(p.ip_hi as int) + "."@ + crate::text::dec_digits(p.ip_lo as int)
        + ":"@ + crate::text::dec_digits(p.port as int)
}

/// A 32-byte identifier of a block or of a segment root, held as four
/// 64-bit words in big-endian word order. Two hashes are equal exactly when
/// all four words are equal; the byte value also gives the total order used
/// for tie-breaks.
#[derive(Clone, Copy, PartialEq, Eq, Structural, Debug)]
pub struct Hash {
    pub w0: u64,
    pub w1: u64,
    pub w2: u64,
    pub w3: u64,
}

impl Hash {
    /// The hexadecimal text of this hash, exactly [`spec_hash_text`].
    pub fn text(&self) -> (r: String)
        ensures
            r@ == spec_hash_text(*self),
    {
        let mut r = crate::text::u64_to_hex16(self.w0);
        let b = crate::text::u64_to_hex16(self.w1);
        let c = crate::text::u64_to_hex16(self.w2);
        let d = crate::text::u64_to_hex16(self.w3);
        r.append(b.as_str());
        r.append(c.as_str());
        r.append(d.as_str());
        r
    }

    /// A hash from a single word, for keys derived from small values.
    pub fn from_u64(n: u64) -> (r: Hash)
        ensures
            r == (Hash { w0: 0, w1: 0, w2: 0, w3: n }),
    {
        Hash { w0: 0, w1: 0, w2: 0, w3: n }
    }
}

/// A transport endpoint of a peer, reduced to the values the sync logic
/// reads: the IP address as two 64-bit halves (IPv4 addresses use the low
/// half) and the port. Only equality matters to the core.
#[derive(Clone, Copy, PartialEq, Eq, Structural, Debug)]
pub struct PeerAddr {
    pub ip_hi: u64,
    pub ip_lo: u64,
    pub port: u16,
}

impl PeerAddr {
    /// The text of this address, exactly [`spec_peer_addr_text`].
    pub fn text(&self) -> (r: String)
        ensures
            r@ == spec_peer_addr_text(*self),
    {
        let mut r = crate::text::u64_to_string(self.ip_hi);
        let lo = crate::text::u64_to_string(self.ip_lo);
        let port = crate::text::u64_to_string(self.port as u64);
        r.append(".");
        r.append(lo.as_str());
        r.append(":");
        r.append(port.as_str());
        r
    }

    /// An address from a single word, convenient for tests and simulations.
    pub fn from_u64(n: u64) -> (r: PeerAddr)
        ensures
            r == (PeerAddr { ip_hi: 0, ip_lo: n, port: 0 }),
    {
        PeerAddr { ip_hi: 0, ip_lo: n, port: 0 }
    }
}

/// Capability bits advertised by a peer. A peer qualifies for a stage
/// exactly when its mask contains every bit the stage requires.
#[derive(Clone, Copy, PartialEq, Eq, Structural, Debug)]
pub struct Capabilities {
    pub bits: u32,
}

/// No capability bits: every peer qualifies.
pub const CAPS_UNKNOWN: u32 = 0;

/// The peer keeps the full header history.
pub const CAPS_HEADER_HIST: u32 = 1;

/// The peer keeps the full block history.
pub const CAPS_BLOCK_HIST: u32 = 2;

/// The peer serves PIBD segments of the txhashset.
pub const CAPS_PIBD_HIST: u32 = 4;

impl Capabilities {
    /// A mask from raw bits.
    pub fn from_bits(bits: u32) -> (r: Capabilities)
        ensures
            r.bits == bits,
    {
        Capabilities { bits }
    }

    /// Whether this mask is a superset of `required`.
    pub fn contains(&self, required: Capabilities) -> (r: bool)
        ensures
            r == (self.bits & required.bits == required.bits),
    {
        self.bits & required.bits == required.bits
    }
}

/// A chain tip: the height and hash of the last block or header on the
/// tracked branch.
#[derive(Clone, Copy, PartialEq, Eq, Structural, Debug)]
pub struct Tip {
    pub height: u64,
    pub last_block_h: Hash,
}

/// The stage and progress of the sync pipeline, reported upward for the
/// UI and the status endpoint.
#[derive(Clone, Copy, PartialEq, Eq, Structural, Debug)]
pub enum SyncStatus {
    /// Initial State (we do not yet know if we are or not syncing).
    Initial,
    /// Not syncing.
    NoSync,
    /// Not enough peers to do anything yet.
    AwaitingPeers,
    /// Downloading the hashes of the header MMR.
    HeaderHashSync { completed_blocks: u64, total_blocks: u64 },
    /// Downloading block headers.
    HeaderSync { current_height: u64, archive_height: u64 },
    /// Downloading the txhashset state segments.
    TxHashsetPibd { received_segments: u64, total_segments: u64 },
    /// Validating the full kernel history.
    ValidatingKernelsHistory,
    /// Validating the downloaded header chain.
    TxHashsetHeadersValidation { headers: u64, headers_total: u64 },
    /// Validating the kernel positions.
    TxHashsetKernelsPosValidation { kernel_pos: u64, kernel_pos_total: u64 },
    /// Validating the range proofs.
    TxHashsetRangeProofsValidation { rproofs: u64, rproofs_total: u64 },
    /// Validating the kernel signatures.
    TxHashsetKernelsValidation { kernels: u64, kernels_total: u64 },
    /// Downloading the blocks of the chain.
    BodySync { archive_height: u64, current_height: u64, highest_height: u64 },
    /// Shutdown in progress.
    Shutdown,
}

/// What a connected peer currently advertises: its address, capability
/// mask, reported chain height and reported total difficulty.
#[derive(Clone, Copy, PartialEq, Eq, Structural, Debug)]
pub struct SyncPeerInfo {
    pub addr: PeerAddr,
    pub capabilities: Capabilities,
    pub height: u64,
    pub total_difficulty: u64,
    pub outbound: bool,
}

} // verus!
