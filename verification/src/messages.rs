//! The kinds of message a query listens to once the handshake is done.

use vstd::prelude::*;

verus! {

/// A kind of message of the peer-to-peer protocol.
#[derive(Clone, Copy, Debug, PartialEq, Eq, Structural)]
pub enum MessageKind {
    Addresses,
    Block,
    Transaction,
    BlockLocator,
    RequestAddresses,
    RequestRelayBlocks,
    RequestTransactions,
    IbdBlock,
    InvRelayBlock,
    InvTransactions,
    Ping,
    Pong,
    TransactionNotFound,
    Reject,
    PruningPointUtxoSetChunk,
    RequestIbdBlocks,
    UnexpectedPruningPoint,
    IbdBlockLocator,
    IbdBlockLocatorHighestHash,
    RequestNextPruningPointUtxoSetChunk,
    DonePruningPointUtxoSetChunks,
    IbdBlockLocatorHighestHashNotFound,
    BlockWithTrustedData,
    DoneBlocksWithTrustedData,
    RequestPruningPointAndItsAnticone,
    BlockHeaders,
    RequestNextHeaders,
    DoneHeaders,
    RequestPruningPointUtxoSet,
    RequestHeaders,
    RequestBlockLocator,
    PruningPoints,
    RequestPruningPointProof,
    PruningPointProof,
    BlockWithTrustedDataV4,
    TrustedData,
    RequestIbdChainBlockLocator,
    IbdChainBlockLocator,
    RequestAntipast,
    RequestNextPruningPointAndItsAnticoneBlocks,
    Verack,
    Version,
    Ready,
}

/// The kinds a query subscribes to, in order: every kind named here but the
/// handshake's own (`Verack`, `Version` and `Ready`).
pub open spec fn subscribed() -> Seq<MessageKind> {
    seq![
        MessageKind::Addresses,
        MessageKind::Block,
        MessageKind::Transaction,
        MessageKind::BlockLocator,
        MessageKind::RequestAddresses,
        MessageKind::RequestRelayBlocks,
        MessageKind::RequestTransactions,
        MessageKind::IbdBlock,
        MessageKind::InvRelayBlock,
        MessageKind::InvTransactions,
        MessageKind::Ping,
        MessageKind::Pong,
        MessageKind::TransactionNotFound,
        MessageKind::Reject,
        MessageKind::PruningPointUtxoSetChunk,
        MessageKind::RequestIbdBlocks,
        MessageKind::UnexpectedPruningPoint,
        MessageKind::IbdBlockLocator,
        MessageKind::IbdBlockLocatorHighestHash,
        MessageKind::RequestNextPruningPointUtxoSetChunk,
        MessageKind::DonePruningPointUtxoSetChunks,
        MessageKind::IbdBlockLocatorHighestHashNotFound,
        MessageKind::BlockWithTrustedData,
        MessageKind::DoneBlocksWithTrustedData,
        MessageKind::RequestPruningPointAndItsAnticone,
        MessageKind::BlockHeaders,
        MessageKind::RequestNextHeaders,
        MessageKind::DoneHeaders,
        MessageKind::RequestPruningPointUtxoSet,
        MessageKind::RequestHeaders,
        MessageKind::RequestBlockLocator,
        MessageKind::PruningPoints,
        MessageKind::RequestPruningPointProof,
        MessageKind::PruningPointProof,
        MessageKind::BlockWithTrustedDataV4,
        MessageKind::TrustedData,
        MessageKind::RequestIbdChainBlockLocator,
        MessageKind::IbdChainBlockLocator,
        MessageKind::RequestAntipast,
        MessageKind::RequestNextPruningPointAndItsAnticoneBlocks,
    ]
}

/// The kinds of message a query subscribes to after the handshake.
pub fn subscribed_kinds() -> (r: Vec<MessageKind>)
    ensures
        r@ == subscribed(),
        r@.len() == 40,
        r@.no_duplicates(),
        !r@.contains(MessageKind::Verack),
        !r@.contains(MessageKind::Version),
        !r@.contains(MessageKind::Ready),
        forall|k: MessageKind|
            !(k is Verack || k is Version || k is Ready) ==> #[trigger] r@.contains(k),
{
    let mut r: Vec<MessageKind> = Vec::new();
    r.push(MessageKind::Addresses);
    r.push(MessageKind::Block);
    r.push(MessageKind::Transaction);
    r.push(MessageKind::BlockLocator);
    r.push(MessageKind::RequestAddresses);
    r.push(MessageKind::RequestRelayBlocks);
    r.push(MessageKind::RequestTransactions);
    r.push(MessageKind::IbdBlock);
    r.push(MessageKind::InvRelayBlock);
    r.push(MessageKind::InvTransactions);
    r.push(MessageKind::Ping);
    r.push(MessageKind::Pong);
    r.push(MessageKind::TransactionNotFound);
    r.push(MessageKind::Reject);
    r.push(MessageKind::PruningPointUtxoSetChunk);
    r.push(MessageKind::RequestIbdBlocks);
    r.push(MessageKind::UnexpectedPruningPoint);
    r.push(MessageKind::IbdBlockLocator);
    r.push(MessageKind::IbdBlockLocatorHighestHash);
    r.push(MessageKind::RequestNextPruningPointUtxoSetChunk);
    r.push(MessageKind::DonePruningPointUtxoSetChunks);
    r.push(MessageKind::IbdBlockLocatorHighestHashNotFound);
    r.push(MessageKind::BlockWithTrustedData);
    r.push(MessageKind::DoneBlocksWithTrustedData);
    r.push(MessageKind::RequestPruningPointAndItsAnticone);
    r.push(MessageKind::BlockHeaders);
    r.push(MessageKind::RequestNextHeaders);
    r.push(MessageKind::DoneHeaders);
    r.push(MessageKind::RequestPruningPointUtxoSet);
    r.push(MessageKind::RequestHeaders);
    r.push(MessageKind::RequestBlockLocator);
    r.push(MessageKind::PruningPoints);
    r.push(MessageKind::RequestPruningPointProof);
    r.push(MessageKind::PruningPointProof);
    r.push(MessageKind::BlockWithTrustedDataV4);
    r.push(MessageKind::TrustedData);
    r.push(MessageKind::RequestIbdChainBlockLocator);
    r.push(MessageKind::IbdChainBlockLocator);
    r.push(MessageKind::RequestAntipast);
    r.push(MessageKind::RequestNextPruningPointAndItsAnticoneBlocks);
    proof {
        assert(r@ =~= subscribed());
        assert forall|k: MessageKind|
            !(k is Verack || k is Version || k is Ready) implies #[trigger] r@.contains(k) by {
            let i: int = match k {
                MessageKind::Addresses => 0,
                MessageKind::Block => 1,
                MessageKind::Transaction => 2,
                MessageKind::BlockLocator => 3,
                MessageKind::RequestAddresses => 4,
                MessageKind::RequestRelayBlocks => 5,
                MessageKind::RequestTransactions => 6,
                MessageKind::IbdBlock => 7,
                MessageKind::InvRelayBlock => 8,
                MessageKind::InvTransactions => 9,
                MessageKind::Ping => 10,
                MessageKind::Pong => 11,
                MessageKind::TransactionNotFound => 12,
                MessageKind::Reject => 13,
                MessageKind::PruningPointUtxoSetChunk => 14,
                MessageKind::RequestIbdBlocks => 15,
                MessageKind::UnexpectedPruningPoint => 16,
                MessageKind::IbdBlockLocator => 17,
                MessageKind::IbdBlockLocatorHighestHash => 18,
                MessageKind::RequestNextPruningPointUtxoSetChunk => 19,
                MessageKind::DonePruningPointUtxoSetChunks => 20,
                MessageKind::IbdBlockLocatorHighestHashNotFound => 21,
                MessageKind::BlockWithTrustedData => 22,
                MessageKind::DoneBlocksWithTrustedData => 23,
                MessageKind::RequestPruningPointAndItsAnticone => 24,
                MessageKind::BlockHeaders => 25,
                MessageKind::RequestNextHeaders => 26,
                MessageKind::DoneHeaders => 27,
                MessageKind::RequestPruningPointUtxoSet => 28,
                MessageKind::RequestHeaders => 29,
                MessageKind::RequestBlockLocator => 30,
                MessageKind::PruningPoints => 31,
                MessageKind::RequestPruningPointProof => 32,
                MessageKind::PruningPointProof => 33,
                MessageKind::BlockWithTrustedDataV4 => 34,
                MessageKind::TrustedData => 35,
                MessageKind::RequestIbdChainBlockLocator => 36,
                MessageKind::IbdChainBlockLocator => 37,
                MessageKind::RequestAntipast => 38,
                MessageKind::RequestNextPruningPointAndItsAnticoneBlocks => 39,
                _ => 0,
            };
            assert(r@[i] == k);
        }
        assert forall|i: int, j: int| 0 <= i < r@.len() && 0 <= j < r@.len() && i != j implies r@[i]
            != r@[j] by {}
        assert forall|i: int| 0 <= i < r@.len() implies !(r@[i] is Verack || r@[i] is Version || r@[i] is Ready) by {}
    }
    r
}

} // verus!
