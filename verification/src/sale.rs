//! Offers to sell NFTs, by the NFT they sell.
use vstd::prelude::*;
use std::collections::BTreeMap;
use crate::entity::EntityID;
use crate::nfts::NftPtr;
use crate::tokens::TokenPointer;
use vstd::std_specs::iter::IteratorSpec;

verus! {

/// An offer to sell an NFT: its price in a currency, the seller, and the
/// NFT's transfer count when it was listed (the offer lapses once the NFT
/// changes hands).
#[derive(Clone, Copy, Debug, PartialEq, Eq, Structural)]
pub struct NFTSale {
    pub price: u128,
    pub currency: TokenPointer,
    pub seller: EntityID,
    pub transfer_count: u128,
}

/// The standing offers, keyed by the identifier of the NFT offered.
pub struct NFTSaleRegistry {
    pub nfts: BTreeMap<u64, NFTSale>,
}

impl NFTSaleRegistry {
    /// No offers.
    pub fn new() -> (r: Self)
        ensures
            r.nfts@ == Map::<u64, NFTSale>::empty(),
    {
        NFTSaleRegistry { nfts: BTreeMap::new() }
    }

    /// The identifiers of the NFTs on offer (each once).
    pub fn offered_ids(&self) -> (r: Vec<u64>)
        ensures
            r@.to_set() == self.nfts@.dom(),
            r@.no_duplicates(),
    {
        broadcast use vstd::std_specs::btree::axiom_spec_keys_iter;
        let mut out: Vec<u64> = Vec::new();
        let ghost all = vstd::std_specs::btree::spec_keys_iter(&self.nfts).remaining().unref();
        for k in it: self.nfts.keys()
            invariant
                all == it.seq().unref(),
                out@ == it.seq().unref().take(it.index()),
                it.seq().unref().to_set() == self.nfts@.dom(),
                it.seq().unref().no_duplicates(),
        {
            proof {
                let s = it.seq().unref();
                assert(s[it.index()] == *k);
            }
            out.push(*k);
            proof {
                let s = it.seq().unref();
                assert(out@ =~= s.take(it.index() + 1));
            }
        }
        assert(out@ =~= all);
        out
    }
}

/// An offer as the interface shows it.
#[derive(Clone, Copy, Debug)]
pub struct UXNFTSale {
    pub nft_id: NftPtr,
    pub price: u128,
    pub currency: TokenPointer,
    pub seller: EntityID,
    pub transfer_count: u128,
}

/// The standing offers as the interface shows them.
#[derive(Clone, Debug)]
pub struct UXForSaleList {
    pub listings: Vec<UXNFTSale>,
}

} // verus!
