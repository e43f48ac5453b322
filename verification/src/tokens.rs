//! Token ledgers and the registry that holds them.
use vstd::prelude::*;
use std::collections::BTreeMap;
use crate::entity::{EntityID, EntityIDAllocator};
use vstd::std_specs::iter::IteratorSpec;
use crate::map_sum::{map_sum, value_or_zero, lemma_map_sum_bounds_value, lemma_map_sum_insert, lemma_map_sum_bounds_pair};

verus! {

broadcast use vstd::std_specs::btree::group_btree_axioms;

/// A basic token ledger: a balance per entity and the cached total supply.
pub struct TokenBase {
    /// Balance of each entity, keyed by the entity's identifier.
    pub balances: BTreeMap<u64, u128>,
    /// Cached `sum(balances.values())`.
    pub total: u128,
    /// This contract's identifier.
    pub this: EntityID,
    /// A nickname, not guaranteed to be unique.
    pub nickname: Option<String>,
}

/// Balance of `who` in a ledger whose balances are `m` (absent means zero).
pub open spec fn balance_of(m: Map<u64, u128>, who: u64) -> int {
    value_or_zero(m, who)
}

/// The balances after a successful transfer of `amount` from `s` to `r`.
pub open spec fn transferred(m: Map<u64, u128>, s: u64, r: u64, amount: u128) -> Map<u64, u128> {
    let burnt = m.insert(s, (balance_of(m, s) - amount) as u128);
    burnt.insert(r, (balance_of(burnt, r) + amount) as u128)
}

impl TokenBase {
    /// The cached total is the sum of all balances.
    pub open spec fn wf(&self) -> bool {
        &&& self.balances@.dom().finite()
        &&& self.total == map_sum(self.balances@)
    }

    /// Balance of `who` as a mathematical integer.
    pub open spec fn balance(&self, who: u64) -> int {
        balance_of(self.balances@, who)
    }

    /// A fresh, empty ledger whose identifier comes from `allocator`.
    pub fn new_from_alloc(allocator: &mut EntityIDAllocator, nickname: String) -> (t: Self)
        requires
            old(allocator).0 < u64::MAX,
        ensures
            t.wf(),
            t.balances@ == Map::<u64, u128>::empty(),
            t.total == 0,
            final(allocator).0 == old(allocator).0 + 1,
            t.this.0 == final(allocator).0,
            t.nickname == Some(nickname),
    {
        let this = allocator.make();
        TokenBase { balances: BTreeMap::new(), total: 0, this, nickname: Some(nickname) }
    }

    /// A fresh, empty ledger with a given identifier.
    pub fn with_id(this: EntityID, nickname: Option<String>) -> (t: Self)
        ensures
            t.wf(),
            t.balances@ == Map::<u64, u128>::empty(),
            t.total == 0,
            t.this == this,
            t.nickname == nickname,
    {
        TokenBase { balances: BTreeMap::new(), total: 0, this, nickname }
    }

    /// How much `to` holds.
    pub fn balance_check(&self, to: &EntityID) -> (r: u128)
        requires
            self.wf(),
        ensures
            r == self.balance(to.0),
    {
        match self.balances.get(&to.0) {
            Some(v) => *v,
            None => 0,
        }
    }

    /// The total amount of coins.
    pub fn total_coins(&self) -> (r: u128)
        ensures
            r == self.total,
    {
        self.total
    }

    /// Creates `amount` new coins and gives them to `to`.
    pub fn mint(&mut self, to: &EntityID, amount: u128)
        requires
            old(self).wf(),
            old(self).total + amount <= u128::MAX,
        ensures
            final(self).wf(),
            final(self).balances@ == old(self).balances@.insert(
                to.0,
                (old(self).balance(to.0) + amount) as u128,
            ),
            final(self).total == old(self).total + amount,
            final(self).this == old(self).this,
            final(self).nickname == old(self).nickname,
    {
        proof {
            lemma_map_sum_bounds_value(self.balances@, to.0);
        }
        let cur = self.balance_check(to);
        proof {
            lemma_map_sum_insert(self.balances@, to.0, (cur + amount) as u128);
        }
        self.balances.insert(to.0, cur + amount);
        self.total = self.total + amount;
    }

    /// Destroys `amount` coins held by `to`.
    pub fn burn(&mut self, to: &EntityID, amount: u128)
        requires
            old(self).wf(),
            old(self).balance(to.0) >= amount,
        ensures
            final(self).wf(),
            final(self).balances@ == old(self).balances@.insert(
                to.0,
                (old(self).balance(to.0) - amount) as u128,
            ),
            final(self).total == old(self).total - amount,
            final(self).this == old(self).this,
            final(self).nickname == old(self).nickname,
    {
        proof {
            lemma_map_sum_bounds_value(self.balances@, to.0);
        }
        let cur = self.balance_check(to);
        proof {
            lemma_map_sum_insert(self.balances@, to.0, (cur - amount) as u128);
        }
        self.balances.insert(to.0, cur - amount);
        self.total = self.total - amount;
    }

    /// Moves `amount` coins from `sender` to `receiver`. Returns false, with
    /// no effect, when the sender holds less than `amount`.
    pub fn transfer(&mut self, sender: &EntityID, receiver: &EntityID, amount: u128) -> (ok: bool)
        requires
            old(self).wf(),
        ensures
            final(self).wf(),
            ok == (old(self).balance(sender.0) >= amount),
            ok ==> final(self).balances@ == transferred(
                old(self).balances@,
                sender.0,
                receiver.0,
                amount,
            ),
            !ok ==> final(self).balances@ == old(self).balances@,
            final(self).total == old(self).total,
            final(self).this == old(self).this,
            final(self).nickname == old(self).nickname,
    {
        if self.balance_check(sender) < amount {
            return false;
        }
        self.burn(sender, amount);
        self.mint(receiver, amount);
        true
    }

    /// The identifier of the token contract itself.
    pub fn id(&self) -> (r: EntityID)
        ensures
            r == self.this,
    {
        self.this
    }

    /// The nickname of this token.
    pub fn nickname(&self) -> (r: Option<String>)
        ensures
            r == self.nickname,
    {
        match &self.nickname {
            Some(s) => Some(s.clone()),
            None => None,
        }
    }
}

/// A pointer to a token contract of a `TokenRegistry`.
#[derive(Clone, Copy, Debug, PartialEq, Eq, Structural, Hash)]
pub struct TokenPointer(pub EntityID);

impl TokenPointer {
    /// The raw identifier of the token contract.
    pub fn inner(&self) -> (r: u64)
        ensures
            r == self.0.0,
    {
        self.0.0
    }
}

/// Parameters of a hash-board (ASIC) token.
#[derive(Clone, Copy, Debug, PartialEq, Eq, Structural)]
pub struct HashBoardData {
    /// Hashes per watt delivered by one unit.
    pub hash_per_watt: u128,
    /// Out of 100, currently unused.
    pub reliability: u8,
}

/// Kinds of steel.
#[derive(Clone, Copy, Debug, PartialEq, Eq, Structural)]
pub enum SteelVariety {
    StructuralGrade,
}

/// Properties of a steel token.
#[derive(Clone, Copy, Debug, PartialEq, Eq, Structural)]
pub struct Steel {
    pub variety: SteelVariety,
    /// Weight in kg of one unit.
    pub weight_in_kg: u16,
}

/// Properties of a silicon token.
#[derive(Clone, Copy, Debug, PartialEq, Eq, Structural)]
pub struct Silicon {
    /// Weight in kg of one unit.
    pub weight_in_kg: u16,
}

/// Holds the token ledgers and the metadata of the special token kinds.
pub struct TokenRegistry {
    /// Ledgers, keyed by the identifier of the token contract.
    pub tokens: BTreeMap<u64, TokenBase>,
    /// Hash-board kinds with their data, in increasing order of token
    /// identifier.
    pub hashboards: Vec<(TokenPointer, HashBoardData)>,
    pub steel: BTreeMap<u64, Steel>,
    pub silicon: BTreeMap<u64, Silicon>,
}

impl TokenRegistry {
    /// Every ledger is well formed, is stored under its own identifier and
    /// has a nickname.
    pub open spec fn wf(&self) -> bool {
        forall|k: u64|
            #[trigger] self.tokens@.contains_key(k) ==> {
                &&& self.tokens@[k].wf()
                &&& self.tokens@[k].this.0 == k
                &&& self.tokens@[k].nickname is Some
            }
    }

    /// The hash-board kinds are listed once each, in increasing order, and
    /// each is a token of the registry.
    pub open spec fn boards_ok(&self) -> bool {
        &&& forall|i: int, j: int| 0 <= i < j < self.hashboards@.len() ==>
            (#[trigger] self.hashboards@[i]).0.0.0 < (#[trigger] self.hashboards@[j]).0.0.0
        &&& forall|i: int| 0 <= i < self.hashboards@.len() ==> self.tokens@.contains_key(#[trigger] self.hashboards@[i].0.0.0)
    }

    /// The registry holds the token `p` points to.
    pub open spec fn has(&self, p: TokenPointer) -> bool {
        self.tokens@.contains_key(p.0.0)
    }

    /// Balance of `who` in token `tok`.
    pub open spec fn bal(&self, tok: u64, who: u64) -> int {
        self.tokens@[tok].balance(who)
    }

    /// The nickname of token `tok`.
    pub open spec fn nick(&self, tok: u64) -> Seq<char> {
        self.tokens@[tok].nickname.unwrap()@
    }

    /// Only the ledger of `tok` differs between `self` and `other`, and its
    /// identity (identifier, nickname) is kept.
    pub open spec fn only_changed(&self, other: &Self, tok: u64) -> bool {
        &&& self.tokens@.contains_key(tok)
        &&& self.tokens@ == other.tokens@.insert(tok, self.tokens@[tok])
        &&& self.tokens@[tok].this == other.tokens@[tok].this
        &&& self.tokens@[tok].nickname == other.tokens@[tok].nickname
        &&& self.tokens@[tok].total == other.tokens@[tok].total
        &&& self.hashboards@ == other.hashboards@
        &&& self.steel@ == other.steel@
        &&& self.silicon@ == other.silicon@
    }

    /// The identifiers of the registry's tokens (each once).
    pub fn token_ids(&self) -> (r: Vec<u64>)
        ensures
            r@.to_set() == self.tokens@.dom(),
            r@.no_duplicates(),
    {
        broadcast use vstd::std_specs::btree::axiom_spec_keys_iter;
        let mut out: Vec<u64> = Vec::new();
        let ghost all = vstd::std_specs::btree::spec_keys_iter(&self.tokens).remaining().unref();
        for k in it: self.tokens.keys()
            invariant
                all == it.seq().unref(),
                out@ == it.seq().unref().take(it.index()),
                it.seq().unref().to_set() == self.tokens@.dom(),
                it.seq().unref().no_duplicates(),
                forall|i: int| 0 <= i < out@.len() ==> self.tokens@.contains_key(#[trigger] out@[i]),
        {
            proof {
                let s = it.seq().unref();
                assert(s[it.index()] == *k);
                assert(s.to_set().contains(*k));
            }
            out.push(*k);
            proof {
                let s = it.seq().unref();
                assert(out@ =~= s.take(it.index() + 1));
            }
        }
        assert(out@ =~= all);
        out
    }

    /// An empty registry.
    pub fn new() -> (r: Self)
        ensures
            r.wf(),
            r.tokens@ == Map::<u64, TokenBase>::empty(),
            r.hashboards@ == Seq::<(TokenPointer, HashBoardData)>::empty(),
            r.steel@ == Map::<u64, Steel>::empty(),
            r.silicon@ == Map::<u64, Silicon>::empty(),
    {
        TokenRegistry {
            tokens: BTreeMap::new(),
            hashboards: Vec::new(),
            steel: BTreeMap::new(),
            silicon: BTreeMap::new(),
        }
    }

    /// Adds a ledger under its own identifier and returns a pointer to it.
    pub fn new_token(&mut self, new: TokenBase) -> (p: TokenPointer)
        requires
            old(self).wf(),
            new.wf(),
            new.nickname is Some,
        ensures
            final(self).wf(),
            p.0 == new.this,
            final(self).tokens@ == old(self).tokens@.insert(new.this.0, new),
            final(self).hashboards@ == old(self).hashboards@,
            final(self).steel@ == old(self).steel@,
            final(self).silicon@ == old(self).silicon@,
    {
        let p = TokenPointer(new.this);
        self.tokens.insert(new.this.0, new);
        p
    }

    /// How much `who` holds of token `p`.
    pub fn balance_check(&self, p: TokenPointer, who: &EntityID) -> (r: u128)
        requires
            self.wf(),
            self.has(p),
        ensures
            r == self.bal(p.0.0, who.0),
    {
        let t = self.tokens.get(&p.0.0).unwrap();
        t.balance_check(who)
    }

    /// The supply of token `p`.
    pub fn total_coins(&self, p: TokenPointer) -> (r: u128)
        requires
            self.wf(),
            self.has(p),
        ensures
            r == self.tokens@[p.0.0].total,
    {
        self.tokens.get(&p.0.0).unwrap().total_coins()
    }

    /// The nickname of token `p`.
    pub fn nickname(&self, p: TokenPointer) -> (r: String)
        requires
            self.wf(),
            self.has(p),
        ensures
            r@ == self.nick(p.0.0),
    {
        match self.tokens.get(&p.0.0).unwrap().nickname() {
            Some(n) => n,
            None => String::new(),
        }
    }

    /// Transfers `amount` of token `p` from `sender` to `receiver`; false,
    /// with no effect, when the sender holds too little.
    pub fn transfer(&mut self, p: TokenPointer, sender: &EntityID, receiver: &EntityID, amount: u128) -> (ok: bool)
        requires
            old(self).wf(),
            old(self).has(p),
        ensures
            final(self).wf(),
            final(self).only_changed(old(self), p.0.0),
            ok == (old(self).bal(p.0.0, sender.0) >= amount),
            ok ==> final(self).tokens@[p.0.0].balances@ == transferred(
                old(self).tokens@[p.0.0].balances@,
                sender.0,
                receiver.0,
                amount,
            ),
            !ok ==> final(self).tokens@[p.0.0].balances@ == old(self).tokens@[p.0.0].balances@,
    {
        let k = p.0.0;
        let mut t = self.tokens.remove(&k).unwrap();
        let ok = t.transfer(sender, receiver, amount);
        self.tokens.insert(k, t);
        assert(self.tokens@ =~= old(self).tokens@.insert(k, self.tokens@[k]));
        ok
    }

    /// Mints `amount` of token `p` to `to`.
    pub fn mint(&mut self, p: TokenPointer, to: &EntityID, amount: u128)
        requires
            old(self).wf(),
            old(self).has(p),
            old(self).tokens@[p.0.0].total + amount <= u128::MAX,
        ensures
            final(self).wf(),
            final(self).tokens@.contains_key(p.0.0),
            final(self).tokens@ == old(self).tokens@.insert(p.0.0, final(self).tokens@[p.0.0]),
            final(self).tokens@[p.0.0].this == old(self).tokens@[p.0.0].this,
            final(self).tokens@[p.0.0].nickname == old(self).tokens@[p.0.0].nickname,
            final(self).tokens@[p.0.0].balances@ == old(self).tokens@[p.0.0].balances@.insert(
                to.0,
                (old(self).bal(p.0.0, to.0) + amount) as u128,
            ),
            final(self).tokens@[p.0.0].total == old(self).tokens@[p.0.0].total + amount,
            final(self).hashboards@ == old(self).hashboards@,
            final(self).steel@ == old(self).steel@,
            final(self).silicon@ == old(self).silicon@,
    {
        let k = p.0.0;
        let mut t = self.tokens.remove(&k).unwrap();
        t.mint(to, amount);
        self.tokens.insert(k, t);
        assert(self.tokens@ =~= old(self).tokens@.insert(k, self.tokens@[k]));
    }
}

/// A successful transfer moves exactly `amount` from the sender to the
/// receiver and leaves every other balance and the total untouched.
pub proof fn law_transfer_moves_amount(m: Map<u64, u128>, s: u64, r: u64, amount: u128, who: u64)
    requires
        m.dom().finite(),
        map_sum(m) <= u128::MAX,
        balance_of(m, s) >= amount,
        s != r,
    ensures
        balance_of(transferred(m, s, r, amount), s) == balance_of(m, s) - amount,
        balance_of(transferred(m, s, r, amount), r) == balance_of(m, r) + amount,
        who != s && who != r ==> balance_of(transferred(m, s, r, amount), who) == balance_of(m, who),
        map_sum(transferred(m, s, r, amount)) == map_sum(m),
{
    lemma_map_sum_bounds_pair(m, s, r);
    let burnt = m.insert(s, (balance_of(m, s) - amount) as u128);
    lemma_map_sum_insert(m, s, (balance_of(m, s) - amount) as u128);
    lemma_map_sum_insert(burnt, r, (balance_of(burnt, r) + amount) as u128);
}

/// A transfer to oneself leaves every balance as it was.
pub proof fn law_self_transfer_is_noop(m: Map<u64, u128>, s: u64, amount: u128, who: u64)
    requires
        m.dom().finite(),
        balance_of(m, s) >= amount,
    ensures
        balance_of(transferred(m, s, s, amount), who) == balance_of(m, who),
{
}

/// Transferring an amount and then transferring it back restores every
/// balance.
pub proof fn law_transfer_back_restores(m: Map<u64, u128>, s: u64, r: u64, amount: u128, who: u64)
    requires
        m.dom().finite(),
        map_sum(m) <= u128::MAX,
        balance_of(m, s) >= amount,
        s != r,
    ensures
        balance_of(transferred(m, s, r, amount), r) >= amount,
        balance_of(transferred(transferred(m, s, r, amount), r, s, amount), who) == balance_of(
            m,
            who,
        ),
{
    law_transfer_moves_amount(m, s, r, amount, who);
    let m1 = transferred(m, s, r, amount);
    law_transfer_moves_amount(m, s, r, amount, r);
    law_transfer_moves_amount(m, s, r, amount, s);
    law_transfer_moves_amount(m1, r, s, amount, who);
}

} // verus!
