//! The proof-of-work ledger: transactions, blocks, and the chain.
//!
//! A [`Chain`] owns an append-only sequence of sealed [`Block`]s and a list
//! of pending [`Transaction`]s. Sealing a block snapshots the pending
//! transactions behind a reward transaction, aggregates them into a Merkle
//! root, links the block to its predecessor's digest, and brute-forces a
//! nonce until the header's digest satisfies the difficulty predicate.

use vstd::prelude::*;
use vstd::string::{StrSliceExecFns, StringExecFns};
use crate::amount::{Amount, MICROS_PER_UNIT};
use crate::digest::{
    dec_rep, hex_of, is_dec_digit, lemma_dec_val_zero, parse_dec, push_dec, push_hex_char,
    sha256_bytes, spec_hash, zero_sentinel, zeros,
};

verus! {

/// A value transfer between two named parties. Immutable once created.
#[derive(Clone, Debug)]
pub struct Transaction {
    pub sender: String,
    pub receiver: String,
    pub amount: Amount,
}

/// The sealed metadata of a block. Only the nonce changes once the search
/// begins; every other field is set before it and held constant.
#[derive(Debug)]
pub struct Blockheader {
    pub timestamp: u64,
    pub nonce: u32,
    pub pre_hash: String,
    pub merkle: String,
    pub difficulty: u32,
}

/// A sealed block: a header plus the ordered transactions it finalized.
#[derive(Debug)]
pub struct Block {
    pub header: Blockheader,
    pub count: u32,
    pub transactions: Vec<Transaction>,
}

/// The ledger: sealed blocks, pending transactions, and the reward policy.
pub struct Chain {
    pub chain: Vec<Block>,
    pub curr_transactions: Vec<Transaction>,
    pub difficulty: u32,
    pub miner_address: String,
    pub reward: Amount,
}

/// Canonical text of one field: its length in decimal, a colon, the field.
/// The length prefix keeps distinct field lists from sharing an encoding.
pub open spec fn field_text(s: Seq<char>) -> Seq<char> {
    dec_rep(s.len()) + seq![':'] + s
}

/// Canonical text of a transaction, the input to its digest.
pub open spec fn spec_transaction_text(t: Transaction) -> Seq<char> {
    field_text(t.sender@) + seq!['|'] + field_text(t.receiver@) + seq!['|']
        + dec_rep(t.amount.micros as nat)
}

/// Digest of a transaction's canonical text.
pub open spec fn spec_transaction_hash(t: Transaction) -> Seq<char> {
    spec_hash(spec_transaction_text(t))
}

/// Canonical text of a block header, the input to its digest.
pub open spec fn spec_header_text(h: Blockheader) -> Seq<char> {
    dec_rep(h.timestamp as nat) + seq!['|'] + dec_rep(h.nonce as nat) + seq!['|']
        + field_text(h.pre_hash@) + seq!['|'] + field_text(h.merkle@) + seq!['|']
        + dec_rep(h.difficulty as nat)
}

/// Digest of a block header's canonical text.
pub open spec fn spec_header_hash(h: Blockheader) -> Seq<char> {
    spec_hash(spec_header_text(h))
}

/// Merkle aggregation of a single-transaction list: the one leaf digest is
/// duplicated to even out the list, so the root is the digest of the
/// transaction's digest concatenated with itself.
pub proof fn lemma_merkle_single(t: Transaction)
    ensures
        spec_merkle(seq![t]) == spec_hash(
            spec_transaction_hash(t) + spec_transaction_hash(t),
        ),
{
    let leaves = leaf_hashes(seq![t]);
    assert(leaves.len() == 1);
    assert(leaves[0] == spec_transaction_hash(t));
    let padded = leaves.push(leaves.last());
    let combined = spec_hash(padded[0] + padded[1]);
    assert(padded.subrange(2, 2).push(combined) =~= seq![combined]);
    assert(merkle_rounds(padded) == merkle_rounds(seq![combined]));
    assert(merkle_rounds(seq![combined]) == combined);
}

/// `h` with its nonce replaced by `nonce`.
pub open spec fn spec_with_nonce(h: Blockheader, nonce: u32) -> Blockheader {
    Blockheader { nonce, ..h }
}

/// Digest of the most recently sealed block's header, or the all-zero
/// sentinel if no block has been sealed.
pub open spec fn spec_tip_hash(c: Chain) -> Seq<char> {
    if c.chain@.len() == 0 {
        zeros(64)
    } else {
        spec_header_hash(c.chain@.last().header)
    }
}

/// The difficulty acceptance predicate: the first `difficulty` characters of
/// the digest — or the whole digest, if it is shorter — must parse as the
/// decimal integer zero. An empty prefix (difficulty zero) is accepted
/// immediately.
pub open spec fn accepted(digest: Seq<char>, difficulty: nat) -> bool {
    let k = if difficulty <= digest.len() { difficulty as int } else { digest.len() as int };
    k == 0 || parse_dec(digest.subrange(0, k)) == Some(0nat)
}

/// The acceptance predicate holds exactly when every digest character the
/// difficulty reaches is the zero digit.
pub proof fn lemma_accepted_iff_zero_prefix(digest: Seq<char>, difficulty: nat)
    ensures
        accepted(digest, difficulty) <==> (forall|i: int|
            0 <= i < difficulty && i < digest.len() ==> #[trigger] digest[i] == '0'),
{
    let k = if difficulty <= digest.len() { difficulty as int } else { digest.len() as int };
    let prefix = digest.subrange(0, k);
    if k > 0 {
        assert(forall|i: int| 0 <= i < k ==> prefix[i] == #[trigger] digest[i]);
        if accepted(digest, difficulty) {
            lemma_dec_val_zero(prefix);
        } else {
            if forall|i: int| 0 <= i < difficulty && i < digest.len()
                ==> #[trigger] digest[i] == '0' {
                assert(forall|i: int| 0 <= i < k ==> is_dec_digit(#[trigger] prefix[i]));
                lemma_dec_val_zero(prefix);
                assert(parse_dec(prefix) == Some(0nat));
            }
        }
    }
}

/// The views of a sequence of strings.
pub open spec fn string_views(ss: Seq<String>) -> Seq<Seq<char>> {
    Seq::new(ss.len(), |i: int| ss[i]@)
}

/// One combining pass over the digest queue: while more than one digest
/// remains, the two front digests are removed, their concatenation is
/// hashed, and the combined digest is appended at the back.
pub open spec fn merkle_rounds(q: Seq<Seq<char>>) -> Seq<char>
    decreases q.len(),
{
    if q.len() == 0 {
        Seq::empty()
    } else if q.len() == 1 {
        q[0]
    } else {
        merkle_rounds(q.subrange(2, q.len() as int).push(spec_hash(q[0] + q[1])))
    }
}

/// The digests of each transaction in order, the leaves of the aggregation.
pub open spec fn leaf_hashes(txs: Seq<Transaction>) -> Seq<Seq<char>> {
    Seq::new(txs.len(), |i: int| spec_transaction_hash(txs[i]))
}

/// The Merkle root of an ordered, non-empty transaction list: the leaf
/// digests, padded by duplicating the last one if their number is odd, then
/// combined pairwise until a single digest remains. Deterministic and
/// order-sensitive.
pub open spec fn spec_merkle(txs: Seq<Transaction>) -> Seq<char> {
    let leaves = leaf_hashes(txs);
    let padded = if leaves.len() % 2 == 1 {
        leaves.push(leaves.last())
    } else {
        leaves
    };
    merkle_rounds(padded)
}

fn push_bar(s: &mut String)
    ensures
        final(s)@ == old(s)@ + seq!['|'],
{
    s.append("|");
    proof {
        reveal_strlit("|");
        assert(s@ =~= old(s)@ + seq!['|']);
    }
}

fn push_field(s: &mut String, f: &str)
    ensures
        final(s)@ == old(s)@ + field_text(f@),
{
    let n = f.unicode_len();
    push_dec(s, n as u64);
    s.append(":");
    s.append(f);
    proof {
        reveal_strlit(":");
        assert(s@ =~= old(s)@ + field_text(f@));
    }
}

/// Relies on std::time::SystemTime::now: the number of whole milliseconds
/// between the Unix epoch and the present moment, or zero if the clock reads
/// earlier than the epoch. Nothing is assumed of the value.
#[verifier::external_body]
fn now_millis() -> u64 {
    match std::time::SystemTime::now().duration_since(std::time::UNIX_EPOCH) {
        Ok(d) => d.as_millis() as u64,
        Err(_) => 0,
    }
}

impl Chain {
    /// The hash-linking invariant of the ledger. Every sealed block counts
    /// its own transactions, holds at least the reward transaction, carries
    /// the Merkle root of exactly its own transaction list, and satisfies
    /// the difficulty its header was sealed under; the first block's
    /// previous-digest is the all-zero sentinel, and every later block's
    /// previous-digest is the digest of the header immediately before it.
    pub open spec fn wf(self) -> bool {
        &&& (forall|i: int| #![auto] 0 <= i < self.chain@.len()
            ==> self.chain@[i].count == self.chain@[i].transactions@.len())
        &&& (forall|i: int| #![auto] 0 <= i < self.chain@.len()
            ==> self.chain@[i].transactions@.len() >= 1)
        &&& (forall|i: int| #![auto] 0 <= i < self.chain@.len()
            ==> self.chain@[i].header.merkle@ == spec_merkle(self.chain@[i].transactions@))
        &&& (self.chain@.len() > 0 ==> self.chain@[0].header.pre_hash@ == zeros(64))
        &&& (forall|i: int| #![auto] 1 <= i < self.chain@.len()
            ==> self.chain@[i].header.pre_hash@ == spec_header_hash(self.chain@[i - 1].header))
        &&& (forall|i: int| #![auto] 0 <= i < self.chain@.len() ==> accepted(
            spec_header_hash(self.chain@[i].header),
            self.chain@[i].header.difficulty as nat,
        ))
    }

    /// A fresh ledger rewarding `miner_address`, with an initial reward of
    /// fifty whole units. Creation immediately seals the genesis block: no
    /// prior transactions, one reward transaction to the recipient, and the
    /// all-zero sentinel as previous-digest.
    pub fn new(miner_address: String, difficulty: u32) -> (c: Chain)
        ensures
            c.wf(),
            c.difficulty == difficulty,
            c.miner_address@ == miner_address@,
            c.reward.micros == 50 * MICROS_PER_UNIT,
            c.curr_transactions@.len() == 0,
            c.chain@.len() <= 1,
            difficulty == 0 ==> c.chain@.len() == 1,
            c.chain@.len() == 1 ==> ({
                let b = c.chain@[0];
                &&& b.count == 1
                &&& b.transactions@.len() == 1
                &&& b.transactions@[0].sender@ == "Root"@
                &&& b.transactions@[0].receiver@ == miner_address@
                &&& b.transactions@[0].amount.micros == 50 * MICROS_PER_UNIT
                &&& b.header.pre_hash@ == zeros(64)
                &&& b.header.difficulty == difficulty
            }),
    {
        let mut chain = Chain {
            chain: Vec::new(),
            curr_transactions: Vec::new(),
            difficulty,
            miner_address,
            reward: Amount::from_units(50),
        };
        chain.generate_new_block();
        chain
    }

    /// Appends a transaction to the pending list. Always succeeds: no
    /// balance, signature or sign validation is performed.
    pub fn new_transaction(&mut self, sender: String, receiver: String, amount: Amount) -> (r:
        bool)
        ensures
            r,
            final(self).chain@ == old(self).chain@,
            final(self).difficulty == old(self).difficulty,
            final(self).miner_address@ == old(self).miner_address@,
            final(self).reward == old(self).reward,
            final(self).curr_transactions@ == old(self).curr_transactions@.push(
                (Transaction { sender, receiver, amount }),
            ),
            old(self).wf() ==> final(self).wf(),
    {
        self.curr_transactions.push(Transaction { sender, receiver, amount });
        true
    }

    /// Replaces the difficulty used by all future seals; sealed blocks are
    /// unaffected. Always succeeds, with no bound checking: a high value may
    /// make future seals fail for want of an acceptable nonce.
    pub fn update_difficulty(&mut self, difficulty: u32) -> (r: bool)
        ensures
            r,
            final(self).difficulty == difficulty,
            final(self).chain@ == old(self).chain@,
            final(self).curr_transactions@ == old(self).curr_transactions@,
            final(self).miner_address@ == old(self).miner_address@,
            final(self).reward == old(self).reward,
            old(self).wf() ==> final(self).wf(),
    {
        self.difficulty = difficulty;
        true
    }

    /// Halves the reward paid by all future seals, rounding down to a whole
    /// count of micro-units. Always succeeds; at zero the reward stays zero.
    pub fn update_reward(&mut self) -> (r: bool)
        ensures
            r,
            final(self).reward.micros == old(self).reward.micros / 2,
            final(self).chain@ == old(self).chain@,
            final(self).curr_transactions@ == old(self).curr_transactions@,
            final(self).difficulty == old(self).difficulty,
            final(self).miner_address@ == old(self).miner_address@,
            old(self).wf() ==> final(self).wf(),
    {
        self.reward = self.reward.halved();
        true
    }

    /// Seals a block: a reward transaction (from the fixed root identity to
    /// the reward recipient, of the current reward) is placed ahead of the
    /// pending transactions, a header is built linking to the current tip
    /// digest and carrying their Merkle root, and the proof-of-work search
    /// determines the final nonce. On success the block is appended and the
    /// pending list is left empty. If the search exhausts every nonce
    /// without an acceptable digest, the ledger is left as it was.
    pub fn generate_new_block(&mut self) -> (r: bool)
        requires
            old(self).wf(),
            old(self).curr_transactions@.len() + 1 <= u32::MAX,
        ensures
            final(self).wf(),
            final(self).difficulty == old(self).difficulty,
            final(self).miner_address@ == old(self).miner_address@,
            final(self).reward == old(self).reward,
            old(self).difficulty == 0 ==> r,
            !r ==> final(self).chain@ == old(self).chain@,
            !r ==> final(self).curr_transactions@ == old(self).curr_transactions@,
            r ==> final(self).curr_transactions@.len() == 0,
            r ==> final(self).chain@.len() == old(self).chain@.len() + 1,
            r ==> (forall|i: int| #![auto] 0 <= i < old(self).chain@.len()
                ==> final(self).chain@[i] == old(self).chain@[i]),
            r ==> ({
                let b = final(self).chain@.last();
                &&& b.count as nat == 1 + old(self).curr_transactions@.len()
                &&& b.transactions@.len() == 1 + old(self).curr_transactions@.len()
                &&& b.transactions@[0].sender@ == "Root"@
                &&& b.transactions@[0].receiver@ == old(self).miner_address@
                &&& b.transactions@[0].amount == old(self).reward
                &&& (forall|i: int| #![auto] 1 <= i < b.transactions@.len()
                    ==> b.transactions@[i] == old(self).curr_transactions@[i - 1])
                &&& b.header.pre_hash@ == spec_tip_hash(*old(self))
                &&& b.header.difficulty == old(self).difficulty
                &&& b.header.merkle@ == spec_merkle(b.transactions@)
                &&& accepted(spec_header_hash(b.header), old(self).difficulty as nat)
            }),
    {
        let pre_hash = self.last_hash();
        let header = Blockheader {
            timestamp: now_millis(),
            nonce: 0,
            pre_hash,
            merkle: String::new(),
            difficulty: self.difficulty,
        };
        let reward_transaction = Transaction {
            sender: String::from_str("Root"),
            receiver: self.miner_address.clone(),
            amount: self.reward,
        };
        let mut block = Block { header, count: 0, transactions: Vec::new() };
        block.transactions.push(reward_transaction);
        block.transactions.append(&mut self.curr_transactions);
        block.count = block.transactions.len() as u32;
        block.header.merkle = Self::get_merkle(&block.transactions);
        let found = Self::proof_of_work(&mut block.header);
        if !found {
            let mut txs = block.transactions;
            txs.remove(0);
            self.curr_transactions = txs;
            proof {
                assert(self.curr_transactions@ =~= old(self).curr_transactions@);
            }
            return false;
        }
        self.chain.push(block);
        proof {
            let n = old(self).chain@.len() as int;
            assert(forall|i: int| #![auto] 0 <= i < n
                ==> self.chain@[i] == old(self).chain@[i]);
            assert(self.chain@.last() == self.chain@[n]);
        }
        true
    }

    /// The canonical text that a transaction is hashed as.
    pub fn transaction_text(t: &Transaction) -> (s: String)
        ensures
            s@ == spec_transaction_text(*t),
    {
        let mut s = String::new();
        push_field(&mut s, t.sender.as_str());
        push_bar(&mut s);
        push_field(&mut s, t.receiver.as_str());
        push_bar(&mut s);
        push_dec(&mut s, t.amount.micros);
        proof {
            assert(s@ =~= spec_transaction_text(*t));
        }
        s
    }

    /// The canonical text that a block header is hashed as.
    pub fn header_text(h: &Blockheader) -> (s: String)
        ensures
            s@ == spec_header_text(*h),
    {
        let mut s = String::new();
        push_dec(&mut s, h.timestamp);
        push_bar(&mut s);
        push_dec(&mut s, h.nonce as u64);
        push_bar(&mut s);
        push_field(&mut s, h.pre_hash.as_str());
        push_bar(&mut s);
        push_field(&mut s, h.merkle.as_str());
        push_bar(&mut s);
        push_dec(&mut s, h.difficulty as u64);
        proof {
            assert(s@ =~= spec_header_text(*h));
        }
        s
    }

    /// Lowercase hexadecimal rendering of a byte string, two characters per
    /// byte in byte order.
    pub fn hex_to_string(vec_res: &[u8]) -> (s: String)
        ensures
            s@ == hex_of(vec_res@),
    {
        let mut s = String::new();
        let mut i: usize = 0;
        while i < vec_res.len()
            invariant
                i <= vec_res@.len(),
                s@ == hex_of(vec_res@.subrange(0, i as int)),
            decreases vec_res@.len() - i,
        {
            let b = vec_res[i];
            push_hex_char(&mut s, b / 16);
            push_hex_char(&mut s, b % 16);
            i = i + 1;
            proof {
                let prefix = vec_res@.subrange(0, i as int);
                assert(prefix.drop_last() =~= vec_res@.subrange(0, i - 1));
                assert(s@ =~= hex_of(prefix));
            }
        }
        proof {
            assert(vec_res@.subrange(0, vec_res@.len() as int) =~= vec_res@);
        }
        s
    }

    /// The ledger's digest function: SHA-256 of the input text, rendered as
    /// lowercase hexadecimal. Applied to structurally identical input it
    /// yields byte-for-byte identical output.
    pub fn hash(input: &str) -> (r: String)
        ensures
            r@ == spec_hash(input@),
            r@.len() == 64,
    {
        let bytes = sha256_bytes(input);
        let r = Self::hex_to_string(bytes.as_slice());
        proof {
            crate::digest::lemma_hex_of_len(bytes@);
        }
        r
    }

    /// The Merkle root of a non-empty transaction list.
    pub fn get_merkle(curr_transactions: &Vec<Transaction>) -> (root: String)
        requires
            curr_transactions@.len() >= 1,
        ensures
            root@ == spec_merkle(curr_transactions@),
    {
        let ghost txs = curr_transactions@;
        let mut merkle: Vec<String> = Vec::new();
        let mut i: usize = 0;
        while i < curr_transactions.len()
            invariant
                i <= txs.len(),
                curr_transactions@ == txs,
                merkle@.len() == i,
                forall|j: int| #![auto] 0 <= j < i
                    ==> merkle@[j]@ == spec_transaction_hash(txs[j]),
            decreases txs.len() - i,
        {
            let text = Self::transaction_text(&curr_transactions[i]);
            let h = Self::hash(text.as_str());
            merkle.push(h);
            i = i + 1;
        }
        if merkle.len() % 2 == 1 {
            let last = merkle[merkle.len() - 1].clone();
            merkle.push(last);
        }
        proof {
            let leaves = leaf_hashes(txs);
            let padded = if leaves.len() % 2 == 1 {
                leaves.push(leaves.last())
            } else {
                leaves
            };
            assert(string_views(merkle@) =~= padded);
        }
        while merkle.len() > 1
            invariant
                merkle@.len() >= 1,
                merkle_rounds(string_views(merkle@)) == spec_merkle(txs),
            decreases merkle@.len(),
        {
            let ghost before = string_views(merkle@);
            let h1 = merkle.remove(0);
            let h2 = merkle.remove(0);
            let combined = h1.concat(h2.as_str());
            let nh = Self::hash(combined.as_str());
            merkle.push(nh);
            proof {
                assert(string_views(merkle@) =~= before.subrange(2, before.len() as int)
                    .push(spec_hash(before[0] + before[1])));
            }
        }
        let ghost v = string_views(merkle@);
        let root = merkle.remove(0);
        proof {
            assert(merkle_rounds(v) == v[0]);
            assert(root@ == v[0]);
        }
        root
    }

    /// Whether a digest satisfies the difficulty's acceptance predicate.
    pub fn check_difficulty(digest: &str, difficulty: u32) -> (ok: bool)
        ensures
            ok == accepted(digest@, difficulty as nat),
    {
        let len = digest.unicode_len();
        let k = if (difficulty as usize) <= len {
            difficulty as usize
        } else {
            len
        };
        let mut all_zero = true;
        let mut i: usize = 0;
        while i < k
            invariant
                i <= k,
                k <= digest@.len(),
                k == if difficulty as nat <= digest@.len() {
                    difficulty as int
                } else {
                    digest@.len() as int
                },
                all_zero == (forall|j: int| 0 <= j < i ==> #[trigger] digest@[j] == '0'),
            decreases k - i,
        {
            if digest.get_char(i) != '0' {
                all_zero = false;
            }
            i = i + 1;
        }
        proof {
            lemma_accepted_iff_zero_prefix(digest@, difficulty as nat);
        }
        all_zero
    }

    /// The proof-of-work search: starting from the header's current nonce,
    /// increments the nonce until the header's digest satisfies the
    /// difficulty predicate. Every field but the nonce is held constant, so
    /// the digest changes solely through the nonce. The search is blocking
    /// and, for a high difficulty, may exhaust every remaining nonce without
    /// an acceptable digest; it then reports failure rather than retrying a
    /// nonce it has already rejected. A difficulty of zero is accepted
    /// immediately.
    pub fn proof_of_work(header: &mut Blockheader) -> (found: bool)
        ensures
            final(header).timestamp == old(header).timestamp,
            final(header).pre_hash@ == old(header).pre_hash@,
            final(header).merkle@ == old(header).merkle@,
            final(header).difficulty == old(header).difficulty,
            found ==> accepted(
                spec_header_hash(*final(header)),
                final(header).difficulty as nat,
            ),
            !found ==> forall|n: u32| old(header).nonce <= n ==> !accepted(
                spec_header_hash(spec_with_nonce(*old(header), n)),
                old(header).difficulty as nat,
            ),
            old(header).difficulty == 0 ==> found,
    {
        let ghost h0 = *header;
        let mut found = false;
        loop
            invariant_except_break
                !found,
            invariant
                header.timestamp == h0.timestamp,
                header.pre_hash@ == h0.pre_hash@,
                header.merkle@ == h0.merkle@,
                header.difficulty == h0.difficulty,
                h0.nonce <= header.nonce,
                forall|n: u32| h0.nonce <= n < header.nonce ==> !accepted(
                    spec_header_hash(spec_with_nonce(h0, n)),
                    h0.difficulty as nat,
                ),
            ensures
                header.timestamp == h0.timestamp,
                header.pre_hash@ == h0.pre_hash@,
                header.merkle@ == h0.merkle@,
                header.difficulty == h0.difficulty,
                found ==> accepted(spec_header_hash(*header), h0.difficulty as nat),
                !found ==> forall|n: u32| h0.nonce <= n ==> !accepted(
                    spec_header_hash(spec_with_nonce(h0, n)),
                    h0.difficulty as nat,
                ),
                h0.difficulty == 0 ==> found,
            decreases u32::MAX - header.nonce,
        {
            let text = Self::header_text(header);
            let hash = Self::hash(text.as_str());
            proof {
                assert(spec_header_text(*header) =~= spec_header_text(
                    spec_with_nonce(h0, header.nonce),
                ));
                if header.difficulty == 0 {
                    assert(accepted(hash@, 0));
                }
            }
            if Self::check_difficulty(hash.as_str(), header.difficulty) {
                found = true;
                break;
            }
            if header.nonce == u32::MAX {
                break;
            }
            header.nonce = header.nonce + 1;
        }
        found
    }

    /// Digest of the most recently sealed block's header, or the 64-character
    /// all-zero sentinel if no block has been sealed yet.
    pub fn last_hash(&self) -> (h: String)
        ensures
            h@ == spec_tip_hash(*self),
    {
        if self.chain.len() == 0 {
            zero_sentinel()
        } else {
            let b = &self.chain[self.chain.len() - 1];
            let text = Self::header_text(&b.header);
            Self::hash(text.as_str())
        }
    }
}

} // verus!
