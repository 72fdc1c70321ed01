//! Transactions and blocks, their byte encodings, and the block hash.

use vstd::prelude::*;

use crate::digest::{sha3_256, sha3_256_digest};

verus! {

/// The eight bytes of `x`, most significant first.
pub open spec fn be_u64(x: u64) -> Seq<u8> {
    seq![
        (x >> 56u64) as u8,
        (x >> 48u64) as u8,
        (x >> 40u64) as u8,
        (x >> 32u64) as u8,
        (x >> 24u64) as u8,
        (x >> 16u64) as u8,
        (x >> 8u64) as u8,
        x as u8,
    ]
}

/// The abstract content of a transaction.
pub struct TransactionView {
    pub id: u64,
    pub sender: Seq<u8>,
    pub recipient: Seq<u8>,
    pub signature: Seq<u8>,
    pub amount: u64,
}

impl TransactionView {
    /// The field lengths of every transaction: 32-byte sender and
    /// recipient, 64-byte signature.
    pub open spec fn well_formed(self) -> bool {
        &&& self.sender.len() == 32
        &&& self.recipient.len() == 32
        &&& self.signature.len() == 64
    }
}

/// The number that eight big-endian bytes stand for.
pub open spec fn u64_from_be(s: Seq<u8>) -> u64 {
    ((s[0] as u64) << 56u64) | ((s[1] as u64) << 48u64) | ((s[2] as u64) << 40u64) | ((s[3] as u64)
        << 32u64) | ((s[4] as u64) << 24u64) | ((s[5] as u64) << 16u64) | ((s[6] as u64) << 8u64)
        | (s[7] as u64)
}

/// Reads a transaction back from its 144-byte encoding.
pub open spec fn decode_transaction(r: Seq<u8>) -> TransactionView {
    TransactionView {
        id: u64_from_be(r.subrange(0, 8)),
        sender: r.subrange(8, 40),
        recipient: r.subrange(40, 72),
        signature: r.subrange(72, 136),
        amount: u64_from_be(r.subrange(136, 144)),
    }
}

/// Big-endian bytes read back to the number they were made from.
pub proof fn lemma_be_u64_round_trip(x: u64)
    ensures
        u64_from_be(be_u64(x)) == x,
{
    let b = be_u64(x);
    let (b0, b1, b2, b3) = (b[0], b[1], b[2], b[3]);
    let (b4, b5, b6, b7) = (b[4], b[5], b[6], b[7]);
    assert(((b0 as u64) << 56u64) | ((b1 as u64) << 48u64) | ((b2 as u64) << 40u64) | ((b3 as u64)
        << 32u64) | ((b4 as u64) << 24u64) | ((b5 as u64) << 16u64) | ((b6 as u64) << 8u64) | (
    b7 as u64) == x) by (bit_vector)
        requires
            b0 == (x >> 56u64) as u8,
            b1 == (x >> 48u64) as u8,
            b2 == (x >> 40u64) as u8,
            b3 == (x >> 32u64) as u8,
            b4 == (x >> 24u64) as u8,
            b5 == (x >> 16u64) as u8,
            b6 == (x >> 8u64) as u8,
            b7 == x as u8,
    ;
}

/// A well-formed transaction is read back from its encoding unchanged.
pub proof fn lemma_decode_transaction(t: TransactionView)
    requires
        t.well_formed(),
    ensures
        encode_transaction(t).len() == 144,
        decode_transaction(encode_transaction(t)) == t,
{
    let r = encode_transaction(t);
    assert(r.subrange(0, 8) =~= be_u64(t.id));
    assert(r.subrange(8, 40) =~= t.sender);
    assert(r.subrange(40, 72) =~= t.recipient);
    assert(r.subrange(72, 136) =~= t.signature);
    assert(r.subrange(136, 144) =~= be_u64(t.amount));
    lemma_be_u64_round_trip(t.id);
    lemma_be_u64_round_trip(t.amount);
}

/// The abstract content of a block.
pub struct BlockView {
    pub slot: u64,
    pub winner: Seq<u8>,
    pub previous: Seq<u8>,
    pub transactions: Seq<TransactionView>,
}

/// The wire encoding of a transaction: id (big endian), sender, recipient,
/// signature, amount (big endian).
pub open spec fn encode_transaction(t: TransactionView) -> Seq<u8> {
    be_u64(t.id) + t.sender + t.recipient + t.signature + be_u64(t.amount)
}

/// The encodings of a sequence of transactions, one after the other.
pub open spec fn encode_transactions(ts: Seq<TransactionView>) -> Seq<u8>
    decreases ts.len(),
{
    if ts.len() == 0 {
        Seq::empty()
    } else {
        encode_transactions(ts.drop_last()) + encode_transaction(ts.last())
    }
}

/// The bytes that are hashed to identify a block: slot (big endian),
/// winner, previous block hash, then every transaction in order.
pub open spec fn block_hash_input(b: BlockView) -> Seq<u8> {
    be_u64(b.slot) + b.winner + b.previous + encode_transactions(b.transactions)
}

pub struct Transaction {
    id: u64,
    sender: [u8; 32],
    recipient: [u8; 32],
    signature: [u8; 64],
    amount: u64,
}

impl View for Transaction {
    type V = TransactionView;

    closed spec fn view(&self) -> TransactionView {
        TransactionView {
            id: self.id,
            sender: self.sender@,
            recipient: self.recipient@,
            signature: self.signature@,
            amount: self.amount,
        }
    }
}

impl Transaction {
    /// Every transaction has the field lengths of its encoding.
    pub proof fn lemma_view_lengths(&self)
        ensures
            self@.well_formed(),
            self@.sender.len() == 32,
            self@.recipient.len() == 32,
            self@.signature.len() == 64,
    {
    }
}

/// Two transactions have the same bytes exactly when they agree on id,
/// sender, recipient, signature and amount.
pub proof fn lemma_bytes_determine_transaction(t1: &Transaction, t2: &Transaction)
    ensures
        encode_transaction(t1@) == encode_transaction(t2@) <==> t1@ == t2@,
{
    t1.lemma_view_lengths();
    t2.lemma_view_lengths();
    lemma_decode_transaction(t1@);
    lemma_decode_transaction(t2@);
}

/// Writes the eight big-endian bytes of `x` into `out` from position `at`.
fn write_be_u64(out: &mut [u8; 144], at: usize, x: u64)
    requires
        at + 8 <= 144,
    ensures
        final(out)@.len() == 144,
        final(out)@.subrange(at as int, at + 8) == be_u64(x),
        forall|k: int| 0 <= k < 144 && !(at <= k < at + 8) ==> final(out)@[k] == old(out)@[k],
{
    out[at] = (x >> 56u64) as u8;
    out[at + 1] = (x >> 48u64) as u8;
    out[at + 2] = (x >> 40u64) as u8;
    out[at + 3] = (x >> 32u64) as u8;
    out[at + 4] = (x >> 24u64) as u8;
    out[at + 5] = (x >> 16u64) as u8;
    out[at + 6] = (x >> 8u64) as u8;
    out[at + 7] = x as u8;
    assert(out@.subrange(at as int, at + 8) =~= be_u64(x));
}

/// Copies `src` into `out` from position `at`.
fn write_bytes<const N: usize>(out: &mut [u8; 144], at: usize, src: &[u8; N])
    requires
        at + N <= 144,
    ensures
        final(out)@.len() == 144,
        final(out)@.subrange(at as int, at + N) == src@,
        forall|k: int| 0 <= k < 144 && !(at <= k < at + N) ==> final(out)@[k] == old(out)@[k],
{
    let mut i: usize = 0;
    while i < N
        invariant
            i <= N,
            at + N <= 144,
            out@.len() == 144,
            forall|j: int| 0 <= j < i ==> out@[at + j] == src@[j],
            forall|k: int| 0 <= k < 144 && !(at <= k < at + N) ==> out@[k] == old(out)@[k],
        decreases N - i,
    {
        out[at + i] = src[i];
        i = i + 1;
    }
    assert(out@.subrange(at as int, at + N) =~= src@);
}

impl Transaction {
    pub fn new(
        id: u64,
        sender: [u8; 32],
        recipient: [u8; 32],
        signature: [u8; 64],
        amount: u64,
    ) -> (t: Transaction)
        ensures
            t@ == (TransactionView {
                id,
                sender: sender@,
                recipient: recipient@,
                signature: signature@,
                amount,
            }),
    {
        Transaction { id, sender, recipient, signature, amount }
    }

    /// The 144-byte encoding of the transaction.
    pub fn bytes(&self) -> (out: [u8; 144])
        ensures
            out@ == encode_transaction(self@),
    {
        let mut out = [0u8; 144];
        write_be_u64(&mut out, 0, self.id);
        write_bytes(&mut out, 8, &self.sender);
        write_bytes(&mut out, 40, &self.recipient);
        write_bytes(&mut out, 72, &self.signature);
        write_be_u64(&mut out, 136, self.amount);
        assert(out@ =~= encode_transaction(self@)) by {
            assert(out@ =~= out@.subrange(0, 8) + out@.subrange(8, 40) + out@.subrange(40, 72)
                + out@.subrange(72, 136) + out@.subrange(136, 144));
        }
        out
    }
}


pub struct Block {
    slot: u64,
    winner: [u8; 32],
    previous: [u8; 32],
    transactions: Vec<Transaction>,
}

impl View for Block {
    type V = BlockView;

    closed spec fn view(&self) -> BlockView {
        BlockView {
            slot: self.slot,
            winner: self.winner@,
            previous: self.previous@,
            transactions: self.transactions@.map_values(|t: Transaction| t@),
        }
    }
}

/// Well-formed transactions take 144 bytes each.
pub proof fn lemma_encode_transactions_length(ts: Seq<TransactionView>)
    requires
        forall|i: int| 0 <= i < ts.len() ==> (#[trigger] ts[i]).well_formed(),
    ensures
        encode_transactions(ts).len() == 144 * ts.len(),
    decreases ts.len(),
{
    if ts.len() > 0 {
        lemma_encode_transactions_length(ts.drop_last());
        lemma_decode_transaction(ts.last());
    }
}

/// The encoding of every transaction: its id in eight bytes, most
/// significant first, then sender, recipient and signature unchanged, then
/// its amount in eight bytes, most significant first.
pub proof fn lemma_transaction_layout(t: &Transaction)
    ensures
        encode_transaction(t@).len() == 144,
        encode_transaction(t@).subrange(0, 8) == seq![
            (t@.id >> 56u64) as u8,
            (t@.id >> 48u64) as u8,
            (t@.id >> 40u64) as u8,
            (t@.id >> 32u64) as u8,
            (t@.id >> 24u64) as u8,
            (t@.id >> 16u64) as u8,
            (t@.id >> 8u64) as u8,
            t@.id as u8,
        ],
        encode_transaction(t@).subrange(8, 40) == t@.sender,
        encode_transaction(t@).subrange(40, 72) == t@.recipient,
        encode_transaction(t@).subrange(72, 136) == t@.signature,
        encode_transaction(t@).subrange(136, 144) == seq![
            (t@.amount >> 56u64) as u8,
            (t@.amount >> 48u64) as u8,
            (t@.amount >> 40u64) as u8,
            (t@.amount >> 32u64) as u8,
            (t@.amount >> 24u64) as u8,
            (t@.amount >> 16u64) as u8,
            (t@.amount >> 8u64) as u8,
            t@.amount as u8,
        ],
{
    t.lemma_view_lengths();
    let e = encode_transaction(t@);
    assert(e.subrange(0, 8) =~= be_u64(t@.id));
    assert(e.subrange(8, 40) =~= t@.sender);
    assert(e.subrange(40, 72) =~= t@.recipient);
    assert(e.subrange(72, 136) =~= t@.signature);
    assert(e.subrange(136, 144) =~= be_u64(t@.amount));
}

/// The encodings of well-formed transactions stand one after the other,
/// the `i`-th at bytes `144 i .. 144 (i + 1)`.
proof fn lemma_encode_transactions_at(ts: Seq<TransactionView>, i: int)
    requires
        forall|j: int| 0 <= j < ts.len() ==> (#[trigger] ts[j]).well_formed(),
        0 <= i < ts.len(),
    ensures
        encode_transactions(ts).subrange(144 * i, 144 * (i + 1)) == encode_transaction(ts[i]),
    decreases ts.len(),
{
    let init = ts.drop_last();
    assert forall|j: int| 0 <= j < init.len() implies (#[trigger] init[j]).well_formed() by {
        assert(init[j] == ts[j]);
    }
    lemma_encode_transactions_length(init);
    lemma_decode_transaction(ts.last());
    let e = encode_transactions(ts);
    let head = encode_transactions(init);
    let n = ts.len() as int;
    let lo = 144 * i;
    let hi = 144 * (i + 1);
    assert(hi == lo + 144) by (nonlinear_arith)
        requires
            lo == 144 * i,
            hi == 144 * (i + 1),
    ;
    assert(head.len() == 144 * (n - 1));
    assert(e == head + encode_transaction(ts.last()));
    if i < n - 1 {
        assert(hi <= 144 * (n - 1)) by (nonlinear_arith)
            requires
                i < n - 1,
                hi == 144 * (i + 1),
        ;
        assert(0 <= lo) by (nonlinear_arith)
            requires
                0 <= i,
                lo == 144 * i,
        ;
        lemma_encode_transactions_at(init, i);
        assert(init[i] == ts[i]);
        assert(e.subrange(lo, hi) =~= head.subrange(lo, hi));
    } else {
        assert(lo == 144 * (n - 1));
        assert(e.subrange(lo, hi) =~= encode_transaction(ts.last()));
    }
}

impl Block {
    /// The bytes hashed for a block: its slot in eight bytes, most
    /// significant first, then winner and previous hash unchanged, then the
    /// encoding of each transaction, in order.
    pub proof fn lemma_hash_input_layout(&self)
        ensures
            block_hash_input(self@).len() == 72 + 144 * self@.transactions.len(),
            block_hash_input(self@).subrange(0, 8) == seq![
                (self@.slot >> 56u64) as u8,
                (self@.slot >> 48u64) as u8,
                (self@.slot >> 40u64) as u8,
                (self@.slot >> 32u64) as u8,
                (self@.slot >> 24u64) as u8,
                (self@.slot >> 16u64) as u8,
                (self@.slot >> 8u64) as u8,
                self@.slot as u8,
            ],
            block_hash_input(self@).subrange(8, 40) == self@.winner,
            block_hash_input(self@).subrange(40, 72) == self@.previous,
            forall|i: int|
                0 <= i < self@.transactions.len() ==> block_hash_input(self@).subrange(
                    72 + 144 * i,
                    72 + 144 * (i + 1),
                ) == encode_transaction(#[trigger] self@.transactions[i]),
    {
        self.lemma_view_lengths();
        let h = block_hash_input(self@);
        let txs = self@.transactions;
        lemma_encode_transactions_length(txs);
        assert(h.subrange(0, 8) =~= be_u64(self@.slot));
        assert(h.subrange(8, 40) =~= self@.winner);
        assert(h.subrange(40, 72) =~= self@.previous);
        assert forall|i: int| 0 <= i < txs.len() implies h.subrange(72 + 144 * i, 72 + 144 * (i + 1))
            == encode_transaction(#[trigger] txs[i]) by {
            lemma_encode_transactions_at(txs, i);
            assert(h.subrange(72 + 144 * i, 72 + 144 * (i + 1)) =~= encode_transactions(txs).subrange(
                144 * i,
                144 * (i + 1),
            ));
        }
    }

    /// Every block has 32-byte winner and previous hashes, and well-formed
    /// transactions; the hash input is 72 bytes plus 144 per transaction.
    pub proof fn lemma_view_lengths(&self)
        ensures
            self@.winner.len() == 32,
            self@.previous.len() == 32,
            forall|i: int|
                0 <= i < self@.transactions.len() ==> (#[trigger] self@.transactions[i]).well_formed(),
            block_hash_input(self@).len() == 72 + 144 * self@.transactions.len(),
    {
        assert forall|i: int| 0 <= i < self@.transactions.len() implies (
        #[trigger] self@.transactions[i]).well_formed() by {
            self.transactions@[i].lemma_view_lengths();
        }
        lemma_encode_transactions_length(self@.transactions);
    }
}

/// Appends `src` to `v`.
fn append_bytes(v: &mut Vec<u8>, src: &[u8])
    ensures
        final(v)@ == old(v)@ + src@,
{
    let mut i: usize = 0;
    while i < src.len()
        invariant
            i <= src@.len(),
            v@ == old(v)@ + src@.subrange(0, i as int),
        decreases src@.len() - i,
    {
        v.push(src[i]);
        i = i + 1;
        assert(v@ =~= old(v)@ + src@.subrange(0, i as int));
    }
    assert(src@.subrange(0, src@.len() as int) =~= src@);
}

/// Appends the eight big-endian bytes of `x` to `v`.
fn push_be_u64(v: &mut Vec<u8>, x: u64)
    ensures
        final(v)@ == old(v)@ + be_u64(x),
{
    v.push((x >> 56u64) as u8);
    v.push((x >> 48u64) as u8);
    v.push((x >> 40u64) as u8);
    v.push((x >> 32u64) as u8);
    v.push((x >> 24u64) as u8);
    v.push((x >> 16u64) as u8);
    v.push((x >> 8u64) as u8);
    v.push(x as u8);
    assert(v@ =~= old(v)@ + be_u64(x));
}

impl Block {
    pub fn new(slot: u64, winner: [u8; 32], previous: [u8; 32], transactions: Vec<Transaction>) -> (b: Block)
        ensures
            b@ == (BlockView {
                slot,
                winner: winner@,
                previous: previous@,
                transactions: transactions@.map_values(|t: Transaction| t@),
            }),
    {
        Block { slot, winner, previous, transactions }
    }

    /// The bytes that identify the block, in the order they are hashed.
    fn hash_input(&self) -> (data: Vec<u8>)
        ensures
            data@ == block_hash_input(self@),
    {
        let mut data: Vec<u8> = Vec::new();
        push_be_u64(&mut data, self.slot);
        append_bytes(&mut data, &self.winner);
        append_bytes(&mut data, &self.previous);
        let ghost txs = self@.transactions;
        let ghost head = be_u64(self.slot) + self.winner@ + self.previous@;
        assert(txs.take(0) =~= Seq::<TransactionView>::empty());
        assert(data@ =~= head + encode_transactions(txs.take(0)));
        let mut i: usize = 0;
        while i < self.transactions.len()
            invariant
                i <= self.transactions@.len(),
                txs == self@.transactions,
                txs.len() == self.transactions@.len(),
                forall|j: int| 0 <= j < txs.len() ==> txs[j] == #[trigger] self.transactions@[j]@,
                data@ == head + encode_transactions(txs.take(i as int)),
            decreases self.transactions@.len() - i,
        {
            let tx_bytes = self.transactions[i].bytes();
            append_bytes(&mut data, &tx_bytes);
            assert(txs.take(i + 1).drop_last() =~= txs.take(i as int));
            assert(txs.take(i + 1).last() == txs[i as int]);
            i = i + 1;
            assert(data@ =~= head + encode_transactions(txs.take(i as int)));
        }
        assert(txs.take(txs.len() as int) =~= txs);
        data
    }

    /// The SHA3-256 hash of the block.
    pub fn hash(&self) -> (out: [u8; 32])
        ensures
            out@ == sha3_256(block_hash_input(self@)),
    {
        let data = self.hash_input();
        sha3_256_digest(data.as_slice())
    }
}

/// The blocks of the chain, each stored under its hash.
pub struct Blockchain {
    blocks: std::collections::HashMap<[u8; 32], Block>,
}

} // verus!
