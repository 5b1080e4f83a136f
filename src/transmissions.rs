use crate::block::{CoinbaseSolution, Transaction, TransactionSet};
use vstd::prelude::*;

verus! {

/// Why bytes could not be read as, or written from, confirmed transmissions.
#[derive(Clone, Copy, Debug, PartialEq, Eq, Structural)]
pub enum BytesError {
    /// The leading version byte is not zero.
    InvalidVersion,
    /// A variant byte names no variant.
    InvalidVariant,
    /// The bytes end before the value does.
    UnexpectedEnd,
    /// A list is longer than a `u32` can count.
    TooLong,
}

/// A ratification: a reward credited to an address by the block.
#[derive(Clone, Copy, Debug, PartialEq, Eq)]
pub enum Ratify {
    ProvingReward([u8; 32], u64),
    StakingReward([u8; 32], u64),
}

/// What a block confirms: its transactions, its ratifications and its coinbase solution.
#[derive(Clone, Debug, PartialEq, Eq)]
pub struct ConfirmedTransmissions {
    pub transactions: TransactionSet,
    pub ratifications: Vec<Ratify>,
    pub coinbase: Option<CoinbaseSolution>,
}

/// The little-endian bytes of a `u32`.
pub open spec fn u32_le(v: u32) -> Seq<u8> {
    seq![(v & 0xff) as u8, ((v >> 8u32) & 0xff) as u8, ((v >> 16u32) & 0xff) as u8, ((v >> 24u32) & 0xff) as u8]
}

/// The little-endian bytes of a `u64`.
pub open spec fn u64_le(v: u64) -> Seq<u8> {
    seq![
        (v & 0xff) as u8,
        ((v >> 8u64) & 0xff) as u8,
        ((v >> 16u64) & 0xff) as u8,
        ((v >> 24u64) & 0xff) as u8,
        ((v >> 32u64) & 0xff) as u8,
        ((v >> 40u64) & 0xff) as u8,
        ((v >> 48u64) & 0xff) as u8,
        ((v >> 56u64) & 0xff) as u8,
    ]
}

/// A transaction: its id, then what it mints and what it burns.
pub open spec fn transaction_bytes(t: Transaction) -> Seq<u8> {
    t.id@ + u64_le(t.minted) + u64_le(t.burned)
}

pub open spec fn transactions_bytes(s: Seq<Transaction>) -> Seq<u8>
    decreases s.len(),
{
    if s.len() == 0 {
        Seq::empty()
    } else {
        transactions_bytes(s.drop_last()) + transaction_bytes(s.last())
    }
}

/// A transaction set: the count, the transactions, then the two roots.
pub open spec fn transaction_set_bytes(t: TransactionSet) -> Seq<u8> {
    u32_le(t.transactions@.len() as u32) + transactions_bytes(t.transactions@) + t.transactions_root@
        + t.finalize_root@
}

/// A ratification: its variant (proving 0, staking 1), the address, then the amount.
pub open spec fn ratify_bytes(r: Ratify) -> Seq<u8> {
    match r {
        Ratify::ProvingReward(a, amount) => seq![0u8] + a@ + u64_le(amount),
        Ratify::StakingReward(a, amount) => seq![1u8] + a@ + u64_le(amount),
    }
}

pub open spec fn ratifications_bytes(s: Seq<Ratify>) -> Seq<u8>
    decreases s.len(),
{
    if s.len() == 0 {
        Seq::empty()
    } else {
        ratifications_bytes(s.drop_last()) + ratify_bytes(s.last())
    }
}

/// An absent coinbase is the byte 0; a present one is the byte 1, the accumulator point,
/// the length of the proof and the proof.
pub open spec fn coinbase_bytes(c: Option<CoinbaseSolution>) -> Seq<u8> {
    match c {
        None => seq![0u8],
        Some(s) => seq![1u8] + s.accumulator_point@ + u32_le(s.proof@.len() as u32) + s.proof@,
    }
}

impl ConfirmedTransmissions {
    /// Every list is short enough for its count to fit in a `u32`.
    pub open spec fn encodable(&self) -> bool {
        &&& self.transactions.transactions@.len() <= u32::MAX
        &&& self.ratifications@.len() <= u32::MAX
        &&& (self.coinbase is Some ==> self.coinbase->Some_0.proof@.len() <= u32::MAX)
    }

    /// The encoding: the version 0, the transaction set, the count of ratifications, the
    /// ratifications, then the coinbase.
    pub open spec fn spec_bytes(&self) -> Seq<u8> {
        seq![0u8] + transaction_set_bytes(self.transactions) + u32_le(self.ratifications@.len() as u32)
            + ratifications_bytes(self.ratifications@) + coinbase_bytes(self.coinbase)
    }
}

fn write_u32(v: u32, out: &mut Vec<u8>)
    ensures
        final(out)@ == old(out)@ + u32_le(v),
{
    out.push((v & 0xff) as u8);
    out.push(((v >> 8u32) & 0xff) as u8);
    out.push(((v >> 16u32) & 0xff) as u8);
    out.push(((v >> 24u32) & 0xff) as u8);
    assert(out@ =~= old(out)@ + u32_le(v));
}

fn write_u64(v: u64, out: &mut Vec<u8>)
    ensures
        final(out)@ == old(out)@ + u64_le(v),
{
    out.push((v & 0xff) as u8);
    out.push(((v >> 8u64) & 0xff) as u8);
    out.push(((v >> 16u64) & 0xff) as u8);
    out.push(((v >> 24u64) & 0xff) as u8);
    out.push(((v >> 32u64) & 0xff) as u8);
    out.push(((v >> 40u64) & 0xff) as u8);
    out.push(((v >> 48u64) & 0xff) as u8);
    out.push(((v >> 56u64) & 0xff) as u8);
    assert(out@ =~= old(out)@ + u64_le(v));
}

fn write_bytes(b: &[u8], out: &mut Vec<u8>)
    ensures
        final(out)@ == old(out)@ + b@,
{
    let mut i: usize = 0;
    while i < b.len()
        invariant
            i <= b@.len(),
            out@ == old(out)@ + b@.subrange(0, i as int),
        decreases b@.len() - i,
    {
        out.push(b[i]);
        i = i + 1;
        assert(out@ =~= old(out)@ + b@.subrange(0, i as int));
    }
    assert(b@.subrange(0, b@.len() as int) =~= b@);
}

fn write_digest(d: &[u8; 32], out: &mut Vec<u8>)
    ensures
        final(out)@ == old(out)@ + d@,
{
    write_bytes(d.as_slice(), out);
}

fn write_transaction(t: &Transaction, out: &mut Vec<u8>)
    ensures
        final(out)@ == old(out)@ + transaction_bytes(*t),
{
    write_digest(&t.id, out);
    write_u64(t.minted, out);
    write_u64(t.burned, out);
    assert(out@ =~= old(out)@ + transaction_bytes(*t));
}

fn write_ratify(r: &Ratify, out: &mut Vec<u8>)
    ensures
        final(out)@ == old(out)@ + ratify_bytes(*r),
{
    match r {
        Ratify::ProvingReward(a, amount) => {
            out.push(0u8);
            write_digest(a, out);
            write_u64(*amount, out);
        },
        Ratify::StakingReward(a, amount) => {
            out.push(1u8);
            write_digest(a, out);
            write_u64(*amount, out);
        },
    }
    assert(out@ =~= old(out)@ + ratify_bytes(*r));
}

fn read_u8(bytes: &[u8], pos: usize) -> (r: Result<u8, BytesError>)
    ensures
        r is Ok <==> pos < bytes@.len(),
        r is Ok ==> r->Ok_0 == bytes@[pos as int],
        r is Err ==> r == Err::<u8, BytesError>(BytesError::UnexpectedEnd),
{
    if pos >= bytes.len() {
        return Err(BytesError::UnexpectedEnd);
    }
    Ok(bytes[pos])
}

fn read_u32(bytes: &[u8], pos: usize) -> (r: Result<u32, BytesError>)
    ensures
        r is Ok <==> pos + 4 <= bytes@.len(),
        r is Ok ==> u32_le(r->Ok_0) == bytes@.subrange(pos as int, pos + 4),
        r is Err ==> r == Err::<u32, BytesError>(BytesError::UnexpectedEnd),
{
    if bytes.len() < 4 || pos > bytes.len() - 4 {
        return Err(BytesError::UnexpectedEnd);
    }
    let b0 = bytes[pos] as u32;
    let b1 = bytes[pos + 1] as u32;
    let b2 = bytes[pos + 2] as u32;
    let b3 = bytes[pos + 3] as u32;
    let v: u32 = b0 | (b1 << 8u32) | (b2 << 16u32) | (b3 << 24u32);
    assert((v & 0xff) == b0 && ((v >> 8u32) & 0xff) == b1 && ((v >> 16u32) & 0xff) == b2 && ((v >> 24u32) & 0xff)
        == b3) by (bit_vector)
        requires
            b0 <= 0xff && b1 <= 0xff && b2 <= 0xff && b3 <= 0xff,
            v == b0 | (b1 << 8u32) | (b2 << 16u32) | (b3 << 24u32),
    ;
    assert(u32_le(v) =~= bytes@.subrange(pos as int, pos + 4));
    Ok(v)
}

fn read_u64(bytes: &[u8], pos: usize) -> (r: Result<u64, BytesError>)
    ensures
        r is Ok <==> pos + 8 <= bytes@.len(),
        r is Ok ==> u64_le(r->Ok_0) == bytes@.subrange(pos as int, pos + 8),
        r is Err ==> r == Err::<u64, BytesError>(BytesError::UnexpectedEnd),
{
    if bytes.len() < 8 || pos > bytes.len() - 8 {
        return Err(BytesError::UnexpectedEnd);
    }
    let b0 = bytes[pos] as u64;
    let b1 = bytes[pos + 1] as u64;
    let b2 = bytes[pos + 2] as u64;
    let b3 = bytes[pos + 3] as u64;
    let b4 = bytes[pos + 4] as u64;
    let b5 = bytes[pos + 5] as u64;
    let b6 = bytes[pos + 6] as u64;
    let b7 = bytes[pos + 7] as u64;
    let v: u64 = b0 | (b1 << 8u64) | (b2 << 16u64) | (b3 << 24u64) | (b4 << 32u64) | (b5 << 40u64) | (b6 << 48u64)
        | (b7 << 56u64);
    assert((v & 0xff) == b0 && ((v >> 8u64) & 0xff) == b1 && ((v >> 16u64) & 0xff) == b2 && ((v >> 24u64) & 0xff)
        == b3 && ((v >> 32u64) & 0xff) == b4 && ((v >> 40u64) & 0xff) == b5 && ((v >> 48u64) & 0xff) == b6 && ((v
        >> 56u64) & 0xff) == b7) by (bit_vector)
        requires
            b0 <= 0xff && b1 <= 0xff && b2 <= 0xff && b3 <= 0xff && b4 <= 0xff && b5 <= 0xff && b6 <= 0xff && b7
                <= 0xff,
            v == b0 | (b1 << 8u64) | (b2 << 16u64) | (b3 << 24u64) | (b4 << 32u64) | (b5 << 40u64) | (b6 << 48u64)
                | (b7 << 56u64),
    ;
    assert(u64_le(v) =~= bytes@.subrange(pos as int, pos + 8));
    Ok(v)
}

fn read_digest(bytes: &[u8], pos: usize) -> (r: Result<[u8; 32], BytesError>)
    ensures
        r is Ok <==> pos + 32 <= bytes@.len(),
        r is Ok ==> r->Ok_0@ == bytes@.subrange(pos as int, pos + 32),
        r is Err ==> r == Err::<[u8; 32], BytesError>(BytesError::UnexpectedEnd),
{
    if bytes.len() < 32 || pos > bytes.len() - 32 {
        return Err(BytesError::UnexpectedEnd);
    }
    let len = bytes.len();
    let mut d: [u8; 32] = [0u8; 32];
    let mut i: usize = 0;
    while i < 32
        invariant
            i <= 32,
            len == bytes@.len(),
            pos + 32 <= bytes@.len(),
            d@.len() == 32,
            forall|j: int| 0 <= j < i ==> d@[j] == bytes@[pos + j],
        decreases 32 - i,
    {
        d[i] = bytes[pos + i];
        i = i + 1;
    }
    assert(d@ =~= bytes@.subrange(pos as int, pos + 32));
    Ok(d)
}

fn read_bytes(bytes: &[u8], pos: usize, n: usize) -> (r: Result<Vec<u8>, BytesError>)
    ensures
        r is Ok <==> pos + n <= bytes@.len(),
        r is Ok ==> r->Ok_0@ == bytes@.subrange(pos as int, pos + n),
        r is Err ==> r == Err::<Vec<u8>, BytesError>(BytesError::UnexpectedEnd),
{
    if bytes.len() < n || pos > bytes.len() - n {
        return Err(BytesError::UnexpectedEnd);
    }
    let len = bytes.len();
    let mut v: Vec<u8> = Vec::new();
    let mut i: usize = 0;
    while i < n
        invariant
            i <= n,
            len == bytes@.len(),
            pos + n <= bytes@.len(),
            v@ == bytes@.subrange(pos as int, pos + i),
        decreases n - i,
    {
        v.push(bytes[pos + i]);
        i = i + 1;
        assert(v@ =~= bytes@.subrange(pos as int, pos + i));
    }
    Ok(v)
}

fn read_transaction(bytes: &[u8], pos: usize) -> (r: Result<Transaction, BytesError>)
    ensures
        r is Ok <==> pos + 48 <= bytes@.len(),
        r is Ok ==> transaction_bytes(r->Ok_0) == bytes@.subrange(pos as int, pos + 48),
        r is Err ==> r == Err::<Transaction, BytesError>(BytesError::UnexpectedEnd),
{
    // The slice length is a usize, which bounds every offset below.
    let _len = bytes.len();
    let id = match read_digest(bytes, pos) {
        Ok(d) => d,
        Err(e) => return Err(e),
    };
    let minted = match read_u64(bytes, pos + 32) {
        Ok(v) => v,
        Err(e) => return Err(e),
    };
    let burned = match read_u64(bytes, pos + 40) {
        Ok(v) => v,
        Err(e) => return Err(e),
    };
    let t = Transaction { id, minted, burned };
    assert(transaction_bytes(t) =~= bytes@.subrange(pos as int, pos + 48));
    Ok(t)
}

fn read_ratify(bytes: &[u8], pos: usize) -> (r: Result<Ratify, BytesError>)
    ensures
        r is Ok ==> pos + 41 <= bytes@.len() && ratify_bytes(r->Ok_0) == bytes@.subrange(pos as int, pos + 41),
        pos + 41 <= bytes@.len() && bytes@[pos as int] <= 1 ==> r is Ok,
{
    // The slice length is a usize, which bounds every offset below.
    let _len = bytes.len();
    let variant = match read_u8(bytes, pos) {
        Ok(v) => v,
        Err(e) => return Err(e),
    };
    if variant > 1 {
        return Err(BytesError::InvalidVariant);
    }
    let address = match read_digest(bytes, pos + 1) {
        Ok(d) => d,
        Err(e) => return Err(e),
    };
    let amount = match read_u64(bytes, pos + 33) {
        Ok(v) => v,
        Err(e) => return Err(e),
    };
    let r = if variant == 0 {
        Ratify::ProvingReward(address, amount)
    } else {
        Ratify::StakingReward(address, amount)
    };
    assert(ratify_bytes(r) =~= bytes@.subrange(pos as int, pos + 41));
    Ok(r)
}

/// The bytes of `x` stand at the front of `bytes`.
pub open spec fn encodes_prefix(x: ConfirmedTransmissions, bytes: Seq<u8>) -> bool {
    &&& x.encodable()
    &&& x.spec_bytes().len() <= bytes.len()
    &&& x.spec_bytes() == bytes.subrange(0, x.spec_bytes().len() as int)
}

proof fn lemma_prefix_bytes(x: ConfirmedTransmissions, bytes: Seq<u8>, a: int, b: int)
    requires
        encodes_prefix(x, bytes),
        0 <= a <= b <= x.spec_bytes().len(),
    ensures
        bytes.subrange(a, b) == x.spec_bytes().subrange(a, b),
        a < b ==> bytes[a] == x.spec_bytes()[a],
{
    assert(bytes.subrange(a, b) =~= x.spec_bytes().subrange(a, b));
    if a < b {
        assert(bytes.subrange(0, x.spec_bytes().len() as int)[a] == bytes[a]);
    }
}

proof fn lemma_u32_le_injective(a: u32, b: u32)
    requires
        u32_le(a) == u32_le(b),
    ensures
        a == b,
{
    assert(u32_le(a)[0] == u32_le(b)[0] && u32_le(a)[1] == u32_le(b)[1] && u32_le(a)[2] == u32_le(b)[2]
        && u32_le(a)[3] == u32_le(b)[3]);
    let (a0, a1, a2, a3) = ((a & 0xff), ((a >> 8u32) & 0xff), ((a >> 16u32) & 0xff), ((a >> 24u32) & 0xff));
    let (b0, b1, b2, b3) = ((b & 0xff), ((b >> 8u32) & 0xff), ((b >> 16u32) & 0xff), ((b >> 24u32) & 0xff));
    assert(a0 <= 0xff && a1 <= 0xff && a2 <= 0xff && a3 <= 0xff && b0 <= 0xff && b1 <= 0xff && b2 <= 0xff && b3
        <= 0xff) by (bit_vector)
        requires
            a0 == (a & 0xff) && a1 == ((a >> 8u32) & 0xff) && a2 == ((a >> 16u32) & 0xff) && a3 == ((a >> 24u32)
                & 0xff),
            b0 == (b & 0xff) && b1 == ((b >> 8u32) & 0xff) && b2 == ((b >> 16u32) & 0xff) && b3 == ((b >> 24u32)
                & 0xff),
    ;
    assert(a0 == b0 && a1 == b1 && a2 == b2 && a3 == b3);
    assert(a == b) by (bit_vector)
        requires
            (a & 0xff) == (b & 0xff),
            ((a >> 8u32) & 0xff) == ((b >> 8u32) & 0xff),
            ((a >> 16u32) & 0xff) == ((b >> 16u32) & 0xff),
            ((a >> 24u32) & 0xff) == ((b >> 24u32) & 0xff),
    ;
}

proof fn lemma_transactions_bytes_len(s: Seq<Transaction>)
    ensures
        transactions_bytes(s).len() == 48 * s.len(),
    decreases s.len(),
{
    if s.len() > 0 {
        lemma_transactions_bytes_len(s.drop_last());
    }
}

/// Each ratification's encoding starts at a multiple of 41 with its variant, 0 or 1.
proof fn lemma_ratifications_bytes_layout(s: Seq<Ratify>)
    ensures
        ratifications_bytes(s).len() == 41 * s.len(),
        forall|j: int| 0 <= j < s.len() ==> #[trigger] ratifications_bytes(s)[41 * j] <= 1,
    decreases s.len(),
{
    if s.len() > 0 {
        let prev = s.drop_last();
        lemma_ratifications_bytes_layout(prev);
        assert forall|j: int| 0 <= j < s.len() implies #[trigger] ratifications_bytes(s)[41 * j] <= 1 by {
            if j < s.len() - 1 {
                assert(ratifications_bytes(prev)[41 * j] <= 1);
            }
        }
    }
}

/// Where the parts of an encoding stand.
proof fn lemma_layout(x: ConfirmedTransmissions)
    requires
        x.encodable(),
    ensures
        ({
            let w = x.spec_bytes();
            let n = x.transactions.transactions@.len() as int;
            let m = x.ratifications@.len() as int;
            let c = 73 + 48 * n + 41 * m;
            &&& w[0] == 0
            &&& w.subrange(1, 5) == u32_le(n as u32)
            &&& w.subrange(69 + 48 * n, 73 + 48 * n) == u32_le(m as u32)
            &&& forall|j: int| 0 <= j < m ==> #[trigger] w[73 + 48 * n + 41 * j] <= 1
            &&& c < w.len()
            &&& w[c] <= 1
            &&& (w[c] == 1 <==> x.coinbase is Some)
            &&& x.coinbase is None ==> w.len() == c + 1
            &&& x.coinbase is Some ==> w.len() == c + 37 + x.coinbase->Some_0.proof@.len() && w.subrange(c + 33, c
                + 37) == u32_le(x.coinbase->Some_0.proof@.len() as u32)
        }),
{
    let w = x.spec_bytes();
    let txs = x.transactions.transactions@;
    let n = txs.len() as int;
    let rats = x.ratifications@;
    let m = rats.len() as int;
    lemma_transactions_bytes_len(txs);
    lemma_ratifications_bytes_layout(rats);
    let head = seq![0u8] + transaction_set_bytes(x.transactions) + u32_le(m as u32);
    assert(head.len() == 73 + 48 * n);
    assert(w =~= head + ratifications_bytes(rats) + coinbase_bytes(x.coinbase));
    assert(w.subrange(1, 5) =~= u32_le(n as u32));
    assert(w.subrange(69 + 48 * n, 73 + 48 * n) =~= u32_le(m as u32));
    assert forall|j: int| 0 <= j < m implies #[trigger] w[73 + 48 * n + 41 * j] <= 1 by {
        assert(ratifications_bytes(rats)[41 * j] <= 1);
    }
    if x.coinbase is Some {
        let cb = x.coinbase->Some_0;
        let c = 73 + 48 * n + 41 * m;
        assert(w.subrange(c + 33, c + 37) =~= u32_le(cb.proof@.len() as u32));
    }
}

impl ConfirmedTransmissions {
    /// Reads confirmed transmissions from the front of `bytes`. What it returns encodes to
    /// exactly the bytes it read; bytes after them are left alone.
    #[verifier::rlimit(40)]
    pub fn read_le(bytes: &[u8]) -> (r: Result<ConfirmedTransmissions, BytesError>)
        ensures
            r is Ok ==> ({
                let x = r->Ok_0;
                &&& x.encodable()
                &&& x.spec_bytes().len() <= bytes@.len()
                &&& x.spec_bytes() == bytes@.subrange(0, x.spec_bytes().len() as int)
            }),
            bytes@.len() > 0 && bytes@[0] != 0 ==> r == Err::<ConfirmedTransmissions, BytesError>(
                BytesError::InvalidVersion,
            ),
            (exists|x: ConfirmedTransmissions| encodes_prefix(x, bytes@)) ==> r is Ok,
    {
        let len = bytes.len();
        // Where some value encodes to a prefix of the bytes, `w` is one, and each read below
        // stays within its encoding.
        let ghost has = exists|x: ConfirmedTransmissions| encodes_prefix(x, bytes@);
        let ghost w = choose|x: ConfirmedTransmissions| encodes_prefix(x, bytes@);
        let ghost n_w = w.transactions.transactions@.len() as int;
        let ghost m_w = w.ratifications@.len() as int;
        let ghost c_w = 73 + 48 * n_w + 41 * m_w;
        proof {
            if has {
                lemma_layout(w);
                lemma_prefix_bytes(w, bytes@, 0, 5);
                lemma_prefix_bytes(w, bytes@, 1, 5);
            }
        }
        // Read the version.
        let version = match read_u8(bytes, 0) {
            Ok(v) => v,
            Err(e) => return Err(e),
        };
        if version != 0 {
            return Err(BytesError::InvalidVersion);
        }

        // Read the transactions.
        let num_transactions = match read_u32(bytes, 1) {
            Ok(n) => n,
            Err(e) => return Err(e),
        };
        let mut pos: usize = 5;
        let mut transactions: Vec<Transaction> = Vec::new();
        let mut i: u32 = 0;
        assert(bytes@.subrange(0, 5) =~= seq![0u8] + u32_le(num_transactions) + transactions_bytes(transactions@));
        proof {
            if has {
                lemma_u32_le_injective(num_transactions, n_w as u32);
            }
        }
        while i < num_transactions
            invariant
                len == bytes@.len(),
                len > 0 && bytes@[0] == 0,
                pos == 5 + 48 * i,
                has == (exists|x: ConfirmedTransmissions| encodes_prefix(x, bytes@)),
                n_w == w.transactions.transactions@.len(),
                m_w == w.ratifications@.len(),
                c_w == 73 + 48 * n_w + 41 * m_w,
                has ==> encodes_prefix(w, bytes@) && num_transactions == n_w && c_w < w.spec_bytes().len(),
                i <= num_transactions,
                transactions@.len() == i,
                pos <= len,
                bytes@.subrange(0, pos as int) == seq![0u8] + u32_le(num_transactions) + transactions_bytes(
                    transactions@,
                ),
            decreases num_transactions - i,
        {
            let t = match read_transaction(bytes, pos) {
                Ok(t) => t,
                Err(e) => return Err(e),
            };
            let ghost prev = transactions@;
            transactions.push(t);
            proof {
                assert(transactions@.drop_last() =~= prev);
                assert(bytes@.subrange(0, pos + 48) =~= bytes@.subrange(0, pos as int) + bytes@.subrange(
                    pos as int,
                    pos + 48,
                ));
            }
            pos = pos + 48;
            i = i + 1;
        }
        let transactions_root = match read_digest(bytes, pos) {
            Ok(d) => d,
            Err(e) => return Err(e),
        };
        let finalize_root = match read_digest(bytes, pos + 32) {
            Ok(d) => d,
            Err(e) => return Err(e),
        };
        let set = TransactionSet { transactions, transactions_root, finalize_root };
        proof {
            assert(bytes@.subrange(0, pos + 64) =~= bytes@.subrange(0, pos as int) + bytes@.subrange(pos as int, pos + 32)
                + bytes@.subrange(pos + 32, pos + 64));
            assert(bytes@.subrange(0, pos + 64) =~= seq![0u8] + transaction_set_bytes(set));
        }
        pos = pos + 64;

        // Read the ratifications.
        let num_ratifications = match read_u32(bytes, pos) {
            Ok(n) => n,
            Err(e) => return Err(e),
        };
        proof {
            if has {
                lemma_layout(w);
                lemma_prefix_bytes(w, bytes@, 69 + 48 * n_w, 73 + 48 * n_w);
                lemma_u32_le_injective(num_ratifications, m_w as u32);
            }
        }
        let ghost head = seq![0u8] + transaction_set_bytes(set) + u32_le(num_ratifications);
        proof {
            assert(bytes@.subrange(0, pos + 4) =~= bytes@.subrange(0, pos as int) + bytes@.subrange(pos as int, pos + 4));
        }
        pos = pos + 4;
        let mut ratifications: Vec<Ratify> = Vec::new();
        let mut j: u32 = 0;
        assert(bytes@.subrange(0, pos as int) =~= head + ratifications_bytes(ratifications@));
        while j < num_ratifications
            invariant
                len == bytes@.len(),
                len > 0 && bytes@[0] == 0,
                pos == 73 + 48 * num_transactions + 41 * j,
                has == (exists|x: ConfirmedTransmissions| encodes_prefix(x, bytes@)),
                n_w == w.transactions.transactions@.len(),
                m_w == w.ratifications@.len(),
                c_w == 73 + 48 * n_w + 41 * m_w,
                has ==> encodes_prefix(w, bytes@) && num_transactions == n_w && num_ratifications == m_w && c_w
                    < w.spec_bytes().len(),
                j <= num_ratifications,
                ratifications@.len() == j,
                pos <= len,
                bytes@.subrange(0, pos as int) == head + ratifications_bytes(ratifications@),
            decreases num_ratifications - j,
        {
            proof {
                if has {
                    lemma_layout(w);
                    assert(w.spec_bytes()[73 + 48 * n_w + 41 * j] <= 1);
                    lemma_prefix_bytes(w, bytes@, pos as int, pos + 1);
                }
            }
            let r = match read_ratify(bytes, pos) {
                Ok(r) => r,
                Err(e) => return Err(e),
            };
            let ghost prev = ratifications@;
            ratifications.push(r);
            proof {
                assert(ratifications@.drop_last() =~= prev);
                assert(bytes@.subrange(0, pos + 41) =~= bytes@.subrange(0, pos as int) + bytes@.subrange(
                    pos as int,
                    pos + 41,
                ));
            }
            pos = pos + 41;
            j = j + 1;
        }

        // Read the coinbase.
        let ghost before_coinbase = bytes@.subrange(0, pos as int);
        proof {
            if has {
                lemma_layout(w);
                lemma_prefix_bytes(w, bytes@, c_w, c_w + 1);
                if w.coinbase is Some {
                    lemma_prefix_bytes(w, bytes@, c_w + 33, c_w + 37);
                }
            }
        }
        let coinbase_variant = match read_u8(bytes, pos) {
            Ok(v) => v,
            Err(e) => return Err(e),
        };
        let coinbase = if coinbase_variant == 0 {
            proof {
                assert(bytes@.subrange(0, pos + 1) =~= before_coinbase + coinbase_bytes(None));
            }
            pos = pos + 1;
            None
        } else if coinbase_variant == 1 {
            let accumulator_point = match read_digest(bytes, pos + 1) {
                Ok(d) => d,
                Err(e) => return Err(e),
            };
            let proof_len = match read_u32(bytes, pos + 33) {
                Ok(n) => n,
                Err(e) => return Err(e),
            };
            proof {
                if has {
                    lemma_u32_le_injective(proof_len, w.coinbase->Some_0.proof@.len() as u32);
                }
            }
            let proof = match read_bytes(bytes, pos + 37, proof_len as usize) {
                Ok(p) => p,
                Err(e) => return Err(e),
            };
            let c = CoinbaseSolution { accumulator_point, proof };
            proof {
                assert(bytes@.subrange(0, pos + 37 + proof_len) =~= before_coinbase + coinbase_bytes(Some(c)));
            }
            pos = pos + 37 + proof_len as usize;
            Some(c)
        } else {
            return Err(BytesError::InvalidVariant);
        };
        let x = ConfirmedTransmissions { transactions: set, ratifications, coinbase };
        assert(x.spec_bytes() =~= bytes@.subrange(0, pos as int));
        Ok(x)
    }

    /// Appends the encoding to `out`; `TooLong` where a count does not fit in a `u32`,
    /// with `out` then left as some extension of what it was.
    pub fn write_le(&self, out: &mut Vec<u8>) -> (r: Result<(), BytesError>)
        ensures
            r is Ok <==> self.encodable(),
            r is Ok ==> final(out)@ == old(out)@ + self.spec_bytes(),
            r is Err ==> r == Err::<(), BytesError>(BytesError::TooLong),
    {
        let ghost start = out@;
        // Write the version.
        out.push(0u8);

        // Write the transactions.
        let txs = &self.transactions.transactions;
        if txs.len() > u32::MAX as usize {
            return Err(BytesError::TooLong);
        }
        write_u32(txs.len() as u32, out);
        let ghost before_txs = out@;
        let mut i: usize = 0;
        while i < txs.len()
            invariant
                i <= txs@.len(),
                out@ == before_txs + transactions_bytes(txs@.subrange(0, i as int)),
            decreases txs@.len() - i,
        {
            write_transaction(&txs[i], out);
            proof {
                assert(txs@.subrange(0, i + 1).drop_last() =~= txs@.subrange(0, i as int));
            }
            i = i + 1;
        }
        assert(txs@.subrange(0, txs@.len() as int) =~= txs@);
        write_digest(&self.transactions.transactions_root, out);
        write_digest(&self.transactions.finalize_root, out);
        assert(out@ =~= start + seq![0u8] + transaction_set_bytes(self.transactions));

        // Write the ratifications.
        let rats = &self.ratifications;
        if rats.len() > u32::MAX as usize {
            return Err(BytesError::TooLong);
        }
        write_u32(rats.len() as u32, out);
        let ghost before_rats = out@;
        let mut j: usize = 0;
        while j < rats.len()
            invariant
                j <= rats@.len(),
                out@ == before_rats + ratifications_bytes(rats@.subrange(0, j as int)),
            decreases rats@.len() - j,
        {
            write_ratify(&rats[j], out);
            proof {
                assert(rats@.subrange(0, j + 1).drop_last() =~= rats@.subrange(0, j as int));
            }
            j = j + 1;
        }
        assert(rats@.subrange(0, rats@.len() as int) =~= rats@);
        let ghost before_coinbase = out@;

        // Write the coinbase solution.
        match &self.coinbase {
            None => out.push(0u8),
            Some(c) => {
                if c.proof.len() > u32::MAX as usize {
                    return Err(BytesError::TooLong);
                }
                out.push(1u8);
                write_digest(&c.accumulator_point, out);
                write_u32(c.proof.len() as u32, out);
                write_bytes(c.proof.as_slice(), out);
            },
        }
        assert(out@ =~= before_coinbase + coinbase_bytes(self.coinbase));
        assert(out@ =~= start + self.spec_bytes());
        Ok(())
    }

    /// The encoding, as a fresh vector.
    pub fn to_bytes_le(&self) -> (r: Result<Vec<u8>, BytesError>)
        ensures
            r is Ok <==> self.encodable(),
            r is Ok ==> r->Ok_0@ == self.spec_bytes(),
            r is Err ==> r == Err::<Vec<u8>, BytesError>(BytesError::TooLong),
    {
        let mut out: Vec<u8> = Vec::new();
        match self.write_le(&mut out) {
            Ok(()) => {
                assert(out@ =~= self.spec_bytes());
                Ok(out)
            },
            Err(e) => Err(e),
        }
    }
}

} // verus!
