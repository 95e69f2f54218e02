//! Minimal transaction model: ordered outputs carrying locking-script bytes,
//! ordered inputs carrying a previous-output reference, and the 32-byte
//! identifiers that tie a token category to the transaction that created it.

use vstd::prelude::*;

verus! {

/// A 32-byte transaction identifier.
#[derive(Clone, Debug)]
pub struct TxId {
    pub bytes: Vec<u8>,
}

impl View for TxId {
    type V = Seq<u8>;

    open spec fn view(&self) -> Seq<u8> {
        self.bytes@
    }
}

impl TxId {
    pub open spec fn wf(&self) -> bool {
        self@.len() == 32
    }
}

/// Token category identifier: the id of the transaction whose first output
/// established the category.  Equality is byte-equality.
#[derive(Clone, Debug)]
pub struct TokenId {
    pub txid: TxId,
}

impl View for TokenId {
    type V = Seq<u8>;

    open spec fn view(&self) -> Seq<u8> {
        self.txid@
    }
}

impl TokenId {
    pub open spec fn wf(&self) -> bool {
        self@.len() == 32
    }

    pub fn txid(&self) -> (r: &TxId)
        ensures
            r@ == self@,
    {
        &self.txid
    }
}

/// Reference to one output of a previous transaction.
#[derive(Clone, Debug)]
pub struct OutPoint {
    pub txid: TxId,
    pub out_idx: u32,
}

/// One transaction input: the output it spends.
#[derive(Clone, Debug)]
pub struct TxInput {
    pub prev_out: OutPoint,
}

/// One transaction output: its locking-script bytes.
#[derive(Clone, Debug)]
pub struct TxOutput {
    pub script: Vec<u8>,
}

/// A transaction, as far as coloring reads it.
#[derive(Clone, Debug)]
pub struct Tx {
    pub inputs: Vec<TxInput>,
    pub outputs: Vec<TxOutput>,
}

/// Mathematical image of one input: the previous-output reference.
#[verifier::ext_equal]
pub struct SpecTxInput {
    pub prev_txid: Seq<u8>,
    pub prev_out_idx: u32,
}

/// Mathematical image of a transaction.
#[verifier::ext_equal]
pub struct SpecTx {
    pub inputs: Seq<SpecTxInput>,
    pub outputs: Seq<Seq<u8>>,
}

impl View for TxInput {
    type V = SpecTxInput;

    open spec fn view(&self) -> SpecTxInput {
        SpecTxInput { prev_txid: self.prev_out.txid@, prev_out_idx: self.prev_out.out_idx }
    }
}

impl View for Tx {
    type V = SpecTx;

    open spec fn view(&self) -> SpecTx {
        SpecTx {
            inputs: self.inputs@.map_values(|i: TxInput| i@),
            outputs: self.outputs@.map_values(|o: TxOutput| o.script@),
        }
    }
}

/// True when the views of two byte vectors are the same sequence.
pub fn bytes_eq(a: &Vec<u8>, b: &Vec<u8>) -> (r: bool)
    ensures
        r == (a@ == b@),
{
    if a.len() != b.len() {
        proof {
            assert(a@ != b@);
        }
        return false;
    }
    let mut i: usize = 0;
    while i < a.len()
        invariant
            a@.len() == b@.len(),
            i <= a@.len(),
            forall|j: int| 0 <= j < i ==> a@[j] == b@[j],
        decreases a@.len() - i,
    {
        if a[i] != b[i] {
            proof {
                assert(a@ != b@);
            }
            return false;
        }
        i = i + 1;
    }
    proof {
        assert(a@ =~= b@);
    }
    true
}

/// Copies `s[from..to]` into a fresh vector.
pub fn copy_range(s: &Vec<u8>, from: usize, to: usize) -> (r: Vec<u8>)
    requires
        from <= to <= s@.len(),
    ensures
        r@ == s@.subrange(from as int, to as int),
{
    let mut r: Vec<u8> = Vec::new();
    let mut i: usize = from;
    while i < to
        invariant
            from <= i <= to <= s@.len(),
            r@ == s@.subrange(from as int, i as int),
        decreases to - i,
    {
        r.push(s[i]);
        proof {
            assert(r@ =~= s@.subrange(from as int, i + 1));
        }
        i = i + 1;
    }
    r
}

} // verus!
