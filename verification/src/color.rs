//! Coloring engine: folds each output's decoded token prefix into
//! per-category sections of the transaction, records one assignment per
//! output, and logs outputs whose prefix failed to decode.

use vstd::prelude::*;

use crate::parse::{parse_script, spec_parse, ParseError, SpecParseOutcome, HAS_NFT};
use crate::tx::{bytes_eq, copy_range, SpecTx, SpecTxInput, TokenId, Tx};

verus! {

/// The token standard a section belongs to.  This crate decodes the
/// CashTokens prefix only; the aggregator around it may add others.
#[derive(Clone, Copy, Debug, PartialEq, Eq, Structural)]
pub enum TokenType {
    CashTokens,
}

/// How a transaction relates to one token category.
#[derive(Clone, Copy, Debug, PartialEq, Eq, Structural)]
pub enum TxType {
    GENESIS,
    SEND,
}

/// Key of a section: token category and standard.
#[derive(Clone, Debug)]
pub struct TokenMeta {
    pub token_id: TokenId,
    pub token_type: TokenType,
}

/// Genesis evidence: the index of the input that pre-existed the category.
#[derive(Clone, Copy, Debug, PartialEq, Eq, Structural)]
pub struct GenesisInfo {
    pub pregenesis_input_idx: Option<usize>,
}

/// Per-category aggregate of one transaction's coloring.
#[derive(Clone, Debug)]
pub struct ColoredTxSection {
    pub meta: TokenMeta,
    pub tx_type: TxType,
    /// Owned by the aggregator; initialized to zero here.
    pub required_input_sum: u128,
    /// Owned by the aggregator; initialized to false here.
    pub has_colored_out_of_range: bool,
    pub genesis_info: Option<GenesisInfo>,
}

/// Payload of a non-fungible token output.
#[derive(Clone, Debug)]
pub struct TokenCommitment {
    pub amount: u64,
    pub capabilities: u8,
    pub commitment: Vec<u8>,
}

/// What one output carries: a fungible amount or a non-fungible commitment.
#[derive(Clone, Debug)]
pub enum TokenVariant {
    Amount(u64),
    Commitment(TokenCommitment),
}

/// Per-output assignment: a section index and the token variant.
#[derive(Clone, Debug)]
pub struct TokenOutput {
    pub token_idx: usize,
    pub variant: TokenVariant,
}

/// One output whose token prefix failed to decode.
#[derive(Clone, Debug)]
pub struct FailedParsing {
    /// Source location within the script; never set by this codec path.
    pub pushdata_idx: Option<usize>,
    /// The offending raw script bytes.
    pub bytes: Vec<u8>,
    /// Why decoding failed.
    pub error: ParseError,
}

/// The per-transaction aggregate: sections in first-seen order, one optional
/// assignment per output, and the parse failures.
#[derive(Clone, Debug)]
pub struct ColoredTx {
    pub sections: Vec<ColoredTxSection>,
    pub outputs: Vec<Option<TokenOutput>>,
    pub failed_parsings: Vec<FailedParsing>,
}

/// Mathematical image of a section key.
#[verifier::ext_equal]
pub struct SpecTokenMeta {
    pub token_id: Seq<u8>,
    pub token_type: TokenType,
}

/// Mathematical image of the genesis evidence.
#[verifier::ext_equal]
pub struct SpecGenesisInfo {
    pub pregenesis_input_idx: Option<int>,
}

/// Mathematical image of a section.
#[verifier::ext_equal]
pub struct SpecSection {
    pub meta: SpecTokenMeta,
    pub tx_type: TxType,
    pub required_input_sum: u128,
    pub has_colored_out_of_range: bool,
    pub genesis_info: Option<SpecGenesisInfo>,
}

/// Mathematical image of a token variant.
#[verifier::ext_equal]
pub enum SpecTokenVariant {
    Amount(u64),
    Commitment { amount: u64, capabilities: u8, commitment: Seq<u8> },
}

/// Mathematical image of a per-output assignment.
#[verifier::ext_equal]
pub struct SpecTokenOutput {
    pub token_idx: int,
    pub variant: SpecTokenVariant,
}

/// Mathematical image of one parse failure.
#[verifier::ext_equal]
pub struct SpecFailedParsing {
    pub pushdata_idx: Option<int>,
    pub bytes: Seq<u8>,
    pub error: ParseError,
}

/// Mathematical image of the per-transaction aggregate.
#[verifier::ext_equal]
pub struct SpecColoredTx {
    pub sections: Seq<SpecSection>,
    pub outputs: Seq<Option<SpecTokenOutput>>,
    pub failed_parsings: Seq<SpecFailedParsing>,
}

impl View for TokenMeta {
    type V = SpecTokenMeta;

    open spec fn view(&self) -> SpecTokenMeta {
        SpecTokenMeta { token_id: self.token_id@, token_type: self.token_type }
    }
}

impl View for GenesisInfo {
    type V = SpecGenesisInfo;

    open spec fn view(&self) -> SpecGenesisInfo {
        SpecGenesisInfo {
            pregenesis_input_idx: match self.pregenesis_input_idx {
                Some(k) => Some(k as int),
                None => None,
            },
        }
    }
}

impl View for ColoredTxSection {
    type V = SpecSection;

    open spec fn view(&self) -> SpecSection {
        SpecSection {
            meta: self.meta@,
            tx_type: self.tx_type,
            required_input_sum: self.required_input_sum,
            has_colored_out_of_range: self.has_colored_out_of_range,
            genesis_info: match self.genesis_info {
                Some(g) => Some(g@),
                None => None,
            },
        }
    }
}

impl View for TokenVariant {
    type V = SpecTokenVariant;

    open spec fn view(&self) -> SpecTokenVariant {
        match self {
            TokenVariant::Amount(a) => SpecTokenVariant::Amount(*a),
            TokenVariant::Commitment(c) => SpecTokenVariant::Commitment {
                amount: c.amount,
                capabilities: c.capabilities,
                commitment: c.commitment@,
            },
        }
    }
}

impl View for TokenOutput {
    type V = SpecTokenOutput;

    open spec fn view(&self) -> SpecTokenOutput {
        SpecTokenOutput { token_idx: self.token_idx as int, variant: self.variant@ }
    }
}

impl View for FailedParsing {
    type V = SpecFailedParsing;

    open spec fn view(&self) -> SpecFailedParsing {
        SpecFailedParsing {
            pushdata_idx: match self.pushdata_idx {
                Some(k) => Some(k as int),
                None => None,
            },
            bytes: self.bytes@,
            error: self.error,
        }
    }
}

impl View for ColoredTx {
    type V = SpecColoredTx;

    open spec fn view(&self) -> SpecColoredTx {
        SpecColoredTx {
            sections: self.sections@.map_values(|s: ColoredTxSection| s@),
            outputs: self.outputs@.map_values(
                |o: Option<TokenOutput>|
                    match o {
                        Some(t) => Some(t@),
                        None => None,
                    },
            ),
            failed_parsings: self.failed_parsings@.map_values(|f: FailedParsing| f@),
        }
    }
}

/// The input spends output 0 of the transaction named by `token_id`: the
/// category pre-existed through it.
pub open spec fn spec_genesis_match(input: SpecTxInput, token_id: Seq<u8>) -> bool {
    input.prev_txid == token_id && input.prev_out_idx == 0
}

/// Index of the first input spending output 0 of the category's transaction.
pub open spec fn spec_find_genesis_input(inputs: Seq<SpecTxInput>, token_id: Seq<u8>) -> Option<
    int,
>
    decreases inputs.len(),
{
    if inputs.len() == 0 {
        Option::None
    } else if spec_genesis_match(inputs[0], token_id) {
        Option::Some(0)
    } else {
        match spec_find_genesis_input(inputs.subrange(1, inputs.len() as int), token_id) {
            Option::Some(i) => Option::Some(i + 1),
            Option::None => Option::None,
        }
    }
}

/// Index of the first section whose key equals `meta`.
pub open spec fn spec_find_section(sections: Seq<SpecSection>, meta: SpecTokenMeta) -> Option<int>
    decreases sections.len(),
{
    if sections.len() == 0 {
        Option::None
    } else if sections[0].meta == meta {
        Option::Some(0)
    } else {
        match spec_find_section(sections.subrange(1, sections.len() as int), meta) {
            Option::Some(i) => Option::Some(i + 1),
            Option::None => Option::None,
        }
    }
}

/// First-match characterization of [`spec_find_genesis_input`].
pub proof fn lemma_find_genesis_input_char(inputs: Seq<SpecTxInput>, token_id: Seq<u8>)
    ensures
        match spec_find_genesis_input(inputs, token_id) {
            Option::Some(i) => 0 <= i < inputs.len() && spec_genesis_match(inputs[i], token_id)
                && forall|j: int| 0 <= j < i ==> !spec_genesis_match(inputs[j], token_id),
            Option::None => forall|j: int|
                0 <= j < inputs.len() ==> !spec_genesis_match(inputs[j], token_id),
        },
    decreases inputs.len(),
{
    if inputs.len() > 0 && !spec_genesis_match(inputs[0], token_id) {
        let rest = inputs.subrange(1, inputs.len() as int);
        lemma_find_genesis_input_char(rest, token_id);
        assert forall|j: int| 1 <= j < inputs.len() implies inputs[j] == rest[j - 1] by {}
    }
}

/// First-match characterization of [`spec_find_section`].
pub proof fn lemma_find_section_char(sections: Seq<SpecSection>, meta: SpecTokenMeta)
    ensures
        match spec_find_section(sections, meta) {
            Option::Some(i) => 0 <= i < sections.len() && sections[i].meta == meta && forall|j: int|
                0 <= j < i ==> sections[j].meta != meta,
            Option::None => forall|j: int| 0 <= j < sections.len() ==> sections[j].meta != meta,
        },
    decreases sections.len(),
{
    if sections.len() > 0 && sections[0].meta != meta {
        let rest = sections.subrange(1, sections.len() as int);
        lemma_find_section_char(rest, meta);
        assert forall|j: int| 1 <= j < sections.len() implies sections[j] == rest[j - 1] by {}
    }
}

/// Index of the first input spending output 0 of the transaction named by
/// `token_id`.
fn find_genesis_input(tx: &Tx, token_id: &TokenId) -> (r: Option<usize>)
    ensures
        match r {
            Some(k) => spec_find_genesis_input(tx@.inputs, token_id@) == Option::Some(k as int),
            None => spec_find_genesis_input(tx@.inputs, token_id@) is None,
        },
{
    proof {
        lemma_find_genesis_input_char(tx@.inputs, token_id@);
    }
    let mut i: usize = 0;
    while i < tx.inputs.len()
        invariant
            i <= tx@.inputs.len(),
            tx@.inputs.len() == tx.inputs@.len(),
            forall|j: int| 0 <= j < i ==> !spec_genesis_match(tx@.inputs[j], token_id@),
        decreases tx.inputs@.len() - i,
    {
        let input = &tx.inputs[i];
        proof {
            assert(tx@.inputs[i as int] == input@);
        }
        if input.prev_out.out_idx == 0 && bytes_eq(&input.prev_out.txid.bytes, &token_id.txid.bytes)
        {
            proof {
                assert(spec_genesis_match(tx@.inputs[i as int], token_id@));
                lemma_find_genesis_input_char(tx@.inputs, token_id@);
                match spec_find_genesis_input(tx@.inputs, token_id@) {
                    Option::Some(k) => {
                        assert(!(k < i) && !(k > i));
                    },
                    Option::None => {
                        assert(false);
                    },
                }
            }
            return Some(i);
        }
        i = i + 1;
    }
    None
}

/// Index of the first section keyed by `token_id` under the CashTokens
/// standard.
fn find_section(sections: &Vec<ColoredTxSection>, token_id: &TokenId) -> (r: Option<usize>)
    ensures
        ({
            let meta = SpecTokenMeta { token_id: token_id@, token_type: TokenType::CashTokens };
            let ss = sections@.map_values(|s: ColoredTxSection| s@);
            match r {
                Some(k) => spec_find_section(ss, meta) == Option::Some(k as int),
                None => spec_find_section(ss, meta) is None,
            }
        }),
{
    let ghost meta = SpecTokenMeta { token_id: token_id@, token_type: TokenType::CashTokens };
    let ghost ss = sections@.map_values(|s: ColoredTxSection| s@);
    let mut i: usize = 0;
    while i < sections.len()
        invariant
            i <= sections@.len(),
            ss == sections@.map_values(|s: ColoredTxSection| s@),
            meta == (SpecTokenMeta { token_id: token_id@, token_type: TokenType::CashTokens }),
            forall|j: int| 0 <= j < i ==> #[trigger] ss[j].meta != meta,
        decreases sections@.len() - i,
    {
        let section = &sections[i];
        proof {
            assert(ss[i as int] == section@);
        }
        let tt_eq = match section.meta.token_type {
            TokenType::CashTokens => true,
        };
        if tt_eq && bytes_eq(&section.meta.token_id.txid.bytes, &token_id.txid.bytes) {
            proof {
                assert(section.meta@ =~= meta);
                lemma_find_section_char(ss, meta);
                match spec_find_section(ss, meta) {
                    Option::Some(k) => {
                        assert(!(k < i) && !(k > i));
                    },
                    Option::None => {
                        assert(false);
                    },
                }
            }
            return Some(i);
        }
        proof {
            assert(ss[i as int].meta != meta);
        }
        i = i + 1;
    }
    proof {
        lemma_find_section_char(ss, meta);
    }
    None
}

/// The section key of a category under the CashTokens standard.
pub open spec fn spec_meta(token_id: Seq<u8>) -> SpecTokenMeta {
    SpecTokenMeta { token_id, token_type: TokenType::CashTokens }
}

/// The variant a decoded record yields: a non-fungible commitment when
/// `HAS_NFT` is set, else the fungible amount.
pub open spec fn spec_variant_of(p: crate::parse::SpecParsedData) -> SpecTokenVariant {
    if p.capabilities & HAS_NFT != 0 {
        SpecTokenVariant::Commitment {
            amount: p.amount,
            capabilities: p.capabilities,
            commitment: p.commitment,
        }
    } else {
        SpecTokenVariant::Amount(p.amount)
    }
}

/// One step of coloring: the effect of output `i` on the aggregate.
pub open spec fn spec_color_output(c: SpecColoredTx, tx: SpecTx, i: int) -> SpecColoredTx {
    let script = tx.outputs[i];
    match spec_parse(script) {
        SpecParseOutcome::Absent => c,
        SpecParseOutcome::Failed(e) => SpecColoredTx {
            failed_parsings: c.failed_parsings.push(
                SpecFailedParsing { pushdata_idx: Option::None, bytes: script, error: e },
            ),
            ..c
        },
        SpecParseOutcome::Parsed(p) => {
            let meta = SpecTokenMeta { token_id: p.token_id, token_type: TokenType::CashTokens };
            let genesis = spec_find_genesis_input(tx.inputs, p.token_id);
            let (sections, token_idx): (Seq<SpecSection>, int) = match spec_find_section(
                c.sections,
                meta,
            ) {
                Option::Some(idx) => (c.sections, idx),
                Option::None => (
                    c.sections.push(
                        SpecSection {
                            meta,
                            tx_type: if genesis is Some {
                                TxType::GENESIS
                            } else {
                                TxType::SEND
                            },
                            required_input_sum: 0,
                            has_colored_out_of_range: false,
                            genesis_info: match genesis {
                                Option::Some(k) => Some(
                                    SpecGenesisInfo { pregenesis_input_idx: Some(k) },
                                ),
                                Option::None => None,
                            },
                        },
                    ),
                    c.sections.len() as int,
                ),
            };
            SpecColoredTx {
                sections,
                outputs: c.outputs.update(
                    i,
                    Some(SpecTokenOutput { token_idx, variant: spec_variant_of(p) }),
                ),
                failed_parsings: c.failed_parsings,
            }
        },
    }
}

/// The aggregate after coloring outputs `0 .. n`, starting from `c`.
pub open spec fn spec_color_upto(c: SpecColoredTx, tx: SpecTx, n: int) -> SpecColoredTx
    decreases n,
{
    if n <= 0 {
        c
    } else {
        spec_color_output(spec_color_upto(c, tx, n - 1), tx, n - 1)
    }
}

/// No two sections share a key.
pub open spec fn spec_sections_distinct(ss: Seq<SpecSection>) -> bool {
    forall|a: int, b: int| 0 <= a < b < ss.len() ==> ss[a].meta != ss[b].meta
}

/// The shape of every section this engine creates: CashTokens key, aggregate
/// fields zeroed, and type and genesis evidence read off the inputs.
pub open spec fn spec_section_fresh(s: SpecSection, tx: SpecTx) -> bool {
    &&& s.meta.token_type == TokenType::CashTokens
    &&& s.required_input_sum == 0
    &&& !s.has_colored_out_of_range
    &&& match spec_find_genesis_input(tx.inputs, s.meta.token_id) {
        Option::Some(k) => s.tx_type == TxType::GENESIS && s.genesis_info == Some(
            SpecGenesisInfo { pregenesis_input_idx: Some(k) },
        ),
        Option::None => s.tx_type == TxType::SEND && s.genesis_info is None,
    }
}

/// Coloring only appends sections: what was there stays at its index; every
/// appended section is fresh; distinct keys stay distinct; the output list
/// keeps its length.
pub proof fn lemma_color_upto_frame(init: SpecColoredTx, tx: SpecTx, n: int)
    requires
        0 <= n <= tx.outputs.len(),
        init.outputs.len() == tx.outputs.len(),
    ensures
        ({
            let c = spec_color_upto(init, tx, n);
            &&& c.outputs.len() == init.outputs.len()
            &&& init.sections.len() <= c.sections.len()
            &&& forall|k: int|
                0 <= k < init.sections.len() ==> c.sections[k] == init.sections[k]
            &&& forall|k: int|
                init.sections.len() <= k < c.sections.len() ==> spec_section_fresh(
                    #[trigger] c.sections[k],
                    tx,
                )
            &&& (spec_sections_distinct(init.sections) ==> spec_sections_distinct(c.sections))
        }),
    decreases n,
{
    if n > 0 {
        lemma_color_upto_frame(init, tx, n - 1);
        let c0 = spec_color_upto(init, tx, n - 1);
        let c = spec_color_output(c0, tx, n - 1);
        match spec_parse(tx.outputs[n - 1]) {
            SpecParseOutcome::Absent => {},
            SpecParseOutcome::Failed(_) => {},
            SpecParseOutcome::Parsed(p) => {
                let meta = SpecTokenMeta {
                    token_id: p.token_id,
                    token_type: TokenType::CashTokens,
                };
                lemma_find_section_char(c0.sections, meta);
                match spec_find_section(c0.sections, meta) {
                    Option::Some(_) => {},
                    Option::None => {
                        assert(c.sections.len() == c0.sections.len() + 1);
                        assert(spec_section_fresh(c.sections[c0.sections.len() as int], tx));
                        if spec_sections_distinct(init.sections) {
                            assert forall|a: int, b: int|
                                0 <= a < b < c.sections.len() implies c.sections[a].meta
                                != c.sections[b].meta by {
                                if b == c0.sections.len() {
                                    assert(c0.sections[a].meta != meta);
                                }
                            }
                        }
                    },
                }
            },
        }
    }
}

/// An output whose prefix decodes is assigned: its slot points at a section
/// keyed by its category, and carries its variant.
pub proof fn lemma_color_upto_assign(init: SpecColoredTx, tx: SpecTx, n: int, i: int)
    requires
        init.outputs.len() == tx.outputs.len(),
        0 <= i < n <= tx.outputs.len(),
        spec_parse(tx.outputs[i]) is Parsed,
    ensures
        ({
            let c = spec_color_upto(init, tx, n);
            spec_parse(tx.outputs[i]) matches SpecParseOutcome::Parsed(p) && ({
                let o = c.outputs[i]->Some_0;
                c.outputs[i] is Some && 0 <= o.token_idx && o.token_idx < c.sections.len()
                    && c.sections[o.token_idx].meta == spec_meta(p.token_id) && o.variant
                    == spec_variant_of(p)
            })
        }),
    decreases n,
{
    lemma_color_upto_frame(init, tx, n - 1);
    let c0 = spec_color_upto(init, tx, n - 1);
    let c = spec_color_output(c0, tx, n - 1);
    if n - 1 == i {
        match spec_parse(tx.outputs[i]) {
            SpecParseOutcome::Parsed(p) => {
                let meta = SpecTokenMeta {
                    token_id: p.token_id,
                    token_type: TokenType::CashTokens,
                };
                lemma_find_section_char(c0.sections, meta);
                assert(c.outputs[i] is Some);
            },
            _ => {
                assert(false);
            },
        }
    } else {
        lemma_color_upto_assign(init, tx, n - 1, i);
        match spec_parse(tx.outputs[n - 1]) {
            SpecParseOutcome::Absent => {},
            SpecParseOutcome::Failed(_) => {},
            SpecParseOutcome::Parsed(q) => {
                assert(c.outputs[i] == c0.outputs[i]);
            },
        }
    }
}

/// Coloring groups by category: two outputs that decode to the same category
/// id are assigned the same section index, whatever their order.
pub proof fn lemma_color_groups_by_category(init: SpecColoredTx, tx: SpecTx, i: int, j: int)
    requires
        spec_sections_distinct(init.sections),
        init.outputs.len() == tx.outputs.len(),
        0 <= i < tx.outputs.len(),
        0 <= j < tx.outputs.len(),
        spec_parse(tx.outputs[i]) matches SpecParseOutcome::Parsed(p) && spec_parse(
            tx.outputs[j],
        ) matches SpecParseOutcome::Parsed(q) && p.token_id == q.token_id,
    ensures
        ({
            let c = spec_color_upto(init, tx, tx.outputs.len() as int);
            c.outputs[i] matches Some(oi) && c.outputs[j] matches Some(oj) && oi.token_idx
                == oj.token_idx
        }),
{
    let n = tx.outputs.len() as int;
    lemma_color_upto_frame(init, tx, n);
    lemma_color_upto_assign(init, tx, n, i);
    lemma_color_upto_assign(init, tx, n, j);
    let c = spec_color_upto(init, tx, n);
    let oi = c.outputs[i]->Some_0;
    let oj = c.outputs[j]->Some_0;
    if oi.token_idx < oj.token_idx {
        assert(c.sections[oi.token_idx].meta != c.sections[oj.token_idx].meta);
    } else if oj.token_idx < oi.token_idx {
        assert(c.sections[oj.token_idx].meta != c.sections[oi.token_idx].meta);
    }
}

/// Genesis detection: a category first seen in this transaction gets a
/// `GENESIS` section recording the first input that spends output 0 of the
/// category's transaction, when such an input exists; otherwise a `SEND`
/// section without genesis evidence.
pub proof fn lemma_color_genesis_detection(init: SpecColoredTx, tx: SpecTx, i: int)
    requires
        init.outputs.len() == tx.outputs.len(),
        0 <= i < tx.outputs.len(),
        spec_parse(tx.outputs[i]) matches SpecParseOutcome::Parsed(p) && spec_find_section(
            init.sections,
            SpecTokenMeta { token_id: p.token_id, token_type: TokenType::CashTokens },
        ) is None,
    ensures
        ({
            let c = spec_color_upto(init, tx, tx.outputs.len() as int);
            spec_parse(tx.outputs[i]) matches SpecParseOutcome::Parsed(p) && ({
                let o = c.outputs[i]->Some_0;
                c.outputs[i] is Some && match spec_find_genesis_input(tx.inputs, p.token_id) {
                    Option::Some(k) => c.sections[o.token_idx].tx_type == TxType::GENESIS
                        && c.sections[o.token_idx].genesis_info == Some(
                        SpecGenesisInfo { pregenesis_input_idx: Some(k) },
                    ),
                    Option::None => c.sections[o.token_idx].tx_type == TxType::SEND
                        && c.sections[o.token_idx].genesis_info is None,
                }
            })
        }),
{
    let n = tx.outputs.len() as int;
    lemma_color_upto_frame(init, tx, n);
    lemma_color_upto_assign(init, tx, n, i);
    let c = spec_color_upto(init, tx, n);
    let p = spec_parse(tx.outputs[i])->Parsed_0;
    let meta = SpecTokenMeta { token_id: p.token_id, token_type: TokenType::CashTokens };
    let o = c.outputs[i]->Some_0;
    lemma_find_section_char(init.sections, meta);
    if o.token_idx < init.sections.len() {
        assert(init.sections[o.token_idx].meta != meta);
        assert(false);
    }
    assert(spec_section_fresh(c.sections[o.token_idx], tx));
}

/// Colors the transaction's outputs in output order: each decoded prefix
/// lands in its category's section — created on first sight — and yields one
/// assignment; each malformed prefix is logged; outputs without a prefix are
/// skipped.  The whole effect equals [`spec_color_upto`] over all outputs.
pub fn color(colored_tx: &mut ColoredTx, tx: &Tx)
    requires
        old(colored_tx)@.outputs.len() == tx@.outputs.len(),
    ensures
        final(colored_tx)@ == spec_color_upto(old(colored_tx)@, tx@, tx@.outputs.len() as int),
{
    let ghost init = colored_tx@;
    let mut out_idx: usize = 0;
    while out_idx < tx.outputs.len()
        invariant
            out_idx <= tx@.outputs.len(),
            tx@.outputs.len() == tx.outputs@.len(),
            init.outputs.len() == tx@.outputs.len(),
            colored_tx@ == spec_color_upto(init, tx@, out_idx as int),
            colored_tx@.outputs.len() == tx@.outputs.len(),
        decreases tx.outputs@.len() - out_idx,
    {
        let ghost pre = colored_tx@;
        let script = &tx.outputs[out_idx].script;
        proof {
            assert(tx@.outputs[out_idx as int] == script@);
        }
        match parse_script(script) {
            Ok(None) => {
                proof {
                    assert(colored_tx@ =~~= spec_color_output(pre, tx@, out_idx as int));
                }
            },
            Err(err) => {
                let bytes = copy_range(script, 0, script.len());
                proof {
                    assert(bytes@ =~= script@);
                }
                colored_tx.failed_parsings.push(
                    FailedParsing { pushdata_idx: None, bytes, error: err },
                );
                proof {
                    assert(colored_tx@ =~~= spec_color_output(pre, tx@, out_idx as int));
                }
            },
            Ok(Some(parsed)) => {
                let genesis_idx = find_genesis_input(tx, &parsed.token_id);
                let token_idx: usize = match find_section(&colored_tx.sections, &parsed.token_id) {
                    Some(idx) => idx,
                    None => {
                        let idx = colored_tx.sections.len();
                        colored_tx.sections.push(
                            ColoredTxSection {
                                meta: TokenMeta {
                                    token_id: parsed.token_id,
                                    token_type: TokenType::CashTokens,
                                },
                                tx_type: if genesis_idx.is_some() {
                                    TxType::GENESIS
                                } else {
                                    TxType::SEND
                                },
                                required_input_sum: 0,
                                has_colored_out_of_range: false,
                                genesis_info: match genesis_idx {
                                    Some(k) => Some(
                                        GenesisInfo { pregenesis_input_idx: Some(k) },
                                    ),
                                    None => None,
                                },
                            },
                        );
                        idx
                    },
                };
                let variant = if parsed.capabilities.has_nft() {
                    TokenVariant::Commitment(
                        TokenCommitment {
                            amount: parsed.amount,
                            capabilities: parsed.capabilities.bits,
                            commitment: parsed.commitment,
                        },
                    )
                } else {
                    TokenVariant::Amount(parsed.amount)
                };
                colored_tx.outputs[out_idx] = Some(TokenOutput { token_idx, variant });
                proof {
                    assert(colored_tx@ =~~= spec_color_output(pre, tx@, out_idx as int));
                }
            },
        }
        proof {
            assert(spec_color_upto(init, tx@, out_idx + 1) == spec_color_output(
                spec_color_upto(init, tx@, out_idx as int),
                tx@,
                out_idx as int,
            ));
        }
        out_idx = out_idx + 1;
    }
}

} // verus!
