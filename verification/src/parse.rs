//! Codec for the token-metadata prefix of a locking script: marker byte,
//! 32-byte category id, capability flags, optional length-prefixed
//! commitment, optional amount, then the residual locking script.

use vstd::prelude::*;

use crate::compact_size::{cs_decode, cs_encode, lemma_cs_decode_encode, lemma_cs_encode_len,
    read_compact_size};
use crate::tx::{copy_range, SpecTx, TokenId, Tx, TxId};

verus! {

/// Marker byte that opens a token-metadata prefix.
pub const PREFIX_TOKEN: u8 = 0xef;

/// Flag bit: the non-fungible token may be mutated.
pub const NFT_MUTABLE: u8 = 0x01;

/// Flag bit: the non-fungible token may mint others.
pub const NFT_MINTING: u8 = 0x02;

/// Flag bit: a fungible amount follows.
pub const HAS_AMOUNT: u8 = 0x10;

/// Flag bit: the output carries a non-fungible token.
pub const HAS_NFT: u8 = 0x20;

/// Flag bit: a length-prefixed commitment follows.
pub const HAS_COMMITMENT_LENGTH: u8 = 0x40;

/// The five recognized flag bits together.
pub const ALL_FLAGS: u8 = NFT_MUTABLE | NFT_MINTING | HAS_AMOUNT | HAS_NFT | HAS_COMMITMENT_LENGTH;

/// Every set bit of `b` is one of the five recognized flags.
pub open spec fn flags_recognized(b: u8) -> bool {
    b & ALL_FLAGS == b
}

/// The mutually exclusive mutable and minting bits are not both set.
pub open spec fn flags_exclusive(b: u8) -> bool {
    !(b & NFT_MUTABLE != 0 && b & NFT_MINTING != 0)
}

/// A capability byte the codec accepts: recognized bits only, and not both
/// mutable and minting.
pub open spec fn flags_valid(b: u8) -> bool {
    flags_recognized(b) && flags_exclusive(b)
}

/// The capability flag set of one token output.
#[derive(Clone, Copy, Debug, PartialEq, Eq, Structural)]
pub struct CapabilityFlags {
    pub bits: u8,
}

impl CapabilityFlags {
    /// The byte admits no bit outside the five recognized flags.
    pub fn from_bits(bits: u8) -> (r: Option<CapabilityFlags>)
        ensures
            match r {
                Some(f) => flags_recognized(bits) && f.bits == bits,
                None => !flags_recognized(bits),
            },
    {
        if bits & ALL_FLAGS == bits {
            Some(CapabilityFlags { bits })
        } else {
            None
        }
    }

    pub open spec fn valid(self) -> bool {
        flags_valid(self.bits)
    }

    pub fn is_mutable(&self) -> (r: bool)
        ensures
            r == (self.bits & NFT_MUTABLE != 0),
    {
        self.bits & NFT_MUTABLE != 0
    }

    pub fn is_minting(&self) -> (r: bool)
        ensures
            r == (self.bits & NFT_MINTING != 0),
    {
        self.bits & NFT_MINTING != 0
    }

    pub fn has_amount(&self) -> (r: bool)
        ensures
            r == (self.bits & HAS_AMOUNT != 0),
    {
        self.bits & HAS_AMOUNT != 0
    }

    pub fn has_nft(&self) -> (r: bool)
        ensures
            r == (self.bits & HAS_NFT != 0),
    {
        self.bits & HAS_NFT != 0
    }

    pub fn has_commitment_length(&self) -> (r: bool)
        ensures
            r == (self.bits & HAS_COMMITMENT_LENGTH != 0),
    {
        self.bits & HAS_COMMITMENT_LENGTH != 0
    }
}

/// Why a token prefix failed to decode.
#[derive(Clone, Debug, PartialEq, Eq, Structural)]
pub enum ParseError {
    /// Fewer than 32 bytes remained for the category id.
    MissingCategory,
    /// No byte remained for the capability flags.
    MissingCapabilities,
    /// The capability byte has an unrecognized bit set, or both the mutable
    /// and the minting bit.
    InvalidCapabilities(u8),
    /// The commitment length prefix failed to decode.
    InvalidCommitmentLength,
    /// Fewer bytes remained than the declared commitment length.
    InvalidCommitment(u64),
    /// The amount failed to decode.
    InvalidAmount,
}

/// The decoded token prefix of one output.
#[derive(Clone, Debug)]
pub struct ParsedData {
    /// Category id of the token.
    pub token_id: TokenId,
    /// Capability flags of the token.
    pub capabilities: CapabilityFlags,
    /// Commitment payload; empty unless `HAS_COMMITMENT_LENGTH` is set.
    pub commitment: Vec<u8>,
    /// Fungible amount; zero unless `HAS_AMOUNT` is set.
    pub amount: u64,
    /// The residual locking script after the token prefix.
    pub script: Vec<u8>,
}

/// Mathematical image of a decoded token prefix.
#[verifier::ext_equal]
pub struct SpecParsedData {
    pub token_id: Seq<u8>,
    pub capabilities: u8,
    pub commitment: Seq<u8>,
    pub amount: u64,
    pub script: Seq<u8>,
}

impl View for ParsedData {
    type V = SpecParsedData;

    open spec fn view(&self) -> SpecParsedData {
        SpecParsedData {
            token_id: self.token_id@,
            capabilities: self.capabilities.bits,
            commitment: self.commitment@,
            amount: self.amount,
            script: self.script@,
        }
    }
}

impl ParsedData {
    pub open spec fn wf(&self) -> bool {
        spec_parsed_wf(self@)
    }
}

/// The invariant of every decoded record: 32-byte category id, valid flags,
/// no commitment without its flag, no amount without its flag.
pub open spec fn spec_parsed_wf(d: SpecParsedData) -> bool {
    &&& d.token_id.len() == 32
    &&& flags_valid(d.capabilities)
    &&& (d.capabilities & HAS_COMMITMENT_LENGTH == 0 ==> d.commitment.len() == 0)
    &&& (d.capabilities & HAS_AMOUNT == 0 ==> d.amount == 0)
}

/// What a script's leading bytes say: no token prefix at all, a malformed
/// prefix with its error, or a decoded record.
#[verifier::ext_equal]
pub enum SpecParseOutcome {
    Absent,
    Failed(ParseError),
    Parsed(SpecParsedData),
}

/// Amount field and residual script, after marker, category id, capability
/// byte and commitment have been consumed up to `pos`.
pub open spec fn spec_parse_tail(
    s: Seq<u8>,
    token_id: Seq<u8>,
    cap: u8,
    commitment: Seq<u8>,
    pos: int,
) -> SpecParseOutcome {
    if cap & HAS_AMOUNT != 0 {
        match cs_decode(s, pos) {
            Option::None => SpecParseOutcome::Failed(ParseError::InvalidAmount),
            Option::Some((amount, end)) => SpecParseOutcome::Parsed(
                SpecParsedData {
                    token_id,
                    capabilities: cap,
                    commitment,
                    amount,
                    script: s.subrange(end, s.len() as int),
                },
            ),
        }
    } else {
        SpecParseOutcome::Parsed(
            SpecParsedData {
                token_id,
                capabilities: cap,
                commitment,
                amount: 0,
                script: s.subrange(pos, s.len() as int),
            },
        )
    }
}

/// The token prefix of a script, read byte-exactly left to right: marker,
/// 32-byte category id, capability byte, optional length-prefixed
/// commitment, optional amount.  Fails fast at the first malformed field.
pub open spec fn spec_parse(s: Seq<u8>) -> SpecParseOutcome {
    if s.len() == 0 || s[0] != PREFIX_TOKEN {
        SpecParseOutcome::Absent
    } else if s.len() < 33 {
        SpecParseOutcome::Failed(ParseError::MissingCategory)
    } else if s.len() < 34 {
        SpecParseOutcome::Failed(ParseError::MissingCapabilities)
    } else {
        let token_id = s.subrange(1, 33);
        let cap = s[33];
        if !flags_valid(cap) {
            SpecParseOutcome::Failed(ParseError::InvalidCapabilities(cap))
        } else if cap & HAS_COMMITMENT_LENGTH != 0 {
            match cs_decode(s, 34) {
                Option::None => SpecParseOutcome::Failed(ParseError::InvalidCommitmentLength),
                Option::Some((length, end)) => {
                    if s.len() - end < length as int {
                        SpecParseOutcome::Failed(ParseError::InvalidCommitment(length))
                    } else {
                        spec_parse_tail(
                            s,
                            token_id,
                            cap,
                            s.subrange(end, end + length as int),
                            end + length as int,
                        )
                    }
                },
            }
        } else {
            spec_parse_tail(s, token_id, cap, Seq::empty(), 34)
        }
    }
}

/// A script opens with the token marker byte.
pub open spec fn spec_has_token_prefix(s: Seq<u8>) -> bool {
    s.len() > 0 && s[0] == PREFIX_TOKEN
}

/// Some output's script opens with the token marker byte.
pub open spec fn spec_has_any_prefix_token(tx: SpecTx) -> bool {
    exists|i: int| 0 <= i < tx.outputs.len() && spec_has_token_prefix(tx.outputs[i])
}

/// Whether any output's script opens with the token marker byte.
pub fn has_any_prefix_token(tx: &Tx) -> (r: bool)
    ensures
        r == spec_has_any_prefix_token(tx@),
{
    let mut i: usize = 0;
    while i < tx.outputs.len()
        invariant
            i <= tx.outputs@.len(),
            forall|j: int| 0 <= j < i ==> !spec_has_token_prefix(tx@.outputs[j]),
        decreases tx.outputs@.len() - i,
    {
        let script = &tx.outputs[i].script;
        proof {
            assert(tx@.outputs[i as int] == script@);
        }
        if script.len() > 0 && script[0] == PREFIX_TOKEN {
            return true;
        }
        i = i + 1;
    }
    false
}

/// A script that does not open with the marker byte — the empty script
/// included — is absent token data, never an error.
pub proof fn lemma_parse_absent(s: Seq<u8>)
    requires
        s.len() == 0 || s[0] != PREFIX_TOKEN,
    ensures
        spec_parse(s) is Absent,
{
}

/// A script that opens with the marker byte never counts as absent, and when
/// it decodes, the residual script is the original bytes with the consumed
/// prefix removed.
pub proof fn lemma_parse_prefixed(s: Seq<u8>)
    requires
        spec_has_token_prefix(s),
    ensures
        !(spec_parse(s) is Absent),
        spec_parse(s) matches SpecParseOutcome::Parsed(d) ==> d.script.len() <= s.len() - 34
            && d.script == s.subrange(s.len() - d.script.len(), s.len() as int),
{
}

/// Strict whitelist on the capability byte: any of the three unassigned bits
/// rejects it, both the mutable and the minting bit together reject it, and
/// every other byte is accepted.
pub proof fn lemma_capability_validation(b: u8)
    by (bit_vector)
    ensures
        b & 0x04 != 0 || b & 0x08 != 0 || b & 0x80 != 0 ==> !flags_valid(b),
        b & 0x01 != 0 && b & 0x02 != 0 ==> !flags_valid(b),
        (b & 0x04 == 0 && b & 0x08 == 0 && b & 0x80 == 0 && !(b & 0x01 != 0 && b & 0x02 != 0))
            ==> flags_valid(b),
{
}

/// The wire form of a decoded record: marker, category id, capability byte,
/// the commitment behind its length prefix when its flag is set, the amount
/// when its flag is set, then the residual script.
pub open spec fn spec_encode(d: SpecParsedData) -> Seq<u8> {
    seq![PREFIX_TOKEN] + d.token_id + seq![d.capabilities] + (
    if d.capabilities & HAS_COMMITMENT_LENGTH != 0 {
        cs_encode(d.commitment.len() as u64) + d.commitment
    } else {
        Seq::empty()
    }) + (
    if d.capabilities & HAS_AMOUNT != 0 {
        cs_encode(d.amount)
    } else {
        Seq::empty()
    }) + d.script
}

proof fn lemma_concat_segment(pre: Seq<u8>, seg: Seq<u8>, post: Seq<u8>, s: Seq<u8>)
    requires
        s == pre + seg + post,
    ensures
        s.subrange(pre.len() as int, pre.len() + seg.len() as int) == seg,
{
    assert(s.subrange(pre.len() as int, pre.len() + seg.len() as int) =~= seg);
}

/// Round trip: encoding a well-formed record and parsing the result yields
/// the record again.
pub proof fn lemma_parse_encode_round_trip(d: SpecParsedData)
    requires
        spec_parsed_wf(d),
        d.commitment.len() <= u64::MAX,
    ensures
        spec_parse(spec_encode(d)) == SpecParseOutcome::Parsed(d),
{
    let s = spec_encode(d);
    let hcl = d.capabilities & HAS_COMMITMENT_LENGTH != 0;
    let ha = d.capabilities & HAS_AMOUNT != 0;
    let cl64 = d.commitment.len() as u64;
    let head = seq![PREFIX_TOKEN] + d.token_id + seq![d.capabilities];
    let cpart = if hcl {
        cs_encode(cl64) + d.commitment
    } else {
        Seq::<u8>::empty()
    };
    let apart = if ha {
        cs_encode(d.amount)
    } else {
        Seq::<u8>::empty()
    };
    lemma_cs_encode_len(cl64);
    lemma_cs_encode_len(d.amount);
    assert(head.len() == 34);
    assert(s == head + cpart + apart + d.script);
    assert(s.len() == 34 + cpart.len() + apart.len() + d.script.len());
    assert(s[0] == PREFIX_TOKEN);
    assert(s.subrange(1, 33) == d.token_id) by {
        assert(s =~= seq![PREFIX_TOKEN] + d.token_id + (seq![d.capabilities] + cpart + apart
            + d.script));
        lemma_concat_segment(seq![PREFIX_TOKEN], d.token_id, seq![d.capabilities] + cpart + apart
            + d.script, s);
    }
    assert(s[33] == d.capabilities) by {
        assert(s[33] == (head + cpart + apart + d.script)[33]);
        assert(head[33] == seq![d.capabilities][0]);
    }
    let cend: int = if hcl {
        34 + cpart.len() as int
    } else {
        34
    };
    if hcl {
        assert(s.subrange(34, 34 + cs_encode(cl64).len() as int) == cs_encode(cl64)) by {
            assert(s =~= head + cs_encode(cl64) + (d.commitment + apart + d.script));
            lemma_concat_segment(head, cs_encode(cl64), d.commitment + apart + d.script, s);
        }
        lemma_cs_decode_encode(s, 34, cl64);
        let mid = 34 + cs_encode(cl64).len() as int;
        assert(cs_decode(s, 34) == Option::Some((cl64, mid)));
        assert(s.len() - mid >= cl64 as int);
        assert(s.subrange(mid, mid + cl64 as int) == d.commitment) by {
            assert(s =~= (head + cs_encode(cl64)) + d.commitment + (apart + d.script));
            lemma_concat_segment(head + cs_encode(cl64), d.commitment, apart + d.script, s);
        }
        assert(cend == mid + cl64 as int);
    }
    if ha {
        assert(s.subrange(cend, cend + cs_encode(d.amount).len() as int) == cs_encode(d.amount))
            by {
            assert(s =~= (head + cpart) + cs_encode(d.amount) + d.script);
            lemma_concat_segment(head + cpart, cs_encode(d.amount), d.script, s);
            assert((head + cpart).len() == cend);
        }
        lemma_cs_decode_encode(s, cend, d.amount);
        let aend = cend + cs_encode(d.amount).len() as int;
        assert(s.subrange(aend, s.len() as int) == d.script) by {
            assert(s =~= (head + cpart + apart) + d.script + Seq::<u8>::empty());
            lemma_concat_segment(head + cpart + apart, d.script, Seq::<u8>::empty(), s);
            assert((head + cpart + apart).len() == aend);
        }
    } else {
        assert(s.subrange(cend, s.len() as int) == d.script) by {
            assert(s =~= (head + cpart) + d.script + Seq::<u8>::empty());
            lemma_concat_segment(head + cpart, d.script, Seq::<u8>::empty(), s);
            assert((head + cpart).len() == cend);
        }
    }
    assert(spec_parse(s) matches SpecParseOutcome::Parsed(p) && p =~= d);
}

/// Decodes the token prefix of `script`.  `Ok(None)` when the script does
/// not open with the marker byte; the result follows [`spec_parse`] exactly.
pub fn parse_script(script: &Vec<u8>) -> (r: Result<Option<ParsedData>, ParseError>)
    ensures
        match r {
            Ok(None) => spec_parse(script@) is Absent,
            Ok(Some(d)) => spec_parse(script@) == SpecParseOutcome::Parsed(d@) && d.wf(),
            Err(e) => spec_parse(script@) == SpecParseOutcome::Failed(e),
        },
{
    if script.len() == 0 || script[0] != PREFIX_TOKEN {
        return Ok(None);
    }
    if script.len() < 33 {
        return Err(ParseError::MissingCategory);
    }
    let token_bytes = copy_range(script, 1, 33);
    if script.len() < 34 {
        return Err(ParseError::MissingCapabilities);
    }
    let cap_byte = script[33];
    let capabilities = match CapabilityFlags::from_bits(cap_byte) {
        Some(c) => c,
        None => {
            return Err(ParseError::InvalidCapabilities(cap_byte));
        },
    };
    if capabilities.is_mutable() && capabilities.is_minting() {
        return Err(ParseError::InvalidCapabilities(cap_byte));
    }
    let mut pos: usize = 34;
    let mut commitment: Vec<u8> = Vec::new();
    if capabilities.has_commitment_length() {
        let (length, end) = match read_compact_size(script, pos) {
            Some(p) => p,
            None => {
                return Err(ParseError::InvalidCommitmentLength);
            },
        };
        if length > (script.len() - end) as u64 {
            return Err(ParseError::InvalidCommitment(length));
        }
        let length_usize = length as usize;
        commitment = copy_range(script, end, end + length_usize);
        pos = end + length_usize;
    }
    let mut amount: u64 = 0;
    if capabilities.has_amount() {
        let (a, end) = match read_compact_size(script, pos) {
            Some(p) => p,
            None => {
                return Err(ParseError::InvalidAmount);
            },
        };
        amount = a;
        pos = end;
    }
    let residual = copy_range(script, pos, script.len());
    let parsed = ParsedData {
        token_id: TokenId { txid: TxId { bytes: token_bytes } },
        capabilities,
        commitment,
        amount,
        script: residual,
    };
    Ok(Some(parsed))
}

} // verus!
