//! The wire codec of the proof artifact model.
//!
//! Every artifact serializes to a canonical JSON text: fields in declaration
//! order, byte blobs as standard base64 strings, hashes as 0x-prefixed hex,
//! and an embedded base proof contributing its fields directly at the
//! parent's level (no nested object). The spec functions here write that text
//! down exactly; encoders are proved to emit it and decoders to accept
//! exactly it.
use vstd::prelude::*;

use crate::DecodeError;
use crate::artifacts::{
    BatchProof, BatchProofView, BundleProof, ChunkInfo, ChunkInfoView, ChunkProof, ChunkProofView,
    Proof, ProofView, SubCircuitRowUsage,
};
use crate::artifacts::RowUsageView;
use crate::schema::ProveRequest;
use crate::b64::{b64_decode, b64_encode, b64_of, b64_text_ok, is_b64_char};
use crate::text::{
    dec_of, hex_of, u64_dec, append_hex, append_escaped, find_char_from, json_escaped,
    lemma_join_at, valid_hex32, valid_dec, valid_jstr, lemma_split_at, parse_jstr, starts_with_at,
};

verus! {

/// The canonical JSON text of an optional build identifier: `null` or the
/// quoted, escaped string.
pub open spec fn git_json(g: Option<Seq<char>>) -> Seq<char> {
    match g {
        None => "null"@,
        Some(s) => "\""@ + json_escaped(s) + "\""@,
    }
}

/// The field list a base proof contributes to its carrier's JSON object:
/// `proof`, `instances`, `vk` and `git_version` as sibling keys, without a
/// surrounding object of their own.
pub open spec fn proof_fields_json(p: ProofView) -> Seq<char> {
    "\"proof\":\""@ + b64_of(p.proof) + "\",\"instances\":\""@ + b64_of(p.instances)
        + "\",\"vk\":\""@ + b64_of(p.vk) + "\",\"git_version\":"@ + git_json(p.git_version)
}

/// The base64 texts of a proof's blobs stay in the base64 alphabet: this
/// pins where each base64 field of the canonical text ends.
pub open spec fn proof_wire_ok(p: ProofView) -> bool {
    &&& b64_text_ok(p.proof)
    &&& b64_text_ok(p.instances)
    &&& b64_text_ok(p.vk)
}

/// The canonical JSON text of a stand-alone base proof.
pub open spec fn proof_json(p: ProofView) -> Seq<char> {
    "{"@ + proof_fields_json(p) + "}"@
}

/// The canonical JSON text of a boolean.
pub open spec fn bool_json(b: bool) -> Seq<char> {
    if b {
        "true"@
    } else {
        "false"@
    }
}

/// The canonical JSON text of chunk metadata.
pub open spec fn chunk_info_json(c: ChunkInfoView) -> Seq<char> {
    "{\"chain_id\":"@ + dec_of(c.chain_id as nat) + ",\"prev_state_root\":\"0x"@ + hex_of(
        c.prev_state_root,
    ) + "\",\"post_state_root\":\"0x"@ + hex_of(c.post_state_root) + "\",\"withdraw_root\":\"0x"@
        + hex_of(c.withdraw_root) + "\",\"data_hash\":\"0x"@ + hex_of(c.data_hash)
        + "\",\"tx_bytes\":\""@ + b64_of(c.tx_bytes) + "\",\"is_padding\":"@ + bool_json(
        c.is_padding,
    ) + "}"@
}

/// The canonical JSON text of one sub-circuit row usage entry.
pub open spec fn row_usage_json(u: RowUsageView) -> Seq<char> {
    "{\"name\":\""@ + json_escaped(u.name) + "\",\"row_number\":"@ + dec_of(u.row_number) + "}"@
}

/// The comma-separated items of a row usage list.
pub open spec fn row_items_json(rs: Seq<RowUsageView>) -> Seq<char>
    decreases rs.len(),
{
    if rs.len() == 0 {
        Seq::empty()
    } else if rs.len() == 1 {
        row_usage_json(rs[0])
    } else {
        row_items_json(rs.drop_last()) + ","@ + row_usage_json(rs.last())
    }
}

/// The canonical JSON text of a row usage list.
pub open spec fn row_usages_json(rs: Seq<RowUsageView>) -> Seq<char> {
    "["@ + row_items_json(rs) + "]"@
}

/// The canonical JSON text of a chunk proof: its own `protocol`, the embedded
/// base proof's fields flattened beside it, then `chunk_info` and
/// `row_usages`.
pub open spec fn chunk_proof_json(cp: ChunkProofView) -> Seq<char> {
    "{\"protocol\":\""@ + b64_of(cp.protocol) + "\","@ + proof_fields_json(cp.proof)
        + ",\"chunk_info\":"@ + chunk_info_json(cp.chunk_info) + ",\"row_usages\":"@
        + row_usages_json(cp.row_usages) + "}"@
}

/// The canonical JSON text of a batch proof: `protocol`, the embedded base
/// proof's fields flattened beside it, then `batch_hash`.
pub open spec fn batch_proof_json(bp: BatchProofView) -> Seq<char> {
    "{\"protocol\":\""@ + b64_of(bp.protocol) + "\","@ + proof_fields_json(bp.proof)
        + ",\"batch_hash\":\"0x"@ + hex_of(bp.batch_hash) + "\"}"@
}

/// Appends the base64 text of `b` to `out`.
fn append_b64(out: &mut String, b: &Vec<u8>)
    ensures
        final(out)@ == old(out)@ + b64_of(b@),
        b64_text_ok(b@),
{
    let enc = b64_encode(b.as_slice());
    out.append(enc.as_str());
}

/// Appends the flattened field list of a base proof to `out`. Total: every
/// build identifier is carried, escaped as JSON requires.
fn append_proof_fields(out: &mut String, p: &Proof)
    ensures
        final(out)@ == old(out)@ + proof_fields_json(p@),
        proof_wire_ok(p@),
{
    out.append("\"proof\":\"");
    append_b64(out, &p.proof);
    out.append("\",\"instances\":\"");
    append_b64(out, &p.instances);
    out.append("\",\"vk\":\"");
    append_b64(out, &p.vk);
    out.append("\",\"git_version\":");
    match &p.git_version {
        None => out.append("null"),
        Some(g) => {
            out.append("\"");
            append_escaped(out, g.as_str());
            out.append("\"");
        },
    }
    proof {
        assert(out@ =~= old(out)@ + proof_fields_json(p@));
    }
}

impl Proof {
    /// Serializes this proof to its canonical JSON text. Total: every proof
    /// has a wire form, with the build identifier escaped as JSON requires.
    pub fn to_json(&self) -> (r: String)
        ensures
            r@ == proof_json(self@),
            proof_wire_ok(self@),
    {
        let mut out = String::new();
        out.append("{");
        append_proof_fields(&mut out, self);
        out.append("}");
        proof {
            assert(out@ =~= proof_json(self@));
        }
        out
    }
}

/// Appends the canonical JSON text of chunk metadata to `out`.
fn append_chunk_info(out: &mut String, c: &ChunkInfo)
    ensures
        final(out)@ == old(out)@ + chunk_info_json(c@),
        b64_text_ok(c@.tx_bytes),
{
    out.append("{\"chain_id\":");
    let chain = u64_dec(c.chain_id);
    out.append(chain.as_str());
    out.append(",\"prev_state_root\":\"0x");
    append_hex(out, &c.prev_state_root.bytes);
    out.append("\",\"post_state_root\":\"0x");
    append_hex(out, &c.post_state_root.bytes);
    out.append("\",\"withdraw_root\":\"0x");
    append_hex(out, &c.withdraw_root.bytes);
    out.append("\",\"data_hash\":\"0x");
    append_hex(out, &c.data_hash.bytes);
    out.append("\",\"tx_bytes\":\"");
    append_b64(out, &c.tx_bytes);
    out.append("\",\"is_padding\":");
    if c.is_padding {
        out.append("true");
    } else {
        out.append("false");
    }
    out.append("}");
    proof {
        assert(out@ =~= old(out)@ + chunk_info_json(c@));
    }
}

impl ChunkInfo {
    /// Serializes this chunk metadata to its canonical JSON text.
    pub fn to_json(&self) -> (r: String)
        ensures
            r@ == chunk_info_json(self@),
    {
        let mut out = String::new();
        append_chunk_info(&mut out, self);
        proof {
            assert(out@ =~= chunk_info_json(self@));
        }
        out
    }
}

/// Appends one row usage entry to `out`.
fn append_row_usage(out: &mut String, u: &SubCircuitRowUsage)
    ensures
        final(out)@ == old(out)@ + row_usage_json(u@),
{
    out.append("{\"name\":\"");
    append_escaped(out, u.name.as_str());
    out.append("\",\"row_number\":");
    let n = u64_dec(u.row_number as u64);
    out.append(n.as_str());
    out.append("}");
    proof {
        assert(out@ =~= old(out)@ + row_usage_json(u@));
    }
}

/// Appends a row usage list to `out`. Total: every sub-circuit name is
/// carried, escaped as JSON requires.
fn append_row_usages(out: &mut String, rs: &Vec<SubCircuitRowUsage>)
    ensures
        final(out)@ == old(out)@ + row_usages_json(Seq::new(rs@.len(), |i: int| rs@[i]@)),
{
    let ghost views = Seq::new(rs@.len(), |i: int| rs@[i]@);
    out.append("[");
    let mut k: usize = 0;
    while k < rs.len()
        invariant
            k <= rs@.len(),
            views == Seq::new(rs@.len(), |j: int| rs@[j]@),
            out@ == old(out)@ + "["@ + row_items_json(views.subrange(0, k as int)),
        decreases rs@.len() - k,
    {
        if k > 0 {
            out.append(",");
        }
        proof {
            assert(views[k as int] == rs@[k as int]@);
        }
        append_row_usage(out, &rs[k]);
        k = k + 1;
        proof {
            let pre = views.subrange(0, k as int);
            assert(pre.drop_last() =~= views.subrange(0, k - 1));
            assert(pre.last() == views[k - 1]);
            assert(out@ =~= old(out)@ + "["@ + row_items_json(pre));
        }
    }
    out.append("]");
    proof {
        assert(views.subrange(0, views.len() as int) =~= views);
        assert(out@ =~= old(out)@ + row_usages_json(views));
    }
}

impl ChunkProof {
    /// Serializes this chunk proof to its canonical JSON text: the embedded
    /// base proof's fields appear flattened at the top level, as siblings of
    /// `protocol`, `chunk_info` and `row_usages`. Total: every text field is
    /// escaped as JSON requires.
    pub fn to_json(&self) -> (r: String)
        ensures
            r@ == chunk_proof_json(self@),
            proof_wire_ok(self@.proof),
    {
        let mut out = String::new();
        out.append("{\"protocol\":\"");
        append_b64(&mut out, &self.protocol);
        out.append("\",");
        append_proof_fields(&mut out, &self.proof);
        out.append(",\"chunk_info\":");
        append_chunk_info(&mut out, &self.chunk_info);
        out.append(",\"row_usages\":");
        append_row_usages(&mut out, &self.row_usages);
        out.append("}");
        proof {
            assert(out@ =~= chunk_proof_json(self@));
        }
        out
    }
}

impl BatchProof {
    /// Serializes this batch proof to its canonical JSON text: the embedded
    /// base proof's fields appear flattened at the top level, as siblings of
    /// `protocol` and `batch_hash`. Total: the build identifier is escaped
    /// as JSON requires.
    pub fn to_json(&self) -> (r: String)
        ensures
            r@ == batch_proof_json(self@),
            proof_wire_ok(self@.proof),
    {
        let mut out = String::new();
        out.append("{\"protocol\":\"");
        append_b64(&mut out, &self.protocol);
        out.append("\",");
        append_proof_fields(&mut out, &self.proof);
        out.append(",\"batch_hash\":\"0x");
        append_hex(&mut out, &self.batch_hash.bytes);
        out.append("\"}");
        proof {
            assert(out@ =~= batch_proof_json(self@));
        }
        out
    }
}

/// The canonical JSON body of a task submission: the circuit type as its
/// wire integer, the three text fields as escaped JSON strings.
pub open spec fn prove_request_json(r: ProveRequest) -> Seq<char> {
    "{\"circuit_type\":"@ + dec_of(r.circuit_type.spec_to_u8() as nat)
        + ",\"circuit_version\":\""@ + json_escaped(r.circuit_version@)
        + "\",\"hard_fork_name\":\""@ + json_escaped(r.hard_fork_name@) + "\",\"input\":\""@
        + json_escaped(r.input@) + "\"}"@
}

impl ProveRequest {
    /// Serializes this request to its canonical JSON body. Total: every
    /// request has a body, with each text field escaped as JSON requires —
    /// in particular an `input` that is itself serialized JSON.
    pub fn to_json(&self) -> (r: String)
        ensures
            r@ == prove_request_json(*self),
    {
        let mut out = String::new();
        out.append("{\"circuit_type\":");
        let ct = u64_dec(self.circuit_type.to_u8() as u64);
        out.append(ct.as_str());
        out.append(",\"circuit_version\":\"");
        append_escaped(&mut out, self.circuit_version.as_str());
        out.append("\",\"hard_fork_name\":\"");
        append_escaped(&mut out, self.hard_fork_name.as_str());
        out.append("\",\"input\":\"");
        append_escaped(&mut out, self.input.as_str());
        out.append("\"}");
        proof {
            assert(out@ =~= prove_request_json(*self));
        }
        out
    }
}

/// A base64 segment of the wire text: the bytes `b` encoded between `pos`
/// and a closing quote at `close`, with no quote inside.
pub open spec fn valid_seg(s: Seq<char>, pos: int, b: Seq<u8>, close: int) -> bool {
    &&& 0 <= pos <= close < s.len()
    &&& s[close] == '"'
    &&& (forall|k: int| pos <= k < close ==> s[k] != '"')
    &&& s.subrange(pos, close) == b64_of(b)
}

/// Reads one base64 segment: everything up to the next quote, decoded.
/// Succeeds exactly on the segments `valid_seg` describes, and identifies
/// the bytes and the closing position uniquely.
fn parse_b64_seg(s: &str, pos: usize) -> (r: Result<(Vec<u8>, usize), DecodeError>)
    requires
        pos <= s@.len(),
    ensures
        r matches Ok((v, close)) ==> pos <= close < s@.len() && s@[close as int] == '"' && (
        forall|k: int| pos <= k < close ==> s@[k] != '"') && s@.subrange(
            pos as int,
            close as int,
        ) == b64_of(v@) && b64_text_ok(v@),
        forall|b: Seq<u8>, c2: int| valid_seg(s@, pos as int, b, c2) ==> r is Ok,
        r matches Ok((v, close)) ==> forall|b: Seq<u8>, c2: int|
            valid_seg(s@, pos as int, b, c2) ==> v@ == b && close == c2,
{
    match find_char_from(s, pos, '"') {
        None => {
            proof {
                assert forall|b: Seq<u8>, c2: int| !valid_seg(s@, pos as int, b, c2) by {
                    if valid_seg(s@, pos as int, b, c2) {
                        assert(s@[c2] == '"');
                    }
                }
            }
            Err(DecodeError)
        },
        Some(close) => {
            let seg = s.substring_char(pos, close);
            match b64_decode(seg) {
                Ok(v) => {
                    proof {
                        assert forall|i: int|
                            0 <= i < b64_of(v@).len() implies is_b64_char(b64_of(v@)[i]) by {
                            assert(b64_of(v@)[i] == seg@[i]);
                        }
                        assert(b64_text_ok(v@));
                        assert forall|b: Seq<u8>, c2: int|
                            valid_seg(s@, pos as int, b, c2) implies v@ == b && close == c2 by {
                            if c2 < close {
                                assert(s@[c2] == '"');
                            }
                            if close < c2 {
                                assert(s@[close as int] != '"');
                            }
                            assert(c2 == close);
                            assert(seg@ == b64_of(b));
                        }
                    }
                    Ok((v, close))
                },
                Err(_) => {
                    proof {
                        assert forall|b: Seq<u8>, c2: int| !valid_seg(s@, pos as int, b, c2) by {
                            if valid_seg(s@, pos as int, b, c2) {
                                if c2 < close {
                                    assert(s@[c2] == '"');
                                }
                                if close < c2 {
                                    assert(s@[close as int] != '"');
                                }
                                assert(seg@ == b64_of(b));
                                assert(false);
                            }
                        }
                    }
                    Err(DecodeError)
                },
            }
        },
    }
}

/// The flattened field list of the base proof `p` occupies `s` from `pos` to
/// `end`, and its base64 texts and build identifier are unescaped, so the
/// layout is unambiguous.
pub open spec fn valid_fields(s: Seq<char>, pos: int, p: ProofView, end: int) -> bool {
    &&& 0 <= pos <= end <= s.len()
    &&& s.subrange(pos, end) == proof_fields_json(p)
    &&& proof_wire_ok(p)
}

/// Where each piece of a valid field list stands, derived from the
/// concatenation that `proof_fields_json` writes down.
proof fn lemma_fields_structure(s: Seq<char>, pos: int, p0: ProofView, e0: int)
    requires
        valid_fields(s, pos, p0, e0),
    ensures
        ({
            let a1 = pos + "\"proof\":\""@.len();
            let c1 = a1 + b64_of(p0.proof).len();
            let a2 = c1 + "\",\"instances\":\""@.len();
            let c2 = a2 + b64_of(p0.instances).len();
            let a3 = c2 + "\",\"vk\":\""@.len();
            let c3 = a3 + b64_of(p0.vk).len();
            let a4 = c3 + "\",\"git_version\":"@.len();
            &&& pos + "\"proof\":\""@.len() <= e0 <= s.len()
            &&& s.subrange(pos, a1) == "\"proof\":\""@
            &&& valid_seg(s, a1, p0.proof, c1)
            &&& s.subrange(c1, a2) == "\",\"instances\":\""@
            &&& valid_seg(s, a2, p0.instances, c2)
            &&& s.subrange(c2, a3) == "\",\"vk\":\""@
            &&& valid_seg(s, a3, p0.vk, c3)
            &&& s.subrange(c3, a4) == "\",\"git_version\":"@
            &&& a4 <= e0
            &&& (match p0.git_version {
                None => e0 == a4 + 4 && s.subrange(a4, e0) == "null"@ && s[a4] == 'n',
                Some(g) => {
                    &&& e0 == a4 + 2 + json_escaped(g).len()
                    &&& s[a4] == '"'
                    &&& valid_jstr(s, a4 + 1, g, e0 - 1)
                },
            })
        }),
{
    reveal_strlit("\"proof\":\"");
    reveal_strlit("\",\"instances\":\"");
    reveal_strlit("\",\"vk\":\"");
    reveal_strlit("\",\"git_version\":");
    reveal_strlit("null");
    reveal_strlit("\"");
    let t1 = b64_of(p0.proof);
    let t2 = b64_of(p0.instances);
    let t3 = b64_of(p0.vk);
    let g = git_json(p0.git_version);
    let w1 = "\"proof\":\""@ + t1;
    let w2 = w1 + "\",\"instances\":\""@;
    let w3 = w2 + t2;
    let w4 = w3 + "\",\"vk\":\""@;
    let w5 = w4 + t3;
    let w6 = w5 + "\",\"git_version\":"@;
    assert(proof_fields_json(p0) == w6 + g);
    let a1 = pos + "\"proof\":\""@.len();
    let c1 = a1 + t1.len();
    let a2 = c1 + "\",\"instances\":\""@.len();
    let c2 = a2 + t2.len();
    let a3 = c2 + "\",\"vk\":\""@.len();
    let c3 = a3 + t3.len();
    let a4 = c3 + "\",\"git_version\":"@.len();
    lemma_split_at(s, pos, e0, w6, g);
    lemma_split_at(s, pos, a4, w5, "\",\"git_version\":"@);
    lemma_split_at(s, pos, c3, w4, t3);
    lemma_split_at(s, pos, a3, w3, "\",\"vk\":\""@);
    lemma_split_at(s, pos, c2, w2, t2);
    lemma_split_at(s, pos, a2, w1, "\",\"instances\":\""@);
    lemma_split_at(s, pos, c1, "\"proof\":\""@, t1);
    // Each base64 segment is quote-free and closed by the quote that opens
    // the following literal.
    assert(s[c1] == s.subrange(c1, a2)[0]);
    assert(s[c2] == s.subrange(c2, a3)[0]);
    assert(s[c3] == s.subrange(c3, a4)[0]);
    assert forall|k: int| a1 <= k < c1 implies s[k] != '"' by {
        assert(s.subrange(a1, c1)[k - a1] == t1[k - a1]);
        assert(is_b64_char(t1[k - a1]));
    }
    assert forall|k: int| a2 <= k < c2 implies s[k] != '"' by {
        assert(s.subrange(a2, c2)[k - a2] == t2[k - a2]);
        assert(is_b64_char(t2[k - a2]));
    }
    assert forall|k: int| a3 <= k < c3 implies s[k] != '"' by {
        assert(s.subrange(a3, c3)[k - a3] == t3[k - a3]);
        assert(is_b64_char(t3[k - a3]));
    }
    match p0.git_version {
        None => {
            assert(s.subrange(a4, e0) == "null"@);
            assert(s[a4] == s.subrange(a4, e0)[0]);
        },
        Some(gv) => {
            assert(g == ("\""@ + json_escaped(gv)) + "\""@);
            lemma_split_at(s, a4, e0, "\""@ + json_escaped(gv), "\""@);
            lemma_split_at(s, a4, e0 - 1, "\""@, json_escaped(gv));
            assert(s[a4] == s.subrange(a4, a4 + 1)[0]);
            assert(s[e0 - 1] == s.subrange(e0 - 1, e0)[0]);
        },
    }
}

/// Reads the flattened field list of a base proof at `pos`. Succeeds exactly
/// on the texts `valid_fields` describes, and identifies the proof and the
/// end position uniquely.
#[verifier::rlimit(100)]
fn parse_proof_fields(s: &str, pos: usize) -> (r: Result<(Proof, usize), DecodeError>)
    requires
        pos <= s@.len(),
    ensures
        r matches Ok((p, end)) ==> pos <= end <= s@.len() && s@.subrange(pos as int, end as int)
            == proof_fields_json(p@) && proof_wire_ok(p@),
        forall|p0: ProofView, e0: int| valid_fields(s@, pos as int, p0, e0) ==> r is Ok,
        r matches Ok((p, end)) ==> forall|p0: ProofView, e0: int|
            valid_fields(s@, pos as int, p0, e0) ==> p@ == p0 && end == e0,
{
    let n = s.unicode_len();
    if !starts_with_at(s, pos, "\"proof\":\"") {
        proof {
            assert forall|p0: ProofView, e0: int| !valid_fields(s@, pos as int, p0, e0) by {
                if valid_fields(s@, pos as int, p0, e0) {
                    lemma_fields_structure(s@, pos as int, p0, e0);
                }
            }
        }
        return Err(DecodeError);
    }
    let a1 = pos + "\"proof\":\"".unicode_len();
    let (v1, c1) = match parse_b64_seg(s, a1) {
        Ok(x) => x,
        Err(_) => {
            proof {
                assert forall|p0: ProofView, e0: int| !valid_fields(s@, pos as int, p0, e0) by {
                    if valid_fields(s@, pos as int, p0, e0) {
                        lemma_fields_structure(s@, pos as int, p0, e0);
                    }
                }
            }
            return Err(DecodeError);
        },
    };
    if !starts_with_at(s, c1, "\",\"instances\":\"") {
        proof {
            assert forall|p0: ProofView, e0: int| !valid_fields(s@, pos as int, p0, e0) by {
                if valid_fields(s@, pos as int, p0, e0) {
                    lemma_fields_structure(s@, pos as int, p0, e0);
                }
            }
        }
        return Err(DecodeError);
    }
    let a2 = c1 + "\",\"instances\":\"".unicode_len();
    let (v2, c2) = match parse_b64_seg(s, a2) {
        Ok(x) => x,
        Err(_) => {
            proof {
                assert forall|p0: ProofView, e0: int| !valid_fields(s@, pos as int, p0, e0) by {
                    if valid_fields(s@, pos as int, p0, e0) {
                        lemma_fields_structure(s@, pos as int, p0, e0);
                    }
                }
            }
            return Err(DecodeError);
        },
    };
    if !starts_with_at(s, c2, "\",\"vk\":\"") {
        proof {
            assert forall|p0: ProofView, e0: int| !valid_fields(s@, pos as int, p0, e0) by {
                if valid_fields(s@, pos as int, p0, e0) {
                    lemma_fields_structure(s@, pos as int, p0, e0);
                }
            }
        }
        return Err(DecodeError);
    }
    let a3 = c2 + "\",\"vk\":\"".unicode_len();
    let (v3, c3) = match parse_b64_seg(s, a3) {
        Ok(x) => x,
        Err(_) => {
            proof {
                assert forall|p0: ProofView, e0: int| !valid_fields(s@, pos as int, p0, e0) by {
                    if valid_fields(s@, pos as int, p0, e0) {
                        lemma_fields_structure(s@, pos as int, p0, e0);
                    }
                }
            }
            return Err(DecodeError);
        },
    };
    if !starts_with_at(s, c3, "\",\"git_version\":") {
        proof {
            assert forall|p0: ProofView, e0: int| !valid_fields(s@, pos as int, p0, e0) by {
                if valid_fields(s@, pos as int, p0, e0) {
                    lemma_fields_structure(s@, pos as int, p0, e0);
                }
            }
        }
        return Err(DecodeError);
    }
    let a4 = c3 + "\",\"git_version\":".unicode_len();
    if starts_with_at(s, a4, "\"") {
        proof {
            reveal_strlit("\"");
            assert(a4 + 1 <= s@.len());
        }
        let (content, close2) = match parse_jstr(s, a4 + 1) {
            Ok(x) => x,
            Err(_) => {
                proof {
                    reveal_strlit("\"");
                    assert forall|p0: ProofView, e0: int|
                        !valid_fields(s@, pos as int, p0, e0) by {
                        if valid_fields(s@, pos as int, p0, e0) {
                            lemma_fields_structure(s@, pos as int, p0, e0);
                            assert(s@[a4 as int] == s@.subrange(a4 as int, a4 + 1)[0]);
                            match p0.git_version {
                                None => {
                                    assert(false);
                                },
                                Some(g0) => {
                                    assert(valid_jstr(s@, a4 + 1, g0, e0 - 1));
                                    assert(false);
                                },
                            }
                        }
                    }
                }
                return Err(DecodeError);
            },
        };
        let p = Proof { proof: v1, instances: v2, vk: v3, git_version: Some(content) };
        let end = close2 + 1;
        proof {
            reveal_strlit("\"");
            let gv = p@.git_version->0;
            assert(s@.subrange(a4 as int, a4 + 1) == "\""@);
            assert(s@[a4 as int] == s@.subrange(a4 as int, a4 + 1)[0]);
            assert(s@[a4 as int] == '"');
            assert(s@.subrange(close2 as int, close2 + 1) =~= "\""@);
            assert(s@.subrange(a4 + 1, close2 as int) == json_escaped(gv));
            lemma_join_at(s@, pos as int, a4 as int, a4 + 1);
            lemma_join_at(s@, pos as int, a4 + 1, close2 as int);
            lemma_join_at(s@, pos as int, close2 as int, end as int);
            assert(s@.subrange(pos as int, end as int) =~= proof_fields_json(p@));
            assert forall|p0: ProofView, e0: int|
                valid_fields(s@, pos as int, p0, e0) implies p@ == p0 && end == e0 by {
                lemma_fields_structure(s@, pos as int, p0, e0);
                match p0.git_version {
                    None => {
                        assert(s@[a4 as int] == 'n');
                        assert(false);
                    },
                    Some(g0) => {
                        assert(valid_jstr(s@, a4 + 1, g0, e0 - 1));
                        assert(gv == g0 && close2 == e0 - 1);
                    },
                }
            }
        }
        Ok((p, end))
    } else if starts_with_at(s, a4, "null") {
        let p = Proof { proof: v1, instances: v2, vk: v3, git_version: None };
        let end = a4 + "null".unicode_len();
        proof {
            reveal_strlit("null");
            reveal_strlit("\"");
            lemma_join_at(s@, pos as int, a4 as int, end as int);
            assert(s@.subrange(pos as int, end as int) =~= proof_fields_json(p@));
            assert forall|p0: ProofView, e0: int|
                valid_fields(s@, pos as int, p0, e0) implies p@ == p0 && end == e0 by {
                lemma_fields_structure(s@, pos as int, p0, e0);
                match p0.git_version {
                    None => {},
                    Some(g0) => {
                        assert(s@[a4 as int] == '"');
                        assert(s@.subrange(a4 as int, a4 + 4)[0] == "null"@[0]);
                        assert(false);
                    },
                }
            }
        }
        Ok((p, end))
    } else {
        proof {
            reveal_strlit("null");
            reveal_strlit("\"");
            assert forall|p0: ProofView, e0: int| !valid_fields(s@, pos as int, p0, e0) by {
                if valid_fields(s@, pos as int, p0, e0) {
                    lemma_fields_structure(s@, pos as int, p0, e0);
                    match p0.git_version {
                        None => {
                            assert(s@.subrange(a4 as int, a4 + 4) == "null"@);
                        },
                        Some(g0) => {
                            assert(s@.subrange(a4 as int, a4 + 1) =~= "\""@);
                        },
                    }
                }
            }
        }
        Err(DecodeError)
    }
}

impl Proof {
    /// Decodes a proof from its canonical JSON text. Succeeds exactly on the
    /// canonical text of a proof whose base64 fields and build identifier
    /// are unescaped wire texts, returns that proof — so decoding inverts
    /// `to_json` — and fails on every other input, in particular on any
    /// malformed base64 byte field.
    pub fn from_json(s: &str) -> (r: Result<Proof, DecodeError>)
        ensures
            r matches Ok(p) ==> s@ == proof_json(p@) && proof_wire_ok(p@),
            forall|p0: ProofView| s@ == proof_json(p0) && proof_wire_ok(p0) ==> r is Ok,
            r matches Ok(p) ==> forall|p0: ProofView|
                s@ == proof_json(p0) && proof_wire_ok(p0) ==> p@ == p0,
    {
        proof {
            reveal_strlit("{");
            reveal_strlit("}");
        }
        let n = s.unicode_len();
        if !starts_with_at(s, 0, "{") {
            proof {
                assert forall|p0: ProofView|
                    !(s@ == proof_json(p0) && proof_wire_ok(p0)) by {
                    if s@ == proof_json(p0) && proof_wire_ok(p0) {
                        assert(s@.subrange(0, s@.len() as int) =~= s@);
                        assert("{"@.len() == 1);
                        assert("}"@.len() == 1);
                        lemma_split_at(s@, 0, s@.len() as int, "{"@ + proof_fields_json(p0), "}"@);
                        lemma_split_at(
                            s@,
                            0,
                            s@.len() - 1,
                            "{"@,
                            proof_fields_json(p0),
                        );
                    }
                }
            }
            return Err(DecodeError);
        }
        let (p, end) = match parse_proof_fields(s, 1) {
            Ok(x) => x,
            Err(_) => {
                proof {
                    assert forall|p0: ProofView|
                        !(s@ == proof_json(p0) && proof_wire_ok(p0)) by {
                        if s@ == proof_json(p0) && proof_wire_ok(p0) {
                            assert(s@.subrange(0, s@.len() as int) =~= s@);
                            assert("{"@.len() == 1);
                            assert("}"@.len() == 1);
                            lemma_split_at(
                                s@,
                                0,
                                s@.len() as int,
                                "{"@ + proof_fields_json(p0),
                                "}"@,
                            );
                            lemma_split_at(s@, 0, s@.len() - 1, "{"@, proof_fields_json(p0));
                            assert(valid_fields(s@, 1, p0, s@.len() - 1));
                        }
                    }
                }
                return Err(DecodeError);
            },
        };
        if !starts_with_at(s, end, "}") || end + 1 != s.unicode_len() {
            proof {
                assert forall|p0: ProofView|
                    !(s@ == proof_json(p0) && proof_wire_ok(p0)) by {
                    if s@ == proof_json(p0) && proof_wire_ok(p0) {
                        assert(s@.subrange(0, s@.len() as int) =~= s@);
                        assert("{"@.len() == 1);
                        assert("}"@.len() == 1);
                        lemma_split_at(s@, 0, s@.len() as int, "{"@ + proof_fields_json(p0), "}"@);
                        lemma_split_at(s@, 0, s@.len() - 1, "{"@, proof_fields_json(p0));
                        assert(valid_fields(s@, 1, p0, s@.len() - 1));
                        assert(end == s@.len() - 1);
                        assert(s@.subrange(end as int, end + 1) =~= "}"@);
                    }
                }
            }
            return Err(DecodeError);
        }
        proof {
            lemma_join_at(s@, 0, 1, end as int);
            lemma_join_at(s@, 0, end as int, end + 1);
            assert(s@.subrange(0, 1) =~= "{"@);
            assert(s@.subrange(end as int, end + 1) =~= "}"@);
            assert(s@.subrange(0, s@.len() as int) =~= s@);
            assert(s@ == proof_json(p@));
            assert forall|p0: ProofView|
                s@ == proof_json(p0) && proof_wire_ok(p0) implies p@ == p0 by {
                lemma_split_at(s@, 0, s@.len() as int, "{"@ + proof_fields_json(p0), "}"@);
                lemma_split_at(s@, 0, s@.len() - 1, "{"@, proof_fields_json(p0));
                assert(valid_fields(s@, 1, p0, s@.len() - 1));
            }
        }
        Ok(p)
    }
}

/// The base64 text and the four hashes of chunk metadata are well-formed
/// wire values.
pub open spec fn chunk_info_wire_ok(c: ChunkInfoView) -> bool {
    &&& b64_text_ok(c.tx_bytes)
    &&& c.prev_state_root.len() == 32
    &&& c.post_state_root.len() == 32
    &&& c.withdraw_root.len() == 32
    &&& c.data_hash.len() == 32
}

/// Where each piece of a canonical chunk metadata text stands.
proof fn lemma_chunk_info_structure(s: Seq<char>, c: ChunkInfoView)
    requires
        s == chunk_info_json(c),
        chunk_info_wire_ok(c),
    ensures
        ({
            let a0 = "{\"chain_id\":"@.len() as int;
            let d1 = a0 + dec_of(c.chain_id as nat).len();
            let h1 = d1 + ",\"prev_state_root\":\"0x"@.len();
            let h2 = h1 + 64 + "\",\"post_state_root\":\"0x"@.len();
            let h3 = h2 + 64 + "\",\"withdraw_root\":\"0x"@.len();
            let h4 = h3 + 64 + "\",\"data_hash\":\"0x"@.len();
            let t1 = h4 + 64 + "\",\"tx_bytes\":\""@.len();
            let c1 = t1 + b64_of(c.tx_bytes).len();
            let p1 = c1 + "\",\"is_padding\":"@.len();
            &&& s.subrange(0, a0) == "{\"chain_id\":"@
            &&& valid_dec(s, a0, c.chain_id, d1)
            &&& s.subrange(d1, h1) == ",\"prev_state_root\":\"0x"@
            &&& valid_hex32(s, h1, c.prev_state_root)
            &&& s.subrange(h1 + 64, h2) == "\",\"post_state_root\":\"0x"@
            &&& valid_hex32(s, h2, c.post_state_root)
            &&& s.subrange(h2 + 64, h3) == "\",\"withdraw_root\":\"0x"@
            &&& valid_hex32(s, h3, c.withdraw_root)
            &&& s.subrange(h3 + 64, h4) == "\",\"data_hash\":\"0x"@
            &&& valid_hex32(s, h4, c.data_hash)
            &&& s.subrange(h4 + 64, t1) == "\",\"tx_bytes\":\""@
            &&& valid_seg(s, t1, c.tx_bytes, c1)
            &&& s.subrange(c1, p1) == "\",\"is_padding\":"@
            &&& (if c.is_padding {
                s.len() == p1 + 5 && s.subrange(p1, p1 + 5) == "true}"@ && s[p1] == 't'
            } else {
                s.len() == p1 + 6 && s.subrange(p1, p1 + 6) == "false}"@ && s[p1] == 'f'
            })
        }),
{
    reveal_strlit("{\"chain_id\":");
    reveal_strlit(",\"prev_state_root\":\"0x");
    reveal_strlit("\",\"post_state_root\":\"0x");
    reveal_strlit("\",\"withdraw_root\":\"0x");
    reveal_strlit("\",\"data_hash\":\"0x");
    reveal_strlit("\",\"tx_bytes\":\"");
    reveal_strlit("\",\"is_padding\":");
    reveal_strlit("true");
    reveal_strlit("false");
    reveal_strlit("}");
    reveal_strlit("true}");
    reveal_strlit("false}");
    crate::text::lemma_hex_of_len(c.prev_state_root);
    crate::text::lemma_hex_of_len(c.post_state_root);
    crate::text::lemma_hex_of_len(c.withdraw_root);
    crate::text::lemma_hex_of_len(c.data_hash);
    let dec = dec_of(c.chain_id as nat);
    let x1 = hex_of(c.prev_state_root);
    let x2 = hex_of(c.post_state_root);
    let x3 = hex_of(c.withdraw_root);
    let x4 = hex_of(c.data_hash);
    let t = b64_of(c.tx_bytes);
    let b = bool_json(c.is_padding);
    let w1 = "{\"chain_id\":"@ + dec;
    let w2 = w1 + ",\"prev_state_root\":\"0x"@;
    let w3 = w2 + x1;
    let w4 = w3 + "\",\"post_state_root\":\"0x"@;
    let w5 = w4 + x2;
    let w6 = w5 + "\",\"withdraw_root\":\"0x"@;
    let w7 = w6 + x3;
    let w8 = w7 + "\",\"data_hash\":\"0x"@;
    let w9 = w8 + x4;
    let w10 = w9 + "\",\"tx_bytes\":\""@;
    let w11 = w10 + t;
    let w12 = w11 + "\",\"is_padding\":"@;
    let w13 = w12 + b;
    assert(chunk_info_json(c) == w13 + "}"@);
    let a0 = "{\"chain_id\":"@.len() as int;
    let d1 = a0 + dec.len();
    let h1 = d1 + ",\"prev_state_root\":\"0x"@.len();
    let h2 = h1 + 64 + "\",\"post_state_root\":\"0x"@.len();
    let h3 = h2 + 64 + "\",\"withdraw_root\":\"0x"@.len();
    let h4 = h3 + 64 + "\",\"data_hash\":\"0x"@.len();
    let t1 = h4 + 64 + "\",\"tx_bytes\":\""@.len();
    let c1 = t1 + t.len();
    let p1 = c1 + "\",\"is_padding\":"@.len();
    assert(s.subrange(0, s.len() as int) =~= s);
    lemma_split_at(s, 0, s.len() as int, w13, "}"@);
    lemma_split_at(s, 0, p1 + b.len(), w12, b);
    lemma_split_at(s, 0, p1, w11, "\",\"is_padding\":"@);
    lemma_split_at(s, 0, c1, w10, t);
    lemma_split_at(s, 0, t1, w9, "\",\"tx_bytes\":\""@);
    lemma_split_at(s, 0, h4 + 64, w8, x4);
    lemma_split_at(s, 0, h4, w7, "\",\"data_hash\":\"0x"@);
    lemma_split_at(s, 0, h3 + 64, w6, x3);
    lemma_split_at(s, 0, h3, w5, "\",\"withdraw_root\":\"0x"@);
    lemma_split_at(s, 0, h2 + 64, w4, x2);
    lemma_split_at(s, 0, h2, w3, "\",\"post_state_root\":\"0x"@);
    lemma_split_at(s, 0, h1 + 64, w2, x1);
    lemma_split_at(s, 0, h1, w1, ",\"prev_state_root\":\"0x"@);
    lemma_split_at(s, 0, d1, "{\"chain_id\":"@, dec);
    // The decimal run ends at the comma that opens the next key.
    assert(s[d1] == s.subrange(d1, h1)[0]);
    assert(!crate::text::is_digit_char(s[d1]));
    // The base64 segment is quote-free and closed by the quote that opens
    // the next literal.
    assert(s[c1] == s.subrange(c1, p1)[0]);
    assert forall|k: int| t1 <= k < c1 implies s[k] != '"' by {
        assert(s.subrange(t1, c1)[k - t1] == t[k - t1]);
        assert(is_b64_char(t[k - t1]));
    }
    // The tail is the boolean text followed by the closing brace.
    if c.is_padding {
        assert(s.subrange(p1, p1 + 5) =~= "true}"@);
        assert(s[p1] == s.subrange(p1, p1 + 5)[0]);
    } else {
        assert(s.subrange(p1, p1 + 6) =~= "false}"@);
        assert(s[p1] == s.subrange(p1, p1 + 6)[0]);
    }
}

/// Reads one hash field: the key literal followed by exactly 64 hex
/// characters. Succeeds exactly when both stand there, and identifies the
/// bytes uniquely.
fn parse_root_field(s: &str, pos: usize, lit: &str) -> (r: Result<(Vec<u8>, usize), DecodeError>)
    requires
        pos <= s@.len(),
    ensures
        r matches Ok((v, end)) ==> pos + lit@.len() + 64 == end <= s@.len() && s@.subrange(
            pos as int,
            pos + lit@.len(),
        ) == lit@ && v@.len() == 32 && s@.subrange(pos + lit@.len(), end as int) == hex_of(v@),
        forall|b: Seq<u8>|
            (s@.subrange(pos as int, pos + lit@.len()) == lit@ && pos + lit@.len() <= s@.len()
                && #[trigger] valid_hex32(s@, pos + lit@.len(), b)) ==> r is Ok,
        r matches Ok((v, end)) ==> forall|b: Seq<u8>|
            (s@.subrange(pos as int, pos + lit@.len()) == lit@ && pos + lit@.len() <= s@.len()
                && #[trigger] valid_hex32(s@, pos + lit@.len(), b)) ==> v@ == b,
{
    let n = s.unicode_len();
    if !starts_with_at(s, pos, lit) {
        return Err(DecodeError);
    }
    let h = pos + lit.unicode_len();
    match crate::text::parse_hex32(s, h) {
        Ok(v) => Ok((v, h + 64)),
        Err(_) => Err(DecodeError),
    }
}

impl ChunkInfo {
    /// Decodes chunk metadata from its canonical JSON text. Decoding inverts
    /// `to_json` and fails on every other input, in particular on malformed
    /// base64 transaction bytes and on a hash that is not exactly 32 bytes
    /// of hex.
    #[verifier::rlimit(100)]
    pub fn from_json(s: &str) -> (r: Result<ChunkInfo, DecodeError>)
        ensures
            r matches Ok(c) ==> s@ == chunk_info_json(c@) && chunk_info_wire_ok(c@),
            forall|c0: ChunkInfoView|
                s@ == chunk_info_json(c0) && chunk_info_wire_ok(c0) ==> r is Ok,
            r matches Ok(c) ==> forall|c0: ChunkInfoView|
                s@ == chunk_info_json(c0) && chunk_info_wire_ok(c0) ==> c@ == c0,
    {
        let n = s.unicode_len();
        if !starts_with_at(s, 0, "{\"chain_id\":") {
            proof {
                assert forall|c0: ChunkInfoView|
                    !(s@ == chunk_info_json(c0) && chunk_info_wire_ok(c0)) by {
                    if s@ == chunk_info_json(c0) && chunk_info_wire_ok(c0) {
                        lemma_chunk_info_structure(s@, c0);
                    }
                }
            }
            return Err(DecodeError);
        }
        let a0 = "{\"chain_id\":".unicode_len();
        let (chain_id, d1) = match crate::text::parse_u64_dec(s, a0) {
            Ok(x) => x,
            Err(_) => {
                proof {
                    assert forall|c0: ChunkInfoView|
                        !(s@ == chunk_info_json(c0) && chunk_info_wire_ok(c0)) by {
                        if s@ == chunk_info_json(c0) && chunk_info_wire_ok(c0) {
                            lemma_chunk_info_structure(s@, c0);
                        }
                    }
                }
                return Err(DecodeError);
            },
        };
        let (prev, e1) = match parse_root_field(s, d1, ",\"prev_state_root\":\"0x") {
            Ok(x) => x,
            Err(_) => {
                proof {
                    assert forall|c0: ChunkInfoView|
                        !(s@ == chunk_info_json(c0) && chunk_info_wire_ok(c0)) by {
                        if s@ == chunk_info_json(c0) && chunk_info_wire_ok(c0) {
                            lemma_chunk_info_structure(s@, c0);
                        }
                    }
                }
                return Err(DecodeError);
            },
        };
        let (post, e2) = match parse_root_field(s, e1, "\",\"post_state_root\":\"0x") {
            Ok(x) => x,
            Err(_) => {
                proof {
                    assert forall|c0: ChunkInfoView|
                        !(s@ == chunk_info_json(c0) && chunk_info_wire_ok(c0)) by {
                        if s@ == chunk_info_json(c0) && chunk_info_wire_ok(c0) {
                            lemma_chunk_info_structure(s@, c0);
                        }
                    }
                }
                return Err(DecodeError);
            },
        };
        let (withdraw, e3) = match parse_root_field(s, e2, "\",\"withdraw_root\":\"0x") {
            Ok(x) => x,
            Err(_) => {
                proof {
                    assert forall|c0: ChunkInfoView|
                        !(s@ == chunk_info_json(c0) && chunk_info_wire_ok(c0)) by {
                        if s@ == chunk_info_json(c0) && chunk_info_wire_ok(c0) {
                            lemma_chunk_info_structure(s@, c0);
                        }
                    }
                }
                return Err(DecodeError);
            },
        };
        let (data_hash, e4) = match parse_root_field(s, e3, "\",\"data_hash\":\"0x") {
            Ok(x) => x,
            Err(_) => {
                proof {
                    assert forall|c0: ChunkInfoView|
                        !(s@ == chunk_info_json(c0) && chunk_info_wire_ok(c0)) by {
                        if s@ == chunk_info_json(c0) && chunk_info_wire_ok(c0) {
                            lemma_chunk_info_structure(s@, c0);
                        }
                    }
                }
                return Err(DecodeError);
            },
        };
        if !starts_with_at(s, e4, "\",\"tx_bytes\":\"") {
            proof {
                assert forall|c0: ChunkInfoView|
                    !(s@ == chunk_info_json(c0) && chunk_info_wire_ok(c0)) by {
                    if s@ == chunk_info_json(c0) && chunk_info_wire_ok(c0) {
                        lemma_chunk_info_structure(s@, c0);
                    }
                }
            }
            return Err(DecodeError);
        }
        let t1 = e4 + "\",\"tx_bytes\":\"".unicode_len();
        let (tx_bytes, c1) = match parse_b64_seg(s, t1) {
            Ok(x) => x,
            Err(_) => {
                proof {
                    assert forall|c0: ChunkInfoView|
                        !(s@ == chunk_info_json(c0) && chunk_info_wire_ok(c0)) by {
                        if s@ == chunk_info_json(c0) && chunk_info_wire_ok(c0) {
                            lemma_chunk_info_structure(s@, c0);
                        }
                    }
                }
                return Err(DecodeError);
            },
        };
        if !starts_with_at(s, c1, "\",\"is_padding\":") {
            proof {
                assert forall|c0: ChunkInfoView|
                    !(s@ == chunk_info_json(c0) && chunk_info_wire_ok(c0)) by {
                    if s@ == chunk_info_json(c0) && chunk_info_wire_ok(c0) {
                        lemma_chunk_info_structure(s@, c0);
                    }
                }
            }
            return Err(DecodeError);
        }
        let p1 = c1 + "\",\"is_padding\":".unicode_len();
        let is_padding: bool;
        if starts_with_at(s, p1, "true}") && n - p1 == 5 {
            is_padding = true;
        } else if starts_with_at(s, p1, "false}") && n - p1 == 6 {
            is_padding = false;
        } else {
            proof {
                reveal_strlit("true}");
                reveal_strlit("false}");
                assert forall|c0: ChunkInfoView|
                    !(s@ == chunk_info_json(c0) && chunk_info_wire_ok(c0)) by {
                    if s@ == chunk_info_json(c0) && chunk_info_wire_ok(c0) {
                        lemma_chunk_info_structure(s@, c0);
                    }
                }
            }
            return Err(DecodeError);
        }
        let info = ChunkInfo {
            chain_id,
            prev_state_root: crate::artifacts::Hash32 { bytes: prev },
            post_state_root: crate::artifacts::Hash32 { bytes: post },
            withdraw_root: crate::artifacts::Hash32 { bytes: withdraw },
            data_hash: crate::artifacts::Hash32 { bytes: data_hash },
            tx_bytes,
            is_padding,
        };
        proof {
            reveal_strlit("true}");
            reveal_strlit("false}");
            reveal_strlit("true");
            reveal_strlit("false");
            reveal_strlit("}");
            let ghost m1 = d1 + ",\"prev_state_root\":\"0x"@.len();
            let ghost m2 = e1 + "\",\"post_state_root\":\"0x"@.len();
            let ghost m3 = e2 + "\",\"withdraw_root\":\"0x"@.len();
            let ghost m4 = e3 + "\",\"data_hash\":\"0x"@.len();
            lemma_join_at(s@, 0, a0 as int, d1 as int);
            lemma_join_at(s@, 0, d1 as int, m1);
            lemma_join_at(s@, 0, m1, e1 as int);
            lemma_join_at(s@, 0, e1 as int, m2);
            lemma_join_at(s@, 0, m2, e2 as int);
            lemma_join_at(s@, 0, e2 as int, m3);
            lemma_join_at(s@, 0, m3, e3 as int);
            lemma_join_at(s@, 0, e3 as int, m4);
            lemma_join_at(s@, 0, m4, e4 as int);
            lemma_join_at(s@, 0, e4 as int, t1 as int);
            lemma_join_at(s@, 0, t1 as int, c1 as int);
            lemma_join_at(s@, 0, c1 as int, p1 as int);
            if is_padding {
                lemma_join_at(s@, 0, p1 as int, p1 + 4);
                lemma_join_at(s@, 0, p1 + 4, n as int);
                assert(s@.subrange(p1 as int, p1 + 5) == "true}"@);
                assert(s@.subrange(p1 as int, p1 + 4) =~= "true"@);
                assert(s@[p1 + 4] == s@.subrange(p1 as int, p1 + 5)[4]);
                assert(s@.subrange(p1 + 4, n as int) =~= "}"@);
            } else {
                lemma_join_at(s@, 0, p1 as int, p1 + 5);
                lemma_join_at(s@, 0, p1 + 5, n as int);
                assert(s@.subrange(p1 as int, p1 + 6) == "false}"@);
                assert(s@.subrange(p1 as int, p1 + 5) =~= "false"@);
                assert(s@[p1 + 5] == s@.subrange(p1 as int, p1 + 6)[5]);
                assert(s@.subrange(p1 + 5, n as int) =~= "}"@);
            }
            assert(s@.subrange(0, s@.len() as int) =~= s@);
            assert(s@ == chunk_info_json(info@));
            assert forall|c0: ChunkInfoView|
                s@ == chunk_info_json(c0) && chunk_info_wire_ok(c0) implies info@ == c0 by {
                lemma_chunk_info_structure(s@, c0);
            }
        }
        Ok(info)
    }
}

/// The base64 texts, the build identifier and the batch hash of a batch
/// proof are well-formed wire texts.
pub open spec fn batch_wire_ok(v: BatchProofView) -> bool {
    &&& b64_text_ok(v.protocol)
    &&& proof_wire_ok(v.proof)
    &&& v.batch_hash.len() == 32
}

/// Where each piece of a canonical batch proof text stands.
proof fn lemma_batch_structure(s: Seq<char>, v: BatchProofView)
    requires
        s == batch_proof_json(v),
        batch_wire_ok(v),
    ensures
        ({
            let a1 = "{\"protocol\":\""@.len() as int;
            let c1 = a1 + b64_of(v.protocol).len();
            let af = c1 + "\","@.len();
            let ef = af + proof_fields_json(v.proof).len();
            let ah = ef + ",\"batch_hash\":\"0x"@.len();
            &&& s.subrange(0, a1) == "{\"protocol\":\""@
            &&& valid_seg(s, a1, v.protocol, c1)
            &&& s.subrange(c1, af) == "\","@
            &&& valid_fields(s, af, v.proof, ef)
            &&& s.subrange(ef, ah) == ",\"batch_hash\":\"0x"@
            &&& valid_hex32(s, ah, v.batch_hash)
            &&& s.len() == ah + 64 + 2
            &&& s.subrange(ah + 64, s.len() as int) == "\"}"@
        }),
{
    reveal_strlit("{\"protocol\":\"");
    reveal_strlit("\",");
    reveal_strlit(",\"batch_hash\":\"0x");
    reveal_strlit("\"}");
    crate::text::lemma_hex_of_len(v.batch_hash);
    let t = b64_of(v.protocol);
    let f = proof_fields_json(v.proof);
    let h = hex_of(v.batch_hash);
    let w1 = "{\"protocol\":\""@ + t;
    let w2 = w1 + "\","@;
    let w3 = w2 + f;
    let w4 = w3 + ",\"batch_hash\":\"0x"@;
    let w5 = w4 + h;
    assert(batch_proof_json(v) == w5 + "\"}"@);
    let a1 = "{\"protocol\":\""@.len() as int;
    let c1 = a1 + t.len();
    let af = c1 + "\","@.len();
    let ef = af + f.len();
    let ah = ef + ",\"batch_hash\":\"0x"@.len();
    assert(s.subrange(0, s.len() as int) =~= s);
    lemma_split_at(s, 0, s.len() as int, w5, "\"}"@);
    lemma_split_at(s, 0, ah + 64, w4, h);
    lemma_split_at(s, 0, ah, w3, ",\"batch_hash\":\"0x"@);
    lemma_split_at(s, 0, ef, w2, f);
    lemma_split_at(s, 0, af, w1, "\","@);
    lemma_split_at(s, 0, c1, "{\"protocol\":\""@, t);
    assert(s[c1] == s.subrange(c1, af)[0]);
    assert forall|k: int| a1 <= k < c1 implies s[k] != '"' by {
        assert(s.subrange(a1, c1)[k - a1] == t[k - a1]);
        assert(is_b64_char(t[k - a1]));
    }
}

impl BatchProof {
    /// Decodes a batch proof from its canonical JSON text, with the embedded
    /// base proof's fields flattened at the top level. Decoding inverts
    /// `to_json` and fails on every other input, in particular on malformed
    /// base64 in any byte field and on a batch hash that is not exactly 32
    /// bytes of hex.
    pub fn from_json(s: &str) -> (r: Result<BatchProof, DecodeError>)
        ensures
            r matches Ok(bp) ==> s@ == batch_proof_json(bp@) && batch_wire_ok(bp@),
            forall|v: BatchProofView| s@ == batch_proof_json(v) && batch_wire_ok(v) ==> r is Ok,
            r matches Ok(bp) ==> forall|v: BatchProofView|
                s@ == batch_proof_json(v) && batch_wire_ok(v) ==> bp@ == v,
    {
        let n = s.unicode_len();
        if !starts_with_at(s, 0, "{\"protocol\":\"") {
            proof {
                assert forall|v: BatchProofView|
                    !(s@ == batch_proof_json(v) && batch_wire_ok(v)) by {
                    if s@ == batch_proof_json(v) && batch_wire_ok(v) {
                        lemma_batch_structure(s@, v);
                    }
                }
            }
            return Err(DecodeError);
        }
        let a1 = "{\"protocol\":\"".unicode_len();
        let (protocol, c1) = match parse_b64_seg(s, a1) {
            Ok(x) => x,
            Err(_) => {
                proof {
                    assert forall|v: BatchProofView|
                        !(s@ == batch_proof_json(v) && batch_wire_ok(v)) by {
                        if s@ == batch_proof_json(v) && batch_wire_ok(v) {
                            lemma_batch_structure(s@, v);
                        }
                    }
                }
                return Err(DecodeError);
            },
        };
        if !starts_with_at(s, c1, "\",") {
            proof {
                assert forall|v: BatchProofView|
                    !(s@ == batch_proof_json(v) && batch_wire_ok(v)) by {
                    if s@ == batch_proof_json(v) && batch_wire_ok(v) {
                        lemma_batch_structure(s@, v);
                    }
                }
            }
            return Err(DecodeError);
        }
        let af = c1 + "\",".unicode_len();
        let (p, ef) = match parse_proof_fields(s, af) {
            Ok(x) => x,
            Err(_) => {
                proof {
                    assert forall|v: BatchProofView|
                        !(s@ == batch_proof_json(v) && batch_wire_ok(v)) by {
                        if s@ == batch_proof_json(v) && batch_wire_ok(v) {
                            lemma_batch_structure(s@, v);
                        }
                    }
                }
                return Err(DecodeError);
            },
        };
        if !starts_with_at(s, ef, ",\"batch_hash\":\"0x") {
            proof {
                assert forall|v: BatchProofView|
                    !(s@ == batch_proof_json(v) && batch_wire_ok(v)) by {
                    if s@ == batch_proof_json(v) && batch_wire_ok(v) {
                        lemma_batch_structure(s@, v);
                    }
                }
            }
            return Err(DecodeError);
        }
        let ah = ef + ",\"batch_hash\":\"0x".unicode_len();
        let hash_bytes = match crate::text::parse_hex32(s, ah) {
            Ok(x) => x,
            Err(_) => {
                proof {
                    assert forall|v: BatchProofView|
                        !(s@ == batch_proof_json(v) && batch_wire_ok(v)) by {
                        if s@ == batch_proof_json(v) && batch_wire_ok(v) {
                            lemma_batch_structure(s@, v);
                        }
                    }
                }
                return Err(DecodeError);
            },
        };
        if !starts_with_at(s, ah + 64, "\"}") || n - (ah + 64) != 2 {
            proof {
                reveal_strlit("\"}");
                assert forall|v: BatchProofView|
                    !(s@ == batch_proof_json(v) && batch_wire_ok(v)) by {
                    if s@ == batch_proof_json(v) && batch_wire_ok(v) {
                        lemma_batch_structure(s@, v);
                    }
                }
            }
            return Err(DecodeError);
        }
        let bp = BatchProof {
            protocol,
            proof: p,
            batch_hash: crate::artifacts::Hash32 { bytes: hash_bytes },
        };
        proof {
            reveal_strlit("{\"protocol\":\"");
            reveal_strlit("\",");
            reveal_strlit(",\"batch_hash\":\"0x");
            reveal_strlit("\"}");
            lemma_join_at(s@, 0, a1 as int, c1 as int);
            lemma_join_at(s@, 0, c1 as int, af as int);
            lemma_join_at(s@, 0, af as int, ef as int);
            lemma_join_at(s@, 0, ef as int, ah as int);
            lemma_join_at(s@, 0, ah as int, ah + 64);
            lemma_join_at(s@, 0, ah + 64, n as int);
            assert(s@.subrange(0, s@.len() as int) =~= s@);
            assert(s@.subrange(0, c1 as int) == "{\"protocol\":\""@ + b64_of(bp@.protocol));
            assert(s@.subrange(0, af as int) == ("{\"protocol\":\""@ + b64_of(bp@.protocol))
                + "\","@);
            assert(s@.subrange(ah as int, ah + 64) == hex_of(bp@.batch_hash));
            assert(s@.subrange(ah + 64, n as int) == "\"}"@);
            assert(s@ == batch_proof_json(bp@));
            assert forall|v: BatchProofView|
                s@ == batch_proof_json(v) && batch_wire_ok(v) implies bp@ == v by {
                lemma_batch_structure(s@, v);
            }
        }
        Ok(bp)
    }
}

impl BundleProof {
    /// Decodes a bundle proof from its canonical JSON text, which is exactly
    /// the canonical text of its embedded on-chain proof. Decoding inverts
    /// `to_json` and fails on every other input.
    pub fn from_json(s: &str) -> (r: Result<BundleProof, DecodeError>)
        ensures
            r matches Ok(p) ==> s@ == proof_json(p@) && proof_wire_ok(p@),
            forall|p0: ProofView| s@ == proof_json(p0) && proof_wire_ok(p0) ==> r is Ok,
            r matches Ok(p) ==> forall|p0: ProofView|
                s@ == proof_json(p0) && proof_wire_ok(p0) ==> p@ == p0,
    {
        match Proof::from_json(s) {
            Ok(p) => Ok(BundleProof { on_chain_proof: p }),
            Err(e) => Err(e),
        }
    }
}

impl BundleProof {
    /// Serializes this bundle proof to its canonical JSON text: exactly the
    /// embedded on-chain proof's fields, flattened into the object.
    /// Total: the build identifier is escaped as JSON requires.
    pub fn to_json(&self) -> (r: String)
        ensures
            r@ == proof_json(self@),
            proof_wire_ok(self@),
    {
        let mut out = String::new();
        out.append("{");
        append_proof_fields(&mut out, &self.on_chain_proof);
        out.append("}");
        proof {
            assert(out@ =~= proof_json(self@));
        }
        out
    }
}

} // verus!
