//! Proof artifact model: the nested, binary-safe structures a proving
//! pipeline passes between stages. Byte fields are opaque blobs; the protocol
//! moves them faithfully and never interprets their internal structure.
use vstd::prelude::*;

use crate::DecodeError;

verus! {

/// A 32-byte hash value.
#[derive(Clone, Debug)]
pub struct Hash32 {
    pub bytes: Vec<u8>,
}

impl View for Hash32 {
    type V = Seq<u8>;

    open spec fn view(&self) -> Seq<u8> {
        self.bytes@
    }
}

impl Hash32 {
    /// A hash value is exactly 32 bytes.
    pub open spec fn wf(self) -> bool {
        self.bytes@.len() == 32
    }

    /// Builds a hash from raw bytes; any length other than 32 is refused.
    pub fn from_bytes(bytes: Vec<u8>) -> (r: Result<Hash32, DecodeError>)
        ensures
            r matches Ok(h) ==> h@ == bytes@ && h.wf(),
            r is Ok <==> bytes@.len() == 32,
    {
        if bytes.len() == 32 {
            Ok(Hash32 { bytes })
        } else {
            Err(DecodeError)
        }
    }

    /// The all-zero hash.
    pub fn zero() -> (r: Hash32)
        ensures
            r@ =~= Seq::new(32, |i: int| 0u8),
            r.wf(),
    {
        let mut bytes: Vec<u8> = Vec::new();
        let mut i: usize = 0;
        while i < 32
            invariant
                i <= 32,
                bytes@ =~= Seq::new(i as nat, |j: int| 0u8),
            decreases 32 - i,
        {
            bytes.push(0);
            i = i + 1;
            proof {
                assert(bytes@ =~= Seq::new(i as nat, |j: int| 0u8));
            }
        }
        Hash32 { bytes }
    }
}

/// Base unit of a cryptographic proof: the proof bytes, the public
/// input/output instances, the verification key, and an optional identifier
/// of the prover build that produced it.
#[derive(Clone, Debug)]
pub struct Proof {
    pub proof: Vec<u8>,
    pub instances: Vec<u8>,
    pub vk: Vec<u8>,
    pub git_version: Option<String>,
}

/// Mathematical image of a `Proof`.
pub ghost struct ProofView {
    pub proof: Seq<u8>,
    pub instances: Seq<u8>,
    pub vk: Seq<u8>,
    pub git_version: Option<Seq<char>>,
}

impl View for Proof {
    type V = ProofView;

    open spec fn view(&self) -> ProofView {
        ProofView {
            proof: self.proof@,
            instances: self.instances@,
            vk: self.vk@,
            git_version: match self.git_version {
                Some(g) => Some(g@),
                None => None,
            },
        }
    }
}

/// Per-sub-circuit resource usage reported with a chunk proof.
#[derive(Clone, Debug)]
pub struct SubCircuitRowUsage {
    pub name: String,
    pub row_number: usize,
}

/// Mathematical image of a `SubCircuitRowUsage`.
pub ghost struct RowUsageView {
    pub name: Seq<char>,
    pub row_number: nat,
}

impl View for SubCircuitRowUsage {
    type V = RowUsageView;

    open spec fn view(&self) -> RowUsageView {
        RowUsageView { name: self.name@, row_number: self.row_number as nat }
    }
}

/// Metadata accompanying a chunk-level proof.
#[derive(Clone, Debug)]
pub struct ChunkInfo {
    pub chain_id: u64,
    pub prev_state_root: Hash32,
    pub post_state_root: Hash32,
    pub withdraw_root: Hash32,
    pub data_hash: Hash32,
    pub tx_bytes: Vec<u8>,
    pub is_padding: bool,
}

/// Mathematical image of a `ChunkInfo`.
pub ghost struct ChunkInfoView {
    pub chain_id: u64,
    pub prev_state_root: Seq<u8>,
    pub post_state_root: Seq<u8>,
    pub withdraw_root: Seq<u8>,
    pub data_hash: Seq<u8>,
    pub tx_bytes: Seq<u8>,
    pub is_padding: bool,
}

impl View for ChunkInfo {
    type V = ChunkInfoView;

    open spec fn view(&self) -> ChunkInfoView {
        ChunkInfoView {
            chain_id: self.chain_id,
            prev_state_root: self.prev_state_root@,
            post_state_root: self.post_state_root@,
            withdraw_root: self.withdraw_root@,
            data_hash: self.data_hash@,
            tx_bytes: self.tx_bytes@,
            is_padding: self.is_padding,
        }
    }
}

impl ChunkInfo {
    /// All four hash fields are exactly 32 bytes.
    pub open spec fn wf(self) -> bool {
        &&& self.prev_state_root.wf()
        &&& self.post_state_root.wf()
        &&& self.withdraw_root.wf()
        &&& self.data_hash.wf()
    }
}

/// A chunk-level proof: the embedded base proof, the protocol blob, the
/// chunk metadata, and the per-sub-circuit row usage.
#[derive(Clone, Debug)]
pub struct ChunkProof {
    pub protocol: Vec<u8>,
    pub proof: Proof,
    pub chunk_info: ChunkInfo,
    pub row_usages: Vec<SubCircuitRowUsage>,
}

/// Mathematical image of a `ChunkProof`.
pub ghost struct ChunkProofView {
    pub protocol: Seq<u8>,
    pub proof: ProofView,
    pub chunk_info: ChunkInfoView,
    pub row_usages: Seq<RowUsageView>,
}

impl View for ChunkProof {
    type V = ChunkProofView;

    open spec fn view(&self) -> ChunkProofView {
        ChunkProofView {
            protocol: self.protocol@,
            proof: self.proof@,
            chunk_info: self.chunk_info@,
            row_usages: Seq::new(self.row_usages@.len(), |i: int| self.row_usages@[i]@),
        }
    }
}

/// A batch-level proof: the aggregation of chunk proofs the service computed,
/// carried with the protocol blob and the batch hash.
#[derive(Clone, Debug)]
pub struct BatchProof {
    pub protocol: Vec<u8>,
    pub proof: Proof,
    pub batch_hash: Hash32,
}

/// Mathematical image of a `BatchProof`.
pub ghost struct BatchProofView {
    pub protocol: Seq<u8>,
    pub proof: ProofView,
    pub batch_hash: Seq<u8>,
}

impl View for BatchProof {
    type V = BatchProofView;

    open spec fn view(&self) -> BatchProofView {
        BatchProofView {
            protocol: self.protocol@,
            proof: self.proof@,
            batch_hash: self.batch_hash@,
        }
    }
}

/// The final on-chain proof: a bundle aggregating batch proofs.
#[derive(Clone, Debug)]
pub struct BundleProof {
    pub on_chain_proof: Proof,
}

impl View for BundleProof {
    type V = ProofView;

    open spec fn view(&self) -> ProofView {
        self.on_chain_proof@
    }
}

/// Input payload of a chunk proving task: the hashes of the blocks that
/// compose the chunk, in order.
#[derive(Clone, Debug)]
pub struct ChunkTaskDetail {
    pub block_hashes: Vec<Hash32>,
}

/// Input payload of a bundle proving task: the batch proofs to aggregate, in
/// order.
#[derive(Clone, Debug)]
pub struct BundleTaskDetail {
    pub batch_proofs: Vec<BatchProof>,
}

} // verus!
