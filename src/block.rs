//! Blocks of a hash chain and the proof-of-work puzzle that each one poses.
use vstd::prelude::*;
use vstd::arithmetic::power2::{lemma2_to64, pow2};

use sha2::{Digest, Sha256};

use crate::text::{decimal, hex, push_char, push_decimal, push_hex};
use vstd::string::StringExecFns;

verus! {

/// A SHA-256 digest.
pub type Hash = [u8; 32];

/// The SHA-256 digest of the UTF-8 encoding of `text`.
pub uninterp spec fn sha256(text: Seq<char>) -> Seq<u8>;

/// Relies on sha2::Sha256 (through Digest::digest): the digest of the text's UTF-8 bytes,
/// which depends on the text alone.
#[verifier::external_body]
fn sha256_of(text: &str) -> (r: Hash)
    ensures
        r@ == sha256(text@),
{
    Sha256::digest(text.as_bytes()).into()
}

/// The digest `h` ends in at least `difficulty` zero bits: its last `difficulty / 8` bytes
/// are zero and the byte before them is a multiple of `2^(difficulty % 8)`.
pub open spec fn satisfies_difficulty(difficulty: u8, h: Seq<u8>) -> bool {
    let n_bytes = difficulty as int / 8;
    let n_bits = difficulty as nat % 8;
    &&& forall|i: int| h.len() - n_bytes <= i < h.len() ==> h[i] == 0
    &&& h[h.len() - n_bytes - 1] as nat % pow2(n_bits) == 0
}

/// The text that is hashed for a block with these fields and the given proof:
/// `prev_hash:generation:difficulty:data:proof`, the previous hash in hex.
pub open spec fn hash_text(
    prev_hash: Seq<u8>,
    generation: u64,
    difficulty: u8,
    data: Seq<char>,
    proof: u64,
) -> Seq<char> {
    hex(prev_hash) + seq![':'] + decimal(generation as nat) + seq![':'] + decimal(
        difficulty as nat,
    ) + seq![':'] + data + seq![':'] + decimal(proof as nat)
}

#[derive(Debug, Clone)]
pub struct Block {
    pub prev_hash: Hash,
    pub generation: u64,
    pub difficulty: u8,
    pub data: String,
    pub proof: Option<u64>,
}

impl Block {
    /// The text hashed for this block with its proof set to `proof`.
    pub open spec fn text_for(&self, proof: u64) -> Seq<char> {
        hash_text(self.prev_hash@, self.generation, self.difficulty, self.data@, proof)
    }

    /// The block's digest with its proof set to `proof`.
    pub open spec fn digest_for(&self, proof: u64) -> Seq<u8> {
        sha256(self.text_for(proof))
    }

    /// `proof` solves this block's puzzle.
    pub open spec fn solved_by(&self, proof: u64) -> bool {
        satisfies_difficulty(self.difficulty, self.digest_for(proof))
    }

    /// The first block of a chain: zero previous hash, generation 0, no data, no proof.
    pub fn initial(difficulty: u8) -> (b: Block)
        ensures
            b.prev_hash@ == Seq::new(32, |i: int| 0u8),
            b.generation == 0,
            b.difficulty == difficulty,
            b.data@ == Seq::<char>::empty(),
            b.proof is None,
    {
        let b = Block {
            prev_hash: [0u8; 32],
            generation: 0,
            difficulty,
            data: String::new(),
            proof: None,
        };
        assert(b.prev_hash@ =~= Seq::new(32, |i: int| 0u8));
        b
    }

    /// A block that can follow the mined block `previous` in the chain.
    pub fn next(previous: &Block, data: String) -> (b: Block)
        requires
            previous.proof is Some,
            previous.generation < u64::MAX,
        ensures
            b.prev_hash@ == previous.digest_for(previous.proof->0),
            b.generation == previous.generation + 1,
            b.difficulty == previous.difficulty,
            b.data == data,
            b.proof is None,
    {
        Block {
            prev_hash: previous.hash(),
            generation: previous.generation + 1,
            difficulty: previous.difficulty,
            data,
            proof: None,
        }
    }

    /// The text this block would hash to with its proof set to `proof`.
    pub fn hash_string_for_proof(&self, proof: u64) -> (s: String)
        ensures
            s@ == self.text_for(proof),
    {
        let mut s = String::new();
        push_hex(&mut s, self.prev_hash.as_slice());
        push_char(&mut s, ':');
        push_decimal(&mut s, self.generation);
        push_char(&mut s, ':');
        push_decimal(&mut s, self.difficulty as u64);
        push_char(&mut s, ':');
        s.append(self.data.as_str());
        push_char(&mut s, ':');
        push_decimal(&mut s, proof);
        assert(s@ =~= self.text_for(proof));
        s
    }

    /// The text this mined block hashes to.
    pub fn hash_string(&self) -> (s: String)
        requires
            self.proof is Some,
        ensures
            s@ == self.text_for(self.proof->0),
    {
        let p = self.proof.unwrap();
        self.hash_string_for_proof(p)
    }

    /// The digest this block would have with its proof set to `proof`.
    pub fn hash_for_proof(&self, proof: u64) -> (h: Hash)
        ensures
            h@ == self.digest_for(proof),
    {
        let s = self.hash_string_for_proof(proof);
        sha256_of(s.as_str())
    }

    /// The digest of this mined block.
    pub fn hash(&self) -> (h: Hash)
        requires
            self.proof is Some,
        ensures
            h@ == self.digest_for(self.proof->0),
    {
        let p = self.proof.unwrap();
        self.hash_for_proof(p)
    }

    /// Records `proof` as the block's proof; the other fields stay as they were.
    pub fn set_proof(&mut self, proof: u64)
        ensures
            *final(self) == (Block { proof: Some(proof), ..*old(self) }),
    {
        self.proof = Some(proof);
    }

    /// Whether `hash` ends in at least `difficulty` zero bits.
    pub fn hash_satisfies_difficulty(difficulty: u8, hash: Hash) -> (r: bool)
        ensures
            r == satisfies_difficulty(difficulty, hash@),
    {
        let n_bytes: usize = (difficulty / 8) as usize;
        let n_bits: u8 = difficulty % 8;
        let last_n_bytes: usize = 32 - n_bytes;
        let mut i: usize = last_n_bytes;
        while i < 32
            invariant
                last_n_bytes <= i <= 32,
                last_n_bytes == 32 - difficulty as int / 8,
                forall|j: int| last_n_bytes <= j < i ==> hash@[j] == 0,
            decreases 32 - i,
        {
            if hash[i] != 0u8 {
                return false;
            }
            i = i + 1;
        }
        let mod_val: u8 = low_bits_modulus(n_bits);
        hash[last_n_bytes - 1] % mod_val == 0
    }

    /// Whether `proof` solves this block's puzzle.
    pub fn is_valid_for_proof(&self, proof: u64) -> (r: bool)
        ensures
            r == self.solved_by(proof),
    {
        Self::hash_satisfies_difficulty(self.difficulty, self.hash_for_proof(proof))
    }

    /// Whether the block holds a proof that solves its puzzle.
    pub fn is_valid(&self) -> (r: bool)
        ensures
            r == (self.proof is Some && self.solved_by(self.proof->0)),
    {
        match self.proof {
            None => false,
            Some(p) => self.is_valid_for_proof(p),
        }
    }

    /// Tries proofs 0, 1, 2, ... in turn and records the first that solves the puzzle.
    /// Where no `u64` solves it the block is left as it was.
    pub fn mine_serial(&mut self)
        ensures
            (exists|p: u64| old(self).solved_by(p)) ==> {
                &&& final(self).proof is Some
                &&& old(self).solved_by(final(self).proof->0)
                &&& forall|q: u64| q < final(self).proof->0 ==> !old(self).solved_by(q)
                &&& *final(self) == (Block { proof: final(self).proof, ..*old(self) })
            },
            !(exists|p: u64| old(self).solved_by(p)) ==> *final(self) == *old(self),
    {
        let mut p: u64 = 0;
        loop
            invariant
                *self == *old(self),
                forall|q: u64| q < p ==> !self.solved_by(q),
            decreases u64::MAX - p,
        {
            if self.is_valid_for_proof(p) {
                self.proof = Some(p);
                return;
            }
            if p == u64::MAX {
                assert forall|q: u64| !self.solved_by(q) by {
                    if q < p {
                    }
                }
                return;
            }
            p = p + 1;
        }
    }
}

/// `2^n_bits`, the modulus that keeps the low `n_bits` bits of a byte.
fn low_bits_modulus(n_bits: u8) -> (m: u8)
    requires
        n_bits < 8,
    ensures
        m > 0,
        m as nat == pow2(n_bits as nat),
{
    proof {
        lemma2_to64();
    }
    match n_bits {
        0 => 1,
        1 => 2,
        2 => 4,
        3 => 8,
        4 => 16,
        5 => 32,
        6 => 64,
        _ => 128,
    }
}

} // verus!
