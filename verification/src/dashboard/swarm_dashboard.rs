//! The data the swarm dashboard shows about Pāṇinian derivations and
//! phoneme vectors, and the lookups its commands answer with. Node
//! telemetry (latencies, load, health percentages) is measured in floating
//! point and lives with the desktop shell.

use vstd::prelude::*;
use crate::text::{push_str, str_eq};

verus! {

/// Status of a node in the mesh.
#[derive(Debug, Clone, Copy, PartialEq, Eq, Structural)]
#[allow(non_camel_case_types)]
pub enum NodeStatus {
    ONLINE,
    DEGRADED,
    OFFLINE,
    SYNCING,
}

/// A Pāṇinian rule (sūtra).
#[derive(Debug, Clone)]
pub struct SutraRule {
    pub sutra_id: String,
    pub text_deva: String,
    pub text_slp1: String,
    pub classification: String,
    pub summary: String,
    pub paribhasha_principle: Option<String>,
    pub blocked_sutras: Option<Vec<String>>,
}

/// A morphological or phonological term inside a derivation state.
#[derive(Debug, Clone)]
pub struct DerivationTerm {
    pub id: String,
    pub kind: String,
    pub source_form: String,
    pub surface_form: String,
    pub designations: Vec<String>,
}

/// One immutable state of a derivation.
#[derive(Debug, Clone)]
pub struct DerivationState {
    pub id: String,
    pub hash: String,
    pub step_index: usize,
    pub schema: String,
    pub terms: Vec<DerivationTerm>,
    pub applied_rule: Option<SutraRule>,
    pub mutation_type: Option<String>,
    pub proof_verified: bool,
}

/// A whole derivation: its rules, its states, and the proof over them.
#[derive(Debug, Clone)]
pub struct DerivationTrace {
    pub ir_version: String,
    pub derivation_id: String,
    pub target_word: String,
    pub description: String,
    pub status: String,
    pub final_surface_form: String,
    pub root: String,
    pub rules: Vec<SutraRule>,
    pub states: Vec<DerivationState>,
    pub cryptographic_proof: ProofVerification,
}

#[derive(Debug, Clone)]
pub struct ProofVerification {
    pub root_hash: String,
    pub terminal_hash: String,
    pub algorithm: String,
    pub verified: bool,
}

/// The articulatory vector of one phoneme.
#[derive(Debug, Clone)]
pub struct PhonemeVectorData {
    pub phoneme: String,
    pub slp1: String,
    pub deva: String,
    pub upc8: u8,
    pub upc8_hex: String,
    pub pvc16_raw: u16,
    pub pvc16_hex: String,
    pub is_vowel: bool,
    pub sthana_name: String,
    pub prayatna_name: String,
    pub is_palatalized: bool,
    pub pratyahara_bit_index: u8,
    pub pratyahara_mask_u64: String,
    pub pratyaharas_contained: Vec<String>,
    pub is_ukrainian: bool,
    pub ipa: String,
}

/// Index of the first entry whose key is `k`, looking from `from` on, or
/// `-1` when there is none.
pub open spec fn key_index<V>(s: Seq<(String, V)>, k: Seq<char>, from: int) -> int
    decreases s.len() - from,
{
    if from < 0 || from >= s.len() {
        -1
    } else if s[from].0@ == k {
        from
    } else {
        key_index(s, k, from + 1)
    }
}

/// The value stored under `key`, the first one when several share it.
fn lookup<'a, V>(entries: &'a Vec<(String, V)>, key: &str) -> (r: Option<&'a V>)
    ensures
        match r {
            Some(v) => key_index(entries@, key@, 0) >= 0 && *v == entries@[key_index(
                entries@,
                key@,
                0,
            )].1,
            None => key_index(entries@, key@, 0) == -1,
        },
{
    let mut i: usize = 0;
    while i < entries.len()
        invariant
            i <= entries@.len(),
            key_index(entries@, key@, i as int) == key_index(entries@, key@, 0),
        decreases entries@.len() - i,
    {
        if str_eq(entries[i].0.as_str(), key) {
            return Some(&entries[i].1);
        }
        i = i + 1;
    }
    None
}

/// The message a lookup that found nothing answers with.
pub fn not_found(prefix: &str, key: &str) -> (m: String)
    ensures
        m@ == prefix@ + key@,
{
    let mut m = String::new();
    push_str(&mut m, prefix);
    push_str(&mut m, key);
    m
}

/// The derivation trace stored under `derivation_id`, or why there is none.
pub fn query_derivation_trace<'a>(
    traces: &'a Vec<(String, DerivationTrace)>,
    derivation_id: &str,
) -> (r: Result<&'a DerivationTrace, String>)
    ensures
        match r {
            Ok(t) => key_index(traces@, derivation_id@, 0) >= 0 && *t == traces@[key_index(
                traces@,
                derivation_id@,
                0,
            )].1,
            Err(m) => key_index(traces@, derivation_id@, 0) == -1 && m@
                == "Derivation trace not found for ID: "@ + derivation_id@,
        },
{
    match lookup(traces, derivation_id) {
        Some(t) => Ok(t),
        None => Err(not_found("Derivation trace not found for ID: ", derivation_id)),
    }
}

/// The phoneme vector stored under `phoneme_or_code`, or why there is none.
pub fn stream_phoneme_vector<'a>(
    phonemes: &'a Vec<(String, PhonemeVectorData)>,
    phoneme_or_code: &str,
) -> (r: Result<&'a PhonemeVectorData, String>)
    ensures
        match r {
            Ok(p) => key_index(phonemes@, phoneme_or_code@, 0) >= 0 && *p == phonemes@[key_index(
                phonemes@,
                phoneme_or_code@,
                0,
            )].1,
            Err(m) => key_index(phonemes@, phoneme_or_code@, 0) == -1 && m@
                == "Phoneme data not found for: "@ + phoneme_or_code@,
        },
{
    match lookup(phonemes, phoneme_or_code) {
        Some(p) => Ok(p),
        None => Err(not_found("Phoneme data not found for: ", phoneme_or_code)),
    }
}

} // verus!
