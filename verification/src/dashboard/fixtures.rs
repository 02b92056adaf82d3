//! The dashboard's seed data: the two canonical Pāṇinian derivations
//! (bhavati, dadati) and the phoneme registry, keyed as the lookups expect
//! them.

use vstd::prelude::*;
use super::swarm_dashboard::{
    DerivationState, DerivationTerm, DerivationTrace, PhonemeVectorData, ProofVerification,
    SutraRule,
};

verus! {

/// Owned copies of `items`, in order.
fn owned(items: Vec<&str>) -> (r: Vec<String>)
    ensures
        r@.len() == items@.len(),
        forall|i: int| 0 <= i < items@.len() ==> #[trigger] r@[i]@ == items@[i]@,
{
    let mut r: Vec<String> = Vec::new();
    let mut i: usize = 0;
    while i < items.len()
        invariant
            i <= items@.len(),
            r@.len() == i,
            forall|j: int| 0 <= j < i ==> #[trigger] r@[j]@ == items@[j]@,
        decreases items@.len() - i,
    {
        r.push(String::from_str(items[i]));
        i = i + 1;
    }
    r
}

/// A rule with no paribhāṣā note and nothing it blocks.
fn rule(id: &str, deva: &str, slp1: &str, class: &str, summary: &str) -> (r: SutraRule)
    ensures
        r.sutra_id@ == id@,
        r.text_deva@ == deva@,
        r.text_slp1@ == slp1@,
        r.classification@ == class@,
        r.summary@ == summary@,
        r.paribhasha_principle is None,
        r.blocked_sutras is None,
{
    SutraRule {
        sutra_id: String::from_str(id),
        text_deva: String::from_str(deva),
        text_slp1: String::from_str(slp1),
        classification: String::from_str(class),
        summary: String::from_str(summary),
        paribhasha_principle: None,
        blocked_sutras: None,
    }
}

fn term(id: &str, kind: &str, source: &str, surface: &str, designations: Vec<&str>) -> (r:
    DerivationTerm)
    ensures
        r.id@ == id@,
        r.kind@ == kind@,
        r.source_form@ == source@,
        r.surface_form@ == surface@,
        r.designations@.len() == designations@.len(),
{
    DerivationTerm {
        id: String::from_str(id),
        kind: String::from_str(kind),
        source_form: String::from_str(source),
        surface_form: String::from_str(surface),
        designations: owned(designations),
    }
}

/// A verified state of the version-0.1 state schema.
fn state(
    id: &str,
    hash: &str,
    step_index: usize,
    terms: Vec<DerivationTerm>,
    applied_rule: Option<SutraRule>,
    mutation: &str,
) -> (r: DerivationState)
    ensures
        r.id@ == id@,
        r.hash@ == hash@,
        r.step_index == step_index,
        r.schema@ == "panini-state/0.1"@,
        r.terms@ == terms@,
        r.applied_rule == applied_rule,
        r.mutation_type matches Some(m) && m@ == mutation@,
        r.proof_verified,
{
    DerivationState {
        id: String::from_str(id),
        hash: String::from_str(hash),
        step_index,
        schema: String::from_str("panini-state/0.1"),
        terms,
        applied_rule,
        mutation_type: Some(String::from_str(mutation)),
        proof_verified: true,
    }
}

/// What every fixture derivation keeps: its steps are numbered from 0 in
/// order, only the first applies no rule, and the proof record names the
/// first state's hash as its root and the last state's as its terminal.
pub open spec fn well_chained(t: DerivationTrace) -> bool {
    &&& t.states@.len() > 0
    &&& forall|i: int| 0 <= i < t.states@.len() ==> #[trigger] t.states@[i].step_index == i
    &&& t.states@[0].applied_rule is None
    &&& forall|i: int| 1 <= i < t.states@.len() ==> #[trigger] t.states@[i].applied_rule is Some
    &&& t.cryptographic_proof.root_hash@ == t.states@[0].hash@
    &&& t.cryptographic_proof.terminal_hash@ == t.states@[t.states@.len() - 1].hash@
    &&& t.cryptographic_proof.verified
}

/// The ids of a derivation's rules, in order.
pub open spec fn rule_ids(t: DerivationTrace) -> Seq<Seq<char>> {
    t.rules@.map_values(|r: SutraRule| r.sutra_id@)
}

/// The id of the rule each state applies (none for the input state).
pub open spec fn applied_ids(t: DerivationTrace) -> Seq<Option<Seq<char>>> {
    t.states@.map_values(
        |s: DerivationState|
            match s.applied_rule {
                Some(r) => Some(r.sutra_id@),
                None => None,
            },
    )
}

/// A state's terms, as (id, surface form) pairs.
pub open spec fn term_pairs(s: DerivationState) -> Seq<(Seq<char>, Seq<char>)> {
    s.terms@.map_values(|x: DerivationTerm| (x.id@, x.surface_form@))
}

/// Each state's terms, as (id, surface form) pairs.
pub open spec fn state_terms(t: DerivationTrace) -> Seq<Seq<(Seq<char>, Seq<char>)>> {
    t.states@.map_values(|s: DerivationState| term_pairs(s))
}

/// What kind of step each state records.
pub open spec fn mutations(t: DerivationTrace) -> Seq<Option<Seq<char>>> {
    t.states@.map_values(
        |s: DerivationState|
            match s.mutation_type {
                Some(m) => Some(m@),
                None => None,
            },
    )
}

/// √bhū in the present tense, third person singular: bhavati.
pub fn bhavati_trace() -> (t: DerivationTrace)
    ensures
        t.derivation_id@ == "drv:canonical:bhavati-v0.1"@,
        t.final_surface_form@ == "bhavati"@,
        t.status@ == "success"@,
        t.rules@.len() == 8,
        t.states@.len() == 9,
        well_chained(t),
        rule_ids(t) == seq![
            "3.2.123"@, "3.4.78"@, "1.3.9"@, "3.1.68"@, "3.4.113"@, "7.3.84"@, "6.1.78"@, "1.4.14"@,
        ],
        applied_ids(t) == seq![
            None,
            Some("3.2.123"@),
            Some("3.4.78"@),
            Some("1.3.9"@),
            Some("3.1.68"@),
            Some("3.4.113"@),
            Some("7.3.84"@),
            Some("6.1.78"@),
            Some("1.4.14"@),
        ],
        state_terms(t) == seq![
            seq![("term:root-bhu"@, "bhū"@)],
            seq![("term:root-bhu"@, "bhū"@), ("term:lakara-lat"@, "laṭ"@)],
            seq![("term:root-bhu"@, "bhū"@), ("term:pratyaya-tip"@, "tip"@)],
            seq![("term:root-bhu"@, "bhū"@), ("term:pratyaya-ti"@, "ti"@)],
            seq![("term:root-bhu"@, "bhū"@), ("term:vikarana-sap"@, "śap"@), ("term:pratyaya-ti"@, "ti"@)],
            seq![("term:root-bhu"@, "bhū"@), ("term:vikarana-a"@, "a"@), ("term:pratyaya-ti"@, "ti"@)],
            seq![("term:anga-bho"@, "bho"@), ("term:vikarana-a"@, "a"@), ("term:pratyaya-ti"@, "ti"@)],
            seq![("term:stem-bhav"@, "bhav"@), ("term:vikarana-a"@, "a"@), ("term:pratyaya-ti"@, "ti"@)],
            seq![("term:final-pada"@, "bhavati"@)],
        ],
        mutations(t) == seq![
            Some("INITIAL"@),
            Some("AFFIXATION"@),
            Some("AFFIXATION"@),
            Some("LOPA"@),
            Some("AFFIXATION"@),
            Some("SAMJNA"@),
            Some("GUNA"@),
            Some("SANDHI"@),
            Some("SAMJNA"@),
        ],
{
    let h0 = "state:sha256:d8c5208bcae41a0ba1a29f8f2b7d483fb3ceb8b09d0cb093ffea75bbcaee1ea7";
    let h8 = "state:sha256:e647bc51b9e6f3128ef35b2e95a9992d9dcfdcb95e1e1a539bc27fa7a26f8664";
    let rules = vec![
        rule("3.2.123", "वर्तमाने लट्", "vartamAne laT", "VIDHI", "Affixes the lakāra \"laṭ\" to denote action in the present tense."),
        rule("3.4.78", "तिप्तस्झिसिप्थस्थमिब्वस्मस्तातांझथांसाथांध्वमिड्वहिमहिङ्", "tiptasjhisipTasTamibvasmastAtAMJATAMsATAMDvamidvahimahiG", "VIDHI", "Substitutes lakāra with 18 tiṅ affixes; selects 3rd singular parasmaipada \"tip\"."),
        rule("1.3.9", "तस्य लोपः", "tasya lopaH", "VIDHI", "Elides the it-marker \"p\" while preserving the \"pit\" property tag."),
        rule("3.1.68", "कर्तरि शप्", "kartari Sap", "VIDHI", "Inserts vikaraṇa affix \"Śap\" after root √bhū before sārvadhātuka affix."),
        rule("3.4.113", "तिङ्शित्सार्वधातुकम्", "tiNSitsArvaDAtukam", "SAMJNA", "Assigns sārvadhātuka saṃjñā to \"Śap\" (Ś-it) and \"tip\" (tiṅ)."),
        rule("7.3.84", "सार्वधातुकार्धधातुकयोः", "sArvaDAtukArDaDAtukayoH", "VIDHI", "Applies guṇa substitution to the final vowel of the aṅga (ū -> o) before sārvadhātuka \"a\"."),
        rule("6.1.78", "एचोऽयवायावः", "eco 'yavAyAvaH", "VIDHI", "Sandhi replacement: \"o\" followed by vowel \"a\" transforms to \"av\" (bho + a -> bhav + a)."),
        rule("1.4.14", "सुप्तिङन्तं पदम्", "suptiGantaM padam", "SAMJNA", "Designates the complete tiṅ-inflected form \"bhavati\" as a valid syntactic Pada."),
    ];
    let states = vec![
        state("state:bhavati:00-input", h0, 0, vec![
            term("term:root-bhu", "dhAtu", "bhū", "bhū", vec!["dhātu", "aṅga", "bhvādi"]),
        ], None, "INITIAL"),
        state("state:bhavati:01-lat", "state:sha256:a6b610c14b7e8d75cf701be5e921d01ee3fdf9bcf693e506990d0b04c86ec596", 1, vec![
            term("term:root-bhu", "dhAtu", "bhū", "bhū", vec!["dhātu", "aṅga"]),
            term("term:lakara-lat", "lakAra", "laṭ", "laṭ", vec!["vartamāna", "prathama"]),
        ], Some(rule("3.2.123", "वर्तमाने लट्", "vartamAne laT", "VIDHI", "Affixes present lakāra laṭ.")), "AFFIXATION"),
        state("state:bhavati:02-tip", "state:sha256:7bc59d81d2dfbc1cf8da294c73a216db8a13ef2b8df11559eeecfc316c4c0174", 2, vec![
            term("term:root-bhu", "dhAtu", "bhū", "bhū", vec!["dhātu", "aṅga"]),
            term("term:pratyaya-tip", "pratyaya", "tip", "tip", vec!["tiṅ", "parasmaipada", "pit"]),
        ], Some(rule("3.4.78", "तिप्तस्झि...", "tiptasjhi...", "VIDHI", "Substitutes laṭ with tip (3rd singular parasmaipada).")), "AFFIXATION"),
        state("state:bhavati:03-it-lopa", "state:sha256:b1ec7daea41e06d649da391b1a7d6560daaf47aa6a4387d8cb27efc90b63cbb0", 3, vec![
            term("term:root-bhu", "dhAtu", "bhū", "bhū", vec!["dhātu", "aṅga"]),
            term("term:pratyaya-ti", "pratyaya", "tip", "ti", vec!["tiṅ", "pit"]),
        ], Some(rule("1.3.9", "तस्य लोपः", "tasya lopaH", "VIDHI", "Elides it-marker p in tip -> ti.")), "LOPA"),
        state("state:bhavati:04-sap", "state:sha256:1a84f339cf01cb4d14210459c3d40ef6731be7a7bf734e40e6573c52e8055627", 4, vec![
            term("term:root-bhu", "dhAtu", "bhū", "bhū", vec!["dhātu", "aṅga"]),
            term("term:vikarana-sap", "pratyaya", "śap", "śap", vec!["vikaraṇa", "śit", "pit"]),
            term("term:pratyaya-ti", "pratyaya", "tip", "ti", vec!["tiṅ", "pit"]),
        ], Some(rule("3.1.68", "कर्तरि शप्", "kartari Sap", "VIDHI", "Inserts vikaraṇa affix śap between bhū and ti.")), "AFFIXATION"),
        state("state:bhavati:05-sap-lopa", "state:sha256:56bce457c1d3bf30f04c643b1859c25db94474b34b6b6685718dfd374aa3e843", 5, vec![
            term("term:root-bhu", "dhAtu", "bhū", "bhū", vec!["dhātu", "aṅga"]),
            term("term:vikarana-a", "pratyaya", "śap", "a", vec!["vikaraṇa", "sārvadhātuka"]),
            term("term:pratyaya-ti", "pratyaya", "tip", "ti", vec!["tiṅ", "sārvadhātuka"]),
        ], Some(rule("3.4.113", "तिङ्शित्सार्वधातुकम्", "tiNSitsArvaDAtukam", "SAMJNA", "Designates śap and ti as sārvadhātuka; elides ś and p -> a.")), "SAMJNA"),
        state("state:bhavati:06-guna", "state:sha256:0d18d4512e0e0f523173d12d09ff93ff790f977beaece5f7fe51dc1b764bfe47", 6, vec![
            term("term:anga-bho", "aGga", "bhū", "bho", vec!["aṅga", "guṇa-applied"]),
            term("term:vikarana-a", "pratyaya", "śap", "a", vec!["vikaraṇa", "sārvadhātuka"]),
            term("term:pratyaya-ti", "pratyaya", "tip", "ti", vec!["tiṅ", "sārvadhātuka"]),
        ], Some(rule("7.3.84", "सार्वधातुकार्धधातुकयोः", "sArvaDAtukArDaDAtukayoH", "VIDHI", "Applies guṇa to root vowel: bhū -> bho.")), "GUNA"),
        state("state:bhavati:07-sandhi", "state:sha256:8f4c281df6be48a5df9ee2ca531db5caebbc8b6fe2d721fa6252bf466986427d", 7, vec![
            term("term:stem-bhav", "aGga", "bho", "bhav", vec!["aṅga", "sandhi-applied"]),
            term("term:vikarana-a", "pratyaya", "śap", "a", vec!["vikaraṇa"]),
            term("term:pratyaya-ti", "pratyaya", "tip", "ti", vec!["tiṅ"]),
        ], Some(rule("6.1.78", "एचोऽयवायावः", "eco 'yavAyAvaH", "VIDHI", "Sandhi: o + a -> av + a (bhav + a).")), "SANDHI"),
        state("state:bhavati:08-terminal", h8, 8, vec![
            term("term:final-pada", "pada", "bhū+tip", "bhavati", vec!["pada", "tiṅanta", "kartari", "lat", "prathama", "ekavacana"]),
        ], Some(rule("1.4.14", "सुप्तिङन्तं पदम्", "suptiGantaM padam", "SAMJNA", "Declares bhavati as a completed syntactic Pada.")), "SAMJNA"),
    ];
    assert(term_pairs(states@[0]) =~= seq![("term:root-bhu"@, "bhū"@)]);
    assert(term_pairs(states@[1]) =~= seq![("term:root-bhu"@, "bhū"@), ("term:lakara-lat"@, "laṭ"@)]);
    assert(term_pairs(states@[2]) =~= seq![("term:root-bhu"@, "bhū"@), ("term:pratyaya-tip"@, "tip"@)]);
    assert(term_pairs(states@[3]) =~= seq![("term:root-bhu"@, "bhū"@), ("term:pratyaya-ti"@, "ti"@)]);
    assert(term_pairs(states@[4]) =~= seq![("term:root-bhu"@, "bhū"@), ("term:vikarana-sap"@, "śap"@), ("term:pratyaya-ti"@, "ti"@)]);
    assert(term_pairs(states@[5]) =~= seq![("term:root-bhu"@, "bhū"@), ("term:vikarana-a"@, "a"@), ("term:pratyaya-ti"@, "ti"@)]);
    assert(term_pairs(states@[6]) =~= seq![("term:anga-bho"@, "bho"@), ("term:vikarana-a"@, "a"@), ("term:pratyaya-ti"@, "ti"@)]);
    assert(term_pairs(states@[7]) =~= seq![("term:stem-bhav"@, "bhav"@), ("term:vikarana-a"@, "a"@), ("term:pratyaya-ti"@, "ti"@)]);
    assert(term_pairs(states@[8]) =~= seq![("term:final-pada"@, "bhavati"@)]);
    DerivationTrace {
        ir_version: String::from_str("panini-derivation-ir/0.1"),
        derivation_id: String::from_str("drv:canonical:bhavati-v0.1"),
        target_word: String::from_str("भवति (bhavati)"),
        description: String::from_str("Derivation of root √bhū (भू सत्तायाम्, 1st gaṇa Bhvādi) in present tense 3rd person singular (laṭ, tiṅ-tip)."),
        status: String::from_str("success"),
        final_surface_form: String::from_str("bhavati"),
        root: String::from_str("√bhū (भू)"),
        rules,
        states,
        cryptographic_proof: ProofVerification {
            root_hash: String::from_str(h0),
            terminal_hash: String::from_str(h8),
            algorithm: String::from_str("SHA-256"),
            verified: true,
        },
    }
}

/// A rule that a paribhāṣā principle lets win over others.
fn ruling(base: SutraRule, principle: &str, blocked: Option<Vec<String>>) -> (r: SutraRule)
    ensures
        r.sutra_id == base.sutra_id,
        r.paribhasha_principle matches Some(p) && p@ == principle@,
        r.blocked_sutras == blocked,
{
    SutraRule {
        paribhasha_principle: Some(String::from_str(principle)),
        blocked_sutras: blocked,
        ..base
    }
}

/// √dā in the present tense, third person singular: dadāti, where the
/// special rule 2.4.75 blocks the general 3.1.68.
pub fn dadati_trace() -> (t: DerivationTrace)
    ensures
        t.derivation_id@ == "drv:canonical:dadati-v0.1"@,
        t.final_surface_form@ == "dadāti"@,
        t.status@ == "success"@,
        t.rules@.len() == 6,
        t.states@.len() == 7,
        well_chained(t),
        rule_ids(t) == seq!["3.2.123"@, "3.4.78"@, "2.4.75"@, "6.1.10"@, "7.4.59"@, "1.4.14"@],
        t.rules@[2].paribhasha_principle matches Some(p) && p@
            == "Apavāda > Utsarga (Special exception 2.4.75 completely blocks general 3.1.68 Śap)"@,
        t.rules@[2].blocked_sutras matches Some(b) && b@.len() == 1 && b@[0]@
            == "3.1.68 kartari śap"@,
        applied_ids(t) == seq![
            None,
            Some("3.2.123"@),
            Some("3.4.78"@),
            Some("2.4.75"@),
            Some("6.1.10"@),
            Some("7.4.59"@),
            Some("1.4.14"@),
        ],
        state_terms(t) == seq![
            seq![("term:root-da"@, "dā"@)],
            seq![("term:root-da"@, "dā"@), ("term:lakara-lat"@, "laṭ"@)],
            seq![("term:root-da"@, "dā"@), ("term:pratyaya-ti"@, "ti"@)],
            seq![("term:root-da"@, "dā"@), ("term:pratyaya-ti"@, "ti"@)],
            seq![("term:abhyasa-da"@, "dā"@), ("term:root-da"@, "dā"@), ("term:pratyaya-ti"@, "ti"@)],
            seq![("term:abhyasa-da-short"@, "da"@), ("term:root-da"@, "dā"@), ("term:pratyaya-ti"@, "ti"@)],
            seq![("term:final-pada-dadati"@, "dadāti"@)],
        ],
        mutations(t) == seq![
            Some("INITIAL"@),
            Some("AFFIXATION"@),
            Some("AFFIXATION"@),
            Some("LOPA"@),
            Some("AFFIXATION"@),
            Some("SAMJNA"@),
            Some("SAMJNA"@),
        ],
{
    let h0 = "state:sha256:4b9101f3b0e35261d7b322a3683fba227653bbd0a3d46386c67fa128adbc44e1";
    let h6 = "state:sha256:1a84f339cf01cb4d14210459c3d40ef6731be7a7bf734e40e6573c52e8055627";
    let rules = vec![
        rule("3.2.123", "वर्तमाने लट्", "vartamAne laT", "VIDHI", "Affixes present lakāra laṭ."),
        rule("3.4.78", "तिप्तस्झि...", "tiptasjhi...", "VIDHI", "Substitutes laṭ with tip (3rd singular)."),
        ruling(
            rule("2.4.75", "जुहोत्यादिभ्यः श्लुः", "juhotyAdibhyaH SluH", "VIDHI", "Replaces vikaraṇa Śap with Ślu (zero replacement) for 3rd class roots."),
            "Apavāda > Utsarga (Special exception 2.4.75 completely blocks general 3.1.68 Śap)",
            Some(owned(vec!["3.1.68 kartari śap"])),
        ),
        rule("6.1.10", "श्लौ", "SlO", "VIDHI", "Reduplicates the root when Ślu follows (dā -> dā + dā)."),
        rule("7.4.59", "ह्रस्वः", "hrasvaH", "VIDHI", "Shortens the vowel of the reduplicated abhyāsa syllable: dā -> da."),
        rule("1.4.14", "सुप्तिङन्तं पदम्", "suptiGantaM padam", "SAMJNA", "Declares dadāti as a valid Pada."),
    ];
    let states = vec![
        state("state:dadati:00-input", h0, 0, vec![
            term("term:root-da", "dhAtu", "dā", "dā", vec!["dhātu", "juhotyādi"]),
        ], None, "INITIAL"),
        state("state:dadati:01-lat", "state:sha256:5c83b8909187a4de88d927a4e6bbcbcfd263914a8b7c4d51b3ca00d7fae01931", 1, vec![
            term("term:root-da", "dhAtu", "dā", "dā", vec!["dhātu"]),
            term("term:lakara-lat", "lakAra", "laṭ", "laṭ", vec!["vartamāna"]),
        ], Some(rule("3.2.123", "वर्तमाने लट्", "vartamAne laT", "VIDHI", "Affixes present lakāra laṭ.")), "AFFIXATION"),
        state("state:dadati:02-tip", "state:sha256:773ab485be61d67a6d10c144e0573e86cbca388d75cf7940ee95a947bc18a514", 2, vec![
            term("term:root-da", "dhAtu", "dā", "dā", vec!["dhātu"]),
            term("term:pratyaya-ti", "pratyaya", "tip", "ti", vec!["tiṅ", "pit"]),
        ], Some(rule("3.4.78", "तिप्तस्झि...", "tiptasjhi...", "VIDHI", "Selects tip affix.")), "AFFIXATION"),
        state("state:dadati:03-slu-block", "state:sha256:99f8d17baae7752e5d95d18d4512e0e0f523173d12d09ff93ff790f977beaece", 3, vec![
            term("term:root-da", "dhAtu", "dā", "dā", vec!["dhātu", "ślu-environment"]),
            term("term:pratyaya-ti", "pratyaya", "tip", "ti", vec!["tiṅ"]),
        ], Some(ruling(
            rule("2.4.75", "जुहोत्यादिभ्यः श्लुः", "juhotyAdibhyaH SluH", "VIDHI", "Ślu replaces Śap; 3.1.68 blocked by Apavāda priority."),
            "Apavāda > Utsarga",
            None,
        )), "LOPA"),
        state("state:dadati:04-reduplication", "state:sha256:31b1a7d6560daaf47aa6a4387d8cb27efc90b63cbb01a84f339cf01cb4d14210", 4, vec![
            term("term:abhyasa-da", "abhyAsa", "dā", "dā", vec!["abhyāsa"]),
            term("term:root-da", "dhAtu", "dā", "dā", vec!["dhātu", "aṅga"]),
            term("term:pratyaya-ti", "pratyaya", "tip", "ti", vec!["tiṅ"]),
        ], Some(rule("6.1.10", "श्लौ", "SlO", "VIDHI", "Reduplicates root: dā -> dā + dā.")), "AFFIXATION"),
        state("state:dadati:05-abhyasa-shorten", "state:sha256:56bce457c1d3bf30f04c643b1859c25db94474b34b6b6685718dfd374aa3e843", 5, vec![
            term("term:abhyasa-da-short", "abhyAsa", "dā", "da", vec!["abhyāsa", "hrasva"]),
            term("term:root-da", "dhAtu", "dā", "dā", vec!["dhātu", "aṅga"]),
            term("term:pratyaya-ti", "pratyaya", "tip", "ti", vec!["tiṅ"]),
        ], Some(rule("7.4.59", "ह्रस्वः", "hrasvaH", "VIDHI", "Shortens abhyāsa vowel: dā -> da.")), "SAMJNA"),
        state("state:dadati:06-terminal", h6, 6, vec![
            term("term:final-pada-dadati", "pada", "dā+tip", "dadāti", vec!["pada", "tiṅanta", "juhotyādi", "prathama", "ekavacana"]),
        ], Some(rule("1.4.14", "सुप्तिङन्तं पदम्", "suptiGantaM padam", "SAMJNA", "Declares dadāti as a valid syntactic Pada.")), "SAMJNA"),
    ];
    assert(term_pairs(states@[0]) =~= seq![("term:root-da"@, "dā"@)]);
    assert(term_pairs(states@[1]) =~= seq![("term:root-da"@, "dā"@), ("term:lakara-lat"@, "laṭ"@)]);
    assert(term_pairs(states@[2]) =~= seq![("term:root-da"@, "dā"@), ("term:pratyaya-ti"@, "ti"@)]);
    assert(term_pairs(states@[3]) =~= seq![("term:root-da"@, "dā"@), ("term:pratyaya-ti"@, "ti"@)]);
    assert(term_pairs(states@[4]) =~= seq![("term:abhyasa-da"@, "dā"@), ("term:root-da"@, "dā"@), ("term:pratyaya-ti"@, "ti"@)]);
    assert(term_pairs(states@[5]) =~= seq![("term:abhyasa-da-short"@, "da"@), ("term:root-da"@, "dā"@), ("term:pratyaya-ti"@, "ti"@)]);
    assert(term_pairs(states@[6]) =~= seq![("term:final-pada-dadati"@, "dadāti"@)]);
    DerivationTrace {
        ir_version: String::from_str("panini-derivation-ir/0.1"),
        derivation_id: String::from_str("drv:canonical:dadati-v0.1"),
        target_word: String::from_str("ददाति (dadāti)"),
        description: String::from_str("Derivation of root √dā (डुदाञ् दाने, 3rd gaṇa Juhotyādi) in present tense 3rd person singular showing Paribhāṣā conflict resolution (Ślu blocking Śap by Apavāda)."),
        status: String::from_str("success"),
        final_surface_form: String::from_str("dadāti"),
        root: String::from_str("√dā (दा)"),
        rules,
        states,
        cryptographic_proof: ProofVerification {
            root_hash: String::from_str(h0),
            terminal_hash: String::from_str(h6),
            algorithm: String::from_str("SHA-256"),
            verified: true,
        },
    }
}

/// Every field of a registry entry; its name doubles as its SLP1 spelling.
pub open spec fn phoneme_is(
    p: PhonemeVectorData,
    name: Seq<char>,
    deva: Seq<char>,
    upc8: u8,
    upc8_hex: Seq<char>,
    pvc16_raw: u16,
    pvc16_hex: Seq<char>,
    is_vowel: bool,
    sthana: Seq<char>,
    prayatna: Seq<char>,
    is_palatalized: bool,
    bit_index: u8,
    mask: Seq<char>,
    pratyaharas: Seq<Seq<char>>,
    is_ukrainian: bool,
    ipa: Seq<char>,
) -> bool {
    &&& p.phoneme@ == name
    &&& p.slp1@ == name
    &&& p.deva@ == deva
    &&& p.upc8 == upc8
    &&& p.upc8_hex@ == upc8_hex
    &&& p.pvc16_raw == pvc16_raw
    &&& p.pvc16_hex@ == pvc16_hex
    &&& p.is_vowel == is_vowel
    &&& p.sthana_name@ == sthana
    &&& p.prayatna_name@ == prayatna
    &&& p.is_palatalized == is_palatalized
    &&& p.pratyahara_bit_index == bit_index
    &&& p.pratyahara_mask_u64@ == mask
    &&& p.pratyaharas_contained@.map_values(|x: String| x@) == pratyaharas
    &&& p.is_ukrainian == is_ukrainian
    &&& p.ipa@ == ipa
}

/// One registry entry; its own name doubles as its SLP1 spelling.
fn phoneme(
    name: &str,
    deva: &str,
    upc8: u8,
    upc8_hex: &str,
    pvc16_raw: u16,
    pvc16_hex: &str,
    is_vowel: bool,
    sthana: &str,
    prayatna: &str,
    is_palatalized: bool,
    bit_index: u8,
    mask: &str,
    pratyaharas: Vec<&str>,
    is_ukrainian: bool,
    ipa: &str,
) -> (p: PhonemeVectorData)
    ensures
        phoneme_is(
            p,
            name@,
            deva@,
            upc8,
            upc8_hex@,
            pvc16_raw,
            pvc16_hex@,
            is_vowel,
            sthana@,
            prayatna@,
            is_palatalized,
            bit_index,
            mask@,
            pratyaharas@.map_values(|x: &str| x@),
            is_ukrainian,
            ipa@,
        ),
{
    PhonemeVectorData {
        phoneme: String::from_str(name),
        slp1: String::from_str(name),
        deva: String::from_str(deva),
        upc8,
        upc8_hex: String::from_str(upc8_hex),
        pvc16_raw,
        pvc16_hex: String::from_str(pvc16_hex),
        is_vowel,
        sthana_name: String::from_str(sthana),
        prayatna_name: String::from_str(prayatna),
        is_palatalized,
        pratyahara_bit_index: bit_index,
        pratyahara_mask_u64: String::from_str(mask),
        pratyaharas_contained: {
            let v = owned(pratyaharas);
            assert(v@.map_values(|x: String| x@) =~= pratyaharas@.map_values(|x: &str| x@));
            v
        },
        is_ukrainian,
        ipa: String::from_str(ipa),
    }
}

/// The vowel a.
pub fn phoneme_a() -> (p: PhonemeVectorData)
    ensures
        phoneme_is(
            p,
            "a"@,
            "अ"@,
            0x00,
            "0x00"@,
            0x0003,
            "0x0003"@,
            true,
            "Kaṇṭhya (Velar/Guttural)"@,
            "Vivṛta / Saṃvṛta"@,
            false,
            0,
            "0x0000000000000001"@,
            seq!["ac"@, "al"@, "ak"@, "aṇ"@, "am"@, "aś"@],
            false,
            "[ɐ] / [ə]"@,
        ),
{
    let p = phoneme("a", "अ", 0x00, "0x00", 0x0003, "0x0003", true, "Kaṇṭhya (Velar/Guttural)", "Vivṛta / Saṃvṛta", false, 0, "0x0000000000000001", vec!["ac", "al", "ak", "aṇ", "am", "aś"], false, "[ɐ] / [ə]");
    assert(p.pratyaharas_contained@.map_values(|x: String| x@) =~= seq!["ac"@, "al"@, "ak"@, "aṇ"@, "am"@, "aś"@]);
    p
}

/// The vowel i.
pub fn phoneme_i() -> (p: PhonemeVectorData)
    ensures
        phoneme_is(
            p,
            "i"@,
            "इ"@,
            0x01,
            "0x01"@,
            0x0005,
            "0x0005"@,
            true,
            "Tālavya (Palatal)"@,
            "Spṛṣṭa-vivṛta"@,
            false,
            1,
            "0x0000000000000002"@,
            seq!["ac"@, "al"@, "ik"@, "iṇ"@, "ic"@, "ak"@, "aṇ"@],
            false,
            "[i]"@,
        ),
{
    let p = phoneme("i", "इ", 0x01, "0x01", 0x0005, "0x0005", true, "Tālavya (Palatal)", "Spṛṣṭa-vivṛta", false, 1, "0x0000000000000002", vec!["ac", "al", "ik", "iṇ", "ic", "ak", "aṇ"], false, "[i]");
    assert(p.pratyaharas_contained@.map_values(|x: String| x@) =~= seq!["ac"@, "al"@, "ik"@, "iṇ"@, "ic"@, "ak"@, "aṇ"@]);
    p
}

/// The vowel u.
pub fn phoneme_u() -> (p: PhonemeVectorData)
    ensures
        phoneme_is(
            p,
            "u"@,
            "उ"@,
            0x02,
            "0x02"@,
            0x0021,
            "0x0021"@,
            true,
            "Oṣṭhya (Labial)"@,
            "Vivṛta"@,
            false,
            2,
            "0x0000000000000004"@,
            seq!["ac"@, "al"@, "uk"@, "ik"@, "ak"@, "aṇ"@],
            false,
            "[u]"@,
        ),
{
    let p = phoneme("u", "उ", 0x02, "0x02", 0x0021, "0x0021", true, "Oṣṭhya (Labial)", "Vivṛta", false, 2, "0x0000000000000004", vec!["ac", "al", "uk", "ik", "ak", "aṇ"], false, "[u]");
    assert(p.pratyaharas_contained@.map_values(|x: String| x@) =~= seq!["ac"@, "al"@, "uk"@, "ik"@, "ak"@, "aṇ"@]);
    p
}

/// The velar stop k.
pub fn phoneme_k() -> (p: PhonemeVectorData)
    ensures
        phoneme_is(
            p,
            "k"@,
            "क्"@,
            0x19,
            "0x19"@,
            0x0042,
            "0x0042"@,
            false,
            "Kaṇṭhya (Velar)"@,
            "Spṛṣṭa, Aghoṣa, Alpaprāṇa"@,
            false,
            25,
            "0x0000000002000000"@,
            seq!["hal"@, "al"@, "jhay"@, "khay"@, "cay"@, "yar"@, "khar"@],
            false,
            "[k]"@,
        ),
{
    let p = phoneme("k", "क्", 0x19, "0x19", 0x0042, "0x0042", false, "Kaṇṭhya (Velar)", "Spṛṣṭa, Aghoṣa, Alpaprāṇa", false, 25, "0x0000000002000000", vec!["hal", "al", "jhay", "khay", "cay", "yar", "khar"], false, "[k]");
    assert(p.pratyaharas_contained@.map_values(|x: String| x@) =~= seq!["hal"@, "al"@, "jhay"@, "khay"@, "cay"@, "yar"@, "khar"@]);
    p
}

/// The palatalized Ukrainian t'.
pub fn phoneme_t_palatal() -> (p: PhonemeVectorData)
    ensures
        phoneme_is(
            p,
            "t'"@,
            "त् (т')"@,
            0x3d,
            "0x3D"@,
            0x4048,
            "0x4048"@,
            false,
            "Dantya + Palatalized"@,
            "Spṛṣṭa, Aghoṣa, M'yakiy"@,
            true,
            43,
            "0x0000080000000000"@,
            seq!["ukrainian_palatalized"@, "hal_extended"@],
            true,
            "[tʲ]"@,
        ),
{
    let p = phoneme("t'", "त् (т')", 0x3d, "0x3D", 0x4048, "0x4048", false, "Dantya + Palatalized", "Spṛṣṭa, Aghoṣa, M'yakiy", true, 43, "0x0000080000000000", vec!["ukrainian_palatalized", "hal_extended"], true, "[tʲ]");
    assert(p.pratyaharas_contained@.map_values(|x: String| x@) =~= seq!["ukrainian_palatalized"@, "hal_extended"@]);
    p
}

/// The derivations the dashboard starts with, under the keys its trace
/// query is asked by.
pub fn seeded_traces() -> (r: Vec<(String, DerivationTrace)>)
    ensures
        r@.len() == 2,
        r@[0].0@ == "bhavati"@,
        r@[0].1.derivation_id@ == "drv:canonical:bhavati-v0.1"@,
        r@[1].0@ == "dadati"@,
        r@[1].1.derivation_id@ == "drv:canonical:dadati-v0.1"@,
        forall|i: int| 0 <= i < 2 ==> well_chained(#[trigger] r@[i].1),
{
    vec![
        (String::from_str("bhavati"), bhavati_trace()),
        (String::from_str("dadati"), dadati_trace()),
    ]
}

/// The phoneme registry the dashboard starts with, keyed by name.
pub fn seeded_phonemes() -> (r: Vec<(String, PhonemeVectorData)>)
    ensures
        r@.len() == 5,
        r@[0].0@ == "a"@ && r@[0].1.phoneme@ == "a"@,
        r@[1].0@ == "i"@ && r@[1].1.phoneme@ == "i"@,
        r@[2].0@ == "u"@ && r@[2].1.phoneme@ == "u"@,
        r@[3].0@ == "k"@ && r@[3].1.phoneme@ == "k"@,
        r@[4].0@ == "t_palatal"@ && r@[4].1.phoneme@ == "t'"@,
{
    vec![
        (String::from_str("a"), phoneme_a()),
        (String::from_str("i"), phoneme_i()),
        (String::from_str("u"), phoneme_u()),
        (String::from_str("k"), phoneme_k()),
        (String::from_str("t_palatal"), phoneme_t_palatal()),
    ]
}

} // verus!
