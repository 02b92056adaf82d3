use tauricode::dashboard::fixtures::{bhavati_trace, dadati_trace, seeded_phonemes, seeded_traces};
use tauricode::dashboard::agent_runtime::{to_message, AgentRuntimePanelState};
use tauricode::dashboard::swarm_dashboard::{
    query_derivation_trace, stream_phoneme_vector, DerivationTrace, PhonemeVectorData,
    ProofVerification,
};
use tauricode::runtime::adapter::AdapterError;
use tauricode::runtime::types::Status;

fn trace(id: &str) -> DerivationTrace {
    DerivationTrace {
        ir_version: "panini-derivation-ir/0.1".to_string(),
        derivation_id: id.to_string(),
        target_word: "bhavati".to_string(),
        description: "test".to_string(),
        status: "VERIFIED".to_string(),
        final_surface_form: "bhavati".to_string(),
        root: "bhū".to_string(),
        rules: vec![],
        states: vec![],
        cryptographic_proof: ProofVerification {
            root_hash: "r".to_string(),
            terminal_hash: "t".to_string(),
            algorithm: "SHA-256".to_string(),
            verified: true,
        },
    }
}

fn phoneme(p: &str) -> PhonemeVectorData {
    PhonemeVectorData {
        phoneme: p.to_string(),
        slp1: p.to_string(),
        deva: "अ".to_string(),
        upc8: 0,
        upc8_hex: "0x00".to_string(),
        pvc16_raw: 3,
        pvc16_hex: "0x0003".to_string(),
        is_vowel: true,
        sthana_name: "Kaṇṭhya".to_string(),
        prayatna_name: "Vivṛta".to_string(),
        is_palatalized: false,
        pratyahara_bit_index: 0,
        pratyahara_mask_u64: "0x0000000000000001".to_string(),
        pratyaharas_contained: vec!["ac".to_string()],
        is_ukrainian: false,
        ipa: "[ɐ]".to_string(),
    }
}

#[test]
fn trace_lookup_finds_the_stored_trace() {
    let traces = vec![
        ("bhavati".to_string(), trace("derivation:bhavati")),
        ("dadati".to_string(), trace("derivation:dadati")),
    ];
    let t = query_derivation_trace(&traces, "dadati").unwrap();
    assert_eq!(t.derivation_id, "derivation:dadati");
}

#[test]
fn trace_lookup_reports_a_missing_id() {
    let traces: Vec<(String, DerivationTrace)> = vec![("bhavati".to_string(), trace("x"))];
    let err = query_derivation_trace(&traces, "gacchati").unwrap_err();
    assert_eq!(err, "Derivation trace not found for ID: gacchati");
}

#[test]
fn phoneme_lookup_finds_and_reports() {
    let phonemes = vec![("a".to_string(), phoneme("a")), ("k".to_string(), phoneme("k"))];
    assert_eq!(stream_phoneme_vector(&phonemes, "k").unwrap().phoneme, "k");
    assert_eq!(
        stream_phoneme_vector(&phonemes, "zz").unwrap_err(),
        "Phoneme data not found for: zz"
    );
}

#[test]
fn adapter_errors_read_as_their_debug_form() {
    assert_eq!(to_message(AdapterError::NotFound), "NotFound");
    assert_eq!(to_message(AdapterError::Unsupported), "Unsupported");
    assert_eq!(
        to_message(AdapterError::LaunchFailed("no \"slot\"".to_string())),
        "LaunchFailed(\"no \\\"slot\\\"\")"
    );
    assert_eq!(to_message(AdapterError::Io("disk".to_string())), "Io(\"disk\")");
}

#[test]
fn panel_lists_what_it_launched_in_order() {
    let mut panel = AgentRuntimePanelState::default();
    assert!(panel.list_agent_runtimes().unwrap().is_empty());
    let first = panel.launch_agent_runtime("/repo/a", Some("T-1".to_string())).unwrap();
    let second = panel.launch_agent_runtime("/repo/b", None).unwrap();
    assert_eq!(first, "mock-1");
    assert_eq!(second, "mock-2");
    let list = panel.list_agent_runtimes().unwrap();
    assert_eq!(list.len(), 2);
    assert_eq!(list[0].handle, "mock-1");
    assert_eq!(list[0].status, Status::Fresh);
    assert_eq!(list[0].identity.task.as_deref(), Some("T-1"));
    assert_eq!(list[0].workspace.cwd.as_deref(), Some("/repo/a"));
    assert_eq!(list[1].handle, "mock-2");
    assert_eq!(list[1].identity.task, None);
    assert!(list[1].capabilities.declared.is_empty());
}

#[test]
fn panel_stop_reports_refusals_as_not_found() {
    let mut panel = AgentRuntimePanelState::new();
    let h = panel.launch_agent_runtime("/repo/a", None).unwrap();
    assert_eq!(panel.stop_agent_runtime(&h), Ok(()));
    assert_eq!(panel.stop_agent_runtime(&h), Err("NotFound".to_string()));
    assert_eq!(panel.stop_agent_runtime("never"), Err("NotFound".to_string()));
    assert_eq!(panel.list_agent_runtimes().unwrap().len(), 1);
}

#[test]
fn seeded_traces_answer_both_canonical_derivations() {
    let traces = seeded_traces();
    let b = query_derivation_trace(&traces, "bhavati").unwrap();
    assert_eq!(b.derivation_id, "drv:canonical:bhavati-v0.1");
    assert_eq!(b.final_surface_form, "bhavati");
    assert_eq!(b.states.len(), 9);
    assert_eq!(b.cryptographic_proof.root_hash, b.states[0].hash);
    assert_eq!(b.cryptographic_proof.terminal_hash, b.states[8].hash);
    let d = query_derivation_trace(&traces, "dadati").unwrap();
    assert_eq!(d.final_surface_form, "dadāti");
    assert_eq!(d.rules[2].blocked_sutras, Some(vec!["3.1.68 kartari śap".to_string()]));
    assert_eq!(
        query_derivation_trace(&traces, "gacchati").unwrap_err(),
        "Derivation trace not found for ID: gacchati"
    );
}

#[test]
fn seeded_states_are_numbered_in_order() {
    for t in [bhavati_trace(), dadati_trace()] {
        for (i, s) in t.states.iter().enumerate() {
            assert_eq!(s.step_index, i);
            assert_eq!(s.applied_rule.is_none(), i == 0);
            assert!(s.proof_verified);
        }
    }
}

#[test]
fn seeded_phonemes_answer_by_key() {
    let phonemes = seeded_phonemes();
    let t = stream_phoneme_vector(&phonemes, "t_palatal").unwrap();
    assert_eq!(t.phoneme, "t'");
    assert_eq!(t.pvc16_raw, 0x4048);
    assert!(t.is_ukrainian && t.is_palatalized);
    assert_eq!(stream_phoneme_vector(&phonemes, "k").unwrap().pratyahara_bit_index, 25);
    assert_eq!(
        stream_phoneme_vector(&phonemes, "t'").unwrap_err(),
        "Phoneme data not found for: t'"
    );
}
