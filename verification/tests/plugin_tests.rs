use astroblasto::plugin::ModuleVerdict;
use astroblasto::plugin::ProbeResult;
use astroblasto::plugin::TEST_EXPECTED;
use astroblasto::plugin::TEST_LHS;
use astroblasto::plugin::TEST_RHS;
use astroblasto::plugin::artifact_name;
use astroblasto::plugin::bytes_contain;
use astroblasto::plugin::is_candidate_source;
use astroblasto::plugin::select_script;
use astroblasto::plugin::validate_module;

#[test]
fn self_test_gate_admits_the_exact_sum() {
    assert_eq!(TEST_LHS + TEST_RHS, TEST_EXPECTED);
    assert_eq!(
        validate_module(ProbeResult::Answered(4)),
        ModuleVerdict::Admitted
    );
}

#[test]
fn self_test_gate_rejects_a_wrong_answer() {
    assert_eq!(
        validate_module(ProbeResult::Answered(5)),
        ModuleVerdict::WrongAnswer
    );
    assert_eq!(
        validate_module(ProbeResult::Answered(-4)),
        ModuleVerdict::WrongAnswer
    );
}

#[test]
fn self_test_gate_rejects_a_load_failure() {
    assert_eq!(validate_module(ProbeResult::LoadFailed), ModuleVerdict::LoadError);
}

#[test]
fn self_test_gate_rejects_a_missing_symbol() {
    assert_eq!(
        validate_module(ProbeResult::MissingSymbol),
        ModuleVerdict::SymbolError
    );
}

#[test]
fn discovery_admits_plain_rust_sources_only() {
    assert!(is_candidate_source(&b"wacko_ai.rs".to_vec(), false));
    // The shared data-model file is a dependency, not a plugin.
    assert!(!is_candidate_source(&b"structs.rs".to_vec(), false));
    // Wrong extension.
    assert!(!is_candidate_source(&b"notes.txt".to_vec(), false));
    assert!(!is_candidate_source(&b"rs".to_vec(), false));
    // Directories never qualify, whatever they are called.
    assert!(!is_candidate_source(&b"wacko_ai.rs".to_vec(), true));
}

#[test]
fn artifact_names_follow_the_platform_convention() {
    assert_eq!(
        artifact_name(&b"wacko_ai.rs".to_vec(), true),
        b"wacko_ai.dll".to_vec()
    );
    assert_eq!(
        artifact_name(&b"wacko_ai.rs".to_vec(), false),
        b"libwacko_ai.so".to_vec()
    );
}

#[test]
fn substring_match_finds_tokens() {
    assert!(bytes_contain(&b"libwacko_ai.so".to_vec(), &b"wacko".to_vec()));
    assert!(!bytes_contain(&b"libwacko_ai.so".to_vec(), &b"chess".to_vec()));
    // The empty selector matches anything.
    assert!(bytes_contain(&b"libwacko_ai.so".to_vec(), &b"".to_vec()));
    // A needle longer than the haystack never matches.
    assert!(!bytes_contain(&b"ai".to_vec(), &b"wacko".to_vec()));
}

#[test]
fn selection_takes_the_first_matching_script() {
    let scripts = vec![
        b"libwacko_ai.so".to_vec(),
        b"libcareful_ai.so".to_vec(),
        b"libwacko_ai_v2.so".to_vec(),
    ];
    assert_eq!(select_script(&scripts, &b"careful".to_vec()), Some(1));
    // Two scripts contain "wacko"; the first in roster order wins.
    assert_eq!(select_script(&scripts, &b"wacko".to_vec()), Some(0));
    assert_eq!(select_script(&scripts, &b"chess".to_vec()), None);
}
