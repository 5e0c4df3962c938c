use rivus::call_violation::{rvs_call_mismatch_message, rvs_call_target_mismatch, rvs_lookup_caps_exact, rvs_unknown_callee_hint};
use rivus::capability::{Capability, CapabilitySet};
use rivus::capsmap::CapsMap;
use rivus::contracts::{CallContractMismatchKind, rvs_collect_call_contract_mismatch, rvs_collect_named_call_contract_mismatch,
    rvs_make_callee_display};
use rivus::symbols::DefPath;

#[test]
fn test_20260703_lookup_caps_requires_exact_def_path() {
    let capsmap = Some(CapsMap::rvs_parse("read=BI\nstd::fs::read_to_string=BI\n").unwrap());

    let exact = rvs_lookup_caps_exact(&capsmap, "std::fs::read_to_string").is_some();
    let short = rvs_lookup_caps_exact(&capsmap, "std::fs::read").is_some();

    assert!(exact);
    assert!(!short);
}

#[test]
fn test_20260703_collect_call_contract_mismatch() {
    let caller_caps = CapabilitySet::rvs_from_validated("A");
    let callee_caps = CapabilitySet::rvs_from_validated("AP");
    let mismatch = rvs_collect_call_contract_mismatch("demo::rvs_fetch_P", Some("rvs_fetch_P"), &caller_caps, Some(&callee_caps))
        .expect("expected call mismatch");

    assert_eq!(mismatch.kind, CallContractMismatchKind::MissingCapabilities);
    assert!(mismatch.missing_caps.rvs_contains(Capability::P));
}

#[test]
fn test_20260703_collect_named_call_contract_mismatch() {
    let caller_caps = CapabilitySet::rvs_new();
    let callee_caps = CapabilitySet::rvs_from_validated("BI");
    let mismatch = rvs_collect_named_call_contract_mismatch("demo::rvs_fetch_BI", Some("rvs_fetch_BI"), &caller_caps, &callee_caps)
        .expect("expected named call mismatch");

    assert_eq!(mismatch.callee_display, "rvs_fetch_BI (demo::rvs_fetch_BI)");
    assert_eq!(mismatch.kind, CallContractMismatchKind::MissingCapabilities);
}

#[test]
fn test_20260704_trait_impl_def_path_uses_method_name_before_trait_suffix() {
    let fn_name = DefPath::rvs_new("demo::Adapter::rvs_fetch_BI@demo::ApiClient").rvs_fn_name();
    let parsed = rivus::names::rvs_parse_function(&fn_name)
        .map(|(_, caps)| caps)
        .expect("trait impl method name should parse");
    let fn_name: String = fn_name.into_iter().collect();

    assert_eq!(fn_name, "rvs_fetch_BI");
    assert!(parsed.rvs_contains(Capability::B));
    assert!(parsed.rvs_contains(Capability::I));
}

#[test]
fn test_20260703_make_callee_display() {
    assert_eq!(rvs_make_callee_display("demo::rvs_fetch_P", Some("rvs_fetch_P")), "rvs_fetch_P (demo::rvs_fetch_P)");
    assert_eq!(rvs_make_callee_display("demo::rvs_fetch_P", Some("demo::rvs_fetch_P")), "demo::rvs_fetch_P");
}

#[test]
fn test_20260705_unknown_callee_hint_quotes_source_path_only() {
    let hint = rvs_unknown_callee_hint("rvs_fetch_E (demo::rvs_fetch_E)");
    assert_eq!(hint, "'rvs_fetch_E' (demo::rvs_fetch_E) not in capsmap");
}

#[test]
fn test_unknown_callee_hint_without_written_path() {
    assert_eq!(rvs_unknown_callee_hint("demo::rvs_fetch_E"), "'demo::rvs_fetch_E' not in capsmap");
    assert_eq!(rvs_unknown_callee_hint("a (b) (c)"), "'a (b)' (c) not in capsmap");
}

#[test]
fn test_call_target_of_port_method_needs_port() {
    let caps = CapabilitySet::rvs_from_validated("BI");
    let mismatch = rvs_call_target_mismatch("demo::Client::get", Some("get"), &caps, &None, true, false)
        .expect("a port call from a function without P is a mismatch");
    assert_eq!(mismatch.kind, CallContractMismatchKind::MissingCapabilities);
    assert_eq!(mismatch.callee_caps, Some(CapabilitySet::rvs_single(Capability::P)));
    assert_eq!(rvs_call_mismatch_message(&caps, &mismatch), "BI → get (demo::Client::get) (P) missing P");
}

#[test]
fn test_call_target_uses_declared_name_then_capsmap() {
    let caps = CapabilitySet::rvs_new();
    let named = rvs_call_target_mismatch("dep::rvs_read_BI", None, &caps, &None, false, false).expect("declared caps are missing");
    assert_eq!(named.callee_caps, Some(CapabilitySet::rvs_from_validated("BI")));
    assert_eq!(rvs_call_mismatch_message(&caps, &named), " → dep::rvs_read_BI (BI) missing B, I");

    let unknown = rvs_call_target_mismatch("dep::read", None, &caps, &None, false, false).expect("unknown callee");
    assert_eq!(unknown.kind, CallContractMismatchKind::UnknownCallee);
    assert_eq!(rvs_call_mismatch_message(&caps, &unknown), "'dep::read' not in capsmap");

    let capsmap = Some(CapsMap::rvs_parse("dep::read=\n").unwrap());
    assert!(rvs_call_target_mismatch("dep::read", None, &caps, &capsmap, false, false).is_none());

    assert!(rvs_call_target_mismatch("demo::rvs_helper_E", None, &caps, &None, false, true).is_none());
    let external_unknown = rvs_call_target_mismatch("dep::rvs_helper_E", None, &caps, &None, false, false).expect("unknown callee");
    assert_eq!(external_unknown.kind, CallContractMismatchKind::UnknownCallee);
}
