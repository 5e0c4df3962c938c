use rivus::capability::{CapabilityBasis, CapabilityCompleteness, CapabilityInfo, CapabilitySet};
use rivus::capsmap::CapsMap;
use rivus::symbols::DefPath;

#[test]
fn test_render_then_parse_gives_back_the_records() {
    let mut map = CapsMap::rvs_new();
    map.rvs_insert_M(DefPath::rvs_new("std::fs::read"), CapabilitySet::rvs_from_validated("BI"));
    map.rvs_insert_info_M(
        DefPath::rvs_new("dep::\"quoted\"::run"),
        CapabilityInfo::rvs_new(CapabilitySet::rvs_from_validated("S"), CapabilityBasis::Inferred, CapabilityCompleteness::Incomplete),
    );
    map.rvs_insert_info_M(
        DefPath::rvs_new("dep::old"),
        CapabilityInfo::rvs_migrated_v1(CapabilitySet::rvs_new(), CapabilityCompleteness::Unknown),
    );
    let rendered = map.rvs_render_v2();
    let parsed = CapsMap::rvs_parse(&rendered).expect("rendered maps parse");

    assert_eq!(parsed.rvs_len(), 3);
    for path in ["std::fs::read", "dep::\"quoted\"::run", "dep::old"] {
        assert_eq!(parsed.rvs_lookup_info(path), map.rvs_lookup_info(path), "{path}");
    }
    assert!(rendered.starts_with("# rivus-caps-v2\n"));
}

#[test]
fn test_parse_reads_v1_lines_as_migrated_records() {
    let parsed = CapsMap::rvs_parse("# comment\n\n  std::fs::read=BI  \nstd::env::var=S\n").expect("v1 lines parse");
    let info = parsed.rvs_lookup_info("std::fs::read").expect("record present");
    assert_eq!(info.rvs_caps(), CapabilitySet::rvs_from_validated("BI"));
    assert_eq!(info.rvs_basis(), CapabilityBasis::MigratedV1);
    assert_eq!(info.rvs_completeness(), CapabilityCompleteness::Unknown);
    assert_eq!(parsed.rvs_len(), 2);
}

#[test]
fn test_parse_reports_the_first_bad_line() {
    let error = CapsMap::rvs_parse("std::fs::read=BI\nno equals sign here\n").expect_err("bad line is refused");
    assert_eq!(error.line, 2);
    let error = CapsMap::rvs_parse("std::fs::read=BX\n").expect_err("unknown letter is refused");
    assert_eq!(error.line, 1);
}

#[test]
fn test_rendered_trait_vote_records_keep_their_evidence() {
    let mut map = CapsMap::rvs_new();
    let mut votes = rivus::capability::CapabilityCounts::rvs_zero();
    votes.s = 1;
    map.rvs_insert_info_M(
        DefPath::rvs_new("dep::FromString::rvs_parse"),
        CapabilityInfo::rvs_new(
            CapabilitySet::rvs_new(),
            CapabilityBasis::TraitVote { implementations: 3, threshold: 2, votes },
            CapabilityCompleteness::Complete,
        ),
    );
    let rendered = map.rvs_render_v2();
    let parsed = CapsMap::rvs_parse(&rendered).expect("rendered maps parse");
    let info = parsed.rvs_lookup_info("dep::FromString::rvs_parse").expect("record present");

    assert!(info.rvs_caps().rvs_is_empty());
    assert!(matches!(info.rvs_basis(), CapabilityBasis::TraitVote { implementations: 3, threshold: 2, .. }));
}

#[test]
fn test_parse_keeps_the_last_record_of_a_path() {
    let parsed = CapsMap::rvs_parse("std::fs::read=BI\nstd::env::var=S\nstd::fs::read=B\n").expect("lines parse");
    let info = parsed.rvs_lookup_info("std::fs::read").expect("record present");
    assert_eq!(info.rvs_caps(), CapabilitySet::rvs_from_validated("B"));
    assert_eq!(parsed.rvs_len(), 2);
    let error = CapsMap::rvs_parse("# ok\nstd::fs::read=B\n{\"path\":\"x\"}\nbad\n").expect_err("a broken record line is refused");
    assert_eq!(error.line, 3);
}
