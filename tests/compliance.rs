use sha2::Digest;
use yuki_ledger::compliance::{
    is_plausible, plausibility_score, registry_contains, reward_for_metadata, text_eq, Claim, ClaimKind, Rejection,
    MAX_REWARD_PER_CLAIM,
};

fn registry(items: &[&str]) -> Vec<String> {
    items.iter().map(|s| s.to_string()).collect()
}

fn score_passes(url: &str, kind: ClaimKind, threshold: u32) -> bool {
    plausibility_score(url, kind) as u32 * 100 >= threshold * 255
}

fn find_url(kind: ClaimKind, threshold: u32, want_pass: bool) -> String {
    for i in 0..10_000 {
        let url = format!("https://proof.example/{}", i);
        if score_passes(&url, kind, threshold) == want_pass {
            return url;
        }
    }
    panic!("no url found");
}

#[test]
fn parse_reads_members_per_kind() {
    let c = Claim::parse("{\"type\":\"carbon_capture\",\"sentinel_id\":\"s-1\",\"tons_captured\":12,\"hardware_signature\":\"h\"}");
    assert_eq!(c.kind, ClaimKind::CarbonCapture);
    assert_eq!(c.device_id.as_deref(), Some("s-1"));
    assert_eq!(c.evidence.as_deref(), Some("h"));
    assert_eq!(c.quantity, Some(12));

    let c = Claim::parse("{\"type\":\"air_quality\",\"device_id\":\"d-9\",\"hardware_signature\":\"q\"}");
    assert_eq!(c.kind, ClaimKind::AirQuality);
    assert_eq!(c.device_id.as_deref(), Some("d-9"));
    assert_eq!(c.evidence.as_deref(), Some("q"));
    assert_eq!(c.quantity, None);

    let c = Claim::parse("{\"type\":\"recycling\",\"evidence_url\":\"u\",\"kilograms_recycled\":40,\"device_id\":\"ignored\"}");
    assert_eq!(c.kind, ClaimKind::Recycling);
    assert_eq!(c.device_id, None);
    assert_eq!(c.evidence.as_deref(), Some("u"));
    assert_eq!(c.quantity, Some(40));
}

#[test]
fn parse_unrecognized_payloads() {
    assert_eq!(Claim::parse("not json").kind, ClaimKind::Unrecognized);
    assert_eq!(Claim::parse("{\"type\":\"volcano\"}").kind, ClaimKind::Unrecognized);
    assert_eq!(Claim::parse("{\"type\":7}").kind, ClaimKind::Unrecognized);
    let c = Claim::parse("{}");
    assert_eq!(c.kind, ClaimKind::Unrecognized);
    assert_eq!(c.evidence, None);
}

#[test]
fn parse_ignores_non_integer_quantities() {
    let c = Claim::parse("{\"type\":\"tree_planting\",\"evidence_url\":\"u\",\"trees_planted\":\"3\"}");
    assert_eq!(c.quantity, None);
    let c = Claim::parse("{\"type\":\"tree_planting\",\"evidence_url\":\"u\",\"trees_planted\":-3}");
    assert_eq!(c.quantity, None);
}

#[test]
fn reward_table() {
    assert_eq!(reward_for_metadata("{\"type\":\"tree_planting\",\"trees_planted\":3}"), 3);
    assert_eq!(reward_for_metadata("{\"type\":\"recycling\",\"kilograms_recycled\":45}"), 4);
    assert_eq!(reward_for_metadata("{\"type\":\"air_quality\"}"), 2);
    assert_eq!(reward_for_metadata("{\"type\":\"carbon_capture\",\"tons_captured\":12}"), 1200);
    assert_eq!(reward_for_metadata("{\"type\":\"wastewater_treatment\",\"liters_treated\":4999}"), 4);
    assert_eq!(reward_for_metadata("{\"type\":\"mystery\",\"trees_planted\":3}"), 0);
    assert_eq!(reward_for_metadata("garbage"), 0);
    assert_eq!(reward_for_metadata("{\"type\":\"tree_planting\"}"), 0);
}

#[test]
fn reward_is_capped() {
    assert_eq!(reward_for_metadata("{\"type\":\"carbon_capture\",\"tons_captured\":101}"), MAX_REWARD_PER_CLAIM);
    assert_eq!(
        reward_for_metadata("{\"type\":\"carbon_capture\",\"tons_captured\":18446744073709551615}"),
        MAX_REWARD_PER_CLAIM
    );
    assert_eq!(reward_for_metadata("{\"type\":\"tree_planting\",\"trees_planted\":20000}"), MAX_REWARD_PER_CLAIM);
    assert_eq!(reward_for_metadata("{\"type\":\"carbon_capture\",\"tons_captured\":100}"), 10000);
}

#[test]
fn rules_in_order() {
    let auth = registry(&["dev-1"]);
    let used = registry(&["spent"]);
    let unknown = Claim::parse("{\"type\":\"volcano\",\"hardware_signature\":\"spent\"}");
    assert_eq!(unknown.evaluate(&auth, &used), Err(Rejection::UnrecognizedClaim));
    let no_device = Claim::parse("{\"type\":\"air_quality\",\"hardware_signature\":\"spent\"}");
    assert_eq!(no_device.evaluate(&auth, &used), Err(Rejection::UnauthorizedOrigin));
    let no_evidence = Claim::parse("{\"type\":\"air_quality\",\"device_id\":\"dev-1\"}");
    assert_eq!(no_evidence.evaluate(&auth, &used), Err(Rejection::MissingEvidence));
    let replay = Claim::parse("{\"type\":\"air_quality\",\"device_id\":\"dev-1\",\"hardware_signature\":\"spent\"}");
    assert_eq!(replay.evaluate(&auth, &used), Err(Rejection::ReplayDetected));
    let fine = Claim::parse("{\"type\":\"air_quality\",\"device_id\":\"dev-1\",\"hardware_signature\":\"fresh\"}");
    assert_eq!(fine.evaluate(&auth, &used), Ok(()));
}

#[test]
fn plausibility_rule() {
    let auth = registry(&[]);
    let used = registry(&[]);
    let low = find_url(ClaimKind::Recycling, 75, false);
    let c = Claim::parse(&format!("{{\"type\":\"recycling\",\"evidence_url\":\"{}\",\"kilograms_recycled\":10}}", low));
    assert_eq!(c.evaluate(&auth, &used), Err(Rejection::LowPlausibility));
    let high = find_url(ClaimKind::Recycling, 75, true);
    let c = Claim::parse(&format!("{{\"type\":\"recycling\",\"evidence_url\":\"{}\",\"kilograms_recycled\":10}}", high));
    assert_eq!(c.evaluate(&auth, &used), Ok(()));
    let c = Claim::parse(&format!("{{\"type\":\"recycling\",\"evidence_url\":\"{}\",\"kilograms_recycled\":501}}", high));
    assert_eq!(c.evaluate(&auth, &used), Err(Rejection::AnomalyExceeded));
}

#[test]
fn evaluate_with_given_score() {
    let auth = registry(&[]);
    let used = registry(&[]);
    let c = Claim::parse("{\"type\":\"tree_planting\",\"evidence_url\":\"u\",\"trees_planted\":3}");
    assert_eq!(c.evaluate_with_score(179, &auth, &used), Ok(()));
    assert_eq!(c.evaluate_with_score(178, &auth, &used), Err(Rejection::LowPlausibility));
    let r = Claim::parse("{\"type\":\"recycling\",\"evidence_url\":\"u\",\"kilograms_recycled\":20}");
    assert_eq!(r.evaluate_with_score(192, &auth, &used), Ok(()));
    assert_eq!(r.evaluate_with_score(191, &auth, &used), Err(Rejection::LowPlausibility));
    let t = Claim::parse("{\"type\":\"tree_planting\",\"evidence_url\":\"u\",\"trees_planted\":501}");
    assert_eq!(t.evaluate_with_score(255, &auth, &used), Err(Rejection::AnomalyExceeded));
    let t = Claim::parse("{\"type\":\"tree_planting\",\"evidence_url\":\"u\",\"trees_planted\":500}");
    assert_eq!(t.evaluate_with_score(255, &auth, &used), Ok(()));
}

#[test]
fn plausibility_score_is_leading_digest_byte() {
    let expected = sha2::Sha256::digest("https://a.example/xtree_planting".as_bytes())[0];
    assert_eq!(plausibility_score("https://a.example/x", ClaimKind::TreePlanting), expected);
    let expected = sha2::Sha256::digest("sigrecycling".as_bytes())[0];
    assert_eq!(plausibility_score("sig", ClaimKind::Recycling), expected);
    let c = Claim::parse("{\"type\":\"recycling\",\"evidence_url\":\"sig\"}");
    assert_eq!(c.score(), expected);
    assert_eq!(Claim::parse("{\"type\":\"recycling\"}").score(), 0);
}

#[test]
fn plausibility_threshold_arithmetic() {
    assert!(is_plausible(255, 100));
    assert!(!is_plausible(254, 100));
    assert!(is_plausible(179, 70));
    assert!(!is_plausible(178, 70));
    assert!(is_plausible(0, 0));
}

#[test]
fn registry_and_text_helpers() {
    let r = registry(&["a", "bb"]);
    assert!(registry_contains(&r, "bb"));
    assert!(!registry_contains(&r, "b"));
    assert!(!registry_contains(&registry(&[]), ""));
    assert!(text_eq("x", "x"));
    assert!(!text_eq("x", "y"));
    assert_eq!(ClaimKind::WastewaterTreatment.name(), "wastewater_treatment");
    assert_eq!(ClaimKind::Unrecognized.name(), "unknown");
}

#[test]
fn unreadable_quantity_fails_the_ceiling() {
    let auth = registry(&["yuki-industrial-01"]);
    let used = registry(&[]);
    for tons in ["75.5", "75.0", "\"12\"", "-1"] {
        let meta = format!(
            "{{\"type\":\"carbon_capture\",\"sentinel_id\":\"yuki-industrial-01\",\"tons_captured\":{},\"hardware_signature\":\"h\"}}",
            tons
        );
        assert_eq!(Claim::parse(&meta).evaluate(&auth, &used), Err(Rejection::AnomalyExceeded));
    }
    let absent = "{\"type\":\"carbon_capture\",\"sentinel_id\":\"yuki-industrial-01\",\"hardware_signature\":\"h\"}";
    assert_eq!(Claim::parse(absent).evaluate(&auth, &used), Err(Rejection::AnomalyExceeded));
    let t = Claim::parse("{\"type\":\"tree_planting\",\"evidence_url\":\"u\"}");
    assert_eq!(t.evaluate_with_score(255, &auth, &used), Err(Rejection::AnomalyExceeded));
    // kinds without a ceiling need no quantity
    let aq = Claim::parse("{\"type\":\"air_quality\",\"device_id\":\"yuki-industrial-01\",\"hardware_signature\":\"h\"}");
    assert_eq!(aq.evaluate(&auth, &used), Ok(()));
    let ww = "{\"type\":\"wastewater_treatment\",\"sentinel_id\":\"yuki-industrial-01\",\"hardware_signature\":\"h\"}";
    assert_eq!(Claim::parse(ww).evaluate(&auth, &used), Ok(()));
}
