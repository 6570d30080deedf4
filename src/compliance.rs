use vstd::prelude::*;
use vstd::string::StringExecFns;
use crate::digest::sha256_of_text;
use crate::json::{json_str_member, json_u64_member, read_str_member, read_u64_member};

verus! {

/// The most a single claim can earn.
pub const MAX_REWARD_PER_CLAIM: u64 = 10000;

/// The kinds of claim the ledger knows how to judge and reward.
#[derive(Debug, Clone, Copy, PartialEq, Eq, Structural)]
pub enum ClaimKind {
    TreePlanting,
    Recycling,
    AirQuality,
    CarbonCapture,
    WastewaterTreatment,
    Unrecognized,
}

/// Why the compliance rules turned a claim down.
#[derive(Debug, Clone, Copy, PartialEq, Eq, Structural)]
pub enum Rejection {
    /// The payload names no claim kind the ledger knows.
    UnrecognizedClaim,
    /// The device identifier is missing or not in the registry of trusted devices.
    UnauthorizedOrigin,
    /// The payload carries no evidence token.
    MissingEvidence,
    /// The evidence token was already consumed by an accepted claim.
    ReplayDetected,
    /// The plausibility score is below the kind's threshold.
    LowPlausibility,
    /// A declared quantity exceeds the kind's physical ceiling, or a kind with a ceiling
    /// declares no quantity that reads as an unsigned integer.
    AnomalyExceeded,
}

/// What the rules read from a claim's payload.
pub ghost struct ClaimView {
    pub kind: ClaimKind,
    pub device_id: Option<Seq<char>>,
    pub evidence: Option<Seq<char>>,
    pub quantity: Option<u64>,
}

/// A claim's payload, decoded per kind.
#[derive(Debug)]
pub struct Claim {
    pub kind: ClaimKind,
    pub device_id: Option<String>,
    pub evidence: Option<String>,
    pub quantity: Option<u64>,
}

pub open spec fn opt_text(o: Option<String>) -> Option<Seq<char>> {
    match o {
        Some(s) => Some(s@),
        None => None,
    }
}

impl View for Claim {
    type V = ClaimView;

    open spec fn view(&self) -> ClaimView {
        ClaimView {
            kind: self.kind,
            device_id: opt_text(self.device_id),
            evidence: opt_text(self.evidence),
            quantity: self.quantity,
        }
    }
}

/// The name a payload gives each kind in its `type` member.
pub open spec fn kind_name(k: ClaimKind) -> Seq<char> {
    match k {
        ClaimKind::TreePlanting => "tree_planting"@,
        ClaimKind::Recycling => "recycling"@,
        ClaimKind::AirQuality => "air_quality"@,
        ClaimKind::CarbonCapture => "carbon_capture"@,
        ClaimKind::WastewaterTreatment => "wastewater_treatment"@,
        ClaimKind::Unrecognized => "unknown"@,
    }
}

/// The kind a `type` member names.
pub open spec fn kind_named(name: Seq<char>) -> ClaimKind {
    if name == "tree_planting"@ {
        ClaimKind::TreePlanting
    } else if name == "recycling"@ {
        ClaimKind::Recycling
    } else if name == "air_quality"@ {
        ClaimKind::AirQuality
    } else if name == "carbon_capture"@ {
        ClaimKind::CarbonCapture
    } else if name == "wastewater_treatment"@ {
        ClaimKind::WastewaterTreatment
    } else {
        ClaimKind::Unrecognized
    }
}

/// The payload member holding the identifier of the reporting device, for the kinds
/// that must come from a trusted device.
pub open spec fn device_key(k: ClaimKind) -> Option<Seq<char>> {
    match k {
        ClaimKind::AirQuality => Some("device_id"@),
        ClaimKind::CarbonCapture => Some("sentinel_id"@),
        ClaimKind::WastewaterTreatment => Some("sentinel_id"@),
        _ => None,
    }
}

/// The payload member holding the evidence token.
pub open spec fn evidence_key(k: ClaimKind) -> Option<Seq<char>> {
    match k {
        ClaimKind::TreePlanting => Some("evidence_url"@),
        ClaimKind::Recycling => Some("evidence_url"@),
        ClaimKind::Unrecognized => None,
        _ => Some("hardware_signature"@),
    }
}

/// The payload member holding the claimed quantity.
pub open spec fn quantity_key(k: ClaimKind) -> Option<Seq<char>> {
    match k {
        ClaimKind::TreePlanting => Some("trees_planted"@),
        ClaimKind::Recycling => Some("kilograms_recycled"@),
        ClaimKind::CarbonCapture => Some("tons_captured"@),
        ClaimKind::WastewaterTreatment => Some("liters_treated"@),
        _ => None,
    }
}

pub open spec fn str_member_at(text: Seq<char>, key: Option<Seq<char>>) -> Option<Seq<char>> {
    match key {
        Some(k) => json_str_member(text, k),
        None => None,
    }
}

/// The claim that a JSON payload describes.
pub open spec fn claim_of(text: Seq<char>) -> ClaimView {
    let kind = match json_str_member(text, "type"@) {
        Some(name) => kind_named(name),
        None => ClaimKind::Unrecognized,
    };
    ClaimView {
        kind,
        device_id: str_member_at(text, device_key(kind)),
        evidence: str_member_at(text, evidence_key(kind)),
        quantity: match quantity_key(kind) {
            Some(k) => json_u64_member(text, k),
            None => None,
        },
    }
}

pub open spec fn cap(r: int) -> u64 {
    if r > MAX_REWARD_PER_CLAIM {
        MAX_REWARD_PER_CLAIM
    } else {
        r as u64
    }
}

/// The reward table: one credit per tree, one per ten kilograms recycled, a flat two per
/// air-quality report, a hundred per ton captured, one per thousand liters treated;
/// never more than `MAX_REWARD_PER_CLAIM`, and nothing for an unrecognized claim.
pub open spec fn reward_for(c: ClaimView) -> u64 {
    let q: int = match c.quantity {
        Some(q) => q as int,
        None => 0,
    };
    match c.kind {
        ClaimKind::TreePlanting => cap(q),
        ClaimKind::Recycling => cap(q / 10),
        ClaimKind::AirQuality => 2,
        ClaimKind::CarbonCapture => cap(q * 100),
        ClaimKind::WastewaterTreatment => cap(q / 1000),
        ClaimKind::Unrecognized => 0,
    }
}

/// The least plausibility, in percent, that the kinds carrying an evidence URL need.
pub open spec fn plausibility_threshold(k: ClaimKind) -> Option<u64> {
    match k {
        ClaimKind::TreePlanting => Some(70),
        ClaimKind::Recycling => Some(75),
        _ => None,
    }
}

/// The physical ceiling on the claimed quantity.
pub open spec fn quantity_ceiling(k: ClaimKind) -> Option<u64> {
    match k {
        ClaimKind::TreePlanting => Some(500),
        ClaimKind::Recycling => Some(500),
        ClaimKind::CarbonCapture => Some(50),
        _ => None,
    }
}

/// A score out of 255 passes a threshold in percent when score / 255 reaches it.
pub open spec fn score_passes(score: u8, threshold: u64) -> bool {
    score as int * 100 >= threshold as int * 255
}

/// The stand-in plausibility score of an evidence token: the leading byte of the
/// SHA-256 digest of the token followed by the kind's name. It is a fixed heuristic,
/// not an inspection of the evidence.
pub open spec fn score_of(evidence: Seq<char>, k: ClaimKind) -> u8 {
    sha256_of_text(evidence + kind_name(k))[0]
}

/// The rules, in order, given the claim's plausibility score; the first failure wins. The
/// physical-limit rule cannot be passed by a quantity that is absent or not an unsigned
/// integer (a fractional tonnage, a string).
pub open spec fn verdict_given(
    c: ClaimView,
    score: u8,
    authorized: Seq<Seq<char>>,
    consumed: Seq<Seq<char>>,
) -> Result<(), Rejection> {
    if c.kind == ClaimKind::Unrecognized {
        Err(Rejection::UnrecognizedClaim)
    } else if device_key(c.kind) is Some && !(c.device_id is Some && authorized.contains(
        c.device_id->0,
    )) {
        Err(Rejection::UnauthorizedOrigin)
    } else if c.evidence is None {
        Err(Rejection::MissingEvidence)
    } else if consumed.contains(c.evidence->0) {
        Err(Rejection::ReplayDetected)
    } else if plausibility_threshold(c.kind) is Some && !score_passes(
        score,
        plausibility_threshold(c.kind)->0,
    ) {
        Err(Rejection::LowPlausibility)
    } else if quantity_ceiling(c.kind) is Some && (c.quantity is None || c.quantity->0
        > quantity_ceiling(c.kind)->0) {
        Err(Rejection::AnomalyExceeded)
    } else {
        Ok(())
    }
}

/// The claim's plausibility score (zero where it has no evidence).
pub open spec fn claim_score(c: ClaimView) -> u8 {
    match c.evidence {
        Some(e) => score_of(e, c.kind),
        None => 0,
    }
}

/// The rules applied to a claim against the two registries.
pub open spec fn verdict(c: ClaimView, authorized: Seq<Seq<char>>, consumed: Seq<Seq<char>>) -> Result<
    (),
    Rejection,
> {
    verdict_given(c, claim_score(c), authorized, consumed)
}

/// The texts a list of strings holds.
pub open spec fn texts(v: Seq<String>) -> Seq<Seq<char>> {
    v.map_values(|s: String| s@)
}

/// Whether a registry holds a text.
pub fn registry_contains(v: &Vec<String>, s: &str) -> (r: bool)
    ensures
        r == texts(v@).contains(s@),
{
    let owned = s.to_owned();
    let mut i: usize = 0;
    while i < v.len()
        invariant
            i <= v.len(),
            owned@ == s@,
            forall|j: int| 0 <= j < i ==> v@[j]@ != s@,
        decreases v.len() - i,
    {
        if v[i] == owned {
            assert(texts(v@)[i as int] == s@);
            return true;
        }
        i = i + 1;
    }
    assert forall|j: int| 0 <= j < texts(v@).len() implies texts(v@)[j] != s@ by {
        assert(texts(v@)[j] == v@[j]@);
    }
    false
}

/// Whether two texts are equal.
pub fn text_eq(a: &str, b: &str) -> (r: bool)
    ensures
        r == (a@ == b@),
{
    a.to_owned() == b.to_owned()
}

fn kind_from_name(name: &str) -> (r: ClaimKind)
    ensures
        r == kind_named(name@),
{
    proof {
        reveal_strlit("tree_planting");
        reveal_strlit("recycling");
        reveal_strlit("air_quality");
        reveal_strlit("carbon_capture");
        reveal_strlit("wastewater_treatment");
    }
    if text_eq(name, "tree_planting") {
        ClaimKind::TreePlanting
    } else if text_eq(name, "recycling") {
        ClaimKind::Recycling
    } else if text_eq(name, "air_quality") {
        ClaimKind::AirQuality
    } else if text_eq(name, "carbon_capture") {
        ClaimKind::CarbonCapture
    } else if text_eq(name, "wastewater_treatment") {
        ClaimKind::WastewaterTreatment
    } else {
        ClaimKind::Unrecognized
    }
}

impl ClaimKind {
    /// The name a payload gives this kind.
    pub fn name(&self) -> (r: &'static str)
        ensures
            r@ == kind_name(*self),
    {
        match self {
            ClaimKind::TreePlanting => { proof { reveal_strlit("tree_planting"); } "tree_planting" },
            ClaimKind::Recycling => { proof { reveal_strlit("recycling"); } "recycling" },
            ClaimKind::AirQuality => { proof { reveal_strlit("air_quality"); } "air_quality" },
            ClaimKind::CarbonCapture => { proof { reveal_strlit("carbon_capture"); } "carbon_capture" },
            ClaimKind::WastewaterTreatment => {
                proof { reveal_strlit("wastewater_treatment"); }
                "wastewater_treatment"
            },
            ClaimKind::Unrecognized => { proof { reveal_strlit("unknown"); } "unknown" },
        }
    }

    fn device_key(&self) -> (r: Option<&'static str>)
        ensures
            match r {
                Some(k) => device_key(*self) == Some(k@),
                None => device_key(*self) is None,
            },
    {
        match self {
            ClaimKind::AirQuality => { proof { reveal_strlit("device_id"); } Some("device_id") },
            ClaimKind::CarbonCapture | ClaimKind::WastewaterTreatment => {
                proof { reveal_strlit("sentinel_id"); }
                Some("sentinel_id")
            },
            _ => None,
        }
    }

    fn evidence_key(&self) -> (r: Option<&'static str>)
        ensures
            match r {
                Some(k) => evidence_key(*self) == Some(k@),
                None => evidence_key(*self) is None,
            },
    {
        match self {
            ClaimKind::TreePlanting | ClaimKind::Recycling => {
                proof { reveal_strlit("evidence_url"); }
                Some("evidence_url")
            },
            ClaimKind::Unrecognized => None,
            _ => { proof { reveal_strlit("hardware_signature"); } Some("hardware_signature") },
        }
    }

    fn quantity_key(&self) -> (r: Option<&'static str>)
        ensures
            match r {
                Some(k) => quantity_key(*self) == Some(k@),
                None => quantity_key(*self) is None,
            },
    {
        match self {
            ClaimKind::TreePlanting => { proof { reveal_strlit("trees_planted"); } Some("trees_planted") },
            ClaimKind::Recycling => {
                proof { reveal_strlit("kilograms_recycled"); }
                Some("kilograms_recycled")
            },
            ClaimKind::CarbonCapture => { proof { reveal_strlit("tons_captured"); } Some("tons_captured") },
            ClaimKind::WastewaterTreatment => {
                proof { reveal_strlit("liters_treated"); }
                Some("liters_treated")
            },
            _ => None,
        }
    }
}


fn read_str_at(text: &str, key: Option<&'static str>) -> (r: Option<String>)
    ensures
        opt_text(r) == str_member_at(
            text@,
            match key {
                Some(k) => Some(k@),
                None => None,
            },
        ),
{
    match key {
        Some(k) => read_str_member(text, k),
        None => None,
    }
}

/// Whether a plausibility score out of 255 reaches a threshold given in percent.
pub fn is_plausible(score: u8, threshold_percent: u64) -> (r: bool)
    requires
        threshold_percent <= 100,
    ensures
        r == score_passes(score, threshold_percent),
{
    score as u64 * 100 >= threshold_percent * 255
}

/// The stand-in plausibility score of an evidence token for a claim kind.
pub fn plausibility_score(evidence: &str, kind: ClaimKind) -> (r: u8)
    ensures
        r == score_of(evidence@, kind),
{
    let mut input = evidence.to_owned();
    input.append(kind.name());
    let digest = crate::digest::sha256_text(input.as_str());
    digest[0]
}

impl Claim {
    /// Decodes a claim from its JSON payload. A payload that does not parse, or whose
    /// `type` is not a known kind, gives an unrecognized claim; absent members stay absent.
    pub fn parse(text: &str) -> (r: Claim)
        ensures
            r@ == claim_of(text@),
    {
        proof { reveal_strlit("type"); }
        let kind = match read_str_member(text, "type") {
            Some(name) => kind_from_name(name.as_str()),
            None => ClaimKind::Unrecognized,
        };
        let device_id = read_str_at(text, kind.device_key());
        let evidence = read_str_at(text, kind.evidence_key());
        let quantity = match kind.quantity_key() {
            Some(k) => read_u64_member(text, k),
            None => None,
        };
        Claim { kind, device_id, evidence, quantity }
    }

    /// The reward the claim earns, from the reward table.
    pub fn reward(&self) -> (r: u64)
        ensures
            r == reward_for(self@),
    {
        let q: u64 = match self.quantity {
            Some(q) => q,
            None => 0,
        };
        let raw: u64 = match self.kind {
            ClaimKind::TreePlanting => q,
            ClaimKind::Recycling => q / 10,
            ClaimKind::AirQuality => 2,
            ClaimKind::CarbonCapture => {
                if q > MAX_REWARD_PER_CLAIM {
                    MAX_REWARD_PER_CLAIM
                } else {
                    q * 100
                }
            },
            ClaimKind::WastewaterTreatment => q / 1000,
            ClaimKind::Unrecognized => 0,
        };
        if raw > MAX_REWARD_PER_CLAIM {
            MAX_REWARD_PER_CLAIM
        } else {
            raw
        }
    }

    /// The claim's plausibility score: that of its evidence token, or zero without one.
    pub fn score(&self) -> (r: u8)
        ensures
            r == claim_score(self@),
    {
        match &self.evidence {
            Some(e) => plausibility_score(e.as_str(), self.kind),
            None => 0,
        }
    }

    /// Applies the rules in order, given the claim's plausibility score: unrecognized
    /// kind, then origin, then a missing or already consumed evidence token, then
    /// plausibility, then the physical ceiling, which an unreadable quantity fails.
    pub fn evaluate_with_score(
        &self,
        score: u8,
        authorized: &Vec<String>,
        consumed: &Vec<String>,
    ) -> (r: Result<(), Rejection>)
        ensures
            r == verdict_given(self@, score, texts(authorized@), texts(consumed@)),
    {
        if self.kind == ClaimKind::Unrecognized {
            return Err(Rejection::UnrecognizedClaim);
        }
        if self.kind.device_key().is_some() {
            match &self.device_id {
                Some(d) => {
                    if !registry_contains(authorized, d.as_str()) {
                        return Err(Rejection::UnauthorizedOrigin);
                    }
                },
                None => {
                    return Err(Rejection::UnauthorizedOrigin);
                },
            }
        }
        let evidence = match &self.evidence {
            Some(e) => e,
            None => {
                return Err(Rejection::MissingEvidence);
            },
        };
        if registry_contains(consumed, evidence.as_str()) {
            return Err(Rejection::ReplayDetected);
        }
        let threshold: Option<u64> = match self.kind {
            ClaimKind::TreePlanting => Some(70),
            ClaimKind::Recycling => Some(75),
            _ => None,
        };
        if let Some(t) = threshold {
            if !is_plausible(score, t) {
                return Err(Rejection::LowPlausibility);
            }
        }
        let ceiling: Option<u64> = match self.kind {
            ClaimKind::TreePlanting | ClaimKind::Recycling => Some(500),
            ClaimKind::CarbonCapture => Some(50),
            _ => None,
        };
        if let Some(m) = ceiling {
            match self.quantity {
                Some(q) => {
                    if q > m {
                        return Err(Rejection::AnomalyExceeded);
                    }
                },
                None => {
                    return Err(Rejection::AnomalyExceeded);
                },
            }
        }
        Ok(())
    }

    /// Applies the rules in order against the registry of trusted devices and the
    /// registry of consumed evidence tokens.
    pub fn evaluate(&self, authorized: &Vec<String>, consumed: &Vec<String>) -> (r: Result<(), Rejection>)
        ensures
            r == verdict(self@, texts(authorized@), texts(consumed@)),
    {
        let score = self.score();
        self.evaluate_with_score(score, authorized, consumed)
    }
}

/// The reward a JSON payload earns from the reward table.
pub fn reward_for_metadata(metadata: &str) -> (r: u64)
    ensures
        r == reward_for(claim_of(metadata@)),
{
    Claim::parse(metadata).reward()
}

} // verus!
