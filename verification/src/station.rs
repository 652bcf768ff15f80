//! Tamping-station configuration: the order in which a station file is
//! checked, the hammer layout rules and the fingerprint of the file.
//!
//! The metric parts of a station file (the extrinsic matrix, hammer
//! positions and regions) are checked by the application; what they found
//! is handed in here as plain verdicts, so that every problem is reported in
//! the order the file is read.

use sha2::Digest;
use vstd::prelude::*;
use vstd::string::StringSliceAdditionalSpecFns;
use vstd::utf8::encode_utf8;

use crate::text::push_char_to;


verus! {

/// The coordinate frames a station file names.
#[derive(Debug, Clone)]
pub struct FrameConfigToml {
    pub source: String,
    pub target: String,
    pub length_unit: String,
}

/// The length unit a station file is read in unless it says otherwise.
pub fn default_length_unit() -> (r: String)
    ensures
        r@ == "m"@,
{
    String::from_str("m")
}

/// The number of points a hammer measurement needs unless the file says
/// otherwise.
pub fn default_min_points() -> (r: u64)
    ensures
        r == 100,
{
    100
}

/// The axis along which hammers are laid out.
#[derive(Debug, Clone, Copy, PartialEq, Eq, Structural)]
pub enum SupportedHammerAxis {
    Y,
}

/// How a point inside several hammer regions is attributed.
#[derive(Debug, Clone, Copy, PartialEq, Eq, Structural)]
pub enum HammerAssignment {
    /// To the hammer whose centre is nearest along Y.
    NearestYCenter,
}

/// The scanner section of a station file, as far as it is read here.
#[derive(Debug, Clone)]
pub struct ScannerOutline {
    pub extrinsic_id: String,
    pub extrinsic_kind: String,
    /// Whether the extrinsic matrix is a proper rigid transform.
    pub matrix_ok: bool,
}

/// One hammer of a station file, as far as it is read here.
#[derive(Debug, Clone)]
pub struct HammerOutline {
    pub id: String,
    pub enabled: bool,
    /// Whether the hammer's position, offset, region half-widths and
    /// height range are valid numbers.
    pub numbers_ok: bool,
}

/// The hammers section of a station file, as far as it is read here.
#[derive(Debug, Clone)]
pub struct HammersOutline {
    pub axis: String,
    pub vertical_axis: String,
    pub assignment: String,
    pub minimum_points: u64,
    pub items: Vec<HammerOutline>,
}

/// A station file, as far as it is read here.
#[derive(Debug, Clone)]
pub struct StationOutline {
    pub schema_version: u32,
    pub station_id: String,
    pub frames: Option<FrameConfigToml>,
    pub scanner: Option<ScannerOutline>,
    pub hammers: Option<HammersOutline>,
}

/// The station file format this library reads.
pub const STATION_SCHEMA_VERSION: u32 = 1;

/// Why a station file is refused.
#[derive(Debug, Clone)]
pub enum StationIssue {
    UnsupportedSchema { found: u32, expected: u32 },
    EmptyField { field: String },
    FramesIdentical { source: String, target: String },
    UnsupportedUnit { unit: String },
    UnsupportedExtrinsicKind { kind: String },
    /// The extrinsic matrix is not a proper rigid transform.
    InvalidMatrix,
    UnsupportedHammerAxis { axis: String },
    InvalidVerticalAxis { axis: String },
    DuplicateHammerId { id: String },
    /// The hammer at this position has an invalid number.
    InvalidHammerNumbers { index: usize },
    MinimumPointsZero,
    EmptyHammers,
}

/// A refusal, with its texts as character sequences.
pub enum StationProblem {
    UnsupportedSchema(u32, u32),
    EmptyField(Seq<char>),
    FramesIdentical(Seq<char>, Seq<char>),
    UnsupportedUnit(Seq<char>),
    UnsupportedExtrinsicKind(Seq<char>),
    InvalidMatrix,
    UnsupportedHammerAxis(Seq<char>),
    InvalidVerticalAxis(Seq<char>),
    DuplicateHammerId(Seq<char>),
    InvalidHammerNumbers(int),
    MinimumPointsZero,
    EmptyHammers,
}

impl View for StationIssue {
    type V = StationProblem;

    open spec fn view(&self) -> StationProblem {
        match self {
            StationIssue::UnsupportedSchema { found, expected } => StationProblem::UnsupportedSchema(*found, *expected),
            StationIssue::EmptyField { field } => StationProblem::EmptyField(field@),
            StationIssue::FramesIdentical { source, target } => StationProblem::FramesIdentical(source@, target@),
            StationIssue::UnsupportedUnit { unit } => StationProblem::UnsupportedUnit(unit@),
            StationIssue::UnsupportedExtrinsicKind { kind } => StationProblem::UnsupportedExtrinsicKind(kind@),
            StationIssue::InvalidMatrix => StationProblem::InvalidMatrix,
            StationIssue::UnsupportedHammerAxis { axis } => StationProblem::UnsupportedHammerAxis(axis@),
            StationIssue::InvalidVerticalAxis { axis } => StationProblem::InvalidVerticalAxis(axis@),
            StationIssue::DuplicateHammerId { id } => StationProblem::DuplicateHammerId(id@),
            StationIssue::InvalidHammerNumbers { index } => StationProblem::InvalidHammerNumbers(*index as int),
            StationIssue::MinimumPointsZero => StationProblem::MinimumPointsZero,
            StationIssue::EmptyHammers => StationProblem::EmptyHammers,
        }
    }
}

/// The frames a station file gets when it names none.
pub open spec fn spec_frames_or_default(frames: Option<FrameConfigToml>) -> (Seq<char>, Seq<char>, Seq<char>) {
    match frames {
        Some(f) => (f.source@, f.target@, f.length_unit@),
        None => ("quanergy_sensor"@, "station"@, "m"@),
    }
}

/// The problem of the frames section, if any.
pub open spec fn spec_frames_problem(frames: (Seq<char>, Seq<char>, Seq<char>)) -> Option<StationProblem> {
    if frames.0.len() == 0 {
        Some(StationProblem::EmptyField("frames.source"@))
    } else if frames.1.len() == 0 {
        Some(StationProblem::EmptyField("frames.target"@))
    } else if frames.0 == frames.1 {
        Some(StationProblem::FramesIdentical(frames.0, frames.1))
    } else if frames.2 != "m"@ {
        Some(StationProblem::UnsupportedUnit(frames.2))
    } else {
        None
    }
}

/// The problem of the scanner section, if any.
pub open spec fn spec_scanner_problem(scanner: Option<ScannerOutline>) -> Option<StationProblem> {
    match scanner {
        None => Some(StationProblem::EmptyField("scanner"@)),
        Some(s) => if s.extrinsic_id@.len() == 0 {
            Some(StationProblem::EmptyField("scanner.extrinsic_id"@))
        } else if s.extrinsic_kind@ != "matrix"@ {
            Some(StationProblem::UnsupportedExtrinsicKind(s.extrinsic_kind@))
        } else if !s.matrix_ok {
            Some(StationProblem::InvalidMatrix)
        } else {
            None
        },
    }
}

/// The text of the refusal of an unknown hammer assignment.
pub open spec fn assignment_refusal(a: Seq<char>) -> Seq<char> {
    "assignment '"@ + a + "' \u{2014} expected 'nearest_y_center'"@
}

/// The problem of hammer `i` once the hammers before it passed: an empty
/// name, a name already used, or an invalid number.
pub open spec fn spec_hammer_problem(items: Seq<HammerOutline>, i: int) -> Option<StationProblem> {
    if items[i].id@.len() == 0 {
        Some(StationProblem::EmptyField("hammer id"@))
    } else if exists|j: int| 0 <= j < i && #[trigger] items[j].id@ == items[i].id@ {
        Some(StationProblem::DuplicateHammerId(items[i].id@))
    } else if !items[i].numbers_ok {
        Some(StationProblem::InvalidHammerNumbers(i))
    } else {
        None
    }
}

/// The first problem among the first `n` hammers.
pub open spec fn spec_hammers_problem(items: Seq<HammerOutline>, n: int) -> Option<StationProblem>
    decreases n,
{
    if n <= 0 {
        None
    } else {
        match spec_hammers_problem(items, n - 1) {
            Some(p) => Some(p),
            None => spec_hammer_problem(items, n - 1),
        }
    }
}

/// The problem of the hammers section, if any.
pub open spec fn spec_hammers_section_problem(hammers: Option<HammersOutline>) -> Option<StationProblem> {
    match hammers {
        None => Some(StationProblem::EmptyHammers),
        Some(h) => if h.axis@ != "y"@ {
            Some(StationProblem::UnsupportedHammerAxis(h.axis@))
        } else if h.vertical_axis@ != "z"@ {
            Some(StationProblem::InvalidVerticalAxis(h.vertical_axis@))
        } else if h.minimum_points == 0 {
            Some(StationProblem::MinimumPointsZero)
        } else if h.items@.len() == 0 {
            Some(StationProblem::EmptyHammers)
        } else if h.assignment@.len() != 0 && h.assignment@ != "nearest_y_center"@ {
            Some(StationProblem::UnsupportedUnit(assignment_refusal(h.assignment@)))
        } else {
            spec_hammers_problem(h.items@, h.items@.len() as int)
        },
    }
}

/// The first problem of a station file, in the order the file is checked:
/// format version, station name, frames, scanner, hammers.
pub open spec fn spec_station_problem(o: StationOutline) -> Option<StationProblem> {
    if o.schema_version != STATION_SCHEMA_VERSION {
        Some(StationProblem::UnsupportedSchema(o.schema_version, STATION_SCHEMA_VERSION))
    } else if o.station_id@.len() == 0 {
        Some(StationProblem::EmptyField("station_id"@))
    } else {
        match spec_frames_problem(spec_frames_or_default(o.frames)) {
            Some(p) => Some(p),
            None => match spec_scanner_problem(o.scanner) {
                Some(p) => Some(p),
                None => spec_hammers_section_problem(o.hammers),
            },
        }
    }
}

proof fn lemma_hammers_problem_stable(items: Seq<HammerOutline>, m: int, n: int)
    requires
        0 <= m <= n,
        spec_hammers_problem(items, m) is Some,
    ensures
        spec_hammers_problem(items, n) == spec_hammers_problem(items, m),
    decreases n - m,
{
    if m < n {
        lemma_hammers_problem_stable(items, m, n - 1);
    }
}

proof fn lemma_no_problem_no_repeat(items: Seq<HammerOutline>, n: int)
    requires
        0 <= n <= items.len(),
        spec_hammers_problem(items, n) is None,
    ensures
        forall|k: int, j: int| 0 <= j < k < n ==> #[trigger] items[j].id@ != #[trigger] items[k].id@,
        forall|k: int| 0 <= k < n ==> #[trigger] items[k].id@.len() > 0,
    decreases n,
{
    if n > 0 {
        lemma_no_problem_no_repeat(items, n - 1);
        assert(spec_hammer_problem(items, n - 1) is None);
        assert forall|j: int| 0 <= j < n - 1 implies #[trigger] items[j].id@ != items[n - 1].id@ by {
            if items[j].id@ == items[n - 1].id@ {
                assert(exists|j2: int| 0 <= j2 < n - 1 && #[trigger] items[j2].id@ == items[n - 1].id@);
            }
        }
    }
}

/// A station file that passes the checks has hammers, and every hammer
/// has a name of its own: its layout passes the layout check.
pub proof fn lemma_valid_station_layout(o: StationOutline)
    requires
        spec_station_problem(o) is None,
    ensures
        o.hammers matches Some(h) && h.items@.len() > 0 && (forall|k: int, j: int| 0 <= j < k < h.items@.len()
            ==> #[trigger] h.items@[j].id@ != #[trigger] h.items@[k].id@),
{
    let h = o.hammers->0;
    lemma_no_problem_no_repeat(h.items@, h.items@.len() as int);
}

/// A station file asking for zero points per hammer measurement is
/// refused: with its sections before the hammers valid and its hammers
/// laid along `y` with `z` vertical, the refusal is `MinimumPointsZero`.
/// So no accepted station file has `minimum_points == 0`.
pub proof fn lemma_minimum_points_zero_refused(o: StationOutline)
    requires
        o.hammers matches Some(h) && h.minimum_points == 0,
    ensures
        spec_station_problem(o) is Some,
        ({
            let h = o.hammers->0;
            let before = StationOutline { hammers: None, ..o };
            (spec_station_problem(before) == Some(StationProblem::EmptyHammers) && h.axis@ == "y"@ && h.vertical_axis@
                == "z"@) ==> spec_station_problem(o) == Some(StationProblem::MinimumPointsZero)
        }),
{
}

/// Every accepted station file asks for at least one point per hammer
/// measurement.
pub proof fn lemma_accepted_station_minimum_points(o: StationOutline)
    requires
        spec_station_problem(o) is None,
    ensures
        o.hammers matches Some(h) && h.minimum_points > 0,
{
}

/// What a valid station file settles, besides its metric values.
#[derive(Debug, Clone)]
pub struct StationPlan {
    pub station_id: String,
    pub source_frame: String,
    pub target_frame: String,
    pub extrinsic_id: String,
    pub axis: SupportedHammerAxis,
    pub vertical_axis: String,
    pub assignment: HammerAssignment,
    pub minimum_points: u64,
    /// The hammer names, in the file's order.
    pub hammer_ids: Vec<String>,
}

/// Whether the text of `s` equals the literal `lit`.
fn text_is(s: &String, lit: &str) -> (r: bool)
    ensures
        r == (s@ == lit@),
{
    let other = String::from_str(lit);
    *s == other
}

/// Whether some name before position `i` equals the name at `i`.
fn seen_before(items: &Vec<HammerOutline>, i: usize) -> (r: bool)
    requires
        i < items.len(),
    ensures
        r == exists|j: int| 0 <= j < i && #[trigger] items@[j].id@ == items@[i as int].id@,
{
    let mut j: usize = 0;
    while j < i
        invariant
            i < items.len(),
            j <= i,
            forall|k: int| 0 <= k < j ==> #[trigger] items@[k].id@ != items@[i as int].id@,
        decreases i - j,
    {
        if items[j].id == items[i].id {
            return true;
        }
        j = j + 1;
    }
    false
}

/// Checks a station file in order and settles what it describes; the
/// first problem found is the one reported.
#[verifier::loop_isolation(false)]
pub fn validate_station(outline: StationOutline) -> (r: Result<StationPlan, StationIssue>)
    ensures
        match spec_station_problem(outline) {
            Some(p) => r matches Err(e) && e@ == p,
            None => r matches Ok(plan) && {
                &&& plan.station_id@ == outline.station_id@
                &&& plan.source_frame@ == spec_frames_or_default(outline.frames).0
                &&& plan.target_frame@ == spec_frames_or_default(outline.frames).1
                &&& outline.scanner matches Some(s) && plan.extrinsic_id@ == s.extrinsic_id@
                &&& outline.hammers matches Some(h) && {
                    &&& plan.vertical_axis@ == h.vertical_axis@
                    &&& plan.minimum_points == h.minimum_points
                    &&& plan.minimum_points > 0
                    &&& plan.hammer_ids@.len() == h.items@.len()
                    &&& forall|i: int| 0 <= i < h.items@.len() ==> #[trigger] plan.hammer_ids@[i]@ == h.items@[i].id@
                }
                &&& plan.axis == SupportedHammerAxis::Y
                &&& plan.assignment == HammerAssignment::NearestYCenter
            },
        },
{
    proof {
        reveal_strlit("frames.source");
        reveal_strlit("frames.target");
        reveal_strlit("quanergy_sensor");
        reveal_strlit("station");
        reveal_strlit("m");
    }
    if outline.schema_version != STATION_SCHEMA_VERSION {
        return Err(StationIssue::UnsupportedSchema { found: outline.schema_version, expected: STATION_SCHEMA_VERSION });
    }
    if outline.station_id.as_str().is_empty() {
        return Err(StationIssue::EmptyField { field: String::from_str("station_id") });
    }
    let frames = match outline.frames {
        Some(f) => f,
        None => FrameConfigToml {
            source: String::from_str("quanergy_sensor"),
            target: String::from_str("station"),
            length_unit: String::from_str("m"),
        },
    };
    assert((frames.source@, frames.target@, frames.length_unit@) == spec_frames_or_default(outline.frames));
    if frames.source.as_str().is_empty() {
        return Err(StationIssue::EmptyField { field: String::from_str("frames.source") });
    }
    if frames.target.as_str().is_empty() {
        return Err(StationIssue::EmptyField { field: String::from_str("frames.target") });
    }
    if frames.source == frames.target {
        return Err(StationIssue::FramesIdentical { source: frames.source, target: frames.target });
    }
    if !text_is(&frames.length_unit, "m") {
        return Err(StationIssue::UnsupportedUnit { unit: frames.length_unit });
    }
    let scanner = match outline.scanner {
        Some(s) => s,
        None => {
            return Err(StationIssue::EmptyField { field: String::from_str("scanner") });
        },
    };
    if scanner.extrinsic_id.as_str().is_empty() {
        return Err(StationIssue::EmptyField { field: String::from_str("scanner.extrinsic_id") });
    }
    if !text_is(&scanner.extrinsic_kind, "matrix") {
        return Err(StationIssue::UnsupportedExtrinsicKind { kind: scanner.extrinsic_kind });
    }
    if !scanner.matrix_ok {
        return Err(StationIssue::InvalidMatrix);
    }
    let hammers = match outline.hammers {
        Some(h) => h,
        None => {
            return Err(StationIssue::EmptyHammers);
        },
    };
    if !text_is(&hammers.axis, "y") {
        return Err(StationIssue::UnsupportedHammerAxis { axis: hammers.axis });
    }
    if !text_is(&hammers.vertical_axis, "z") {
        return Err(StationIssue::InvalidVerticalAxis { axis: hammers.vertical_axis });
    }
    if hammers.minimum_points == 0 {
        return Err(StationIssue::MinimumPointsZero);
    }
    if hammers.items.len() == 0 {
        return Err(StationIssue::EmptyHammers);
    }
    if !hammers.assignment.as_str().is_empty() && !text_is(&hammers.assignment, "nearest_y_center") {
        let unit = String::from_str("assignment '").concat(hammers.assignment.as_str()).concat(
            "' \u{2014} expected 'nearest_y_center'",
        );
        return Err(StationIssue::UnsupportedUnit { unit });
    }
    let items = &hammers.items;
    let mut ids: Vec<String> = Vec::new();
    let mut i: usize = 0;
    while i < items.len()
        invariant
            i <= items.len(),
            spec_hammers_problem(items@, i as int) is None,
            ids@.len() == i,
            forall|k: int| 0 <= k < i ==> #[trigger] ids@[k]@ == items@[k].id@,
        decreases items.len() - i,
    {
        if items[i].id.as_str().is_empty() {
            assert(spec_hammers_problem(items@, i + 1) == Some(StationProblem::EmptyField("hammer id"@)));
            proof {
                lemma_hammers_problem_stable(items@, i + 1, items@.len() as int);
            }
            return Err(StationIssue::EmptyField { field: String::from_str("hammer id") });
        }
        if seen_before(items, i) {
            assert(spec_hammers_problem(items@, i + 1) == Some(StationProblem::DuplicateHammerId(items@[i as int].id@)));
            proof {
                lemma_hammers_problem_stable(items@, i + 1, items@.len() as int);
            }
            return Err(StationIssue::DuplicateHammerId { id: items[i].id.clone() });
        }
        if !items[i].numbers_ok {
            assert(spec_hammers_problem(items@, i + 1) == Some(StationProblem::InvalidHammerNumbers(i as int)));
            proof {
                lemma_hammers_problem_stable(items@, i + 1, items@.len() as int);
            }
            return Err(StationIssue::InvalidHammerNumbers { index: i });
        }
        assert(spec_hammers_problem(items@, i + 1) is None);
        ids.push(items[i].id.clone());
        i = i + 1;
    }
    proof {
        lemma_accepted_station_minimum_points(outline);
    }
    Ok(StationPlan {
        station_id: outline.station_id,
        source_frame: frames.source,
        target_frame: frames.target,
        extrinsic_id: scanner.extrinsic_id,
        axis: SupportedHammerAxis::Y,
        vertical_axis: hammers.vertical_axis,
        assignment: HammerAssignment::NearestYCenter,
        minimum_points: hammers.minimum_points,
        hammer_ids: ids,
    })
}

/// The first position whose name was already used before it.
fn first_repeat(ids: &Vec<String>) -> (r: Option<usize>)
    ensures
        match r {
            Some(i) => i < ids.len() && (exists|j: int| 0 <= j < i && #[trigger] ids@[j]@ == ids@[i as int]@)
                && forall|k: int| 0 <= k < i ==> forall|j: int| 0 <= j < k ==> #[trigger] ids@[j]@ != #[trigger] ids@[k]@,
            None => forall|k: int| 0 <= k < ids.len() ==> forall|j: int| 0 <= j < k ==> #[trigger] ids@[j]@ != #[trigger] ids@[k]@,
        },
{
    let mut i: usize = 0;
    while i < ids.len()
        invariant
            i <= ids.len(),
            forall|k: int| 0 <= k < i ==> forall|j: int| 0 <= j < k ==> #[trigger] ids@[j]@ != #[trigger] ids@[k]@,
        decreases ids.len() - i,
    {
        let mut j: usize = 0;
        while j < i
            invariant
                i < ids.len(),
                j <= i,
                forall|k: int| 0 <= k < j ==> #[trigger] ids@[k]@ != ids@[i as int]@,
                forall|k: int| 0 <= k < i ==> forall|j2: int| 0 <= j2 < k ==> #[trigger] ids@[j2]@ != #[trigger] ids@[k]@,
            decreases i - j,
        {
            if ids[j] == ids[i] {
                assert(ids@[j as int]@ == ids@[i as int]@);
                return Some(i);
            }
            j = j + 1;
        }
        i = i + 1;
    }
    None
}

/// Checks that a hammer layout has hammers and that no name is used
/// twice; the message names the first name found again.
pub fn validate_hammer_ids(ids: &Vec<String>) -> (r: Result<(), String>)
    ensures
        ids.len() == 0 ==> (r matches Err(m) && m@ == "hammer layout must contain at least one hammer"@),
        ids.len() > 0 && (forall|k: int| 0 <= k < ids.len() ==> forall|j: int| 0 <= j < k ==> #[trigger] ids@[j]@ != #[trigger] ids@[k]@)
            ==> r is Ok,
        ids.len() > 0 && (exists|k: int, j: int| 0 <= j < k < ids.len() && #[trigger] ids@[j]@ == #[trigger] ids@[k]@)
            ==> (r matches Err(m) && exists|k: int| 0 <= k < ids.len()
                && (exists|j: int| 0 <= j < k && #[trigger] ids@[j]@ == ids@[k]@)
                && (forall|k2: int| 0 <= k2 < k ==> forall|j: int| 0 <= j < k2 ==> #[trigger] ids@[j]@ != #[trigger] ids@[k2]@)
                && m@ == "duplicate hammer id: "@ + ids@[k]@),
{
    if ids.len() == 0 {
        return Err(String::from_str("hammer layout must contain at least one hammer"));
    }
    match first_repeat(ids) {
        Some(i) => Err(String::from_str("duplicate hammer id: ").concat(ids[i].as_str())),
        None => Ok(()),
    }
}

/// The SHA-256 digest of a byte sequence.
pub uninterp spec fn sha256_digest(data: Seq<u8>) -> Seq<u8>;

/// `sha2::Sha256::digest`: the SHA-256 digest of `data`, 32 bytes. The
/// digest is a function of the bytes alone; its value is named, not
/// stated.
#[verifier::external_body]
fn sha256(data: &[u8]) -> (r: [u8; 32])
    ensures
        r@ == sha256_digest(data@),
{
    sha2::Sha256::digest(data).into()
}

/// The lower-case hexadecimal digit for a value below sixteen.
pub open spec fn hex_digit(d: int) -> char {
    if d < 10 {
        (('0' as u32) + d) as char
    } else {
        (('a' as u32) + d - 10) as char
    }
}

/// Lower-case hexadecimal notation of bytes, two digits per byte.
pub open spec fn spec_hex(bytes: Seq<u8>) -> Seq<char>
    decreases bytes.len(),
{
    if bytes.len() == 0 {
        Seq::empty()
    } else {
        spec_hex(bytes.drop_last()) + seq![hex_digit(bytes.last() as int / 16), hex_digit(bytes.last() as int % 16)]
    }
}

/// The digit character for a value below sixteen.
fn hex_char(d: u8) -> (c: char)
    requires
        d < 16,
    ensures
        c == hex_digit(d as int),
{
    if d < 10 {
        (48u8 + d) as char
    } else {
        (87u8 + d) as char
    }
}

/// Lower-case hexadecimal notation of `bytes`.
pub fn hex_lower(bytes: &[u8]) -> (r: String)
    ensures
        r@ == spec_hex(bytes@),
{
    let mut r = String::new();
    let mut i: usize = 0;
    while i < bytes.len()
        invariant
            i <= bytes.len(),
            r@ == spec_hex(bytes@.subrange(0, i as int)),
        decreases bytes.len() - i,
    {
        let b = bytes[i];
        push_char_to(&mut r, hex_char(b / 16));
        push_char_to(&mut r, hex_char(b % 16));
        proof {
            let next = bytes@.subrange(0, i + 1);
            assert(next.drop_last() =~= bytes@.subrange(0, i as int));
            assert(r@ =~= spec_hex(next));
        }
        i = i + 1;
    }
    assert(bytes@.subrange(0, bytes.len() as int) =~= bytes@);
    r
}

/// Whether `c` is a lower-case hexadecimal digit.
pub open spec fn is_lower_hex(c: char) -> bool {
    ('0' <= c && c <= '9') || ('a' <= c && c <= 'f')
}

proof fn lemma_hex_shape(bytes: Seq<u8>)
    ensures
        spec_hex(bytes).len() == 2 * bytes.len(),
        forall|i: int| 0 <= i < spec_hex(bytes).len() ==> is_lower_hex(#[trigger] spec_hex(bytes)[i]),
    decreases bytes.len(),
{
    if bytes.len() > 0 {
        lemma_hex_shape(bytes.drop_last());
        let last = bytes.last() as int;
        assert(0 <= last / 16 < 16 && 0 <= last % 16 < 16);
        let h = spec_hex(bytes);
        let prev = spec_hex(bytes.drop_last());
        assert forall|i: int| 0 <= i < h.len() implies is_lower_hex(#[trigger] h[i]) by {
            if i < prev.len() {
                assert(h[i] == prev[i]);
            }
        }
    }
}

/// The fingerprint of a station text: the lower-case hexadecimal SHA-256
/// digest of its UTF-8 bytes.
pub open spec fn spec_config_hash(text: Seq<char>) -> Seq<char> {
    spec_hex(sha256_digest(encode_utf8(text)))
}

/// The fingerprint of a station file's text: the lower-case hexadecimal
/// SHA-256 digest of its UTF-8 bytes, 64 lower-case hexadecimal digits.
pub fn config_hash(text: &str) -> (r: String)
    ensures
        r@ == spec_config_hash(text@),
        r@.len() == 64,
        forall|i: int| 0 <= i < r@.len() ==> is_lower_hex(#[trigger] r@[i]),
{
    let digest = sha256(text.as_bytes());
    proof {
        lemma_hex_shape(digest@);
    }
    hex_lower(&digest)
}

/// The fingerprint depends on the text alone: texts with the same
/// characters have the same fingerprint.
pub proof fn lemma_same_text_same_hash(a: Seq<char>, b: Seq<char>)
    requires
        a == b,
    ensures
        spec_config_hash(a) == spec_config_hash(b),
{
}

} // verus!
