//! Mapping a logical device class to the identifier of the best-matching sink
//! in the audio server's listing.
//!
//! Every line of the listing is parsed; malformed lines are collected as
//! non-fatal warnings. Among the lines that parse, the first one (in listing
//! order) whose description contains both marker substrings for the requested
//! device wins. Ties are resolved by taking the earliest line; there is no
//! scoring.

use vstd::prelude::*;

use crate::device::Device;
use crate::record::{parses, sink_id_of, ParseError, Sink};
use crate::text::{contains_seq, contains_substring, spec_split_lines, split_lines};

verus! {

/// Error when no sink description matched the requested device's marker pair.
#[derive(Debug, Clone, Copy, PartialEq, Eq, Structural)]
pub enum ResolutionError {
    NotFound { target: Device },
}

/// Marker common to both device classes: the analog stereo profile.
pub open spec fn stereo_marker() -> Seq<char> {
    "analog-stereo"@
}

/// Hardware-specific marker that identifies the sink of a device class.
pub open spec fn device_marker(target: Device) -> Seq<char> {
    match target {
        Device::Headphones => "Hyper"@,
        Device::Speakers => "pci"@,
    }
}

/// A description matches a device class when it contains both the analog
/// stereo marker and the class's hardware marker.
pub open spec fn matches_target(desc: Seq<char>, target: Device) -> bool {
    contains_seq(desc, stereo_marker()) && contains_seq(desc, device_marker(target))
}

/// A listing line qualifies when it parses as a sink record and its
/// description matches the requested device class.
pub open spec fn qualifies(line: Seq<char>, target: Device) -> bool {
    parses(line) && matches_target(line, target)
}

/// The outcome of resolution: the identifier of the first qualifying line, or
/// `NotFound` when no line qualifies.
pub open spec fn spec_resolve(lines: Seq<Seq<char>>, target: Device) -> Result<
    usize,
    ResolutionError,
>
    decreases lines.len(),
{
    if lines.len() == 0 {
        Err(ResolutionError::NotFound { target })
    } else if qualifies(lines[0], target) {
        Ok(sink_id_of(lines[0]) as usize)
    } else {
        spec_resolve(lines.drop_first(), target)
    }
}

/// The malformed lines of a listing, in listing order: exactly those that do
/// not parse as a sink record.
pub open spec fn spec_warnings(lines: Seq<Seq<char>>) -> Seq<Seq<char>>
    decreases lines.len(),
{
    if lines.len() == 0 {
        Seq::empty()
    } else if parses(lines[0]) {
        spec_warnings(lines.drop_first())
    } else {
        seq![lines[0]] + spec_warnings(lines.drop_first())
    }
}

/// The views of a sequence of listing lines.
pub open spec fn line_views(lines: Seq<String>) -> Seq<Seq<char>> {
    lines.map_values(|l: String| l@)
}

/// The views of the lines carried by a sequence of parse warnings.
pub open spec fn warning_views(ws: Seq<ParseError>) -> Seq<Seq<char>> {
    ws.map_values(|w: ParseError| w.line@)
}

/// The hardware marker of a device class, as a string slice.
pub fn device_marker_str(target: Device) -> (r: &'static str)
    ensures
        r@ == device_marker(target),
{
    match target {
        Device::Headphones => "Hyper",
        Device::Speakers => "pci",
    }
}

/// Resolves a device class against the lines of a sink listing.
///
/// Every line is attempted; lines that fail to parse come back as warnings and
/// do not abort resolution. The result is the identifier of the first line (in
/// listing order) that parses and contains both markers for `target`, or
/// `NotFound` when no line does. The result and the warnings are functions of
/// the input alone: resolution is deterministic.
pub fn resolve(lines: &Vec<String>, target: Device) -> (r: (
    Result<usize, ResolutionError>,
    Vec<ParseError>,
))
    ensures
        r.0 == spec_resolve(line_views(lines@), target),
        warning_views(r.1@) == spec_warnings(line_views(lines@)),
{
    let ghost vs = line_views(lines@);
    let mut warnings: Vec<ParseError> = Vec::new();
    let mut found: Option<usize> = None;
    let mut i: usize = 0;
    proof {
        assert(vs.skip(0) =~= vs);
        assert(warning_views(warnings@) + spec_warnings(vs) =~= spec_warnings(vs));
    }
    while i < lines.len()
        invariant
            vs == line_views(lines@),
            vs.len() == lines@.len(),
            0 <= i <= lines@.len(),
            warning_views(warnings@) + spec_warnings(vs.skip(i as int)) == spec_warnings(vs),
            match found {
                Some(id) => spec_resolve(vs, target) == Ok::<usize, ResolutionError>(id),
                None => spec_resolve(vs, target) == spec_resolve(vs.skip(i as int), target),
            },
        decreases lines@.len() - i,
    {
        proof {
            assert(vs.skip(i as int)[0] == vs[i as int]);
            assert(vs.skip(i as int).drop_first() =~= vs.skip(i + 1));
            assert(vs[i as int] == lines@[i as int]@);
        }
        let line = &lines[i];
        match Sink::new(line.clone()) {
            Ok(sink) => {
                if found.is_none() && contains_substring(line.as_str(), "analog-stereo")
                    && contains_substring(line.as_str(), device_marker_str(target)) {
                    found = Some(sink.id);
                }
            }
            Err(e) => {
                proof {
                    assert(warning_views(warnings@.push(e)) =~= warning_views(warnings@).push(
                        e.line@,
                    ));
                    assert(warning_views(warnings@).push(e.line@) + spec_warnings(vs.skip(i + 1))
                        =~= warning_views(warnings@) + spec_warnings(vs.skip(i as int)));
                }
                warnings.push(e);
            }
        }
        i += 1;
    }
    proof {
        assert(vs.skip(vs.len() as int) =~= Seq::<Seq<char>>::empty());
        assert(warning_views(warnings@) + spec_warnings(vs.skip(vs.len() as int)) =~= warning_views(
            warnings@,
        ));
    }
    match found {
        Some(id) => (Ok(id), warnings),
        None => (Err(ResolutionError::NotFound { target }), warnings),
    }
}

/// Resolves a device class against the raw listing text: cuts the text into
/// lines at newlines (tolerating a trailing empty line) and resolves against
/// those lines.
pub fn resolve_listing(text: &str, target: Device) -> (r: (
    Result<usize, ResolutionError>,
    Vec<ParseError>,
))
    ensures
        r.0 == spec_resolve(spec_split_lines(text@), target),
        warning_views(r.1@) == spec_warnings(spec_split_lines(text@)),
{
    let lines = split_lines(text);
    resolve(&lines, target)
}

/// Index of the first qualifying line, or the listing's length when none
/// qualifies.
pub open spec fn first_qual(lines: Seq<Seq<char>>, target: Device) -> int
    decreases lines.len(),
{
    if lines.len() == 0 {
        0
    } else if qualifies(lines[0], target) {
        0
    } else {
        1 + first_qual(lines.drop_first(), target)
    }
}

/// What resolution returns, spelled out line by line.
///
/// When some line of the listing qualifies for `target`, the result is `Ok`
/// with the identifier parsed from the earliest such line, and every line
/// before it fails the predicate; resolution never returns the identifier of a
/// line that failed it. When no line qualifies, the result is exactly
/// `NotFound` for the requested device.
pub proof fn lemma_resolve_first_match(lines: Seq<Seq<char>>, target: Device)
    ensures
        0 <= first_qual(lines, target) <= lines.len(),
        forall|j: int| 0 <= j < first_qual(lines, target) ==> !qualifies(lines[j], target),
        first_qual(lines, target) < lines.len() ==> qualifies(lines[first_qual(lines, target)], target)
            && spec_resolve(lines, target) == Ok::<usize, ResolutionError>(
            sink_id_of(lines[first_qual(lines, target)]) as usize,
        ),
        first_qual(lines, target) == lines.len() ==> spec_resolve(lines, target) == Err::<
            usize,
            ResolutionError,
        >((ResolutionError::NotFound { target })),
    decreases lines.len(),
{
    if lines.len() == 0 {
    } else if qualifies(lines[0], target) {
    } else {
        let rest = lines.drop_first();
        lemma_resolve_first_match(rest, target);
        assert forall|j: int| 0 <= j < first_qual(lines, target) implies !qualifies(
            lines[j],
            target,
        ) by {
            if j > 0 {
                assert(!qualifies(rest[j - 1], target));
                assert(rest[j - 1] == lines[j]);
            }
        }
    }
}

} // verus!
