//! Opening contexts on a converting pulse.
//!
//! An occurrence open may translate its `datapath` when an earlier open of
//! the same occurrence already found a stored-version mismatch. Once the
//! open succeeds, the occurrence's stamp decides what the registry
//! remembers: a malformed stamp refuses (and the just-opened context must
//! be ended), an absent or matching stamp is presumed to match, and a
//! mismatch is remembered so a root context can be registered. An
//! arraystruct open under a converting context translates both of its
//! arguments or refuses before IMAS-Core opens anything.
use vstd::prelude::*;

use crate::context_registry::{known_at, ContextId, ContextRegistry, EntryView, RegistryView};
use crate::conversion_map::{resolve_spec, ConversionMap, Direction, Outcome, OutcomeView};
use crate::dd_version::{version_text, DdVersion, DdVersionView};
use crate::read_path::{
    context_path_spec, given, opt_str, resolve_arraystruct_argument,
};
use crate::status::al_status_t;
use crate::stored_path::{join_hli_path, joined, refusal_path, refusal_path_spec};
use crate::text::{str_eq, chars_between, chars_of, contains_char, find_char, first_index, has_char, owned, string_of};
use crate::version_stamp::StampOutcome;

verus! {

// ---------------------------------------------------------------------------
// Occurrence names
// ---------------------------------------------------------------------------

/// The IDS name of an occurrence name such as `equilibrium/3`: everything
/// before the first `/`. Occurrence numbers do not change which conversion
/// map applies.
pub open spec fn ids_name_spec(dataobjectname: Seq<char>) -> Seq<char> {
    match first_index(dataobjectname, '/') {
        Some(i) => dataobjectname.subrange(0, i),
        None => dataobjectname,
    }
}

/// The IDS name portion of `dataobjectname`.
pub fn ids_name_from(dataobjectname: &str) -> (r: String)
    ensures
        r@ == ids_name_spec(dataobjectname@),
{
    let chars = chars_of(dataobjectname);
    match find_char(&chars, '/') {
        Some(i) => {
            let head = chars_between(&chars, 0, i);
            string_of(&head)
        },
        None => string_of(&chars),
    }
}

// ---------------------------------------------------------------------------
// Datapath translation on the way in
// ---------------------------------------------------------------------------

/// The stored version remembered for an occurrence under a pulse, when it
/// differs from the HLI's: the one case in which a later open of that
/// occurrence translates its `datapath`.
pub open spec fn known_mismatch_spec<M>(
    v: RegistryView<M>,
    pulse_ctx_id: ContextId,
    dataobjectname: Seq<char>,
    hli: crate::dd_version::DdVersionView,
) -> Option<crate::dd_version::DdVersionView> {
    match known_at(v, pulse_ctx_id) {
        Some(known) => if known.contains_key(dataobjectname) && known[dataobjectname] != hli {
            Some(known[dataobjectname])
        } else {
            None
        },
        None => None,
    }
}

/// IMAS-Core's read access mode.
pub const READ_OP_ID: i32 = 30;

/// Whether an occurrence open must learn the DD-version stamp through a
/// reading context of the loader's own, opened before the caller's: only a
/// context opened for reading can answer the stamp question, so the probe
/// is owed exactly when the caller opens for anything but reading and names
/// a data object.
pub fn stamp_probe_owed(rwmode: i32, names_data_object: bool) -> (r: bool)
    ensures
        r == (rwmode != READ_OP_ID && names_data_object),
{
    rwmode != READ_OP_ID && names_data_object
}

/// Looks up the mismatched stored version remembered for an occurrence.
pub fn known_mismatch<M: Clone>(
    registry: &ContextRegistry<M>,
    pulse_ctx_id: ContextId,
    dataobjectname: &str,
    hli: &DdVersion,
) -> (r: Option<DdVersion>)
    ensures
        match (r, known_mismatch_spec(registry@, pulse_ctx_id, dataobjectname@, hli@)) {
            (Some(v), Some(w)) => v@ == w,
            (None, None) => true,
            _ => false,
        },
{
    match registry.known_stored_version(pulse_ctx_id, dataobjectname) {
        Some(stored) => if stored.same_as(hli) {
            None
        } else {
            Some(stored)
        },
        None => None,
    }
}

/// The stored spelling a `datapath` is forwarded under: only a concrete
/// resolved path, free of NUL, is a basis to translate it; anything else
/// forwards it unchanged.
pub open spec fn datapath_translation_spec(
    map: ConversionMap,
    direction: Direction,
    path: Option<Seq<char>>,
) -> Option<Seq<char>> {
    if !given(path) {
        None
    } else {
        match resolve_spec(map, path->0, direction) {
            Some(e) => match e.outcome {
                OutcomeView::Path(resolved, _, _) => if has_char(resolved, '\0') {
                    None
                } else {
                    Some(resolved)
                },
                _ => None,
            },
            None => None,
        }
    }
}

/// Translates a `datapath` from the HLI's spelling to the stored one, or
/// `None` to forward it unchanged.
pub fn datapath_translation(map: &ConversionMap, direction: Direction, path: Option<&str>) -> (r:
    Option<String>)
    requires
        map.wf(),
    ensures
        opt_str_owned(r) == datapath_translation_spec(*map, direction, opt_str(path)),
{
    let path = match path {
        Some(p) => p,
        None => return None,
    };
    if path.is_empty() {
        return None;
    }
    match map.resolve(path, direction) {
        Some(explanation) => match explanation.outcome {
            Outcome::Path { resolved_path, .. } => {
                let chars = chars_of(resolved_path.as_str());
                if contains_char(&chars, '\0') {
                    None
                } else {
                    Some(resolved_path)
                }
            },
            _ => None,
        },
        None => None,
    }
}

pub open spec fn opt_str_owned(s: Option<String>) -> Option<Seq<char>> {
    match s {
        Some(p) => Some(p@),
        None => None,
    }
}

// ---------------------------------------------------------------------------
// Which way a map serves an occurrence
// ---------------------------------------------------------------------------

/// The direction that takes the HLI's spelling to the stored one on a map
/// whose sides are spelled `left` and `right`: forward when the HLI is the
/// left side and the occurrence the right, reverse the other way round,
/// none when the map does not join the two versions.
pub open spec fn direction_to_stored_spec(
    left: Seq<char>,
    right: Seq<char>,
    stored: Seq<char>,
    hli: Seq<char>,
) -> Option<Direction> {
    if hli == left && stored == right {
        Some(Direction::Forward)
    } else if hli == right && stored == left {
        Some(Direction::Reverse)
    } else {
        None
    }
}

/// The direction in which `map` serves an occurrence stored at `stored` to
/// an HLI built against `hli`, if it joins the two.
pub fn direction_to_stored(map: &ConversionMap, stored: &DdVersion, hli: &DdVersion) -> (r: Option<
    Direction,
>)
    ensures
        r == direction_to_stored_spec(
            map.left.dd.0@,
            map.right.dd.0@,
            version_text(stored@),
            version_text(hli@),
        ),
{
    let stored_text = stored.text();
    let hli_text = hli.text();
    let left = map.left.dd.as_str();
    let right = map.right.dd.as_str();
    if str_eq(hli_text.as_str(), left) && str_eq(stored_text.as_str(), right) {
        Some(Direction::Forward)
    } else if str_eq(hli_text.as_str(), right) && str_eq(stored_text.as_str(), left) {
        Some(Direction::Reverse)
    } else {
        None
    }
}

/// A map serves an occurrence from the HLI's side to the stored side: the
/// chosen direction's source side is the DD version the HLI was built
/// against and its target side the version the occurrence was stored
/// under. Forward means the HLI speaks the left DD and the data is stored
/// under the right one; reverse means the other way round; a map that
/// joins the two versions in the forward orientation is always served
/// forward, and one joining them only in the reverse orientation reverse.
pub proof fn law_direction_runs_from_hli_to_stored(map: ConversionMap, stored: DdVersionView, hli: DdVersionView)
    ensures
        ({
            let left = map.left.dd.0@;
            let right = map.right.dd.0@;
            let s = version_text(stored);
            let h = version_text(hli);
            let d = direction_to_stored_spec(left, right, s, h);
            &&& d == Some(Direction::Forward) ==> h == left && s == right
            &&& d == Some(Direction::Reverse) ==> h == right && s == left
            &&& d is None ==> !(h == left && s == right) && !(h == right && s == left)
            &&& (h == left && s == right) ==> d == Some(Direction::Forward)
            &&& (h == right && s == left && !(h == left && s == right)) ==> d == Some(
                Direction::Reverse,
            )
        }),
{
}

// ---------------------------------------------------------------------------
// Stored-version discovery on the way out
// ---------------------------------------------------------------------------

/// What a successful occurrence open learned from its stamp.
pub enum Discovery {
    /// A malformed stamp: end the just-opened context and answer with this
    /// refusal.
    Refuse(al_status_t),
    /// No usable mismatch: the occurrence is presumed to match and nothing
    /// is registered.
    Presumed,
    /// A valid stamp naming a stored version other than the HLI's; a root
    /// context is registered where a conversion map covers the pair.
    Mismatch(DdVersion),
}

/// The registry with the version remembered for an occurrence forgotten.
pub open spec fn forgotten<M>(v: RegistryView<M>, pulse_ctx_id: ContextId, dataobjectname: Seq<char>) -> RegistryView<
    M,
> {
    if v.entries.contains_key(pulse_ctx_id) && v.entries[pulse_ctx_id] is DataEntry {
        RegistryView {
            entries: v.entries.insert(
                pulse_ctx_id,
                EntryView::DataEntry(v.entries[pulse_ctx_id]->DataEntry_0.remove(dataobjectname)),
            ),
            logs: v.logs,
        }
    } else {
        v
    }
}

/// The registry with an occurrence's stored version remembered.
pub open spec fn remembered<M>(
    v: RegistryView<M>,
    pulse_ctx_id: ContextId,
    dataobjectname: Seq<char>,
    stored: crate::dd_version::DdVersionView,
) -> RegistryView<M> {
    if v.entries.contains_key(pulse_ctx_id) && v.entries[pulse_ctx_id] is DataEntry {
        RegistryView {
            entries: v.entries.insert(
                pulse_ctx_id,
                EntryView::DataEntry(v.entries[pulse_ctx_id]->DataEntry_0.insert(dataobjectname, stored)),
            ),
            logs: v.logs,
        }
    } else {
        v
    }
}

/// Records what an occurrence's stamp says under pulse `pulse_ctx_id`: a
/// malformed or absent stamp, or one matching `hli`, forgets any earlier
/// mismatch, so no later open translates from stale state; a mismatch is
/// remembered.
pub fn record_discovery<M: Clone>(
    registry: &mut ContextRegistry<M>,
    pulse_ctx_id: ContextId,
    dataobjectname: &str,
    hli: &DdVersion,
    outcome: StampOutcome,
) -> (r: Discovery)
    ensures
        match outcome {
            StampOutcome::Malformed(refusal) => r matches Discovery::Refuse(s) && s == *refusal
                && final(registry)@ == forgotten(old(registry)@, pulse_ctx_id, dataobjectname@),
            StampOutcome::Unstamped => r is Presumed && final(registry)@ == forgotten(
                old(registry)@,
                pulse_ctx_id,
                dataobjectname@,
            ),
            StampOutcome::Stored(v) => if v@ == hli@ {
                r is Presumed && final(registry)@ == forgotten(old(registry)@, pulse_ctx_id, dataobjectname@)
            } else {
                r matches Discovery::Mismatch(w) && w@ == v@ && final(registry)@ == remembered(
                    old(registry)@,
                    pulse_ctx_id,
                    dataobjectname@,
                    v@,
                )
            },
        },
{
    match outcome {
        StampOutcome::Malformed(refusal) => {
            registry.forget_occurrence_version(pulse_ctx_id, dataobjectname);
            Discovery::Refuse(*refusal)
        },
        StampOutcome::Unstamped => {
            registry.forget_occurrence_version(pulse_ctx_id, dataobjectname);
            Discovery::Presumed
        },
        StampOutcome::Stored(stored) => {
            if stored.same_as(hli) {
                registry.forget_occurrence_version(pulse_ctx_id, dataobjectname);
                Discovery::Presumed
            } else {
                let remembered_version = stored.duplicate();
                let name = owned(dataobjectname);
                registry.remember_mismatched_occurrence(pulse_ctx_id, name, remembered_version);
                Discovery::Mismatch(stored)
            }
        },
    }
}

// ---------------------------------------------------------------------------
// Arraystruct opens
// ---------------------------------------------------------------------------

/// Why an arraystruct open refuses before IMAS-Core opens anything, and
/// the path the refusal names.
pub struct ArgumentRefusal {
    pub reason: String,
    pub dd_path: String,
}

/// The spelling one arraystruct argument is forwarded under (`None`: as
/// received), or the refusal it earns.
pub open spec fn arraystruct_argument_spec(
    map: ConversionMap,
    anchor: Seq<char>,
    direction: Direction,
    raw: Option<Seq<char>>,
    label: Seq<char>,
) -> Result<Option<Seq<char>>, (Seq<char>, Seq<char>)> {
    let (kind, text) = context_path_spec(map, anchor, direction, raw);
    let named = refusal_path_spec(anchor, raw);
    if kind == 0 {
        Ok(None)
    } else if kind == 2 {
        Ok(Some(text))
    } else if kind == 4 {
        Err((text, named))
    } else if kind == 3 {
        Err(("arraystruct "@ + label + " has no stored source"@, named))
    } else {
        Err(("arraystruct "@ + label + " is unclaimed by the conversion map"@, named))
    }
}

pub open spec fn opt_owned(s: Option<String>) -> Option<Seq<char>> {
    match s {
        Some(p) => Some(p@),
        None => None,
    }
}

/// What an arraystruct open forwards, and the anchor the context it opens
/// resolves relative arguments against.
pub struct ArraystructOpen {
    /// The path to forward (`None`: as received).
    pub path: Option<String>,
    /// The timebase to forward (`None`: as received).
    pub timebase: Option<String>,
    /// The opened context's anchor: the path argument, in the HLI's
    /// spelling, joined onto the parent's anchor.
    pub child_anchor: String,
}

/// Translates both arguments of an arraystruct open under a converting
/// context anchored at `anchor`: the path first, then the timebase. A
/// refusal names the refused argument joined onto the anchor.
pub fn arraystruct_open_arguments(
    map: &ConversionMap,
    anchor: &str,
    direction: Direction,
    path: Option<&str>,
    timebase: Option<&str>,
) -> (r: Result<ArraystructOpen, ArgumentRefusal>)
    requires
        map.wf(),
    ensures
        match arraystruct_argument_spec(*map, anchor@, direction, opt_str(path), "path"@) {
            Err((m, p)) => r matches Err(e) && e.reason@ == m && e.dd_path@ == p,
            Ok(pt) => match arraystruct_argument_spec(
                *map,
                anchor@,
                direction,
                opt_str(timebase),
                "timebase"@,
            ) {
                Err((m, p)) => r matches Err(e) && e.reason@ == m && e.dd_path@ == p,
                Ok(tt) => r matches Ok(o) && opt_owned(o.path) == pt && opt_owned(o.timebase) == tt
                    && o.child_anchor@ == joined(
                    anchor@,
                    match path {
                        Some(p) => p@,
                        None => Seq::empty(),
                    },
                ),
            },
        },
{
    let translated_path = match resolve_arraystruct_argument(map, anchor, direction, path, "path") {
        Ok(p) => p,
        Err(reason) => {
            return Err(ArgumentRefusal { reason, dd_path: refusal_path(anchor, path) });
        },
    };
    let translated_timebase = match resolve_arraystruct_argument(
        map,
        anchor,
        direction,
        timebase,
        "timebase",
    ) {
        Ok(t) => t,
        Err(reason) => {
            return Err(ArgumentRefusal { reason, dd_path: refusal_path(anchor, timebase) });
        },
    };
    let child_anchor = match path {
        Some(p) => join_hli_path(anchor, p),
        None => {
            proof {
                reveal_strlit("");
            }
            join_hli_path(anchor, "")
        },
    };
    Ok(ArraystructOpen { path: translated_path, timebase: translated_timebase, child_anchor })
}

// ---------------------------------------------------------------------------
// Laws
// ---------------------------------------------------------------------------

/// Under a live pulse, the last discovery for an occurrence decides whether
/// a later open of it translates its `datapath`: after a mismatch is
/// remembered the mismatched version is known, and after a stamp that was
/// malformed, absent or matching nothing is.
pub proof fn law_last_discovery_decides_translation<M>(
    v: RegistryView<M>,
    pulse_ctx_id: ContextId,
    dataobjectname: Seq<char>,
    hli: crate::dd_version::DdVersionView,
    stored: crate::dd_version::DdVersionView,
)
    requires
        v.entries.contains_key(pulse_ctx_id),
        v.entries[pulse_ctx_id] is DataEntry,
    ensures
        known_mismatch_spec(forgotten(v, pulse_ctx_id, dataobjectname), pulse_ctx_id, dataobjectname, hli)
            is None,
        stored != hli ==> known_mismatch_spec(
            remembered(v, pulse_ctx_id, dataobjectname, stored),
            pulse_ctx_id,
            dataobjectname,
            hli,
        ) == Some(stored),
{
}

/// Discovery touches only the pulse's remembered versions: every other
/// context and every loss log is left as it was.
pub proof fn law_discovery_touches_only_its_pulse<M>(
    v: RegistryView<M>,
    pulse_ctx_id: ContextId,
    dataobjectname: Seq<char>,
    stored: crate::dd_version::DdVersionView,
    other: ContextId,
)
    requires
        other != pulse_ctx_id,
    ensures
        forgotten(v, pulse_ctx_id, dataobjectname).logs == v.logs,
        remembered(v, pulse_ctx_id, dataobjectname, stored).logs == v.logs,
        forgotten(v, pulse_ctx_id, dataobjectname).entries.contains_key(other) == v.entries.contains_key(
            other,
        ),
        remembered(v, pulse_ctx_id, dataobjectname, stored).entries.contains_key(other)
            == v.entries.contains_key(other),
        v.entries.contains_key(other) ==> forgotten(v, pulse_ctx_id, dataobjectname).entries[other]
            == v.entries[other] && remembered(v, pulse_ctx_id, dataobjectname, stored).entries[other]
            == v.entries[other],
{
}

} // verus!
