//! Deciding a converting write or delete.
//!
//! A write asserts a value, so unlike a read it goes to exactly one stored
//! spelling per argument: a candidate plan writes only its first candidate
//! and reports every other one as potentially lossy once the write
//! succeeded. A value transformation runs on a copy of the caller's data,
//! never on the caller's buffer; an unset rank-zero scalar stores no value,
//! so it is forwarded as it is and earns no loss. An argument the map cannot
//! serve refuses before IMAS-Core is called, and the refusal is retained as
//! an unmappable loss.
//!
//! A delete translates an identical, renamed or moved path to its stored
//! spelling. An absent path deletes the whole data object and is forwarded;
//! the DD-version stamp, a path with no stored source, a source that is not
//! a rule's primary one and every other kind of rule refuse.
use vstd::prelude::*;

use crate::conversion_map::{resolve_spec, ConversionMap, Direction, Fidelity, OutcomeView, Rel, TransformView};
use crate::read_path::{
    given, opt_str, read_path_spec, read_path_view, resolve_read_path, stored_spelling,
    stored_spelling_spec, ReadPath, ReadPathView,
};
use crate::read_plan::{
    element_count, element_count_spec, invalid_shape, opt_extents, transform_refusal,
};
use crate::read_path::DOUBLE_DATA_ID;
use crate::status::MAXDIM;
use crate::stored_path::{join_hli_path, joined, reason_text, refusal_reason_message, read_argument_path};
use crate::text::{chars_of, owned, str_eq};

verus! {

// ---------------------------------------------------------------------------
// Writes
// ---------------------------------------------------------------------------

pub open spec fn no_source_text() -> Seq<char> {
    "this path has no stored source"@
}

pub open spec fn missing_buffer() -> Seq<char> {
    "value-transform execution needs a data buffer"@
}

/// What a write does.
pub enum WriteStep {
    /// Write through IMAS-Core with these arguments (`None`: the caller's
    /// own). Where `flip` holds a count, send a copy of the caller's data
    /// with that many values negated, sparing the empty-value sentinel.
    /// Once the write succeeded, retain `losses_on_success`.
    Forward {
        field: Option<String>,
        timebase: Option<String>,
        flip: Option<usize>,
        losses_on_success: Vec<(String, Fidelity)>,
    },
    /// Refuse before IMAS-Core is called, naming the reason and the DD path,
    /// and retain `losses`.
    Refuse { reason: String, dd_path: String, losses: Vec<(String, Fidelity)> },
}

pub enum WriteStepView {
    Forward(Option<Seq<char>>, Option<Seq<char>>, Option<nat>, Seq<(Seq<char>, Fidelity)>),
    Refuse(Seq<char>, Seq<char>, Seq<(Seq<char>, Fidelity)>),
}

pub open spec fn opt_owned(s: Option<String>) -> Option<Seq<char>> {
    match s {
        Some(p) => Some(p@),
        None => None,
    }
}

pub open spec fn loss_views(v: Seq<(String, Fidelity)>) -> Seq<(Seq<char>, Fidelity)> {
    v.map_values(|e: (String, Fidelity)| (e.0@, e.1))
}

pub open spec fn write_step_view(s: WriteStep) -> WriteStepView {
    match s {
        WriteStep::Forward { field, timebase, flip, losses_on_success } => WriteStepView::Forward(
            opt_owned(field),
            opt_owned(timebase),
            match flip {
                Some(n) => Some(n as nat),
                None => None,
            },
            loss_views(losses_on_success@),
        ),
        WriteStep::Refuse { reason, dd_path, losses } => WriteStepView::Refuse(
            reason@,
            dd_path@,
            loss_views(losses@),
        ),
    }
}

/// Why a resolved argument cannot be written, and the DD path that names:
/// no stored source (or no rule at all), or a refusal of the map.
pub open spec fn write_refusal_of(p: ReadPathView, anchor: Seq<char>, raw: Option<Seq<char>>) -> Option<
    (Seq<char>, Seq<char>),
> {
    match p {
        ReadPathView::NoSource(_) => Some((no_source_text(), joined(anchor, raw->0))),
        ReadPathView::Refusal(m, dd_path, _) => Some((m, dd_path)),
        _ => None,
    }
}

/// The one stored spelling an argument is written under: its own spelling
/// when nothing was translated, else the first candidate.
pub open spec fn written_path(p: ReadPathView) -> Option<Seq<char>> {
    match p {
        ReadPathView::Translated(c) => Some(c.path),
        ReadPathView::Candidates(cs) => if cs.len() > 0 {
            Some(cs[0].path)
        } else {
            None
        },
        _ => None,
    }
}

/// The transformation the written spelling's values need.
pub open spec fn written_transform(p: ReadPathView) -> TransformView {
    match p {
        ReadPathView::Translated(c) => c.transform,
        ReadPathView::Candidates(cs) => if cs.len() > 0 {
            cs[0].transform
        } else {
            TransformView::Unchanged
        },
        _ => TransformView::Unchanged,
    }
}

/// The candidates a write leaves alone, each potentially lossy.
pub open spec fn unwritten(p: ReadPathView) -> Seq<(Seq<char>, Fidelity)> {
    match p {
        ReadPathView::Candidates(cs) => if cs.len() > 0 {
            cs.drop_first().map_values(|c: crate::read_path::ComponentView| (c.path, Fidelity::PotentiallyLossy))
        } else {
            Seq::empty()
        },
        _ => Seq::empty(),
    }
}

/// How many values of the caller's data a write negates, or why it cannot:
/// only double data of a rank no greater than `MAXDIM`, with its extents and
/// its buffer, can be flipped; an unset scalar is forwarded unflipped.
pub open spec fn write_flip_spec(
    transform: TransformView,
    datatype: i32,
    dim: i32,
    unset_scalar: bool,
    data_present: bool,
    extents: Option<Seq<i32>>,
) -> Result<Option<nat>, Seq<char>> {
    if transform is Unchanged || unset_scalar {
        Ok(None)
    } else if datatype != DOUBLE_DATA_ID {
        Err(transform_refusal())
    } else if dim < 0 || dim > MAXDIM {
        Err(invalid_shape())
    } else {
        match element_count_spec(dim, extents) {
            Err(m) => Err(m),
            Ok(n) => if !data_present {
                Err(missing_buffer())
            } else {
                Ok(Some(n))
            },
        }
    }
}

/// What a write of `field` over `timebase` under `anchor` does. The field
/// is judged before the timebase; a refusal is retained as an unmappable
/// loss under the path it names.
pub open spec fn write_spec(
    map: ConversionMap,
    anchor: Seq<char>,
    direction: Direction,
    field: Option<Seq<char>>,
    timebase: Option<Seq<char>>,
    datatype: i32,
    dim: i32,
    unset_scalar: bool,
    data_present: bool,
    extents: Option<Seq<i32>>,
) -> WriteStepView {
    let f = read_path_spec(map, anchor, direction, field);
    let t = read_path_spec(map, anchor, direction, timebase);
    match write_refusal_of(f, anchor, field) {
        Some((m, p)) => WriteStepView::Refuse(m, p, seq![(p, Fidelity::Unmappable)]),
        None => match write_refusal_of(t, anchor, timebase) {
            Some((m, p)) => WriteStepView::Refuse(m, p, seq![(p, Fidelity::Unmappable)]),
            None => {
                let field_path = if given(field) {
                    joined(anchor, field->0)
                } else {
                    anchor
                };
                match write_flip_spec(
                    written_transform(f),
                    datatype,
                    dim,
                    unset_scalar,
                    data_present,
                    extents,
                ) {
                    Err(m) => WriteStepView::Refuse(
                        m,
                        field_path,
                        seq![(field_path, Fidelity::Unmappable)],
                    ),
                    Ok(flip) => WriteStepView::Forward(
                        written_path(f),
                        written_path(t),
                        flip,
                        if unset_scalar {
                            Seq::empty()
                        } else {
                            unwritten(f) + unwritten(t)
                        },
                    ),
                }
            },
        },
    }
}

/// Why a resolved argument cannot be written.
fn write_refusal(path: &ReadPath, anchor: &str, raw: Option<&str>) -> (r: Option<(String, String)>)
    requires
        !(read_path_view(*path) is Forward) ==> given(opt_str(raw)),
    ensures
        match (r, write_refusal_of(read_path_view(*path), anchor@, opt_str(raw))) {
            (Some((m, p)), Some((n, q))) => m@ == n && p@ == q,
            (None, None) => true,
            _ => false,
        },
{
    match path {
        ReadPath::NoSource(_) => {
            let p = match raw {
                Some(p) => join_hli_path(anchor, p),
                None => owned(anchor),
            };
            Some((owned("this path has no stored source"), p))
        },
        ReadPath::Refusal { reason, dd_path, .. } => Some(
            (owned(reason.as_str()), owned(dd_path.as_str())),
        ),
        _ => None,
    }
}

/// The spelling, transformation and unwritten candidates of a resolved
/// argument.
fn written(path: ReadPath) -> (r: (Option<String>, bool, Vec<(String, Fidelity)>))
    ensures
        opt_owned(r.0) == written_path(read_path_view(path)),
        r.1 == (written_transform(read_path_view(path)) is Unchanged),
        loss_views(r.2@) == unwritten(read_path_view(path)),
{
    match path {
        ReadPath::Translated(c) => {
            let unchanged = match c.value_transformation {
                crate::conversion_map::ValueTransformation::Unchanged => true,
                _ => false,
            };
            let v: Vec<(String, Fidelity)> = Vec::new();
            assert(loss_views(v@) =~= Seq::<(Seq<char>, Fidelity)>::empty());
            (Some(c.path), unchanged, v)
        },
        ReadPath::Candidates(cs) => {
            let ghost views = read_path_view(ReadPath::Candidates(cs));
            if cs.len() == 0 {
                let v: Vec<(String, Fidelity)> = Vec::new();
                assert(loss_views(v@) =~= Seq::<(Seq<char>, Fidelity)>::empty());
                return (None, true, v);
            }
            let mut rest: Vec<(String, Fidelity)> = Vec::new();
            let mut i: usize = 1;
            while i < cs.len()
                invariant
                    1 <= i <= cs.len(),
                    loss_views(rest@) =~= cs@.subrange(1, i as int).map_values(
                        |c: crate::read_path::ReadComponent| (c.path@, Fidelity::PotentiallyLossy),
                    ),
                decreases cs.len() - i,
            {
                let ghost before = rest@;
                rest.push((owned(cs[i].path.as_str()), Fidelity::PotentiallyLossy));
                assert(loss_views(rest@) =~= loss_views(before).push(
                    (cs@[i as int].path@, Fidelity::PotentiallyLossy),
                ));
                i = i + 1;
            }
            let unchanged = match cs[0].value_transformation {
                crate::conversion_map::ValueTransformation::Unchanged => true,
                _ => false,
            };
            let first = owned(cs[0].path.as_str());
            assert(loss_views(rest@) =~= unwritten(views));
            (Some(first), unchanged, rest)
        },
        _ => {
            let v: Vec<(String, Fidelity)> = Vec::new();
            assert(loss_views(v@) =~= Seq::<(Seq<char>, Fidelity)>::empty());
            (None, true, v)
        },
    }
}

fn refuse_write(reason: String, dd_path: String) -> (r: WriteStep)
    ensures
        write_step_view(r) == WriteStepView::Refuse(
            reason@,
            dd_path@,
            seq![(dd_path@, Fidelity::Unmappable)],
        ),
{
    let mut losses: Vec<(String, Fidelity)> = Vec::new();
    losses.push((owned(dd_path.as_str()), Fidelity::Unmappable));
    assert(loss_views(losses@) =~= seq![(dd_path@, Fidelity::Unmappable)]);
    WriteStep::Refuse { reason, dd_path, losses }
}

/// Decides a converting write of `field` over `timebase` on a context
/// anchored at `anchor`. `unset_scalar` says the caller's data is an unset
/// rank-zero scalar, `data_present` that it passed a buffer, and `extents`
/// are the buffer's extents, one per rank, where it passed them.
pub fn plan_write(
    map: &ConversionMap,
    anchor: &str,
    direction: Direction,
    field: Option<&str>,
    timebase: Option<&str>,
    datatype: i32,
    dim: i32,
    unset_scalar: bool,
    data_present: bool,
    extents: Option<&[i32]>,
) -> (r: WriteStep)
    requires
        map.wf(),
    ensures
        write_step_view(r) == write_spec(
            *map,
            anchor@,
            direction,
            opt_str(field),
            opt_str(timebase),
            datatype,
            dim,
            unset_scalar,
            data_present,
            opt_extents(extents),
        ),
{
    let field_path = resolve_read_path(map, anchor, direction, field);
    if let Some((reason, dd_path)) = write_refusal(&field_path, anchor, field) {
        return refuse_write(reason, dd_path);
    }
    let timebase_path = resolve_read_path(map, anchor, direction, timebase);
    if let Some((reason, dd_path)) = write_refusal(&timebase_path, anchor, timebase) {
        return refuse_write(reason, dd_path);
    }
    let field_dd_path = read_argument_path(anchor, field);
    let (field_spelling, unchanged, field_unwritten) = written(field_path);
    let (timebase_spelling, _, timebase_unwritten) = written(timebase_path);
    let flip: Option<usize> = if unchanged || unset_scalar {
        None
    } else if datatype != DOUBLE_DATA_ID {
        return refuse_write(
            owned("value-transform execution requires DOUBLE_DATA and a rank no greater than MAXDIM"),
            field_dd_path,
        );
    } else if dim < 0 || (dim as usize) > MAXDIM {
        return refuse_write(
            owned("value-transform execution received an invalid array shape"),
            field_dd_path,
        );
    } else {
        match element_count(dim, extents) {
            Err(m) => {
                return refuse_write(owned(m), field_dd_path);
            },
            Ok(n) => {
                if !data_present {
                    return refuse_write(
                        owned("value-transform execution needs a data buffer"),
                        field_dd_path,
                    );
                }
                Some(n)
            },
        }
    };
    let mut losses_on_success: Vec<(String, Fidelity)> = Vec::new();
    if !unset_scalar {
        losses_on_success = field_unwritten;
        let mut timebase_unwritten = timebase_unwritten;
        let ghost a = loss_views(losses_on_success@);
        let ghost b = loss_views(timebase_unwritten@);
        losses_on_success.append(&mut timebase_unwritten);
        assert(loss_views(losses_on_success@) =~= a + b);
    } else {
        assert(loss_views(losses_on_success@) =~= Seq::<(Seq<char>, Fidelity)>::empty());
    }
    WriteStep::Forward { field: field_spelling, timebase: timebase_spelling, flip, losses_on_success }
}

// ---------------------------------------------------------------------------
// Deletes
// ---------------------------------------------------------------------------

/// The path every occurrence's stored DD version is read from.
pub open spec fn stamp_path() -> Seq<char> {
    "ids_properties/version_put/data_dictionary"@
}

pub open spec fn stamp_delete_text() -> Seq<char> {
    "the DD-version stamp cannot be deleted on a converting context"@
}

pub open spec fn unclaimed_delete_text() -> Seq<char> {
    "no conversion rule claims this path"@
}

pub open spec fn non_primary_text() -> Seq<char> {
    "only a rule's primary source can be deleted"@
}

pub open spec fn unsafe_delete_text() -> Seq<char> {
    "only an identical, renamed or moved path can be deleted across DD versions"@
}

/// What a delete does.
pub enum DeleteStep {
    /// Delete through IMAS-Core under this path (`None`: the caller's own).
    Forward { path: Option<String> },
    /// Refuse before IMAS-Core is called, naming the reason and the DD path,
    /// and retain `losses`.
    Refuse { reason: String, dd_path: String, losses: Vec<(String, Fidelity)> },
}

pub enum DeleteStepView {
    Forward(Option<Seq<char>>),
    Refuse(Seq<char>, Seq<char>, Seq<(Seq<char>, Fidelity)>),
}

pub open spec fn delete_step_view(s: DeleteStep) -> DeleteStepView {
    match s {
        DeleteStep::Forward { path } => DeleteStepView::Forward(opt_owned(path)),
        DeleteStep::Refuse { reason, dd_path, losses } => DeleteStepView::Refuse(
            reason@,
            dd_path@,
            loss_views(losses@),
        ),
    }
}

/// Whether a rule of relation `rel` (none for the identity default) lets a
/// path be deleted under its stored spelling.
pub open spec fn deletable_rel(rel: Option<Rel>) -> bool {
    rel is None || rel == Some(Rel::Renamed) || rel == Some(Rel::Moved)
}

/// Why a delete of the path `hli` refuses, if it does, else the stored
/// spelling it is forwarded under.
pub open spec fn delete_decision(
    map: ConversionMap,
    anchor: Seq<char>,
    direction: Direction,
    hli: Seq<char>,
    is_absolute: bool,
) -> Result<Seq<char>, Seq<char>> {
    if hli == stamp_path() {
        Err(stamp_delete_text())
    } else {
        match resolve_spec(map, hli, direction) {
            None => Err(unclaimed_delete_text()),
            Some(e) => match e.outcome {
                OutcomeView::Refusal(reason) => Err(reason_text(reason)),
                OutcomeView::NoSource => Err(no_source_text()),
                OutcomeView::Path(resolved, _, candidates) => if (e.rel == Some(Rel::Merged) || e.rel
                    == Some(Rel::Split)) && e.precedence is Some && e.precedence != Some(1u32) {
                    Err(non_primary_text())
                } else if !deletable_rel(e.rel) || candidates.len() > 0 {
                    Err(unsafe_delete_text())
                } else {
                    stored_spelling_spec(map, anchor, direction, resolved, is_absolute)
                },
            },
        }
    }
}

/// What a delete of `path` under `anchor` does: an absent path deletes the
/// whole data object and is forwarded as received.
pub open spec fn delete_spec(
    map: ConversionMap,
    anchor: Seq<char>,
    direction: Direction,
    path: Option<Seq<char>>,
) -> DeleteStepView {
    if !given(path) {
        DeleteStepView::Forward(None)
    } else {
        let p = path->0;
        let hli = joined(anchor, p);
        match delete_decision(map, anchor, direction, hli, p[0] == '/') {
            Ok(s) => DeleteStepView::Forward(Some(s)),
            Err(m) => DeleteStepView::Refuse(m, hli, seq![(hli, Fidelity::Unmappable)]),
        }
    }
}

fn refuse_delete(reason: String, dd_path: String) -> (r: DeleteStep)
    ensures
        delete_step_view(r) == DeleteStepView::Refuse(
            reason@,
            dd_path@,
            seq![(dd_path@, Fidelity::Unmappable)],
        ),
{
    let mut losses: Vec<(String, Fidelity)> = Vec::new();
    losses.push((owned(dd_path.as_str()), Fidelity::Unmappable));
    assert(loss_views(losses@) =~= seq![(dd_path@, Fidelity::Unmappable)]);
    DeleteStep::Refuse { reason, dd_path, losses }
}

/// Decides a converting delete of `path` on a context anchored at `anchor`.
pub fn plan_delete(map: &ConversionMap, anchor: &str, direction: Direction, path: Option<&str>) -> (r:
    DeleteStep)
    requires
        map.wf(),
    ensures
        delete_step_view(r) == delete_spec(*map, anchor@, direction, opt_str(path)),
{
    let raw = match path {
        Some(p) => p,
        None => return DeleteStep::Forward { path: None },
    };
    if raw.is_empty() {
        return DeleteStep::Forward { path: None };
    }
    let chars = chars_of(raw);
    let is_absolute = chars[0] == '/';
    let hli = join_hli_path(anchor, raw);
    if str_eq(hli.as_str(), "ids_properties/version_put/data_dictionary") {
        return refuse_delete(owned("the DD-version stamp cannot be deleted on a converting context"), hli);
    }
    let explanation = match map.resolve(hli.as_str(), direction) {
        None => return refuse_delete(owned("no conversion rule claims this path"), hli),
        Some(e) => e,
    };
    match explanation.outcome {
        crate::conversion_map::Outcome::Refusal(reason) => refuse_delete(refusal_reason_message(reason), hli),
        crate::conversion_map::Outcome::NoSource => refuse_delete(owned("this path has no stored source"), hli),
        crate::conversion_map::Outcome::Path { resolved_path, candidates, .. } => {
            let split_or_merged = match explanation.rel {
                Some(Rel::Merged) => true,
                Some(Rel::Split) => true,
                _ => false,
            };
            let non_primary = match explanation.precedence {
                Some(q) => q != 1,
                None => false,
            };
            let deletable = match explanation.rel {
                None => true,
                Some(Rel::Renamed) => true,
                Some(Rel::Moved) => true,
                _ => false,
            };
            if split_or_merged && non_primary {
                refuse_delete(owned("only a rule's primary source can be deleted"), hli)
            } else if !deletable || candidates.len() > 0 {
                refuse_delete(
                    owned("only an identical, renamed or moved path can be deleted across DD versions"),
                    hli,
                )
            } else {
                match stored_spelling(map, anchor, direction, resolved_path.as_str(), is_absolute) {
                    Ok(s) => DeleteStep::Forward { path: Some(s) },
                    Err(m) => refuse_delete(m, hli),
                }
            }
        },
    }
}

// ---------------------------------------------------------------------------
// Laws
// ---------------------------------------------------------------------------

/// A write never reports a certain loss: a refusal is unmappable and a
/// skipped candidate only potentially lossy, whatever fidelity the map
/// declares for reads.
pub proof fn law_writes_report_no_certain_loss(
    map: ConversionMap,
    anchor: Seq<char>,
    direction: Direction,
    field: Option<Seq<char>>,
    timebase: Option<Seq<char>>,
    datatype: i32,
    dim: i32,
    unset_scalar: bool,
    data_present: bool,
    extents: Option<Seq<i32>>,
)
    ensures
        match write_spec(
            map,
            anchor,
            direction,
            field,
            timebase,
            datatype,
            dim,
            unset_scalar,
            data_present,
            extents,
        ) {
            WriteStepView::Forward(_, _, _, losses) => forall|i: int|
                0 <= i < losses.len() ==> #[trigger] losses[i].1 == Fidelity::PotentiallyLossy,
            WriteStepView::Refuse(_, p, losses) => losses == seq![(p, Fidelity::Unmappable)],
        },
{
}

/// A write over a candidate plan goes to its first candidate only, and
/// reports every other candidate, in plan order, once it succeeded.
pub proof fn law_candidate_write_reaches_only_the_first_candidate(
    map: ConversionMap,
    anchor: Seq<char>,
    direction: Direction,
    field: Option<Seq<char>>,
    datatype: i32,
    dim: i32,
    data_present: bool,
    extents: Option<Seq<i32>>,
)
    requires
        read_path_spec(map, anchor, direction, field) is Candidates,
    ensures
        ({
            let cs = read_path_spec(map, anchor, direction, field)->Candidates_0;
            match write_spec(
                map,
                anchor,
                direction,
                field,
                None,
                datatype,
                dim,
                false,
                data_present,
                extents,
            ) {
                WriteStepView::Forward(f, _, _, losses) => cs.len() > 0 ==> f == Some(cs[0].path)
                    && losses.len() == cs.len() - 1 && forall|i: int|
                    0 <= i < losses.len() ==> #[trigger] losses[i].0 == cs[i + 1].path,
                WriteStepView::Refuse(_, _, _) => true,
            }
        }),
{
    let t = read_path_spec(map, anchor, direction, None);
    assert(t == ReadPathView::Forward);
    assert(unwritten(t) =~= Seq::<(Seq<char>, Fidelity)>::empty());
    let f = read_path_spec(map, anchor, direction, field);
    assert(unwritten(f) + unwritten(t) =~= unwritten(f));
}

/// A delete never removes the stamp an occurrence's stored DD version is
/// read from.
pub proof fn law_deletes_spare_the_stamp(
    map: ConversionMap,
    anchor: Seq<char>,
    direction: Direction,
    path: Option<Seq<char>>,
)
    ensures
        given(path) && joined(anchor, path->0) == stamp_path() ==> delete_spec(map, anchor, direction, path)
            is Refuse,
{
}

/// A delete of a path that resolves through the identity default, or
/// through a renamed or moved rule, to a path on the stored side is
/// forwarded under that path's stored spelling whenever it has one: such a
/// path is deleted, not refused. The DD-version stamp alone is never
/// deleted.
pub proof fn law_renamed_and_moved_paths_delete_under_their_stored_spelling(
    map: ConversionMap,
    anchor: Seq<char>,
    direction: Direction,
    p: Seq<char>,
)
    requires
        map.wf(),
        p.len() > 0,
    ensures
        ({
            let hli = joined(anchor, p);
            hli != stamp_path() ==> (resolve_spec(map, hli, direction) matches Some(e) ==> ((e.rel
                is None || e.rel == Some(Rel::Renamed) || e.rel == Some(Rel::Moved)) ==> (
            e.outcome matches OutcomeView::Path(resolved, _, _) ==> (stored_spelling_spec(
                map,
                anchor,
                direction,
                resolved,
                p[0] == '/',
            ) matches Ok(stored) ==> delete_spec(map, anchor, direction, Some(p))
                == DeleteStepView::Forward(Some(stored))))))
        }),
{
    let hli = joined(anchor, p);
    let sources = crate::conversion_map::sources_for(map, direction);
    if let Some((stage, i)) = crate::conversion_map::best_match_spec(sources, hli) {
        let e = sources[i];
        let rule = map.rules@[e.rule_index as int];
        let m = crate::selector::try_match_spec(e.selector, hli)->0;
        let x = crate::conversion_map::explicit_resolution(map, rule, stage, e.precedence, m, hli, direction);
        assert(x.rel == Some(rule.rel));
    }
}

} // verus!
