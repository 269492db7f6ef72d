//! Deciding a converting data read, one IMAS-Core call at a time.
//!
//! A data read resolves its field and its timebase, then tries every field
//! spelling against every timebase spelling, field first, until one call
//! fails or returns data. The caller performs each call and reports its
//! outcome; the plan answers with the next call or with how the read ends:
//! which verdict each argument earned, and whether the caller's status is
//! returned, the read refused, or not found answered.
use vstd::prelude::*;

use crate::context_registry::{with_loss, ContextId, ContextRegistry, RegistryView};
use crate::conversion_map::{resolve_spec, ConversionMap, Direction, Fidelity, TransformView, ValueTransformation};
use crate::loss::LossOperation;
use crate::read_outcome::ReadOutcome;
use crate::read_path::{
    given, opt_str, read_path_spec, read_path_view, resolve_read_path, ComponentView, ReadPath,
    ReadPathView, component_views, DOUBLE_DATA_ID,
};
use crate::status::MAXDIM;
use crate::stored_path::{join_hli_path, joined, read_argument_path};
use crate::text::owned;

verus! {

// ---------------------------------------------------------------------------
// Value transformations on a returned buffer
// ---------------------------------------------------------------------------

pub open spec fn transform_refusal() -> Seq<char> {
    "value-transform execution requires DOUBLE_DATA and a rank no greater than MAXDIM"@
}

pub open spec fn missing_dimensions() -> Seq<char> {
    "value-transform execution needs array dimensions"@
}

pub open spec fn invalid_shape() -> Seq<char> {
    "value-transform execution received an invalid array shape"@
}

/// Whether a read of `datatype` and rank `dim` can carry out `t`: a sign
/// flip needs double data of a rank no greater than `MAXDIM`.
pub open spec fn transform_allowed(t: TransformView, datatype: i32, dim: i32) -> bool {
    t is Unchanged || (datatype == DOUBLE_DATA_ID && 0 <= dim <= MAXDIM)
}

/// Checks that a read can carry out `transformation` before IMAS-Core is
/// called.
pub fn validate_value_transformation(transformation: &ValueTransformation, datatype: i32, dim: i32) -> (r:
    Result<(), &'static str>)
    ensures
        r is Ok <==> transform_allowed(transformation@, datatype, dim),
        r matches Err(m) ==> m@ == transform_refusal(),
{
    match transformation {
        ValueTransformation::Unchanged => Ok(()),
        ValueTransformation::SignFlip { .. } => {
            if datatype == DOUBLE_DATA_ID && dim >= 0 && (dim as usize) <= MAXDIM {
                Ok(())
            } else {
                Err("value-transform execution requires DOUBLE_DATA and a rank no greater than MAXDIM")
            }
        },
    }
}

/// The product of the first `n` extents, or `None` once an extent is
/// negative or a partial product leaves `usize`.
pub open spec fn shape_product(extents: Seq<i32>, n: nat) -> Option<nat>
    decreases n,
{
    if n == 0 {
        Some(1)
    } else {
        match shape_product(extents, (n - 1) as nat) {
            None => None,
            Some(c) => if extents[n - 1] < 0 || c * extents[n - 1] > usize::MAX {
                None
            } else {
                Some((c * extents[n - 1]) as nat)
            },
        }
    }
}

/// How many values a returned buffer of rank `dim` holds: one for a
/// scalar, else the product of the returned extents.
pub open spec fn element_count_spec(dim: i32, extents: Option<Seq<i32>>) -> Result<nat, Seq<char>> {
    if dim == 0 {
        Ok(1)
    } else {
        match extents {
            None => Err(missing_dimensions()),
            Some(e) => match shape_product(e, e.len()) {
                Some(n) => Ok(n),
                None => Err(invalid_shape()),
            },
        }
    }
}

proof fn lemma_shape_overflow_persists(extents: Seq<i32>, k: nat, n: nat)
    requires
        k <= n,
        shape_product(extents, k) is None,
    ensures
        shape_product(extents, n) is None,
    decreases n,
{
    if n > k {
        lemma_shape_overflow_persists(extents, k, (n - 1) as nat);
    }
}

/// Counts the values a returned buffer holds from its extents, one per
/// rank.
pub fn element_count(dim: i32, extents: Option<&[i32]>) -> (r: Result<usize, &'static str>)
    ensures
        match element_count_spec(dim, opt_extents(extents)) {
            Ok(n) => r matches Ok(c) && c == n,
            Err(m) => r matches Err(e) && e@ == m,
        },
{
    if dim == 0 {
        return Ok(1);
    }
    let given = match extents {
        Some(e) => e,
        None => return Err("value-transform execution needs array dimensions"),
    };
    let mut count: usize = 1;
    let mut i: usize = 0;
    while i < given.len()
        invariant
            dim != 0,
            extents == Some(given),
            i <= given.len(),
            shape_product(given@, i as nat) == Some(count as nat),
        decreases given.len() - i,
    {
        let extent = given[i];
        if extent < 0 {
            proof {
                lemma_shape_overflow_persists(given@, (i + 1) as nat, given.len() as nat);
            }
            return Err("value-transform execution received an invalid array shape");
        }
        match count.checked_mul(extent as usize) {
            Some(c) => {
                count = c;
            },
            None => {
                proof {
                    lemma_shape_overflow_persists(given@, (i + 1) as nat, given.len() as nat);
                }
                return Err("value-transform execution received an invalid array shape");
            },
        }
        i += 1;
    }
    Ok(count)
}

pub open spec fn opt_extents(extents: Option<&[i32]>) -> Option<Seq<i32>> {
    match extents {
        Some(e) => Some(e@),
        None => None,
    }
}

// ---------------------------------------------------------------------------
// The plan
// ---------------------------------------------------------------------------

/// One spelling a read tries: `None` forwards the caller's own argument.
pub struct Attempt {
    pub path: Option<String>,
    pub fidelity: Fidelity,
    pub value_transformation: ValueTransformation,
}

/// The value of an [`Attempt`].
pub struct AttemptView {
    pub path: Option<Seq<char>>,
    pub fidelity: Fidelity,
    pub transform: TransformView,
}

pub open spec fn opt_string(s: Option<String>) -> Option<Seq<char>> {
    match s {
        Some(p) => Some(p@),
        None => None,
    }
}

impl View for Attempt {
    type V = AttemptView;

    open spec fn view(&self) -> AttemptView {
        AttemptView {
            path: opt_string(self.path),
            fidelity: self.fidelity,
            transform: self.value_transformation@,
        }
    }
}

pub open spec fn attempt_views(v: Seq<Attempt>) -> Seq<AttemptView> {
    v.map_values(|a: Attempt| a@)
}

pub open spec fn component_attempt(c: ComponentView) -> AttemptView {
    AttemptView { path: Some(c.path), fidelity: c.fidelity, transform: c.transform }
}

/// The spellings a resolved argument offers, in order: its own spelling,
/// exact, when nothing was translated.
pub open spec fn attempts_spec(p: ReadPathView) -> Seq<AttemptView> {
    match p {
        ReadPathView::Translated(c) => seq![component_attempt(c)],
        ReadPathView::Candidates(cs) => cs.map_values(|c: ComponentView| component_attempt(c)),
        _ => seq![AttemptView { path: None, fidelity: Fidelity::Exact, transform: TransformView::Unchanged }],
    }
}

/// The verdict an argument earns when no spelling found data: that of its
/// first translated spelling, exact when nothing was translated.
pub open spec fn fallback_spec(p: ReadPathView) -> Fidelity {
    match p {
        ReadPathView::Translated(c) => c.fidelity,
        ReadPathView::Candidates(cs) => if cs.len() > 0 {
            cs[0].fidelity
        } else {
            Fidelity::Exact
        },
        _ => Fidelity::Exact,
    }
}

/// A read under way: the spellings of both arguments and the pair the last
/// call tried.
pub struct ReadPlan {
    field: Vec<Attempt>,
    timebase: Vec<Attempt>,
    field_index: usize,
    timebase_index: usize,
    field_fallback: Fidelity,
    timebase_fallback: Fidelity,
    field_dd_path: String,
    datatype: i32,
    dim: i32,
}

/// The value of a [`ReadPlan`].
pub struct PlanView {
    pub field: Seq<AttemptView>,
    pub timebase: Seq<AttemptView>,
    pub field_index: int,
    pub timebase_index: int,
    pub field_fallback: Fidelity,
    pub timebase_fallback: Fidelity,
    pub field_dd_path: Seq<char>,
    pub datatype: i32,
    pub dim: i32,
}

impl View for ReadPlan {
    type V = PlanView;

    closed spec fn view(&self) -> PlanView {
        PlanView {
            field: attempt_views(self.field@),
            timebase: attempt_views(self.timebase@),
            field_index: self.field_index as int,
            timebase_index: self.timebase_index as int,
            field_fallback: self.field_fallback,
            timebase_fallback: self.timebase_fallback,
            field_dd_path: self.field_dd_path@,
            datatype: self.datatype,
            dim: self.dim,
        }
    }
}

/// A plan names a pair of spellings that exists and whose field
/// transformation the read can carry out.
pub open spec fn plan_wf(v: PlanView) -> bool {
    &&& 0 <= v.field_index < v.field.len()
    &&& 0 <= v.timebase_index < v.timebase.len()
    &&& transform_allowed(v.field[v.field_index].transform, v.datatype, v.dim)
}

impl ReadPlan {
    #[verifier::type_invariant]
    closed spec fn inv(self) -> bool {
        plan_wf(self@)
    }
}

/// How a read ends for the caller.
pub enum ReadVerdict {
    /// Refuse, naming the reason and the DD path.
    Refuse { reason: String, dd_path: String },
    /// Return the status of the last IMAS-Core call; where `flip` holds a
    /// count, first negate that many values of the returned buffer, sparing
    /// the empty-value sentinel.
    ReturnStatus { flip: Option<usize> },
    /// Answer not found: success with no data.
    NoSource,
}

/// The end of a read: its verdict, and the verdict each argument earned
/// for the loss log (an exact one is never retained).
pub struct ReadFinish {
    pub verdict: ReadVerdict,
    pub field_fidelity: Fidelity,
    pub timebase_fidelity: Fidelity,
}

/// What the caller does next.
pub enum ReadStep {
    /// Read with these arguments (`None`: the caller's own argument) and
    /// report the outcome to `plan`.
    Call { plan: ReadPlan, field: Option<String>, timebase: Option<String> },
    Finish(ReadFinish),
}

pub enum VerdictView {
    Refuse(Seq<char>, Seq<char>),
    ReturnStatus(Option<nat>),
    NoSource,
}

pub struct FinishView {
    pub verdict: VerdictView,
    pub field_fidelity: Fidelity,
    pub timebase_fidelity: Fidelity,
}

pub enum StepView {
    Call(PlanView, Option<Seq<char>>, Option<Seq<char>>),
    Finish(FinishView),
}

pub open spec fn verdict_view(v: ReadVerdict) -> VerdictView {
    match v {
        ReadVerdict::Refuse { reason, dd_path } => VerdictView::Refuse(reason@, dd_path@),
        ReadVerdict::ReturnStatus { flip } => VerdictView::ReturnStatus(
            match flip {
                Some(n) => Some(n as nat),
                None => None,
            },
        ),
        ReadVerdict::NoSource => VerdictView::NoSource,
    }
}

pub open spec fn finish_view(f: ReadFinish) -> FinishView {
    FinishView {
        verdict: verdict_view(f.verdict),
        field_fidelity: f.field_fidelity,
        timebase_fidelity: f.timebase_fidelity,
    }
}

pub open spec fn step_view(s: ReadStep) -> StepView {
    match s {
        ReadStep::Call { plan, field, timebase } => StepView::Call(
            plan@,
            opt_string(field),
            opt_string(timebase),
        ),
        ReadStep::Finish(f) => StepView::Finish(finish_view(f)),
    }
}

/// What the read does at pair (`fi`, `ti`): end not found once every pair
/// was tried; refuse a field transformation the read cannot carry out;
/// otherwise call with that pair.
pub open spec fn step_at(v: PlanView, fi: int, ti: int) -> StepView {
    if fi >= v.field.len() || v.timebase.len() == 0 {
        StepView::Finish(
            FinishView {
                verdict: VerdictView::NoSource,
                field_fidelity: v.field_fallback,
                timebase_fidelity: v.timebase_fallback,
            },
        )
    } else if !transform_allowed(v.field[fi].transform, v.datatype, v.dim) {
        StepView::Finish(
            FinishView {
                verdict: VerdictView::Refuse(transform_refusal(), v.field_dd_path),
                field_fidelity: Fidelity::Unmappable,
                timebase_fidelity: v.timebase[ti].fidelity,
            },
        )
    } else {
        StepView::Call(
            PlanView { field_index: fi, timebase_index: ti, ..v },
            v.field[fi].path,
            v.timebase[ti].path,
        )
    }
}

/// The pair after the current one: the next timebase spelling, else the
/// next field spelling with the first timebase spelling.
pub open spec fn next_pair(v: PlanView) -> (int, int) {
    if v.timebase_index + 1 < v.timebase.len() {
        (v.field_index, v.timebase_index + 1)
    } else {
        (v.field_index + 1, 0)
    }
}

/// What the read does once the call for the current pair reported
/// `outcome`: a failure returns its status, data returns its status after
/// the field's transformation, not found moves to the next pair.
pub open spec fn on_result_spec(v: PlanView, outcome: ReadOutcome, extents: Option<Seq<i32>>) -> StepView {
    let f = v.field[v.field_index];
    let t = v.timebase[v.timebase_index];
    match outcome {
        ReadOutcome::Failure => StepView::Finish(
            FinishView {
                verdict: VerdictView::ReturnStatus(None),
                field_fidelity: f.fidelity,
                timebase_fidelity: t.fidelity,
            },
        ),
        ReadOutcome::Data => if f.transform is Unchanged {
            StepView::Finish(
                FinishView {
                    verdict: VerdictView::ReturnStatus(None),
                    field_fidelity: f.fidelity,
                    timebase_fidelity: t.fidelity,
                },
            )
        } else {
            match element_count_spec(v.dim, extents) {
                Ok(n) => StepView::Finish(
                    FinishView {
                        verdict: VerdictView::ReturnStatus(Some(n)),
                        field_fidelity: f.fidelity,
                        timebase_fidelity: t.fidelity,
                    },
                ),
                Err(m) => StepView::Finish(
                    FinishView {
                        verdict: VerdictView::Refuse(m, v.field_dd_path),
                        field_fidelity: Fidelity::Unmappable,
                        timebase_fidelity: t.fidelity,
                    },
                ),
            }
        },
        ReadOutcome::NotFound => {
            let (fi, ti) = next_pair(v);
            step_at(v, fi, ti)
        },
    }
}

/// How a read starts from its two resolved arguments: a refused or
/// sourceless argument ends it with that argument's verdict alone;
/// otherwise the first pair of spellings.
pub open spec fn plan_spec(
    field: ReadPathView,
    timebase: ReadPathView,
    field_dd_path: Seq<char>,
    datatype: i32,
    dim: i32,
) -> StepView {
    match field {
        ReadPathView::Refusal(reason, dd_path, f) => StepView::Finish(
            FinishView {
                verdict: VerdictView::Refuse(reason, dd_path),
                field_fidelity: f,
                timebase_fidelity: Fidelity::Exact,
            },
        ),
        ReadPathView::NoSource(f) => StepView::Finish(
            FinishView {
                verdict: VerdictView::NoSource,
                field_fidelity: f,
                timebase_fidelity: Fidelity::Exact,
            },
        ),
        _ => match timebase {
            ReadPathView::Refusal(reason, dd_path, f) => StepView::Finish(
                FinishView {
                    verdict: VerdictView::Refuse(reason, dd_path),
                    field_fidelity: Fidelity::Exact,
                    timebase_fidelity: f,
                },
            ),
            ReadPathView::NoSource(f) => StepView::Finish(
                FinishView {
                    verdict: VerdictView::NoSource,
                    field_fidelity: Fidelity::Exact,
                    timebase_fidelity: f,
                },
            ),
            _ => step_at(
                PlanView {
                    field: attempts_spec(field),
                    timebase: attempts_spec(timebase),
                    field_index: 0,
                    timebase_index: 0,
                    field_fallback: fallback_spec(field),
                    timebase_fallback: fallback_spec(timebase),
                    field_dd_path,
                    datatype,
                    dim,
                },
                0,
                0,
            ),
        },
    }
}

/// The path a read's refusals and losses name for an argument: the
/// argument joined onto the anchor, or the anchor itself.
pub open spec fn argument_path_spec(anchor: Seq<char>, raw: Option<Seq<char>>) -> Seq<char> {
    if given(raw) {
        joined(anchor, raw->0)
    } else {
        anchor
    }
}

/// How a read of `field` over `timebase` under `anchor` starts.
pub open spec fn begin_read_spec(
    map: ConversionMap,
    anchor: Seq<char>,
    direction: Direction,
    field: Option<Seq<char>>,
    timebase: Option<Seq<char>>,
    datatype: i32,
    dim: i32,
) -> StepView {
    plan_spec(
        read_path_spec(map, anchor, direction, field),
        read_path_spec(map, anchor, direction, timebase),
        argument_path_spec(anchor, field),
        datatype,
        dim,
    )
}

/// The spellings one resolved argument offers.
fn attempts_of(path: ReadPath) -> (r: Vec<Attempt>)
    ensures
        attempt_views(r@) == attempts_spec(read_path_view(path)),
{
    match path {
        ReadPath::Translated(c) => {
            let ghost cv = c@;
            let r = vec![
                Attempt {
                    path: Some(c.path),
                    fidelity: c.fidelity,
                    value_transformation: c.value_transformation,
                },
            ];
            assert(attempt_views(r@) =~= seq![component_attempt(cv)]);
            r
        },
        ReadPath::Candidates(cs) => {
            let ghost all = cs@;
            let n = cs.len();
            let mut cs = cs;
            // Take the components from the back, then restore their order.
            let mut reversed: Vec<Attempt> = Vec::new();
            while cs.len() > 0
                invariant
                    n == all.len(),
                    cs.len() <= n,
                    cs@ == all.subrange(0, cs.len() as int),
                    reversed.len() == n - cs.len(),
                    forall|k: int|
                        0 <= k < reversed.len() ==> #[trigger] reversed@[k]@ == component_attempt(
                            all[n - 1 - k]@,
                        ),
                decreases cs.len(),
            {
                let c = cs.pop().unwrap();
                assert(c == all[cs.len() as int]);
                reversed.push(
                    Attempt {
                        path: Some(c.path),
                        fidelity: c.fidelity,
                        value_transformation: c.value_transformation,
                    },
                );
            }
            let mut out: Vec<Attempt> = Vec::new();
            while reversed.len() > 0
                invariant
                    n == all.len(),
                    out.len() + reversed.len() == n,
                    forall|k: int|
                        0 <= k < reversed.len() ==> #[trigger] reversed@[k]@ == component_attempt(
                            all[n - 1 - k]@,
                        ),
                    forall|k: int| 0 <= k < out.len() ==> #[trigger] out@[k]@ == component_attempt(all[k]@),
                decreases reversed.len(),
            {
                let a = reversed.pop().unwrap();
                out.push(a);
            }
            assert(attempt_views(out@) =~= component_views(all).map_values(
                |c: ComponentView| component_attempt(c),
            ));
            out
        },
        _ => {
            let r = vec![
                Attempt {
                    path: None,
                    fidelity: Fidelity::Exact,
                    value_transformation: ValueTransformation::Unchanged,
                },
            ];
            assert(attempt_views(r@) =~= seq![
                AttemptView { path: None, fidelity: Fidelity::Exact, transform: TransformView::Unchanged },
            ]);
            r
        },
    }
}

/// The fallback verdict of one resolved argument.
fn fallback_of(path: &ReadPath) -> (r: Fidelity)
    ensures
        r == fallback_spec(read_path_view(*path)),
{
    match path {
        ReadPath::Translated(c) => c.fidelity,
        ReadPath::Candidates(cs) => if cs.len() > 0 {
            cs[0].fidelity
        } else {
            Fidelity::Exact
        },
        _ => Fidelity::Exact,
    }
}

impl ReadPlan {
    /// The step at pair (`fi`, `ti`) of a plan whose other parts are given.
    fn step(
        field: Vec<Attempt>,
        timebase: Vec<Attempt>,
        fi: usize,
        ti: usize,
        field_fallback: Fidelity,
        timebase_fallback: Fidelity,
        field_dd_path: String,
        datatype: i32,
        dim: i32,
    ) -> (r: ReadStep)
        requires
            fi >= field.len() || ti < timebase.len() || timebase.len() == 0,
        ensures
            step_view(r) == step_at(
                PlanView {
                    field: attempt_views(field@),
                    timebase: attempt_views(timebase@),
                    field_index: fi as int,
                    timebase_index: ti as int,
                    field_fallback,
                    timebase_fallback,
                    field_dd_path: field_dd_path@,
                    datatype,
                    dim,
                },
                fi as int,
                ti as int,
            ),
    {
        if fi >= field.len() || timebase.len() == 0 {
            return ReadStep::Finish(
                ReadFinish {
                    verdict: ReadVerdict::NoSource,
                    field_fidelity: field_fallback,
                    timebase_fidelity: timebase_fallback,
                },
            );
        }
        match validate_value_transformation(&field[fi].value_transformation, datatype, dim) {
            Err(reason) => {
                let m = owned(reason);
                ReadStep::Finish(
                    ReadFinish {
                        verdict: ReadVerdict::Refuse { reason: m, dd_path: field_dd_path },
                        field_fidelity: Fidelity::Unmappable,
                        timebase_fidelity: timebase[ti].fidelity,
                    },
                )
            },
            Ok(()) => {
                let field_path = copy_path(&field[fi].path);
                let timebase_path = copy_path(&timebase[ti].path);
                let plan = ReadPlan {
                    field,
                    timebase,
                    field_index: fi,
                    timebase_index: ti,
                    field_fallback,
                    timebase_fallback,
                    field_dd_path,
                    datatype,
                    dim,
                };
                ReadStep::Call { plan, field: field_path, timebase: timebase_path }
            },
        }
    }

    /// Decides what follows the call for the current pair, which reported
    /// `outcome` and, for data of rank above zero, the returned extents.
    pub fn on_result(self, outcome: ReadOutcome, extents: Option<&[i32]>) -> (r: ReadStep)
        ensures
            step_view(r) == on_result_spec(self@, outcome, opt_extents(extents)),
    {
        proof {
            use_type_invariant(&self);
        }
        let fi = self.field_index;
        let ti = self.timebase_index;
        let field_fidelity = self.field[fi].fidelity;
        let timebase_fidelity = self.timebase[ti].fidelity;
        match outcome {
            ReadOutcome::Failure => ReadStep::Finish(
                ReadFinish {
                    verdict: ReadVerdict::ReturnStatus { flip: None },
                    field_fidelity,
                    timebase_fidelity,
                },
            ),
            ReadOutcome::Data => {
                let unchanged = match &self.field[fi].value_transformation {
                    ValueTransformation::Unchanged => true,
                    ValueTransformation::SignFlip { .. } => false,
                };
                if unchanged {
                    return ReadStep::Finish(
                        ReadFinish {
                            verdict: ReadVerdict::ReturnStatus { flip: None },
                            field_fidelity,
                            timebase_fidelity,
                        },
                    );
                }
                match element_count(self.dim, extents) {
                    Ok(n) => ReadStep::Finish(
                        ReadFinish {
                            verdict: ReadVerdict::ReturnStatus { flip: Some(n) },
                            field_fidelity,
                            timebase_fidelity,
                        },
                    ),
                    Err(reason) => {
                        let m = owned(reason);
                        ReadStep::Finish(
                            ReadFinish {
                                verdict: ReadVerdict::Refuse { reason: m, dd_path: self.field_dd_path },
                                field_fidelity: Fidelity::Unmappable,
                                timebase_fidelity,
                            },
                        )
                    },
                }
            },
            ReadOutcome::NotFound => {
                assert(attempt_views(self.field@).len() == self.field@.len());
                assert(attempt_views(self.timebase@).len() == self.timebase@.len());
                let field_count = self.field.len();
                let timebase_count = self.timebase.len();
                assert(fi < field_count && ti < timebase_count);
                let (nfi, nti) = if ti + 1 < timebase_count {
                    (fi, ti + 1)
                } else {
                    (fi + 1, 0)
                };
                let ReadPlan {
                    field,
                    timebase,
                    field_index: _,
                    timebase_index: _,
                    field_fallback,
                    timebase_fallback,
                    field_dd_path,
                    datatype,
                    dim,
                } = self;
                ReadPlan::step(
                    field,
                    timebase,
                    nfi,
                    nti,
                    field_fallback,
                    timebase_fallback,
                    field_dd_path,
                    datatype,
                    dim,
                )
            },
        }
    }
}

fn copy_path(p: &Option<String>) -> (r: Option<String>)
    ensures
        opt_string(r) == opt_string(*p),
{
    match p {
        Some(s) => Some(owned(s.as_str())),
        None => None,
    }
}

/// Starts a read from its two resolved arguments; `field_dd_path` is the
/// path a refusal of the field's transformation names.
pub fn plan_read(
    field: ReadPath,
    timebase: ReadPath,
    field_dd_path: String,
    datatype: i32,
    dim: i32,
) -> (r: ReadStep)
    ensures
        step_view(r) == plan_spec(
            read_path_view(field),
            read_path_view(timebase),
            field_dd_path@,
            datatype,
            dim,
        ),
{
    match field {
        ReadPath::Refusal { reason, dd_path, fidelity } => {
            return ReadStep::Finish(
                ReadFinish {
                    verdict: ReadVerdict::Refuse { reason, dd_path },
                    field_fidelity: fidelity,
                    timebase_fidelity: Fidelity::Exact,
                },
            );
        },
        ReadPath::NoSource(fidelity) => {
            return ReadStep::Finish(
                ReadFinish {
                    verdict: ReadVerdict::NoSource,
                    field_fidelity: fidelity,
                    timebase_fidelity: Fidelity::Exact,
                },
            );
        },
        _ => {},
    }
    match timebase {
        ReadPath::Refusal { reason, dd_path, fidelity } => {
            return ReadStep::Finish(
                ReadFinish {
                    verdict: ReadVerdict::Refuse { reason, dd_path },
                    field_fidelity: Fidelity::Exact,
                    timebase_fidelity: fidelity,
                },
            );
        },
        ReadPath::NoSource(fidelity) => {
            return ReadStep::Finish(
                ReadFinish {
                    verdict: ReadVerdict::NoSource,
                    field_fidelity: Fidelity::Exact,
                    timebase_fidelity: fidelity,
                },
            );
        },
        _ => {},
    }
    let field_fallback = fallback_of(&field);
    let timebase_fallback = fallback_of(&timebase);
    let field_attempts = attempts_of(field);
    let timebase_attempts = attempts_of(timebase);
    ReadPlan::step(
        field_attempts,
        timebase_attempts,
        0,
        0,
        field_fallback,
        timebase_fallback,
        field_dd_path,
        datatype,
        dim,
    )
}

/// Starts a converting read of `field` over `timebase` on a context
/// anchored at `anchor`.
pub fn begin_read(
    map: &ConversionMap,
    anchor: &str,
    direction: Direction,
    field: Option<&str>,
    timebase: Option<&str>,
    datatype: i32,
    dim: i32,
) -> (r: ReadStep)
    requires
        map.wf(),
    ensures
        step_view(r) == begin_read_spec(
            *map,
            anchor@,
            direction,
            opt_str(field),
            opt_str(timebase),
            datatype,
            dim,
        ),
{
    let field_path = resolve_read_path(map, anchor, direction, field);
    let timebase_path = resolve_read_path(map, anchor, direction, timebase);
    let field_dd_path = read_argument_path(anchor, field);
    plan_read(field_path, timebase_path, field_dd_path, datatype, dim)
}

// ---------------------------------------------------------------------------
// Retaining a read's verdicts
// ---------------------------------------------------------------------------

/// The registry after a read's verdicts are retained on root `root`'s log,
/// each under its argument joined onto the anchor; an absent argument
/// retains nothing.
pub open spec fn read_losses_spec<M>(
    v: RegistryView<M>,
    root: ContextId,
    anchor: Seq<char>,
    field: Option<Seq<char>>,
    timebase: Option<Seq<char>>,
    field_fidelity: Fidelity,
    timebase_fidelity: Fidelity,
) -> RegistryView<M> {
    let after_field = if given(field) {
        with_loss(v, root, joined(anchor, field->0), field_fidelity, LossOperation::Read)
    } else {
        v
    };
    if given(timebase) {
        with_loss(after_field, root, joined(anchor, timebase->0), timebase_fidelity, LossOperation::Read)
    } else {
        after_field
    }
}

/// The losses a finished read reports, in argument order: each given
/// argument whose verdict is not exact, under its path joined onto the
/// anchor.
pub open spec fn read_loss_entries_spec(
    anchor: Seq<char>,
    field: Option<Seq<char>>,
    timebase: Option<Seq<char>>,
    field_fidelity: Fidelity,
    timebase_fidelity: Fidelity,
) -> Seq<(Seq<char>, Fidelity)> {
    let f = if given(field) && field_fidelity != Fidelity::Exact {
        seq![(joined(anchor, field->0), field_fidelity)]
    } else {
        Seq::empty()
    };
    let t = if given(timebase) && timebase_fidelity != Fidelity::Exact {
        seq![(joined(anchor, timebase->0), timebase_fidelity)]
    } else {
        Seq::empty()
    };
    f + t
}

pub open spec fn loss_entry_views(v: Seq<(String, Fidelity)>) -> Seq<(Seq<char>, Fidelity)> {
    v.map_values(|e: (String, Fidelity)| (e.0@, e.1))
}

/// Lists the losses a finished read reports, for delivery beyond the
/// registry's own log.
pub fn read_loss_entries(
    anchor: &str,
    field: Option<&str>,
    timebase: Option<&str>,
    finish: &ReadFinish,
) -> (r: Vec<(String, Fidelity)>)
    ensures
        loss_entry_views(r@) == read_loss_entries_spec(
            anchor@,
            opt_str(field),
            opt_str(timebase),
            finish.field_fidelity,
            finish.timebase_fidelity,
        ),
{
    let mut r: Vec<(String, Fidelity)> = Vec::new();
    match field {
        Some(p) => {
            if !p.is_empty() && finish.field_fidelity != Fidelity::Exact {
                r.push((join_hli_path(anchor, p), finish.field_fidelity));
            }
        },
        None => {},
    }
    match timebase {
        Some(p) => {
            if !p.is_empty() && finish.timebase_fidelity != Fidelity::Exact {
                r.push((join_hli_path(anchor, p), finish.timebase_fidelity));
            }
        },
        None => {},
    }
    assert(loss_entry_views(r@) =~= read_loss_entries_spec(
        anchor@,
        opt_str(field),
        opt_str(timebase),
        finish.field_fidelity,
        finish.timebase_fidelity,
    ));
    r
}

/// Retains one argument's read verdict.
fn retain_read_fidelity<M: Clone>(
    registry: &mut ContextRegistry<M>,
    root_id: ContextId,
    anchor: &str,
    raw: Option<&str>,
    fidelity: Fidelity,
)
    ensures
        final(registry)@ == if given(opt_str(raw)) {
            with_loss(old(registry)@, root_id, joined(anchor@, opt_str(raw)->0), fidelity, LossOperation::Read)
        } else {
            old(registry)@
        },
{
    match raw {
        Some(p) => {
            if !p.is_empty() {
                let path = join_hli_path(anchor, p);
                registry.retain_loss_at_root(root_id, path, fidelity, LossOperation::Read);
            }
        },
        None => {},
    }
}

/// Retains both verdicts of a finished read on root `root_id`'s log.
pub fn retain_read_losses<M: Clone>(
    registry: &mut ContextRegistry<M>,
    root_id: ContextId,
    anchor: &str,
    field: Option<&str>,
    timebase: Option<&str>,
    finish: &ReadFinish,
)
    ensures
        final(registry)@ == read_losses_spec(
            old(registry)@,
            root_id,
            anchor@,
            opt_str(field),
            opt_str(timebase),
            finish.field_fidelity,
            finish.timebase_fidelity,
        ),
{
    retain_read_fidelity(registry, root_id, anchor, field, finish.field_fidelity);
    retain_read_fidelity(registry, root_id, anchor, timebase, finish.timebase_fidelity);
}

// ---------------------------------------------------------------------------
// Laws
// ---------------------------------------------------------------------------

/// A read argument that no rule and no default claims is never forwarded
/// under the HLI's spelling: it answers not found and retains an
/// unmappable verdict. An absent or empty argument, by contrast, is
/// forwarded as received.
pub proof fn law_unclaimed_read_answers_not_found(
    map: ConversionMap,
    anchor: Seq<char>,
    direction: Direction,
    field: Option<Seq<char>>,
    timebase: Option<Seq<char>>,
    datatype: i32,
    dim: i32,
)
    ensures
        given(field) && resolve_spec(map, joined(anchor, field->0), direction) is None
            ==> begin_read_spec(map, anchor, direction, field, timebase, datatype, dim)
            == StepView::Finish(
            FinishView {
                verdict: VerdictView::NoSource,
                field_fidelity: Fidelity::Unmappable,
                timebase_fidelity: Fidelity::Exact,
            },
        ),
        !given(field) ==> read_path_spec(map, anchor, direction, field) == ReadPathView::Forward,
{
}

/// A read whose arguments need no translation calls IMAS-Core once with
/// the caller's own arguments, returns whatever that call returned, and
/// retains nothing.
pub proof fn law_untranslated_read_forwards_once(
    map: ConversionMap,
    anchor: Seq<char>,
    direction: Direction,
    datatype: i32,
    dim: i32,
    outcome: ReadOutcome,
    extents: Option<Seq<i32>>,
)
    ensures
        begin_read_spec(map, anchor, direction, None, None, datatype, dim) matches StepView::Call(
            plan,
            None,
            None,
        ) && on_result_spec(plan, outcome, extents) == StepView::Finish(
            FinishView {
                verdict: if outcome is NotFound {
                    VerdictView::NoSource
                } else {
                    VerdictView::ReturnStatus(None)
                },
                field_fidelity: Fidelity::Exact,
                timebase_fidelity: Fidelity::Exact,
            },
        ),
{
    let begin = begin_read_spec(map, anchor, direction, None, None, datatype, dim);
    let plan = PlanView {
        field: attempts_spec(ReadPathView::Forward),
        timebase: attempts_spec(ReadPathView::Forward),
        field_index: 0,
        timebase_index: 0,
        field_fallback: Fidelity::Exact,
        timebase_fallback: Fidelity::Exact,
        field_dd_path: argument_path_spec(anchor, None),
        datatype,
        dim,
    };
    assert(begin == step_at(plan, 0, 0));
}

/// A read only ever asks for values to be negated in a buffer of double
/// data of a rank no greater than `MAXDIM`, and a scalar holds one value.
pub proof fn law_sign_flips_only_double_data(v: PlanView, outcome: ReadOutcome, extents: Option<Seq<i32>>)
    requires
        plan_wf(v),
    ensures
        match on_result_spec(v, outcome, extents) {
            StepView::Finish(FinishView { verdict: VerdictView::ReturnStatus(Some(n)), .. }) => v.datatype
                == DOUBLE_DATA_ID && 0 <= v.dim <= MAXDIM && (v.dim == 0 ==> n == 1),
            _ => true,
        },
{
}

/// Every call a read asks for names a pair of spellings that exists and
/// whose field transformation the read can carry out.
pub proof fn law_calls_are_servable(v: PlanView, fi: int, ti: int)
    requires
        0 <= fi,
        0 <= ti,
        fi < v.field.len() ==> ti < v.timebase.len() || v.timebase.len() == 0,
    ensures
        step_at(v, fi, ti) matches StepView::Call(p, f, t) ==> plan_wf(p) && f == v.field[fi].path && t
            == v.timebase[ti].path,
{
}

/// Once the last pair of spellings reports not found, the read answers not
/// found and retains each argument's fallback verdict.
pub proof fn law_exhausted_read_answers_not_found(v: PlanView, extents: Option<Seq<i32>>)
    requires
        plan_wf(v),
        v.field_index == v.field.len() - 1,
        v.timebase_index == v.timebase.len() - 1,
    ensures
        on_result_spec(v, ReadOutcome::NotFound, extents) == StepView::Finish(
            FinishView {
                verdict: VerdictView::NoSource,
                field_fidelity: v.field_fallback,
                timebase_fidelity: v.timebase_fallback,
            },
        ),
{
}

} // verus!
