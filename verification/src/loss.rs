//! Loss-log entries and the rule for retaining them.
//!
//! A [`LossLog`] holds, in call order, the non-exact operations one root
//! conversion context produced. An exact operation is never retained. The
//! log knows nothing of context ids; callers decide which root owns it.
use vstd::prelude::*;

use crate::conversion_map::Fidelity;
use crate::status::{
    IMAS_MVDD_FIDELITY_LOSSY, IMAS_MVDD_FIDELITY_POTENTIALLY_LOSSY, IMAS_MVDD_FIDELITY_UNMAPPABLE,
    IMAS_MVDD_LOSS_OPERATION_DELETE, IMAS_MVDD_LOSS_OPERATION_READ,
    IMAS_MVDD_LOSS_OPERATION_WRITE,
};

verus! {

/// Which seam operation earned a loss-log entry.
#[derive(Debug, Clone, Copy, PartialEq, Eq, Structural)]
pub enum LossOperation {
    Read,
    Write,
    Delete,
}

/// The code an operation is reported with across the ABI.
pub open spec fn operation_code(op: LossOperation) -> i32 {
    match op {
        LossOperation::Read => IMAS_MVDD_LOSS_OPERATION_READ,
        LossOperation::Write => IMAS_MVDD_LOSS_OPERATION_WRITE,
        LossOperation::Delete => IMAS_MVDD_LOSS_OPERATION_DELETE,
    }
}

/// The word an operation is written with in a loss report.
pub open spec fn operation_word(op: LossOperation) -> Seq<char> {
    match op {
        LossOperation::Read => "read"@,
        LossOperation::Write => "write"@,
        LossOperation::Delete => "delete"@,
    }
}

impl LossOperation {
    /// This operation's code across the ABI.
    pub fn c_code(self) -> (r: i32)
        ensures
            r == operation_code(self),
    {
        match self {
            LossOperation::Read => IMAS_MVDD_LOSS_OPERATION_READ,
            LossOperation::Write => IMAS_MVDD_LOSS_OPERATION_WRITE,
            LossOperation::Delete => IMAS_MVDD_LOSS_OPERATION_DELETE,
        }
    }

    /// This operation's word in a loss report.
    pub fn file_word(self) -> (r: &'static str)
        ensures
            r@ == operation_word(self),
    {
        match self {
            LossOperation::Read => "read",
            LossOperation::Write => "write",
            LossOperation::Delete => "delete",
        }
    }
}

/// The code a retained verdict is reported with across the ABI.
pub open spec fn fidelity_code(f: Fidelity) -> i32 {
    match f {
        Fidelity::PotentiallyLossy => IMAS_MVDD_FIDELITY_POTENTIALLY_LOSSY,
        Fidelity::Lossy => IMAS_MVDD_FIDELITY_LOSSY,
        _ => IMAS_MVDD_FIDELITY_UNMAPPABLE,
    }
}

/// The word a verdict is written with in a loss report.
pub open spec fn fidelity_word(f: Fidelity) -> Seq<char> {
    match f {
        Fidelity::Exact => "EXACT"@,
        Fidelity::PotentiallyLossy => "POTENTIALLY_LOSSY"@,
        Fidelity::Lossy => "LOSSY"@,
        Fidelity::Unmappable => "UNMAPPABLE"@,
    }
}

/// A retained verdict's code across the ABI. No exact operation is ever
/// retained, so an exact verdict has no code.
pub fn fidelity_c_code(fidelity: Fidelity) -> (r: i32)
    requires
        fidelity != Fidelity::Exact,
    ensures
        r == fidelity_code(fidelity),
{
    match fidelity {
        Fidelity::PotentiallyLossy => IMAS_MVDD_FIDELITY_POTENTIALLY_LOSSY,
        Fidelity::Lossy => IMAS_MVDD_FIDELITY_LOSSY,
        _ => IMAS_MVDD_FIDELITY_UNMAPPABLE,
    }
}

/// A verdict's word in a loss report.
pub fn fidelity_file_word(fidelity: Fidelity) -> (r: &'static str)
    ensures
        r@ == fidelity_word(fidelity),
{
    match fidelity {
        Fidelity::Exact => "EXACT",
        Fidelity::PotentiallyLossy => "POTENTIALLY_LOSSY",
        Fidelity::Lossy => "LOSSY",
        Fidelity::Unmappable => "UNMAPPABLE",
    }
}

/// One retained non-exact operation.
#[derive(Debug, PartialEq, Eq)]
pub struct LossEntry {
    pub dd_path: String,
    pub fidelity: Fidelity,
    pub operation: LossOperation,
}

/// The value of one retained entry.
pub type LossView = (Seq<char>, Fidelity, LossOperation);

pub open spec fn entry_view(e: LossEntry) -> LossView {
    (e.dd_path@, e.fidelity, e.operation)
}

/// The ordered losses retained for one root conversion context.
#[derive(Debug)]
pub struct LossLog {
    entries: Vec<LossEntry>,
}

impl View for LossLog {
    type V = Seq<LossView>;

    closed spec fn view(&self) -> Seq<LossView> {
        self.entries@.map_values(|e: LossEntry| entry_view(e))
    }
}

impl LossLog {
    /// No exact operation is ever held.
    #[verifier::type_invariant]
    closed spec fn holds_no_exact_entry(self) -> bool {
        forall|i: int| 0 <= i < self.entries@.len() ==> #[trigger] self.entries@[i].fidelity != Fidelity::Exact
    }
}

/// What retaining one operation does to a log: a non-exact operation is
/// appended, an exact one leaves the log as it was.
pub open spec fn retained(
    log: Seq<LossView>,
    dd_path: Seq<char>,
    fidelity: Fidelity,
    operation: LossOperation,
) -> Seq<LossView> {
    if fidelity == Fidelity::Exact {
        log
    } else {
        log.push((dd_path, fidelity, operation))
    }
}

impl Default for LossLog {
    fn default() -> (r: LossLog)
        ensures
            r@ == Seq::<LossView>::empty(),
    {
        LossLog::new()
    }
}

impl LossLog {
    /// An empty log.
    pub fn new() -> (r: LossLog)
        ensures
            r@ == Seq::<LossView>::empty(),
    {
        let r = LossLog { entries: Vec::new() };
        assert(r@ =~= Seq::<LossView>::empty());
        r
    }

    /// Retains a non-exact operation in call order; an exact one never
    /// enters the log.
    pub fn retain(&mut self, dd_path: String, fidelity: Fidelity, operation: LossOperation)
        ensures
            final(self)@ == retained(old(self)@, dd_path@, fidelity, operation),
    {
        proof {
            use_type_invariant(&*self);
        }
        if fidelity != Fidelity::Exact {
            let ghost before = self@;
            let mut entries: Vec<LossEntry> = Vec::new();
            std::mem::swap(&mut entries, &mut self.entries);
            entries.push(LossEntry { dd_path, fidelity, operation });
            self.entries = entries;
            assert(self@ =~= before.push((dd_path@, fidelity, operation)));
        }
    }

    /// How many entries are retained.
    pub fn len(&self) -> (r: usize)
        ensures
            r == self@.len(),
    {
        self.entries.len()
    }

    /// The `index`-th entry's path, verdict and operation, if there is one.
    pub fn entry_at(&self, index: usize) -> (r: Option<(&str, Fidelity, LossOperation)>)
        ensures
            match r {
                Some((p, f, o)) => index < self@.len() && self@[index as int] == (p@, f, o) && f
                    != Fidelity::Exact,
                None => index >= self@.len(),
            },
    {
        proof {
            use_type_invariant(self);
        }
        if index < self.entries.len() {
            let e = &self.entries[index];
            Some((e.dd_path.as_str(), e.fidelity, e.operation))
        } else {
            None
        }
    }
}

/// Exact operations never enter a loss log, and a non-exact one is appended
/// after every entry already retained, so entries stay in call order.
pub proof fn law_only_non_exact_operations_are_retained(
    log: Seq<LossView>,
    dd_path: Seq<char>,
    fidelity: Fidelity,
    operation: LossOperation,
)
    ensures
        fidelity == Fidelity::Exact ==> retained(log, dd_path, fidelity, operation) == log,
        fidelity != Fidelity::Exact ==> {
            let after = retained(log, dd_path, fidelity, operation);
            &&& after.len() == log.len() + 1
            &&& after.subrange(0, log.len() as int) == log
            &&& after[log.len() as int] == (dd_path, fidelity, operation)
        },
{
    if fidelity != Fidelity::Exact {
        assert(retained(log, dd_path, fidelity, operation).subrange(0, log.len() as int) =~= log);
    }
}

} // verus!
