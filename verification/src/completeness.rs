//! Proving a conversion map complete against the path inventories of its
//! two DD versions.
//!
//! Every inventory path must be claimed, by a rule or by the identity
//! default; a path claimed only by the default must exist under the same
//! spelling on the other side; each rule's own `left`/`right` selector must
//! match something in its side's inventory; and a side-only rule's selector
//! must match nothing in the inventory of the side it declares the path
//! gone from. The check never changes the map and never takes part in
//! resolution.
use vstd::prelude::*;

use crate::conversion_map::{
    resolve_spec, CompletenessViolation, ConversionMap, Direction, InventorySide, MatchKind, Rel,
    Rule,
};
use crate::selector::{pattern_of, string_views, try_match_spec, Selector};
use crate::text::{owned, str_eq};

verus! {

/// The value of a [`CompletenessViolation`].
pub enum ViolationView {
    UnclaimedInventoryPath(InventorySide, Seq<char>),
    DefaultAssumesMissingCounterpart(InventorySide, Seq<char>),
    SideOnlyRuleContradictedByInventory(Seq<char>, InventorySide, Seq<char>, Seq<char>),
    RuleSelectorNotBackedByInventory(Seq<char>, InventorySide, Seq<char>),
}

pub open spec fn violation_view(v: CompletenessViolation) -> ViolationView {
    match v {
        CompletenessViolation::UnclaimedInventoryPath {
            side,
            path,
        } => ViolationView::UnclaimedInventoryPath(side, path@),
        CompletenessViolation::DefaultAssumesMissingCounterpart {
            side,
            path,
        } => ViolationView::DefaultAssumesMissingCounterpart(side, path@),
        CompletenessViolation::SideOnlyRuleContradictedByInventory {
            rule_id,
            side,
            pattern,
            path,
        } => ViolationView::SideOnlyRuleContradictedByInventory(rule_id@, side, pattern@, path@),
        CompletenessViolation::RuleSelectorNotBackedByInventory {
            rule_id,
            side,
            pattern,
        } => ViolationView::RuleSelectorNotBackedByInventory(rule_id@, side, pattern@),
    }
}

pub open spec fn violation_views(v: Seq<CompletenessViolation>) -> Seq<ViolationView> {
    v.map_values(|x: CompletenessViolation| violation_view(x))
}

// ---------------------------------------------------------------------------
// Specification
// ---------------------------------------------------------------------------

/// What one inventory path of `side` owes: a claim by a rule or the
/// default, and, when only the default claims it, the same spelling in the
/// counterpart inventory.
pub open spec fn path_violations(
    map: ConversionMap,
    path: Seq<char>,
    counterpart: Seq<Seq<char>>,
    direction: Direction,
    side: InventorySide,
) -> Seq<ViolationView> {
    match resolve_spec(map, path, direction) {
        None => seq![ViolationView::UnclaimedInventoryPath(side, path)],
        Some(e) => if e.match_kind == MatchKind::Default && !counterpart.contains(path) {
            seq![ViolationView::DefaultAssumesMissingCounterpart(side, path)]
        } else {
            Seq::empty()
        },
    }
}

/// The violations of every path of `inventory`, in inventory order.
pub open spec fn claim_violations(
    map: ConversionMap,
    inventory: Seq<Seq<char>>,
    counterpart: Seq<Seq<char>>,
    direction: Direction,
    side: InventorySide,
) -> Seq<ViolationView>
    decreases inventory.len(),
{
    if inventory.len() == 0 {
        Seq::empty()
    } else {
        claim_violations(map, inventory.drop_last(), counterpart, direction, side) + path_violations(
            map,
            inventory.last(),
            counterpart,
            direction,
            side,
        )
    }
}

/// `i` is the first inventory entry `sel` claims.
pub open spec fn is_first_claim(sel: Selector, inventory: Seq<Seq<char>>, i: int) -> bool {
    &&& 0 <= i < inventory.len()
    &&& try_match_spec(sel, inventory[i]) is Some
    &&& forall|k: int| 0 <= k < i ==> try_match_spec(sel, #[trigger] inventory[k]) is None
}

/// The first inventory entry `sel` claims, if any: literal equality for
/// `Exact`, the anchor or a path beneath it for `Subtree`, a glob match for
/// `Glob`.
pub open spec fn first_claim(sel: Selector, inventory: Seq<Seq<char>>) -> Option<int> {
    if exists|i: int| is_first_claim(sel, inventory, i) {
        Some(choose|i: int| is_first_claim(sel, inventory, i))
    } else {
        None
    }
}

/// A rule selector that must be backed by its side's inventory.
pub open spec fn backing_violations(
    rule: Rule,
    sel: Option<Selector>,
    inventory: Seq<Seq<char>>,
    side: InventorySide,
) -> Seq<ViolationView> {
    match sel {
        Some(s) => if first_claim(s, inventory) is None {
            seq![ViolationView::RuleSelectorNotBackedByInventory(rule.id@, side, pattern_of(s))]
        } else {
            Seq::empty()
        },
        None => Seq::empty(),
    }
}

/// A side-only rule's selector must claim nothing on the side it declares
/// the path absent from.
pub open spec fn absence_violations(
    rule: Rule,
    sel: Option<Selector>,
    inventory: Seq<Seq<char>>,
    side: InventorySide,
) -> Seq<ViolationView> {
    match sel {
        Some(s) => match first_claim(s, inventory) {
            Some(i) => seq![
                ViolationView::SideOnlyRuleContradictedByInventory(
                    rule.id@,
                    side,
                    pattern_of(s),
                    inventory[i],
                ),
            ],
            None => Seq::empty(),
        },
        None => Seq::empty(),
    }
}

/// What one rule owes the two inventories.
pub open spec fn rule_violations(rule: Rule, left: Seq<Seq<char>>, right: Seq<Seq<char>>) -> Seq<
    ViolationView,
> {
    backing_violations(rule, rule.left, left, InventorySide::Left) + backing_violations(
        rule,
        rule.right,
        right,
        InventorySide::Right,
    ) + match rule.rel {
        Rel::LeftOnly => absence_violations(rule, rule.left, right, InventorySide::Right),
        Rel::RightOnly => absence_violations(rule, rule.right, left, InventorySide::Left),
        _ => Seq::empty(),
    }
}

/// What the rules owe the two inventories, in rule order.
pub open spec fn rules_violations(rules: Seq<Rule>, left: Seq<Seq<char>>, right: Seq<Seq<char>>) -> Seq<
    ViolationView,
>
    decreases rules.len(),
{
    if rules.len() == 0 {
        Seq::empty()
    } else {
        rules_violations(rules.drop_last(), left, right) + rule_violations(rules.last(), left, right)
    }
}

/// Every violation of `map` against the two inventories, in the order they
/// are reported: left paths, right paths, then the rules.
pub open spec fn completeness_spec(map: ConversionMap, left: Seq<Seq<char>>, right: Seq<Seq<char>>) -> Seq<
    ViolationView,
> {
    claim_violations(map, left, right, Direction::Forward, InventorySide::Left) + claim_violations(
        map,
        right,
        left,
        Direction::Reverse,
        InventorySide::Right,
    ) + rules_violations(map.rules@, left, right)
}

// ---------------------------------------------------------------------------
// Checking
// ---------------------------------------------------------------------------

proof fn lemma_first_claim_unique(sel: Selector, inventory: Seq<Seq<char>>, i: int)
    requires
        is_first_claim(sel, inventory, i),
    ensures
        first_claim(sel, inventory) == Some(i),
{
    let j = choose|j: int| is_first_claim(sel, inventory, j);
    assert(is_first_claim(sel, inventory, j));
    if j < i {
        assert(try_match_spec(sel, inventory[j]) is None);
    }
    if i < j {
        assert(try_match_spec(sel, inventory[i]) is None);
    }
}

// ---------------------------------------------------------------------------
// When a map is complete
// ---------------------------------------------------------------------------

/// `sel` claims some entry of `inventory`.
pub open spec fn claims_some(sel: Selector, inventory: Seq<Seq<char>>) -> bool {
    exists|i: int| 0 <= i < inventory.len() && try_match_spec(sel, #[trigger] inventory[i]) is Some
}

/// Every path of `inventory` is claimed on `direction`'s side: by a rule,
/// or by the identity default with the same spelling in `counterpart`.
pub open spec fn inventory_covered(
    map: ConversionMap,
    inventory: Seq<Seq<char>>,
    counterpart: Seq<Seq<char>>,
    direction: Direction,
) -> bool {
    forall|i: int|
        0 <= i < inventory.len() ==> match resolve_spec(map, #[trigger] inventory[i], direction) {
            None => false,
            Some(e) => e.match_kind == MatchKind::Explicit || counterpart.contains(inventory[i]),
        }
}

/// A rule's `left` selector claims something in `left`, its `right`
/// selector something in `right`, and a side-only rule's selector nothing
/// on the side it declares the path absent from.
pub open spec fn rule_backed(rule: Rule, left: Seq<Seq<char>>, right: Seq<Seq<char>>) -> bool {
    &&& (rule.left matches Some(s) ==> claims_some(s, left))
    &&& (rule.right matches Some(s) ==> claims_some(s, right))
    &&& (rule.rel == Rel::LeftOnly && rule.left is Some ==> !claims_some(rule.left->0, right))
    &&& (rule.rel == Rel::RightOnly && rule.right is Some ==> !claims_some(rule.right->0, left))
}

proof fn lemma_first_claim_exists(sel: Selector, inventory: Seq<Seq<char>>, i: int)
    requires
        0 <= i < inventory.len(),
        try_match_spec(sel, inventory[i]) is Some,
    ensures
        first_claim(sel, inventory) is Some,
    decreases i,
{
    if !is_first_claim(sel, inventory, i) {
        let k = choose|k: int| 0 <= k < i && try_match_spec(sel, #[trigger] inventory[k]) is Some;
        lemma_first_claim_exists(sel, inventory, k);
    }
}

proof fn lemma_first_claim_iff(sel: Selector, inventory: Seq<Seq<char>>)
    ensures
        first_claim(sel, inventory) is Some <==> claims_some(sel, inventory),
{
    if claims_some(sel, inventory) {
        let i = choose|i: int| 0 <= i < inventory.len() && try_match_spec(sel, #[trigger] inventory[i]) is Some;
        lemma_first_claim_exists(sel, inventory, i);
    }
    if first_claim(sel, inventory) is Some {
        let i = choose|i: int| is_first_claim(sel, inventory, i);
        assert(is_first_claim(sel, inventory, i));
        assert(try_match_spec(sel, inventory[i]) is Some);
    }
}

proof fn lemma_claim_violations_empty(
    map: ConversionMap,
    inventory: Seq<Seq<char>>,
    counterpart: Seq<Seq<char>>,
    direction: Direction,
    side: InventorySide,
)
    ensures
        claim_violations(map, inventory, counterpart, direction, side).len() == 0 <==> inventory_covered(
            map,
            inventory,
            counterpart,
            direction,
        ),
    decreases inventory.len(),
{
    if inventory.len() > 0 {
        let d = inventory.drop_last();
        lemma_claim_violations_empty(map, d, counterpart, direction, side);
        let n = inventory.len() - 1;
        if inventory_covered(map, inventory, counterpart, direction) {
            assert forall|i: int| 0 <= i < d.len() implies match resolve_spec(map, #[trigger] d[i], direction) {
                None => false,
                Some(e) => e.match_kind == MatchKind::Explicit || counterpart.contains(d[i]),
            } by {
                assert(d[i] == inventory[i]);
            }
            assert(inventory[n] == inventory.last());
        }
        if inventory_covered(map, d, counterpart, direction) && path_violations(
            map,
            inventory.last(),
            counterpart,
            direction,
            side,
        ).len() == 0 {
            assert forall|i: int| 0 <= i < inventory.len() implies match resolve_spec(
                map,
                #[trigger] inventory[i],
                direction,
            ) {
                None => false,
                Some(e) => e.match_kind == MatchKind::Explicit || counterpart.contains(inventory[i]),
            } by {
                if i < n {
                    assert(d[i] == inventory[i]);
                }
            }
        }
    }
}

proof fn lemma_rule_violations_empty(rule: Rule, left: Seq<Seq<char>>, right: Seq<Seq<char>>)
    ensures
        rule_violations(rule, left, right).len() == 0 <==> rule_backed(rule, left, right),
{
    if let Some(s) = rule.left {
        lemma_first_claim_iff(s, left);
        lemma_first_claim_iff(s, right);
    }
    if let Some(s) = rule.right {
        lemma_first_claim_iff(s, right);
        lemma_first_claim_iff(s, left);
    }
}

proof fn lemma_rules_violations_empty(rules: Seq<Rule>, left: Seq<Seq<char>>, right: Seq<Seq<char>>)
    ensures
        rules_violations(rules, left, right).len() == 0 <==> forall|k: int|
            0 <= k < rules.len() ==> rule_backed(#[trigger] rules[k], left, right),
    decreases rules.len(),
{
    if rules.len() > 0 {
        let d = rules.drop_last();
        lemma_rules_violations_empty(d, left, right);
        lemma_rule_violations_empty(rules.last(), left, right);
        if forall|k: int| 0 <= k < rules.len() ==> rule_backed(#[trigger] rules[k], left, right) {
            assert forall|k: int| 0 <= k < d.len() implies rule_backed(#[trigger] d[k], left, right) by {
                assert(d[k] == rules[k]);
            }
            assert(rule_backed(rules[rules.len() - 1], left, right));
        }
        if rules_violations(rules, left, right).len() == 0 {
            assert forall|k: int| 0 <= k < rules.len() implies rule_backed(#[trigger] rules[k], left, right) by {
                if k < d.len() {
                    assert(d[k] == rules[k]);
                }
            }
        }
    }
}

/// A map is complete against two inventories exactly when every left path
/// resolves forward and every right path resolves in reverse (through a
/// rule, or through the identity default with the same spelling on the
/// other side), every rule selector claims something in its own side's
/// inventory, and no side-only rule's selector claims anything on the side
/// it declares the path absent from.
pub proof fn law_complete_exactly_when_claimed_and_backed(
    map: ConversionMap,
    left: Seq<Seq<char>>,
    right: Seq<Seq<char>>,
)
    ensures
        completeness_spec(map, left, right).len() == 0 <==> {
            &&& inventory_covered(map, left, right, Direction::Forward)
            &&& inventory_covered(map, right, left, Direction::Reverse)
            &&& forall|k: int| 0 <= k < map.rules@.len() ==> rule_backed(#[trigger] map.rules@[k], left, right)
        },
{
    lemma_claim_violations_empty(map, left, right, Direction::Forward, InventorySide::Left);
    lemma_claim_violations_empty(map, right, left, Direction::Reverse, InventorySide::Right);
    lemma_rules_violations_empty(map.rules@, left, right);
}

/// Whether `path` is one of `inventory`'s entries.
fn inventory_contains(inventory: &[String], path: &str) -> (r: bool)
    ensures
        r == string_views(inventory@).contains(path@),
{
    let ghost iv = string_views(inventory@);
    let mut i: usize = 0;
    while i < inventory.len()
        invariant
            i <= inventory@.len(),
            iv == string_views(inventory@),
            forall|k: int| 0 <= k < i ==> iv[k] != path@,
        decreases inventory@.len() - i,
    {
        assert(iv[i as int] == inventory@[i as int]@);
        if str_eq(inventory[i].as_str(), path) {
            assert(iv[i as int] == path@);
            return true;
        }
        i = i + 1;
    }
    false
}

impl ConversionMap {
    /// Checks this map against the full path inventories of its two DD
    /// versions, and reports every violation found: inventory paths left
    /// unclaimed, paths that only the identity default claims but whose
    /// counterpart is missing, rule selectors that match nothing in their
    /// side's inventory, and side-only rules contradicted by the other
    /// side's inventory.
    ///
    /// The check never changes the map and resolution never consults it.
    pub fn check_completeness(&self, left_inventory: &[String], right_inventory: &[String]) -> (r:
        Result<(), Vec<CompletenessViolation>>)
        requires
            self.wf(),
        ensures
            ({
                let all = completeness_spec(
                    *self,
                    string_views(left_inventory@),
                    string_views(right_inventory@),
                );
                match r {
                    Ok(_) => all.len() == 0,
                    Err(v) => violation_views(v@) == all && all.len() > 0,
                }
            }),
    {
        let mut violations: Vec<CompletenessViolation> = Vec::new();
        self.check_inventory_claimed(
            left_inventory,
            right_inventory,
            Direction::Forward,
            InventorySide::Left,
            &mut violations,
        );
        self.check_inventory_claimed(
            right_inventory,
            left_inventory,
            Direction::Reverse,
            InventorySide::Right,
            &mut violations,
        );
        self.check_rules(left_inventory, right_inventory, &mut violations);
        proof {
            assert(violation_views(violations@) =~= Seq::<ViolationView>::empty() + completeness_spec(
                *self,
                string_views(left_inventory@),
                string_views(right_inventory@),
            ));
        }
        if violations.len() == 0 {
            Ok(())
        } else {
            Err(violations)
        }
    }

    /// Appends the violations of every path of `inventory`, spelled on
    /// `direction`'s source side.
    fn check_inventory_claimed(
        &self,
        inventory: &[String],
        counterpart_inventory: &[String],
        direction: Direction,
        side: InventorySide,
        violations: &mut Vec<CompletenessViolation>,
    )
        requires
            self.wf(),
        ensures
            violation_views(final(violations)@) == violation_views(old(violations)@)
                + claim_violations(
                *self,
                string_views(inventory@),
                string_views(counterpart_inventory@),
                direction,
                side,
            ),
    {
        let ghost iv = string_views(inventory@);
        let ghost cv = string_views(counterpart_inventory@);
        let ghost start = violation_views(violations@);
        let mut i: usize = 0;
        assert(iv.subrange(0, 0) =~= Seq::<Seq<char>>::empty());
        assert(violation_views(violations@) =~= start + claim_violations(
            *self,
            iv.subrange(0, 0),
            cv,
            direction,
            side,
        ));
        while i < inventory.len()
            invariant
                i <= inventory@.len(),
                self.wf(),
                iv == string_views(inventory@),
                cv == string_views(counterpart_inventory@),
                violation_views(violations@) == start + claim_violations(
                    *self,
                    iv.subrange(0, i as int),
                    cv,
                    direction,
                    side,
                ),
            decreases inventory@.len() - i,
        {
            let ghost before = violation_views(violations@);
            let path = inventory[i].as_str();
            assert(iv[i as int] == path@);
            assert(iv.subrange(0, i + 1).drop_last() =~= iv.subrange(0, i as int));
            assert(iv.subrange(0, i + 1).last() == path@);
            let ghost owed = path_violations(*self, path@, cv, direction, side);
            match self.resolve(path, direction) {
                None => {
                    violations.push(
                        CompletenessViolation::UnclaimedInventoryPath { side, path: owned(path) },
                    );
                    assert(violation_views(violations@) =~= before + owed);
                },
                Some(explanation) => {
                    if explanation.match_kind == MatchKind::Default {
                        if !inventory_contains(counterpart_inventory, path) {
                            violations.push(
                                CompletenessViolation::DefaultAssumesMissingCounterpart {
                                    side,
                                    path: owned(path),
                                },
                            );
                            assert(violation_views(violations@) =~= before + owed);
                        } else {
                            assert(violation_views(violations@) =~= before + owed);
                        }
                    } else {
                        assert(violation_views(violations@) =~= before + owed);
                    }
                },
            }
            i = i + 1;
            assert(violation_views(violations@) =~= start + claim_violations(
                *self,
                iv.subrange(0, i as int),
                cv,
                direction,
                side,
            ));
        }
        assert(iv.subrange(0, iv.len() as int) =~= iv);
    }

    /// Appends what every rule owes the two inventories.
    fn check_rules(
        &self,
        left_inventory: &[String],
        right_inventory: &[String],
        violations: &mut Vec<CompletenessViolation>,
    )
        ensures
            violation_views(final(violations)@) == violation_views(old(violations)@)
                + rules_violations(
                self.rules@,
                string_views(left_inventory@),
                string_views(right_inventory@),
            ),
    {
        let ghost lv = string_views(left_inventory@);
        let ghost rv = string_views(right_inventory@);
        let ghost start = violation_views(violations@);
        let ghost all = self.rules@;
        let mut i: usize = 0;
        assert(all.subrange(0, 0) =~= Seq::<Rule>::empty());
        assert(violation_views(violations@) =~= start + rules_violations(all.subrange(0, 0), lv, rv));
        while i < self.rules.len()
            invariant
                i <= all.len(),
                all == self.rules@,
                lv == string_views(left_inventory@),
                rv == string_views(right_inventory@),
                violation_views(violations@) == start + rules_violations(
                    all.subrange(0, i as int),
                    lv,
                    rv,
                ),
            decreases all.len() - i,
        {
            let rule = &self.rules[i];
            Self::check_rule(rule, left_inventory, right_inventory, violations);
            assert(all.subrange(0, i + 1).drop_last() =~= all.subrange(0, i as int));
            assert(all.subrange(0, i + 1).last() == *rule);
            i = i + 1;
            assert(violation_views(violations@) =~= start + rules_violations(
                all.subrange(0, i as int),
                lv,
                rv,
            ));
        }
        assert(all.subrange(0, all.len() as int) =~= all);
    }

    /// Appends what one rule owes the two inventories.
    fn check_rule(
        rule: &Rule,
        left_inventory: &[String],
        right_inventory: &[String],
        violations: &mut Vec<CompletenessViolation>,
    )
        ensures
            violation_views(final(violations)@) == violation_views(old(violations)@)
                + rule_violations(
                *rule,
                string_views(left_inventory@),
                string_views(right_inventory@),
            ),
    {
        let ghost lv = string_views(left_inventory@);
        let ghost rv = string_views(right_inventory@);
        let ghost start = violation_views(violations@);
        if let Some(selector) = &rule.left {
            if !Self::selector_backed_by_inventory(selector, left_inventory) {
                violations.push(
                    CompletenessViolation::RuleSelectorNotBackedByInventory {
                        rule_id: owned(rule.id.as_str()),
                        side: InventorySide::Left,
                        pattern: owned(selector.pattern()),
                    },
                );
            }
        }
        let ghost after_left = violation_views(violations@);
        assert(after_left =~= start + backing_violations(
            *rule,
            rule.left,
            lv,
            InventorySide::Left,
        ));
        if let Some(selector) = &rule.right {
            if !Self::selector_backed_by_inventory(selector, right_inventory) {
                violations.push(
                    CompletenessViolation::RuleSelectorNotBackedByInventory {
                        rule_id: owned(rule.id.as_str()),
                        side: InventorySide::Right,
                        pattern: owned(selector.pattern()),
                    },
                );
            }
        }
        let ghost after_right = violation_views(violations@);
        assert(after_right =~= after_left + backing_violations(
            *rule,
            rule.right,
            rv,
            InventorySide::Right,
        ));
        match rule.rel {
            Rel::LeftOnly => {
                Self::check_absence(rule, &rule.left, right_inventory, InventorySide::Right, violations);
            },
            Rel::RightOnly => {
                Self::check_absence(rule, &rule.right, left_inventory, InventorySide::Left, violations);
            },
            _ => {
                assert(violation_views(violations@) =~= after_right + Seq::<ViolationView>::empty());
            },
        }
        assert(violation_views(violations@) =~= start + rule_violations(*rule, lv, rv));
    }

    /// Appends the contradiction, if any, of a side-only rule's selector by
    /// the inventory of the side it declares the path absent from.
    fn check_absence(
        rule: &Rule,
        selector: &Option<Selector>,
        inventory: &[String],
        side: InventorySide,
        violations: &mut Vec<CompletenessViolation>,
    )
        ensures
            violation_views(final(violations)@) == violation_views(old(violations)@)
                + absence_violations(*rule, *selector, string_views(inventory@), side),
    {
        let ghost before = violation_views(violations@);
        if let Some(selector) = selector {
            if let Some(i) = Self::selector_first_match(selector, inventory) {
                violations.push(
                    CompletenessViolation::SideOnlyRuleContradictedByInventory {
                        rule_id: owned(rule.id.as_str()),
                        side,
                        pattern: owned(selector.pattern()),
                        path: owned(inventory[i].as_str()),
                    },
                );
                assert(string_views(inventory@)[i as int] == inventory@[i as int]@);
            }
        }
        assert(violation_views(violations@) =~= before + absence_violations(
            *rule,
            *selector,
            string_views(inventory@),
            side,
        ));
    }

    /// Whether `selector` claims at least one entry of `inventory`.
    fn selector_backed_by_inventory(selector: &Selector, inventory: &[String]) -> (r: bool)
        ensures
            r == first_claim(*selector, string_views(inventory@)) is Some,
    {
        Self::selector_first_match(selector, inventory).is_some()
    }

    /// The position of the first `inventory` entry `selector` claims.
    fn selector_first_match(selector: &Selector, inventory: &[String]) -> (r: Option<usize>)
        ensures
            match r {
                Some(i) => i < inventory@.len() && first_claim(*selector, string_views(inventory@))
                    == Some(i as int),
                None => first_claim(*selector, string_views(inventory@)) is None,
            },
    {
        let ghost iv = string_views(inventory@);
        let mut i: usize = 0;
        while i < inventory.len()
            invariant
                i <= inventory@.len(),
                iv == string_views(inventory@),
                forall|k: int| 0 <= k < i ==> try_match_spec(*selector, #[trigger] iv[k]) is None,
            decreases inventory@.len() - i,
        {
            assert(iv[i as int] == inventory@[i as int]@);
            if selector.try_match(inventory[i].as_str()).is_some() {
                proof {
                    assert(is_first_claim(*selector, iv, i as int));
                    lemma_first_claim_unique(*selector, iv, i as int);
                }
                return Some(i);
            }
            i = i + 1;
        }
        assert(!exists|k: int| is_first_claim(*selector, iv, k)) by {
            if exists|k: int| is_first_claim(*selector, iv, k) {
                let k = choose|k: int| is_first_claim(*selector, iv, k);
                assert(try_match_spec(*selector, iv[k]) is None);
            }
        }
        None
    }
}

} // verus!
