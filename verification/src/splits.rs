//! Split layouts: a binary tree of panes with durable proportions.

use std::collections::BTreeSet;

use vstd::prelude::*;

use crate::domain::{PaneId, SplitId};
use crate::text;

verus! {

/// A durable split proportion. Cell-driven updates use the reduced
/// `first_cells / available_cells` fraction, so laying the branch out at the
/// same size always reproduces the exact requested cell.
#[derive(Clone, Copy, Debug, PartialEq, Eq, Structural)]
pub struct SplitRatio {
    pub numerator: u16,
    pub denominator: u16,
}

/// Whether one number divides another.
pub open spec fn divides(d: int, n: int) -> bool {
    exists|k: int| #[trigger] (k * d) == n
}

/// The greatest common divisor, by Euclid's rule.
pub open spec fn gcd_spec(left: nat, right: nat) -> nat
    decreases right,
{
    if right == 0 {
        left
    } else {
        gcd_spec(right, left % right)
    }
}

proof fn lemma_gcd_divides(left: nat, right: nat)
    requires
        left > 0 || right > 0,
    ensures
        gcd_spec(left, right) > 0,
        divides(gcd_spec(left, right) as int, left as int),
        divides(gcd_spec(left, right) as int, right as int),
    decreases right,
{
    let g = gcd_spec(left, right) as int;
    if right == 0 {
        assert(1 * g == left);
        assert(0 * g == 0);
    } else {
        lemma_gcd_divides(right, left % right);
        let a = choose|k: int| #[trigger] (k * g) == right;
        let b = choose|k: int| #[trigger] (k * g) == left % right;
        let q = (left / right) as int;
        assert(left == right * q + left % right) by (nonlinear_arith)
            requires
                right > 0,
                q == left / right,
        ;
        assert((q * a + b) * g == left) by (nonlinear_arith)
            requires
                a * g == right,
                b * g == left % right,
                left == right * q + left % right,
        ;
    }
}

fn gcd(left: u16, right: u16) -> (r: u16)
    ensures
        r == gcd_spec(left as nat, right as nat),
{
    let mut a: u16 = left;
    let mut b: u16 = right;
    while b != 0
        invariant
            gcd_spec(a as nat, b as nat) == gcd_spec(left as nat, right as nat),
        decreases b,
    {
        let rest: u16 = a % b;
        a = b;
        b = rest;
    }
    a
}

/// The fraction in lowest terms.
pub open spec fn reduced_spec(numerator: u16, denominator: u16) -> SplitRatio {
    let divisor = gcd_spec(numerator as nat, denominator as nat);
    SplitRatio {
        numerator: (numerator as nat / divisor) as u16,
        denominator: (denominator as nat / divisor) as u16,
    }
}

/// A proportion that leaves both sides of a branch something.
pub open spec fn valid_ratio(ratio: SplitRatio) -> bool {
    0 < ratio.numerator < ratio.denominator
}

/// The cells that a proportion gives to the first side.
pub open spec fn first_cells_spec(ratio: SplitRatio, available: u16) -> int {
    if valid_ratio(ratio) {
        (available * ratio.numerator) / (ratio.denominator as int)
    } else {
        0
    }
}

/// An even split.
pub open spec fn half() -> SplitRatio {
    SplitRatio { numerator: 1, denominator: 2 }
}

/// An even split.
pub fn half_ratio() -> (r: SplitRatio)
    ensures
        r == half(),
{
    SplitRatio { numerator: 1, denominator: 2 }
}

impl SplitRatio {
    /// The proportion of `first` cells out of `available`, when both sides get
    /// at least one cell.
    pub fn from_cells(first: u16, available: u16) -> (r: Option<Self>)
        ensures
            r is Some <==> 0 < first < available,
            r matches Some(ratio) ==> ratio == reduced_spec(first, available),
            r matches Some(ratio) ==> valid_ratio(ratio),
            r matches Some(ratio) ==> first_cells_spec(ratio, available) == first,
    {
        if first == 0 || first >= available {
            return None;
        }
        proof {
            law_cells_are_reproduced(first, available);
        }
        Some(Self::reduced(first, available))
    }

    fn reduced(numerator: u16, denominator: u16) -> (r: Self)
        requires
            numerator > 0 || denominator > 0,
        ensures
            r == reduced_spec(numerator, denominator),
    {
        proof {
            lemma_gcd_divides(numerator as nat, denominator as nat);
        }
        let divisor: u16 = gcd(numerator, denominator);
        Self { numerator: numerator / divisor, denominator: denominator / divisor }
    }

    /// The cells that this proportion gives to the first side.
    pub fn first_cells(self, available: u16) -> (r: u16)
        ensures
            r == first_cells_spec(self, available),
    {
        if !self.is_valid() {
            return 0;
        }
        proof {
            let a = available as int;
            let n = self.numerator as int;
            let d = self.denominator as int;
            assert(0 <= a * n <= a * d && a * n <= 0xffff * 0xffff) by (nonlinear_arith)
                requires
                    0 <= a <= 0xffff,
                    0 < n < d,
                    d <= 0xffff,
            ;
            assert((a * n) / d <= a) by (nonlinear_arith)
                requires
                    a * n <= a * d,
                    0 < d,
            ;
            assert((a * n) / d >= 0) by (nonlinear_arith)
                requires
                    a * n >= 0,
                    0 < d,
            ;
        }
        let cells: u32 = available as u32 * self.numerator as u32 / self.denominator as u32;
        cells as u16
    }

    /// The proportion as a fraction.
    pub fn shown(self) -> (r: String)
        ensures
            r@ == text::decimal(self.numerator as nat) + "/"@ + text::decimal(
                self.denominator as nat,
            ),
    {
        let mut out = text::write_decimal(self.numerator as u64);
        out.append("/");
        out.append(text::write_decimal(self.denominator as u64).as_str());
        out
    }

    /// Whether both sides get something.
    pub fn is_valid(self) -> (r: bool)
        ensures
            r == valid_ratio(self),
    {
        self.numerator > 0 && self.numerator < self.denominator
    }
}

/// Laying a branch out again at the size it was measured at gives the first
/// side exactly the cells that were asked for.
pub proof fn law_cells_are_reproduced(first: u16, available: u16)
    requires
        0 < first < available,
    ensures
        valid_ratio(reduced_spec(first, available)),
        first_cells_spec(reduced_spec(first, available), available) == first,
{
    let g = gcd_spec(first as nat, available as nat) as int;
    lemma_gcd_divides(first as nat, available as nat);
    let a = choose|k: int| #[trigger] (k * g) == first;
    let b = choose|k: int| #[trigger] (k * g) == available;
    assert(first as int / g == a && available as int / g == b) by (nonlinear_arith)
        requires
            a * g == first,
            b * g == available,
            g > 0,
    ;
    assert(0 < a < b) by (nonlinear_arith)
        requires
            a * g == first,
            b * g == available,
            g > 0,
            0 < first < available,
    ;
    assert(a <= first && b <= available) by (nonlinear_arith)
        requires
            a * g == first,
            b * g == available,
            g > 0,
            0 < a,
            0 < b,
    ;
    assert((available * a) / b == first) by (nonlinear_arith)
        requires
            a * g == first,
            b * g == available,
            g > 0,
            0 < b,
    ;
}

/// Proportions are kept in lowest terms: a fraction and the same fraction with
/// both sides multiplied give one ratio.
pub proof fn law_equal_fractions_reduce_alike(first: u16, available: u16, factor: nat)
    requires
        0 < first < available,
        factor > 0,
        available * factor <= 0xffff,
    ensures
        reduced_spec((first * factor) as u16, (available * factor) as u16) == reduced_spec(
            first,
            available,
        ),
{
    let n = first as nat;
    let d = available as nat;
    let k = factor;
    assert(n * k <= d * k && n * k > 0) by (nonlinear_arith)
        requires
            0 < n < d,
            k > 0,
    ;
    lemma_gcd_scales(n, d, k);
    lemma_gcd_divides(n, d);
    let g = gcd_spec(n, d);
    assert((n * k) / (g * k) == n / g && (d * k) / (g * k) == d / g) by (nonlinear_arith)
        requires
            g > 0,
            k > 0,
    ;
}

proof fn lemma_gcd_scales(left: nat, right: nat, factor: nat)
    requires
        factor > 0,
    ensures
        gcd_spec(left * factor, right * factor) == gcd_spec(left, right) * factor,
    decreases right,
{
    if right == 0 {
        assert(0 * factor == 0);
    } else {
        assert(right * factor > 0) by (nonlinear_arith)
            requires
                right > 0,
                factor > 0,
        ;
        assert((left * factor) % (right * factor) == (left % right) * factor) by {
            vstd::arithmetic::div_mod::lemma_truncate_middle(
                left as int,
                factor as int,
                right as int,
            );
            assert(factor * left == left * factor && factor * right == right * factor && factor * (
            left % right) == (left % right) * factor) by (nonlinear_arith);
        }
        lemma_gcd_scales(right, left % right, factor);
    }
}

/// The direction along which a branch lies.
#[derive(Clone, Copy, Debug, PartialEq, Eq, Structural)]
pub enum SplitAxis {
    Horizontal,
    Vertical,
}

/// Where a new pane goes.
#[derive(Clone, Copy, Debug, PartialEq, Eq, Structural)]
pub enum SplitDirection {
    Right,
    Down,
}

impl SplitDirection {
    /// The axis of the branch that a split in this direction makes.
    pub open spec fn axis_spec(self) -> SplitAxis {
        match self {
            SplitDirection::Right => SplitAxis::Horizontal,
            SplitDirection::Down => SplitAxis::Vertical,
        }
    }

    /// The axis of the branch that a split in this direction makes.
    pub fn axis(self) -> (r: SplitAxis)
        ensures
            r == self.axis_spec(),
    {
        match self {
            Self::Right => SplitAxis::Horizontal,
            Self::Down => SplitAxis::Vertical,
        }
    }
}

/// A layout: one pane, or a branch of two layouts.
#[derive(Debug, PartialEq, Eq)]
pub enum SplitTree {
    Leaf { pane_id: PaneId },
    Branch {
        split_id: SplitId,
        axis: SplitAxis,
        ratio: SplitRatio,
        first: Box<SplitTree>,
        second: Box<SplitTree>,
    },
}

impl Clone for SplitTree {
    fn clone(&self) -> (r: Self)
        ensures
            r == *self,
        decreases self,
    {
        match self {
            SplitTree::Leaf { pane_id } => SplitTree::Leaf { pane_id: *pane_id },
            SplitTree::Branch { split_id, axis, ratio, first, second } => SplitTree::Branch {
                split_id: *split_id,
                axis: *axis,
                ratio: *ratio,
                first: Box::new((&**first).clone()),
                second: Box::new((&**second).clone()),
            },
        }
    }
}

/// Keeps every pane but one.
pub open spec fn all_but(pane_id: PaneId) -> spec_fn(PaneId) -> bool {
    |pane: PaneId| pane != pane_id
}

impl SplitTree {
    /// The panes of a layout, in reading order.
    pub open spec fn leaves(self) -> Seq<PaneId>
        decreases self,
    {
        match self {
            SplitTree::Leaf { pane_id } => seq![pane_id],
            SplitTree::Branch { first, second, .. } => first.leaves() + second.leaves(),
        }
    }

    /// The branches of a layout, each before those inside it.
    pub open spec fn branches(self) -> Seq<SplitId>
        decreases self,
    {
        match self {
            SplitTree::Leaf { .. } => Seq::empty(),
            SplitTree::Branch { split_id, first, second, .. } => seq![split_id] + first.branches()
                + second.branches(),
        }
    }

    /// Every branch gives both its sides something.
    pub open spec fn ratios_valid(self) -> bool
        decreases self,
    {
        match self {
            SplitTree::Leaf { .. } => true,
            SplitTree::Branch { ratio, first, second, .. } => valid_ratio(ratio)
                && first.ratios_valid() && second.ratios_valid(),
        }
    }

    /// No pane and no branch occurs twice, and every proportion is valid.
    pub open spec fn valid(self) -> bool {
        &&& self.leaves().no_duplicates()
        &&& self.branches().no_duplicates()
        &&& self.ratios_valid()
    }

    /// The layout after the first leaf of `anchor` became an even branch of
    /// `anchor` and a new pane.
    pub open spec fn with_split(
        self,
        anchor: PaneId,
        axis: SplitAxis,
        pane_id: PaneId,
        split_id: SplitId,
    ) -> SplitTree
        decreases self,
    {
        match self {
            SplitTree::Leaf { pane_id: current } => if current == anchor {
                SplitTree::Branch {
                    split_id,
                    axis,
                    ratio: half(),
                    first: Box::new(SplitTree::Leaf { pane_id: anchor }),
                    second: Box::new(SplitTree::Leaf { pane_id }),
                }
            } else {
                self
            },
            SplitTree::Branch { split_id: outer, axis: along, ratio, first, second } => {
                if first.leaves().contains(anchor) {
                    SplitTree::Branch {
                        split_id: outer,
                        axis: along,
                        ratio,
                        first: Box::new(first.with_split(anchor, axis, pane_id, split_id)),
                        second,
                    }
                } else {
                    SplitTree::Branch {
                        split_id: outer,
                        axis: along,
                        ratio,
                        first,
                        second: Box::new(second.with_split(anchor, axis, pane_id, split_id)),
                    }
                }
            },
        }
    }

    /// The layout of the panes that are kept: a branch that loses one side
    /// becomes its other side.
    pub open spec fn keeping(self, keep: spec_fn(PaneId) -> bool) -> Option<SplitTree>
        decreases self,
    {
        match self {
            SplitTree::Leaf { pane_id } => if keep(pane_id) {
                Some(self)
            } else {
                None
            },
            SplitTree::Branch { split_id, axis, ratio, first, second } => {
                match (first.keeping(keep), second.keeping(keep)) {
                    (Some(left), Some(right)) => Some(
                        SplitTree::Branch {
                            split_id,
                            axis,
                            ratio,
                            first: Box::new(left),
                            second: Box::new(right),
                        },
                    ),
                    (Some(child), None) => Some(child),
                    (None, Some(child)) => Some(child),
                    (None, None) => None,
                }
            },
        }
    }

    /// The layout without a pane.
    pub open spec fn lacking(self, pane_id: PaneId) -> Option<SplitTree> {
        self.keeping(all_but(pane_id))
    }

    /// The layout after its first branch of that identifier got a proportion.
    pub open spec fn with_ratio(self, split_id: SplitId, ratio: SplitRatio) -> SplitTree
        decreases self,
    {
        match self {
            SplitTree::Leaf { .. } => self,
            SplitTree::Branch { split_id: current, axis, ratio: held, first, second } => {
                if current == split_id {
                    SplitTree::Branch { split_id: current, axis, ratio, first, second }
                } else if first.branches().contains(split_id) {
                    SplitTree::Branch {
                        split_id: current,
                        axis,
                        ratio: held,
                        first: Box::new(first.with_ratio(split_id, ratio)),
                        second,
                    }
                } else {
                    SplitTree::Branch {
                        split_id: current,
                        axis,
                        ratio: held,
                        first,
                        second: Box::new(second.with_ratio(split_id, ratio)),
                    }
                }
            },
        }
    }

    /// The proportion of the first branch of that identifier.
    pub open spec fn ratio_spec(self, split_id: SplitId) -> Option<SplitRatio>
        decreases self,
    {
        match self {
            SplitTree::Leaf { .. } => None,
            SplitTree::Branch { split_id: current, ratio, first, second, .. } => {
                if current == split_id {
                    Some(ratio)
                } else if first.ratio_spec(split_id) is Some {
                    first.ratio_spec(split_id)
                } else {
                    second.ratio_spec(split_id)
                }
            },
        }
    }

    /// Whether this layout and another are the same.
    pub fn same_as(&self, other: &SplitTree) -> (r: bool)
        ensures
            r == (*self == *other),
        decreases self,
    {
        match (self, other) {
            (SplitTree::Leaf { pane_id: left }, SplitTree::Leaf { pane_id: right }) => left.0
                == right.0,
            (
                SplitTree::Branch { split_id, axis, ratio, first, second },
                SplitTree::Branch {
                    split_id: other_id,
                    axis: other_axis,
                    ratio: other_ratio,
                    first: other_first,
                    second: other_second,
                },
            ) => split_id.0 == other_id.0 && *axis == *other_axis && ratio.numerator
                == other_ratio.numerator && ratio.denominator == other_ratio.denominator
                && first.same_as(other_first) && second.same_as(other_second),
            _ => false,
        }
    }

    /// The layout of one pane.
    pub fn leaf(pane_id: PaneId) -> (r: Self)
        ensures
            r == (SplitTree::Leaf { pane_id }),
    {
        Self::Leaf { pane_id }
    }

    /// The panes of this layout, in reading order.
    pub fn leaf_ids(&self) -> (r: Vec<PaneId>)
        ensures
            r@ == self.leaves(),
    {
        let mut ids: Vec<PaneId> = Vec::new();
        self.append_leaf_ids(&mut ids);
        assert(ids@ =~= self.leaves());
        ids
    }

    fn append_leaf_ids(&self, ids: &mut Vec<PaneId>)
        ensures
            final(ids)@ == old(ids)@ + self.leaves(),
        decreases self,
    {
        match self {
            Self::Leaf { pane_id } => {
                ids.push(*pane_id);
                assert(ids@ =~= old(ids)@ + self.leaves());
            },
            Self::Branch { first, second, .. } => {
                first.append_leaf_ids(ids);
                second.append_leaf_ids(ids);
                assert(ids@ =~= old(ids)@ + self.leaves());
            },
        }
    }

    /// Splits the first leaf of `anchor` in two: the anchor stays first, the
    /// new pane comes second. The new branch gets a fresh identifier.
    pub fn split(&mut self, anchor: PaneId, direction: SplitDirection, pane_id: PaneId) -> (r: bool)
        ensures
            r == old(self).leaves().contains(anchor),
            r ==> exists|split_id: SplitId|
                crate::domain::random_uuid(split_id.0) && *final(self) == #[trigger] old(
                    self,
                ).with_split(anchor, direction.axis_spec(), pane_id, split_id),
            !r ==> *final(self) == *old(self),
    {
        let split_id = SplitId::new();
        self.split_with(anchor, direction, pane_id, split_id)
    }

    /// Splits the first leaf of `anchor` in two, with the given identifier for
    /// the new branch.
    pub fn split_with(
        &mut self,
        anchor: PaneId,
        direction: SplitDirection,
        pane_id: PaneId,
        split_id: SplitId,
    ) -> (r: bool)
        ensures
            r == old(self).leaves().contains(anchor),
            r ==> *final(self) == old(self).with_split(
                anchor,
                direction.axis_spec(),
                pane_id,
                split_id,
            ),
            !r ==> *final(self) == *old(self),
        decreases *old(self),
    {
        match self {
            Self::Leaf { pane_id: current } => {
                let current: PaneId = *current;
                assert(old(self).leaves() =~= seq![current]);
                assert(old(self).leaves()[0] == current);
                if current == anchor {
                    *self = Self::Branch {
                        split_id,
                        axis: direction.axis(),
                        ratio: half_ratio(),
                        first: Box::new(Self::leaf(anchor)),
                        second: Box::new(Self::leaf(pane_id)),
                    };
                    true
                } else {
                    false
                }
            },
            Self::Branch { first, second, .. } => {
                proof {
                    lemma_contains_concat(first.leaves(), second.leaves(), anchor);
                }
                if first.split_with(anchor, direction, pane_id, split_id) {
                    true
                } else {
                    second.split_with(anchor, direction, pane_id, split_id)
                }
            },
        }
    }

    /// This layout without a pane, or nothing where no other pane is left.
    pub fn without(self, pane_id: PaneId) -> (r: Option<Self>)
        ensures
            r == self.lacking(pane_id),
        decreases self,
    {
        match self {
            Self::Leaf { pane_id: current } => if current != pane_id {
                Some(Self::leaf(current))
            } else {
                None
            },
            Self::Branch { split_id, axis, ratio, first, second } => {
                match ((*first).without(pane_id), (*second).without(pane_id)) {
                    (Some(first), Some(second)) => Some(
                        Self::Branch {
                            split_id,
                            axis,
                            ratio,
                            first: Box::new(first),
                            second: Box::new(second),
                        },
                    ),
                    (Some(child), None) => Some(child),
                    (None, Some(child)) => Some(child),
                    (None, None) => None,
                }
            },
        }
    }

    /// This layout with the panes for which `keep` holds, or nothing where it
    /// holds for none.
    pub fn retained<F: Fn(PaneId) -> bool + Copy>(&self, keep: F) -> (r: Option<Self>)
        requires
            forall|pane: PaneId| #[trigger] call_requires(keep, (pane,)),
        ensures
            forall|kept: spec_fn(PaneId) -> bool|
                (forall|pane: PaneId, answer: bool|
                    #[trigger] call_ensures(keep, (pane,), answer) ==> answer == kept(pane)) ==> r
                    == #[trigger] self.keeping(kept),
        decreases self,
    {
        match self {
            Self::Leaf { pane_id } => {
                let answer: bool = keep(*pane_id);
                assert(call_ensures(keep, (*pane_id,), answer));
                if answer {
                    Some(Self::leaf(*pane_id))
                } else {
                    None
                }
            },
            Self::Branch { split_id, axis, ratio, first, second } => {
                let left = first.retained(keep);
                let right = second.retained(keep);
                proof {
                    assert forall|kept: spec_fn(PaneId) -> bool|
                        (forall|pane: PaneId, answer: bool|
                            #[trigger] call_ensures(keep, (pane,), answer) ==> answer == kept(
                                pane,
                            )) implies left == (#[trigger] self.keeping(kept), first.keeping(
                        kept,
                    )).1 && right == second.keeping(kept) by {
                        assert(left == first.keeping(kept));
                        assert(right == second.keeping(kept));
                    }
                }
                match (left, right) {
                    (Some(first), Some(second)) => Some(
                        Self::Branch {
                            split_id: *split_id,
                            axis: *axis,
                            ratio: *ratio,
                            first: Box::new(first),
                            second: Box::new(second),
                        },
                    ),
                    (Some(child), None) => Some(child),
                    (None, Some(child)) => Some(child),
                    (None, None) => None,
                }
            },
        }
    }

    /// Whether no pane and no branch occurs twice and every proportion is valid.
    pub fn validate(&self) -> (r: bool)
        ensures
            r == self.valid(),
    {
        let mut seen: BTreeSet<u128> = BTreeSet::new();
        let mut splits: BTreeSet<u128> = BTreeSet::new();
        self.validate_into(&mut seen, &mut splits)
    }

    fn validate_into(&self, seen: &mut BTreeSet<u128>, splits: &mut BTreeSet<u128>) -> (r: bool)
        ensures
            r == {
                &&& self.valid()
                &&& forall|pane: PaneId| #[trigger]
                    self.leaves().contains(pane) ==> !old(seen)@.contains(pane.0)
                &&& forall|id: SplitId| #[trigger]
                    self.branches().contains(id) ==> !old(splits)@.contains(id.0)
            },
            r ==> forall|x: u128| #[trigger]
                final(seen)@.contains(x) <==> old(seen)@.contains(x) || self.leaves().contains(
                    PaneId(x),
                ),
            r ==> forall|x: u128| #[trigger]
                final(splits)@.contains(x) <==> old(splits)@.contains(x)
                    || self.branches().contains(SplitId(x)),
        decreases self,
    {
        match self {
            Self::Leaf { pane_id } => {
                assert(self.leaves() =~= seq![*pane_id]);
                assert(self.leaves()[0] == *pane_id);
                assert(self.leaves().contains(*pane_id));
                assert(self.branches() =~= Seq::<SplitId>::empty());
                assert(self.valid());
                let fresh: bool = seen.insert(pane_id.0);
                assert forall|pane: PaneId| #[trigger] self.leaves().contains(pane) implies pane
                    == *pane_id by {}
                assert(self.leaves().contains(PaneId(pane_id.0)));
                fresh
            },
            Self::Branch { split_id, ratio, first, second, .. } => {
                let ghost own = seq![*split_id];
                assert(own[0] == *split_id);
                proof {
                    assert(self.branches() =~= own + (first.branches() + second.branches()));
                    lemma_no_duplicates_concat(first.leaves(), second.leaves());
                    lemma_no_duplicates_concat(first.branches(), second.branches());
                    lemma_no_duplicates_concat(own, first.branches() + second.branches());
                    assert forall|pane: PaneId|
                        #![trigger self.leaves().contains(pane)]
                        #![trigger first.leaves().contains(pane)]
                        #![trigger second.leaves().contains(pane)]
                        self.leaves().contains(pane) == (first.leaves().contains(pane)
                            || second.leaves().contains(pane)) by {
                        lemma_contains_concat(first.leaves(), second.leaves(), pane);
                    }
                    assert forall|id: SplitId|
                        #![trigger self.branches().contains(id)]
                        #![trigger first.branches().contains(id)]
                        #![trigger second.branches().contains(id)]
                        self.branches().contains(id) == (id == *split_id
                            || first.branches().contains(id) || second.branches().contains(id)) by {
                        lemma_contains_concat(first.branches(), second.branches(), id);
                        lemma_contains_concat(own, first.branches() + second.branches(), id);
                        if own.contains(id) {
                            assert(id == *split_id);
                        }
                    }
                }
                if !splits.insert(split_id.0) {
                    assert(self.branches().contains(SplitId(split_id.0)));
                    return false;
                }
                if !ratio.is_valid() {
                    return false;
                }
                proof {
                    lemma_contains_concat(first.branches(), second.branches(), *split_id);
                    assert(own.contains(*split_id));
                }
                if !first.validate_into(seen, splits) {
                    return false;
                }
                second.validate_into(seen, splits)
            },
        }
    }

    /// Gives the first branch of that identifier a proportion, if it is valid.
    pub fn resize(&mut self, split_id: SplitId, ratio: SplitRatio) -> (r: bool)
        ensures
            r == (valid_ratio(ratio) && old(self).branches().contains(split_id)),
            r ==> *final(self) == old(self).with_ratio(split_id, ratio),
            !r ==> *final(self) == *old(self),
        decreases *old(self),
    {
        if !ratio.is_valid() {
            return false;
        }
        match self {
            Self::Leaf { .. } => false,
            Self::Branch { split_id: current, ratio: current_ratio, first, second, .. } => {
                proof {
                    lemma_branches_contain(*old(self), split_id);
                }
                if *current == split_id {
                    *current_ratio = ratio;
                    true
                } else if first.resize(split_id, ratio) {
                    true
                } else {
                    second.resize(split_id, ratio)
                }
            },
        }
    }

    /// The proportion of the first branch of that identifier.
    pub fn ratio(&self, split_id: SplitId) -> (r: Option<SplitRatio>)
        ensures
            r == self.ratio_spec(split_id),
            r is Some <==> self.branches().contains(split_id),
        decreases self,
    {
        match self {
            Self::Leaf { .. } => None,
            Self::Branch { split_id: current, ratio, first, second, .. } => {
                proof {
                    lemma_branches_contain(*self, split_id);
                }
                if *current == split_id {
                    return Some(*ratio);
                }
                match first.ratio(split_id) {
                    Some(found) => Some(found),
                    None => second.ratio(split_id),
                }
            },
        }
    }
}

proof fn lemma_branches_contain(tree: SplitTree, id: SplitId)
    ensures
        tree.branches().contains(id) == match tree {
            SplitTree::Leaf { .. } => false,
            SplitTree::Branch { split_id, first, second, .. } => id == split_id
                || first.branches().contains(id) || second.branches().contains(id),
        },
{
    match tree {
        SplitTree::Leaf { .. } => {},
        SplitTree::Branch { split_id, first, second, .. } => {
            let own = seq![split_id];
            assert(own[0] == split_id);
            lemma_contains_concat(own, first.branches(), id);
            lemma_contains_concat(own + first.branches(), second.branches(), id);
        },
    }
}

proof fn lemma_no_duplicates_concat<A>(left: Seq<A>, right: Seq<A>)
    ensures
        (left + right).no_duplicates() <==> left.no_duplicates() && right.no_duplicates() && (
        forall|x: A| !(#[trigger] left.contains(x) && right.contains(x))),
{
    let all = left + right;
    if all.no_duplicates() {
        assert forall|i: int, j: int|
            0 <= i < left.len() && 0 <= j < left.len() && i != j implies left[i] != left[j] by {
            assert(all[i] == left[i] && all[j] == left[j]);
        }
        assert forall|i: int, j: int|
            0 <= i < right.len() && 0 <= j < right.len() && i != j implies right[i] != right[j] by {
            assert(all[left.len() + i] == right[i] && all[left.len() + j] == right[j]);
        }
        assert forall|x: A| !(#[trigger] left.contains(x) && right.contains(x)) by {
            if left.contains(x) && right.contains(x) {
                let i = choose|i: int| 0 <= i < left.len() && left[i] == x;
                let j = choose|j: int| 0 <= j < right.len() && right[j] == x;
                assert(all[i] == x && all[left.len() + j] == x);
            }
        }
    }
    if left.no_duplicates() && right.no_duplicates() && (forall|x: A|
        !(#[trigger] left.contains(x) && right.contains(x))) {
        assert forall|i: int, j: int|
            0 <= i < all.len() && 0 <= j < all.len() && i != j implies all[i] != all[j] by {
            if i < left.len() && j >= left.len() {
                assert(left.contains(all[i]));
                assert(right[j - left.len()] == all[j]);
                assert(right.contains(all[j]));
            } else if j < left.len() && i >= left.len() {
                assert(left.contains(all[j]));
                assert(right[i - left.len()] == all[i]);
                assert(right.contains(all[i]));
            }
        }
    }
}

proof fn lemma_contains_concat<A>(left: Seq<A>, right: Seq<A>, x: A)
    ensures
        (left + right).contains(x) == (left.contains(x) || right.contains(x)),
{
    let all = left + right;
    if left.contains(x) {
        let i = choose|i: int| 0 <= i < left.len() && left[i] == x;
        assert(all[i] == x);
    }
    if right.contains(x) {
        let i = choose|i: int| 0 <= i < right.len() && right[i] == x;
        assert(all[left.len() + i] == x);
    }
    if all.contains(x) {
        let i = choose|i: int| 0 <= i < all.len() && all[i] == x;
        if i < left.len() {
            assert(left[i] == x);
        } else {
            assert(right[i - left.len()] == x);
        }
    }
}

/// Every layout shows a pane.
pub proof fn lemma_has_leaf(tree: SplitTree)
    ensures
        tree.leaves().len() > 0,
    decreases tree,
{
    match tree {
        SplitTree::Leaf { .. } => {},
        SplitTree::Branch { first, .. } => lemma_has_leaf(*first),
    }
}

/// A split puts the new pane directly behind the first occurrence of its anchor
/// and leaves the order of all other panes as it was.
pub proof fn law_split_goes_behind_its_anchor(
    tree: SplitTree,
    anchor: PaneId,
    axis: SplitAxis,
    pane_id: PaneId,
    split_id: SplitId,
) -> (position: int)
    requires
        tree.leaves().contains(anchor),
    ensures
        0 <= position < tree.leaves().len(),
        tree.leaves()[position] == anchor,
        forall|j: int| 0 <= j < position ==> tree.leaves()[j] != anchor,
        tree.with_split(anchor, axis, pane_id, split_id).leaves() == tree.leaves().insert(
            position + 1,
            pane_id,
        ),
    decreases tree,
{
    let after = tree.with_split(anchor, axis, pane_id, split_id);
    match tree {
        SplitTree::Leaf { pane_id: current } => {
            assert(tree.leaves() =~= seq![current]);
            reveal_with_fuel(SplitTree::leaves, 2);
            assert(after.leaves() =~= seq![anchor, pane_id]);
            assert(tree.leaves().insert(1, pane_id) =~= seq![anchor, pane_id]);
            0
        },
        SplitTree::Branch { first, second, .. } => {
            lemma_contains_concat(first.leaves(), second.leaves(), anchor);
            if first.leaves().contains(anchor) {
                let i = law_split_goes_behind_its_anchor(*first, anchor, axis, pane_id, split_id);
                assert(after.leaves() =~= tree.leaves().insert(i + 1, pane_id));
                i
            } else {
                let i = law_split_goes_behind_its_anchor(*second, anchor, axis, pane_id, split_id);
                let position = first.leaves().len() + i;
                assert forall|j: int| 0 <= j < position implies tree.leaves()[j] != anchor by {
                    if j < first.leaves().len() {
                        assert(first.leaves().contains(first.leaves()[j]));
                    } else {
                        assert(tree.leaves()[j] == second.leaves()[j - first.leaves().len()]);
                    }
                }
                assert(after.leaves() =~= tree.leaves().insert(position + 1, pane_id));
                position
            }
        },
    }
}

/// A split adds its pane and its branch to a layout, and nothing else.
pub proof fn lemma_split_members(
    tree: SplitTree,
    anchor: PaneId,
    axis: SplitAxis,
    pane_id: PaneId,
    split_id: SplitId,
)
    requires
        tree.leaves().contains(anchor),
    ensures
        forall|x: PaneId| #[trigger]
            tree.with_split(anchor, axis, pane_id, split_id).leaves().contains(x) == (
            tree.leaves().contains(x) || x == pane_id),
        forall|x: SplitId| #[trigger]
            tree.with_split(anchor, axis, pane_id, split_id).branches().contains(x) == (
            tree.branches().contains(x) || x == split_id),
    decreases tree,
{
    let after = tree.with_split(anchor, axis, pane_id, split_id);
    let i = law_split_goes_behind_its_anchor(tree, anchor, axis, pane_id, split_id);
    let before = tree.leaves();
    assert forall|x: PaneId| #[trigger] after.leaves().contains(x) == (before.contains(x) || x
        == pane_id) by {
        if before.contains(x) {
            let j = choose|j: int| 0 <= j < before.len() && before[j] == x;
            assert(after.leaves()[if j <= i {
                j
            } else {
                j + 1
            }] == x);
        }
        assert(after.leaves()[i + 1] == pane_id);
        if after.leaves().contains(x) && x != pane_id {
            let j = choose|j: int| 0 <= j < after.leaves().len() && after.leaves()[j] == x;
            assert(before[if j <= i {
                j
            } else {
                j - 1
            }] == x);
        }
    }
    match tree {
        SplitTree::Leaf { pane_id: current } => {
            assert(tree.leaves() =~= seq![current]);
            reveal_with_fuel(SplitTree::branches, 2);
            assert(after.branches() =~= seq![split_id]);
            assert(after.branches()[0] == split_id);
        },
        SplitTree::Branch { first, second, .. } => {
            lemma_contains_concat(first.leaves(), second.leaves(), anchor);
            if first.leaves().contains(anchor) {
                lemma_split_members(*first, anchor, axis, pane_id, split_id);
            } else {
                lemma_split_members(*second, anchor, axis, pane_id, split_id);
            }
            assert forall|x: SplitId| #[trigger] after.branches().contains(x) == (
            tree.branches().contains(x) || x == split_id) by {
                lemma_branches_contain(after, x);
                lemma_branches_contain(tree, x);
            }
        },
    }
}

proof fn lemma_valid_branch(tree: SplitTree)
    ensures
        tree matches SplitTree::Branch { split_id, ratio, first, second, .. } ==> (tree.valid() <==> {
            &&& valid_ratio(ratio)
            &&& first.valid()
            &&& second.valid()
            &&& forall|x: PaneId| !(#[trigger] first.leaves().contains(x) && second.leaves().contains(x))
            &&& forall|x: SplitId| !(#[trigger] first.branches().contains(x) && second.branches().contains(x))
            &&& !first.branches().contains(split_id)
            &&& !second.branches().contains(split_id)
        }),
{
    if let SplitTree::Branch { split_id, first, second, .. } = tree {
        let own = seq![split_id];
        assert(own[0] == split_id);
        let below = first.branches() + second.branches();
        assert(tree.branches() =~= own + below);
        lemma_no_duplicates_concat(first.leaves(), second.leaves());
        lemma_no_duplicates_concat(first.branches(), second.branches());
        lemma_no_duplicates_concat(own, below);
        lemma_contains_concat(first.branches(), second.branches(), split_id);
        assert(own.contains(split_id));
        assert(below.contains(split_id) ==> !(forall|x: SplitId|
            !(#[trigger] own.contains(x) && below.contains(x))));
    }
}

/// Splitting a valid layout with a pane and a branch that are new to it keeps
/// it valid.
pub proof fn law_split_keeps_a_layout_valid(
    tree: SplitTree,
    anchor: PaneId,
    axis: SplitAxis,
    pane_id: PaneId,
    split_id: SplitId,
)
    requires
        tree.valid(),
        tree.leaves().contains(anchor),
        !tree.leaves().contains(pane_id),
        !tree.branches().contains(split_id),
    ensures
        tree.with_split(anchor, axis, pane_id, split_id).valid(),
    decreases tree,
{
    let after = tree.with_split(anchor, axis, pane_id, split_id);
    lemma_valid_branch(tree);
    lemma_valid_branch(after);
    match tree {
        SplitTree::Leaf { pane_id: current } => {
            assert(tree.leaves()[0] == current);
            reveal_with_fuel(SplitTree::leaves, 2);
            reveal_with_fuel(SplitTree::branches, 2);
            reveal_with_fuel(SplitTree::ratios_valid, 2);
            assert(after.leaves() =~= seq![anchor, pane_id]);
            assert(after.branches() =~= seq![split_id]);
        },
        SplitTree::Branch { split_id: outer, first, second, .. } => {
            lemma_contains_concat(first.leaves(), second.leaves(), anchor);
            lemma_contains_concat(first.leaves(), second.leaves(), pane_id);
            lemma_branches_contain(tree, split_id);
            if first.leaves().contains(anchor) {
                law_split_keeps_a_layout_valid(*first, anchor, axis, pane_id, split_id);
                lemma_split_members(*first, anchor, axis, pane_id, split_id);
            } else {
                law_split_keeps_a_layout_valid(*second, anchor, axis, pane_id, split_id);
                lemma_split_members(*second, anchor, axis, pane_id, split_id);
            }
        },
    }
}

/// Keeping some panes leaves exactly those, in the order they had, and nothing
/// is left exactly where none is kept.
pub proof fn law_kept_panes_stay_in_order(tree: SplitTree, keep: spec_fn(PaneId) -> bool)
    ensures
        match tree.keeping(keep) {
            Some(kept) => kept.leaves() == tree.leaves().filter(keep) && kept.leaves().len() > 0,
            None => tree.leaves().filter(keep).len() == 0,
        },
    decreases tree,
{
    match tree {
        SplitTree::Leaf { pane_id } => {
            assert(tree.leaves() =~= Seq::<PaneId>::empty().push(pane_id));
            assert(tree.leaves().drop_last() =~= Seq::<PaneId>::empty());
            reveal(Seq::filter);
            assert(tree.leaves().drop_last().filter(keep) =~= Seq::<PaneId>::empty());
            if keep(pane_id) {
                assert(tree.leaves().filter(keep) =~= seq![pane_id]);
            }
        },
        SplitTree::Branch { first, second, .. } => {
            law_kept_panes_stay_in_order(*first, keep);
            law_kept_panes_stay_in_order(*second, keep);
            Seq::filter_distributes_over_add(first.leaves(), second.leaves(), keep);
            assert(first.leaves().filter(keep).len() == 0 ==> first.leaves().filter(keep)
                + second.leaves().filter(keep) =~= second.leaves().filter(keep));
            assert(second.leaves().filter(keep).len() == 0 ==> first.leaves().filter(keep)
                + second.leaves().filter(keep) =~= first.leaves().filter(keep));
        },
    }
}

/// What is kept of a valid layout is valid, and its branches are branches of
/// the layout it came from.
pub proof fn law_kept_layout_stays_valid(tree: SplitTree, keep: spec_fn(PaneId) -> bool)
    requires
        tree.valid(),
    ensures
        tree.keeping(keep) matches Some(kept) ==> {
            &&& kept.valid()
            &&& forall|x: PaneId| #[trigger]
                kept.leaves().contains(x) ==> tree.leaves().contains(x)
            &&& forall|x: SplitId| #[trigger]
                kept.branches().contains(x) ==> tree.branches().contains(x)
        },
    decreases tree,
{
    match tree {
        SplitTree::Leaf { .. } => {},
        SplitTree::Branch { split_id, first, second, .. } => {
            lemma_valid_branch(tree);
            law_kept_layout_stays_valid(*first, keep);
            law_kept_layout_stays_valid(*second, keep);
            if let Some(kept) = tree.keeping(keep) {
                lemma_valid_branch(kept);
                assert forall|x: PaneId| #[trigger]
                    kept.leaves().contains(x) implies tree.leaves().contains(x) by {
                    lemma_contains_concat(first.leaves(), second.leaves(), x);
                    if let (Some(left), Some(right)) = (
                        first.keeping(keep),
                        second.keeping(keep),
                    ) {
                        lemma_contains_concat(left.leaves(), right.leaves(), x);
                    }
                }
                assert forall|x: SplitId| #[trigger]
                    kept.branches().contains(x) implies tree.branches().contains(x) by {
                    lemma_branches_contain(tree, x);
                    lemma_branches_contain(kept, x);
                }
            }
        },
    }
}

/// Keeping every pane changes nothing.
pub proof fn law_keeping_all_is_identity(tree: SplitTree, keep: spec_fn(PaneId) -> bool)
    requires
        forall|x: PaneId| #[trigger] tree.leaves().contains(x) ==> keep(x),
    ensures
        tree.keeping(keep) == Some(tree),
    decreases tree,
{
    match tree {
        SplitTree::Leaf { pane_id } => {
            assert(tree.leaves()[0] == pane_id);
            assert(tree.leaves().contains(pane_id));
        },
        SplitTree::Branch { first, second, .. } => {
            assert forall|x: PaneId| #[trigger] first.leaves().contains(x) implies keep(x) by {
                lemma_contains_concat(first.leaves(), second.leaves(), x);
                assert(tree.leaves().contains(x));
            }
            assert forall|x: PaneId| #[trigger] second.leaves().contains(x) implies keep(x) by {
                lemma_contains_concat(first.leaves(), second.leaves(), x);
                assert(tree.leaves().contains(x));
            }
            law_keeping_all_is_identity(*first, keep);
            law_keeping_all_is_identity(*second, keep);
        },
    }
}

/// Removing the pane that a split brought in restores the layout as it was.
pub proof fn law_removal_undoes_a_split(
    tree: SplitTree,
    anchor: PaneId,
    axis: SplitAxis,
    pane_id: PaneId,
    split_id: SplitId,
)
    requires
        tree.leaves().contains(anchor),
        !tree.leaves().contains(pane_id),
    ensures
        tree.with_split(anchor, axis, pane_id, split_id).keeping(|pane: PaneId| pane != pane_id)
            == Some(tree),
    decreases tree,
{
    let keep = |pane: PaneId| pane != pane_id;
    match tree {
        SplitTree::Leaf { pane_id: current } => {
            assert(tree.leaves()[0] == current);
            assert(tree.leaves().contains(current));
            reveal_with_fuel(SplitTree::keeping, 2);
        },
        SplitTree::Branch { first, second, .. } => {
            lemma_contains_concat(first.leaves(), second.leaves(), anchor);
            lemma_contains_concat(first.leaves(), second.leaves(), pane_id);
            if first.leaves().contains(anchor) {
                law_removal_undoes_a_split(*first, anchor, axis, pane_id, split_id);
                law_keeping_all_is_identity(*second, keep);
            } else {
                law_removal_undoes_a_split(*second, anchor, axis, pane_id, split_id);
                law_keeping_all_is_identity(*first, keep);
            }
        },
    }
}

/// A resized branch reports the proportion it was given. Every other branch
/// keeps its own, and panes and branches stay where they are.
pub proof fn law_resize_is_read_back(tree: SplitTree, split_id: SplitId, ratio: SplitRatio)
    requires
        tree.branches().contains(split_id),
    ensures
        tree.with_ratio(split_id, ratio).ratio_spec(split_id) == Some(ratio),
        forall|other: SplitId|
            other != split_id ==> #[trigger] tree.with_ratio(split_id, ratio).ratio_spec(other)
                == tree.ratio_spec(other),
        tree.with_ratio(split_id, ratio).leaves() == tree.leaves(),
        tree.with_ratio(split_id, ratio).branches() == tree.branches(),
        tree.valid() && valid_ratio(ratio) ==> tree.with_ratio(split_id, ratio).valid(),
    decreases tree,
{
    lemma_branches_contain(tree, split_id);
    match tree {
        SplitTree::Leaf { .. } => {},
        SplitTree::Branch { split_id: current, first, second, .. } => {
            let after = tree.with_ratio(split_id, ratio);
            lemma_valid_branch(tree);
            lemma_valid_branch(after);
            if current != split_id {
                lemma_ratio_known(*first, split_id);
                if first.branches().contains(split_id) {
                    law_resize_is_read_back(*first, split_id, ratio);
                } else {
                    law_resize_is_read_back(*second, split_id, ratio);
                }
            }
            assert forall|other: SplitId| other != split_id implies #[trigger] after.ratio_spec(
                other,
            ) == tree.ratio_spec(other) by {
                if current != split_id {
                    if first.branches().contains(split_id) {
                        assert(first.with_ratio(split_id, ratio).ratio_spec(other)
                            == first.ratio_spec(other));
                    } else {
                        assert(second.with_ratio(split_id, ratio).ratio_spec(other)
                            == second.ratio_spec(other));
                    }
                }
            }
        },
    }
}

proof fn lemma_ratio_known(tree: SplitTree, split_id: SplitId)
    ensures
        tree.ratio_spec(split_id) is Some <==> tree.branches().contains(split_id),
    decreases tree,
{
    lemma_branches_contain(tree, split_id);
    if let SplitTree::Branch { first, second, .. } = tree {
        lemma_ratio_known(*first, split_id);
        lemma_ratio_known(*second, split_id);
    }
}

/// The first branch of that identifier, with all that is inside it.
pub open spec fn branch_of(tree: SplitTree, split_id: SplitId) -> Option<SplitTree>
    decreases tree,
{
    match tree {
        SplitTree::Leaf { .. } => None,
        SplitTree::Branch { split_id: current, first, second, .. } => if current == split_id {
            Some(tree)
        } else if branch_of(*first, split_id) is Some {
            branch_of(*first, split_id)
        } else {
            branch_of(*second, split_id)
        },
    }
}

/// Whether a layout has a branch that lies along an axis and has a proportion.
pub open spec fn lies(
    tree: SplitTree,
    split_id: SplitId,
    axis: SplitAxis,
    ratio: SplitRatio,
) -> bool {
    branch_of(tree, split_id) matches Some(
        SplitTree::Branch { axis: along, ratio: held, .. },
    ) && along == axis && held == ratio
}

/// A branch that is found has the identifier it was looked for by, and one is found
/// just where the layout has one.
proof fn lemma_branch_of(tree: SplitTree, split_id: SplitId)
    ensures
        branch_of(tree, split_id) is Some <==> tree.branches().contains(split_id),
        branch_of(tree, split_id) matches Some(found) ==> found is Branch && found->split_id
            == split_id,
    decreases tree,
{
    lemma_branches_contain(tree, split_id);
    if let SplitTree::Branch { first, second, .. } = tree {
        lemma_branch_of(*first, split_id);
        lemma_branch_of(*second, split_id);
    }
}

/// A split makes a branch of the given identifier that lies along the axis that was
/// asked for, horizontal to the right and vertical downwards, is even, and has the
/// anchor first and the new pane second. Every other branch keeps its axis and its
/// proportion.
pub proof fn law_split_makes_the_branch_asked_for(
    tree: SplitTree,
    anchor: PaneId,
    direction: SplitDirection,
    pane_id: PaneId,
    split_id: SplitId,
)
    requires
        tree.leaves().contains(anchor),
        !tree.branches().contains(split_id),
    ensures
        ({
            let after = tree.with_split(anchor, direction.axis_spec(), pane_id, split_id);
            &&& branch_of(after, split_id) == Some(
                SplitTree::Branch {
                    split_id,
                    axis: match direction {
                        SplitDirection::Right => SplitAxis::Horizontal,
                        SplitDirection::Down => SplitAxis::Vertical,
                    },
                    ratio: SplitRatio { numerator: 1, denominator: 2 },
                    first: Box::new(SplitTree::Leaf { pane_id: anchor }),
                    second: Box::new(SplitTree::Leaf { pane_id }),
                },
            )
            &&& forall|other: SplitId, axis: SplitAxis, ratio: SplitRatio|
                other != split_id ==> #[trigger] lies(after, other, axis, ratio) == lies(
                    tree,
                    other,
                    axis,
                    ratio,
                )
        }),
    decreases tree,
{
    let after = tree.with_split(anchor, direction.axis_spec(), pane_id, split_id);
    lemma_branches_contain(tree, split_id);
    match tree {
        SplitTree::Leaf { pane_id: current } => {
            assert(tree.leaves() =~= seq![current]);
            reveal_with_fuel(branch_of, 3);
        },
        SplitTree::Branch { first, second, .. } => {
            lemma_contains_concat(first.leaves(), second.leaves(), anchor);
            lemma_branch_of(*first, split_id);
            if first.leaves().contains(anchor) {
                law_split_makes_the_branch_asked_for(*first, anchor, direction, pane_id, split_id);
                let inside = first.with_split(anchor, direction.axis_spec(), pane_id, split_id);
                assert forall|other: SplitId, axis: SplitAxis, ratio: SplitRatio|
                    other != split_id implies #[trigger] lies(after, other, axis, ratio) == lies(
                    tree,
                    other,
                    axis,
                    ratio,
                ) by {
                    lemma_split_members(
                        *first,
                        anchor,
                        direction.axis_spec(),
                        pane_id,
                        split_id,
                    );
                    lemma_branch_of(*first, other);
                    lemma_branch_of(inside, other);
                    assert(inside.branches().contains(other) == first.branches().contains(other));
                    assert(lies(inside, other, axis, ratio) == lies(*first, other, axis, ratio));
                }
            } else {
                law_split_makes_the_branch_asked_for(*second, anchor, direction, pane_id, split_id);
                let inside = second.with_split(anchor, direction.axis_spec(), pane_id, split_id);
                assert forall|other: SplitId, axis: SplitAxis, ratio: SplitRatio|
                    other != split_id implies #[trigger] lies(after, other, axis, ratio) == lies(
                    tree,
                    other,
                    axis,
                    ratio,
                ) by {
                    lemma_branch_of(*second, other);
                    lemma_branch_of(inside, other);
                    assert(lies(inside, other, axis, ratio) == lies(*second, other, axis, ratio));
                }
            }
        },
    }
}

/// A branch is kept just where a pane is kept on both its sides, and a branch that is
/// kept keeps its axis and its proportion.
pub proof fn law_kept_branches_stay_as_they_were(
    tree: SplitTree,
    keep: spec_fn(PaneId) -> bool,
    split_id: SplitId,
)
    requires
        tree.valid(),
    ensures
        (tree.keeping(keep) is Some && tree.keeping(keep)->Some_0.branches().contains(split_id))
            <==> (branch_of(tree, split_id) matches Some(
            SplitTree::Branch { first, second, .. },
        ) && (exists|pane: PaneId| #[trigger] first.leaves().contains(pane) && keep(pane)) && (
        exists|pane: PaneId| #[trigger] second.leaves().contains(pane) && keep(pane))),
        tree.keeping(keep) matches Some(kept) ==> kept.branches().contains(split_id) ==> forall|
            axis: SplitAxis,
            ratio: SplitRatio,
        | #[trigger]
            lies(kept, split_id, axis, ratio) == lies(tree, split_id, axis, ratio),
    decreases tree,
{
    lemma_valid_branch(tree);
    lemma_branches_contain(tree, split_id);
    match tree {
        SplitTree::Leaf { .. } => {},
        SplitTree::Branch { split_id: current, first, second, .. } => {
            law_kept_branches_stay_as_they_were(*first, keep, split_id);
            law_kept_branches_stay_as_they_were(*second, keep, split_id);
            law_kept_layout_stays_valid(*first, keep);
            law_kept_layout_stays_valid(*second, keep);
            lemma_branch_of(*first, split_id);
            lemma_branch_of(*second, split_id);
            lemma_some_pane_kept(*first, keep);
            lemma_some_pane_kept(*second, keep);
            if let Some(kept) = tree.keeping(keep) {
                lemma_branches_contain(kept, split_id);
                lemma_branch_of(kept, split_id);
                if let Some(left) = first.keeping(keep) {
                    lemma_branch_of(left, split_id);
                }
                if let Some(right) = second.keeping(keep) {
                    lemma_branch_of(right, split_id);
                }
                if kept.branches().contains(split_id) && current != split_id {
                    assert forall|axis: SplitAxis, ratio: SplitRatio| #[trigger]
                        lies(kept, split_id, axis, ratio) == lies(tree, split_id, axis, ratio) by {
                        if let Some(left) = first.keeping(keep) {
                            assert(left.branches().contains(split_id) ==> lies(
                                left,
                                split_id,
                                axis,
                                ratio,
                            ) == lies(*first, split_id, axis, ratio));
                        }
                        if let Some(right) = second.keeping(keep) {
                            assert(right.branches().contains(split_id) ==> lies(
                                right,
                                split_id,
                                axis,
                                ratio,
                            ) == lies(*second, split_id, axis, ratio));
                        }
                    }
                }
            }
        },
    }
}

/// Something is left of a layout just where one of its panes is kept.
proof fn lemma_some_pane_kept(tree: SplitTree, keep: spec_fn(PaneId) -> bool)
    ensures
        tree.keeping(keep) is Some <==> exists|pane: PaneId| #[trigger]
            tree.leaves().contains(pane) && keep(pane),
    decreases tree,
{
    match tree {
        SplitTree::Leaf { pane_id } => {
            assert(tree.leaves()[0] == pane_id);
            assert(tree.leaves().contains(pane_id));
        },
        SplitTree::Branch { first, second, .. } => {
            lemma_some_pane_kept(*first, keep);
            lemma_some_pane_kept(*second, keep);
            if tree.keeping(keep) is Some {
                if first.keeping(keep) is Some {
                    let pane = choose|pane: PaneId| #[trigger]
                        first.leaves().contains(pane) && keep(pane);
                    lemma_contains_concat(first.leaves(), second.leaves(), pane);
                    assert(tree.leaves().contains(pane) && keep(pane));
                } else {
                    let pane = choose|pane: PaneId| #[trigger]
                        second.leaves().contains(pane) && keep(pane);
                    lemma_contains_concat(first.leaves(), second.leaves(), pane);
                    assert(tree.leaves().contains(pane) && keep(pane));
                }
            }
            if exists|pane: PaneId| #[trigger] tree.leaves().contains(pane) && keep(pane) {
                let pane = choose|pane: PaneId| #[trigger]
                    tree.leaves().contains(pane) && keep(pane);
                lemma_contains_concat(first.leaves(), second.leaves(), pane);
                assert(first.leaves().contains(pane) || second.leaves().contains(pane));
            }
        },
    }
}

/// A resize changes the proportion of the one branch and nothing else of a layout:
/// the branch keeps its axis, and every other one its axis and its proportion.
pub proof fn law_resize_changes_one_proportion(
    tree: SplitTree,
    split_id: SplitId,
    ratio: SplitRatio,
    other: SplitId,
    axis: SplitAxis,
    held: SplitRatio,
)
    requires
        tree.branches().contains(split_id),
        lies(tree, other, axis, held),
    ensures
        lies(
            tree.with_ratio(split_id, ratio),
            other,
            axis,
            if other == split_id {
                ratio
            } else {
                held
            },
        ),
    decreases tree,
{
    lemma_branches_contain(tree, split_id);
    if let SplitTree::Branch { split_id: current, first, second, .. } = tree {
        if current != split_id && current != other {
            lemma_branch_of(*first, other);
            lemma_branch_of(*first, split_id);
            if first.branches().contains(split_id) {
                law_resize_is_read_back(*first, split_id, ratio);
                lemma_branch_of(first.with_ratio(split_id, ratio), other);
                if lies(*first, other, axis, held) {
                    law_resize_changes_one_proportion(*first, split_id, ratio, other, axis, held);
                }
            } else if lies(*second, other, axis, held) {
                law_resize_changes_one_proportion(*second, split_id, ratio, other, axis, held);
            }
        }
    }
}

/// The first side of a branch gets its proportion of the cells, rounded down, and
/// never all of them. A proportion that leaves a side nothing gives it none.
pub proof fn law_first_side_gets_its_part(ratio: SplitRatio, available: u16)
    ensures
        0 < ratio.numerator && ratio.numerator < ratio.denominator ==> {
            let cells = first_cells_spec(ratio, available);
            &&& 0 <= cells
            &&& available > 0 ==> cells < available
            &&& cells * ratio.denominator <= available * ratio.numerator
            &&& available * ratio.numerator < (cells + 1) * ratio.denominator
        },
        !(0 < ratio.numerator && ratio.numerator < ratio.denominator) ==> first_cells_spec(
            ratio,
            available,
        ) == 0,
{
    if valid_ratio(ratio) {
        let a = available as int;
        let n = ratio.numerator as int;
        let d = ratio.denominator as int;
        let cells = (a * n) / d;
        assert(0 <= cells && cells * d <= a * n && a * n < (cells + 1) * d) by (nonlinear_arith)
            requires
                a >= 0,
                0 < n < d,
                cells == (a * n) / d,
        ;
        assert(a > 0 ==> cells < a) by (nonlinear_arith)
            requires
                cells * d <= a * n,
                0 < n < d,
                a >= 0,
        ;
    }
}

/// What is kept of a layout depends only on which panes are.
pub proof fn lemma_kept_alike(
    tree: SplitTree,
    keep: spec_fn(PaneId) -> bool,
    other: spec_fn(PaneId) -> bool,
)
    requires
        forall|pane: PaneId| #[trigger] keep(pane) == other(pane),
    ensures
        tree.keeping(keep) == tree.keeping(other),
    decreases tree,
{
    match tree {
        SplitTree::Leaf { pane_id } => {
            assert(keep(pane_id) == other(pane_id));
        },
        SplitTree::Branch { first, second, .. } => {
            lemma_kept_alike(*first, keep, other);
            lemma_kept_alike(*second, keep, other);
        },
    }
}

/// A layout that loses a pane keeps all others, in their order, and is gone just where it
/// had no other. `others` tells the others.
pub proof fn law_lost_pane_leaves_the_others(
    tree: SplitTree,
    pane_id: PaneId,
    others: spec_fn(PaneId) -> bool,
)
    requires
        forall|pane: PaneId| #[trigger] others(pane) == (pane != pane_id),
    ensures
        match tree.lacking(pane_id) {
            Some(rest) => rest.leaves() == tree.leaves().filter(others) && rest.leaves().len() > 0,
            None => tree.leaves().filter(others).len() == 0,
        },
{
    law_kept_panes_stay_in_order(tree, others);
    lemma_kept_alike(tree, others, all_but(pane_id));
}

/// To lose the pane that a split brought in is to undo the split.
pub proof fn law_losing_a_new_pane_undoes_its_split(
    tree: SplitTree,
    anchor: PaneId,
    axis: SplitAxis,
    pane_id: PaneId,
    split_id: SplitId,
)
    requires
        tree.leaves().contains(anchor),
        !tree.leaves().contains(pane_id),
    ensures
        tree.with_split(anchor, axis, pane_id, split_id).lacking(pane_id) == Some(tree),
{
    let keep = |pane: PaneId| pane != pane_id;
    law_removal_undoes_a_split(tree, anchor, axis, pane_id, split_id);
    lemma_kept_alike(
        tree.with_split(anchor, axis, pane_id, split_id),
        keep,
        all_but(pane_id),
    );
}

} // verus!
