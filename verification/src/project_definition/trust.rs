//! Which recipes of repositories the user has approved.

use vstd::prelude::*;
use vstd::multiset::Multiset;

use crate::digests::{self, digest_text, is_digest};
use crate::paths::{self, PathText};
use crate::project_definition::{self, messages, RecipeFileFault, WorkspaceRecipe};
use crate::text;

verus! {

pub const MAX_TRUST_STORE_BYTES: u64 = 1024 * 1024;

pub const MAX_TRUSTED_RECIPES: usize = 4_096;

pub const TRUST_STORE_VERSION: u8 = 1;

/// A recipe that was approved: where it is, and the digest of its bytes.
#[derive(Debug, PartialEq, Eq)]
pub struct TrustedRecipe {
    pub path: String,
    pub sha256: String,
}

/// The recipes that were approved.
#[derive(Debug, PartialEq, Eq)]
pub struct TrustStore {
    pub version: u8,
    pub recipes: Vec<TrustedRecipe>,
}

/// A recipe that was approved.
pub ghost struct Approval {
    pub path: Seq<char>,
    pub sha256: Seq<char>,
}

impl View for TrustedRecipe {
    type V = Approval;

    open spec fn view(&self) -> Approval {
        Approval { path: self.path@, sha256: self.sha256@ }
    }
}

/// What some approvals say.
pub open spec fn approvals(list: Seq<TrustedRecipe>) -> Seq<Approval> {
    list.map_values(|recipe: TrustedRecipe| recipe@)
}

/// Whether a recipe with given bytes is approved.
pub open spec fn approved(list: Seq<Approval>, path: Seq<char>, digest: Seq<char>) -> bool {
    exists|i: int|
        0 <= i < list.len() && (#[trigger] list[i]).path == path && list[i].sha256 == digest
}

/// Why a store of approvals is refused.
#[derive(Clone, Copy, Debug, PartialEq, Eq, Structural)]
pub enum TrustStoreFault {
    Version { found: u8 },
    TooMany,
    NotAbsolute,
    Duplicate { index: usize },
    Digest,
}

/// Whether one of the first approvals is of a path.
pub open spec fn path_used(list: Seq<Approval>, count: int, path: Seq<char>) -> bool {
    exists|k: int| 0 <= k < count && k < list.len() && (#[trigger] list[k]).path == path
}

/// Why an approval is refused.
pub open spec fn approval_fault(list: Seq<Approval>, i: int) -> Option<TrustStoreFault> {
    if !paths::absolute(text::bytes_of(list[i].path)) {
        Some(TrustStoreFault::NotAbsolute)
    } else if path_used(list, i, list[i].path) {
        Some(TrustStoreFault::Duplicate { index: i as usize })
    } else if !digests::valid_digest(list[i].sha256) {
        Some(TrustStoreFault::Digest)
    } else {
        None
    }
}

/// The first fault of some approvals.
pub open spec fn approvals_fault(list: Seq<Approval>, from: int) -> Option<TrustStoreFault>
    decreases list.len() - from,
{
    if from < 0 || from >= list.len() {
        None
    } else if approval_fault(list, from) is Some {
        approval_fault(list, from)
    } else {
        approvals_fault(list, from + 1)
    }
}

/// Why a store of approvals is refused.
pub open spec fn store_fault(version: u8, list: Seq<Approval>) -> Option<TrustStoreFault> {
    if version != TRUST_STORE_VERSION {
        Some(TrustStoreFault::Version { found: version })
    } else if list.len() > MAX_TRUSTED_RECIPES {
        Some(TrustStoreFault::TooMany)
    } else {
        approvals_fault(list, 0)
    }
}

fn path_repeats(list: &Vec<TrustedRecipe>, count: usize) -> (r: bool)
    requires
        count < list@.len(),
    ensures
        r == path_used(approvals(list@), count as int, list@[count as int].path@),
{
    let ghost all = approvals(list@);
    let mut k: usize = 0;
    while k < count
        invariant
            k <= count < list@.len(),
            all == approvals(list@),
            forall|m: int| 0 <= m < k ==> (#[trigger] all[m]).path != list@[count as int].path@,
        decreases count - k,
    {
        assert(all[k as int] == list@[k as int]@);
        if list[k].path == list[count].path {
            assert(all[k as int].path == list@[count as int].path@);
            return true;
        }
        k += 1;
    }
    false
}

fn is_absolute_text(path: &str) -> (r: bool)
    ensures
        r == paths::absolute(text::bytes_of(path@)),
{
    let bytes = path.as_bytes();
    bytes.len() > 0 && bytes[0] == paths::SEPARATOR
}

/// Why a store of approvals is refused: it must be of this version, not too
/// large, and hold each recipe once, by its absolute path, with a digest.
pub fn validate_trust_store(store: &TrustStore) -> (r: Option<TrustStoreFault>)
    ensures
        r == store_fault(store.version, approvals(store.recipes@)),
        r matches Some(TrustStoreFault::Duplicate { index }) ==> index < store.recipes@.len(),
{
    let ghost all = approvals(store.recipes@);
    assert(all.len() == store.recipes@.len());
    if store.version != TRUST_STORE_VERSION {
        return Some(TrustStoreFault::Version { found: store.version });
    }
    if store.recipes.len() > MAX_TRUSTED_RECIPES {
        return Some(TrustStoreFault::TooMany);
    }
    let mut i: usize = 0;
    while i < store.recipes.len()
        invariant
            i <= store.recipes.len(),
            all == approvals(store.recipes@),
            all.len() == store.recipes@.len(),
            approvals_fault(all, 0) == approvals_fault(all, i as int),
            store.version == TRUST_STORE_VERSION,
            store.recipes.len() <= MAX_TRUSTED_RECIPES,
        decreases store.recipes.len() - i,
    {
        assert(all[i as int] == store.recipes@[i as int]@);
        if !is_absolute_text(store.recipes[i].path.as_str()) {
            return Some(TrustStoreFault::NotAbsolute);
        }
        if path_repeats(&store.recipes, i) {
            return Some(TrustStoreFault::Duplicate { index: i });
        }
        if !is_digest(store.recipes[i].sha256.as_str()) {
            return Some(TrustStoreFault::Digest);
        }
        i += 1;
    }
    None
}

/// Whether approvals are in the order of their paths.
pub open spec fn in_order(list: Seq<Approval>) -> bool {
    forall|i: int, j: int|
        0 <= i < j < list.len() ==> text::not_after(
            text::bytes_of((#[trigger] list[i]).path),
            text::bytes_of((#[trigger] list[j]).path),
        )
}

/// Puts an approval in its place among approvals that are in order.
fn insert_in_order(list: Vec<TrustedRecipe>, recipe: TrustedRecipe) -> (r: Vec<TrustedRecipe>)
    requires
        in_order(approvals(list@)),
    ensures
        in_order(approvals(r@)),
        r@.to_multiset() == list@.to_multiset().insert(recipe),
        r@.len() == list@.len() + 1,
{
    broadcast use vstd::seq_lib::group_to_multiset_ensures;

    let mut list = list;
    let ghost before = list@;
    let ghost all = approvals(before);
    let mut i: usize = 0;
    while i < list.len() && text::comes_not_after(list[i].path.as_str(), recipe.path.as_str())
        invariant
            i <= list.len(),
            list@ == before,
            all == approvals(before),
            forall|k: int|
                0 <= k < i ==> text::not_after(
                    text::bytes_of((#[trigger] all[k]).path),
                    text::bytes_of(recipe.path@),
                ),
        decreases list.len() - i,
    {
        assert(all[i as int] == before[i as int]@);
        i += 1;
    }
    proof {
        if i < before.len() {
            assert(all[i as int] == before[i as int]@);
            text::lemma_order_is_total(
                text::bytes_of(all[i as int].path),
                text::bytes_of(recipe.path@),
            );
        }
    }
    list.insert(i, recipe);
    proof {
        let after = approvals(list@);
        assert(list@ == before.insert(i as int, recipe));
        assert forall|a: int, b: int| 0 <= a < b < after.len() implies text::not_after(
            text::bytes_of((#[trigger] after[a]).path),
            text::bytes_of((#[trigger] after[b]).path),
        ) by {
            let x = if a < i {
                a
            } else {
                a - 1
            };
            let y = if b < i {
                b
            } else {
                b - 1
            };
            if a != i && b != i {
                assert(after[a] == all[x] && after[b] == all[y]);
            } else if b == i {
                assert(after[a] == all[a]);
            } else {
                assert(after[b] == all[b - 1]);
                if b - 1 > i {
                    assert(text::not_after(
                        text::bytes_of(all[i as int].path),
                        text::bytes_of(all[b - 1].path),
                    ));
                    text::lemma_order_is_transitive(
                        text::bytes_of(recipe.path@),
                        text::bytes_of(all[i as int].path),
                        text::bytes_of(all[b - 1].path),
                    );
                }
            }
        }
        before.to_multiset_ensures();
        text::lemma_insert_multiset(before, i as int, recipe);
    }
    list
}

/// Puts approvals in the order of their paths.
pub fn sort_approvals(list: Vec<TrustedRecipe>) -> (r: Vec<TrustedRecipe>)
    ensures
        in_order(approvals(r@)),
        r@.to_multiset() == list@.to_multiset(),
        r@.len() == list@.len(),
{
    broadcast use vstd::seq_lib::group_to_multiset_ensures;

    let mut rest = list;
    let ghost all = rest@;
    let mut out: Vec<TrustedRecipe> = Vec::new();
    assert(out@.to_multiset().add(rest@.to_multiset()) =~= all.to_multiset());
    while rest.len() > 0
        invariant
            in_order(approvals(out@)),
            out@.to_multiset().add(rest@.to_multiset()) == all.to_multiset(),
            out@.len() + rest@.len() == all.len(),
        decreases rest.len(),
    {
        let ghost done = out@;
        let ghost left = rest@;
        let recipe = rest.pop().unwrap();
        proof {
            assert(rest@ =~= left.drop_last());
            assert(left =~= rest@.push(recipe));
            rest@.to_multiset_ensures();
            assert(left.to_multiset() =~= rest@.to_multiset().insert(recipe));
        }
        out = insert_in_order(out, recipe);
        assert(out@.to_multiset().add(rest@.to_multiset()) =~= done.to_multiset().add(
            left.to_multiset(),
        ));
    }
    assert(rest@.to_multiset() =~= Multiset::<TrustedRecipe>::empty()) by {
        assert(rest@ =~= Seq::<TrustedRecipe>::empty());
    }
    assert(out@.to_multiset() =~= all.to_multiset());
    out
}

/// What became of the approval of a recipe.
#[derive(Debug, PartialEq, Eq)]
pub struct RecipeTrustChange {
    pub source: PathText,
    pub digest: Option<String>,
    pub changed: bool,
    pub trusted: bool,
    pub inherently_trusted: bool,
}

/// The approvals without those of a path.
pub open spec fn without_path(list: Seq<Approval>, path: Seq<char>) -> Seq<Approval>
    decreases list.len(),
{
    if list.len() == 0 {
        Seq::empty()
    } else {
        let before = without_path(list.drop_last(), path);
        if list.last().path == path {
            before
        } else {
            before.push(list.last())
        }
    }
}

impl TrustStore {
    /// A store without approvals.
    pub fn empty() -> (r: Self)
        ensures
            r.version == TRUST_STORE_VERSION,
            r.recipes@ == Seq::<TrustedRecipe>::empty(),
            store_fault(r.version, approvals(r.recipes@)) is None,
    {
        let r = TrustStore { version: TRUST_STORE_VERSION, recipes: Vec::new() };
        assert(approvals(r.recipes@) =~= Seq::<Approval>::empty());
        r
    }

    /// Whether a recipe with given bytes is approved.
    pub fn trusted(&self, path: &str, digest: &str) -> (r: bool)
        ensures
            r == approved(approvals(self.recipes@), path@, digest@),
    {
        let ghost all = approvals(self.recipes@);
        let mut i: usize = 0;
        while i < self.recipes.len()
            invariant
                i <= self.recipes.len(),
                all == approvals(self.recipes@),
                all.len() == self.recipes@.len(),
                forall|k: int|
                    0 <= k < i ==> (#[trigger] all[k]).path != path@ || all[k].sha256 != digest@,
            decreases self.recipes.len() - i,
        {
            assert(all[i as int] == self.recipes@[i as int]@);
            if text::same_text(self.recipes[i].path.as_str(), path) && text::same_text(
                self.recipes[i].sha256.as_str(),
                digest,
            ) {
                assert(all[i as int].path == path@ && all[i as int].sha256 == digest@);
                return true;
            }
            i += 1;
        }
        false
    }

    fn position(&self, path: &str) -> (r: Option<usize>)
        ensures
            r matches Some(i) ==> i < self.recipes@.len() && approvals(self.recipes@)[i as int].path
                == path@,
            r is None ==> forall|k: int|
                0 <= k < self.recipes@.len() ==> (#[trigger] approvals(self.recipes@)[k]).path
                    != path@,
    {
        let ghost all = approvals(self.recipes@);
        let mut i: usize = 0;
        while i < self.recipes.len()
            invariant
                i <= self.recipes.len(),
                all == approvals(self.recipes@),
                forall|k: int| 0 <= k < i ==> (#[trigger] all[k]).path != path@,
            decreases self.recipes.len() - i,
        {
            assert(all[i as int] == self.recipes@[i as int]@);
            if text::same_text(self.recipes[i].path.as_str(), path) {
                return Some(i);
            }
            i += 1;
        }
        None
    }

    /// Approves a recipe with given bytes, and says whether that changed
    /// anything. An earlier approval of the recipe is replaced. Fails where
    /// there are too many.
    pub fn approve(&mut self, path: String, digest: String) -> (r: Option<bool>)
        requires
            store_fault(old(self).version, approvals(old(self).recipes@)) is None,
            paths::absolute(text::bytes_of(path@)),
            digests::valid_digest(digest@),
        ensures
            final(self).version == old(self).version,
            trust_told(approvals(old(self).recipes@), path@, digest@, approvals(final(self).recipes@), r),
            r is Some ==> store_fault(final(self).version, approvals(final(self).recipes@)) is None,
    {
        let ghost before = approvals(self.recipes@);
        proof {
            lemma_store_sound(self.version, before);
        }
        match self.position(path.as_str()) {
            Some(i) => {
                if self.recipes[i].sha256 == digest {
                    assert(approvals(self.recipes@)[i as int] == self.recipes@[i as int]@);
                    return Some(false);
                }
                let ghost list = self.recipes@;
                let mut recipes: Vec<TrustedRecipe> = Vec::new();
                std::mem::swap(&mut recipes, &mut self.recipes);
                let ghost changed = TrustedRecipe { path, sha256: digest };
                let _ = recipes.remove(i);
                recipes.push(TrustedRecipe { path, sha256: digest });
                let ghost unsorted = recipes@;
                let sorted = sort_approvals(recipes);
                self.recipes = sorted;
                proof {
                    lemma_replaced(list, i as int, changed, unsorted, self.recipes@, self.version);
                }
                Some(true)
            },
            None => {
                if self.recipes.len() >= MAX_TRUSTED_RECIPES {
                    return None;
                }
                let ghost list = self.recipes@;
                let mut recipes: Vec<TrustedRecipe> = Vec::new();
                std::mem::swap(&mut recipes, &mut self.recipes);
                let ghost added = TrustedRecipe { path, sha256: digest };
                recipes.push(TrustedRecipe { path, sha256: digest });
                let ghost unsorted = recipes@;
                let sorted = sort_approvals(recipes);
                self.recipes = sorted;
                proof {
                    lemma_added(list, added, unsorted, self.recipes@, self.version);
                }
                Some(true)
            },
        }
    }

    /// Takes the approval of a recipe back, and tells its digest if there was
    /// one.
    pub fn revoke(&mut self, path: &str) -> (r: Option<String>)
        requires
            store_fault(old(self).version, approvals(old(self).recipes@)) is None,
        ensures
            final(self).version == old(self).version,
            approvals(final(self).recipes@) == without_path(approvals(old(self).recipes@), path@),
            match r {
                Some(digest) => approved(approvals(old(self).recipes@), path@, digest@),
                None => forall|k: int|
                    0 <= k < old(self).recipes@.len() ==> (#[trigger] approvals(
                        old(self).recipes@,
                    )[k]).path != path@,
            },
    {
        let ghost all = approvals(self.recipes@);
        let mut recipes: Vec<TrustedRecipe> = Vec::new();
        std::mem::swap(&mut recipes, &mut self.recipes);
        let ghost list = recipes@;
        let mut kept: Vec<TrustedRecipe> = Vec::new();
        let mut removed: Option<String> = None;
        let ghost mut count: int = 0;
        assert(all.take(0) =~= Seq::<Approval>::empty());
        assert(approvals(kept@) =~= Seq::<Approval>::empty());
        assert(recipes@ =~= list.skip(0));
        while recipes.len() > 0
            invariant
                0 <= count <= list.len(),
                recipes@ == list.skip(count),
                all == approvals(list),
                all.len() == list.len(),
                approvals(kept@) == without_path(all.take(count), path@),
                match removed {
                    Some(digest) => approved(all, path@, digest@),
                    None => forall|k: int| 0 <= k < count ==> (#[trigger] all[k]).path != path@,
                },
            decreases recipes.len(),
        {
            let recipe = recipes.remove(0);
            proof {
                assert(recipe == list[count]);
                assert(all[count] == recipe@);
                assert(recipes@ =~= list.skip(count + 1));
                assert(all.take(count + 1).drop_last() =~= all.take(count));
                assert(all.take(count + 1).last() == all[count]);
            }
            if text::same_text(recipe.path.as_str(), path) {
                assert(all[count].path == path@ && all[count].sha256 == recipe.sha256@);
                removed = Some(recipe.sha256);
            } else {
                let ghost before = kept@;
                kept.push(recipe);
                assert(approvals(kept@) =~= approvals(before).push(recipe@));
            }
            proof {
                count = count + 1;
            }
        }
        assert(all.take(count) =~= all);
        self.recipes = kept;
        removed
    }
}

/// What approving a recipe leads to.
pub open spec fn trust_told(
    before: Seq<Approval>,
    path: Seq<char>,
    digest: Seq<char>,
    after: Seq<Approval>,
    r: Option<bool>,
) -> bool {
    let known = path_used(before, before.len() as int, path);
    if !known && before.len() >= MAX_TRUSTED_RECIPES {
        r is None && after == before
    } else if approved(before, path, digest) {
        r == Some(false) && after == before
    } else {
        &&& r == Some(true)
        &&& in_order(after)
        &&& forall|a: Approval| #[trigger]
            after.contains(a) <==> (a.path == path && a.sha256 == digest) || (a.path != path
                && before.contains(a))
        &&& after.len() == if known {
            before.len()
        } else {
            before.len() + 1
        }
    }
}

proof fn lemma_store_sound(version: u8, list: Seq<Approval>)
    requires
        store_fault(version, list) is None,
    ensures
        list.len() <= MAX_TRUSTED_RECIPES,
        forall|i: int| 0 <= i < list.len() ==> approval_fault(list, i) is None,
        forall|i: int, j: int|
            0 <= i < list.len() && 0 <= j < list.len() && i != j ==> (#[trigger] list[i]).path != (
            #[trigger] list[j]).path,
{
    assert forall|i: int| 0 <= i < list.len() implies approval_fault(list, i) is None by {
        lemma_approval_faultless(list, 0, i);
    }
    assert forall|i: int, j: int|
        0 <= i < list.len() && 0 <= j < list.len() && i != j implies (#[trigger] list[i]).path != (
    #[trigger] list[j]).path by {
        lemma_approval_faultless(list, 0, i);
        lemma_approval_faultless(list, 0, j);
        if list[i].path == list[j].path {
            if i < j {
                assert(path_used(list, j, list[j].path));
            } else {
                assert(path_used(list, i, list[i].path));
            }
        }
    }
}

proof fn lemma_approval_faultless(list: Seq<Approval>, from: int, i: int)
    requires
        0 <= from <= i < list.len(),
        approvals_fault(list, from) is None,
    ensures
        approval_fault(list, i) is None,
    decreases i - from,
{
    if from < i {
        lemma_approval_faultless(list, from + 1, i);
    }
}

proof fn lemma_sound_store(version: u8, list: Seq<Approval>, from: int)
    requires
        0 <= from <= list.len(),
        forall|i: int| 0 <= i < list.len() ==> approval_fault(list, i) is None,
    ensures
        approvals_fault(list, from) is None,
    decreases list.len() - from,
{
    if from < list.len() {
        assert(approval_fault(list, from) is None);
        lemma_sound_store(version, list, from + 1);
    }
}

/// Lists of the same approvals hold the same approvals.
proof fn lemma_same_members(left: Seq<TrustedRecipe>, right: Seq<TrustedRecipe>)
    requires
        left.to_multiset() == right.to_multiset(),
    ensures
        left.len() == right.len(),
        forall|r: TrustedRecipe| #[trigger] left.contains(r) <==> right.contains(r),
{
    broadcast use vstd::seq_lib::group_to_multiset_ensures;

    left.to_multiset_ensures();
    right.to_multiset_ensures();
    assert forall|r: TrustedRecipe| #[trigger] left.contains(r) <==> right.contains(r) by {
        assert(left.contains(r) <==> left.to_multiset().count(r) > 0);
        assert(right.contains(r) <==> right.to_multiset().count(r) > 0);
    }
}

/// Sorting a list whose paths differ gives a list whose paths differ.
proof fn lemma_sorted_paths_differ(unsorted: Seq<TrustedRecipe>, sorted: Seq<TrustedRecipe>)
    requires
        unsorted.to_multiset() == sorted.to_multiset(),
        forall|i: int, j: int|
            0 <= i < unsorted.len() && 0 <= j < unsorted.len() && i != j ==> (
            #[trigger] unsorted[i])@.path != (#[trigger] unsorted[j])@.path,
    ensures
        forall|i: int, j: int|
            0 <= i < sorted.len() && 0 <= j < sorted.len() && i != j ==> (#[trigger] sorted[i])@.path
                != (#[trigger] sorted[j])@.path,
{
    broadcast use vstd::seq_lib::group_to_multiset_ensures;

    lemma_same_members(unsorted, sorted);
    assert(unsorted.no_duplicates()) by {
        assert forall|i: int, j: int|
            0 <= i < unsorted.len() && 0 <= j < unsorted.len() && i != j implies unsorted[i]
            != unsorted[j] by {
            assert(unsorted[i]@.path != unsorted[j]@.path);
        }
    }
    unsorted.lemma_multiset_has_no_duplicates();
    sorted.lemma_multiset_has_no_duplicates_conv();
    assert forall|i: int, j: int|
        0 <= i < sorted.len() && 0 <= j < sorted.len() && i != j implies (#[trigger] sorted[i])@.path
        != (#[trigger] sorted[j])@.path by {
        assert(sorted.contains(sorted[i]) && sorted.contains(sorted[j]));
        assert(unsorted.contains(sorted[i]) && unsorted.contains(sorted[j]));
        let a = choose|a: int| 0 <= a < unsorted.len() && unsorted[a] == sorted[i];
        let b = choose|b: int| 0 <= b < unsorted.len() && unsorted[b] == sorted[j];
        assert(sorted[i] != sorted[j]);
        assert(a != b);
        assert(unsorted[a]@.path != unsorted[b]@.path);
    }
}

proof fn lemma_sorted_store(
    list: Seq<TrustedRecipe>,
    changed: TrustedRecipe,
    unsorted: Seq<TrustedRecipe>,
    sorted: Seq<TrustedRecipe>,
    version: u8,
)
    requires
        version == TRUST_STORE_VERSION,
        unsorted.to_multiset() == sorted.to_multiset(),
        unsorted.len() <= MAX_TRUSTED_RECIPES,
        forall|i: int, j: int|
            0 <= i < unsorted.len() && 0 <= j < unsorted.len() && i != j ==> (
            #[trigger] unsorted[i])@.path != (#[trigger] unsorted[j])@.path,
        forall|i: int|
            0 <= i < unsorted.len() ==> paths::absolute(
                text::bytes_of((#[trigger] unsorted[i])@.path),
            ) && digests::valid_digest(unsorted[i]@.sha256),
    ensures
        store_fault(version, approvals(sorted)) is None,
        forall|a: Approval| #[trigger]
            approvals(sorted).contains(a) <==> approvals(unsorted).contains(a),
        approvals(sorted).len() == approvals(unsorted).len(),
{
    lemma_same_members(unsorted, sorted);
    lemma_sorted_paths_differ(unsorted, sorted);
    let all = approvals(sorted);
    let some = approvals(unsorted);
    assert forall|i: int| 0 <= i < all.len() implies approval_fault(all, i) is None by {
        assert(sorted.contains(sorted[i]));
        assert(unsorted.contains(sorted[i]));
        let a = choose|a: int| 0 <= a < unsorted.len() && unsorted[a] == sorted[i];
        assert(unsorted[a] == sorted[i]);
        assert(all[i] == sorted[i]@);
        if path_used(all, i, all[i].path) {
            let k = choose|k: int| 0 <= k < i && k < all.len() && (#[trigger] all[k]).path
                == all[i].path;
            assert(all[k] == sorted[k]@);
            assert(sorted[k]@.path != sorted[i]@.path);
        }
    }
    lemma_sound_store(version, all, 0);
    assert forall|a: Approval| #[trigger] all.contains(a) <==> some.contains(a) by {
        if all.contains(a) {
            let i = choose|i: int| 0 <= i < all.len() && all[i] == a;
            assert(sorted.contains(sorted[i]));
            assert(unsorted.contains(sorted[i]));
            let k = choose|k: int| 0 <= k < unsorted.len() && unsorted[k] == sorted[i];
            assert(some[k] == a);
        }
        if some.contains(a) {
            let i = choose|i: int| 0 <= i < some.len() && some[i] == a;
            assert(unsorted.contains(unsorted[i]));
            let k = choose|k: int| 0 <= k < sorted.len() && sorted[k] == unsorted[i];
            assert(all[k] == a);
        }
    }
}

proof fn lemma_replaced(
    list: Seq<TrustedRecipe>,
    index: int,
    changed: TrustedRecipe,
    unsorted: Seq<TrustedRecipe>,
    sorted: Seq<TrustedRecipe>,
    version: u8,
)
    requires
        store_fault(version, approvals(list)) is None,
        0 <= index < list.len(),
        list[index].path@ == changed.path@,
        list[index].sha256@ != changed.sha256@,
        unsorted == list.remove(index).push(changed),
        unsorted.to_multiset() == sorted.to_multiset(),
        in_order(approvals(sorted)),
        paths::absolute(text::bytes_of(changed.path@)),
        digests::valid_digest(changed.sha256@),
    ensures
        store_fault(version, approvals(sorted)) is None,
        trust_told(
            approvals(list),
            changed.path@,
            changed.sha256@,
            approvals(sorted),
            Some(true),
        ),
{
    let before = approvals(list);
    let some = approvals(unsorted);
    lemma_store_sound(version, before);
    assert(before[index] == list[index]@);
    assert(path_used(before, before.len() as int, changed.path@));
    let old_at = |i: int| if i < index {
        i
    } else {
        i + 1
    };
    assert forall|i: int| 0 <= i < unsorted.len() implies paths::absolute(
        text::bytes_of((#[trigger] unsorted[i])@.path),
    ) && digests::valid_digest(unsorted[i]@.sha256) by {
        if i < list.len() - 1 {
            assert(unsorted[i] == list[old_at(i)]);
            assert(before[old_at(i)] == list[old_at(i)]@);
            assert(approval_fault(before, old_at(i)) is None);
        }
    }
    assert forall|i: int, j: int|
        0 <= i < unsorted.len() && 0 <= j < unsorted.len() && i != j implies (
    #[trigger] unsorted[i])@.path != (#[trigger] unsorted[j])@.path by {
        let x = if i < list.len() - 1 {
            old_at(i)
        } else {
            index
        };
        let y = if j < list.len() - 1 {
            old_at(j)
        } else {
            index
        };
        assert(before[x] == list[x]@ && before[y] == list[y]@);
        assert(unsorted[i]@.path == before[x].path && unsorted[j]@.path == before[y].path);
        assert(x != y);
    }
    lemma_sorted_store(list, changed, unsorted, sorted, version);
    assert forall|a: Approval| #[trigger] approvals(sorted).contains(a) <==> (a.path
        == changed.path@ && a.sha256 == changed.sha256@) || (a.path != changed.path@
        && before.contains(a)) by {
        assert(approvals(sorted).contains(a) <==> some.contains(a));
        if some.contains(a) {
            let i = choose|i: int| 0 <= i < some.len() && some[i] == a;
            if i < list.len() - 1 {
                assert(some[i] == list[old_at(i)]@);
                assert(before[old_at(i)] == a);
                assert(old_at(i) != index);
                assert(before[old_at(i)].path != before[index].path);
            }
        }
        if a.path == changed.path@ && a.sha256 == changed.sha256@ {
            assert(some[list.len() - 1] == a);
        }
        if a.path != changed.path@ && before.contains(a) {
            let k = choose|k: int| 0 <= k < before.len() && before[k] == a;
            let i = if k < index {
                k
            } else {
                k - 1
            };
            assert(k != index);
            assert(some[i] == a);
        }
    }
    assert(!approved(before, changed.path@, changed.sha256@)) by {
        if approved(before, changed.path@, changed.sha256@) {
            let k = choose|k: int|
                0 <= k < before.len() && (#[trigger] before[k]).path == changed.path@
                    && before[k].sha256 == changed.sha256@;
            assert(before[k].path == before[index].path);
            assert(k == index);
        }
    }
}

proof fn lemma_added(
    list: Seq<TrustedRecipe>,
    added: TrustedRecipe,
    unsorted: Seq<TrustedRecipe>,
    sorted: Seq<TrustedRecipe>,
    version: u8,
)
    requires
        store_fault(version, approvals(list)) is None,
        list.len() < MAX_TRUSTED_RECIPES,
        forall|k: int| 0 <= k < list.len() ==> (#[trigger] approvals(list)[k]).path != added.path@,
        unsorted == list.push(added),
        unsorted.to_multiset() == sorted.to_multiset(),
        in_order(approvals(sorted)),
        paths::absolute(text::bytes_of(added.path@)),
        digests::valid_digest(added.sha256@),
    ensures
        store_fault(version, approvals(sorted)) is None,
        trust_told(approvals(list), added.path@, added.sha256@, approvals(sorted), Some(true)),
{
    let before = approvals(list);
    let some = approvals(unsorted);
    lemma_store_sound(version, before);
    assert forall|i: int| 0 <= i < unsorted.len() implies paths::absolute(
        text::bytes_of((#[trigger] unsorted[i])@.path),
    ) && digests::valid_digest(unsorted[i]@.sha256) by {
        if i < list.len() {
            assert(before[i] == list[i]@);
            assert(approval_fault(before, i) is None);
        }
    }
    assert forall|i: int, j: int|
        0 <= i < unsorted.len() && 0 <= j < unsorted.len() && i != j implies (
    #[trigger] unsorted[i])@.path != (#[trigger] unsorted[j])@.path by {
        if i < list.len() {
            assert(before[i] == list[i]@);
        }
        if j < list.len() {
            assert(before[j] == list[j]@);
        }
    }
    lemma_sorted_store(list, added, unsorted, sorted, version);
    assert forall|a: Approval| #[trigger] approvals(sorted).contains(a) <==> (a.path == added.path@
        && a.sha256 == added.sha256@) || (a.path != added.path@ && before.contains(a)) by {
        assert(approvals(sorted).contains(a) <==> some.contains(a));
        if some.contains(a) {
            let i = choose|i: int| 0 <= i < some.len() && some[i] == a;
            if i < list.len() {
                assert(before[i] == a);
            }
        }
        if a.path == added.path@ && a.sha256 == added.sha256@ {
            assert(some[list.len() as int] == a);
        }
        if before.contains(a) {
            let k = choose|k: int| 0 <= k < before.len() && before[k] == a;
            assert(some[k] == a);
        }
    }
}

/// An approval binds a recipe to its exact bytes: once approved, a recipe is
/// trusted with these and with no others, and other recipes are as before.
pub proof fn law_approval_binds_exact_bytes(
    before: Seq<Approval>,
    path: Seq<char>,
    digest: Seq<char>,
    after: Seq<Approval>,
    other: Seq<char>,
    bytes: Seq<char>,
)
    requires
        store_fault(TRUST_STORE_VERSION, before) is None,
        trust_told(before, path, digest, after, Some(true)),
    ensures
        approved(after, path, digest),
        approved(after, path, bytes) ==> bytes == digest,
        other != path ==> (approved(after, other, bytes) <==> approved(before, other, bytes)),
{
    let added = Approval { path, sha256: digest };
    assert(after.contains(added));
    let i = choose|i: int| 0 <= i < after.len() && after[i] == added;
    assert(after[i].path == path && after[i].sha256 == digest);
    if approved(after, path, bytes) {
        let k = choose|k: int|
            0 <= k < after.len() && (#[trigger] after[k]).path == path && after[k].sha256 == bytes;
        assert(after.contains(after[k]));
    }
    if other != path {
        let wanted = Approval { path: other, sha256: bytes };
        if approved(after, other, bytes) {
            let k = choose|k: int|
                0 <= k < after.len() && (#[trigger] after[k]).path == other && after[k].sha256
                    == bytes;
            assert(after[k] == wanted);
            assert(after.contains(wanted));
            let m = choose|m: int| 0 <= m < before.len() && before[m] == wanted;
            assert(before[m].path == other && before[m].sha256 == bytes);
        }
        if approved(before, other, bytes) {
            let k = choose|k: int|
                0 <= k < before.len() && (#[trigger] before[k]).path == other && before[k].sha256
                    == bytes;
            assert(before[k] == wanted);
            assert(before.contains(wanted));
            assert(after.contains(wanted));
            let m = choose|m: int| 0 <= m < after.len() && after[m] == wanted;
            assert(after[m].path == other && after[m].sha256 == bytes);
        }
    }
}

/// A recipe whose approval was taken back is not trusted, whatever its bytes.
pub proof fn law_untrusted_recipes_are_refused(
    list: Seq<Approval>,
    path: Seq<char>,
    bytes: Seq<char>,
)
    ensures
        !approved(without_path(list, path), path, bytes),
    decreases list.len(),
{
    if list.len() > 0 {
        law_untrusted_recipes_are_refused(list.drop_last(), path, bytes);
        let before = without_path(list.drop_last(), path);
        let all = without_path(list, path);
        if approved(all, path, bytes) {
            let i = choose|i: int|
                0 <= i < all.len() && (#[trigger] all[i]).path == path && all[i].sha256 == bytes;
            if i < before.len() {
                assert(before[i].path == path && before[i].sha256 == bytes);
            }
        }
    }
}

/// A recipe that was read: where it is, its bytes, and their digest.
#[derive(Debug, PartialEq, Eq)]
pub struct RecipeFile {
    pub source: PathText,
    pub digest: String,
    pub bytes: Vec<u8>,
}

impl RecipeFile {
    /// The path is absolute and the digest is that of the bytes.
    pub open spec fn wf(self) -> bool {
        &&& paths::absolute(self.source@)
        &&& self.digest@ == digests::hex_of(digests::sha256(self.bytes@))
        &&& digests::valid_digest(self.digest@)
    }

    /// A recipe that was read from a canonical path.
    pub fn read(source: PathText, bytes: Vec<u8>) -> (r: Self)
        requires
            paths::absolute(source@),
        ensures
            r.wf(),
            r.source == source,
            r.bytes == bytes,
    {
        let digest = digest_text(bytes.as_slice());
        RecipeFile { source, digest, bytes }
    }

    /// The text of a recipe, if it is one.
    pub fn text(&self) -> (r: Option<&str>)
        ensures
            match r {
                Some(text) => vstd::utf8::valid_utf8(self.bytes@) && text@
                    == vstd::utf8::decode_utf8(self.bytes@),
                None => !vstd::utf8::valid_utf8(self.bytes@),
            },
    {
        text::utf8_text(self.bytes.as_slice())
    }
}

/// Why a recipe is not used.
#[derive(Debug, PartialEq, Eq)]
pub enum ProjectDefinitionError {
    /// Nobody approved it with these bytes.
    UntrustedRecipe { project: Option<String>, path: PathText, digest: String },
    /// The user's own configuration names it, so its approval cannot be taken
    /// back.
    InherentlyTrusted { project: String, path: PathText },
    /// Something is wrong with it or with the approvals, in words.
    Invalid(String),
}

/// What a text that may be absent says.
pub open spec fn shown_text(text: Option<String>) -> Option<Seq<char>> {
    match text {
        Some(text) => Some(text@),
        None => None,
    }
}

/// What a recipe is refused with whose path is not a text.
pub open spec fn unstorable(path: Seq<u8>) -> Seq<char> {
    "canonical project recipe path "@ + text::lossy(path) + " is not valid UTF-8"@
}

/// The path of a recipe as a text.
pub fn storable_path(path: &PathText) -> (r: Result<String, String>)
    ensures
        match r {
            Ok(text) => vstd::utf8::valid_utf8(path@) && text@ == vstd::utf8::decode_utf8(path@),
            Err(message) => !vstd::utf8::valid_utf8(path@) && message@ == unstorable(path@),
        },
{
    match text::utf8_text(path.bytes.as_slice()) {
        Some(text) => Ok(text.to_owned()),
        None => {
            let mut out = "canonical project recipe path ".to_owned();
            out.append(text::lossy_text(path.bytes.as_slice()).as_str());
            out.append(" is not valid UTF-8");
            Err(out)
        },
    }
}

/// Decides whether a recipe that was read may be used, before anything in it is
/// looked at: one that the user's own configuration names may, and one of a
/// repository only if it was approved with these very bytes. `store` holds the
/// approvals, or what is wrong with them.
pub fn load(
    project_name: Option<String>,
    explicit: bool,
    file: Option<RecipeFile>,
    store: Result<&TrustStore, String>,
) -> (r: Result<Option<RecipeFile>, ProjectDefinitionError>)
    requires
        file matches Some(file) ==> file.wf(),
    ensures
        match file {
            None => r == Ok::<Option<RecipeFile>, ProjectDefinitionError>(None),
            Some(file) => if explicit {
                r == Ok::<Option<RecipeFile>, ProjectDefinitionError>(Some(file))
            } else {
                match store {
                    Err(message) => r == Err::<Option<RecipeFile>, ProjectDefinitionError>(
                        ProjectDefinitionError::Invalid(message),
                    ),
                    Ok(store) => if !vstd::utf8::valid_utf8(file.source@) {
                        r matches Err(ProjectDefinitionError::Invalid(message)) && message@
                            == unstorable(file.source@)
                    } else if approved(
                        approvals(store.recipes@),
                        vstd::utf8::decode_utf8(file.source@),
                        file.digest@,
                    ) {
                        r == Ok::<Option<RecipeFile>, ProjectDefinitionError>(Some(file))
                    } else {
                        r == Err::<Option<RecipeFile>, ProjectDefinitionError>(
                            ProjectDefinitionError::UntrustedRecipe {
                                project: project_name,
                                path: file.source,
                                digest: file.digest,
                            },
                        )
                    },
                }
            },
        },
{
    let file = match file {
        None => return Ok(None),
        Some(file) => file,
    };
    if explicit {
        return Ok(Some(file));
    }
    let store = match store {
        Err(message) => return Err(ProjectDefinitionError::Invalid(message)),
        Ok(store) => store,
    };
    let source = match storable_path(&file.source) {
        Err(message) => return Err(ProjectDefinitionError::Invalid(message)),
        Ok(source) => source,
    };
    if store.trusted(source.as_str(), file.digest.as_str()) {
        Ok(Some(file))
    } else {
        Err(
            ProjectDefinitionError::UntrustedRecipe {
                project: project_name,
                path: file.source,
                digest: file.digest,
            },
        )
    }
}

/// A recipe that may be used.
#[derive(Debug)]
pub struct LoadedRecipe {
    pub source: PathText,
    pub digest: String,
    pub recipe: WorkspaceRecipe,
}

/// What a recipe is answered that was read. `parsed` is the recipe that its text
/// holds, or why it holds none, and `extensions` why what it says to extensions is
/// refused, if it is.
pub open spec fn parse_refusal(
    file: RecipeFile,
    parsed: Result<WorkspaceRecipe, String>,
    extensions: Option<String>,
) -> Option<Seq<char>> {
    let shown = text::lossy(file.source@);
    if !vstd::utf8::valid_utf8(file.bytes@) {
        Some("project recipe "@ + shown + " is not UTF-8"@)
    } else {
        match parsed {
            Err(message) => Some("parse project recipe "@ + shown + ": "@ + message@),
            Ok(recipe) => match project_definition::recipe_fault(recipe@, extensions is None) {
                Some(fault) => Some(
                    "validate project recipe "@ + shown + ": "@ + messages::fault_text(
                        recipe@,
                        fault,
                        match extensions {
                            Some(message) => message@,
                            None => Seq::empty(),
                        },
                    ),
                ),
                None => None,
            },
        }
    }
}

/// Accepts a recipe that was read: only one that is valid throughout.
pub fn parse_recipe(
    file: RecipeFile,
    parsed: Result<WorkspaceRecipe, String>,
    extensions: Option<String>,
) -> (r: Result<LoadedRecipe, String>)
    ensures
        text::told(r, parse_refusal(file, parsed, extensions)),
        r matches Ok(loaded) ==> loaded.source == file.source && loaded.digest == file.digest
            && parsed == Ok::<WorkspaceRecipe, String>(loaded.recipe),
{
    let shown = text::lossy_text(file.source.bytes.as_slice());
    if file.text().is_none() {
        let mut out = "project recipe ".to_owned();
        out.append(shown.as_str());
        out.append(" is not UTF-8");
        return Err(out);
    }
    let recipe = match parsed {
        Err(message) => {
            let mut out = "parse project recipe ".to_owned();
            out.append(shown.as_str());
            out.append(": ");
            out.append(message.as_str());
            return Err(out);
        },
        Ok(recipe) => recipe,
    };
    match project_definition::validate(&recipe, extensions.is_none()) {
        Some(fault) => {
            let refused = match &extensions {
                Some(message) => message.clone(),
                None => {
                    let none = String::new();
                    assert(none@ =~= Seq::<char>::empty());
                    none
                },
            };
            let mut out = "validate project recipe ".to_owned();
            out.append(shown.as_str());
            out.append(": ");
            out.append(fault.message(&recipe, refused.as_str()).as_str());
            Err(out)
        },
        None => Ok(LoadedRecipe { source: file.source, digest: file.digest, recipe }),
    }
}

/// What approving a recipe says that the user's own configuration names: it
/// needs no approval.
pub fn inherent_trust(file: RecipeFile) -> (r: RecipeTrustChange)
    ensures
        r == (RecipeTrustChange {
            source: file.source,
            digest: Some(file.digest),
            changed: false,
            trusted: true,
            inherently_trusted: true,
        }),
{
    RecipeTrustChange {
        source: file.source,
        digest: Some(file.digest),
        changed: false,
        trusted: true,
        inherently_trusted: true,
    }
}

/// Approves the bytes of a recipe that was read.
pub fn trust_at(store: &mut TrustStore, file: RecipeFile) -> (r: Result<RecipeTrustChange, String>)
    requires
        store_fault(old(store).version, approvals(old(store).recipes@)) is None,
        file.wf(),
    ensures
        final(store).version == old(store).version,
        store_fault(final(store).version, approvals(final(store).recipes@)) is None,
        if !vstd::utf8::valid_utf8(file.source@) {
            final(store).recipes@ == old(store).recipes@ && (r matches Err(message) && message@
                == unstorable(file.source@))
        } else {
            &&& trust_told(
                approvals(old(store).recipes@),
                vstd::utf8::decode_utf8(file.source@),
                file.digest@,
                approvals(final(store).recipes@),
                match r {
                    Ok(change) => Some(change.changed),
                    Err(_) => None,
                },
            )
            &&& match r {
                Err(message) => message@
                    == "project recipe trust store cannot contain more than 4096 entries"@,
                Ok(change) => change.source == file.source && change.digest is Some
                    && change.digest->Some_0@ == file.digest@ && change.trusted
                    && !change.inherently_trusted,
            }
        },
{
    let source = match storable_path(&file.source) {
        Err(message) => return Err(message),
        Ok(source) => source,
    };
    proof {
        vstd::utf8::decode_utf8_encode_utf8(file.source@);
    }
    match store.approve(source, file.digest.clone()) {
        None => Err(
            "project recipe trust store cannot contain more than 4096 entries".to_owned(),
        ),
        Some(changed) => Ok(
            RecipeTrustChange {
                source: file.source,
                digest: Some(file.digest),
                changed,
                trusted: true,
                inherently_trusted: false,
            },
        ),
    }
}

/// Takes the approval of a recipe back.
pub fn untrust_at(store: &mut TrustStore, source: PathText) -> (r: Result<
    RecipeTrustChange,
    String,
>)
    requires
        store_fault(old(store).version, approvals(old(store).recipes@)) is None,
    ensures
        final(store).version == old(store).version,
        store_fault(final(store).version, approvals(final(store).recipes@)) is None,
        match r {
            Err(message) => !vstd::utf8::valid_utf8(source@) && final(store).recipes@ == old(
                store,
            ).recipes@ && message@ == unstorable(source@),
            Ok(change) => {
                &&& vstd::utf8::valid_utf8(source@)
                &&& change.source == source
                &&& !change.trusted && !change.inherently_trusted
                &&& change.changed == change.digest is Some
                &&& approvals(final(store).recipes@) == without_path(
                    approvals(old(store).recipes@),
                    vstd::utf8::decode_utf8(source@),
                )
                &&& match change.digest {
                    Some(digest) => approved(
                        approvals(old(store).recipes@),
                        vstd::utf8::decode_utf8(source@),
                        digest@,
                    ),
                    None => forall|digest: Seq<char>|
                        !(#[trigger] approved(
                            approvals(old(store).recipes@),
                            vstd::utf8::decode_utf8(source@),
                            digest,
                        )),
                }
            },
        },
{
    let path = match storable_path(&source) {
        Err(message) => return Err(message),
        Ok(path) => path,
    };
    let ghost before = approvals(store.recipes@);
    let digest = store.revoke(path.as_str());
    proof {
        lemma_store_sound(store.version, before);
        lemma_without_sound(before, path@);
        lemma_sound_store(store.version, approvals(store.recipes@), 0);
    }
    let changed = digest.is_some();
    Ok(
        RecipeTrustChange {
            source,
            digest,
            changed,
            trusted: false,
            inherently_trusted: false,
        },
    )
}

/// Taking approvals out leaves the others sound.
proof fn lemma_without_sound(list: Seq<Approval>, path: Seq<char>)
    requires
        forall|i: int| 0 <= i < list.len() ==> approval_fault(list, i) is None,
        forall|i: int, j: int|
            0 <= i < list.len() && 0 <= j < list.len() && i != j ==> (#[trigger] list[i]).path != (
            #[trigger] list[j]).path,
    ensures
        without_path(list, path).len() <= list.len(),
        forall|i: int|
            0 <= i < without_path(list, path).len() ==> approval_fault(without_path(list, path), i)
                is None,
        forall|a: Approval| #[trigger]
            without_path(list, path).contains(a) ==> list.contains(a) && a.path != path,
    decreases list.len(),
{
    if list.len() > 0 {
        let shorter = list.drop_last();
        assert forall|i: int| 0 <= i < shorter.len() implies approval_fault(shorter, i) is None by {
            assert(approval_fault(list, i) is None);
            assert(shorter[i] == list[i]);
            if path_used(shorter, i, shorter[i].path) {
                let k = choose|k: int|
                    0 <= k < i && k < shorter.len() && (#[trigger] shorter[k]).path
                        == shorter[i].path;
                assert(list[k].path == list[i].path);
            }
        }
        lemma_without_sound(shorter, path);
        let before = without_path(shorter, path);
        let after = without_path(list, path);
        let last = list.last();
        assert forall|a: Approval| #[trigger] after.contains(a) implies list.contains(a) && a.path
            != path by {
            let i = choose|i: int| 0 <= i < after.len() && after[i] == a;
            if i < before.len() {
                assert(before.contains(before[i]));
                let k = choose|k: int| 0 <= k < shorter.len() && shorter[k] == a;
                assert(list[k] == a);
            } else {
                assert(list[list.len() - 1] == a);
            }
        }
        assert forall|i: int| 0 <= i < after.len() implies approval_fault(after, i) is None by {
            assert(approval_fault(list, list.len() - 1) is None);
            if i < before.len() {
                assert(approval_fault(before, i) is None);
                assert(after[i] == before[i]);
                if path_used(after, i, after[i].path) {
                    let k = choose|k: int|
                        0 <= k < i && k < after.len() && (#[trigger] after[k]).path
                            == after[i].path;
                    assert(before[k].path == before[i].path);
                    assert(path_used(before, i, before[i].path));
                }
            } else {
                assert(after[i] == last);
                if path_used(after, i, after[i].path) {
                    let k = choose|k: int|
                        0 <= k < i && k < after.len() && (#[trigger] after[k]).path
                            == after[i].path;
                    assert(before[k] == after[k]);
                    assert(before.contains(before[k]));
                    let m = choose|m: int| 0 <= m < shorter.len() && shorter[m] == before[k];
                    assert(list[m].path == list[list.len() - 1].path);
                }
            }
        }
    }
}

/// Refuses to take back the approval of a recipe that the user's own
/// configuration names, and finds the recipe of a repository otherwise.
pub fn untrust(
    project_name: String,
    configured: Option<PathText>,
    canonical: Result<PathText, String>,
) -> (r: Result<PathText, ProjectDefinitionError>)
    ensures
        r == match configured {
            Some(path) => Err::<PathText, ProjectDefinitionError>(
                ProjectDefinitionError::InherentlyTrusted { project: project_name, path },
            ),
            None => match canonical {
                Ok(source) => Ok::<PathText, ProjectDefinitionError>(source),
                Err(message) => Err::<PathText, ProjectDefinitionError>(
                    ProjectDefinitionError::Invalid(message),
                ),
            },
        },
{
    match configured {
        Some(path) => Err(
            ProjectDefinitionError::InherentlyTrusted { project: project_name, path },
        ),
        None => match canonical {
            Ok(source) => Ok(source),
            Err(message) => Err(ProjectDefinitionError::Invalid(message)),
        },
    }
}

/// What resolving a path gave.
#[derive(Debug, PartialEq, Eq)]
pub enum Resolved {
    Found(PathText),
    /// Nothing is there.
    Missing,
    /// It cannot be resolved, for this reason.
    Failed(String),
}

/// The canonical path of the recipe of a repository, which need not exist: the
/// recipe's own, or one below its directory's, or one below the repository's.
/// `exact`, `directory` and `root` are what resolving these gave.
pub fn canonical_repository_recipe_path(
    exact: Resolved,
    directory: Resolved,
    root: Result<PathText, String>,
    refusal: String,
) -> (r: Result<PathText, String>)
    ensures
        match exact {
            Resolved::Found(path) => r == Ok::<PathText, String>(path),
            Resolved::Failed(_) => r == Err::<PathText, String>(refusal),
            Resolved::Missing => match directory {
                Resolved::Found(directory) => r matches Ok(path) && path@ == paths::joined(
                    directory@,
                    text::bytes_of("project.toml"@),
                ),
                _ => match root {
                    Ok(root) => r matches Ok(path) && path@ == paths::joined(
                        root@,
                        text::bytes_of(".fut/project.toml"@),
                    ),
                    Err(message) => r == Err::<PathText, String>(message),
                },
            },
        },
{
    match exact {
        Resolved::Found(path) => Ok(path),
        Resolved::Failed(_) => Err(refusal),
        Resolved::Missing => match directory {
            Resolved::Found(directory) => Ok(directory.join(&PathText::of("project.toml"))),
            _ => match root {
                Ok(root) => Ok(root.join(&PathText::of(".fut/project.toml"))),
                Err(message) => Err(message),
            },
        },
    }
}

/// What a refusal says.
pub open spec fn definition_text(error: ProjectDefinitionError) -> Seq<char> {
    match error {
        ProjectDefinitionError::UntrustedRecipe { project, path, digest } => {
            "untrusted project recipe "@ + text::lossy(path@) + " (SHA-256 "@ + digest@ + "); "@
                + instruction(shown_text(project))
        },
        ProjectDefinitionError::InherentlyTrusted { project, path } => "project "@ + text::quoted(
            project@,
        ) + " uses the explicitly configured recipe "@ + text::lossy(path@)
            + "; it is inherently trusted and cannot be untrusted without removing `recipe` from global config"@,
        ProjectDefinitionError::Invalid(message) => message@,
    }
}

/// The code of a refusal.
pub open spec fn definition_code(error: ProjectDefinitionError) -> Seq<char> {
    match error {
        ProjectDefinitionError::UntrustedRecipe { .. } => "untrusted_recipe"@,
        _ => "invalid_recipe"@,
    }
}

impl ProjectDefinitionError {
    /// What this refusal says.
    pub fn message(&self) -> (r: String)
        ensures
            r@ == definition_text(*self),
    {
        match self {
            ProjectDefinitionError::UntrustedRecipe { project, path, digest } => {
                let mut out = "untrusted project recipe ".to_owned();
                out.append(text::lossy_text(path.bytes.as_slice()).as_str());
                out.append(" (SHA-256 ");
                out.append(digest.as_str());
                out.append("); ");
                let advice = match project {
                    Some(project) => trust_instruction(Some(project.as_str())),
                    None => trust_instruction(None),
                };
                out.append(advice.as_str());
                out
            },
            ProjectDefinitionError::InherentlyTrusted { project, path } => {
                let mut out = "project ".to_owned();
                out.append(text::quote(project.as_str()).as_str());
                out.append(" uses the explicitly configured recipe ");
                out.append(text::lossy_text(path.bytes.as_slice()).as_str());
                out.append(
                    "; it is inherently trusted and cannot be untrusted without removing `recipe` from global config",
                );
                out
            },
            ProjectDefinitionError::Invalid(message) => message.clone(),
        }
    }
}

/// Why the approvals of the user have no place.
#[derive(Clone, Copy, Debug, PartialEq, Eq, Structural)]
pub enum StorePathFault {
    RelativeStateHome,
    NoHome,
    RelativeHome,
}

impl StorePathFault {
    /// Why the approvals of the user have no place.
    pub fn message(&self) -> (r: &'static str)
        ensures
            r@ == match *self {
                StorePathFault::RelativeStateHome => {
                    "XDG_STATE_HOME must be an absolute path when resolving project recipe trust state"@
                },
                StorePathFault::NoHome => "HOME must be set when XDG_STATE_HOME is not set"@,
                StorePathFault::RelativeHome => {
                    "HOME must be an absolute path when resolving project recipe trust state"@
                },
            },
    {
        match self {
            StorePathFault::RelativeStateHome => {
                "XDG_STATE_HOME must be an absolute path when resolving project recipe trust state"
            },
            StorePathFault::NoHome => "HOME must be set when XDG_STATE_HOME is not set",
            StorePathFault::RelativeHome => {
                "HOME must be an absolute path when resolving project recipe trust state"
            },
        }
    }
}

/// Where the approvals of the user are kept: in the user's directory for state,
/// or in the usual one in the user's home. What is empty counts as not set.
pub open spec fn store_path(
    state_home: Option<Seq<u8>>,
    home: Option<Seq<u8>>,
) -> Result<Seq<u8>, StorePathFault> {
    if state_home is Some && state_home->Some_0.len() > 0 {
        if paths::absolute(state_home->Some_0) {
            Ok(
                paths::joined(
                    state_home->Some_0,
                    text::bytes_of("fut/trusted-recipes.toml"@),
                ),
            )
        } else {
            Err(StorePathFault::RelativeStateHome)
        }
    } else if home is Some && home->Some_0.len() > 0 {
        if paths::absolute(home->Some_0) {
            Ok(
                paths::joined(
                    home->Some_0,
                    text::bytes_of(".local/state/fut/trusted-recipes.toml"@),
                ),
            )
        } else {
            Err(StorePathFault::RelativeHome)
        }
    } else {
        Err(StorePathFault::NoHome)
    }
}

/// What a path that may be absent holds.
pub open spec fn path_view(path: Option<PathText>) -> Option<Seq<u8>> {
    match path {
        Some(path) => Some(path@),
        None => None,
    }
}

/// Where the approvals of the user are kept.
pub fn trust_store_path_from(xdg_state_home: Option<PathText>, home: Option<PathText>) -> (r: Result<
    PathText,
    StorePathFault,
>)
    ensures
        match store_path(path_view(xdg_state_home), path_view(home)) {
            Ok(path) => r matches Ok(found) && found@ == path,
            Err(fault) => r == Err::<PathText, StorePathFault>(fault),
        },
{
    match xdg_state_home {
        Some(directory) => {
            if directory.bytes.len() > 0 {
                if !directory.is_absolute() {
                    return Err(StorePathFault::RelativeStateHome);
                }
                return Ok(directory.join(&PathText::of("fut/trusted-recipes.toml")));
            }
        },
        None => {},
    }
    match home {
        Some(home) => {
            if home.bytes.len() == 0 {
                return Err(StorePathFault::NoHome);
            }
            if !home.is_absolute() {
                return Err(StorePathFault::RelativeHome);
            }
            Ok(home.join(&PathText::of(".local/state/fut/trusted-recipes.toml")))
        },
        None => Err(StorePathFault::NoHome),
    }
}

/// Why the file of approvals cannot be used.
#[derive(Clone, Copy, Debug, PartialEq, Eq, Structural)]
pub enum TrustFileFault {
    NotRegular,
    Permissions,
    TooLarge { actual: u64 },
    Grew,
}

/// What is said of a file of approvals that cannot be used, by its shown path.
pub open spec fn trust_file_text(fault: TrustFileFault, shown: Seq<char>) -> Seq<char> {
    let kind = "project recipe trust store"@;
    match fault {
        TrustFileFault::NotRegular => project_definition::file_fault_text(
            RecipeFileFault::NotRegular,
            kind,
            shown,
            MAX_TRUST_STORE_BYTES,
        ),
        TrustFileFault::Permissions => kind + " "@ + shown + " must have permissions 0600"@,
        TrustFileFault::TooLarge { actual } => project_definition::file_fault_text(
            RecipeFileFault::TooLarge { actual },
            kind,
            shown,
            MAX_TRUST_STORE_BYTES,
        ),
        TrustFileFault::Grew => project_definition::file_fault_text(
            RecipeFileFault::Grew,
            kind,
            shown,
            MAX_TRUST_STORE_BYTES,
        ),
    }
}

impl TrustFileFault {
    /// What is said of a file of approvals with the fault.
    pub fn message(&self, file: &PathText) -> (r: String)
        ensures
            r@ == trust_file_text(*self, text::lossy(file@)),
    {
        let kind = "project recipe trust store";
        let fault = match self {
            TrustFileFault::NotRegular => RecipeFileFault::NotRegular,
            TrustFileFault::Permissions => {
                let mut out = kind.to_owned();
                out.append(" ");
                out.append(text::lossy_text(file.bytes.as_slice()).as_str());
                out.append(" must have permissions 0600");
                return out;
            },
            TrustFileFault::TooLarge { actual } => RecipeFileFault::TooLarge { actual: *actual },
            TrustFileFault::Grew => RecipeFileFault::Grew,
        };
        project_definition::write_file_fault(fault, kind, file, MAX_TRUST_STORE_BYTES)
    }
}

/// Judges the file of approvals: a regular one, only for the user, not too large
/// when it was looked at nor when it was read.
pub fn check_trust_file(is_file: bool, mode: u32, length: u64, read: u64) -> (r: Result<
    (),
    TrustFileFault,
>)
    ensures
        r == if !is_file {
            Err::<(), TrustFileFault>(TrustFileFault::NotRegular)
        } else if mode & 0o7777 != 0o600 {
            Err::<(), TrustFileFault>(TrustFileFault::Permissions)
        } else if length > MAX_TRUST_STORE_BYTES {
            Err::<(), TrustFileFault>(TrustFileFault::TooLarge { actual: length })
        } else if read > MAX_TRUST_STORE_BYTES {
            Err::<(), TrustFileFault>(TrustFileFault::Grew)
        } else {
            Ok::<(), TrustFileFault>(())
        },
{
    if !is_file {
        return Err(TrustFileFault::NotRegular);
    }
    if mode & 0o7777 != 0o600 {
        return Err(TrustFileFault::Permissions);
    }
    if length > MAX_TRUST_STORE_BYTES {
        return Err(TrustFileFault::TooLarge { actual: length });
    }
    if read > MAX_TRUST_STORE_BYTES {
        return Err(TrustFileFault::Grew);
    }
    Ok(())
}

/// What is advised where nobody approved a recipe.
pub open spec fn instruction(project: Option<Seq<char>>) -> Seq<char> {
    match project {
        None => "approve it before opening a new workspace"@,
        Some(project) => "run `fut project trust "@ + project + "` after reviewing it"@,
    }
}

/// What is advised where nobody approved a recipe.
pub fn trust_instruction(project: Option<&str>) -> (r: String)
    ensures
        r@ == instruction(
            match project {
                Some(project) => Some(project@),
                None => None,
            },
        ),
{
    match project {
        None => "approve it before opening a new workspace".to_owned(),
        Some(project) => {
            let mut out = "run `fut project trust ".to_owned();
            out.append(project);
            out.append("` after reviewing it");
            out
        },
    }
}

/// Whether the text of a store of approvals may be written.
pub fn check_store_text(length: u64) -> (r: Result<(), String>)
    ensures
        r is Ok <==> length <= MAX_TRUST_STORE_BYTES,
        r matches Err(message) ==> message@
            == "updated project recipe trust store exceeds the 1048576-byte maximum"@,
{
    if length > MAX_TRUST_STORE_BYTES {
        return Err(
            "updated project recipe trust store exceeds the 1048576-byte maximum".to_owned(),
        );
    }
    Ok(())
}

/// The directory of the store of approvals, which must have one.
pub fn store_parent(path: &PathText) -> (r: Result<PathText, String>)
    ensures
        match r {
            Ok(parent) => paths::has_parent(path@) && parent@ == paths::parent_path(path@)
                && parent@.len() > 0,
            Err(message) => message@
                == "project recipe trust store path must have a parent directory"@ && (
            !paths::has_parent(path@) || paths::parent_path(path@).len() == 0),
        },
{
    match path.parent() {
        Some(parent) => {
            if parent.bytes.len() > 0 {
                return Ok(parent);
            }
        },
        None => {},
    }
    Err("project recipe trust store path must have a parent directory".to_owned())
}

/// Where the lock of the store of approvals is.
pub fn store_lock_path(path: &PathText) -> (r: PathText)
    ensures
        paths::has_file_name(path@) ==> exists|length: int| #[trigger]
            paths::is_parent(path@, length) && r@ == paths::joined(
                path@.take(length),
                text::bytes_of("trusted-recipes.lock"@),
            ),
        !paths::has_file_name(path@) ==> r@ == paths::joined(
            path@,
            text::bytes_of("trusted-recipes.lock"@),
        ),
{
    path.with_file_name(&PathText::of("trusted-recipes.lock"))
}

/// A trust store is accepted exactly where it is of this version, has at most four thousand
/// and ninety-six approvals, and each is of an absolute path that no other is of and of a
/// digest.
pub proof fn law_stores_are_accepted_whole(version: u8, list: Seq<Approval>)
    ensures
        store_fault(version, list) is None <==> {
            &&& version == 1
            &&& list.len() <= 4096
            &&& forall|i: int|
                0 <= i < list.len() ==> paths::absolute(text::bytes_of((#[trigger] list[i]).path))
                    && digests::valid_digest(list[i].sha256)
            &&& forall|i: int, j: int|
                0 <= i < j < list.len() ==> (#[trigger] list[i]).path != (#[trigger] list[j]).path
        },
        version != 1 ==> store_fault(version, list) == Some(
            TrustStoreFault::Version { found: version },
        ),
{
    lemma_all_approvals(list, 0);
    if store_fault(version, list) is None {
        assert forall|i: int| 0 <= i < list.len() implies paths::absolute(
            text::bytes_of((#[trigger] list[i]).path),
        ) && digests::valid_digest(list[i].sha256) by {
            assert(approval_fault(list, i) is None);
        }
        assert forall|i: int, j: int| 0 <= i < j < list.len() implies (#[trigger] list[i]).path
            != (#[trigger] list[j]).path by {
            assert(approval_fault(list, j) is None);
            if list[i].path == list[j].path {
                assert(path_used(list, j, list[j].path));
            }
        }
    }
    if version == 1 && list.len() <= 4096 && (forall|i: int|
        0 <= i < list.len() ==> paths::absolute(text::bytes_of((#[trigger] list[i]).path))
            && digests::valid_digest(list[i].sha256)) && (forall|i: int, j: int|
        0 <= i < j < list.len() ==> (#[trigger] list[i]).path != (#[trigger] list[j]).path) {
        assert forall|i: int| 0 <= i < list.len() implies #[trigger] approval_fault(list, i)
            is None by {
            assert(paths::absolute(text::bytes_of(list[i].path)));
        }
    }
}

proof fn lemma_all_approvals(list: Seq<Approval>, from: int)
    requires
        0 <= from,
    ensures
        approvals_fault(list, from) is None <==> forall|i: int|
            from <= i < list.len() ==> #[trigger] approval_fault(list, i) is None,
    decreases list.len() - from,
{
    if from < list.len() {
        lemma_all_approvals(list, from + 1);
        if approvals_fault(list, from) is None {
            assert forall|i: int| from <= i < list.len() implies #[trigger] approval_fault(list, i)
                is None by {
                if i > from {
                    assert(from + 1 <= i);
                }
            }
        }
    }
}

/// An approval that is revoked leaves all others
/// as they were, in their order.
pub proof fn law_revoking_leaves_the_others(list: Seq<Approval>, path: Seq<char>)
    ensures
        without_path(list, path) == list.filter(|a: Approval| a.path != path),
    decreases list.len(),
{
    reveal(Seq::filter);
    if list.len() > 0 {
        law_revoking_leaves_the_others(list.drop_last(), path);
    }
}

/// A recipe that is approved as it is stays approved, and nothing changes. A store that is full
/// takes no further path, and still takes a new approval of one that it has.
pub proof fn law_full_stores_take_no_more(
    before: Seq<Approval>,
    path: Seq<char>,
    digest: Seq<char>,
    after: Seq<Approval>,
    r: Option<bool>,
)
    requires
        trust_told(before, path, digest, after, r),
    ensures
        r is None <==> before.len() >= 4096 && forall|i: int|
            0 <= i < before.len() ==> (#[trigger] before[i]).path != path,
        r is None ==> after == before,
        r == Some(false) ==> after == before && approved(before, path, digest),
        r == Some(true) ==> !approved(before, path, digest),
        r is Some ==> approved(after, path, digest),
{
    let known = path_used(before, before.len() as int, path);
    if r is None {
        assert forall|i: int| 0 <= i < before.len() implies (#[trigger] before[i]).path != path by {
            if before[i].path == path {
                assert(path_used(before, before.len() as int, path));
            }
        }
    }
    if known {
        let k = choose|k: int| 0 <= k < before.len() && (#[trigger] before[k]).path == path;
        assert(before[k].path == path);
    }
    if approved(before, path, digest) {
        let i = choose|i: int|
            0 <= i < before.len() && (#[trigger] before[i]).path == path && before[i].sha256
                == digest;
        assert(before[i].path == path);
        assert(path_used(before, before.len() as int, path));
    }
    if r == Some(true) {
        let a = Approval { path, sha256: digest };
        assert(after.contains(a));
        let i = choose|i: int| 0 <= i < after.len() && after[i] == a;
        assert(after[i].path == path && after[i].sha256 == digest);
    }
}

/// The trust store is in the state directory that the user names, and else in the usual one
/// under the home directory. Neither may be relative.
pub proof fn law_store_is_in_the_state_directory(
    state_home: Option<Seq<u8>>,
    home: Option<Seq<u8>>,
)
    ensures
        state_home is Some && state_home->Some_0.len() > 0 ==> {
            if paths::absolute(state_home->Some_0) {
                store_path(state_home, home) == Ok::<Seq<u8>, StorePathFault>(
                    paths::joined(
                        state_home->Some_0,
                        text::bytes_of("fut/trusted-recipes.toml"@),
                    ),
                )
            } else {
                store_path(state_home, home) == Err::<Seq<u8>, StorePathFault>(
                    StorePathFault::RelativeStateHome,
                )
            }
        },
        state_home is None || state_home->Some_0.len() == 0 ==> {
            if home is None || home->Some_0.len() == 0 {
                store_path(state_home, home) == Err::<Seq<u8>, StorePathFault>(
                    StorePathFault::NoHome,
                )
            } else if paths::absolute(home->Some_0) {
                store_path(state_home, home) == Ok::<Seq<u8>, StorePathFault>(
                    paths::joined(
                        home->Some_0,
                        text::bytes_of(".local/state/fut/trusted-recipes.toml"@),
                    ),
                )
            } else {
                store_path(state_home, home) == Err::<Seq<u8>, StorePathFault>(
                    StorePathFault::RelativeHome,
                )
            }
        },
{
}

/// A recipe is used exactly where it is text that can be parsed and its rules are kept. What
/// is said otherwise names its file.
pub proof fn law_recipes_are_parsed_and_checked(
    file: RecipeFile,
    parsed: Result<WorkspaceRecipe, String>,
    extensions: Option<String>,
)
    ensures
        parse_refusal(file, parsed, extensions) is None <==> vstd::utf8::valid_utf8(file.bytes@)
            && parsed is Ok && project_definition::recipe_fault(parsed->Ok_0@, extensions is None)
            is None,
        definition_code(ProjectDefinitionError::Invalid(parsed->Err_0)) == "invalid_recipe"@,
        definition_code(
            ProjectDefinitionError::UntrustedRecipe {
                project: extensions,
                path: file.source,
                digest: file.digest,
            },
        ) == "untrusted_recipe"@,
{
}

} // verus!
