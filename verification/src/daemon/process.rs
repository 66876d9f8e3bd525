//! Whether a process belongs to a terminal.

use vstd::prelude::*;

use crate::text;

verus! {

/// A chain of processes is followed no further than this.
pub const MAX_HOPS: usize = 128;

/// Where following a chain of parents up to an ancestor ends: how many processes
/// there are from the first one to the ancestor, both included, if every process
/// on the way is an ordinary one that has another for its parent.
pub open spec fn hops(chain: Seq<u32>, ancestor: u32, from: int) -> Option<int>
    decreases MAX_HOPS - from,
{
    if from < 0 || from >= MAX_HOPS || from >= chain.len() || chain[from] <= 1 {
        None
    } else if chain[from] == ancestor {
        Some(from + 1)
    } else if from + 1 < chain.len() && chain[from + 1] == chain[from] {
        None
    } else {
        hops(chain, ancestor, from + 1)
    }
}

/// Returns the process and its ancestors through `ancestor`, but only when the
/// complete chain still belongs to that ancestor. `chain` holds the process and
/// then each parent, as far as they could be read.
pub fn lineage(chain: &Vec<u32>, ancestor: u32) -> (r: Option<Vec<u32>>)
    ensures
        match hops(chain@, ancestor, 0) {
            Some(count) => r matches Some(found) && found@ == chain@.take(count),
            None => r is None,
        },
{
    let mut found: Vec<u32> = Vec::new();
    let mut i: usize = 0;
    assert(found@ =~= chain@.take(0));
    while i < MAX_HOPS
        invariant
            i <= MAX_HOPS,
            i <= chain@.len(),
            found@ == chain@.take(i as int),
            hops(chain@, ancestor, 0) == hops(chain@, ancestor, i as int),
        decreases MAX_HOPS - i,
    {
        if i >= chain.len() || chain[i] <= 1 {
            return None;
        }
        found.push(chain[i]);
        assert(found@ =~= chain@.take(i as int + 1));
        if chain[i] == ancestor {
            return Some(found);
        }
        if i + 1 < chain.len() && chain[i + 1] == chain[i] {
            return None;
        }
        i += 1;
    }
    None
}

/// Verifies inherited terminal context against the live process tree. A desktop
/// app can inherit the environment of a terminal while being reparented outside
/// the terminal's tree.
pub fn is_descendant(chain: &Vec<u32>, ancestor: u32) -> (r: bool)
    ensures
        r == (hops(chain@, ancestor, 0) is Some),
{
    lineage(chain, ancestor).is_some()
}

/// A chain that leads to an ancestor reaches it at its end, and is no longer
/// than the bound.
pub proof fn lemma_hops(chain: Seq<u32>, ancestor: u32, from: int)
    requires
        0 <= from,
    ensures
        hops(chain, ancestor, from) matches Some(count) ==> from < count <= chain.len() && count
            <= MAX_HOPS && chain[count - 1] == ancestor && (forall|i: int|
            from <= i < count - 1 ==> #[trigger] chain[i] != ancestor),
    decreases MAX_HOPS - from,
{
    if from < MAX_HOPS && from < chain.len() && chain[from] > 1 && chain[from] != ancestor && !(from
        + 1 < chain.len() && chain[from + 1] == chain[from]) {
        lemma_hops(chain, ancestor, from + 1);
    }
}

/// Resolves the root of the reporting process's branch beneath a terminal
/// runtime: the last process before the ancestor, or the ancestor itself where
/// the chain has no such process between the reporter and it.
pub fn descendant_root(chain: &Vec<u32>, ancestor: u32) -> (r: Option<u32>)
    ensures
        match hops(chain@, ancestor, 0) {
            Some(count) => r == Some(
                if count <= 2 {
                    ancestor
                } else {
                    chain@[count - 2]
                },
            ),
            None => r is None,
        },
{
    proof {
        lemma_hops(chain@, ancestor, 0);
    }
    match lineage(chain, ancestor) {
        None => None,
        Some(found) => if found.len() <= 2 {
            Some(ancestor)
        } else {
            Some(found[found.len() - 2])
        },
    }
}

/// Where the last occurrence of a character stands.
pub open spec fn last_position(s: Seq<char>, c: char) -> Option<int>
    decreases s.len(),
{
    if s.len() == 0 {
        None
    } else if s.last() == c {
        Some(s.len() - 1)
    } else {
        last_position(s.drop_last(), c)
    }
}

/// The parent that a line of process status names: the second word behind the
/// last closing parenthesis. The name before it may itself hold spaces and
/// parentheses.
pub open spec fn stated_parent(stat: Seq<char>) -> Option<nat> {
    match last_position(stat, ')') {
        None => None,
        Some(end) => {
            let rest = text::words(stat.skip(end + 1));
            if rest.len() < 2 {
                None
            } else {
                text::parsed(rest[1], u32::MAX as int)
            }
        },
    }
}

/// Reads the parent out of a line of process status.
pub fn parse_parent(stat: &str) -> (r: Option<u32>)
    ensures
        match stated_parent(stat@) {
            Some(parent) => r == Some(parent as u32) && parent <= u32::MAX,
            None => r is None,
        },
{
    let chars = text::chars_of(stat);
    let mut end: usize = chars.len();
    assert(stat@.take(stat@.len() as int) =~= stat@);
    while end > 0 && chars[end - 1] != ')'
        invariant
            end <= chars.len(),
            chars@ == stat@,
            last_position(stat@, ')') == last_position(stat@.take(end as int), ')'),
        decreases end,
    {
        assert(stat@.take(end as int).drop_last() =~= stat@.take(end as int - 1));
        end -= 1;
    }
    if end == 0 {
        return None;
    }
    assert(last_position(stat@, ')') == Some(end as int - 1));
    let mut rest: Vec<char> = Vec::new();
    let mut i: usize = end;
    while i < chars.len()
        invariant
            end <= i <= chars.len(),
            chars@ == stat@,
            rest@ == stat@.subrange(end as int, i as int),
        decreases chars.len() - i,
    {
        rest.push(chars[i]);
        i += 1;
        assert(rest@ =~= stat@.subrange(end as int, i as int));
    }
    assert(rest@ =~= stat@.skip(end as int));
    let words = text::split_words(rest.as_slice());
    assert(text::char_views(words@).len() == words@.len());
    if words.len() < 2 {
        return None;
    }
    assert(text::char_views(words@)[1] == words@[1]@);
    match text::parse_number(words[1].as_slice(), u32::MAX as u64) {
        Some(parent) => Some(parent as u32),
        None => None,
    }
}

/// An ancestor is found exactly where it stands in a chain of parents, within so many
/// hops, before the chain comes to the first process or to one that is its own parent.
/// `at` is where it stands first.
pub proof fn law_ancestor_is_found_in_the_chain(chain: Seq<u32>, ancestor: u32, at: int)
    requires
        0 <= at < chain.len(),
        at < 128,
        chain[at] == ancestor,
        forall|i: int| 0 <= i <= at ==> (#[trigger] chain[i]) > 1,
        forall|i: int| 0 <= i < at ==> (#[trigger] chain[i]) != ancestor,
        forall|i: int, j: int| 0 <= i < at && j == i + 1 ==> #[trigger] chain[i] != #[trigger] chain[j],
    ensures
        hops(chain, ancestor, 0) == Some(at + 1),
{
    lemma_ancestor_from(chain, ancestor, at, 0);
}

proof fn lemma_ancestor_from(chain: Seq<u32>, ancestor: u32, at: int, from: int)
    requires
        0 <= from <= at < chain.len(),
        at < 128,
        chain[at] == ancestor,
        forall|i: int| 0 <= i <= at ==> (#[trigger] chain[i]) > 1,
        forall|i: int| 0 <= i < at ==> (#[trigger] chain[i]) != ancestor,
        forall|i: int, j: int| 0 <= i < at && j == i + 1 ==> #[trigger] chain[i] != #[trigger] chain[j],
    ensures
        hops(chain, ancestor, from) == Some(at + 1),
    decreases at - from,
{
    if from < at {
        assert(chain[from] != chain[from + 1]);
        lemma_ancestor_from(chain, ancestor, at, from + 1);
    }
}

/// What is no ancestor within so many hops is not found, nor is one beyond the first
/// process or beyond a process that is its own parent.
pub proof fn law_strangers_are_no_ancestors(chain: Seq<u32>, ancestor: u32, end: int)
    requires
        0 <= end,
        end >= chain.len() || end >= 128 || chain[end] <= 1 || (end + 1 < chain.len() && chain[end]
            == chain[end + 1] && chain[end] != ancestor),
        forall|i: int| 0 <= i < end && i < chain.len() ==> (#[trigger] chain[i]) != ancestor,
    ensures
        hops(chain, ancestor, 0) is None,
{
    lemma_stranger_from(chain, ancestor, end, 0);
}

proof fn lemma_stranger_from(chain: Seq<u32>, ancestor: u32, end: int, from: int)
    requires
        0 <= from <= end,
        end >= chain.len() || end >= 128 || chain[end] <= 1 || (end + 1 < chain.len() && chain[end]
            == chain[end + 1] && chain[end] != ancestor),
        forall|i: int| 0 <= i < end && i < chain.len() ==> (#[trigger] chain[i]) != ancestor,
    ensures
        hops(chain, ancestor, from) is None,
    decreases end - from,
{
    if from < end {
        lemma_stranger_from(chain, ancestor, end, from + 1);
    }
}

proof fn lemma_last_position(s: Seq<char>, c: char, at: int)
    requires
        0 <= at < s.len(),
        s[at] == c,
        forall|i: int| at < i < s.len() ==> (#[trigger] s[i]) != c,
    ensures
        last_position(s, c) == Some(at),
    decreases s.len(),
{
    if at < s.len() - 1 {
        lemma_last_position(s.drop_last(), c, at);
    }
}

/// The parent of a process is the second word behind the last bracket of what is stated
/// of it, whatever its name holds: words, blanks or brackets.
pub proof fn law_parent_stands_behind_the_name(
    start: Seq<char>,
    state: Seq<char>,
    parent: nat,
    rest: Seq<char>,
)
    requires
        state.len() > 0,
        forall|i: int| 0 <= i < state.len() ==> !text::whitespace(#[trigger] state[i]),
        !state.contains(')'),
        !rest.contains(')'),
        parent <= u32::MAX,
    ensures
        stated_parent(
            start + seq![')', ' '] + state + seq![' '] + text::decimal(parent) + seq![' '] + rest,
        ) == Some(parent),
{
    let shown = text::decimal(parent);
    let tail = seq![' '] + state + seq![' '] + shown + seq![' '] + rest;
    let stat = start + seq![')', ' '] + state + seq![' '] + shown + seq![' '] + rest;
    text::law_decimals_are_read_back(parent);
    let at = start.len() as int;
    assert(stat =~= start + seq![')'] + tail);
    assert forall|i: int| at < i < stat.len() implies (#[trigger] stat[i]) != ')' by {
        let j = i - at - 1;
        assert(stat[i] == tail[j]);
        if 1 <= j < 1 + state.len() {
            assert(state.contains(state[j - 1]));
        } else if 2 + state.len() <= j < 2 + state.len() + shown.len() {
            assert(tail[j] == shown[j - 2 - state.len()]);
            assert(text::digit(shown[j - 2 - state.len()]));
        } else if j > 2 + state.len() + shown.len() {
            assert(tail[j] == rest[j - 3 - state.len() - shown.len()]);
            assert(rest.contains(rest[j - 3 - state.len() - shown.len()]));
        }
    }
    lemma_last_position(stat, ')', at);
    assert(stat.skip(at + 1) =~= tail);
    let none = Seq::<char>::empty();
    assert(tail =~= (none + seq![' '] + state) + seq![' '] + (shown + seq![' '] + rest));
    text::law_words_stand_between_blanks(none, state, ' ');
    text::law_words_stand_between_blanks(none + seq![' '] + state, shown + seq![' '] + rest, ' ');
    text::law_words_stand_between_blanks(shown, rest, ' ');
    text::law_one_word(none);
    text::law_one_word(state);
    assert forall|i: int| 0 <= i < shown.len() implies !text::whitespace(#[trigger] shown[i]) by {
        assert(text::digit(shown[i]));
    }
    text::law_one_word(shown);
    assert(text::words(tail) =~= seq![state, shown] + text::words(rest));
}

} // verus!
