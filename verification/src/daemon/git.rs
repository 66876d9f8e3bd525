//! When the status of a workspace's repository is read again, and what of it is
//! shown.

use std::collections::BTreeMap;

use vstd::prelude::*;

use crate::daemon::state::{self, SharedState, StateModel};
use crate::domain::WorkspaceId;
use crate::maps::keys_of;
use crate::paths::{self, PathText};
use crate::resources::model;
use crate::resources::{ResourceError, ResourceTree};
use crate::text;

verus! {

/// How long a status stays fresh, in milliseconds.
pub const REFRESH_INTERVAL_MS: u64 = 5_000;

/// How long one Git command may take, in milliseconds.
pub const COMMAND_TIMEOUT_MS: u64 = 2_000;

/// The branch of a work tree, and how many lines differ from its head.
#[derive(Debug, PartialEq, Eq)]
pub struct GitStatus {
    pub branch: String,
    pub insertions: usize,
    pub deletions: usize,
}

impl Default for GitStatus {
    fn default() -> (r: Self)
        ensures
            r.branch@ == Seq::<char>::empty(),
            r.insertions == 0,
            r.deletions == 0,
    {
        GitStatus { branch: String::new(), insertions: 0, deletions: 0 }
    }
}

/// The number that one field of a summary counts, if its second word begins as
/// the wanted one does.
pub open spec fn field_count(field: Seq<char>, wanted: Seq<char>) -> Option<nat> {
    let words = text::words(field);
    if words.len() < 2 || !text::starts(words[1], wanted) {
        None
    } else {
        text::parsed(words[0], usize::MAX as int)
    }
}

/// The number in the last field that counts what is wanted, else nought.
pub open spec fn latest_count(fields: Seq<Seq<char>>, wanted: Seq<char>) -> nat
    decreases fields.len(),
{
    if fields.len() == 0 {
        0
    } else {
        match field_count(fields.last(), wanted) {
            Some(count) => count,
            None => latest_count(fields.drop_last(), wanted),
        }
    }
}

proof fn lemma_wanted_words_differ(word: Seq<char>)
    ensures
        !(text::starts(word, "insertion"@) && text::starts(word, "deletion"@)),
{
    reveal_strlit("insertion");
    reveal_strlit("deletion");
    if text::starts(word, "insertion"@) && text::starts(word, "deletion"@) {
        assert("insertion"@[0] == 'i' && "deletion"@[0] == 'd');
        assert(word.take(9)[0] == word[0]);
        assert(word.take(8)[0] == word[0]);
    }
}

/// Reads the counts out of a one-line summary of changes. A count that is not
/// there is nought.
pub fn parse_shortstat(summary: &str) -> (r: GitStatus)
    ensures
        r.branch@ == Seq::<char>::empty(),
        r.insertions == latest_count(text::fields(summary@, ','), "insertion"@),
        r.deletions == latest_count(text::fields(summary@, ','), "deletion"@),
{
    let chars = text::chars_of(summary);
    let fields = text::split_fields(chars.as_slice(), ',');
    let ghost all = text::fields(summary@, ',');
    assert(text::char_views(fields@) == all);
    let mut insertions: usize = 0;
    let mut deletions: usize = 0;
    let mut i: usize = 0;
    assert(all.take(0) =~= Seq::<Seq<char>>::empty());
    while i < fields.len()
        invariant
            i <= fields.len(),
            all == text::char_views(fields@),
            all.len() == fields@.len(),
            insertions == latest_count(all.take(i as int), "insertion"@),
            deletions == latest_count(all.take(i as int), "deletion"@),
        decreases fields.len() - i,
    {
        let words = text::split_words(fields[i].as_slice());
        let ghost found = text::words(all[i as int]);
        proof {
            assert(all.take(i as int + 1).drop_last() =~= all.take(i as int));
            assert(all.take(i as int + 1).last() == all[i as int]);
            assert(all[i as int] == fields@[i as int]@);
            assert(text::char_views(words@) == found);
            assert(found.len() == words@.len());
        }
        if words.len() >= 2 {
            assert(found[0] == words@[0]@ && found[1] == words@[1]@);
            proof {
                lemma_wanted_words_differ(found[1]);
            }
            match text::parse_number(words[0].as_slice(), usize::MAX as u64) {
                None => {},
                Some(count) => {
                    if text::starts_with(words[1].as_slice(), "insertion") {
                        insertions = count as usize;
                    } else if text::starts_with(words[1].as_slice(), "deletion") {
                        deletions = count as usize;
                    }
                },
            }
        }
        i += 1;
    }
    assert(all.take(i as int) =~= all);
    GitStatus { branch: String::new(), insertions, deletions }
}

/// The status that two Git commands tell. A command that failed leaves no
/// status, rather than a clean one.
pub fn parsed_status(branch: Option<String>, shortstat: Option<String>) -> (r: Option<GitStatus>)
    ensures
        r is Some <==> branch is Some && shortstat is Some,
        r matches Some(status) ==> {
            &&& status.branch@ == text::trimmed(branch->Some_0@)
            &&& status.insertions == latest_count(
                text::fields(shortstat->Some_0@, ','),
                "insertion"@,
            )
            &&& status.deletions == latest_count(
                text::fields(shortstat->Some_0@, ','),
                "deletion"@,
            )
        },
{
    match (branch, shortstat) {
        (Some(branch), Some(shortstat)) => {
            let mut status = parse_shortstat(shortstat.as_str());
            status.branch = text::trim(branch.as_str());
            Some(status)
        },
        _ => None,
    }
}

/// A signed count as it is shown.
fn signed(sign: char, count: usize) -> (r: String)
    ensures
        r@ == seq![sign] + text::decimal(count as nat),
{
    let mut out = String::new();
    out.push(sign);
    let number = text::write_decimal(count as u64);
    out.append(number.as_str());
    assert(out@ =~= seq![sign] + text::decimal(count as nat));
    out
}

/// What is shown of a workspace's repository: its branch, and its counts of
/// added and deleted lines where there are any.
#[derive(Debug, PartialEq, Eq)]
pub struct GitTokens {
    pub branch: Option<String>,
    pub added: Option<String>,
    pub deleted: Option<String>,
}

/// What a text that may be absent holds.
pub open spec fn text_view(text: Option<String>) -> Option<Seq<char>> {
    match text {
        Some(text) => Some(text@),
        None => None,
    }
}

/// What is shown of a status: nothing of one that could not be read, no branch
/// without a name, no count of nought.
pub fn git_tokens(status: Option<GitStatus>) -> (r: GitTokens)
    ensures
        text_view(r.branch) == match status {
            Some(status) if status.branch@.len() > 0 => Some(status.branch@),
            _ => None,
        },
        text_view(r.added) == match status {
            Some(status) if status.insertions > 0 => Some(
                seq!['+'] + text::decimal(status.insertions as nat),
            ),
            _ => None,
        },
        text_view(r.deleted) == match status {
            Some(status) if status.deletions > 0 => Some(
                seq!['-'] + text::decimal(status.deletions as nat),
            ),
            _ => None,
        },
{
    match status {
        None => GitTokens { branch: None, added: None, deleted: None },
        Some(status) => {
            let added = if status.insertions > 0 {
                Some(signed('+', status.insertions))
            } else {
                None
            };
            let deleted = if status.deletions > 0 {
                Some(signed('-', status.deletions))
            } else {
                None
            };
            let length = text::chars_of(status.branch.as_str()).len();
            let branch = if length > 0 {
                Some(status.branch)
            } else {
                None
            };
            GitTokens { branch, added, deleted }
        },
    }
}

/// What is known of the status of one workspace.
#[derive(Debug)]
pub struct Entry {
    pub root: PathText,
    pub requested: u64,
    pub in_flight: bool,
    pub token: u64,
}

/// A request to read a status.
#[derive(Debug)]
pub struct Claim {
    pub workspace_id: WorkspaceId,
    pub root: PathText,
    pub token: u64,
}

impl Clone for Claim {
    fn clone(&self) -> (r: Self)
        ensures
            r.workspace_id == self.workspace_id,
            r.root@ == self.root@,
            r.token == self.token,
    {
        Claim { workspace_id: self.workspace_id, root: self.root.clone(), token: self.token }
    }
}

/// The statuses that were asked for, by the bits of their workspaces.
#[derive(Debug)]
pub struct RefreshState {
    pub entries: BTreeMap<u128, Entry>,
    pub next_token: u64,
}

impl Default for RefreshState {
    fn default() -> (r: Self)
        ensures
            r.entries@ == Map::<u128, Entry>::empty(),
            r.next_token == 0,
    {
        RefreshState { entries: BTreeMap::new(), next_token: 0 }
    }
}

/// The token that comes some steps behind another. After the largest comes
/// nought.
pub open spec fn stepped(token: u64, steps: nat) -> int {
    (token + steps) % 0x1_0000_0000_0000_0000
}

/// Two of fewer tokens than there are numbers differ.
pub proof fn law_tokens_differ(token: u64, first: nat, second: nat)
    requires
        first < second,
        second - first < 0x1_0000_0000_0000_0000,
    ensures
        stepped(token, first) != stepped(token, second),
{
    let size: int = 0x1_0000_0000_0000_0000;
    if stepped(token, first) == stepped(token, second) {
        vstd::arithmetic::div_mod::lemma_fundamental_div_mod(token + first, size);
        vstd::arithmetic::div_mod::lemma_fundamental_div_mod(token + second, size);
        let a = (token + first) / size;
        let b = (token + second) / size;
        assert(second - first == size * b - size * a);
        assert(size * b - size * a == size * (b - a)) by (nonlinear_arith);
        if b - a <= 0 {
            assert(size * (b - a) <= 0) by (nonlinear_arith)
                requires
                    b - a <= 0,
                    size > 0,
            ;
        } else {
            assert(size * (b - a) >= size) by (nonlinear_arith)
                requires
                    b - a >= 1,
                    size > 0,
            ;
        }
    }
}

/// Whether what is known of a workspace still speaks of the place it is at.
pub open spec fn current(
    entries: Map<u128, Entry>,
    roots: Map<u128, PathText>,
    id: u128,
) -> bool {
    entries.contains_key(id) && roots.contains_key(id) && paths::same_path(
        roots[id]@,
        entries[id].root@,
    )
}

/// Whether the status of a workspace is to be read now: nothing is known of the
/// place it is at, or what is known was asked for long enough ago and has come.
pub open spec fn due(
    entries: Map<u128, Entry>,
    roots: Map<u128, PathText>,
    now: u64,
    id: u128,
) -> bool {
    roots.contains_key(id) && (current(entries, roots, id) ==> !entries[id].in_flight && now
        - entries[id].requested >= REFRESH_INTERVAL_MS)
}

/// The claims are those that are due, in the order of the workspaces, each with
/// its place and the next token.
pub open spec fn claimed(
    entries: Map<u128, Entry>,
    next_token: u64,
    roots: Map<u128, PathText>,
    now: u64,
    claims: Seq<Claim>,
) -> bool {
    &&& forall|i: int, j: int|
        0 <= i < j < claims.len() ==> (#[trigger] claims[i]).workspace_id.0 < (
        #[trigger] claims[j]).workspace_id.0
    &&& forall|i: int|
        0 <= i < claims.len() ==> {
            let claim = #[trigger] claims[i];
            &&& due(entries, roots, now, claim.workspace_id.0)
            &&& claim.root@ == roots[claim.workspace_id.0]@
            &&& claim.token == stepped(next_token, (i + 1) as nat)
        }
    &&& forall|id: u128| #[trigger]
        due(entries, roots, now, id) ==> exists|i: int|
            0 <= i < claims.len() && #[trigger] claims[i].workspace_id.0 == id
}

/// What is known of a workspace after its claim.
pub open spec fn asked(
    entries: Map<u128, Entry>,
    roots: Map<u128, PathText>,
    now: u64,
    id: u128,
    claims: Seq<Claim>,
    entry: Entry,
) -> bool {
    &&& entry.root@ == if current(entries, roots, id) {
        entries[id].root@
    } else {
        roots[id]@
    }
    &&& entry.requested == now
    &&& entry.in_flight
    &&& exists|i: int|
        0 <= i < claims.len() && (#[trigger] claims[i]).workspace_id.0 == id && entry.token
            == claims[i].token
}

/// What is known after it was brought in line with the workspaces that there are,
/// and the claims that were made then.
pub open spec fn reconciled(
    before: RefreshState,
    roots: Map<u128, PathText>,
    now: u64,
    claims: Seq<Claim>,
    after: RefreshState,
) -> bool {
    &&& claimed(before.entries@, before.next_token, roots, now, claims)
    &&& after.next_token == stepped(before.next_token, claims.len())
    &&& after.entries@.dom() == roots.dom()
    &&& forall|id: u128| #[trigger]
        roots.contains_key(id) ==> if due(before.entries@, roots, now, id) {
            asked(before.entries@, roots, now, id, claims, after.entries@[id])
        } else {
            after.entries@[id] == before.entries@[id]
        }
}

impl RefreshState {
    fn drop_outdated(&mut self, roots: &BTreeMap<u128, PathText>)
        ensures
            final(self).next_token == old(self).next_token,
            forall|id: u128| #[trigger]
                final(self).entries@.contains_key(id) <==> current(old(self).entries@, roots@, id),
            forall|id: u128| #[trigger]
                final(self).entries@.contains_key(id) ==> final(self).entries@[id] == old(
                    self,
                ).entries@[id],
    {
        let keys = keys_of(&self.entries);
        let ghost before = self.entries@;
        let mut i: usize = 0;
        assert forall|j: int| 0 <= j < keys@.len() implies self.entries@.contains_key(
            #[trigger] keys@[j],
        ) by {
            assert(keys@.contains(keys@[j]));
        }
        while i < keys.len()
            invariant
                i <= keys.len(),
                self.next_token == old(self).next_token,
                before == old(self).entries@,
                keys@.no_duplicates(),
                forall|k: u128| #[trigger] keys@.contains(k) <==> before.contains_key(k),
                forall|id: u128| #[trigger]
                    self.entries@.contains_key(id) ==> before.contains_key(id)
                        && self.entries@[id] == before[id],
                forall|j: int|
                    i <= j < keys@.len() ==> self.entries@.contains_key(#[trigger] keys@[j]),
                forall|j: int|
                    0 <= j < i ==> (self.entries@.contains_key(#[trigger] keys@[j]) <==> current(
                        before,
                        roots@,
                        keys@[j],
                    )),
            decreases keys.len() - i,
        {
            let id: u128 = keys[i];
            assert(keys@.contains(id));
            assert(self.entries@.contains_key(keys@[i as int]));
            let keep = match roots.get(&id) {
                None => false,
                Some(root) => root.same_as(&self.entries.get(&id).unwrap().root),
            };
            if !keep {
                self.entries.remove(&id);
            }
            i += 1;
        }
        assert forall|id: u128| #[trigger] self.entries@.contains_key(id) <==> current(
            before,
            roots@,
            id,
        ) by {
            if before.contains_key(id) {
                assert(keys@.contains(id));
                let j = choose|j: int| 0 <= j < keys@.len() && keys@[j] == id;
                assert(self.entries@.contains_key(keys@[j]) <==> current(before, roots@, keys@[j]));
            }
        }
    }

    /// Brings what is known in line with the workspaces that there are, and says
    /// which statuses are to be read. The changing token binds an answer to one
    /// exact request, also across workspaces that close and come again.
    pub fn reconcile(&mut self, roots: &BTreeMap<u128, PathText>, now: u64) -> (r: Vec<Claim>)
        ensures
            reconciled(*old(self), roots@, now, r@, *final(self)),
    {
        let ghost before = self.entries@;
        let ghost token = self.next_token;
        self.drop_outdated(roots);
        let ghost kept = self.entries@;
        let keys = keys_of(roots);
        let mut claims: Vec<Claim> = Vec::new();
        let mut i: usize = 0;
        while i < keys.len()
            invariant
                i <= keys.len(),
                forall|k: u128| #[trigger] keys@.contains(k) <==> roots@.contains_key(k),
                forall|a: int, b: int| 0 <= a < b < keys@.len() ==> keys@[a] < keys@[b],
                forall|id: u128| #[trigger]
                    kept.contains_key(id) <==> current(before, roots@, id),
                forall|id: u128| #[trigger] kept.contains_key(id) ==> kept[id] == before[id],
                self.next_token == stepped(token, claims@.len()),
                claims@.len() <= i,
                forall|a: int, b: int|
                    0 <= a < b < claims@.len() ==> (#[trigger] claims@[a]).workspace_id.0 < (
                    #[trigger] claims@[b]).workspace_id.0,
                forall|a: int|
                    0 <= a < claims@.len() ==> {
                        let claim = #[trigger] claims@[a];
                        &&& due(before, roots@, now, claim.workspace_id.0)
                        &&& claim.root@ == roots@[claim.workspace_id.0]@
                        &&& claim.token == stepped(token, (a + 1) as nat)
                        &&& forall|b: int|
                            i <= b < keys@.len() ==> claim.workspace_id.0 < #[trigger] keys@[b]
                    },
                forall|a: int|
                    0 <= a < i ==> if due(before, roots@, now, #[trigger] keys@[a]) {
                        self.entries@.contains_key(keys@[a]) && asked(
                            before,
                            roots@,
                            now,
                            keys@[a],
                            claims@,
                            self.entries@[keys@[a]],
                        )
                    } else {
                        self.entries@.contains_key(keys@[a]) && self.entries@[keys@[a]]
                            == before[keys@[a]]
                    },
                forall|a: int|
                    i <= a < keys@.len() ==> (self.entries@.contains_key(#[trigger] keys@[a])
                        <==> kept.contains_key(keys@[a])) && (kept.contains_key(keys@[a])
                        ==> self.entries@[keys@[a]] == kept[keys@[a]]),
                forall|id: u128| #[trigger]
                    self.entries@.contains_key(id) ==> roots@.contains_key(id),
            decreases keys.len() - i,
        {
            let id: u128 = keys[i];
            assert(keys@.contains(id));
            assert(id == keys@[i as int]);
            let is_due = match self.entries.get(&id) {
                None => true,
                Some(entry) => !entry.in_flight && now >= entry.requested && now - entry.requested
                    >= REFRESH_INTERVAL_MS,
            };
            assert(is_due == due(before, roots@, now, id));
            if is_due {
                let ghost entries = self.entries@;
                let ghost claims_before = claims@;
                proof {
                    lemma_next(token, claims@.len());
                }
                self.next_token = self.next_token.wrapping_add(1);
                let token_now: u64 = self.next_token;
                let root = roots.get(&id).unwrap();
                let entry = match self.entries.remove(&id) {
                    Some(entry) => Entry {
                        root: entry.root,
                        requested: now,
                        in_flight: true,
                        token: token_now,
                    },
                    None => Entry {
                        root: root.clone(),
                        requested: now,
                        in_flight: true,
                        token: token_now,
                    },
                };
                self.entries.insert(id, entry);
                claims.push(
                    Claim { workspace_id: WorkspaceId(id), root: root.clone(), token: token_now },
                );
                proof {
                    assert(claims@[claims@.len() - 1].workspace_id.0 == id);
                    assert forall|a: int| 0 <= a < i implies if due(
                        before,
                        roots@,
                        now,
                        #[trigger] keys@[a],
                    ) {
                        self.entries@.contains_key(keys@[a]) && asked(
                            before,
                            roots@,
                            now,
                            keys@[a],
                            claims@,
                            self.entries@[keys@[a]],
                        )
                    } else {
                        self.entries@.contains_key(keys@[a]) && self.entries@[keys@[a]]
                            == before[keys@[a]]
                    } by {
                        assert(keys@[a] != id);
                        if due(before, roots@, now, keys@[a]) {
                            assert(asked(
                                before,
                                roots@,
                                now,
                                keys@[a],
                                claims_before,
                                entries[keys@[a]],
                            ));
                            let b = choose|b: int|
                                0 <= b < claims_before.len() && (
                                #[trigger] claims_before[b]).workspace_id.0 == keys@[a]
                                    && entries[keys@[a]].token == claims_before[b].token;
                            assert(claims@[b] == claims_before[b]);
                        }
                    }
                    assert(asked(before, roots@, now, id, claims@, self.entries@[id]));
                }
            }
            i += 1;
        }
        proof {
            assert(self.entries@.dom() =~= roots@.dom()) by {
                assert forall|id: u128| self.entries@.dom().contains(id) <==> roots@.dom().contains(
                    id,
                ) by {
                    assert(self.entries@.contains_key(id) ==> roots@.contains_key(id));
                    if roots@.contains_key(id) {
                        assert(keys@.contains(id));
                        let a = choose|a: int| 0 <= a < keys@.len() && keys@[a] == id;
                        assert(self.entries@.contains_key(keys@[a]));
                    }
                }
            }
            assert forall|id: u128| #[trigger] due(before, roots@, now, id) implies exists|a: int|
                0 <= a < claims@.len() && #[trigger] claims@[a].workspace_id.0 == id by {
                assert(keys@.contains(id));
                let a = choose|a: int| 0 <= a < keys@.len() && keys@[a] == id;
                assert(due(before, roots@, now, keys@[a]));
                let b = choose|b: int|
                    0 <= b < claims@.len() && (#[trigger] claims@[b]).workspace_id.0 == keys@[a]
                        && self.entries@[keys@[a]].token == claims@[b].token;
                assert(claims@[b].workspace_id.0 == id);
            }
            assert forall|id: u128| #[trigger] roots@.contains_key(id) implies if due(
                before,
                roots@,
                now,
                id,
            ) {
                asked(before, roots@, now, id, claims@, self.entries@[id])
            } else {
                self.entries@[id] == before[id]
            } by {
                assert(keys@.contains(id));
                let a = choose|a: int| 0 <= a < keys@.len() && keys@[a] == id;
                assert(self.entries@.contains_key(keys@[a]));
            }
        }
        claims
    }

    /// Takes an answer in, if it is the one that is awaited for its workspace.
    pub fn complete(&mut self, claim: &Claim) -> (r: bool)
        ensures
            final(self).next_token == old(self).next_token,
            r == awaited(old(self).entries@, *claim),
            final(self).entries@.dom() == old(self).entries@.dom(),
            forall|id: u128| #[trigger]
                old(self).entries@.contains_key(id) && (!r || id != claim.workspace_id.0)
                    ==> final(self).entries@[id] == old(self).entries@[id],
            r ==> final(self).entries@[claim.workspace_id.0] == (Entry {
                in_flight: false,
                ..old(self).entries@[claim.workspace_id.0]
            }),
    {
        let id: u128 = claim.workspace_id.0;
        let matches = match self.entries.get(&id) {
            None => false,
            Some(entry) => entry.in_flight && entry.root.same_as(&claim.root) && entry.token
                == claim.token,
        };
        if matches {
            let ghost before = self.entries@;
            match self.entries.remove(&id) {
                None => {},
                Some(entry) => {
                    self.entries.insert(
                        id,
                        Entry {
                            root: entry.root,
                            requested: entry.requested,
                            in_flight: false,
                            token: entry.token,
                        },
                    );
                },
            }
            assert(self.entries@.dom() =~= before.dom());
        }
        matches
    }
}

/// Whether an answer is the one that is awaited for its workspace.
pub open spec fn awaited(entries: Map<u128, Entry>, claim: Claim) -> bool {
    let id = claim.workspace_id.0;
    &&& entries.contains_key(id)
    &&& entries[id].in_flight
    &&& paths::same_path(entries[id].root@, claim.root@)
    &&& entries[id].token == claim.token
}

proof fn lemma_next(token: u64, steps: nat)
    ensures
        0 <= stepped(token, steps) <= u64::MAX,
        stepped(token, steps + 1) == (stepped(token, steps) + 1) % 0x1_0000_0000_0000_0000,
{
    vstd::arithmetic::div_mod::lemma_mod_adds(
        token + steps,
        1,
        0x1_0000_0000_0000_0000,
    );
    vstd::arithmetic::div_mod::lemma_add_mod_noop(token + steps, 1, 0x1_0000_0000_0000_0000);
}

/// After what is known was brought in line with the workspaces, every claim made
/// then is awaited, and an earlier answer with another token is not.
pub proof fn law_stale_answers_are_ignored(
    before: RefreshState,
    roots: Map<u128, PathText>,
    now: u64,
    claims: Seq<Claim>,
    after: RefreshState,
    index: int,
    earlier: Claim,
)
    requires
        reconciled(before, roots, now, claims, after),
        0 <= index < claims.len(),
        earlier.workspace_id == claims[index].workspace_id,
        earlier.token != claims[index].token,
    ensures
        awaited(after.entries@, claims[index]),
        !awaited(after.entries@, earlier),
{
}

/// A workspace, and the place that all its panes are at, if they agree on one.
#[derive(Debug)]
pub struct WorkspaceLocation {
    pub session_closing: bool,
    pub closing: bool,
    pub id: WorkspaceId,
    pub location: Option<PathText>,
}

/// A workspace that is open in an open session.
pub open spec fn open_workspace(workspace: WorkspaceLocation) -> bool {
    !workspace.session_closing && !workspace.closing
}

/// Where the statuses of open workspaces are to be read, and which open
/// workspaces are at no single place.
pub fn refresh_roots(workspaces: &Vec<WorkspaceLocation>) -> (r: (
    BTreeMap<u128, PathText>,
    Vec<WorkspaceId>,
))
    requires
        forall|i: int, j: int|
            0 <= i < j < workspaces@.len() ==> (#[trigger] workspaces@[i]).id != (
            #[trigger] workspaces@[j]).id,
    ensures
        forall|id: u128| #[trigger]
            r.0@.contains_key(id) <==> exists|i: int|
                0 <= i < workspaces@.len() && open_workspace(#[trigger] workspaces@[i])
                    && workspaces@[i].id.0 == id && workspaces@[i].location is Some,
        forall|i: int|
            0 <= i < workspaces@.len() && open_workspace(#[trigger] workspaces@[i])
                && workspaces@[i].location is Some ==> r.0@[workspaces@[i].id.0]@
                == workspaces@[i].location->Some_0@,
        r.1@ == divided(workspaces@),
{
    let mut roots: BTreeMap<u128, PathText> = BTreeMap::new();
    let mut apart: Vec<WorkspaceId> = Vec::new();
    let mut i: usize = 0;
    assert(workspaces@.take(0) =~= Seq::<WorkspaceLocation>::empty());
    while i < workspaces.len()
        invariant
            i <= workspaces.len(),
            forall|a: int, b: int|
                0 <= a < b < workspaces@.len() ==> (#[trigger] workspaces@[a]).id != (
                #[trigger] workspaces@[b]).id,
            forall|id: u128| #[trigger]
                roots@.contains_key(id) ==> exists|a: int|
                    0 <= a < i && open_workspace(#[trigger] workspaces@[a]) && workspaces@[a].id.0
                        == id && workspaces@[a].location is Some,
            forall|a: int|
                0 <= a < i && open_workspace(#[trigger] workspaces@[a])
                    && workspaces@[a].location is Some ==> roots@.contains_key(
                    workspaces@[a].id.0,
                ) && roots@[workspaces@[a].id.0]@ == workspaces@[a].location->Some_0@,
            apart@ == divided(workspaces@.take(i as int)),
        decreases workspaces.len() - i,
    {
        let workspace = &workspaces[i];
        let ghost before = roots@;
        proof {
            assert(workspaces@.take(i as int + 1).drop_last() =~= workspaces@.take(i as int));
            assert(workspaces@.take(i as int + 1).last() == workspaces@[i as int]);
        }
        if !workspace.session_closing && !workspace.closing {
            match &workspace.location {
                Some(location) => {
                    roots.insert(workspace.id.0, location.clone());
                    assert forall|a: int|
                        0 <= a < i && open_workspace(#[trigger] workspaces@[a])
                            && workspaces@[a].location is Some implies roots@.contains_key(
                        workspaces@[a].id.0,
                    ) && roots@[workspaces@[a].id.0]@ == workspaces@[a].location->Some_0@ by {
                        assert(workspaces@[a].id != workspaces@[i as int].id);
                        assert(workspaces@[a].id.0 != workspaces@[i as int].id.0) by {
                            assert(workspaces@[a].id == WorkspaceId(workspaces@[a].id.0));
                        }
                    }
                    assert forall|id: u128| #[trigger] roots@.contains_key(id) implies exists|
                        a: int,
                    |
                        0 <= a < i + 1 && open_workspace(#[trigger] workspaces@[a])
                            && workspaces@[a].id.0 == id && workspaces@[a].location is Some by {
                        if id == workspaces@[i as int].id.0 {
                            assert(open_workspace(workspaces@[i as int]));
                        } else {
                            assert(before.contains_key(id));
                        }
                    }
                },
                None => {
                    apart.push(workspace.id);
                },
            }
        }
        i += 1;
    }
    assert(workspaces@.take(i as int) =~= workspaces@);
    (roots, apart)
}

/// The open workspaces that are at no single place, in order.
pub open spec fn divided(workspaces: Seq<WorkspaceLocation>) -> Seq<WorkspaceId>
    decreases workspaces.len(),
{
    if workspaces.len() == 0 {
        Seq::empty()
    } else {
        let rest = divided(workspaces.drop_last());
        let last = workspaces.last();
        if open_workspace(last) && last.location is None {
            rest.push(last.id)
        } else {
            rest
        }
    }
}

/// Whether an answer is still to be shown: its workspace is where the status was
/// read.
pub fn still_there(current: &Option<PathText>, claim: &Claim) -> (r: bool)
    ensures
        r == (current is Some && paths::same_path(current->Some_0@, claim.root@)),
{
    match current {
        Some(location) => location.same_as(&claim.root),
        None => false,
    }
}

/// Shows what was read of a workspace's repository, unless the workspace is
/// elsewhere by now. `shown` is the tree that shows it, and whether that differs
/// from the tree before, or why there is none.
pub fn publish(
    state: &mut SharedState,
    current: &Option<PathText>,
    claim: &Claim,
    shown: Result<(ResourceTree, bool), ResourceError>,
)
    requires
        old(state).wf(),
        shown matches Ok(shown) ==> model::wf(shown.0@),
    ensures
        final(state).wf(),
        final(state)@ == match shown {
            Ok(shown) if current is Some && paths::same_path(current->Some_0@, claim.root@) => {
                let taken = StateModel { tree: shown.0@, ..old(state)@ };
                if shown.1 {
                    state::announced(taken, shown.0@.revision)
                } else {
                    taken
                }
            },
            _ => old(state)@,
        },
{
    if !still_there(current, claim) {
        return;
    }
    match shown {
        Err(_) => {},
        Ok(shown) => {
            state.resources = shown.0;
            if shown.1 {
                let revision = state.resources.revision;
                state.publish_resource_change(revision);
            }
        },
    }
}

/// A summary of changes is read for what it says: so many insertions and so many deletions,
/// whatever it says of files before.
pub proof fn law_summaries_are_read(start: Seq<char>, added: nat, deleted: nat)
    requires
        added <= usize::MAX,
        deleted <= usize::MAX,
    ensures
        ({
            let summary = start + seq![','] + (seq![' '] + text::decimal(added) + seq![' ']
                + "insertions(+)"@) + seq![','] + (seq![' '] + text::decimal(deleted) + seq![' ']
                + "deletions(-)"@);
            let fields = text::fields(summary, ',');
            &&& latest_count(fields, "insertion"@) == added
            &&& latest_count(fields, "deletion"@) == deleted
        }),
{
    reveal_strlit("insertions(+)");
    reveal_strlit("deletions(-)");
    reveal_strlit("insertion");
    reveal_strlit("deletion");
    let more = "insertions(+)"@;
    let less = "deletions(-)"@;
    assert("insertion"@.len() == 9 && "deletion"@.len() == 8);
    assert(more.take(9) =~= "insertion"@);
    assert(less.take(8) =~= "deletion"@);
    assert(less.take(9)[0] != "insertion"@[0]);
    let first = seq![' '] + text::decimal(added) + seq![' '] + more;
    let second = seq![' '] + text::decimal(deleted) + seq![' '] + less;
    lemma_count_field(added, more);
    lemma_count_field(deleted, less);
    text::law_fields_stand_between_separators(start, first, ',');
    text::law_fields_stand_between_separators(start + seq![','] + first, second, ',');
    let fields = text::fields(start + seq![','] + first + seq![','] + second, ',');
    let before = text::fields(start, ',');
    assert(fields =~= before.push(first).push(second));
    assert(fields.drop_last() =~= before.push(first));
    assert(fields.last() == second);
    assert(before.push(first).last() == first);
    assert(text::starts(less, "deletion"@) && text::starts(more, "insertion"@));
    assert(!text::starts(less, "insertion"@));
    assert(field_count(second, "deletion"@) == Some(deleted));
    assert(field_count(second, "insertion"@) is None);
    assert(field_count(first, "insertion"@) == Some(added));
    assert(latest_count(before.push(first), "insertion"@) == added);
    assert(latest_count(fields, "insertion"@) == added);
    assert(latest_count(fields, "deletion"@) == deleted);
}

proof fn lemma_count_field(count: nat, what: Seq<char>)
    requires
        what.len() > 0,
        forall|i: int| 0 <= i < what.len() ==> !text::whitespace(#[trigger] what[i]) && what[i]
            != ',',
    ensures
        ({
            let field = seq![' '] + text::decimal(count) + seq![' '] + what;
            &&& text::words(field) == seq![text::decimal(count), what]
            &&& !field.contains(',')
            &&& count <= usize::MAX ==> text::parsed(text::decimal(count), usize::MAX as int)
                == Some(count)
        }),
{
    let shown = text::decimal(count);
    let none = Seq::<char>::empty();
    let field = seq![' '] + shown + seq![' '] + what;
    text::law_decimals_are_read_back(count);
    text::law_numbers_are_made_of_digits(none, usize::MAX as int, count);
    assert forall|i: int| 0 <= i < shown.len() implies !text::whitespace(#[trigger] shown[i])
        && shown[i] != ',' by {
        assert(text::digit(shown[i]));
    }
    assert(field =~= (none + seq![' '] + shown) + seq![' '] + what);
    text::law_words_stand_between_blanks(none, shown, ' ');
    text::law_words_stand_between_blanks(none + seq![' '] + shown, what, ' ');
    text::law_one_word(none);
    text::law_one_word(shown);
    text::law_one_word(what);
    assert(text::words(field) =~= seq![shown, what]);
    assert forall|i: int| 0 <= i < field.len() implies field[i] != ',' by {
        if 1 <= i < 1 + shown.len() {
            assert(field[i] == shown[i - 1]);
        } else if i > 1 + shown.len() {
            assert(field[i] == what[i - 2 - shown.len()]);
        }
    }
}

/// A workspace is asked about as soon as it is there and again once it has moved. Else it is
/// asked about again five seconds after the last time, and never while an answer is awaited.
pub proof fn law_workspaces_are_asked_about_in_time(
    entries: Map<u128, Entry>,
    roots: Map<u128, PathText>,
    now: u64,
    id: u128,
)
    ensures
        !roots.contains_key(id) ==> !due(entries, roots, now, id),
        roots.contains_key(id) && !entries.contains_key(id) ==> due(entries, roots, now, id),
        roots.contains_key(id) && entries.contains_key(id) && !paths::same_path(
            roots[id]@,
            entries[id].root@,
        ) ==> due(entries, roots, now, id),
        roots.contains_key(id) && entries.contains_key(id) && paths::same_path(
            roots[id]@,
            entries[id].root@,
        ) ==> (due(entries, roots, now, id) <==> !entries[id].in_flight && now
            >= entries[id].requested + 5000),
{
}

/// An answer is awaited of the workspace, the root and the question that it is to, and only
/// once.
pub proof fn law_answers_are_to_questions(entries: Map<u128, Entry>, claim: Claim)
    ensures
        awaited(entries, claim) ==> entries.contains_key(claim.workspace_id.0)
            && entries[claim.workspace_id.0].in_flight && entries[claim.workspace_id.0].token
            == claim.token && paths::same_path(
            entries[claim.workspace_id.0].root@,
            claim.root@,
        ),
        awaited(entries, claim) ==> !awaited(
            entries.insert(
                claim.workspace_id.0,
                Entry { in_flight: false, ..entries[claim.workspace_id.0] },
            ),
            claim,
        ),
{
}

/// The workspaces without one location are those that are open and have none, in order.
pub proof fn law_divided_workspaces_are_listed(workspaces: Seq<WorkspaceLocation>)
    ensures
        divided(workspaces) == workspaces.filter(
            |workspace: WorkspaceLocation|
                !workspace.session_closing && !workspace.closing && workspace.location is None,
        ).map_values(|workspace: WorkspaceLocation| workspace.id),
    decreases workspaces.len(),
{
    reveal(Seq::filter);
    let keep = |workspace: WorkspaceLocation|
        !workspace.session_closing && !workspace.closing && workspace.location is None;
    let name = |workspace: WorkspaceLocation| workspace.id;
    if workspaces.len() > 0 {
        law_divided_workspaces_are_listed(workspaces.drop_last());
        let before = workspaces.drop_last().filter(keep);
        if keep(workspaces.last()) {
            assert(before.push(workspaces.last()).map_values(name) =~= before.map_values(name).push(
                workspaces.last().id,
            ));
        }
    } else {
        assert(workspaces.filter(keep).map_values(name) =~= Seq::<WorkspaceId>::empty());
    }
}

} // verus!
