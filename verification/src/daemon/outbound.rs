//! What waits to be written to a client.
//!
//! Reads and writes never share one loop: a flood of scrolling answers every
//! event with a screen, and once both socket buffers fill, a loop that blocks on
//! writing stops reading and deadlocks against a client that does the same.
//! Enqueueing never blocks, and while the writer lags only the newest screen of
//! each terminal is kept. All other messages are delivered verbatim in order.

use std::collections::{BTreeMap, VecDeque};

use vstd::prelude::*;

use crate::domain::screen::{self, diff_rows, ScreenDelta, ScreenModel, ScreenSnapshot};
use crate::domain::TerminalId;
use crate::protocol::ServerMessage;

verus! {

/// How long a client may take to read what was queued when its handler ended, in
/// milliseconds.
pub const OUTBOUND_FLUSH_DEADLINE_MS: u64 = 10_000;

/// One thing to write.
#[derive(Debug)]
pub enum Outbound {
    Frame(Vec<u8>),
    Snapshot {
        terminal_id: TerminalId,
        screen: ScreenSnapshot,
        /// Send the whole screen even where a difference to the last one would
        /// do: the client may not hold the grid that a difference starts from.
        force_full: bool,
    },
}

/// What waits to be written to one client.
#[derive(Debug)]
pub struct OutboundQueue {
    pub items: VecDeque<Outbound>,
    pub finished: bool,
    pub failed: bool,
}

/// Where a screen of a terminal waits that a newer one may replace: behind it
/// wait only screens.
pub open spec fn pending(items: Seq<Outbound>, terminal: TerminalId) -> Option<int>
    decreases items.len(),
{
    if items.len() == 0 {
        None
    } else {
        match items.last() {
            Outbound::Frame(_) => None,
            Outbound::Snapshot { terminal_id, .. } => if terminal_id == terminal {
                Some(items.len() - 1)
            } else {
                pending(items.drop_last(), terminal)
            },
        }
    }
}

/// What waits once one more thing does. A screen replaces the one of its
/// terminal in its place, but never across a frame. A screen that had to be sent
/// in full stays so.
pub open spec fn pushed(items: Seq<Outbound>, item: Outbound) -> Seq<Outbound> {
    match item {
        Outbound::Frame(_) => items.push(item),
        Outbound::Snapshot { terminal_id, screen, force_full } => match pending(
            items,
            terminal_id,
        ) {
            None => items.push(item),
            Some(i) => items.update(
                i,
                Outbound::Snapshot {
                    terminal_id,
                    screen,
                    force_full: force_full || items[i]->Snapshot_force_full,
                },
            ),
        },
    }
}

proof fn lemma_pending(items: Seq<Outbound>, terminal: TerminalId)
    ensures
        pending(items, terminal) matches Some(i) ==> 0 <= i < items.len() && items[i] is Snapshot
            && items[i]->Snapshot_terminal_id == terminal && forall|j: int|
            i < j < items.len() ==> (#[trigger] items[j]) is Snapshot && items[j]->Snapshot_terminal_id
                != terminal,
    decreases items.len(),
{
    if items.len() > 0 {
        let rest = items.drop_last();
        lemma_pending(rest, terminal);
        match pending(items, terminal) {
            None => {},
            Some(i) => {
                assert forall|j: int| i < j < items.len() implies (#[trigger] items[j]) is Snapshot
                    && items[j]->Snapshot_terminal_id != terminal by {
                    if j < rest.len() {
                        assert(rest[j] == items[j]);
                    }
                }
                if i < rest.len() {
                    assert(rest[i] == items[i]);
                }
            },
        }
    }
}

impl Default for OutboundQueue {
    fn default() -> (r: Self)
        ensures
            r.items@ == Seq::<Outbound>::empty(),
            !r.finished,
            !r.failed,
    {
        OutboundQueue { items: VecDeque::new(), finished: false, failed: false }
    }
}

impl OutboundQueue {
    fn pending_snapshot(&self, terminal: TerminalId) -> (r: Option<usize>)
        ensures
            match pending(self.items@, terminal) {
                Some(i) => r matches Some(found) && found == i,
                None => r is None,
            },
    {
        let mut i: usize = self.items.len();
        assert(self.items@.take(i as int) =~= self.items@);
        while i > 0
            invariant
                i <= self.items@.len(),
                pending(self.items@, terminal) == pending(self.items@.take(i as int), terminal),
            decreases i,
        {
            assert(self.items@.take(i as int).drop_last() =~= self.items@.take(i as int - 1));
            assert(self.items@.take(i as int).last() == self.items@[i as int - 1]);
            match &self.items[i - 1] {
                Outbound::Frame(_) => {
                    return None;
                },
                Outbound::Snapshot { terminal_id, .. } => {
                    if terminal_id.0 == terminal.0 {
                        return Some(i - 1);
                    }
                },
            }
            i -= 1;
        }
        None
    }

    /// Lets one more thing wait. Fails once the writer has stopped.
    pub fn push(&mut self, item: Outbound) -> (r: Result<(), &'static str>)
        ensures
            final(self).finished == old(self).finished,
            final(self).failed == old(self).failed,
            if old(self).failed {
                r == Err::<(), &'static str>("client connection writer stopped") && final(self).items@ == old(self).items@
            } else {
                r is Ok && final(self).items@ == pushed(old(self).items@, item)
            },
    {
        if self.failed {
            return Err("client connection writer stopped");
        }
        match item {
            Outbound::Frame(bytes) => {
                self.items.push_back(Outbound::Frame(bytes));
            },
            Outbound::Snapshot { terminal_id, screen, force_full } => {
                let ghost before = self.items@;
                proof {
                    lemma_pending(before, terminal_id);
                }
                match self.pending_snapshot(terminal_id) {
                    None => {
                        self.items.push_back(
                            Outbound::Snapshot { terminal_id, screen, force_full },
                        );
                    },
                    Some(i) => {
                        let forced = match self.items.remove(i) {
                            Some(Outbound::Snapshot { force_full: forced, .. }) => forced,
                            _ => false,
                        };
                        self.items.insert(
                            i,
                            Outbound::Snapshot {
                                terminal_id,
                                screen,
                                force_full: force_full || forced,
                            },
                        );
                        assert(self.items@ =~= before.update(
                            i as int,
                            Outbound::Snapshot {
                                terminal_id,
                                screen,
                                force_full: force_full || before[i as int]->Snapshot_force_full,
                            },
                        ));
                    },
                }
            },
        }
        Ok(())
    }

    /// Takes the thing that has waited longest.
    pub fn pop(&mut self) -> (r: Option<Outbound>)
        ensures
            final(self).finished == old(self).finished,
            final(self).failed == old(self).failed,
            if old(self).items@.len() == 0 {
                r is None && final(self).items@ == old(self).items@
            } else {
                r == Some(old(self).items@[0]) && final(self).items@ == old(self).items@.drop_first()
            },
    {
        let ghost before = self.items@;
        let r = self.items.pop_front();
        assert(before.len() > 0 ==> self.items@ =~= before.drop_first());
        r
    }

    /// Nothing more will be put in the queue.
    pub fn finish(&mut self)
        ensures
            final(self).items@ == old(self).items@,
            final(self).finished,
            final(self).failed == old(self).failed,
    {
        self.finished = true;
    }

    /// Whether nothing more will be put in the queue.
    pub fn is_finished(&self) -> (r: bool)
        ensures
            r == self.finished,
    {
        self.finished
    }

    /// The writer has stopped: what waits is lost, and nothing more may wait.
    pub fn fail(&mut self)
        ensures
            final(self).items@ == Seq::<Outbound>::empty(),
            final(self).finished == old(self).finished,
            final(self).failed,
    {
        self.failed = true;
        self.items.clear();
    }

    /// What the writer does next. A frame that is written after the queue was
    /// finished has a deadline.
    pub fn write_outbound(&mut self, last_sent: &mut BTreeMap<u128, ScreenSnapshot>) -> (r:
        WriterStep)
        requires
            complete_screens(old(last_sent)@),
            forall|i: int|
                0 <= i < old(self).items@.len() && (#[trigger] old(self).items@[i]) is Snapshot
                    ==> screen::complete(old(self).items@[i]->Snapshot_screen@),
        ensures
            final(self).finished == old(self).finished,
            final(self).failed == old(self).failed,
            complete_screens(final(last_sent)@),
            if old(self).items@.len() == 0 {
                &&& final(self).items@ == old(self).items@
                &&& final(last_sent)@ == old(last_sent)@
                &&& r == if old(self).finished {
                    WriterStep::Stop
                } else {
                    WriterStep::Wait
                }
            } else {
                &&& final(self).items@ == old(self).items@.drop_first()
                &&& match old(self).items@[0] {
                    Outbound::Frame(bytes) => final(last_sent)@ == old(last_sent)@ && r
                        == WriterStep::Send { bytes, deadline: old(self).finished },
                    Outbound::Snapshot { terminal_id, screen, force_full } => {
                        r matches WriterStep::Encode { message, deadline } && deadline == old(self).finished && message_for(
                            terminal_id,
                            screen@,
                            force_full,
                            old(last_sent)@,
                            message,
                        ) && sent_is(terminal_id, screen@, old(last_sent)@, final(last_sent)@)
                    },
                }
            },
    {
        let item = match self.pop() {
            None => {
                return if self.finished {
                    WriterStep::Stop
                } else {
                    WriterStep::Wait
                };
            },
            Some(item) => item,
        };
        let deadline = self.is_finished();
        match item {
            Outbound::Frame(bytes) => WriterStep::Send { bytes, deadline },
            Outbound::Snapshot { terminal_id, screen, force_full } => {
                let message = snapshot_message(terminal_id, screen, force_full, last_sent);
                WriterStep::Encode { message, deadline }
            },
        }
    }
}

/// What the writer does next.
#[derive(Debug)]
pub enum WriterStep {
    /// Nothing waits and nothing will.
    Stop,
    /// Nothing waits yet.
    Wait,
    /// Write a frame.
    Send { bytes: Vec<u8>, deadline: bool },
    /// Encode a message and write it.
    Encode { message: ServerMessage, deadline: bool },
}

/// Every screen that was sent has one cell for every position of its grid.
pub open spec fn complete_screens(sent: Map<u128, ScreenSnapshot>) -> bool {
    forall|k: u128| #[trigger] sent.contains_key(k) ==> screen::complete(sent[k]@)
}

/// Whether a screen can be sent as a difference to the last one that was sent of
/// its terminal: it need not be sent in full, the grid has kept its size, and no
/// more than three fifths of the rows differ.
pub open spec fn as_delta(
    terminal: TerminalId,
    next: ScreenModel,
    force_full: bool,
    sent: Map<u128, ScreenSnapshot>,
) -> bool {
    &&& !force_full
    &&& sent.contains_key(terminal.0)
    &&& sent[terminal.0].size == next.size
    &&& !screen::too_many(
        screen::changed_rows(sent[terminal.0]@, next, next.size.rows as int).len() as int,
        next.size.rows as int,
    )
}

/// The message that carries a screen.
pub open spec fn message_for(
    terminal: TerminalId,
    next: ScreenModel,
    force_full: bool,
    sent: Map<u128, ScreenSnapshot>,
    message: ServerMessage,
) -> bool {
    if as_delta(terminal, next, force_full, sent) {
        let previous = sent[terminal.0]@;
        message matches ServerMessage::SnapshotDelta { terminal_id, delta } && {
            &&& terminal_id == terminal
            &&& delta.revision == next.revision
            &&& delta.base_revision == previous.revision
            &&& delta.size == next.size
            &&& delta.cursor == next.cursor
            &&& delta.scroll == next.scroll
            &&& screen::row_views(delta.rows@) == screen::changed_rows(
                previous,
                next,
                next.size.rows as int,
            )
        }
    } else {
        message matches ServerMessage::Snapshot { terminal_id, screen } && terminal_id == terminal
            && screen@ == next
    }
}

/// The screens that were sent once one more was.
pub open spec fn sent_is(
    terminal: TerminalId,
    next: ScreenModel,
    before: Map<u128, ScreenSnapshot>,
    after: Map<u128, ScreenSnapshot>,
) -> bool {
    &&& after.dom() == before.dom().insert(terminal.0)
    &&& after[terminal.0]@ == next
    &&& forall|k: u128| #[trigger]
        before.contains_key(k) && k != terminal.0 ==> after[k] == before[k]
}

/// Chooses between a whole screen and a difference to the screen that was last
/// written to this connection, never to what a client was last meant to see:
/// screens that newer ones replaced were not written.
pub fn snapshot_message(
    terminal_id: TerminalId,
    screen: ScreenSnapshot,
    force_full: bool,
    last_sent: &mut BTreeMap<u128, ScreenSnapshot>,
) -> (r: ServerMessage)
    requires
        screen::complete(screen@),
        complete_screens(old(last_sent)@),
    ensures
        message_for(terminal_id, screen@, force_full, old(last_sent)@, r),
        sent_is(terminal_id, screen@, old(last_sent)@, final(last_sent)@),
        complete_screens(final(last_sent)@),
{
    let ghost before = last_sent@;
    let delta: Option<ScreenDelta> = if force_full {
        None
    } else {
        match last_sent.get(&terminal_id.0) {
            None => None,
            Some(previous) => {
                if previous.size != screen.size {
                    None
                } else {
                    match diff_rows(previous, &screen) {
                        None => None,
                        Some(rows) => Some(
                            ScreenDelta {
                                revision: screen.revision,
                                base_revision: previous.revision,
                                size: screen.size,
                                rows,
                                cursor: screen.cursor,
                                scroll: screen.scroll,
                            },
                        ),
                    }
                }
            },
        }
    };
    match delta {
        Some(delta) => {
            last_sent.insert(terminal_id.0, screen);
            assert(last_sent@.dom() =~= before.dom().insert(terminal_id.0));
            ServerMessage::SnapshotDelta { terminal_id, delta }
        },
        None => {
            let copy = screen.clone();
            last_sent.insert(terminal_id.0, copy);
            assert(last_sent@.dom() =~= before.dom().insert(terminal_id.0));
            ServerMessage::Snapshot { terminal_id, screen }
        },
    }
}

/// What a client shows of a terminal once it took a message in: the screen that
/// was sent, or its own with the rows replaced that differ.
pub open spec fn cells_after(shown: ScreenModel, message: ServerMessage) -> Seq<screen::CellModel> {
    match message {
        ServerMessage::Snapshot { screen, .. } => screen@.cells,
        ServerMessage::SnapshotDelta { delta, .. } => screen::spliced(
            shown.cells,
            delta.size.columns as int,
            screen::row_views(delta.rows@),
        ),
        _ => shown.cells,
    }
}

/// A client that shows what was last sent shows the next screen exactly once it
/// took its message in, whether it came in full or as a difference.
pub proof fn law_client_follows_every_screen(
    terminal: TerminalId,
    next: ScreenModel,
    force_full: bool,
    sent: Map<u128, ScreenSnapshot>,
    message: ServerMessage,
)
    requires
        screen::complete(next),
        complete_screens(sent),
        sent.contains_key(terminal.0),
        message_for(terminal, next, force_full, sent, message),
    ensures
        cells_after(sent[terminal.0]@, message) == next.cells,
{
    if as_delta(terminal, next, force_full, sent) {
        screen::law_delta_rebuilds_the_screen(sent[terminal.0]@, next);
    }
}

/// What a client shows of a terminal once it took a message in: all of the screen
/// that was sent, or its own cells with the rows replaced that differ, under the
/// size, the cursor, the scroll position and the revision of the difference.
pub open spec fn shown_after(shown: ScreenModel, message: ServerMessage) -> ScreenModel {
    match message {
        ServerMessage::Snapshot { screen, .. } => screen@,
        ServerMessage::SnapshotDelta { delta, .. } => ScreenModel {
            revision: delta.revision,
            size: delta.size,
            cells: screen::spliced(
                shown.cells,
                delta.size.columns as int,
                screen::row_views(delta.rows@),
            ),
            cursor: delta.cursor,
            scroll: delta.scroll,
        },
        _ => shown,
    }
}

/// A client that shows the screen that was last sent of a terminal shows all of the
/// next one once it took its message in: the cells, the cursor, the scroll position,
/// the size and the revision, whether the message is a whole screen or a difference.
/// The message names the terminal, and a difference names the revision that the
/// client shows. What is remembered as sent is then what the client shows, and of
/// every other terminal it is what it was.
pub proof fn law_client_shows_all_of_every_screen(
    terminal: TerminalId,
    next: ScreenModel,
    force_full: bool,
    sent: Map<u128, ScreenSnapshot>,
    message: ServerMessage,
    after: Map<u128, ScreenSnapshot>,
)
    requires
        screen::complete(next),
        complete_screens(sent),
        sent.contains_key(terminal.0),
        message_for(terminal, next, force_full, sent, message),
        sent_is(terminal, next, sent, after),
    ensures
        shown_after(sent[terminal.0]@, message).revision == next.revision,
        shown_after(sent[terminal.0]@, message).size == next.size,
        shown_after(sent[terminal.0]@, message).cells == next.cells,
        shown_after(sent[terminal.0]@, message).cursor == next.cursor,
        shown_after(sent[terminal.0]@, message).scroll == next.scroll,
        shown_after(sent[terminal.0]@, message) == after[terminal.0]@,
        message is Snapshot || message is SnapshotDelta,
        message matches ServerMessage::Snapshot { terminal_id, .. } ==> terminal_id == terminal,
        message matches ServerMessage::SnapshotDelta { terminal_id, delta } ==> terminal_id
            == terminal && delta.base_revision == sent[terminal.0].revision,
        after.contains_key(terminal.0),
        forall|k: u128|
            k != terminal.0 ==> #[trigger] after.contains_key(k) == sent.contains_key(k),
        forall|k: u128| k != terminal.0 && sent.contains_key(k) ==> after[k] == #[trigger] sent[k],
{
    if as_delta(terminal, next, force_full, sent) {
        screen::law_delta_rebuilds_the_screen(sent[terminal.0]@, next);
    }
    assert(shown_after(sent[terminal.0]@, message) == next);
    assert forall|k: u128| k != terminal.0 implies #[trigger] after.contains_key(k)
        == sent.contains_key(k) by {
        assert(after.dom().contains(k) == sent.dom().insert(terminal.0).contains(k));
    }
    assert forall|k: u128| k != terminal.0 && sent.contains_key(k) implies after[k]
        == #[trigger] sent[k] by {
        assert(sent.contains_key(k));
    }
    assert(after.dom().contains(terminal.0) == sent.dom().insert(terminal.0).contains(terminal.0));
}

/// The first screen of a terminal that a client is sent is a whole one, and so is a
/// screen that has to be, and one of another size than the last. It is the screen
/// itself, and the client shows it whatever it showed.
pub proof fn law_unknown_grids_get_whole_screens(
    terminal: TerminalId,
    next: ScreenModel,
    force_full: bool,
    sent: Map<u128, ScreenSnapshot>,
    message: ServerMessage,
    shown: ScreenModel,
)
    requires
        message_for(terminal, next, force_full, sent, message),
        force_full || !sent.contains_key(terminal.0) || sent[terminal.0].size != next.size,
    ensures
        message is Snapshot,
        message->Snapshot_terminal_id == terminal,
        message->Snapshot_screen@ == next,
        shown_after(shown, message) == next,
{
}

/// A screen of the size of the last one goes out as a difference exactly when no
/// more than three fifths of the rows differ, and the difference holds the rows that
/// differ and no others. `rows` are the rows that differ.
pub proof fn law_differences_hold_what_differs(
    terminal: TerminalId,
    next: ScreenModel,
    sent: Map<u128, ScreenSnapshot>,
    message: ServerMessage,
    rows: Set<int>,
)
    requires
        sent.contains_key(terminal.0),
        sent[terminal.0].size == next.size,
        message_for(terminal, next, false, sent, message),
        forall|row: int|
            #![trigger rows.contains(row)]
            rows.contains(row) == (0 <= row < next.size.rows && screen::row_of(
                sent[terminal.0]@,
                row,
            ) != screen::row_of(next, row)),
    ensures
        rows.finite(),
        message is SnapshotDelta <==> rows.len() * 5 <= next.size.rows * 3,
        message matches ServerMessage::SnapshotDelta { delta, .. } ==> {
            &&& delta.rows@.len() == rows.len()
            &&& forall|i: int|
                0 <= i < delta.rows@.len() ==> rows.contains(
                    (#[trigger] delta.rows@[i]).index as int,
                ) && delta.rows@[i]@.cells == screen::row_of(next, delta.rows@[i].index as int)
            &&& forall|i: int, j: int|
                0 <= i < j < delta.rows@.len() ==> (#[trigger] delta.rows@[i]).index < (
                #[trigger] delta.rows@[j]).index
        },
{
    let previous = sent[terminal.0]@;
    screen::lemma_changed_rows_are_counted(previous, next, next.size.rows as int);
    assert(rows =~= screen::differing(previous, next, next.size.rows as int));
    if let ServerMessage::SnapshotDelta { delta, .. } = message {
        let views = screen::row_views(delta.rows@);
        let changed = screen::changed_rows(previous, next, next.size.rows as int);
        assert forall|i: int| 0 <= i < delta.rows@.len() implies rows.contains(
            (#[trigger] delta.rows@[i]).index as int,
        ) && delta.rows@[i]@.cells == screen::row_of(next, delta.rows@[i].index as int) by {
            assert(views[i] == delta.rows@[i]@);
            assert(views[i] == changed[i]);
        }
        assert forall|i: int, j: int| 0 <= i < j < delta.rows@.len() implies (#[trigger]
        delta.rows@[i]).index < (#[trigger] delta.rows@[j]).index by {
            assert(views[i] == delta.rows@[i]@ && views[j] == delta.rows@[j]@);
            assert(changed[i].index < changed[j].index);
        }
    }
}

/// The frames among the things that wait, in order.
pub open spec fn frames(items: Seq<Outbound>) -> Seq<Outbound>
    decreases items.len(),
{
    if items.len() == 0 {
        Seq::empty()
    } else if items.last() is Frame {
        frames(items.drop_last()).push(items.last())
    } else {
        frames(items.drop_last())
    }
}

proof fn lemma_frames_update(items: Seq<Outbound>, index: int, item: Outbound)
    requires
        0 <= index < items.len(),
        items[index] is Snapshot,
        item is Snapshot,
    ensures
        frames(items.update(index, item)) == frames(items),
    decreases items.len(),
{
    let changed = items.update(index, item);
    if index == items.len() - 1 {
        assert(changed.drop_last() =~= items.drop_last());
    } else {
        assert(changed.drop_last() =~= items.drop_last().update(index, item));
        lemma_frames_update(items.drop_last(), index, item);
    }
}

/// No frame is lost or overtaken by another: whatever is pushed, the frames that
/// waited still wait in their order, and a pushed frame waits behind them.
pub proof fn law_frames_stay_in_order(items: Seq<Outbound>, item: Outbound)
    ensures
        frames(pushed(items, item)) == if item is Frame {
            frames(items).push(item)
        } else {
            frames(items)
        },
{
    match item {
        Outbound::Frame(_) => {
            assert(items.push(item).drop_last() =~= items);
        },
        Outbound::Snapshot { terminal_id, screen, force_full } => {
            lemma_pending(items, terminal_id);
            match pending(items, terminal_id) {
                None => {
                    assert(items.push(item).drop_last() =~= items);
                },
                Some(i) => {
                    lemma_frames_update(
                        items,
                        i,
                        Outbound::Snapshot {
                            terminal_id,
                            screen,
                            force_full: force_full || items[i]->Snapshot_force_full,
                        },
                    );
                },
            }
        },
    }
}

/// A pushed screen waits behind every frame that waited before it, and no other
/// screen of its terminal waits behind it.
pub proof fn law_pushed_screen_is_the_last_of_its_terminal(
    items: Seq<Outbound>,
    terminal: TerminalId,
    screen: ScreenSnapshot,
    force_full: bool,
) -> (index: int)
    ensures
        ({
            let after = pushed(
                items,
                Outbound::Snapshot { terminal_id: terminal, screen, force_full },
            );
            &&& 0 <= index < after.len()
            &&& after[index] is Snapshot
            &&& after[index]->Snapshot_terminal_id == terminal
            &&& after[index]->Snapshot_screen == screen
            &&& force_full ==> after[index]->Snapshot_force_full
            &&& forall|j: int|
                index < j < after.len() ==> (#[trigger] after[j]) is Snapshot
                    && after[j]->Snapshot_terminal_id != terminal
        }),
{
    lemma_pending(items, terminal);
    let after = pushed(items, Outbound::Snapshot { terminal_id: terminal, screen, force_full });
    match pending(items, terminal) {
        None => items.len() as int,
        Some(i) => {
            assert forall|j: int| i < j < after.len() implies (#[trigger] after[j]) is Snapshot
                && after[j]->Snapshot_terminal_id != terminal by {
                assert(after[j] == items[j]);
            }
            i
        },
    }
}

/// A screen takes the place of one of its terminal that waits with nothing but
/// screens of other terminals behind it, and has to be sent in full where either of
/// the two had to. Nothing else that waits changes.
pub proof fn law_newer_screen_takes_the_place_of_the_older(
    items: Seq<Outbound>,
    at: int,
    terminal: TerminalId,
    screen: ScreenSnapshot,
    force_full: bool,
)
    requires
        0 <= at < items.len(),
        items[at] is Snapshot,
        items[at]->Snapshot_terminal_id == terminal,
        forall|j: int|
            at < j < items.len() ==> (#[trigger] items[j]) is Snapshot
                && items[j]->Snapshot_terminal_id != terminal,
    ensures
        pushed(items, Outbound::Snapshot { terminal_id: terminal, screen, force_full })
            == items.update(
            at,
            Outbound::Snapshot {
                terminal_id: terminal,
                screen,
                force_full: force_full || items[at]->Snapshot_force_full,
            },
        ),
    decreases items.len(),
{
    if at < items.len() - 1 {
        let rest = items.drop_last();
        assert(items.last() == items[items.len() - 1]);
        law_newer_screen_takes_the_place_of_the_older(rest, at, terminal, screen, force_full);
        lemma_pending(rest, terminal);
        let item = Outbound::Snapshot { terminal_id: terminal, screen, force_full };
        match pending(rest, terminal) {
            None => {
                assert(pushed(rest, item).len() == rest.len() + 1);
            },
            Some(i) => {
                if i != at {
                    assert(rest[i] == items[i]);
                    assert(rest[at] == items[at]);
                }
            },
        }
    }
}

/// A screen of a terminal of which none waits behind the last frame waits last, as
/// every frame does: what waited before it stays as it was.
pub proof fn law_screens_never_pass_a_frame(
    items: Seq<Outbound>,
    frame: int,
    terminal: TerminalId,
    screen: ScreenSnapshot,
    force_full: bool,
)
    requires
        -1 <= frame < items.len(),
        frame >= 0 ==> items[frame] is Frame,
        forall|j: int|
            frame < j < items.len() && (#[trigger] items[j]) is Snapshot
                ==> items[j]->Snapshot_terminal_id != terminal,
    ensures
        pushed(items, Outbound::Snapshot { terminal_id: terminal, screen, force_full })
            == items.push(Outbound::Snapshot { terminal_id: terminal, screen, force_full }),
{
    lemma_pending(items, terminal);
    if let Some(i) = pending(items, terminal) {
        if frame >= 0 {
            assert(items[frame] is Frame);
        }
        assert(items[i] is Snapshot);
    }
}

} // verus!
