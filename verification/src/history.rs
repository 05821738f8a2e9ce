//! The task history: its rows, and how they are listed and looked up. The log
//! itself, one row per line, is read and written by the caller.

use vstd::prelude::*;
use crate::order::{ascending, placed, placed_is_insert, sorted_by, sorted_by_sorts};
use crate::text::{clone_opt_text, opt_text, same_text};

verus! {

/// One row of the task history.
#[derive(Debug)]
pub struct HistoryEntry {
    /// The subtask's identifier (delegated) or the task's own (received).
    pub task_id: String,
    /// The parent task's identifier (delegated) or empty (received).
    pub parent_id: String,
    /// Unix time in milliseconds when the row was written.
    pub created_at_ms: u64,
    /// `delegated` or `received`.
    pub direction: String,
    /// Public key of the other side.
    pub peer_pubkey: String,
    /// Display name of the other side, empty if unknown.
    pub peer_name: String,
    /// Capability asked for (delegated) or empty (received).
    pub capability: String,
    /// The task's text.
    pub text: String,
    /// The response, empty where there is none.
    pub body: String,
    /// Content identifier of the audit log, empty where there is none.
    pub cid: String,
    /// Whether the task was completed.
    pub success: bool,
    /// Why the task was not completed.
    pub error: Option<String>,
    /// How long it took, in milliseconds.
    pub elapsed_ms: u64,
    /// The conversation that the task belongs to, empty for none.
    pub session_id: String,
}

/// What a [`HistoryEntry`] says.
#[verifier::ext_equal]
pub struct RowView {
    pub task_id: Seq<char>,
    pub parent_id: Seq<char>,
    pub created_at_ms: u64,
    pub direction: Seq<char>,
    pub peer_pubkey: Seq<char>,
    pub peer_name: Seq<char>,
    pub capability: Seq<char>,
    pub text: Seq<char>,
    pub body: Seq<char>,
    pub cid: Seq<char>,
    pub success: bool,
    pub error: Option<Seq<char>>,
    pub elapsed_ms: u64,
    pub session_id: Seq<char>,
}

impl View for HistoryEntry {
    type V = RowView;

    open spec fn view(&self) -> RowView {
        RowView {
            task_id: self.task_id@,
            parent_id: self.parent_id@,
            created_at_ms: self.created_at_ms,
            direction: self.direction@,
            peer_pubkey: self.peer_pubkey@,
            peer_name: self.peer_name@,
            capability: self.capability@,
            text: self.text@,
            body: self.body@,
            cid: self.cid@,
            success: self.success,
            error: opt_text(self.error),
            elapsed_ms: self.elapsed_ms,
            session_id: self.session_id@,
        }
    }
}

impl Clone for HistoryEntry {
    fn clone(&self) -> (res: HistoryEntry)
        ensures
            res == *self,
    {
        HistoryEntry {
            task_id: self.task_id.clone(),
            parent_id: self.parent_id.clone(),
            created_at_ms: self.created_at_ms,
            direction: self.direction.clone(),
            peer_pubkey: self.peer_pubkey.clone(),
            peer_name: self.peer_name.clone(),
            capability: self.capability.clone(),
            text: self.text.clone(),
            body: self.body.clone(),
            cid: self.cid.clone(),
            success: self.success,
            error: clone_opt_text(&self.error),
            elapsed_ms: self.elapsed_ms,
            session_id: self.session_id.clone(),
        }
    }
}

/// What rows say.
pub open spec fn rows(list: Seq<HistoryEntry>) -> Seq<RowView> {
    Seq::new(list.len(), |i: int| list[i]@)
}

/// What the lines of a log say, each a row or nothing that can be read.
pub open spec fn lines(list: Seq<Option<HistoryEntry>>) -> Seq<Option<RowView>> {
    Seq::new(
        list.len(),
        |i: int|
            match list[i] {
                Some(e) => Some(e@),
                None => None,
            },
    )
}

/// Which rows to list. What is not set does not filter.
#[derive(Debug)]
pub struct HistoryFilter {
    pub direction: Option<String>,
    pub capability: Option<String>,
    pub since_ms: Option<u64>,
}

impl Clone for HistoryFilter {
    fn clone(&self) -> (res: HistoryFilter)
        ensures
            res == *self,
    {
        HistoryFilter {
            direction: clone_opt_text(&self.direction),
            capability: clone_opt_text(&self.capability),
            since_ms: self.since_ms,
        }
    }
}

impl Default for HistoryFilter {
    fn default() -> (res: HistoryFilter)
        ensures
            res == (HistoryFilter { direction: None, capability: None, since_ms: None }),
    {
        HistoryFilter { direction: None, capability: None, since_ms: None }
    }
}

/// Whether a filter lets a row through.
pub open spec fn passes(filter: HistoryFilter, row: RowView) -> bool {
    &&& filter.direction is Some ==> row.direction == filter.direction->0@
    &&& filter.capability is Some ==> row.capability == filter.capability->0@
    &&& filter.since_ms is Some ==> row.created_at_ms >= filter.since_ms->0
}

/// The rows that can be read and pass the filter, in the order of the log.
pub open spec fn kept_rows(log: Seq<Option<RowView>>, filter: HistoryFilter) -> Seq<RowView>
    decreases log.len(),
{
    if log.len() == 0 {
        seq![]
    } else {
        let before = kept_rows(log.drop_last(), filter);
        match log.last() {
            Some(row) => if passes(filter, row) {
                before.push(row)
            } else {
                before
            },
            None => before,
        }
    }
}

/// The key that puts the newest row first.
pub open spec fn newest_key() -> spec_fn(RowView) -> int {
    |row: RowView| -(row.created_at_ms as int)
}

/// Rows with the newest first; rows of one moment keep their order.
pub open spec fn newest_first(list: Seq<RowView>) -> Seq<RowView> {
    sorted_by(list, newest_key())
}

/// A page of a list.
pub open spec fn page<A>(list: Seq<A>, offset: nat, limit: nat) -> Seq<A> {
    let from = if offset < list.len() {
        offset as int
    } else {
        list.len() as int
    };
    let to = if from + limit < list.len() {
        from + limit
    } else {
        list.len() as int
    };
    list.subrange(from, to)
}

/// Whether a filter lets a row through.
fn row_passes(filter: &HistoryFilter, row: &HistoryEntry) -> (res: bool)
    ensures
        res == passes(*filter, row@),
{
    if let Some(d) = &filter.direction {
        if !same_text(row.direction.as_str(), d.as_str()) {
            return false;
        }
    }
    if let Some(c) = &filter.capability {
        if !same_text(row.capability.as_str(), c.as_str()) {
            return false;
        }
    }
    if let Some(s) = filter.since_ms {
        if row.created_at_ms < s {
            return false;
        }
    }
    true
}

/// Puts a row into a list with the newest first, behind rows of the same moment.
fn insert_newest(sorted: &mut Vec<HistoryEntry>, row: HistoryEntry)
    requires
        ascending(rows(old(sorted)@), newest_key()),
    ensures
        rows(final(sorted)@) == placed(rows(old(sorted)@), row@, newest_key()),
{
    let ghost all = rows(sorted@);
    let mut p: usize = sorted.len();
    while p > 0 && sorted[p - 1].created_at_ms < row.created_at_ms
        invariant
            p <= sorted@.len(),
            all == rows(sorted@),
            forall|i: int|
                p <= i < all.len() ==> newest_key()(#[trigger] all[i]) > newest_key()(row@),
        decreases p,
    {
        p = p - 1;
    }
    proof {
        if p > 0 {
            assert(all[p - 1] == sorted@[p - 1]@);
        }
        placed_is_insert(all, row@, newest_key(), p as int);
    }
    sorted.insert(p, row);
    assert(rows(sorted@) =~= all.insert(p as int, row@));
}

/// Lists rows of a log: those that can be read and pass the filter, newest
/// first, without the first `offset`, and of the rest at most `limit`. A line
/// that cannot be read (`None`) is passed over.
pub fn list(log: Vec<Option<HistoryEntry>>, limit: usize, offset: usize, filter: &HistoryFilter)
    -> (res: Vec<HistoryEntry>)
    ensures
        rows(res@) == page(
            newest_first(kept_rows(lines(log@), *filter)),
            offset as nat,
            limit as nat,
        ),
        forall|i: int|
            0 <= i < res@.len() ==> {
                &&& lines(log@).contains(Some((#[trigger] res@[i])@))
                &&& filter.direction is Some ==> res@[i]@.direction == filter.direction->0@
                &&& filter.capability is Some ==> res@[i]@.capability == filter.capability->0@
                &&& filter.since_ms is Some ==> res@[i]@.created_at_ms >= filter.since_ms->0
            },
{
    let ghost all = lines(log@);
    let ghost key = newest_key();
    let mut sorted: Vec<HistoryEntry> = Vec::new();
    assert(all.take(0) =~= seq![]);
    assert(rows(sorted@) =~= seq![]);
    for line in it: log
        invariant
            it.seq().len() == all.len(),
            all == lines(it.seq()),
            key == newest_key(),
            rows(sorted@) == newest_first(kept_rows(all.take(it.index() as int), *filter)),
    {
        proof {
            let i = it.index() as int;
            assert(all.take(i + 1).drop_last() =~= all.take(i));
            sorted_by_sorts(kept_rows(all.take(i), *filter), key);
        }
        if let Some(row) = line {
            if row_passes(filter, &row) {
                proof {
                    let before = kept_rows(all.take(it.index() as int), *filter);
                    assert(before.push(row@).drop_last() =~= before);
                }
                insert_newest(&mut sorted, row);
            }
        }
    }
    assert(all.take(all.len() as int) =~= all);
    let res = take_page(sorted, offset, limit);
    assert forall|i: int| 0 <= i < res@.len() implies {
        &&& all.contains(Some((#[trigger] res@[i])@))
        &&& filter.direction is Some ==> res@[i]@.direction == filter.direction->0@
        &&& filter.capability is Some ==> res@[i]@.capability == filter.capability->0@
        &&& filter.since_ms is Some ==> res@[i]@.created_at_ms >= filter.since_ms->0
    } by {
        assert(rows(res@)[i] == res@[i]@);
        a_listing_is_what_its_filter_asks_for(
            all,
            *filter,
            offset as nat,
            limit as nat,
            res@[i]@,
        );
    }
    res
}

fn take_page(sorted: Vec<HistoryEntry>, offset: usize, limit: usize) -> (res: Vec<HistoryEntry>)
    ensures
        rows(res@) == page(rows(sorted@), offset as nat, limit as nat),
{
    let ghost all = rows(sorted@);
    let mut rest = sorted;
    let len: usize = rest.len();
    let from: usize = if offset < len {
        offset
    } else {
        len
    };
    let mut out = rest.split_off(from);
    assert(rows(out@) =~= all.skip(from as int));
    out.truncate(limit);
    assert(rows(out@) =~= page(all, offset as nat, limit as nat));
    out
}

/// The last row of a log for a task.
pub open spec fn latest_row(log: Seq<Option<RowView>>, task_id: Seq<char>) -> Option<RowView>
    decreases log.len(),
{
    if log.len() == 0 {
        None
    } else {
        match log.last() {
            Some(row) => if row.task_id == task_id {
                Some(row)
            } else {
                latest_row(log.drop_last(), task_id)
            },
            None => latest_row(log.drop_last(), task_id),
        }
    }
}

/// Looks up a task in a log. The last row for it wins.
pub fn get(log: Vec<Option<HistoryEntry>>, task_id: &str) -> (res: Option<HistoryEntry>)
    ensures
        res is Some <==> latest_row(lines(log@), task_id@) is Some,
        res is Some ==> latest_row(lines(log@), task_id@) == Some(res->0@),
{
    let ghost all = lines(log@);
    let mut found: Option<HistoryEntry> = None;
    assert(all.take(0) =~= seq![]);
    for line in it: log
        invariant
            it.seq().len() == all.len(),
            all == lines(it.seq()),
            found is Some <==> latest_row(all.take(it.index() as int), task_id@) is Some,
            found is Some ==> latest_row(all.take(it.index() as int), task_id@) == Some(
                found->0@,
            ),
    {
        proof {
            let i = it.index() as int;
            assert(all.take(i + 1).drop_last() =~= all.take(i));
        }
        if let Some(row) = line {
            if same_text(row.task_id.as_str(), task_id) {
                found = Some(row);
            }
        }
    }
    assert(all.take(all.len() as int) =~= all);
    found
}

/// What a listing shows is sorted: no row is newer than one before it.
pub proof fn listing_is_newest_first(log: Seq<Option<RowView>>, filter: HistoryFilter)
    ensures
        forall|i: int, j: int|
            0 <= i <= j < newest_first(kept_rows(log, filter)).len() ==> (
            #[trigger] newest_first(kept_rows(log, filter))[i]).created_at_ms >= (
            #[trigger] newest_first(kept_rows(log, filter))[j]).created_at_ms,
        newest_first(kept_rows(log, filter)).to_multiset() =~= kept_rows(
            log,
            filter,
        ).to_multiset(),
{
    sorted_by_sorts(kept_rows(log, filter), newest_key());
    let out = newest_first(kept_rows(log, filter));
    assert forall|i: int, j: int| 0 <= i <= j < out.len() implies (
    #[trigger] out[i]).created_at_ms >= (#[trigger] out[j]).created_at_ms by {
        assert(newest_key()(out[i]) <= newest_key()(out[j]));
    }
}

/// A line that cannot be read hides nothing else: the listing is that of the log
/// without it.
pub proof fn unreadable_lines_are_passed_over(
    before: Seq<Option<RowView>>,
    after: Seq<Option<RowView>>,
    filter: HistoryFilter,
)
    ensures
        kept_rows(before.push(None) + after, filter) == kept_rows(before + after, filter),
    decreases after.len(),
{
    if after.len() == 0 {
        assert(before.push(None) + after =~= before.push(None));
        assert(before.push(None).drop_last() =~= before);
        assert(before + after =~= before);
    } else {
        unreadable_lines_are_passed_over(before, after.drop_last(), filter);
        assert((before.push(None) + after).drop_last() =~= before.push(None) + after.drop_last());
        assert((before + after).drop_last() =~= before + after.drop_last());
    }
}

/// Reading a log in two parts is reading it whole: no readable row of either part
/// is left out or counted twice.
proof fn kept_rows_join(
    before: Seq<Option<RowView>>,
    after: Seq<Option<RowView>>,
    filter: HistoryFilter,
)
    ensures
        kept_rows(before + after, filter) == kept_rows(before, filter) + kept_rows(after, filter),
    decreases after.len(),
{
    if after.len() == 0 {
        assert(before + after =~= before);
        assert(kept_rows(before, filter) + kept_rows(after, filter) =~= kept_rows(before, filter));
    } else {
        kept_rows_join(before, after.drop_last(), filter);
        assert((before + after).drop_last() =~= before + after.drop_last());
        assert((before + after).last() == after.last());
        assert(kept_rows(before + after, filter) =~= kept_rows(before, filter) + kept_rows(
            after,
            filter,
        ));
    }
}

/// A row counts for a filter by its direction where the filter sets one, by its
/// capability where it sets one, and by its time where it sets one, each whatever
/// else is set. A line of the log is listed exactly where it can be read and meets
/// all of these, in its place among the other lines.
pub proof fn every_filter_that_is_set_applies(
    before: Seq<Option<RowView>>,
    row: RowView,
    after: Seq<Option<RowView>>,
    filter: HistoryFilter,
)
    ensures
        filter.direction is Some && row.direction != filter.direction->0@ ==> kept_rows(
            before + seq![Some(row)] + after,
            filter,
        ) == kept_rows(before + after, filter),
        filter.capability is Some && row.capability != filter.capability->0@ ==> kept_rows(
            before + seq![Some(row)] + after,
            filter,
        ) == kept_rows(before + after, filter),
        filter.since_ms is Some && row.created_at_ms < filter.since_ms->0 ==> kept_rows(
            before + seq![Some(row)] + after,
            filter,
        ) == kept_rows(before + after, filter),
        (filter.direction is Some ==> row.direction == filter.direction->0@) && (
        filter.capability is Some ==> row.capability == filter.capability->0@) && (filter.since_ms
            is Some ==> row.created_at_ms >= filter.since_ms->0) ==> kept_rows(
            before + seq![Some(row)] + after,
            filter,
        ) == kept_rows(before, filter) + seq![row] + kept_rows(after, filter),
{
    let one = seq![Some(row)];
    kept_rows_join(before, after, filter);
    kept_rows_join(before, one, filter);
    kept_rows_join(before + one, after, filter);
    assert(one.drop_last() =~= Seq::<Option<RowView>>::empty());
    assert(kept_rows(one.drop_last(), filter) =~= Seq::<RowView>::empty());
    if passes(filter, row) {
        assert(kept_rows(one, filter) =~= seq![row]);
    } else {
        assert(kept_rows(one, filter) =~= Seq::<RowView>::empty());
        assert(kept_rows(before, filter) + kept_rows(one, filter) =~= kept_rows(before, filter));
    }
}

proof fn kept_rows_members(log: Seq<Option<RowView>>, filter: HistoryFilter)
    ensures
        forall|row: RowView| #[trigger]
            kept_rows(log, filter).contains(row) <==> log.contains(Some(row)) && (
            filter.direction is Some ==> row.direction == filter.direction->0@) && (
            filter.capability is Some ==> row.capability == filter.capability->0@) && (
            filter.since_ms is Some ==> row.created_at_ms >= filter.since_ms->0),
    decreases log.len(),
{
    if log.len() > 0 {
        let head = log.drop_last();
        kept_rows_members(head, filter);
        let old_rows = kept_rows(head, filter);
        let all = kept_rows(log, filter);
        assert(log[log.len() - 1] == log.last());
        assert forall|row: RowView| log.contains(Some(row)) <==> head.contains(Some(row))
            || log.last() == Some(row) by {
            if log.contains(Some(row)) {
                let i = choose|i: int| 0 <= i < log.len() && log[i] == Some(row);
                if i < head.len() {
                    assert(head[i] == Some(row));
                }
            }
            if head.contains(Some(row)) {
                let i = choose|i: int| 0 <= i < head.len() && head[i] == Some(row);
                assert(log[i] == Some(row));
            }
        }
        assert forall|row: RowView| #[trigger] all.contains(row) <==> old_rows.contains(row) || (
        log.last() == Some(row) && all.len() > old_rows.len()) by {
            if old_rows.contains(row) {
                let i = choose|i: int| 0 <= i < old_rows.len() && old_rows[i] == row;
                assert(all[i] == row);
            }
            if all.contains(row) {
                let i = choose|i: int| 0 <= i < all.len() && all[i] == row;
                if i < old_rows.len() {
                    assert(old_rows[i] == row);
                }
            }
            if log.last() == Some(row) && all.len() > old_rows.len() {
                assert(all[all.len() - 1] == row);
            }
        }
    }
}

/// A listing holds rows of the log that have the filter's direction where one is
/// set, and its capability where one is set, and are no older than its time where
/// one is set; and every readable row of the log that meets all of these is in the
/// listing that starts at the newest and has no limit to its length.
pub proof fn a_listing_is_what_its_filter_asks_for(
    log: Seq<Option<RowView>>,
    filter: HistoryFilter,
    offset: nat,
    limit: nat,
    row: RowView,
)
    ensures
        page(newest_first(kept_rows(log, filter)), offset, limit).contains(row) ==> {
            &&& log.contains(Some(row))
            &&& filter.direction is Some ==> row.direction == filter.direction->0@
            &&& filter.capability is Some ==> row.capability == filter.capability->0@
            &&& filter.since_ms is Some ==> row.created_at_ms >= filter.since_ms->0
        },
        offset == 0 && limit >= log.len() && log.contains(Some(row)) && (filter.direction is Some
            ==> row.direction == filter.direction->0@) && (filter.capability is Some
            ==> row.capability == filter.capability->0@) && (filter.since_ms is Some
            ==> row.created_at_ms >= filter.since_ms->0) ==> page(
            newest_first(kept_rows(log, filter)),
            offset,
            limit,
        ).contains(row),
{
    broadcast use vstd::seq_lib::group_to_multiset_ensures;

    let kept = kept_rows(log, filter);
    let sorted = newest_first(kept);
    kept_rows_members(log, filter);
    kept_rows_are_few(log, filter);
    sorted_by_sorts(kept, newest_key());
    assert(sorted.to_multiset().count(row) == kept.to_multiset().count(row));
    let shown = page(sorted, offset, limit);
    if shown.contains(row) {
        let i = choose|i: int| 0 <= i < shown.len() && shown[i] == row;
        assert(sorted.contains(row)) by {
            let from = if offset < sorted.len() {
                offset as int
            } else {
                sorted.len() as int
            };
            assert(sorted[from + i] == row);
        }
    }
    if offset == 0 && limit >= log.len() {
        assert(shown =~= sorted);
    }
}

proof fn kept_rows_are_few(log: Seq<Option<RowView>>, filter: HistoryFilter)
    ensures
        kept_rows(log, filter).len() <= log.len(),
    decreases log.len(),
{
    if log.len() > 0 {
        kept_rows_are_few(log.drop_last(), filter);
    }
}

/// Pages follow one another: two pages in a row are one page of their joint length,
/// and a page holds what stands in its places, from the offset on, as far as there
/// is anything.
pub proof fn pages_follow_one_another<A>(list: Seq<A>, offset: nat, first: nat, second: nat)
    ensures
        page(list, offset, first) + page(list, offset + first, second) == page(
            list,
            offset,
            first + second,
        ),
        page(list, offset, 0) == Seq::<A>::empty(),
        offset < list.len() ==> page(list, offset, 1) == seq![list[offset as int]],
        offset >= list.len() ==> page(list, offset, first) == Seq::<A>::empty(),
        page(list, 0, list.len()) == list,
{
    assert(page(list, offset, first) + page(list, offset + first, second) =~= page(
        list,
        offset,
        first + second,
    ));
    assert(page(list, offset, 0) =~= Seq::<A>::empty());
    assert(page(list, 0, list.len()) =~= list);
    if offset < list.len() {
        assert(page(list, offset, 1) =~= seq![list[offset as int]]);
    } else {
        assert(page(list, offset, first) =~= Seq::<A>::empty());
    }
}

/// Looking up a task gives a row of the log for that task behind which none for it
/// stands, and nothing exactly where no readable row is for it.
pub proof fn the_last_row_of_a_task_is_found(log: Seq<Option<RowView>>, task_id: Seq<char>)
    ensures
        latest_row(log, task_id) is Some ==> exists|i: int|
            {
                &&& 0 <= i < log.len()
                &&& #[trigger] log[i] == latest_row(log, task_id)
                &&& log[i]->0.task_id == task_id
                &&& forall|j: int|
                    i < j < log.len() && (#[trigger] log[j]) is Some ==> log[j]->0.task_id
                        != task_id
            },
        latest_row(log, task_id) is None ==> forall|i: int|
            0 <= i < log.len() && (#[trigger] log[i]) is Some ==> log[i]->0.task_id != task_id,
    decreases log.len(),
{
    if log.len() > 0 {
        let head = log.drop_last();
        let last = log[log.len() - 1];
        assert(last == log.last());
        if last is Some && last->0.task_id == task_id {
            assert(log[log.len() - 1] == latest_row(log, task_id));
        } else {
            the_last_row_of_a_task_is_found(head, task_id);
            assert forall|i: int| 0 <= i < head.len() implies #[trigger] head[i] == log[i] by {}
            if latest_row(head, task_id) is Some {
                let i = choose|i: int|
                    {
                        &&& 0 <= i < head.len()
                        &&& #[trigger] head[i] == latest_row(head, task_id)
                        &&& head[i]->0.task_id == task_id
                        &&& forall|j: int|
                            i < j < head.len() && (#[trigger] head[j]) is Some
                                ==> head[j]->0.task_id != task_id
                    };
                assert(log[i] == latest_row(log, task_id));
                assert forall|j: int|
                    i < j < log.len() && (#[trigger] log[j]) is Some implies log[j]->0.task_id
                    != task_id by {
                    if j < head.len() {
                        assert(head[j] == log[j]);
                    }
                }
            } else {
                assert forall|i: int| 0 <= i < log.len() && (#[trigger] log[i]) is Some implies log[i]->0.task_id
                    != task_id by {
                    if i < head.len() {
                        assert(head[i] == log[i]);
                    }
                }
            }
        }
    }
}

} // verus!
