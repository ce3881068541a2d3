//! The log of channel-state updates and its replay onto a snapshot.
//!
//! Every update of a channel is appended under the channel's identity and a sequence
//! number. At restart the records that are newer than the channel's snapshot are replayed
//! in ascending order, and only if the log is whole: no number twice, none missing.

use crate::payment::same_hash;
use vstd::prelude::*;
use vstd::seq_lib::group_to_multiset_ensures;

verus! {

/// The funding output that names a channel: a transaction id and an output index.
#[derive(Clone, Copy, Debug, PartialEq, Eq)]
pub struct ChannelIdentity {
    pub txid: [u8; 32],
    pub index: u16,
}

/// One appended update of a channel's state.
#[derive(Debug, PartialEq, Eq)]
pub struct UpdateRecord {
    pub channel: ChannelIdentity,
    pub sequence_no: u64,
    pub payload: Vec<u8>,
}

/// An update record as a value: its payload is a sequence of bytes.
pub struct UpdateRecordView {
    pub channel: ChannelIdentity,
    pub sequence_no: u64,
    pub payload: Seq<u8>,
}

impl View for UpdateRecord {
    type V = UpdateRecordView;

    open spec fn view(&self) -> UpdateRecordView {
        UpdateRecordView {
            channel: self.channel,
            sequence_no: self.sequence_no,
            payload: self.payload@,
        }
    }
}

/// Why a log cannot be replayed.
#[derive(Clone, Copy, Debug, PartialEq, Eq)]
pub enum ReplayError {
    /// Two records carry this sequence number.
    Duplicate { sequence_no: u64 },
    /// The record `expected` is missing: the next one in the log is `found`.
    Gap { expected: u64, found: u64 },
}

/// The records as values.
pub open spec fn views(records: Seq<UpdateRecord>) -> Seq<UpdateRecordView> {
    records.map_values(|r: UpdateRecord| r@)
}

/// Whether the sequence numbers never fall from one record to the next.
pub open spec fn ascending(s: Seq<UpdateRecordView>) -> bool {
    forall|i: int, j: int|
        0 <= i <= j < s.len() ==> (#[trigger] s[i]).sequence_no <= (#[trigger] s[j]).sequence_no
}

/// Whether the records carry `first`, `first + 1`, `first + 2` and so on, in this order.
pub open spec fn consecutive_from(s: Seq<UpdateRecordView>, first: int) -> bool {
    forall|i: int| 0 <= i < s.len() ==> (#[trigger] s[i]).sequence_no == first + i
}

/// Whether no sequence number occurs twice.
pub open spec fn distinct_numbers(s: Seq<UpdateRecordView>) -> bool {
    forall|i: int, j: int|
        0 <= i < s.len() && 0 <= j < s.len() && i != j ==> (#[trigger] s[i]).sequence_no != (
        #[trigger] s[j]).sequence_no
}

/// Where a record with sequence number `number` goes into an ascending sequence: behind
/// every record whose number is not greater.
pub open spec fn insertion_point(s: Seq<UpdateRecordView>, number: u64) -> int
    decreases s.len(),
{
    if s.len() == 0 {
        0
    } else if s.last().sequence_no <= number {
        s.len() as int
    } else {
        insertion_point(s.drop_last(), number)
    }
}

/// The records in ascending order of sequence number; records with one number keep the
/// order in which they stand.
pub open spec fn sorted_by_sequence(s: Seq<UpdateRecordView>) -> Seq<UpdateRecordView>
    decreases s.len(),
{
    if s.len() == 0 {
        s
    } else {
        let head = sorted_by_sequence(s.drop_last());
        head.insert(insertion_point(head, s.last().sequence_no), s.last())
    }
}

/// The records of one channel, in the order in which they stand.
pub open spec fn of_channel(s: Seq<UpdateRecordView>, channel: ChannelIdentity) -> Seq<
    UpdateRecordView,
>
    decreases s.len(),
{
    if s.len() == 0 {
        s
    } else if s.last().channel == channel {
        of_channel(s.drop_last(), channel).push(s.last())
    } else {
        of_channel(s.drop_last(), channel)
    }
}

/// The records whose sequence number is above that of the snapshot, in the order in which
/// they stand.
pub open spec fn newer_than(s: Seq<UpdateRecordView>, snapshot_no: u64) -> Seq<UpdateRecordView>
    decreases s.len(),
{
    if s.len() == 0 {
        s
    } else if s.last().sequence_no > snapshot_no {
        newer_than(s.drop_last(), snapshot_no).push(s.last())
    } else {
        newer_than(s.drop_last(), snapshot_no)
    }
}

/// What is wrong at position `i` of an ascending log, if anything: the first record lies
/// more than one above the snapshot, or a record does not follow its predecessor by one.
pub open spec fn fault_at(s: Seq<UpdateRecordView>, snapshot_no: u64, i: int) -> Option<
    ReplayError,
> {
    if i == 0 {
        if s[0].sequence_no > snapshot_no + 1 {
            Some(
                ReplayError::Gap { expected: (snapshot_no + 1) as u64, found: s[0].sequence_no },
            )
        } else {
            None
        }
    } else if s[i].sequence_no == s[i - 1].sequence_no {
        Some(ReplayError::Duplicate { sequence_no: s[i].sequence_no })
    } else if s[i].sequence_no != s[i - 1].sequence_no + 1 {
        Some(
            ReplayError::Gap {
                expected: (s[i - 1].sequence_no + 1) as u64,
                found: s[i].sequence_no,
            },
        )
    } else {
        None
    }
}

/// The first fault of an ascending log at or behind position `i`.
pub open spec fn first_fault_from(s: Seq<UpdateRecordView>, snapshot_no: u64, i: int) -> Option<
    ReplayError,
>
    decreases s.len() - i,
{
    if i < 0 || i >= s.len() {
        None
    } else if fault_at(s, snapshot_no, i) is Some {
        fault_at(s, snapshot_no, i)
    } else {
        first_fault_from(s, snapshot_no, i + 1)
    }
}

/// What replay does with the stored records of one channel, whatever their order: the
/// first fault of the log in ascending order, or else the records above the snapshot, in
/// ascending order.
pub open spec fn replay_plan(snapshot_no: u64, stored: Seq<UpdateRecordView>) -> Result<
    Seq<UpdateRecordView>,
    ReplayError,
> {
    let sorted = sorted_by_sequence(stored);
    match first_fault_from(sorted, snapshot_no, 0) {
        Some(fault) => Err(fault),
        None => Ok(newer_than(sorted, snapshot_no)),
    }
}

/// The state after replay: the updates of the plan applied to the snapshot one after the
/// other, or nothing where the log has a fault.
pub open spec fn replayed<S>(
    snapshot: S,
    snapshot_no: u64,
    stored: Seq<UpdateRecordView>,
    apply: spec_fn(S, UpdateRecordView) -> S,
) -> Option<S> {
    match replay_plan(snapshot_no, stored) {
        Ok(plan) => Some(plan.fold_left(snapshot, apply)),
        Err(_) => None,
    }
}

/// Whether two channel identities are the same.
pub fn same_channel(a: &ChannelIdentity, b: &ChannelIdentity) -> (same: bool)
    ensures
        same == (*a == *b),
{
    a.index == b.index && same_hash(&a.txid, &b.txid)
}

/// A copy of a sequence of bytes.
fn copy_bytes(bytes: &Vec<u8>) -> (copy: Vec<u8>)
    ensures
        copy@ == bytes@,
{
    let mut copy: Vec<u8> = Vec::new();
    let mut i: usize = 0;
    while i < bytes.len()
        invariant
            i <= bytes@.len(),
            copy@ == bytes@.take(i as int),
        decreases bytes@.len() - i,
    {
        copy.push(bytes[i]);
        assert(copy@ =~= bytes@.take(i + 1));
        i = i + 1;
    }
    assert(bytes@.take(i as int) =~= bytes@);
    copy
}

impl UpdateRecord {
    /// A copy of the record.
    pub fn duplicate(&self) -> (copy: UpdateRecord)
        ensures
            copy@ == self@,
    {
        UpdateRecord {
            channel: self.channel,
            sequence_no: self.sequence_no,
            payload: copy_bytes(&self.payload),
        }
    }
}

/// Sorts records by sequence number, ascending; records with one number keep their order.
pub fn sort_by_sequence(records: Vec<UpdateRecord>) -> (sorted: Vec<UpdateRecord>)
    ensures
        views(sorted@) == sorted_by_sequence(views(records@)),
        ascending(views(sorted@)),
        views(sorted@).to_multiset() == views(records@).to_multiset(),
{
    let ghost all = views(records@);
    let mut rest = records;
    let mut sorted: Vec<UpdateRecord> = Vec::new();
    let ghost mut done: int = 0;
    proof {
        assert(all.take(0) =~= Seq::<UpdateRecordView>::empty());
        assert(views(sorted@) =~= Seq::<UpdateRecordView>::empty());
        assert(all.skip(0) =~= all);
    }
    while rest.len() > 0
        invariant
            0 <= done <= all.len(),
            rest@.len() == all.len() - done,
            views(rest@) == all.skip(done),
            views(sorted@) == sorted_by_sequence(all.take(done)),
        decreases rest@.len(),
    {
        let ghost before_rest = rest@;
        let record = rest.remove(0);
        let ghost head = views(sorted@);
        let mut at: usize = sorted.len();
        while at > 0 && sorted[at - 1].sequence_no > record.sequence_no
            invariant
                at <= sorted@.len(),
                head == views(sorted@),
                forall|k: int|
                    at <= k < sorted@.len() ==> (#[trigger] head[k]).sequence_no
                        > record.sequence_no,
            decreases at,
        {
            at = at - 1;
        }
        proof {
            lemma_insertion_point(head, record.sequence_no, at as int);
            let next = all.take(done + 1);
            assert(next.drop_last() =~= all.take(done));
            assert(next.last() == all[done]);
            assert(all.skip(done)[0] == all[done]);
            assert(views(before_rest)[0] == record@);
        }
        sorted.insert(at, record);
        proof {
            assert(views(sorted@) =~= head.insert(at as int, record@));
            assert(views(rest@) =~= all.skip(done + 1)) by {
                assert forall|k: int| 0 <= k < rest@.len() implies views(rest@)[k] == all.skip(
                    done + 1,
                )[k] by {
                    assert(rest@[k] == before_rest[k + 1]);
                    assert(views(before_rest)[k + 1] == all.skip(done)[k + 1]);
                }
            }
            done = done + 1;
        }
    }
    proof {
        assert(all.take(done) =~= all);
        lemma_sorted_is_ascending(all);
        lemma_sorted_is_permutation(all);
    }
    sorted
}

/// Plans the replay of the stored records of one channel onto its snapshot.
///
/// The records may stand in any order. The plan holds those above the snapshot's sequence
/// number, ascending. Replay is refused for a log in which a number occurs twice or is
/// missing, and for one that begins more than one above the snapshot.
pub fn plan_replay(snapshot_no: u64, stored: Vec<UpdateRecord>) -> (plan: Result<
    Vec<UpdateRecord>,
    ReplayError,
>)
    ensures
        match plan {
            Ok(records) => replay_plan(snapshot_no, views(stored@)) == Ok::<
                Seq<UpdateRecordView>,
                ReplayError,
            >(views(records@)),
            Err(fault) => replay_plan(snapshot_no, views(stored@)) == Err::<
                Seq<UpdateRecordView>,
                ReplayError,
            >(fault),
        },
{
    let sorted = sort_by_sequence(stored);
    let ghost log = views(sorted@);
    let mut i: usize = 0;
    while i < sorted.len()
        invariant
            i <= sorted@.len(),
            log == views(sorted@),
            log == sorted_by_sequence(views(stored@)),
            ascending(log),
            first_fault_from(log, snapshot_no, 0) == first_fault_from(log, snapshot_no, i as int),
        decreases sorted@.len() - i,
    {
        let number = sorted[i].sequence_no;
        assert(log[i as int].sequence_no == number);
        if i == 0 {
            if number > snapshot_no && number - 1 > snapshot_no {
                return Err(ReplayError::Gap { expected: snapshot_no + 1, found: number });
            }
        } else {
            let previous = sorted[i - 1].sequence_no;
            assert(log[i - 1].sequence_no == previous);
            if number == previous {
                return Err(ReplayError::Duplicate { sequence_no: number });
            }
            if number - 1 != previous {
                return Err(ReplayError::Gap { expected: previous + 1, found: number });
            }
        }
        i = i + 1;
    }
    let mut rest = sorted;
    let mut plan: Vec<UpdateRecord> = Vec::new();
    let ghost mut done: int = 0;
    proof {
        assert(log.take(0) =~= Seq::<UpdateRecordView>::empty());
        assert(views(plan@) =~= Seq::<UpdateRecordView>::empty());
        assert(log.skip(0) =~= log);
    }
    while rest.len() > 0
        invariant
            0 <= done <= log.len(),
            rest@.len() == log.len() - done,
            views(rest@) == log.skip(done),
            views(plan@) == newer_than(log.take(done), snapshot_no),
        decreases rest@.len(),
    {
        let ghost before_rest = rest@;
        let record = rest.remove(0);
        proof {
            let next = log.take(done + 1);
            assert(next.drop_last() =~= log.take(done));
            assert(next.last() == log[done]);
            assert(log.skip(done)[0] == log[done]);
            assert(views(before_rest)[0] == record@);
            assert(views(rest@) =~= log.skip(done + 1)) by {
                assert forall|k: int| 0 <= k < rest@.len() implies views(rest@)[k] == log.skip(
                    done + 1,
                )[k] by {
                    assert(rest@[k] == before_rest[k + 1]);
                    assert(views(before_rest)[k + 1] == log.skip(done)[k + 1]);
                }
            }
        }
        if record.sequence_no > snapshot_no {
            let ghost before = views(plan@);
            plan.push(record);
            assert(views(plan@) =~= before.push(record@));
        }
        proof {
            done = done + 1;
        }
    }
    proof {
        assert(log.take(done) =~= log);
        assert(first_fault_from(log, snapshot_no, 0) is None);
    }
    Ok(plan)
}

/// The log of updates as it was read from the medium: the records of all channels, in the
/// order in which the medium gave them.
#[derive(Debug)]
pub struct UpdateLog {
    records: Vec<UpdateRecord>,
}

impl View for UpdateLog {
    type V = Seq<UpdateRecordView>;

    closed spec fn view(&self) -> Seq<UpdateRecordView> {
        views(self.records@)
    }
}

impl UpdateLog {
    /// A log without records.
    pub fn new() -> (log: UpdateLog)
        ensures
            log@ == Seq::<UpdateRecordView>::empty(),
    {
        let log = UpdateLog { records: Vec::new() };
        assert(log@ =~= Seq::<UpdateRecordView>::empty());
        log
    }

    /// The number of records.
    pub fn len(&self) -> (n: usize)
        ensures
            n == self@.len(),
    {
        self.records.len()
    }

    /// Appends a record. The records that stand in the log are not touched.
    pub fn append(&mut self, channel: ChannelIdentity, sequence_no: u64, payload: Vec<u8>)
        ensures
            final(self)@ == old(self)@.push(
                UpdateRecordView { channel, sequence_no, payload: payload@ },
            ),
    {
        let record = UpdateRecord { channel, sequence_no, payload };
        self.records.push(record);
        assert(self@ =~= old(self)@.push(
            UpdateRecordView { channel, sequence_no, payload: payload@ },
        ));
    }

    /// All records of a channel, ascending by sequence number: none left out, none twice.
    pub fn read_all(&self, channel: &ChannelIdentity) -> (records: Vec<UpdateRecord>)
        ensures
            views(records@) == sorted_by_sequence(of_channel(self@, *channel)),
            ascending(views(records@)),
            views(records@).to_multiset() == of_channel(self@, *channel).to_multiset(),
    {
        let mut found: Vec<UpdateRecord> = Vec::new();
        let mut i: usize = 0;
        proof {
            assert(self@.take(0) =~= Seq::<UpdateRecordView>::empty());
            assert(views(found@) =~= Seq::<UpdateRecordView>::empty());
        }
        while i < self.records.len()
            invariant
                i <= self.records@.len(),
                self@ == views(self.records@),
                views(found@) == of_channel(self@.take(i as int), *channel),
            decreases self.records@.len() - i,
        {
            proof {
                let next = self@.take(i + 1);
                assert(next.drop_last() =~= self@.take(i as int));
                assert(next.last() == self.records@[i as int]@);
            }
            if same_channel(&self.records[i].channel, channel) {
                let ghost before = views(found@);
                let copy = self.records[i].duplicate();
                found.push(copy);
                assert(views(found@) =~= before.push(copy@));
            }
            i = i + 1;
        }
        proof {
            assert(self@.take(i as int) =~= self@);
        }
        sort_by_sequence(found)
    }
}

/// The insertion point of a number is the one position with greater numbers behind it
/// and a number that is not greater before it.
proof fn lemma_insertion_point(s: Seq<UpdateRecordView>, number: u64, at: int)
    requires
        0 <= at <= s.len(),
        forall|k: int| at <= k < s.len() ==> (#[trigger] s[k]).sequence_no > number,
        at > 0 ==> s[at - 1].sequence_no <= number,
    ensures
        insertion_point(s, number) == at,
    decreases s.len(),
{
    if s.len() > 0 && at < s.len() {
        assert(s[s.len() - 1].sequence_no > number);
        let head = s.drop_last();
        assert forall|k: int| at <= k < head.len() implies (#[trigger] head[k]).sequence_no
            > number by {
            assert(head[k] == s[k]);
        }
        lemma_insertion_point(head, number, at);
    }
}

/// Around the insertion point of a number in an ascending sequence: no greater number
/// before it, only greater numbers from it on.
proof fn lemma_insertion_point_splits(s: Seq<UpdateRecordView>, number: u64)
    requires
        ascending(s),
    ensures
        0 <= insertion_point(s, number) <= s.len(),
        forall|k: int|
            0 <= k < insertion_point(s, number) ==> (#[trigger] s[k]).sequence_no <= number,
        forall|k: int|
            insertion_point(s, number) <= k < s.len() ==> (#[trigger] s[k]).sequence_no > number,
    decreases s.len(),
{
    if s.len() > 0 {
        if s.last().sequence_no <= number {
            assert forall|k: int| 0 <= k < s.len() implies (#[trigger] s[k]).sequence_no
                <= number by {
                assert(s[k].sequence_no <= s[s.len() - 1].sequence_no);
            }
        } else {
            let head = s.drop_last();
            assert(ascending(head)) by {
                assert forall|i: int, j: int| 0 <= i <= j < head.len() implies (
                #[trigger] head[i]).sequence_no <= (#[trigger] head[j]).sequence_no by {
                    assert(head[i] == s[i]);
                    assert(head[j] == s[j]);
                }
            }
            lemma_insertion_point_splits(head, number);
            let at = insertion_point(head, number);
            assert forall|k: int| 0 <= k < at implies (#[trigger] s[k]).sequence_no <= number by {
                assert(head[k] == s[k]);
            }
            assert forall|k: int| at <= k < s.len() implies (#[trigger] s[k]).sequence_no
                > number by {
                if k < head.len() {
                    assert(head[k] == s[k]);
                }
            }
        }
    }
}

/// Sorting gives an ascending sequence.
pub proof fn lemma_sorted_is_ascending(s: Seq<UpdateRecordView>)
    ensures
        ascending(sorted_by_sequence(s)),
        sorted_by_sequence(s).len() == s.len(),
    decreases s.len(),
{
    if s.len() > 0 {
        let head = sorted_by_sequence(s.drop_last());
        let last = s.last();
        lemma_sorted_is_ascending(s.drop_last());
        lemma_insertion_point_splits(head, last.sequence_no);
        let at = insertion_point(head, last.sequence_no);
        let out = head.insert(at, last);
        assert forall|i: int, j: int| 0 <= i <= j < out.len() implies (
        #[trigger] out[i]).sequence_no <= (#[trigger] out[j]).sequence_no by {
            if i == at {
                if j > at {
                    assert(out[j] == head[j - 1]);
                }
            } else if i < at {
                assert(out[i] == head[i]);
                if j < at {
                    assert(out[j] == head[j]);
                } else if j > at {
                    assert(out[j] == head[j - 1]);
                }
            } else {
                assert(out[i] == head[i - 1]);
                assert(out[j] == head[j - 1]);
            }
        }
    }
}

/// Sorting keeps every record, as often as it occurs.
pub proof fn lemma_sorted_is_permutation(s: Seq<UpdateRecordView>)
    ensures
        sorted_by_sequence(s).to_multiset() == s.to_multiset(),
    decreases s.len(),
{
    broadcast use group_to_multiset_ensures;

    if s.len() > 0 {
        let head = sorted_by_sequence(s.drop_last());
        let last = s.last();
        lemma_sorted_is_permutation(s.drop_last());
        lemma_sorted_is_ascending(s.drop_last());
        lemma_insertion_point_splits(head, last.sequence_no);
        let at = insertion_point(head, last.sequence_no);
        vstd::seq_lib::to_multiset_insert(head, at, last);
        assert(s.drop_last().push(last) =~= s);
        assert(s.to_multiset() =~= s.drop_last().to_multiset().insert(last));
    }
}

/// Sorting an ascending sequence changes nothing, so sorting twice is sorting once.
pub proof fn lemma_sorting_twice(s: Seq<UpdateRecordView>)
    ensures
        sorted_by_sequence(sorted_by_sequence(s)) == sorted_by_sequence(s),
{
    lemma_sorted_is_ascending(s);
    lemma_sorting_ascending(sorted_by_sequence(s));
}

/// Sorting an ascending sequence changes nothing.
pub proof fn lemma_sorting_ascending(s: Seq<UpdateRecordView>)
    requires
        ascending(s),
    ensures
        sorted_by_sequence(s) == s,
    decreases s.len(),
{
    if s.len() > 0 {
        let head = s.drop_last();
        assert(ascending(head)) by {
            assert forall|i: int, j: int| 0 <= i <= j < head.len() implies (
            #[trigger] head[i]).sequence_no <= (#[trigger] head[j]).sequence_no by {
                assert(head[i] == s[i]);
                assert(head[j] == s[j]);
            }
        }
        lemma_sorting_ascending(head);
        if head.len() > 0 {
            assert(head.last() == s[s.len() - 2]);
            assert(s[s.len() - 2].sequence_no <= s[s.len() - 1].sequence_no);
        }
        assert(insertion_point(head, s.last().sequence_no) == head.len());
        assert(head.insert(head.len() as int, s.last()) =~= s);
    }
}

/// Sequences with the same records have the same length.
proof fn lemma_same_length(a: Seq<UpdateRecordView>, b: Seq<UpdateRecordView>)
    requires
        a.to_multiset() == b.to_multiset(),
    ensures
        a.len() == b.len(),
{
    broadcast use group_to_multiset_ensures;

    assert(a.to_multiset().len() == a.len());
    assert(b.to_multiset().len() == b.len());
}

/// A record of one sequence stands in every sequence with the same records.
proof fn lemma_same_members(a: Seq<UpdateRecordView>, b: Seq<UpdateRecordView>, v: UpdateRecordView)
    requires
        a.to_multiset() == b.to_multiset(),
        a.contains(v),
    ensures
        b.contains(v),
{
    broadcast use group_to_multiset_ensures;

    assert(a.to_multiset().count(v) > 0);
    assert(b.to_multiset().count(v) > 0);
}

/// An ascending arrangement of records with distinct numbers is the only one.
pub proof fn lemma_ascending_unique(x: Seq<UpdateRecordView>, y: Seq<UpdateRecordView>)
    requires
        ascending(x),
        ascending(y),
        distinct_numbers(x),
        x.to_multiset() == y.to_multiset(),
    ensures
        x == y,
    decreases x.len(),
{
    broadcast use group_to_multiset_ensures;

    lemma_same_length(x, y);
    if x.len() == 0 {
        assert(x =~= y);
    } else {
        let n = x.len() as int;
        let xl = x.last();
        let yl = y.last();
        assert(y.contains(yl)) by {
            assert(y[n - 1] == yl);
        }
        assert(x.contains(xl)) by {
            assert(x[n - 1] == xl);
        }
        lemma_same_members(y, x, yl);
        lemma_same_members(x, y, xl);
        let i = choose|i: int| 0 <= i < x.len() && x[i] == yl;
        let j = choose|j: int| 0 <= j < y.len() && y[j] == xl;
        assert(x[i].sequence_no <= x[n - 1].sequence_no);
        assert(y[j].sequence_no <= y[n - 1].sequence_no);
        assert(i == n - 1);
        assert(xl == yl);
        let xh = x.drop_last();
        let yh = y.drop_last();
        assert(xh =~= x.remove(n - 1));
        assert(yh =~= y.remove(n - 1));
        assert(xh.to_multiset() == yh.to_multiset());
        assert(ascending(xh)) by {
            assert forall|a: int, b: int| 0 <= a <= b < xh.len() implies (
            #[trigger] xh[a]).sequence_no <= (#[trigger] xh[b]).sequence_no by {
                assert(xh[a] == x[a]);
                assert(xh[b] == x[b]);
            }
        }
        assert(ascending(yh)) by {
            assert forall|a: int, b: int| 0 <= a <= b < yh.len() implies (
            #[trigger] yh[a]).sequence_no <= (#[trigger] yh[b]).sequence_no by {
                assert(yh[a] == y[a]);
                assert(yh[b] == y[b]);
            }
        }
        assert(distinct_numbers(xh)) by {
            assert forall|a: int, b: int|
                0 <= a < xh.len() && 0 <= b < xh.len() && a != b implies (
            #[trigger] xh[a]).sequence_no != (#[trigger] xh[b]).sequence_no by {
                assert(xh[a] == x[a]);
                assert(xh[b] == x[b]);
            }
        }
        lemma_ascending_unique(xh, yh);
        assert(x =~= xh.push(xl));
        assert(y =~= yh.push(yl));
    }
}

/// In a log without a fault no position has one.
proof fn lemma_no_fault_at(s: Seq<UpdateRecordView>, snapshot_no: u64, i: int)
    requires
        first_fault_from(s, snapshot_no, 0) is None,
        0 <= i < s.len(),
    ensures
        first_fault_from(s, snapshot_no, i) is None,
        fault_at(s, snapshot_no, i) is None,
    decreases i,
{
    if i > 0 {
        lemma_no_fault_at(s, snapshot_no, i - 1);
    }
}

/// A log has no fault where no position has one.
proof fn lemma_no_fault_from(s: Seq<UpdateRecordView>, snapshot_no: u64, i: int)
    requires
        0 <= i,
        forall|k: int| 0 <= k < s.len() ==> fault_at(s, snapshot_no, k) is None,
    ensures
        first_fault_from(s, snapshot_no, i) is None,
    decreases s.len() - i,
{
    if i < s.len() {
        lemma_no_fault_from(s, snapshot_no, i + 1);
    }
}

/// A log without a fault begins at most one above the snapshot and counts up by one.
pub proof fn lemma_whole_log_is_consecutive(s: Seq<UpdateRecordView>, snapshot_no: u64)
    requires
        first_fault_from(s, snapshot_no, 0) is None,
        s.len() > 0,
    ensures
        s[0].sequence_no <= snapshot_no + 1,
        consecutive_from(s, s[0].sequence_no as int),
{
    lemma_no_fault_at(s, snapshot_no, 0);
    assert forall|i: int| 0 <= i < s.len() implies (#[trigger] s[i]).sequence_no
        == s[0].sequence_no + i by {
        lemma_counts_up(s, snapshot_no, i);
    }
}

/// In a log without a fault the record at position `i` lies `i` above the first.
proof fn lemma_counts_up(s: Seq<UpdateRecordView>, snapshot_no: u64, i: int)
    requires
        first_fault_from(s, snapshot_no, 0) is None,
        0 <= i < s.len(),
    ensures
        s[i].sequence_no == s[0].sequence_no + i,
    decreases i,
{
    if i > 0 {
        lemma_counts_up(s, snapshot_no, i - 1);
        lemma_no_fault_at(s, snapshot_no, i);
    }
}

/// Of records that all lie above the snapshot none is left out.
proof fn lemma_all_newer(s: Seq<UpdateRecordView>, snapshot_no: u64)
    requires
        forall|i: int| 0 <= i < s.len() ==> (#[trigger] s[i]).sequence_no > snapshot_no,
    ensures
        newer_than(s, snapshot_no) == s,
    decreases s.len(),
{
    if s.len() > 0 {
        let head = s.drop_last();
        assert forall|i: int| 0 <= i < head.len() implies (#[trigger] head[i]).sequence_no
            > snapshot_no by {
            assert(head[i] == s[i]);
        }
        lemma_all_newer(head, snapshot_no);
        assert(s[s.len() - 1].sequence_no > snapshot_no);
        assert(head.push(s.last()) =~= s);
    }
}

/// The records above the snapshot, taken from a consecutive log, are consecutive from
/// one above the snapshot; each of them stands in the log and none above the snapshot is
/// left out.
proof fn lemma_newer_of_consecutive(s: Seq<UpdateRecordView>, snapshot_no: u64, first: int)
    requires
        consecutive_from(s, first),
        first <= snapshot_no + 1,
    ensures
        consecutive_from(newer_than(s, snapshot_no), snapshot_no + 1),
        newer_than(s, snapshot_no).len() == if first + s.len() > snapshot_no + 1 {
            first + s.len() - snapshot_no - 1
        } else {
            0
        },
        forall|i: int|
            0 <= i < newer_than(s, snapshot_no).len() ==> s.contains(
                #[trigger] newer_than(s, snapshot_no)[i],
            ),
        forall|i: int|
            0 <= i < s.len() && (#[trigger] s[i]).sequence_no > snapshot_no ==> newer_than(
                s,
                snapshot_no,
            ).contains(s[i]),
    decreases s.len(),
{
    if s.len() > 0 {
        let head = s.drop_last();
        let last = s.last();
        assert(consecutive_from(head, first)) by {
            assert forall|i: int| 0 <= i < head.len() implies (#[trigger] head[i]).sequence_no
                == first + i by {
                assert(head[i] == s[i]);
            }
        }
        lemma_newer_of_consecutive(head, snapshot_no, first);
        let inner = newer_than(head, snapshot_no);
        let outer = newer_than(s, snapshot_no);
        assert(s[s.len() - 1].sequence_no == first + s.len() - 1);
        assert forall|i: int| 0 <= i < outer.len() implies s.contains(#[trigger] outer[i]) by {
            if i < inner.len() {
                assert(outer[i] == inner[i]);
                assert(head.contains(inner[i]));
                let k = choose|k: int| 0 <= k < head.len() && head[k] == inner[i];
                assert(s[k] == head[k]);
            } else {
                assert(outer[i] == s[s.len() - 1]);
            }
        }
        assert forall|i: int|
            0 <= i < s.len() && (#[trigger] s[i]).sequence_no > snapshot_no implies outer.contains(
            s[i],
        ) by {
            if i < head.len() {
                assert(head[i] == s[i]);
                assert(inner.contains(head[i]));
                let k = choose|k: int| 0 <= k < inner.len() && inner[k] == head[i];
                assert(outer[k] == inner[k]);
            } else {
                assert(outer[outer.len() - 1] == s[i]);
            }
        }
    }
}

/// Replay of a log gives what applying the same updates to the snapshot one after the
/// other gives, in whatever order the log holds them.
///
/// `updates` are the updates in the order in which the channel made them, numbered from
/// one above the snapshot; `stored` holds the same records in any order.
pub proof fn lemma_replay_is_direct_application<S>(
    snapshot: S,
    snapshot_no: u64,
    updates: Seq<UpdateRecordView>,
    stored: Seq<UpdateRecordView>,
    apply: spec_fn(S, UpdateRecordView) -> S,
)
    requires
        consecutive_from(updates, snapshot_no + 1),
        stored.to_multiset() == updates.to_multiset(),
    ensures
        replay_plan(snapshot_no, stored) == Ok::<Seq<UpdateRecordView>, ReplayError>(updates),
        replayed(snapshot, snapshot_no, stored, apply) == Some(updates.fold_left(snapshot, apply)),
{
    lemma_replay_skips_superseded(snapshot_no, updates, stored);
    lemma_all_newer(updates, snapshot_no);
}

/// A log that also holds records up to the snapshot is replayed from the snapshot on:
/// where `history` counts up by one from a number that is at most one above the
/// snapshot, and `stored` holds the same records in any order, the plan is the part of
/// `history` above the snapshot.
pub proof fn lemma_replay_skips_superseded(
    snapshot_no: u64,
    history: Seq<UpdateRecordView>,
    stored: Seq<UpdateRecordView>,
)
    requires
        history.len() > 0 ==> consecutive_from(history, history[0].sequence_no as int)
            && history[0].sequence_no <= snapshot_no + 1,
        stored.to_multiset() == history.to_multiset(),
    ensures
        replay_plan(snapshot_no, stored) == Ok::<Seq<UpdateRecordView>, ReplayError>(
            newer_than(history, snapshot_no),
        ),
        consecutive_from(newer_than(history, snapshot_no), snapshot_no + 1),
{
    let sorted = sorted_by_sequence(stored);
    lemma_sorted_is_ascending(stored);
    lemma_sorted_is_permutation(stored);
    if history.len() > 0 {
        let first = history[0].sequence_no as int;
        assert(ascending(history)) by {
            assert forall|i: int, j: int| 0 <= i <= j < history.len() implies (
            #[trigger] history[i]).sequence_no <= (#[trigger] history[j]).sequence_no by {
                assert(history[i].sequence_no == first + i);
                assert(history[j].sequence_no == first + j);
            }
        }
        assert(distinct_numbers(history)) by {
            assert forall|i: int, j: int|
                0 <= i < history.len() && 0 <= j < history.len() && i != j implies (
            #[trigger] history[i]).sequence_no != (#[trigger] history[j]).sequence_no by {
                assert(history[i].sequence_no == first + i);
                assert(history[j].sequence_no == first + j);
            }
        }
        lemma_ascending_unique(history, sorted);
        assert forall|k: int| 0 <= k < history.len() implies fault_at(history, snapshot_no, k)
            is None by {
            if k > 0 {
                assert(history[k - 1].sequence_no == first + (k - 1));
                assert(history[k].sequence_no == first + k);
            }
        }
        lemma_no_fault_from(history, snapshot_no, 0);
        lemma_newer_of_consecutive(history, snapshot_no, first);
    } else {
        lemma_same_length(stored, history);
        lemma_same_length(sorted, stored);
        assert(sorted =~= history);
    }
}

/// Two logs with the same records, in whatever order, are replayed alike, unless a
/// number occurs twice.
pub proof fn lemma_replay_ignores_stored_order(
    snapshot_no: u64,
    a: Seq<UpdateRecordView>,
    b: Seq<UpdateRecordView>,
)
    requires
        a.to_multiset() == b.to_multiset(),
        distinct_numbers(a),
    ensures
        replay_plan(snapshot_no, a) == replay_plan(snapshot_no, b),
{
    broadcast use group_to_multiset_ensures;

    let x = sorted_by_sequence(a);
    let y = sorted_by_sequence(b);
    lemma_sorted_is_ascending(a);
    lemma_sorted_is_permutation(a);
    lemma_sorted_is_ascending(b);
    lemma_sorted_is_permutation(b);
    assert(distinct_numbers(x)) by {
        assert forall|i: int, j: int| 0 <= i < x.len() && 0 <= j < x.len() && i != j implies (
        #[trigger] x[i]).sequence_no != (#[trigger] x[j]).sequence_no by {
            lemma_positions_in_permutation(a, x, i, j);
        }
    }
    lemma_ascending_unique(x, y);
}

/// Two positions of a sequence hold records that stand at two positions of each
/// sequence with the same records.
proof fn lemma_positions_in_permutation(
    a: Seq<UpdateRecordView>,
    x: Seq<UpdateRecordView>,
    i: int,
    j: int,
)
    requires
        a.to_multiset() == x.to_multiset(),
        0 <= i < x.len(),
        0 <= j < x.len(),
        i != j,
    ensures
        exists|p: int, q: int|
            0 <= p < a.len() && 0 <= q < a.len() && p != q && #[trigger] a[p] == x[i]
                && #[trigger] a[q] == x[j],
{
    broadcast use group_to_multiset_ensures;

    assert(x.contains(x[i]));
    assert(x.contains(x[j]));
    lemma_same_members(x, a, x[i]);
    lemma_same_members(x, a, x[j]);
    let p = choose|p: int| 0 <= p < a.len() && a[p] == x[i];
    if x[i] != x[j] {
        let q = choose|q: int| 0 <= q < a.len() && a[q] == x[j];
        assert(p != q);
        assert(a[p] == x[i] && a[q] == x[j]);
    } else {
        let lo = if i < j { i } else { j };
        let hi = if i < j { j } else { i };
        let rest = x.remove(hi);
        assert(rest[lo] == x[lo]);
        assert(rest.contains(x[i]));
        assert(rest.to_multiset().count(x[i]) > 0);
        assert(x.to_multiset().count(x[i]) >= 2);
        let others = a.remove(p);
        assert(others.to_multiset().count(x[i]) > 0);
        assert(others.contains(x[i]));
        let k = choose|k: int| 0 <= k < others.len() && others[k] == x[i];
        let q = if k < p { k } else { k + 1 };
        assert(a[q] == others[k]);
        assert(a[p] == x[i] && a[q] == x[j]);
    }
}

/// A log from which a number is missing is never replayed: where no record carries
/// `missing`, some record lies above it, and the snapshot or some record lies below it.
pub proof fn lemma_replay_refuses_gap(
    snapshot_no: u64,
    stored: Seq<UpdateRecordView>,
    missing: u64,
)
    requires
        forall|i: int| 0 <= i < stored.len() ==> (#[trigger] stored[i]).sequence_no != missing,
        exists|i: int| 0 <= i < stored.len() && (#[trigger] stored[i]).sequence_no > missing,
        snapshot_no < missing || exists|i: int|
            0 <= i < stored.len() && (#[trigger] stored[i]).sequence_no < missing,
    ensures
        replay_plan(snapshot_no, stored) is Err,
{
    broadcast use group_to_multiset_ensures;

    let sorted = sorted_by_sequence(stored);
    lemma_sorted_is_ascending(stored);
    lemma_sorted_is_permutation(stored);
    if first_fault_from(sorted, snapshot_no, 0) is None {
        let above = choose|i: int| 0 <= i < stored.len() && (#[trigger] stored[i]).sequence_no
            > missing;
        assert(stored.contains(stored[above]));
        lemma_same_members(stored, sorted, stored[above]);
        let high = choose|k: int| 0 <= k < sorted.len() && sorted[k] == stored[above];
        lemma_whole_log_is_consecutive(sorted, snapshot_no);
        let first = sorted[0].sequence_no;
        assert(sorted[high].sequence_no == first + high);
        assert(first <= missing) by {
            if snapshot_no < missing {
            } else {
                let below = choose|i: int|
                    0 <= i < stored.len() && (#[trigger] stored[i]).sequence_no < missing;
                assert(stored.contains(stored[below]));
                lemma_same_members(stored, sorted, stored[below]);
                let low = choose|k: int| 0 <= k < sorted.len() && sorted[k] == stored[below];
                assert(sorted[low].sequence_no == first + low);
            }
        }
        let at = missing - first;
        assert(0 <= at < high);
        assert(sorted[at].sequence_no == missing);
        assert(sorted.contains(sorted[at]));
        lemma_same_members(sorted, stored, sorted[at]);
        let back = choose|i: int| 0 <= i < stored.len() && stored[i] == sorted[at];
        assert(stored[back].sequence_no == missing);
    }
}

/// A log in which a number occurs twice is never replayed.
pub proof fn lemma_replay_refuses_duplicate(
    snapshot_no: u64,
    stored: Seq<UpdateRecordView>,
    i: int,
    j: int,
)
    requires
        0 <= i < stored.len(),
        0 <= j < stored.len(),
        i != j,
        stored[i].sequence_no == stored[j].sequence_no,
    ensures
        replay_plan(snapshot_no, stored) is Err,
{
    let sorted = sorted_by_sequence(stored);
    lemma_sorted_is_ascending(stored);
    lemma_sorted_is_permutation(stored);
    if first_fault_from(sorted, snapshot_no, 0) is None {
        lemma_positions_in_permutation(sorted, stored, i, j);
        let (p, q) = choose|p: int, q: int|
            0 <= p < sorted.len() && 0 <= q < sorted.len() && p != q && #[trigger] sorted[p]
                == stored[i] && #[trigger] sorted[q] == stored[j];
        lemma_counts_up(sorted, snapshot_no, p);
        lemma_counts_up(sorted, snapshot_no, q);
    }
}

/// What a plan holds: the records of the log above the snapshot, each once, counting up
/// by one from one above the snapshot. No record above the snapshot is left out.
pub proof fn lemma_plan_is_whole(
    snapshot_no: u64,
    stored: Seq<UpdateRecordView>,
    plan: Seq<UpdateRecordView>,
)
    requires
        replay_plan(snapshot_no, stored) == Ok::<Seq<UpdateRecordView>, ReplayError>(plan),
    ensures
        consecutive_from(plan, snapshot_no + 1),
        forall|i: int| 0 <= i < plan.len() ==> stored.contains(#[trigger] plan[i]),
        forall|i: int|
            0 <= i < stored.len() && (#[trigger] stored[i]).sequence_no > snapshot_no
                ==> plan.contains(stored[i]),
{
    broadcast use group_to_multiset_ensures;

    let sorted = sorted_by_sequence(stored);
    lemma_sorted_is_ascending(stored);
    lemma_sorted_is_permutation(stored);
    if sorted.len() > 0 {
        lemma_whole_log_is_consecutive(sorted, snapshot_no);
        lemma_newer_of_consecutive(sorted, snapshot_no, sorted[0].sequence_no as int);
        assert forall|i: int| 0 <= i < plan.len() implies stored.contains(#[trigger] plan[i]) by {
            assert(sorted.contains(plan[i]));
            lemma_same_members(sorted, stored, plan[i]);
        }
        assert forall|i: int|
            0 <= i < stored.len() && (#[trigger] stored[i]).sequence_no > snapshot_no implies plan.contains(
        stored[i]) by {
            assert(stored.contains(stored[i]));
            lemma_same_members(stored, sorted, stored[i]);
            let k = choose|k: int| 0 <= k < sorted.len() && sorted[k] == stored[i];
            assert(sorted[k].sequence_no > snapshot_no);
        }
    } else {
        lemma_same_length(sorted, stored);
    }
}

} // verus!
