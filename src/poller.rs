use vstd::prelude::*;
use crate::db::{
    Database, SmsMessage, StoreError, MAX_ROWS, has_key, key_count, same_key, stored_as,
};
use crate::modem::{ModemInfo, SmsInfo, SourceError};

verus! {

/// Where the handling of one pending message stands.
#[derive(Clone, Copy, Debug, PartialEq, Eq, Structural)]
pub enum Step {
    /// Ask the store whether the message is already held.
    CheckExists,
    /// Store the message.
    Insert,
    /// Remove the message from the modem.
    Delete,
    /// Nothing more to do in this cycle.
    Done,
}

/// The outcome of the work a step asked for.
#[derive(Clone, Copy, Debug, PartialEq, Eq, Structural)]
pub enum Event {
    Checked(bool),
    CheckFailed,
    Inserted,
    InsertFailed,
    Deleted,
    DeleteFailed,
}

/// The step that follows `step` once `event` is known: a message is removed
/// from the modem only once it is known to be stored, and is stored only when
/// the store does not hold it yet.
pub open spec fn step_after(step: Step, event: Event) -> Step {
    match (step, event) {
        (Step::CheckExists, Event::Checked(true)) => Step::Delete,
        (Step::CheckExists, Event::Checked(false)) => Step::Insert,
        (Step::Insert, Event::Inserted) => Step::Delete,
        _ => Step::Done,
    }
}

/// Decides the next step of a message's handling.
pub fn next_step(step: Step, event: Event) -> (r: Step)
    ensures
        r == step_after(step, event),
{
    match step {
        Step::CheckExists => match event {
            Event::Checked(true) => Step::Delete,
            Event::Checked(false) => Step::Insert,
            _ => Step::Done,
        },
        Step::Insert => match event {
            Event::Inserted => Step::Delete,
            _ => Step::Done,
        },
        _ => Step::Done,
    }
}

/// A message is removed from the modem only right after the store was found
/// to hold it, or right after it was stored; a failed check or insert ends
/// its handling for this cycle.
pub proof fn lemma_delete_only_after_store(step: Step, event: Event)
    ensures
        step_after(step, event) == Step::Delete <==> ((step == Step::CheckExists && event
            == Event::Checked(true)) || (step == Step::Insert && event == Event::Inserted)),
        step == Step::CheckExists && event == Event::CheckFailed ==> step_after(step, event)
            == Step::Done,
        step == Step::Insert && event == Event::InsertFailed ==> step_after(step, event)
            == Step::Done,
{
}

/// What became of one pending message.
#[derive(Clone, Copy, Debug, PartialEq, Eq, Structural)]
pub enum Disposition {
    /// The store held it already; it is only to be removed from the modem.
    Duplicate,
    /// It was stored; it is to be removed from the modem.
    Stored,
    /// It could not be stored and stays on the modem.
    NotStored(StoreError),
}

impl Disposition {
    /// Whether the message is to be removed from the modem.
    pub open spec fn spec_deletes(self) -> bool {
        !(self is NotStored)
    }

    pub fn deletes(&self) -> (r: bool)
        ensures
            r == self.spec_deletes(),
    {
        match self {
            Disposition::NotStored(_) => false,
            _ => true,
        }
    }
}

/// A request to remove one message from one modem.
#[derive(Clone, Debug)]
pub struct DeletionRequest {
    pub modem_path: String,
    pub sms_path: String,
}

impl View for DeletionRequest {
    type V = (Seq<char>, Seq<char>);

    open spec fn view(&self) -> (Seq<char>, Seq<char>) {
        (self.modem_path@, self.sms_path@)
    }
}

/// The message the store is asked about for `sms` found on `modem`.
pub open spec fn candidate(modem: ModemInfo, sms: SmsInfo) -> SmsMessage {
    SmsMessage {
        id: None,
        imei: modem.imei,
        sender: sms.sender,
        text: sms.text,
        timestamp: sms.timestamp,
    }
}

/// The store's messages after handling candidate `c`.
pub open spec fn ingest(rows: Seq<SmsMessage>, c: SmsMessage) -> Seq<SmsMessage> {
    if has_key(rows, c) || rows.len() >= MAX_ROWS {
        rows
    } else {
        rows.push(stored_as(c, (rows.len() + 1) as i64))
    }
}

/// The disposition of candidate `c` against the store's messages.
pub open spec fn disposition(rows: Seq<SmsMessage>, c: SmsMessage) -> Disposition {
    if has_key(rows, c) {
        Disposition::Duplicate
    } else if rows.len() < MAX_ROWS {
        Disposition::Stored
    } else {
        Disposition::NotStored(StoreError::IdsExhausted)
    }
}

/// The store's messages after handling, in order, the messages `msgs` found on `modem`.
pub open spec fn ingest_all(rows: Seq<SmsMessage>, modem: ModemInfo, msgs: Seq<SmsInfo>) -> Seq<
    SmsMessage,
>
    decreases msgs.len(),
{
    if msgs.len() == 0 {
        rows
    } else {
        ingest(ingest_all(rows, modem, msgs.drop_last()), candidate(modem, msgs.last()))
    }
}

/// The removals requested while handling, in order, the messages `msgs` found on `modem`.
pub open spec fn deletions_all(rows: Seq<SmsMessage>, modem: ModemInfo, msgs: Seq<SmsInfo>) -> Seq<
    (Seq<char>, Seq<char>),
>
    decreases msgs.len(),
{
    if msgs.len() == 0 {
        Seq::empty()
    } else {
        let before = ingest_all(rows, modem, msgs.drop_last());
        deletions_all(rows, modem, msgs.drop_last()) + if disposition(
            before,
            candidate(modem, msgs.last()),
        ).spec_deletes() {
            seq![(modem.path@, msgs.last().sms_path@)]
        } else {
            Seq::empty()
        }
    }
}

/// The messages a listing contributes: none when listing failed.
pub open spec fn listed(l: Result<Vec<SmsInfo>, SourceError>) -> Seq<SmsInfo> {
    match l {
        Ok(v) => v@,
        Err(_) => Seq::empty(),
    }
}

/// The store's messages after a cycle over `modems`, whose listings are `listings`.
pub open spec fn cycle_rows(
    rows: Seq<SmsMessage>,
    modems: Seq<ModemInfo>,
    listings: Seq<Result<Vec<SmsInfo>, SourceError>>,
) -> Seq<SmsMessage>
    decreases modems.len(),
{
    if modems.len() == 0 {
        rows
    } else {
        ingest_all(
            cycle_rows(rows, modems.drop_last(), listings.take(modems.len() - 1)),
            modems.last(),
            listed(listings[modems.len() - 1]),
        )
    }
}

/// The removals requested during a cycle over `modems`, whose listings are `listings`.
pub open spec fn cycle_deletions(
    rows: Seq<SmsMessage>,
    modems: Seq<ModemInfo>,
    listings: Seq<Result<Vec<SmsInfo>, SourceError>>,
) -> Seq<(Seq<char>, Seq<char>)>
    decreases modems.len(),
{
    if modems.len() == 0 {
        Seq::empty()
    } else {
        let before = cycle_rows(rows, modems.drop_last(), listings.take(modems.len() - 1));
        cycle_deletions(rows, modems.drop_last(), listings.take(modems.len() - 1)) + deletions_all(
            before,
            modems.last(),
            listed(listings[modems.len() - 1]),
        )
    }
}

/// Handles one pending message: stores it unless the store already holds a
/// message with its dedup key, and says whether it is to be removed from the
/// modem.
pub fn process_message(db: &mut Database, modem: &ModemInfo, sms: &SmsInfo) -> (r: Disposition)
    requires
        old(db).wf(),
    ensures
        final(db).wf(),
        final(db)@ == ingest(old(db)@, candidate(*modem, *sms)),
        r == disposition(old(db)@, candidate(*modem, *sms)),
{
    let msg = SmsMessage {
        id: None,
        imei: modem.imei.clone(),
        sender: sms.sender.clone(),
        text: sms.text.clone(),
        timestamp: sms.timestamp,
    };
    let exists = db.message_exists(&msg);
    match next_step(Step::CheckExists, Event::Checked(exists)) {
        Step::Insert => match db.insert_message(&msg) {
            Ok(()) => Disposition::Stored,
            Err(e) => Disposition::NotStored(e),
        },
        _ => Disposition::Duplicate,
    }
}

/// The removals that `reqs` ask for, as pairs of modem path and message path.
pub open spec fn requested(reqs: Seq<DeletionRequest>) -> Seq<(Seq<char>, Seq<char>)> {
    reqs.map_values(|d: DeletionRequest| d@)
}

/// Handles, in order, the messages `msgs` listed on `modem`, and appends the
/// removals they call for to `out`.
fn process_listing(
    db: &mut Database,
    modem: &ModemInfo,
    msgs: &Vec<SmsInfo>,
    out: &mut Vec<DeletionRequest>,
)
    requires
        old(db).wf(),
    ensures
        final(db).wf(),
        final(db)@ == ingest_all(old(db)@, *modem, msgs@),
        requested(final(out)@) == requested(old(out)@) + deletions_all(old(db)@, *modem, msgs@),
{
    let ghost rows0 = db@;
    let ghost out0 = out@;
    let mut i: usize = 0;
    while i < msgs.len()
        invariant
            i <= msgs@.len(),
            db.wf(),
            db@ == ingest_all(rows0, *modem, msgs@.take(i as int)),
            requested(out@) == requested(out0) + deletions_all(rows0, *modem, msgs@.take(i as int)),
        decreases msgs@.len() - i,
    {
        let ghost before = db@;
        let ghost out_before = out@;
        let d = process_message(db, modem, &msgs[i]);
        if d.deletes() {
            out.push(DeletionRequest { modem_path: modem.path.clone(), sms_path: msgs[i].sms_path.clone() });
        }
        proof {
            let t = msgs@.take(i + 1);
            assert(t.drop_last() =~= msgs@.take(i as int));
            assert(t.last() == msgs@[i as int]);
            if d.spec_deletes() {
                assert(requested(out@) =~= requested(out_before).push((modem.path@, msgs@[i as int].sms_path@)));
            } else {
                assert(requested(out@) =~= requested(out_before));
            }
            assert(requested(out@) =~= requested(out0) + deletions_all(rows0, *modem, t));
        }
        i = i + 1;
    }
    assert(msgs@.take(msgs@.len() as int) =~= msgs@);
}

/// Runs one poll cycle over `modems`, whose message listings are `listings`
/// (one per modem, in the same order). A failed listing skips that modem
/// alone; each listed message is handled as `process_message` does. Returns
/// the removals to request, in order.
pub fn poll_cycle(
    db: &mut Database,
    modems: &Vec<ModemInfo>,
    listings: &Vec<Result<Vec<SmsInfo>, SourceError>>,
) -> (r: Vec<DeletionRequest>)
    requires
        old(db).wf(),
        modems@.len() == listings@.len(),
    ensures
        final(db).wf(),
        final(db)@ == cycle_rows(old(db)@, modems@, listings@),
        requested(r@) == cycle_deletions(old(db)@, modems@, listings@),
{
    let ghost rows0 = db@;
    let mut out: Vec<DeletionRequest> = Vec::new();
    let mut i: usize = 0;
    while i < modems.len()
        invariant
            i <= modems@.len(),
            modems@.len() == listings@.len(),
            db.wf(),
            db@ == cycle_rows(rows0, modems@.take(i as int), listings@.take(i as int)),
            requested(out@) == cycle_deletions(rows0, modems@.take(i as int), listings@.take(i as int)),
        decreases modems@.len() - i,
    {
        let ghost before = db@;
        let ghost out_before = out@;
        match &listings[i] {
            Ok(msgs) => {
                process_listing(db, &modems[i], msgs, &mut out);
            },
            Err(_) => {},
        }
        proof {
            let ms = modems@.take(i + 1);
            let ls = listings@.take(i + 1);
            assert(ms.drop_last() =~= modems@.take(i as int));
            assert(ls.take(i as int) =~= listings@.take(i as int));
            assert(ms.last() == modems@[i as int]);
            assert(ls[i as int] == listings@[i as int]);
            if listings@[i as int] is Err {
                assert(ingest_all(before, modems@[i as int], Seq::empty()) == before);
                assert(deletions_all(before, modems@[i as int], Seq::empty()) == Seq::<(Seq<char>, Seq<char>)>::empty());
                assert(requested(out@) =~= requested(out_before) + Seq::<(Seq<char>, Seq<char>)>::empty());
            }
        }
        i = i + 1;
    }
    assert(modems@.take(modems@.len() as int) =~= modems@);
    assert(listings@.take(listings@.len() as int) =~= listings@);
    out
}

proof fn lemma_key_count_zero(rows: Seq<SmsMessage>, c: SmsMessage)
    ensures
        (key_count(rows, c) == 0) <==> !has_key(rows, c),
    decreases rows.len(),
{
    if rows.len() > 0 {
        let init = rows.drop_last();
        lemma_key_count_zero(init, c);
        if has_key(init, c) {
            let i = choose|i: int| 0 <= i < init.len() && same_key(#[trigger] init[i], c);
            assert(same_key(rows[i], c));
        }
        if has_key(rows, c) && !same_key(rows.last(), c) {
            let i = choose|i: int| 0 <= i < rows.len() && same_key(#[trigger] rows[i], c);
            assert(same_key(init[i], c));
        }
        if same_key(rows.last(), c) {
            assert(same_key(rows[rows.len() - 1], c));
        }
    }
}

proof fn lemma_key_count_push(rows: Seq<SmsMessage>, x: SmsMessage, c: SmsMessage)
    ensures
        key_count(rows.push(x), c) == key_count(rows, c) + if same_key(x, c) {
            1nat
        } else {
            0nat
        },
{
    assert(rows.push(x).drop_last() =~= rows);
}

/// Handling the same pending message twice, with no copy of it stored before
/// and room in the store, leaves exactly one stored copy, and asks both times
/// for its removal from the modem.
pub proof fn lemma_dedup_twice(rows: Seq<SmsMessage>, modem: ModemInfo, sms: SmsInfo)
    requires
        !has_key(rows, candidate(modem, sms)),
        rows.len() < MAX_ROWS,
    ensures
        key_count(ingest(ingest(rows, candidate(modem, sms)), candidate(modem, sms)), candidate(modem, sms)) == 1,
        disposition(rows, candidate(modem, sms)).spec_deletes(),
        disposition(ingest(rows, candidate(modem, sms)), candidate(modem, sms)).spec_deletes(),
{
    let c = candidate(modem, sms);
    let r1 = ingest(rows, c);
    lemma_key_count_zero(rows, c);
    lemma_key_count_push(rows, stored_as(c, (rows.len() + 1) as i64), c);
    assert(r1[rows.len() as int] == stored_as(c, (rows.len() + 1) as i64));
    assert(has_key(r1, c));
}

/// Once a message has been stored, handling it again, as happens when its
/// removal from the modem failed, stores nothing more: the existence check
/// finds it and only its removal is asked for.
pub proof fn lemma_stored_then_redelivered(rows: Seq<SmsMessage>, modem: ModemInfo, sms: SmsInfo)
    requires
        disposition(rows, candidate(modem, sms)) == Disposition::Stored,
    ensures
        step_after(Step::Delete, Event::DeleteFailed) == Step::Done,
        disposition(ingest(rows, candidate(modem, sms)), candidate(modem, sms))
            == Disposition::Duplicate,
        ingest(ingest(rows, candidate(modem, sms)), candidate(modem, sms)) == ingest(
            rows,
            candidate(modem, sms),
        ),
        key_count(ingest(ingest(rows, candidate(modem, sms)), candidate(modem, sms)), candidate(modem, sms))
            == key_count(rows, candidate(modem, sms)) + 1,
{
    let c = candidate(modem, sms);
    let r1 = ingest(rows, c);
    lemma_key_count_push(rows, stored_as(c, (rows.len() + 1) as i64), c);
    assert(r1[rows.len() as int] == stored_as(c, (rows.len() + 1) as i64));
    assert(has_key(r1, c));
}

/// In a cycle over two modems, a failed listing on the first does not keep
/// the second modem's messages from being handled: the cycle does exactly
/// what handling the second modem's messages alone does.
pub proof fn lemma_failed_listing_is_isolated(
    rows: Seq<SmsMessage>,
    modems: Seq<ModemInfo>,
    listings: Seq<Result<Vec<SmsInfo>, SourceError>>,
)
    requires
        modems.len() == 2,
        listings.len() == 2,
        listings[0] is Err,
    ensures
        cycle_rows(rows, modems, listings) == ingest_all(rows, modems[1], listed(listings[1])),
        cycle_deletions(rows, modems, listings) == deletions_all(rows, modems[1], listed(listings[1])),
{
    let m1 = modems.drop_last();
    let l1 = listings.take(1);
    assert(m1.drop_last() =~= Seq::<ModemInfo>::empty());
    assert(listed(l1[0]) =~= Seq::<SmsInfo>::empty());
    assert(m1.last() == modems[0]);
    assert(m1.len() == 1);
    assert(l1[0] == listings[0]);
    assert(cycle_rows(rows, m1.drop_last(), l1.take(0)) == rows);
    assert(cycle_deletions(rows, m1.drop_last(), l1.take(0)) == Seq::<(Seq<char>, Seq<char>)>::empty());
    assert(ingest_all(rows, modems[0], listed(l1[0])) == rows);
    assert(deletions_all(rows, modems[0], listed(l1[0])) == Seq::<(Seq<char>, Seq<char>)>::empty());
    assert(cycle_rows(rows, m1, l1) == rows);
    assert(cycle_deletions(rows, m1, l1) =~= Seq::<(Seq<char>, Seq<char>)>::empty());
    assert(cycle_deletions(rows, modems, listings) =~= deletions_all(rows, modems[1], listed(listings[1])));
}

} // verus!
