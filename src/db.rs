use vstd::prelude::*;
use crate::utils::{Timestamp, ts_before};

verus! {

/// A message as the store holds it. `id` is assigned by the store on insert.
#[derive(Clone, Debug)]
pub struct SmsMessage {
    pub id: Option<i64>,
    pub imei: String,
    pub sender: String,
    pub text: String,
    pub timestamp: Timestamp,
}

/// Why the store could not carry out an operation.
#[derive(Clone, Copy, Debug, PartialEq, Eq, Structural)]
pub enum StoreError {
    /// No identifier is left to give a new message.
    IdsExhausted,
    /// The backing storage could not be reached or written.
    Unavailable,
}

/// Two messages share the dedup key: device, sender, text and timestamp.
pub open spec fn same_key(a: SmsMessage, b: SmsMessage) -> bool {
    &&& a.imei@ == b.imei@
    &&& a.sender@ == b.sender@
    &&& a.text@ == b.text@
    &&& a.timestamp == b.timestamp
}

/// Some stored message shares the dedup key of `m`.
pub open spec fn has_key(rows: Seq<SmsMessage>, m: SmsMessage) -> bool {
    exists|i: int| 0 <= i < rows.len() && same_key(#[trigger] rows[i], m)
}

/// How many stored messages share the dedup key of `m`.
pub open spec fn key_count(rows: Seq<SmsMessage>, m: SmsMessage) -> nat
    decreases rows.len(),
{
    if rows.len() == 0 {
        0
    } else {
        key_count(rows.drop_last(), m) + if same_key(rows.last(), m) {
            1nat
        } else {
            0nat
        }
    }
}

pub open spec fn id_of(m: SmsMessage) -> int {
    match m.id {
        Some(x) => x as int,
        None => 0,
    }
}

/// The order in which queries return messages: by timestamp, then by id.
pub open spec fn precedes(a: SmsMessage, b: SmsMessage) -> bool {
    ts_before(a.timestamp, b.timestamp) || (a.timestamp == b.timestamp && id_of(a) < id_of(b))
}

pub open spec fn opt_view(s: Option<&str>) -> Option<Seq<char>> {
    match s {
        Some(x) => Some(x@),
        None => None,
    }
}

/// A message is selected by a query for device `imei` (any device when
/// `None`) strictly after `after` (no bound when `None`).
pub open spec fn selected(m: SmsMessage, imei: Option<Seq<char>>, after: Option<Timestamp>) -> bool {
    &&& (imei matches Some(d) ==> m.imei@ == d)
    &&& (after matches Some(t) ==> ts_before(t, m.timestamp))
}

/// `out` is the answer to a query over `rows`: exactly the selected
/// messages, in ascending timestamp order, ties in the order of insertion.
pub open spec fn query_result(
    rows: Seq<SmsMessage>,
    imei: Option<Seq<char>>,
    after: Option<Timestamp>,
    out: Seq<SmsMessage>,
) -> bool {
    &&& forall|m: SmsMessage| out.contains(m) <==> (rows.contains(m) && selected(m, imei, after))
    &&& forall|a: int, b: int| 0 <= a < b < out.len() ==> precedes(#[trigger] out[a], #[trigger] out[b])
}

/// The message `m` as stored under identifier `id`.
pub open spec fn stored_as(m: SmsMessage, id: i64) -> SmsMessage {
    SmsMessage { id: Some(id), ..m }
}

/// The largest number of messages the store can hold: one per positive `i64` id.
pub const MAX_ROWS: u64 = 0x7fff_ffff_ffff_fffe;

/// An append-only store of messages; the dedup policy belongs to its callers.
pub struct Database {
    rows: Vec<SmsMessage>,
}

impl View for Database {
    type V = Seq<SmsMessage>;

    closed spec fn view(&self) -> Seq<SmsMessage> {
        self.rows@
    }
}

fn precedes_exec(a: &SmsMessage, b: &SmsMessage) -> (r: bool)
    ensures
        r == precedes(*a, *b),
{
    let ia: i64 = match a.id {
        Some(x) => x,
        None => 0,
    };
    let ib: i64 = match b.id {
        Some(x) => x,
        None => 0,
    };
    a.timestamp.is_before(&b.timestamp) || (a.timestamp == b.timestamp && ia < ib)
}

fn selected_exec(m: &SmsMessage, imei: &Option<String>, after: Option<Timestamp>) -> (r: bool)
    ensures
        r == selected(
            *m,
            match imei {
                Some(d) => Some(d@),
                None => None,
            },
            after,
        ),
{
    let device_ok = match imei {
        Some(d) => m.imei == *d,
        None => true,
    };
    let time_ok = match after {
        Some(t) => t.is_before(&m.timestamp),
        None => true,
    };
    device_ok && time_ok
}

impl SmsMessage {
    /// A field-by-field copy.
    pub fn duplicate(&self) -> (r: SmsMessage)
        ensures
            r == *self,
    {
        SmsMessage {
            id: self.id,
            imei: self.imei.clone(),
            sender: self.sender.clone(),
            text: self.text.clone(),
            timestamp: self.timestamp,
        }
    }
}

fn same_key_exec(a: &SmsMessage, b: &SmsMessage) -> (r: bool)
    ensures
        r == same_key(*a, *b),
{
    a.imei == b.imei && a.sender == b.sender && a.text == b.text && a.timestamp == b.timestamp
}

impl Database {
    /// Each stored message carries the id one past its position.
    pub open spec fn wf(&self) -> bool {
        &&& self@.len() <= MAX_ROWS
        &&& forall|i: int| 0 <= i < self@.len() ==> (#[trigger] self@[i]).id == Some((i + 1) as i64)
    }

    /// An empty store.
    pub fn new() -> (r: Database)
        ensures
            r.wf(),
            r@ == Seq::<SmsMessage>::empty(),
    {
        Database { rows: Vec::new() }
    }

    /// Number of stored messages.
    pub fn len(&self) -> (r: usize)
        ensures
            r == self@.len(),
    {
        self.rows.len()
    }

    /// Appends `msg` under the next id; does not check for duplicates.
    pub fn insert_message(&mut self, msg: &SmsMessage) -> (r: Result<(), StoreError>)
        requires
            old(self).wf(),
        ensures
            final(self).wf(),
            old(self)@.len() < MAX_ROWS ==> r is Ok && final(self)@ == old(self)@.push(
                stored_as(*msg, (old(self)@.len() + 1) as i64),
            ),
            old(self)@.len() >= MAX_ROWS ==> r == Err::<(), StoreError>(StoreError::IdsExhausted)
                && final(self)@ == old(self)@,
    {
        let n = self.rows.len();
        if n as u64 >= MAX_ROWS {
            return Err(StoreError::IdsExhausted);
        }
        let row = SmsMessage {
            id: Some((n as i64) + 1),
            imei: msg.imei.clone(),
            sender: msg.sender.clone(),
            text: msg.text.clone(),
            timestamp: msg.timestamp,
        };
        self.rows.push(row);
        assert(self.rows@ =~= old(self)@.push(stored_as(*msg, (n + 1) as i64)));
        Ok(())
    }

    /// Whether a message with the dedup key of `msg` is stored.
    pub fn message_exists(&self, msg: &SmsMessage) -> (r: bool)
        ensures
            r == has_key(self@, *msg),
    {
        let mut i: usize = 0;
        while i < self.rows.len()
            invariant
                i <= self@.len(),
                forall|k: int| 0 <= k < i ==> !same_key(#[trigger] self@[k], *msg),
            decreases self@.len() - i,
        {
            if same_key_exec(&self.rows[i], msg) {
                return true;
            }
            i = i + 1;
        }
        false
    }

    /// The stored messages of device `imei` (all devices when `None`) with a
    /// timestamp strictly after `after` (no bound when `None`), in ascending
    /// timestamp order, ties in the order of insertion.
    pub fn get_messages(&self, imei: Option<&str>, after: Option<Timestamp>) -> (r: Vec<SmsMessage>)
        requires
            self.wf(),
        ensures
            query_result(self@, opt_view(imei), after, r@),
    {
        let device: Option<String> = match imei {
            Some(d) => Some(d.to_owned()),
            None => None,
        };
        let ghost dv = opt_view(imei);
        let ghost rows = self@;
        let mut out: Vec<SmsMessage> = Vec::new();
        let mut i: usize = 0;
        while i < self.rows.len()
            invariant
                self.wf(),
                rows == self@,
                i <= rows.len(),
                dv == match device {
                    Some(d) => Some(d@),
                    None => None::<Seq<char>>,
                },
                sorted_by_precedes(out@),
                forall|j: int| 0 <= j < out@.len() ==> id_of(#[trigger] out@[j]) <= i,
                forall|m: SmsMessage|
                    #[trigger] out@.contains(m) <==> taken(rows, i as int, dv, after, m),
            decreases rows.len() - i,
        {
            let row = &self.rows[i];
            let ghost before = out@;
            if selected_exec(row, &device, after) {
                assert(row.id == Some((i + 1) as i64));
                insert_sorted(&mut out, row.duplicate());
            }
            proof {
                assert forall|m: SmsMessage|
                    #[trigger] out@.contains(m) <==> taken(rows, i + 1, dv, after, m) by {
                    if taken(rows, i + 1, dv, after, m) {
                        let k = choose|k: int|
                            0 <= k < i + 1 && rows[k] == m && selected(m, dv, after);
                        if k < i {
                            assert(taken(rows, i as int, dv, after, m));
                        }
                    }
                    if before.contains(m) {
                        assert(taken(rows, i as int, dv, after, m));
                    }
                    if taken(rows, i as int, dv, after, m) {
                        let k = choose|k: int| 0 <= k < i && rows[k] == m && selected(m, dv, after);
                        assert(0 <= k < i + 1 && rows[k] == m && selected(m, dv, after));
                    }
                    if out@.contains(m) && !before.contains(m) {
                        assert(0 <= i < i + 1 && rows[i as int] == m && selected(m, dv, after));
                    }
                }
            }
            i = i + 1;
        }
        proof {
            assert forall|m: SmsMessage|
                out@.contains(m) <==> (rows.contains(m) && selected(m, dv, after)) by {
                if out@.contains(m) {
                    assert(taken(rows, rows.len() as int, dv, after, m));
                    let k = choose|k: int|
                        0 <= k < rows.len() && rows[k] == m && selected(m, dv, after);
                    assert(rows[k] == m);
                }
                if rows.contains(m) && selected(m, dv, after) {
                    let k = choose|k: int| 0 <= k < rows.len() && rows[k] == m;
                    assert(taken(rows, rows.len() as int, dv, after, m));
                }
            }
        }
        out
    }
}

/// `m` is among the first `i` rows and selected by the query.
pub open spec fn taken(
    rows: Seq<SmsMessage>,
    i: int,
    imei: Option<Seq<char>>,
    after: Option<Timestamp>,
    m: SmsMessage,
) -> bool {
    exists|k: int| 0 <= k < i && rows[k] == m && selected(m, imei, after)
}

pub open spec fn sorted_by_precedes(s: Seq<SmsMessage>) -> bool {
    forall|a: int, b: int| 0 <= a < b < s.len() ==> precedes(#[trigger] s[a], #[trigger] s[b])
}

/// Puts `row`, whose id is larger than any present, at its place in a sorted list.
fn insert_sorted(out: &mut Vec<SmsMessage>, row: SmsMessage)
    requires
        sorted_by_precedes(old(out)@),
        forall|j: int| 0 <= j < old(out)@.len() ==> id_of(#[trigger] old(out)@[j]) < id_of(row),
    ensures
        sorted_by_precedes(final(out)@),
        forall|m: SmsMessage| #[trigger]
            final(out)@.contains(m) <==> (old(out)@.contains(m) || m == row),
        forall|j: int| 0 <= j < final(out)@.len() ==> (id_of(#[trigger] final(out)@[j]) < id_of(row)
            || final(out)@[j] == row),
{
    let mut p: usize = 0;
    while p < out.len() && precedes_exec(&out[p], &row)
        invariant
            p <= out@.len(),
            forall|j: int| 0 <= j < p ==> precedes(#[trigger] out@[j], row),
        decreases out@.len() - p,
    {
        p = p + 1;
    }
    let ghost old_out = out@;
    proof {
        assert forall|j: int| p <= j < old_out.len() implies precedes(row, #[trigger] old_out[j]) by {
            assert(id_of(old_out[p as int]) < id_of(row));
            assert(precedes(row, old_out[p as int]));
            if j > p {
                assert(precedes(old_out[p as int], old_out[j]));
            }
        }
    }
    out.insert(p, row);
    proof {
        old_out.insert_ensures(p as int, row);
        assert forall|a: int, b: int| 0 <= a < b < out@.len() implies precedes(
            #[trigger] out@[a],
            #[trigger] out@[b],
        ) by {
            if b < p {
            } else if b == p {
            } else if a < p {
                assert(out@[b] == old_out[b - 1]);
            } else if a == p {
                assert(out@[b] == old_out[b - 1]);
            } else {
                assert(out@[a] == old_out[a - 1]);
                assert(out@[b] == old_out[b - 1]);
            }
        }
        assert forall|m: SmsMessage| #[trigger]
            out@.contains(m) <==> (old_out.contains(m) || m == row) by {
            if out@.contains(m) {
                let j = choose|j: int| 0 <= j < out@.len() && out@[j] == m;
                if j < p {
                    assert(old_out[j] == m);
                } else if j > p {
                    assert(old_out[j - 1] == m);
                }
            }
            if old_out.contains(m) {
                let j = choose|j: int| 0 <= j < old_out.len() && old_out[j] == m;
                if j < p {
                    assert(out@[j] == m);
                } else {
                    assert(out@[j + 1] == m);
                }
            }
            if m == row {
                assert(out@[p as int] == m);
            }
        }
        assert forall|j: int| 0 <= j < out@.len() implies (id_of(#[trigger] out@[j]) < id_of(row)
            || out@[j] == row) by {
            if j < p {
                assert(out@[j] == old_out[j]);
            } else if j > p {
                assert(out@[j] == old_out[j - 1]);
            }
        }
    }
}

} // verus!
