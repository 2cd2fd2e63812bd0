use vstd::prelude::*;
use crate::utils::{Timestamp, normalized_instant, parse_rfc3339_timestamp};

verus! {

/// A modem seen during one poll cycle: its transient connection path and
/// its equipment identity, which tags stored messages.
#[derive(Clone, Debug)]
pub struct ModemInfo {
    pub path: String,
    pub imei: String,
}

/// A message pending on a modem, addressed by its transient path.
#[derive(Clone, Debug)]
pub struct SmsInfo {
    pub sender: String,
    pub text: String,
    pub timestamp: Timestamp,
    pub sms_path: String,
}

/// A failure reaching or speaking to the modem service.
#[derive(Clone, Debug)]
pub struct SourceError {
    pub reason: String,
}

/// The instant given to a pending message, and whether its own timestamp
/// could not be read so that the current instant stands in for it.
#[derive(Clone, Copy, Debug, PartialEq, Eq, Structural)]
pub struct TimestampReading {
    pub timestamp: Timestamp,
    pub substituted: bool,
}

/// Reads a message's timestamp string; where it cannot be normalized, `now`
/// takes its place and the reading says so.
pub fn message_timestamp(raw: &str, now: Timestamp) -> (r: TimestampReading)
    ensures
        normalized_instant(raw@) matches Some(t) ==> r == (TimestampReading {
            timestamp: t,
            substituted: false,
        }),
        normalized_instant(raw@) is None ==> r == (TimestampReading {
            timestamp: now,
            substituted: true,
        }),
{
    match parse_rfc3339_timestamp(raw) {
        Ok(t) => TimestampReading { timestamp: t, substituted: false },
        Err(_) => TimestampReading { timestamp: now, substituted: true },
    }
}

/// The interface that marks a managed object as a modem.
pub open spec fn modem_interface() -> Seq<char> {
    "org.freedesktop.ModemManager1.Modem"@
}

/// Whether a managed object that offers the interfaces `interfaces` is a modem.
pub fn is_modem_object(interfaces: &Vec<String>) -> (r: bool)
    ensures
        r == exists|i: int| 0 <= i < interfaces@.len() && #[trigger] interfaces@[i]@ == modem_interface(),
{
    let wanted = String::from_str("org.freedesktop.ModemManager1.Modem");
    let mut i: usize = 0;
    while i < interfaces.len()
        invariant
            i <= interfaces@.len(),
            wanted@ == modem_interface(),
            forall|k: int| 0 <= k < i ==> #[trigger] interfaces@[k]@ != modem_interface(),
        decreases interfaces@.len() - i,
    {
        if interfaces[i] == wanted {
            return true;
        }
        i = i + 1;
    }
    false
}

/// `a` comes no later than `b` in the order of their characters, a prefix
/// first; for UTF-8 text this is the order of its bytes.
pub open spec fn text_le(a: Seq<char>, b: Seq<char>) -> bool
    decreases a.len(),
{
    if a.len() == 0 {
        true
    } else if b.len() == 0 {
        false
    } else if a[0] != b[0] {
        a[0] < b[0]
    } else {
        text_le(a.drop_first(), b.drop_first())
    }
}

proof fn lemma_text_le_total(a: Seq<char>, b: Seq<char>)
    ensures
        text_le(a, b) || text_le(b, a),
    decreases a.len(),
{
    if a.len() > 0 && b.len() > 0 && a[0] == b[0] {
        lemma_text_le_total(a.drop_first(), b.drop_first());
    }
}

proof fn lemma_text_le_trans(a: Seq<char>, b: Seq<char>, c: Seq<char>)
    requires
        text_le(a, b),
        text_le(b, c),
    ensures
        text_le(a, c),
    decreases a.len(),
{
    if a.len() > 0 && b.len() > 0 && c.len() > 0 && a[0] == b[0] && b[0] == c[0] {
        lemma_text_le_trans(a.drop_first(), b.drop_first(), c.drop_first());
    }
}

proof fn lemma_text_le_skip(a: Seq<char>, b: Seq<char>, i: int)
    requires
        0 <= i <= a.len(),
        i <= b.len(),
        a.take(i) == b.take(i),
    ensures
        text_le(a, b) == text_le(a.skip(i), b.skip(i)),
    decreases i,
{
    if i > 0 {
        assert(a[0] == a.take(i)[0]);
        assert(b[0] == b.take(i)[0]);
        assert(a.drop_first().take(i - 1) =~= a.take(i).drop_first());
        assert(b.drop_first().take(i - 1) =~= b.take(i).drop_first());
        lemma_text_le_skip(a.drop_first(), b.drop_first(), i - 1);
        assert(a.drop_first().skip(i - 1) =~= a.skip(i));
        assert(b.drop_first().skip(i - 1) =~= b.skip(i));
    } else {
        assert(a.skip(0) =~= a);
        assert(b.skip(0) =~= b);
    }
}

fn text_le_exec(a: &str, b: &str) -> (r: bool)
    ensures
        r == text_le(a@, b@),
{
    let na = a.unicode_len();
    let nb = b.unicode_len();
    let mut i: usize = 0;
    while i < na && i < nb && a.get_char(i) == b.get_char(i)
        invariant
            i <= na,
            i <= nb,
            na == a@.len(),
            nb == b@.len(),
            a@.take(i as int) == b@.take(i as int),
        decreases na - i,
    {
        assert(a@.take(i + 1) =~= a@.take(i as int).push(a@[i as int]));
        assert(b@.take(i + 1) =~= b@.take(i as int).push(b@[i as int]));
        i = i + 1;
    }
    proof {
        lemma_text_le_skip(a@, b@, i as int);
    }
    if i == na {
        true
    } else if i == nb {
        false
    } else {
        assert(a@.skip(i as int)[0] == a@[i as int]);
        assert(b@.skip(i as int)[0] == b@[i as int]);
        a.get_char(i) < b.get_char(i)
    }
}

impl ModemInfo {
    /// A field-by-field copy.
    pub fn duplicate(&self) -> (r: ModemInfo)
        ensures
            r == *self,
    {
        ModemInfo { path: self.path.clone(), imei: self.imei.clone() }
    }
}

/// The modems are in ascending order of connection path.
pub open spec fn sorted_by_path(s: Seq<ModemInfo>) -> bool {
    forall|a: int, b: int| 0 <= a < b < s.len() ==> text_le(#[trigger] s[a].path@, #[trigger] s[b].path@)
}

/// The same modems in ascending order of connection path, so that each cycle
/// visits them in a stable order.
pub fn sort_modems(modems: &Vec<ModemInfo>) -> (r: Vec<ModemInfo>)
    ensures
        sorted_by_path(r@),
        r@.to_multiset() == modems@.to_multiset(),
{
    broadcast use vstd::seq_lib::group_to_multiset_ensures;
    let mut out: Vec<ModemInfo> = Vec::new();
    let mut i: usize = 0;
    while i < modems.len()
        invariant
            i <= modems@.len(),
            sorted_by_path(out@),
            out@.to_multiset() == modems@.take(i as int).to_multiset(),
        decreases modems@.len() - i,
    {
        let m = modems[i].duplicate();
        let mut p: usize = 0;
        while p < out.len() && text_le_exec(out[p].path.as_str(), m.path.as_str())
            invariant
                p <= out@.len(),
                forall|j: int| 0 <= j < p ==> text_le(#[trigger] out@[j].path@, m.path@),
            decreases out@.len() - p,
        {
            p = p + 1;
        }
        let ghost old_out = out@;
        proof {
            assert forall|j: int| p <= j < old_out.len() implies text_le(m.path@, #[trigger] old_out[j].path@) by {
                lemma_text_le_total(m.path@, old_out[p as int].path@);
                if j > p {
                    lemma_text_le_trans(m.path@, old_out[p as int].path@, old_out[j].path@);
                }
            }
        }
        out.insert(p, m);
        proof {
            old_out.insert_ensures(p as int, m);
            vstd::seq_lib::to_multiset_insert(old_out, p as int, m);
            assert(modems@.take(i + 1) =~= modems@.take(i as int).push(modems@[i as int]));
            vstd::seq_lib::to_multiset_build(modems@.take(i as int), modems@[i as int]);
            assert(out@.to_multiset() == modems@.take(i + 1).to_multiset());
            assert forall|a: int, b: int| 0 <= a < b < out@.len() implies text_le(
                #[trigger] out@[a].path@,
                #[trigger] out@[b].path@,
            ) by {
                if b < p {
                } else if b == p {
                } else if a < p {
                    assert(out@[b] == old_out[b - 1]);
                    lemma_text_le_trans(out@[a].path@, m.path@, out@[b].path@);
                } else if a == p {
                    assert(out@[b] == old_out[b - 1]);
                } else {
                    assert(out@[a] == old_out[a - 1]);
                    assert(out@[b] == old_out[b - 1]);
                }
            }
        }
        i = i + 1;
    }
    assert(modems@.take(modems@.len() as int) =~= modems@);
    out
}

} // verus!
