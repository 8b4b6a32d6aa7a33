//! Captured packets: reading them, keeping the last of each kind, and writing them out.

use vstd::prelude::*;
use vstd::slice::slice_subrange;
use vstd::string::*;

use crate::order::{comes_before, text_sign, text_sign_antisymmetric, text_sign_transitive};
use crate::payload::{format_payload, payload_text};
use crate::text::{
    decimal, digits_are_digits, digits_tell_apart, joined, joined_push, push_decimal,
};
use crate::wire::{machine_order, native_order, read_u16, u16_at, ByteOrder};

verus! {

/// The size of what stands before the payload of a capture record.
pub const CAPTURE_HEADER: usize = 10;

/// A captured packet.
pub struct Capture {
    pub qdcount: u16,
    pub ancount: u16,
    pub payload: Vec<u8>,
}

/// What a [`Capture`] holds.
#[verifier::ext_equal]
pub struct CaptureView {
    pub qdcount: u16,
    pub ancount: u16,
    pub payload: Seq<u8>,
}

impl View for Capture {
    type V = CaptureView;

    open spec fn view(&self) -> CaptureView {
        CaptureView { qdcount: self.qdcount, ancount: self.ancount, payload: self.payload@ }
    }
}

// The captures that are kept.

/// A key and what is kept under it.
pub type Entry = (Seq<char>, CaptureView);

/// The keys stand in ascending order, each once.
pub open spec fn in_order(entries: Seq<Entry>) -> bool {
    forall|i: int, j: int|
        0 <= i < j < entries.len() ==> text_sign((#[trigger] entries[i]).0, (#[trigger] entries[j]).0)
            < 0
}

/// `key` is the key of entry `i`.
pub open spec fn stands_at(entries: Seq<Entry>, key: Seq<char>, i: int) -> bool {
    0 <= i < entries.len() && entries[i].0 == key
}

/// `key` is the key of an entry.
pub open spec fn has_key(entries: Seq<Entry>, key: Seq<char>) -> bool {
    exists|i: int| stands_at(entries, key, i)
}

/// What the entries map their keys to.
pub open spec fn map_of(entries: Seq<Entry>) -> Map<Seq<char>, CaptureView> {
    Map::new(
        |key: Seq<char>| has_key(entries, key),
        |key: Seq<char>| entries[choose|i: int| stands_at(entries, key, i)].1,
    )
}

/// The entries are those of the map, in ascending order of their keys.
pub open spec fn lists(entries: Seq<Entry>, captures: Map<Seq<char>, CaptureView>) -> bool {
    in_order(entries) && map_of(entries) == captures
}

/// The captured packets that are kept: the last one under each key.
pub struct Captures {
    entries: Vec<(String, Capture)>,
}

impl View for Captures {
    type V = Map<Seq<char>, CaptureView>;

    closed spec fn view(&self) -> Map<Seq<char>, CaptureView> {
        map_of(self.listed())
    }
}

proof fn lemma_key_place(entries: Seq<Entry>, i: int)
    requires
        in_order(entries),
        0 <= i < entries.len(),
    ensures
        map_of(entries).contains_key(entries[i].0),
        map_of(entries)[entries[i].0] == entries[i].1,
{
    let key = entries[i].0;
    assert(stands_at(entries, key, i));
    let k = choose|k: int| stands_at(entries, key, k);
    text_sign_antisymmetric(key, key);
    if k != i {
        assert(text_sign(entries[k].0, entries[i].0) != 0);
    }
}

proof fn lemma_replace(entries: Seq<Entry>, i: int, entry: Entry)
    requires
        in_order(entries),
        0 <= i < entries.len(),
        entries[i].0 == entry.0,
    ensures
        in_order(entries.update(i, entry)),
        map_of(entries.update(i, entry)) == map_of(entries).insert(entry.0, entry.1),
{
    let after = entries.update(i, entry);
    assert(in_order(after));
    assert forall|key: Seq<char>|
        has_key(after, key) == has_key(entries, key) && (key != entry.0 && has_key(entries, key)
            ==> map_of(after)[key] == map_of(entries)[key]) by {
        if has_key(entries, key) {
            let k = choose|k: int| stands_at(entries, key, k);
            assert(stands_at(after, key, k));
            lemma_key_place(entries, k);
            lemma_key_place(after, k);
        }
        if has_key(after, key) {
            let k = choose|k: int| stands_at(after, key, k);
            assert(stands_at(entries, key, k));
        }
    }
    assert(stands_at(entries, entry.0, i));
    lemma_key_place(after, i);
    assert(map_of(after) =~= map_of(entries).insert(entry.0, entry.1));
}

proof fn lemma_insert(entries: Seq<Entry>, i: int, entry: Entry)
    requires
        in_order(entries),
        0 <= i <= entries.len(),
        forall|k: int| 0 <= k < i ==> text_sign((#[trigger] entries[k]).0, entry.0) < 0,
        i < entries.len() ==> text_sign(entry.0, entries[i].0) < 0,
    ensures
        in_order(entries.insert(i, entry)),
        map_of(entries.insert(i, entry)) == map_of(entries).insert(entry.0, entry.1),
{
    let after = entries.insert(i, entry);
    assert forall|k: int| i <= k < entries.len() implies text_sign(entry.0, (#[trigger] entries[k]).0)
        < 0 by {
        if k > i {
            assert(text_sign(entries[i].0, entries[k].0) < 0);
            text_sign_transitive(entry.0, entries[i].0, entries[k].0);
        }
    }
    assert forall|j: int, k: int| 0 <= j < k < after.len() implies text_sign(
        (#[trigger] after[j]).0,
        (#[trigger] after[k]).0,
    ) < 0 by {
        let a = if j < i { j } else { j - 1 };
        let b = if k < i { k } else { k - 1 };
        if j != i && k != i {
            assert(text_sign(entries[a].0, entries[b].0) < 0);
        }
    }
    assert forall|key: Seq<char>|
        has_key(after, key) == (key == entry.0 || has_key(entries, key)) && (key != entry.0
            && has_key(entries, key) ==> map_of(after)[key] == map_of(entries)[key]) by {
        if has_key(entries, key) {
            let k = choose|k: int| stands_at(entries, key, k);
            let there = if k < i { k } else { k + 1 };
            assert(stands_at(after, key, there));
            lemma_key_place(entries, k);
            lemma_key_place(after, there);
        }
        if has_key(after, key) && key != entry.0 {
            let k = choose|k: int| stands_at(after, key, k);
            assert(stands_at(entries, key, if k < i { k } else { k - 1 }));
        }
        assert(stands_at(after, entry.0, i));
    }
    lemma_key_place(after, i);
    assert(map_of(after) =~= map_of(entries).insert(entry.0, entry.1));
}

impl Captures {
    /// What is kept, in ascending order of the keys.
    pub closed spec fn listed(&self) -> Seq<Entry> {
        self.entries@.map_values(|e: (String, Capture)| (e.0@, e.1@))
    }

    #[verifier::type_invariant]
    spec fn ordered(&self) -> bool {
        in_order(self.listed())
    }

    /// Nothing captured yet.
    pub fn new() -> (c: Captures)
        ensures
            c@ == Map::<Seq<char>, CaptureView>::empty(),
    {
        let c = Captures { entries: Vec::new() };
        assert(c@ =~= Map::<Seq<char>, CaptureView>::empty());
        c
    }

    /// Keeps a capture under a key, in place of the one that was kept there.
    pub fn insert(&mut self, key: String, capture: Capture)
        ensures
            final(self)@ == old(self)@.insert(key@, capture@),
    {
        proof {
            use_type_invariant(&*self);
        }
        let ghost before = self.listed();
        let ghost entry: Entry = (key@, capture@);
        let mut entries: Vec<(String, Capture)> = Vec::new();
        std::mem::swap(&mut entries, &mut self.entries);
        let mut i: usize = 0;
        while i < entries.len() && comes_before(entries[i].0.as_str(), key.as_str())
            invariant
                i <= entries@.len(),
                before == entries@.map_values(|e: (String, Capture)| (e.0@, e.1@)),
                forall|k: int| 0 <= k < i ==> text_sign((#[trigger] before[k]).0, key@) < 0,
            decreases entries@.len() - i,
        {
            i += 1;
        }
        if i < entries.len() && !comes_before(key.as_str(), entries[i].0.as_str()) {
            proof {
                text_sign_antisymmetric(before[i as int].0, key@);
                lemma_replace(before, i as int, entry);
            }
            entries[i] = (key, capture);
            assert(entries@.map_values(|e: (String, Capture)| (e.0@, e.1@)) =~= before.update(
                i as int,
                entry,
            ));
        } else {
            proof {
                if i < before.len() {
                    text_sign_antisymmetric(before[i as int].0, key@);
                }
                lemma_insert(before, i as int, entry);
            }
            entries.insert(i, (key, capture));
            assert(entries@.map_values(|e: (String, Capture)| (e.0@, e.1@)) =~= before.insert(
                i as int,
                entry,
            ));
        }
        self.entries = entries;
    }
}

// Writing the captures out.

/// One capture, written out under its key.
pub open spec fn entry_text(entry: Entry) -> Seq<char> {
    "        \""@ + entry.0 + "\": {\n            \"questions\": "@ + decimal(entry.1.qdcount as nat)
        + ",\n            \"answers\": "@ + decimal(entry.1.ancount as nat)
        + ",\n            \"payload\": [\n"@ + payload_text(entry.1.payload)
        + "\n            ]\n        }"@
}

/// The captures written out, in the order in which they are listed.
pub open spec fn captures_text(entries: Seq<Entry>) -> Seq<char> {
    "{\n    \"payloads\": {\n"@ + joined(entries.map_values(|e: Entry| entry_text(e)), ",\n"@)
        + "\n    }\n}\n"@
}

fn push_entry(out: &mut String, key: &String, capture: &Capture)
    ensures
        final(out)@ == old(out)@ + entry_text((key@, capture@)),
{
    out.append("        \"");
    out.append(key.as_str());
    out.append("\": {\n            \"questions\": ");
    push_decimal(out, capture.qdcount as u64);
    out.append(",\n            \"answers\": ");
    push_decimal(out, capture.ancount as u64);
    out.append(",\n            \"payload\": [\n");
    out.append(format_payload(capture.payload.as_slice()).as_str());
    out.append("\n            ]\n        }");
    assert(out@ =~= old(out)@ + entry_text((key@, capture@)));
}

impl Captures {
    /// Writes all captures out, in ascending order of their keys.
    pub fn payloads_text(&self) -> (s: String)
        ensures
            lists(self.listed(), self@),
            s@ == captures_text(self.listed()),
    {
        proof {
            use_type_invariant(self);
        }
        let mut out = "{\n    \"payloads\": {\n".to_owned();
        let ghost start = out@;
        let ghost texts = self.listed().map_values(|e: Entry| entry_text(e));
        let mut i: usize = 0;
        while i < self.entries.len()
            invariant
                i <= self.entries@.len(),
                texts == self.listed().map_values(|e: Entry| entry_text(e)),
                out@ == start + joined(texts.take(i as int), ",\n"@),
            decreases self.entries@.len() - i,
        {
            let ghost text = entry_text(self.listed()[i as int]);
            proof {
                assert(texts.take(i + 1) =~= texts.take(i as int).push(text));
                joined_push(texts.take(i as int), ",\n"@, text);
            }
            if i > 0 {
                out.append(",\n");
            }
            push_entry(&mut out, &self.entries[i].0, &self.entries[i].1);
            i += 1;
            assert(out@ =~= start + joined(texts.take(i as int), ",\n"@));
        }
        assert(texts.take(i as int) =~= texts);
        out.append("\n    }\n}\n");
        out
    }
}

// Reading capture records.

/// A capture record: which packet it is of, and the capture.
pub struct CaptureRecord {
    pub txid: u16,
    pub cpu: u16,
    /// The length of the payload as the record gives it.
    pub pay_len: u16,
    pub capture: Capture,
}

/// What a [`CaptureRecord`] holds.
#[verifier::ext_equal]
pub struct CaptureRecordView {
    pub txid: u16,
    pub cpu: u16,
    pub pay_len: u16,
    pub capture: CaptureView,
}

impl View for CaptureRecord {
    type V = CaptureRecordView;

    open spec fn view(&self) -> CaptureRecordView {
        CaptureRecordView {
            txid: self.txid,
            cpu: self.cpu,
            pay_len: self.pay_len,
            capture: self.capture@,
        }
    }
}

/// The payload of a record: as many bytes as it says, or what there is.
pub open spec fn payload_at(data: Seq<u8>, pay_len: u16) -> Seq<u8> {
    data.subrange(
        CAPTURE_HEADER as int,
        if CAPTURE_HEADER + pay_len <= data.len() {
            CAPTURE_HEADER + pay_len
        } else {
            data.len() as int
        },
    )
}

/// The capture that a record holds.
pub open spec fn capture_at(data: Seq<u8>, order: ByteOrder) -> CaptureRecordView {
    CaptureRecordView {
        txid: u16_at(data, 0, order),
        cpu: u16_at(data, 2, order),
        pay_len: u16_at(data, 8, order),
        capture: CaptureView {
            qdcount: u16_at(data, 4, order),
            ancount: u16_at(data, 6, order),
            payload: payload_at(data, u16_at(data, 8, order)),
        },
    }
}

/// Reads a capture record whose numbers stand in the given byte order; `None` where the bytes are
/// too few for its header.
pub fn decode_capture(data: &[u8], order: ByteOrder) -> (r: Option<CaptureRecord>)
    ensures
        r is None <==> data@.len() < CAPTURE_HEADER,
        r matches Some(c) ==> c@ == capture_at(data@, order),
{
    if data.len() < CAPTURE_HEADER {
        return None;
    }
    let pay_len = read_u16(data, 8, order);
    let room: usize = data.len() - CAPTURE_HEADER;
    let end: usize = if pay_len as usize <= room {
        CAPTURE_HEADER + pay_len as usize
    } else {
        data.len()
    };
    let payload = vstd::slice::slice_to_vec(slice_subrange(data, CAPTURE_HEADER, end));
    Some(
        CaptureRecord {
            txid: read_u16(data, 0, order),
            cpu: read_u16(data, 2, order),
            pay_len,
            capture: Capture {
                qdcount: read_u16(data, 4, order),
                ancount: read_u16(data, 6, order),
                payload,
            },
        },
    )
}

/// The key of a packet: its transaction and the processor that saw it.
pub open spec fn capture_key(txid: u16, cpu: u16) -> Seq<char> {
    decimal(txid as nat) + "_"@ + decimal(cpu as nat)
}

/// How a capture is logged.
pub open spec fn capture_line(r: CaptureRecordView) -> Seq<char> {
    "captured "@ + capture_key(r.txid, r.cpu) + " (q="@ + decimal(r.capture.qdcount as nat) + " a="@
        + decimal(r.capture.ancount as nat) + " "@ + decimal(r.pay_len as nat) + " bytes)"@
}

impl CaptureRecord {
    /// The key under which the capture is kept.
    pub fn key(&self) -> (s: String)
        ensures
            s@ == capture_key(self.txid, self.cpu),
    {
        let mut s = String::new();
        push_decimal(&mut s, self.txid as u64);
        s.append("_");
        push_decimal(&mut s, self.cpu as u64);
        assert(s@ =~= capture_key(self.txid, self.cpu));
        s
    }

    /// The line that is logged for the capture.
    pub fn log_line(&self) -> (s: String)
        ensures
            s@ == capture_line(self@),
    {
        let mut s = "captured ".to_owned();
        s.append(self.key().as_str());
        s.append(" (q=");
        push_decimal(&mut s, self.capture.qdcount as u64);
        s.append(" a=");
        push_decimal(&mut s, self.capture.ancount as u64);
        s.append(" ");
        push_decimal(&mut s, self.pay_len as u64);
        s.append(" bytes)");
        s
    }
}

/// What there is to do about a capture record.
pub struct Recorded {
    /// All captures written out.
    pub text: String,
    /// The line to log.
    pub log: String,
}

/// A record is taken in while payloads are written, where its header is whole.
pub open spec fn taken_in(payload_on: bool, data: Seq<u8>) -> bool {
    payload_on && data.len() >= CAPTURE_HEADER
}

impl Captures {
    /// Takes in a capture record of this machine: keeps the capture, in place of an earlier one of
    /// the same packet, and writes all captures out.
    pub fn record(&mut self, payload_on: bool, data: &[u8]) -> (r: Option<Recorded>)
        ensures
            r is Some <==> taken_in(payload_on, data@),
            !taken_in(payload_on, data@) ==> final(self)@ == old(self)@,
            taken_in(payload_on, data@) ==> {
                let c = capture_at(data@, machine_order());
                final(self)@ == old(self)@.insert(capture_key(c.txid, c.cpu), c.capture)
            },
            r matches Some(done) ==> {
                &&& lists(final(self).listed(), final(self)@)
                &&& done.text@ == captures_text(final(self).listed())
                &&& done.log@ == capture_line(capture_at(data@, machine_order()))
            },
    {
        if !payload_on {
            return None;
        }
        match decode_capture(data, native_order()) {
            None => None,
            Some(c) => {
                let log = c.log_line();
                self.insert(c.key(), c.capture);
                Some(Recorded { text: self.payloads_text(), log })
            },
        }
    }
}

// What holds of captures.

/// Captures are written out in one order only.
pub proof fn captures_have_one_listing(
    a: Seq<Entry>,
    b: Seq<Entry>,
    captures: Map<Seq<char>, CaptureView>,
)
    requires
        lists(a, captures),
        lists(b, captures),
    ensures
        a == b,
    decreases a.len(),
{
    if a.len() == 0 {
        if b.len() > 0 {
            lemma_key_place(b, 0);
            assert(false) by {
                assert(has_key(a, b[0].0));
            }
        }
        assert(a =~= b);
    } else {
        lemma_key_place(a, a.len() - 1);
        let i = choose|i: int| stands_at(b, a.last().0, i);
        assert(has_key(b, a.last().0));
        lemma_key_place(b, b.len() - 1);
        let j = choose|j: int| stands_at(a, b.last().0, j);
        assert(has_key(a, b.last().0));
        text_sign_antisymmetric(a.last().0, b.last().0);
        if j < a.len() - 1 {
            assert(text_sign(a[j].0, a[a.len() - 1].0) < 0);
        }
        if i < b.len() - 1 {
            assert(text_sign(b[i].0, b[b.len() - 1].0) < 0);
        }
        assert(a.last().0 == b.last().0);
        lemma_key_place(b, b.len() - 1);
        lemma_drop_last(a);
        lemma_drop_last(b);
        captures_have_one_listing(a.drop_last(), b.drop_last(), captures.remove(a.last().0));
        assert(a =~= a.drop_last().push(a.last()));
        assert(b =~= b.drop_last().push(b.last()));
    }
}

proof fn lemma_drop_last(entries: Seq<Entry>)
    requires
        in_order(entries),
        entries.len() > 0,
    ensures
        lists(entries.drop_last(), map_of(entries).remove(entries.last().0)),
{
    let rest = entries.drop_last();
    let gone = entries.last().0;
    assert(in_order(rest));
    assert forall|key: Seq<char>|
        has_key(rest, key) == (has_key(entries, key) && key != gone) && (has_key(rest, key)
            ==> map_of(rest)[key] == map_of(entries)[key]) by {
        if has_key(rest, key) {
            let k = choose|k: int| stands_at(rest, key, k);
            assert(stands_at(entries, key, k));
            assert(text_sign(entries[k].0, entries[entries.len() - 1].0) < 0);
            text_sign_antisymmetric(key, gone);
            lemma_key_place(rest, k);
            lemma_key_place(entries, k);
        }
        if has_key(entries, key) && key != gone {
            let k = choose|k: int| stands_at(entries, key, k);
            assert(stands_at(rest, key, k));
        }
    }
    assert(map_of(rest) =~= map_of(entries).remove(gone));
}

/// Packets of different transactions, or seen by different processors, are kept under different
/// keys.
pub proof fn keys_tell_packets_apart(txid: u16, cpu: u16, other_txid: u16, other_cpu: u16)
    requires
        capture_key(txid, cpu) == capture_key(other_txid, other_cpu),
    ensures
        txid == other_txid,
        cpu == other_cpu,
{
    reveal_strlit("_");
    let (a, b) = (decimal(txid as nat), decimal(cpu as nat));
    let (c, d) = (decimal(other_txid as nat), decimal(other_cpu as nat));
    let key = capture_key(txid, cpu);
    digits_are_digits(txid as nat, 10);
    digits_are_digits(other_txid as nat, 10);
    assert(key[a.len() as int] == '_' && key[c.len() as int] == '_');
    if a.len() < c.len() {
        assert(key[a.len() as int] == c[a.len() as int]);
    }
    if c.len() < a.len() {
        assert(key[c.len() as int] == a[c.len() as int]);
    }
    assert(a =~= key.take(a.len() as int));
    assert(c =~= key.take(c.len() as int));
    assert(b =~= key.skip((a.len() + 1) as int));
    assert(d =~= key.skip((c.len() + 1) as int));
    digits_tell_apart(txid as nat, other_txid as nat, 10);
    digits_tell_apart(cpu as nat, other_cpu as nat, 10);
}

/// The captures kept after a run of records.
pub open spec fn after_records(records: Seq<CaptureRecordView>) -> Map<Seq<char>, CaptureView>
    decreases records.len(),
{
    if records.len() == 0 {
        Map::empty()
    } else {
        let c = records.last();
        after_records(records.drop_last()).insert(capture_key(c.txid, c.cpu), c.capture)
    }
}

/// No later record is of the same packet as record `i`.
pub open spec fn is_last_of_packet(records: Seq<CaptureRecordView>, i: int) -> bool {
    forall|j: int|
        i < j < records.len() ==> (#[trigger] records[j]).txid != records[i].txid || records[j].cpu
            != records[i].cpu
}

/// After any run of records exactly the last capture of each packet is kept.
pub proof fn last_captures_are_kept(records: Seq<CaptureRecordView>)
    ensures
        forall|i: int|
            0 <= i < records.len() && is_last_of_packet(records, i) ==> #[trigger] after_records(
                records,
            ).contains_pair(capture_key(records[i].txid, records[i].cpu), records[i].capture),
        forall|key: Seq<char>| #[trigger]
            after_records(records).contains_key(key) ==> exists|i: int|
                0 <= i < records.len() && is_last_of_packet(records, i) && key == capture_key(
                    (#[trigger] records[i]).txid,
                    records[i].cpu,
                ),
    decreases records.len(),
{
    if records.len() > 0 {
        let before = records.drop_last();
        let last = records.last();
        let end = records.len() - 1;
        last_captures_are_kept(before);
        assert forall|i: int| 0 <= i < records.len() && is_last_of_packet(records, i) implies #[trigger] after_records(
            records,
        ).contains_pair(capture_key(records[i].txid, records[i].cpu), records[i].capture) by {
            if i < end {
                assert(records[end] == last);
                assert forall|j: int| i < j < before.len() implies (#[trigger] before[j]).txid
                    != before[i].txid || before[j].cpu != before[i].cpu by {
                    assert(before[j] == records[j]);
                }
                assert(before[i] == records[i]);
                assert(is_last_of_packet(before, i));
                assert(after_records(before).contains_pair(
                    capture_key(before[i].txid, before[i].cpu),
                    before[i].capture,
                ));
                if capture_key(records[i].txid, records[i].cpu) == capture_key(last.txid, last.cpu) {
                    keys_tell_packets_apart(records[i].txid, records[i].cpu, last.txid, last.cpu);
                }
            }
        }
        assert forall|key: Seq<char>| #[trigger] after_records(records).contains_key(
            key,
        ) implies exists|i: int|
            0 <= i < records.len() && is_last_of_packet(records, i) && key == capture_key(
                (#[trigger] records[i]).txid,
                records[i].cpu,
            ) by {
            if key == capture_key(last.txid, last.cpu) {
                assert(records[end] == last);
                assert(is_last_of_packet(records, end));
            } else {
                assert(after_records(before).contains_key(key));
                let i = choose|i: int|
                    0 <= i < before.len() && is_last_of_packet(before, i) && key == capture_key(
                        (#[trigger] before[i]).txid,
                        before[i].cpu,
                    );
                assert(records[i] == before[i]);
                assert forall|j: int| i < j < records.len() implies (#[trigger] records[j]).txid
                    != records[i].txid || records[j].cpu != records[i].cpu by {
                    if j < end {
                        assert(before[j] == records[j]);
                    }
                }
                assert(is_last_of_packet(records, i));
            }
        }
    }
}

} // verus!
