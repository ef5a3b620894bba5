//! Tag-length-value record sets: the keys of the protocol, the record
//! collection, and its map model.

use vstd::prelude::*;
use vstd::string::StringSliceAdditionalSpecFns;

verus! {

/// The closed set of one-byte record identifiers the device understands.
/// Tag bytes outside this set are valid on the wire but carry no meaning
/// for this client and are dropped during decoding.
#[derive(Clone, Copy, PartialEq, Eq, Structural, Debug, Hash)]
pub enum TlvKey {
    MsgName,
    OperationNum,
    AmountInMinorCurrencyUnit,
    KeepaliveIntervalInSecs,
    OperationTimeoutInSecs,
    EventName,
    EventNum,
    ProductId,
    QrCodeData,
    TcpIpDestination,
    OutgoingByteCounter,
    SimpleDataBlock,
    ConfirmableDataBlock,
    ProductName,
    PosManagementData,
    LocalTime,
    SysInfo,
    BankingReceipt,
    DisplayTimeInMs,
}

/// The tag byte each key is written as on the wire.
pub open spec fn key_code(k: TlvKey) -> u8 {
    match k {
        TlvKey::MsgName => 0x01,
        TlvKey::OperationNum => 0x03,
        TlvKey::AmountInMinorCurrencyUnit => 0x04,
        TlvKey::KeepaliveIntervalInSecs => 0x05,
        TlvKey::OperationTimeoutInSecs => 0x06,
        TlvKey::EventName => 0x07,
        TlvKey::EventNum => 0x08,
        TlvKey::ProductId => 0x09,
        TlvKey::QrCodeData => 0x0A,
        TlvKey::TcpIpDestination => 0x0B,
        TlvKey::OutgoingByteCounter => 0x0C,
        TlvKey::SimpleDataBlock => 0x0D,
        TlvKey::ConfirmableDataBlock => 0x0E,
        TlvKey::ProductName => 0x0F,
        TlvKey::PosManagementData => 0x10,
        TlvKey::LocalTime => 0x11,
        TlvKey::SysInfo => 0x12,
        TlvKey::BankingReceipt => 0x13,
        TlvKey::DisplayTimeInMs => 0x14,
    }
}

/// The key a tag byte stands for, or `None` for a byte outside the set.
pub open spec fn key_from_code(b: u8) -> Option<TlvKey> {
    match b {
        0x01 => Some(TlvKey::MsgName),
        0x03 => Some(TlvKey::OperationNum),
        0x04 => Some(TlvKey::AmountInMinorCurrencyUnit),
        0x05 => Some(TlvKey::KeepaliveIntervalInSecs),
        0x06 => Some(TlvKey::OperationTimeoutInSecs),
        0x07 => Some(TlvKey::EventName),
        0x08 => Some(TlvKey::EventNum),
        0x09 => Some(TlvKey::ProductId),
        0x0A => Some(TlvKey::QrCodeData),
        0x0B => Some(TlvKey::TcpIpDestination),
        0x0C => Some(TlvKey::OutgoingByteCounter),
        0x0D => Some(TlvKey::SimpleDataBlock),
        0x0E => Some(TlvKey::ConfirmableDataBlock),
        0x0F => Some(TlvKey::ProductName),
        0x10 => Some(TlvKey::PosManagementData),
        0x11 => Some(TlvKey::LocalTime),
        0x12 => Some(TlvKey::SysInfo),
        0x13 => Some(TlvKey::BankingReceipt),
        0x14 => Some(TlvKey::DisplayTimeInMs),
        _ => None,
    }
}

impl TlvKey {
    /// The tag byte this key is encoded as.
    pub fn code(self) -> (b: u8)
        ensures
            b == key_code(self),
    {
        match self {
            TlvKey::MsgName => 0x01,
            TlvKey::OperationNum => 0x03,
            TlvKey::AmountInMinorCurrencyUnit => 0x04,
            TlvKey::KeepaliveIntervalInSecs => 0x05,
            TlvKey::OperationTimeoutInSecs => 0x06,
            TlvKey::EventName => 0x07,
            TlvKey::EventNum => 0x08,
            TlvKey::ProductId => 0x09,
            TlvKey::QrCodeData => 0x0A,
            TlvKey::TcpIpDestination => 0x0B,
            TlvKey::OutgoingByteCounter => 0x0C,
            TlvKey::SimpleDataBlock => 0x0D,
            TlvKey::ConfirmableDataBlock => 0x0E,
            TlvKey::ProductName => 0x0F,
            TlvKey::PosManagementData => 0x10,
            TlvKey::LocalTime => 0x11,
            TlvKey::SysInfo => 0x12,
            TlvKey::BankingReceipt => 0x13,
            TlvKey::DisplayTimeInMs => 0x14,
        }
    }

    /// The key a tag byte stands for, or `None` for an unknown byte.
    pub fn from_code(b: u8) -> (r: Option<TlvKey>)
        ensures
            r == key_from_code(b),
    {
        match b {
            0x01 => Some(TlvKey::MsgName),
            0x03 => Some(TlvKey::OperationNum),
            0x04 => Some(TlvKey::AmountInMinorCurrencyUnit),
            0x05 => Some(TlvKey::KeepaliveIntervalInSecs),
            0x06 => Some(TlvKey::OperationTimeoutInSecs),
            0x07 => Some(TlvKey::EventName),
            0x08 => Some(TlvKey::EventNum),
            0x09 => Some(TlvKey::ProductId),
            0x0A => Some(TlvKey::QrCodeData),
            0x0B => Some(TlvKey::TcpIpDestination),
            0x0C => Some(TlvKey::OutgoingByteCounter),
            0x0D => Some(TlvKey::SimpleDataBlock),
            0x0E => Some(TlvKey::ConfirmableDataBlock),
            0x0F => Some(TlvKey::ProductName),
            0x10 => Some(TlvKey::PosManagementData),
            0x11 => Some(TlvKey::LocalTime),
            0x12 => Some(TlvKey::SysInfo),
            0x13 => Some(TlvKey::BankingReceipt),
            0x14 => Some(TlvKey::DisplayTimeInMs),
            _ => None,
        }
    }
}

/// Tag bytes determine keys: decoding the code of a key yields the key back.
pub proof fn lemma_key_code_round_trip(k: TlvKey)
    ensures
        key_from_code(key_code(k)) == Some(k),
{
}

/// One stored record: a key and its raw value bytes.
pub struct TlvEntry {
    pub key: TlvKey,
    pub value: Vec<u8>,
}

/// The value bound to `k` by the records `s`; a later record for the same
/// key shadows an earlier one.
pub open spec fn lookup(s: Seq<TlvEntry>, k: TlvKey) -> Option<Seq<u8>>
    decreases s.len(),
{
    if s.len() == 0 {
        None
    } else if s.last().key == k {
        Some(s.last().value@)
    } else {
        lookup(s.drop_last(), k)
    }
}

/// The key-to-value map described by the records `s`.
pub open spec fn map_of_records(s: Seq<TlvEntry>) -> Map<TlvKey, Seq<u8>> {
    Map::new(|k: TlvKey| lookup(s, k) is Some, |k: TlvKey| lookup(s, k).unwrap())
}

/// No two records share a key.
pub open spec fn unique_keys(s: Seq<TlvEntry>) -> bool {
    forall|i: int, j: int| 0 <= i < j < s.len() ==> s[i].key != s[j].key
}

/// Every value fits the one-byte length field of a record.
pub open spec fn small_values(s: Seq<TlvEntry>) -> bool {
    forall|i: int| 0 <= i < s.len() ==> s[i].value@.len() <= 255
}

/// A record set: a mapping from keys to opaque byte values.  Keys are
/// unique and insertion order carries no meaning; the view is the map.
pub struct Tlv {
    entries: Vec<TlvEntry>,
}

impl View for Tlv {
    type V = Map<TlvKey, Seq<u8>>;

    open spec fn view(&self) -> Map<TlvKey, Seq<u8>> {
        map_of_records(self.records())
    }
}

impl Tlv {
    /// The stored records, in insertion order.
    pub closed spec fn records(&self) -> Seq<TlvEntry> {
        self.entries@
    }

    /// Well-formedness: keys unique, every value at most 255 bytes.
    pub open spec fn wf(&self) -> bool {
        unique_keys(self.records()) && small_values(self.records())
    }

    /// An empty record set.
    pub fn new() -> (t: Tlv)
        ensures
            t.wf(),
            t.records() == Seq::<TlvEntry>::empty(),
            t@ == Map::<TlvKey, Seq<u8>>::empty(),
    {
        let t = Tlv { entries: Vec::new() };
        proof {
            assert(t@ =~= Map::<TlvKey, Seq<u8>>::empty());
        }
        t
    }

    /// Borrow the stored records.
    pub fn data(&self) -> (r: &Vec<TlvEntry>)
        ensures
            r@ == self.records(),
    {
        &self.entries
    }

    /// The index of the record holding `key`, if one does.
    fn find_key(&self, key: TlvKey) -> (r: Option<usize>)
        ensures
            match r {
                Some(i) => i < self.records().len() && self.records()[i as int].key == key,
                None => forall|j: int|
                    0 <= j < self.records().len() ==> self.records()[j].key != key,
            },
    {
        let mut i: usize = 0;
        while i < self.entries.len()
            invariant
                i <= self.entries@.len(),
                forall|j: int| 0 <= j < i ==> self.entries@[j].key != key,
            decreases self.entries@.len() - i,
        {
            if self.entries[i].key == key {
                return Some(i);
            }
            i += 1;
        }
        None
    }

    /// The value stored under `key`, if any.
    pub fn get_bin(&self, key: TlvKey) -> (r: Option<&Vec<u8>>)
        requires
            self.wf(),
        ensures
            match r {
                Some(v) => self@.contains_key(key) && v@ == self@[key],
                None => !self@.contains_key(key),
            },
    {
        match self.find_key(key) {
            Some(i) => {
                proof {
                    lemma_lookup_at_index(self.entries@, i as int);
                }
                Some(&self.entries[i].value)
            },
            None => {
                proof {
                    lemma_lookup_absent(self.entries@, key);
                }
                None
            },
        }
    }

    /// Store `value` under `key`, replacing any earlier value.
    pub(crate) fn insert_value(&mut self, key: TlvKey, value: Vec<u8>)
        requires
            old(self).wf(),
            value@.len() <= 255,
        ensures
            final(self).wf(),
            final(self)@ == old(self)@.insert(key, value@),
    {
        let ghost s0 = self.entries@;
        match self.find_key(key) {
            Some(i) => {
                self.entries.remove(i);
                let ghost s1 = self.entries@;
                proof {
                    assert forall|j: int| 0 <= j < s1.len() implies #[trigger] s1[j].key != key by {
                        if j < i {
                            assert(s1[j] == s0[j]);
                        } else {
                            assert(s1[j] == s0[j + 1]);
                        }
                    }
                    assert forall|a: int, b: int| 0 <= a < b < s1.len() implies s1[a].key
                        != s1[b].key by {
                        let a0 = if a < i { a } else { a + 1 };
                        let b0 = if b < i { b } else { b + 1 };
                        assert(s1[a] == s0[a0] && s1[b] == s0[b0]);
                    }
                }
                self.entries.push(TlvEntry { key, value });
                proof {
                    let s2 = self.entries@;
                    assert(s2.drop_last() =~= s1);
                    assert(lookup(s2, key) == Some(value@));
                    assert forall|k: TlvKey| k != key implies lookup(s2, k) == lookup(s0, k) by {
                        lemma_lookup_remove_other(s0, i as int, k);
                    }
                    assert forall|a: int, b: int| 0 <= a < b < s2.len() implies s2[a].key
                        != s2[b].key by {
                        if b < s2.len() - 1 {
                            assert(s2[a] == s1[a] && s2[b] == s1[b]);
                        } else {
                            assert(s2[a] == s1[a]);
                        }
                    }
                    assert(self@ =~= old(self)@.insert(key, value@));
                }
            },
            None => {
                self.entries.push(TlvEntry { key, value });
                proof {
                    let s2 = self.entries@;
                    assert(s2.drop_last() =~= s0);
                    assert(lookup(s2, key) == Some(value@));
                    assert(self@ =~= old(self)@.insert(key, value@));
                }
            },
        }
    }

    /// Store a copy of `data` under `key`, replacing any earlier value.
    /// A value longer than 255 bytes cannot be encoded and may not be stored.
    pub fn set_bin(&mut self, key: TlvKey, data: &[u8])
        requires
            old(self).wf(),
            data@.len() <= 255,
        ensures
            final(self).wf(),
            final(self)@ == old(self)@.insert(key, data@),
    {
        let v = vstd::slice::slice_to_vec(data);
        self.insert_value(key, v);
    }

    /// Store the UTF-8 bytes of `data` under `key`.
    pub fn set_str(&mut self, key: TlvKey, data: &str)
        requires
            old(self).wf(),
            data.spec_bytes().len() <= 255,
        ensures
            final(self).wf(),
            final(self)@ == old(self)@.insert(key, data.spec_bytes()),
    {
        self.set_bin(key, data.as_bytes());
    }
}

/// With unique keys, looking a key up finds the value of its one record.
pub proof fn lemma_lookup_at_index(s: Seq<TlvEntry>, i: int)
    requires
        unique_keys(s),
        0 <= i < s.len(),
    ensures
        lookup(s, s[i].key) == Some(s[i].value@),
    decreases s.len(),
{
    if i < s.len() - 1 {
        assert(s.last().key != s[i].key);
        assert(s.drop_last()[i] == s[i]);
        lemma_lookup_at_index(s.drop_last(), i);
    }
}

/// A key no record holds is not bound.
pub proof fn lemma_lookup_absent(s: Seq<TlvEntry>, k: TlvKey)
    requires
        forall|i: int| 0 <= i < s.len() ==> s[i].key != k,
    ensures
        lookup(s, k) is None,
    decreases s.len(),
{
    if s.len() > 0 {
        lemma_lookup_absent(s.drop_last(), k);
    }
}

/// Removing a record leaves every other key's binding unchanged.
proof fn lemma_lookup_remove_other(s: Seq<TlvEntry>, i: int, k: TlvKey)
    requires
        0 <= i < s.len(),
        s[i].key != k,
    ensures
        lookup(s.remove(i), k) == lookup(s, k),
    decreases s.len(),
{
    if i == s.len() - 1 {
        assert(s.remove(i) =~= s.drop_last());
    } else {
        let r = s.remove(i);
        assert(r.last() == s.last());
        if s.last().key != k {
            assert(r.drop_last() =~= s.drop_last().remove(i));
            assert(s.drop_last()[i] == s[i]);
            lemma_lookup_remove_other(s.drop_last(), i, k);
        }
    }
}

/// The records as plain (key, value) pairs, in order.
pub open spec fn record_pairs(s: Seq<TlvEntry>) -> Seq<(TlvKey, Seq<u8>)> {
    s.map_values(|e: TlvEntry| (e.key, e.value@))
}

/// A bound key has a record holding exactly its value.
proof fn lemma_lookup_some_index(s: Seq<TlvEntry>, k: TlvKey)
    requires
        lookup(s, k) is Some,
    ensures
        exists|i: int|
            0 <= i < s.len() && s[i].key == k && s[i].value@ == lookup(s, k).unwrap(),
    decreases s.len(),
{
    if s.last().key == k {
        assert(s[s.len() - 1].key == k && s[s.len() - 1].value@ == lookup(s, k).unwrap());
    } else {
        lemma_lookup_some_index(s.drop_last(), k);
        let i = choose|i: int|
            0 <= i < s.drop_last().len() && s.drop_last()[i].key == k && s.drop_last()[i].value@
                == lookup(s.drop_last(), k).unwrap();
        assert(s[i].key == k && s[i].value@ == lookup(s, k).unwrap());
    }
}

/// Whatever `s1` binds, records with the same pairs bind the same way.
proof fn lemma_bindings_included(s1: Seq<TlvEntry>, s2: Seq<TlvEntry>, k: TlvKey)
    requires
        unique_keys(s2),
        record_pairs(s1).to_multiset() == record_pairs(s2).to_multiset(),
        lookup(s1, k) is Some,
    ensures
        lookup(s2, k) == lookup(s1, k),
{
    let p1 = record_pairs(s1);
    let p2 = record_pairs(s2);
    p1.to_multiset_ensures();
    p2.to_multiset_ensures();
    lemma_lookup_some_index(s1, k);
    let i = choose|i: int|
        0 <= i < s1.len() && s1[i].key == k && s1[i].value@ == lookup(s1, k).unwrap();
    let pr = (k, lookup(s1, k).unwrap());
    assert(p1[i] == pr);
    assert(p1.contains(pr));
    assert(p2.to_multiset().count(pr) > 0);
    assert(p2.contains(pr));
    let j = choose|j: int| 0 <= j < p2.len() && p2[j] == pr;
    assert(s2[j].key == k && s2[j].value@ == pr.1);
    lemma_lookup_at_index(s2, j);
}

/// Two well-formed record sets holding the same records, in whatever
/// order, describe the same map: storage order carries no meaning.
pub proof fn lemma_view_order_independent(t1: Tlv, t2: Tlv)
    requires
        t1.wf(),
        t2.wf(),
        record_pairs(t1.records()).to_multiset() == record_pairs(t2.records()).to_multiset(),
    ensures
        t1@ == t2@,
{
    let s1 = t1.records();
    let s2 = t2.records();
    assert forall|k: TlvKey| #[trigger] lookup(s1, k) is Some || #[trigger] lookup(s2, k)
        is Some implies lookup(s1, k) == lookup(s2, k) by {
        if lookup(s1, k) is Some {
            lemma_bindings_included(s1, s2, k);
        } else {
            lemma_bindings_included(s2, s1, k);
        }
    }
    assert(map_of_records(s1) =~= map_of_records(s2));
}

} // verus!
