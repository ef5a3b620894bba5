//! Wire form of a record set: one record is a tag byte, one length byte
//! and the raw value bytes; records stand back to back.  Encoding emits
//! every stored record; decoding scans forward, drops unknown tags while
//! staying synchronized, lets a later record overwrite an earlier one for
//! the same key, and silently discards a trailing incomplete record.

use vstd::prelude::*;

use crate::tlv::{
    key_code, key_from_code, lemma_key_code_round_trip, lemma_lookup_at_index, lookup,
    map_of_records, small_values, unique_keys, Tlv, TlvEntry, TlvKey,
};

verus! {

/// The wire bytes of one record holding the value `v` under the key `k`.
pub open spec fn encode_entry(k: TlvKey, v: Seq<u8>) -> Seq<u8>
    recommends
        v.len() <= 255,
{
    seq![key_code(k), v.len() as u8] + v
}

/// The wire bytes of the records `s`, in order.
pub open spec fn encode_records(s: Seq<TlvEntry>) -> Seq<u8>
    decreases s.len(),
{
    if s.len() == 0 {
        Seq::empty()
    } else {
        encode_entry(s[0].key, s[0].value@) + encode_records(s.drop_first())
    }
}

/// Scan `raw` from the front, adding each complete known record to `acc`.
/// Fewer than two remaining bytes, or fewer value bytes than the length
/// byte claims, end the scan; an unknown tag byte adds nothing but still
/// advances past its record.
pub open spec fn decode_step(acc: Map<TlvKey, Seq<u8>>, raw: Seq<u8>) -> Map<TlvKey, Seq<u8>>
    decreases raw.len(),
{
    if raw.len() < 2 {
        acc
    } else {
        let vlen = raw[1] as int;
        if raw.len() < 2 + vlen {
            acc
        } else {
            let stepped = match key_from_code(raw[0]) {
                Some(k) => acc.insert(k, raw.subrange(2, 2 + vlen)),
                None => acc,
            };
            decode_step(stepped, raw.skip(2 + vlen))
        }
    }
}

/// The record map decoded from arbitrary bytes.  Total: no byte sequence
/// is rejected.
pub open spec fn decode_map(raw: Seq<u8>) -> Map<TlvKey, Seq<u8>> {
    decode_step(Map::<TlvKey, Seq<u8>>::empty(), raw)
}

/// `bytes` is an encoding of exactly the map `m`: well-formed records,
/// one per key of `m` with its value, back to back in some order.  The
/// order is the one freedom encoding has; nothing else may differ.
pub open spec fn is_encoding_of(bytes: Seq<u8>, m: Map<TlvKey, Seq<u8>>) -> bool {
    exists|s: Seq<TlvEntry>|
        unique_keys(s) && small_values(s) && map_of_records(s) == m && bytes == #[trigger] encode_records(s)
}

impl Tlv {
    /// Read one record at `begin`: its tag byte, its value, and how far to
    /// advance.  `None` when fewer than two bytes remain or the value is cut
    /// short.
    fn deser_one(raw: &Vec<u8>, begin: usize) -> (r: Option<(u8, Vec<u8>, usize)>)
        requires
            begin <= raw@.len(),
        ensures
            match r {
                Some(t) => {
                    &&& raw@.len() - begin >= 2
                    &&& t.0 == raw@[begin as int]
                    &&& t.2 == 2 + raw@[begin as int + 1] as int
                    &&& begin + t.2 <= raw@.len()
                    &&& t.1@ == raw@.subrange(begin as int + 2, begin + t.2)
                },
                None => raw@.len() - begin < 2 || begin + 2 + raw@[begin as int + 1] as int
                    > raw@.len(),
            },
    {
        if raw.len() - begin < 2 {
            return None;
        }
        let k = raw[begin];
        let len = raw[begin + 1] as usize;
        if raw.len() - begin - 2 < len {
            return None;
        }
        let mut v: Vec<u8> = Vec::new();
        let mut j: usize = 0;
        while j < len
            invariant
                j <= len,
                len <= 255,
                raw@.len() <= usize::MAX,
                begin + 2 + len <= raw@.len(),
                len == raw@[begin as int + 1] as int,
                v@ == raw@.subrange(begin as int + 2, begin as int + 2 + j),
            decreases len - j,
        {
            v.push(raw[begin + 2 + j]);
            j += 1;
            proof {
                assert(raw@.subrange(begin as int + 2, begin as int + 2 + j) =~= raw@.subrange(
                    begin as int + 2,
                    begin as int + 1 + j,
                ).push(raw@[begin as int + 1 + j]));
            }
        }
        Some((k, v, len + 2))
    }

    /// Decode a record set from arbitrary bytes.  Never fails: a trailing
    /// incomplete record and unknown tags are discarded, and a later record
    /// overwrites an earlier one for the same key.
    pub fn deserialize(raw: &Vec<u8>) -> (t: Tlv)
        ensures
            t.wf(),
            t@ == decode_map(raw@),
    {
        let mut t = Tlv::new();
        let mut i: usize = 0;
        let n = raw.len();
        proof {
            assert(raw@.skip(0) =~= raw@);
        }
        loop
            invariant
                n == raw@.len(),
                i <= n,
                t.wf(),
                decode_step(t@, raw@.skip(i as int)) == decode_map(raw@),
            ensures
                t.wf(),
                t@ == decode_map(raw@),
            decreases raw@.len() - i,
        {
            match Self::deser_one(raw, i) {
                Some(kva) => {
                    let (k, v, adv) = kva;
                    let ghost r = raw@.skip(i as int);
                    let ghost vlen = raw@[i as int + 1] as int;
                    proof {
                        assert(r[0] == raw@[i as int]);
                        assert(r[1] == raw@[i as int + 1]);
                        assert(r.subrange(2, 2 + vlen) =~= raw@.subrange(
                            i as int + 2,
                            i + adv,
                        ));
                        assert(r.skip(2 + vlen) =~= raw@.skip(i + adv));
                    }
                    match TlvKey::from_code(k) {
                        Some(key) => {
                            t.insert_value(key, v);
                        },
                        None => {},
                    }
                    i += adv;
                },
                None => {
                    proof {
                        let r = raw@.skip(i as int);
                        if raw@.len() - i >= 2 {
                            assert(r[1] == raw@[i as int + 1]);
                            assert(r.len() < 2 + r[1] as int);
                        }
                        assert(decode_step(t@, r) == t@);
                    }
                    break ;
                },
            }
        }
        t
    }

    /// Encode the record set: for every record its tag byte, one length
    /// byte, and the value bytes, in storage order.  The set is only
    /// borrowed and can be reused afterwards.
    pub fn serialize(&self) -> (out: Vec<u8>)
        requires
            self.wf(),
        ensures
            out@ == encode_records(self.records()),
    {
        let entries = self.data();
        let mut out: Vec<u8> = Vec::new();
        let mut i: usize = 0;
        proof {
            assert(self.records().skip(0) =~= self.records());
            assert(Seq::<u8>::empty() + encode_records(self.records()) =~= encode_records(
                self.records(),
            ));
        }
        while i < entries.len()
            invariant
                i <= entries@.len(),
                entries@ == self.records(),
                small_values(self.records()),
                out@ + encode_records(self.records().skip(i as int)) == encode_records(
                    self.records(),
                ),
            decreases entries@.len() - i,
        {
            let ghost s = self.records();
            let ghost out0 = out@;
            let e = &entries[i];
            assert(e.value@.len() <= 255);
            out.push(e.key.code());
            out.push(e.value.len() as u8);
            let ghost out1 = out@;
            let mut j: usize = 0;
            while j < e.value.len()
                invariant
                    j <= e.value@.len(),
                    out@ == out1 + e.value@.subrange(0, j as int),
                decreases e.value@.len() - j,
            {
                out.push(e.value[j]);
                j += 1;
                proof {
                    assert(e.value@.subrange(0, j as int) =~= e.value@.subrange(
                        0,
                        j - 1,
                    ).push(e.value@[j - 1]));
                }
            }
            proof {
                assert(e.value@.subrange(0, e.value@.len() as int) =~= e.value@);
                assert(out@ =~= out0 + encode_entry(s[i as int].key, s[i as int].value@));
                let tail = s.skip(i as int);
                assert(tail[0] == s[i as int]);
                assert(tail.drop_first() =~= s.skip(i as int + 1));
                assert(encode_records(tail) == encode_entry(s[i as int].key, s[i as int].value@)
                    + encode_records(s.skip(i as int + 1)));
                assert(out@ + encode_records(s.skip(i as int + 1)) =~= out0 + encode_records(
                    tail,
                ));
            }
            i += 1;
        }
        proof {
            assert(self.records().skip(i as int) =~= Seq::<TlvEntry>::empty());
            assert(out@ =~= out@ + encode_records(self.records().skip(i as int)));
        }
        out
    }
}

/// Unfolding `lookup` from the front: the first record binds its key only
/// where no later record does.
proof fn lemma_lookup_front(s: Seq<TlvEntry>, k: TlvKey)
    requires
        s.len() > 0,
    ensures
        lookup(s, k) == (if lookup(s.drop_first(), k) is Some {
            lookup(s.drop_first(), k)
        } else if s[0].key == k {
            Some(s[0].value@)
        } else {
            None::<Seq<u8>>
        }),
    decreases s.len(),
{
    if s.len() == 1 {
        assert(s.drop_first() =~= Seq::<TlvEntry>::empty());
        assert(s.last() == s[0]);
    } else {
        let s1 = s.drop_first();
        assert(s1.last() == s.last());
        if s.last().key != k {
            assert(s.drop_last().drop_first() =~= s1.drop_last());
            assert(s.drop_last()[0] == s[0]);
            lemma_lookup_front(s.drop_last(), k);
        }
    }
}

/// The bindings left by decoding on top of `acc` the encoding of the
/// records `s`: a key of `s` is bound to its record's value, every other
/// binding of `acc` stays.
pub open spec fn overlay(acc: Map<TlvKey, Seq<u8>>, s: Seq<TlvEntry>) -> Map<TlvKey, Seq<u8>> {
    Map::new(
        |k: TlvKey| lookup(s, k) is Some || acc.contains_key(k),
        |k: TlvKey|
            if lookup(s, k) is Some {
                lookup(s, k).unwrap()
            } else {
                acc[k]
            },
    )
}

/// Decoding the encoding of `s` on top of any accumulated bindings yields
/// exactly the overlay of `s` on them.
proof fn lemma_decode_step_encode(acc: Map<TlvKey, Seq<u8>>, s: Seq<TlvEntry>)
    requires
        small_values(s),
    ensures
        decode_step(acc, encode_records(s)) == overlay(acc, s),
    decreases s.len(),
{
    if s.len() == 0 {
        assert(overlay(acc, s) =~= acc);
    } else {
        let e = s[0];
        let v = e.value@;
        let vlen = v.len() as int;
        let rest = encode_records(s.drop_first());
        let enc = encode_records(s);
        assert(enc == encode_entry(e.key, v) + rest);
        assert(enc[0] == key_code(e.key));
        assert(enc[1] == v.len() as u8);
        assert(enc[1] as int == vlen);
        assert(enc.len() == 2 + vlen + rest.len());
        assert(enc.subrange(2, 2 + vlen) =~= v);
        assert(enc.skip(2 + vlen) =~= rest);
        lemma_key_code_round_trip(e.key);
        let acc2 = acc.insert(e.key, v);
        assert(decode_step(acc, enc) == decode_step(acc2, rest));
        lemma_decode_step_encode(acc2, s.drop_first());
        let s1 = s.drop_first();
        assert forall|k: TlvKey| #[trigger] overlay(acc, s).contains_key(k) implies overlay(
            acc2,
            s1,
        ).contains_key(k) && overlay(acc2, s1)[k] == overlay(acc, s)[k] by {
            lemma_lookup_front(s, k);
        }
        assert forall|k: TlvKey| #[trigger] overlay(acc2, s1).contains_key(k) implies overlay(
            acc,
            s,
        ).contains_key(k) by {
            lemma_lookup_front(s, k);
        }
        assert(overlay(acc2, s1) =~= overlay(acc, s));
    }
}

/// The encode / decode round trip: decoding the encoding of a record set
/// yields exactly its map, for one record or many, whatever order the
/// records stand in.
pub proof fn lemma_encode_decode_round_trip(t: Tlv)
    requires
        t.wf(),
    ensures
        decode_map(encode_records(t.records())) == t@,
{
    lemma_decode_step_encode(Map::<TlvKey, Seq<u8>>::empty(), t.records());
    assert(overlay(Map::<TlvKey, Seq<u8>>::empty(), t.records()) =~= map_of_records(t.records()));
}

/// Decoding a truncated prefix of the encoding on top of `acc`: every
/// binding of the result either stood in `acc` or is a record of `s`,
/// uncorrupted.
proof fn lemma_decode_step_prefix(acc: Map<TlvKey, Seq<u8>>, s: Seq<TlvEntry>, n: int)
    requires
        small_values(s),
        unique_keys(s),
        0 <= n <= encode_records(s).len(),
    ensures
        forall|k: TlvKey|
            #[trigger] decode_step(acc, encode_records(s).take(n)).contains_key(k) ==> ((
            acc.contains_key(k) && decode_step(acc, encode_records(s).take(n))[k] == acc[k])
                || lookup(s, k) == Some(decode_step(acc, encode_records(s).take(n))[k])),
    decreases s.len(),
{
    let enc = encode_records(s);
    let pre = enc.take(n);
    if s.len() == 0 {
        assert(pre =~= Seq::<u8>::empty());
    } else {
        let e = s[0];
        let v = e.value@;
        let vlen = v.len() as int;
        let rest = encode_records(s.drop_first());
        assert(enc == encode_entry(e.key, v) + rest);
        assert(enc.len() == 2 + vlen + rest.len());
        if n < 2 {
            assert(pre.len() < 2);
            assert(decode_step(acc, pre) == acc);
        } else {
            assert(pre[1] == enc[1]);
            assert(enc[1] as int == vlen);
            if n < 2 + vlen {
                assert(pre.len() < 2 + vlen);
                assert(decode_step(acc, pre) == acc);
            } else {
                assert(pre[0] == enc[0]);
                assert(enc[0] == key_code(e.key));
                lemma_key_code_round_trip(e.key);
                assert(pre.subrange(2, 2 + vlen) =~= v);
                let s1 = s.drop_first();
                assert(pre.skip(2 + vlen) =~= encode_records(s1).take(n - 2 - vlen));
                let acc2 = acc.insert(e.key, v);
                assert(decode_step(acc, pre) == decode_step(
                    acc2,
                    encode_records(s1).take(n - 2 - vlen),
                ));
                lemma_decode_step_prefix(acc2, s1, n - 2 - vlen);
                let m = decode_step(acc, pre);
                assert forall|k: TlvKey| #[trigger] m.contains_key(k) implies ((acc.contains_key(k)
                    && m[k] == acc[k]) || lookup(s, k) == Some(m[k])) by {
                    lemma_lookup_front(s, k);
                    if acc2.contains_key(k) && m[k] == acc2[k] {
                        if k == e.key {
                            lemma_lookup_at_index(s, 0);
                        }
                    }
                }
            }
        }
    }
}

/// Decoding any truncated prefix of an encoded record set yields a subset
/// of its records, with no corrupted values.
pub proof fn lemma_truncated_prefix_submap(t: Tlv, n: int)
    requires
        t.wf(),
        0 <= n <= encode_records(t.records()).len(),
    ensures
        decode_map(encode_records(t.records()).take(n)).submap_of(t@),
{
    lemma_decode_step_prefix(Map::<TlvKey, Seq<u8>>::empty(), t.records(), n);
}

/// A record whose tag byte lies outside the key set adds nothing, and the
/// bytes after it decode exactly as if the record were absent: the decoder
/// stays synchronized across unknown tags.
pub proof fn lemma_unknown_tag_skipped(
    acc: Map<TlvKey, Seq<u8>>,
    b: u8,
    v: Seq<u8>,
    rest: Seq<u8>,
)
    requires
        key_from_code(b) is None,
        v.len() <= 255,
    ensures
        decode_step(acc, seq![b, v.len() as u8] + v + rest) == decode_step(acc, rest),
{
    let raw = seq![b, v.len() as u8] + v + rest;
    assert(raw.len() == 2 + v.len() + rest.len());
    assert(raw[0] == b);
    assert(raw[1] == v.len() as u8);
    assert(raw[1] as int == v.len() as int);
    assert(raw.skip(2 + v.len() as int) =~= rest);
}

/// Every key there is.
pub open spec fn all_keys() -> Set<TlvKey> {
    set![
        TlvKey::MsgName,
        TlvKey::OperationNum,
        TlvKey::AmountInMinorCurrencyUnit,
        TlvKey::KeepaliveIntervalInSecs,
        TlvKey::OperationTimeoutInSecs,
        TlvKey::EventName,
        TlvKey::EventNum,
        TlvKey::ProductId,
        TlvKey::QrCodeData,
        TlvKey::TcpIpDestination,
        TlvKey::OutgoingByteCounter,
        TlvKey::SimpleDataBlock,
        TlvKey::ConfirmableDataBlock,
        TlvKey::ProductName,
        TlvKey::PosManagementData,
        TlvKey::LocalTime,
        TlvKey::SysInfo,
        TlvKey::BankingReceipt,
        TlvKey::DisplayTimeInMs,
    ]
}

proof fn lemma_all_keys_complete(k: TlvKey)
    ensures
        all_keys().contains(k),
{
    broadcast use vstd::set::group_set_axioms;

}

/// With unique keys a record set holds at most one record per key, so at
/// most 19 records.
pub proof fn lemma_record_count(s: Seq<TlvEntry>)
    requires
        unique_keys(s),
    ensures
        s.len() <= 19,
{
    broadcast use vstd::set::group_set_axioms;

    let ks = s.map_values(|e: TlvEntry| e.key);
    assert forall|i: int, j: int|
        0 <= i < ks.len() && 0 <= j < ks.len() && i != j implies ks[i] != ks[j] by {
        assert(ks[i] == s[i].key && ks[j] == s[j].key);
    }
    ks.unique_seq_to_set();
    assert forall|k: TlvKey| ks.to_set().contains(k) implies all_keys().contains(k) by {
        lemma_all_keys_complete(k);
    }
    vstd::set_lib::lemma_len_subset(ks.to_set(), all_keys());
    assert(all_keys().len() == 19);
}

proof fn lemma_encode_len_per_record(s: Seq<TlvEntry>)
    requires
        small_values(s),
    ensures
        encode_records(s).len() <= 257 * s.len(),
    decreases s.len(),
{
    if s.len() > 0 {
        let s1 = s.drop_first();
        assert forall|i: int| 0 <= i < s1.len() implies #[trigger] s1[i].value@.len() <= 255 by {
            assert(s1[i] == s[i + 1]);
        }
        lemma_encode_len_per_record(s1);
        assert(s[0].value@.len() <= 255);
    }
}

/// A well-formed record set encodes to at most `19 * 257` bytes, so its
/// payload always fits the 16-bit length field of a frame.
pub proof fn lemma_encode_len_bound(s: Seq<TlvEntry>)
    requires
        unique_keys(s),
        small_values(s),
    ensures
        encode_records(s).len() <= 4883,
{
    lemma_record_count(s);
    lemma_encode_len_per_record(s);
}

} // verus!
