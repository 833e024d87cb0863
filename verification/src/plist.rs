//! The nested property-list encoding of control bodies.
//!
//! A property list is a tree of typed scalars (booleans and integers), byte
//! strings, arrays and dictionaries with byte-string keys. On the wire every
//! value starts with a one-byte type tag; lengths and element counts travel
//! as four-byte little-endian fields, integers as eight little-endian bytes.
//! Encoding and decoding are symmetric: decoding an encoded value gives the
//! value back exactly, whatever bytes follow it in the stream.

use vstd::arithmetic::power::{lemma_pow1, lemma_pow_adds, lemma_pow_increases, pow};
use vstd::prelude::*;

use crate::crypto::{lemma_le_bytes_len, lemma_le_bytes_val, spec_le_bytes, spec_le_val};
use crate::error::SessionError;

verus! {

/// One property-list value.
#[derive(Debug)]
pub enum PlistValue {
    /// A boolean scalar.
    Bool(bool),
    /// An integer scalar.
    Int(u64),
    /// A byte string.
    Bytes(Vec<u8>),
    /// An ordered array of values.
    Array(Vec<PlistValue>),
    /// An ordered dictionary of key/value entries.
    Dict(Vec<PlistEntry>),
}

/// One dictionary entry.
#[derive(Debug)]
pub struct PlistEntry {
    /// The entry key.
    pub key: Vec<u8>,
    /// The entry value.
    pub value: PlistValue,
}

/// The mathematical shape of a value: the same tree over sequences.
pub enum PlistModel {
    /// A boolean scalar.
    Bool(bool),
    /// An integer scalar.
    Int(u64),
    /// A byte string.
    Bytes(Seq<u8>),
    /// An ordered array of values.
    Array(Seq<PlistModel>),
    /// An ordered dictionary of key/value entries.
    Dict(Seq<(Seq<u8>, PlistModel)>),
}

/// The model of a value.
pub open spec fn spec_value_model(v: PlistValue) -> PlistModel
    decreases v,
{
    match v {
        PlistValue::Bool(b) => PlistModel::Bool(b),
        PlistValue::Int(n) => PlistModel::Int(n),
        PlistValue::Bytes(bs) => PlistModel::Bytes(bs@),
        PlistValue::Array(items) => PlistModel::Array(spec_items_model(items@)),
        PlistValue::Dict(entries) => PlistModel::Dict(spec_entries_model(entries@)),
    }
}

/// The models of an array's elements.
pub open spec fn spec_items_model(items: Seq<PlistValue>) -> Seq<PlistModel>
    decreases items,
{
    if items.len() == 0 {
        Seq::empty()
    } else {
        seq![spec_value_model(items[0])] + spec_items_model(items.drop_first())
    }
}

/// The models of a dictionary's entries.
pub open spec fn spec_entries_model(entries: Seq<PlistEntry>) -> Seq<(Seq<u8>, PlistModel)>
    decreases entries,
{
    if entries.len() == 0 {
        Seq::empty()
    } else {
        seq![(entries[0].key@, spec_value_model(entries[0].value))] + spec_entries_model(
            entries.drop_first(),
        )
    }
}

impl View for PlistValue {
    type V = PlistModel;

    open spec fn view(&self) -> PlistModel {
        spec_value_model(*self)
    }
}

/// A model whose lengths and counts all fit their four-byte wire fields.
pub open spec fn spec_model_wf(m: PlistModel) -> bool
    decreases m,
{
    match m {
        PlistModel::Bool(_) => true,
        PlistModel::Int(_) => true,
        PlistModel::Bytes(bs) => bs.len() <= 0xffff_ffff,
        PlistModel::Array(items) => items.len() <= 0xffff_ffff && spec_models_wf(items),
        PlistModel::Dict(entries) => entries.len() <= 0xffff_ffff && spec_entry_models_wf(entries),
    }
}

/// Every element model is well formed.
pub open spec fn spec_models_wf(items: Seq<PlistModel>) -> bool
    decreases items,
{
    if items.len() == 0 {
        true
    } else {
        spec_model_wf(items[0]) && spec_models_wf(items.drop_first())
    }
}

/// Every entry has a key that fits its length field and a well-formed value.
pub open spec fn spec_entry_models_wf(entries: Seq<(Seq<u8>, PlistModel)>) -> bool
    decreases entries,
{
    if entries.len() == 0 {
        true
    } else {
        entries[0].0.len() <= 0xffff_ffff && spec_model_wf(entries[0].1) && spec_entry_models_wf(
            entries.drop_first(),
        )
    }
}

/// The bytes of a value: a type tag, then the value's own fields.
pub open spec fn spec_plist_encode(m: PlistModel) -> Seq<u8>
    decreases m,
{
    match m {
        PlistModel::Bool(b) => seq![
            1u8,
            if b {
                1u8
            } else {
                0u8
            },
        ],
        PlistModel::Int(n) => seq![2u8] + spec_le_bytes(n as nat, 8),
        PlistModel::Bytes(bs) => seq![3u8] + spec_le_bytes(bs.len(), 4) + bs,
        PlistModel::Array(items) => seq![4u8] + spec_le_bytes(items.len(), 4)
            + spec_plist_encode_items(items),
        PlistModel::Dict(entries) => seq![5u8] + spec_le_bytes(entries.len(), 4)
            + spec_plist_encode_entries(entries),
    }
}

/// The concatenated bytes of an array's elements.
pub open spec fn spec_plist_encode_items(items: Seq<PlistModel>) -> Seq<u8>
    decreases items,
{
    if items.len() == 0 {
        Seq::empty()
    } else {
        spec_plist_encode(items[0]) + spec_plist_encode_items(items.drop_first())
    }
}

/// The concatenated bytes of a dictionary's entries: each a four-byte key
/// length, the key, then the value.
pub open spec fn spec_plist_encode_entries(entries: Seq<(Seq<u8>, PlistModel)>) -> Seq<u8>
    decreases entries,
{
    if entries.len() == 0 {
        Seq::empty()
    } else {
        spec_le_bytes(entries[0].0.len(), 4) + entries[0].0 + spec_plist_encode(entries[0].1)
            + spec_plist_encode_entries(entries.drop_first())
    }
}

/// The value at the head of a byte stream and the bytes it occupies, or
/// nothing where the stream is truncated or carries an unknown tag.
pub open spec fn spec_plist_decode(bytes: Seq<u8>) -> Option<(PlistModel, int)>
    decreases bytes.len(), 0int,
{
    if bytes.len() < 1 {
        None
    } else if bytes[0] == 1 {
        if bytes.len() < 2 {
            None
        } else if bytes[1] == 1 {
            Some((PlistModel::Bool(true), 2))
        } else if bytes[1] == 0 {
            Some((PlistModel::Bool(false), 2))
        } else {
            None
        }
    } else if bytes[0] == 2 {
        if bytes.len() < 9 {
            None
        } else {
            Some((PlistModel::Int(spec_le_val(bytes.subrange(1, 9)) as u64), 9))
        }
    } else if bytes[0] == 3 {
        if bytes.len() < 5 {
            None
        } else {
            let l = spec_le_val(bytes.subrange(1, 5));
            if bytes.len() < 5 + l {
                None
            } else {
                Some((PlistModel::Bytes(bytes.subrange(5, 5 + l)), 5 + l))
            }
        }
    } else if bytes[0] == 4 {
        if bytes.len() < 5 {
            None
        } else {
            let count = spec_le_val(bytes.subrange(1, 5));
            match spec_plist_decode_items(bytes.skip(5), count as nat) {
                None => None,
                Some((items, used)) => Some((PlistModel::Array(items), 5 + used)),
            }
        }
    } else if bytes[0] == 5 {
        if bytes.len() < 5 {
            None
        } else {
            let count = spec_le_val(bytes.subrange(1, 5));
            match spec_plist_decode_entries(bytes.skip(5), count as nat) {
                None => None,
                Some((entries, used)) => Some((PlistModel::Dict(entries), 5 + used)),
            }
        }
    } else {
        None
    }
}

/// `count` values at the head of a byte stream and the bytes they occupy.
pub open spec fn spec_plist_decode_items(bytes: Seq<u8>, count: nat) -> Option<
    (Seq<PlistModel>, int),
>
    decreases bytes.len(), count + 1,
{
    if count == 0 {
        Some((Seq::empty(), 0))
    } else {
        match spec_plist_decode(bytes) {
            None => None,
            Some((head, used)) => if used < 1 || used > bytes.len() {
                None
            } else {
                match spec_plist_decode_items(bytes.skip(used), (count - 1) as nat) {
                    None => None,
                    Some((rest, rest_used)) => Some((seq![head] + rest, used + rest_used)),
                }
            },
        }
    }
}

/// `count` dictionary entries at the head of a byte stream and the bytes
/// they occupy.
pub open spec fn spec_plist_decode_entries(bytes: Seq<u8>, count: nat) -> Option<
    (Seq<(Seq<u8>, PlistModel)>, int),
>
    decreases bytes.len(), count + 1,
{
    if count == 0 {
        Some((Seq::empty(), 0))
    } else if bytes.len() < 4 {
        None
    } else {
        let klen = spec_le_val(bytes.subrange(0, 4));
        if klen < 0 || bytes.len() < 4 + klen {
            None
        } else {
            let key = bytes.subrange(4, 4 + klen);
            match spec_plist_decode(bytes.skip(4 + klen)) {
                None => None,
                Some((value, used)) => if used < 1 || 4 + klen + used > bytes.len() {
                    None
                } else {
                    match spec_plist_decode_entries(
                        bytes.skip(4 + klen + used),
                        (count - 1) as nat,
                    ) {
                        None => None,
                        Some((rest, rest_used)) => Some(
                            (seq![(key, value)] + rest, 4 + klen + used + rest_used),
                        ),
                    }
                },
            }
        }
    }
}

/// The `n` little-endian bytes of `value`.
fn write_le(value: u64, n: usize) -> (out: Vec<u8>)
    ensures
        out@ == spec_le_bytes(value as nat, n as nat),
{
    let mut out: Vec<u8> = Vec::new();
    let mut v: u64 = value;
    let mut k: usize = 0;
    while k < n
        invariant
            k <= n,
            out@.len() == k,
            spec_le_bytes(value as nat, n as nat) =~= out@ + spec_le_bytes(v as nat, (n - k) as nat),
        decreases n - k,
    {
        let ghost old_v = v;
        let ghost old_out = out@;
        out.push((v % 256) as u8);
        v = v / 256;
        k = k + 1;
        proof {
            assert(spec_le_bytes(old_v as nat, (n - (k - 1)) as nat) =~= seq![
                (old_v % 256) as u8,
            ] + spec_le_bytes(v as nat, (n - k) as nat));
            assert(old_out + spec_le_bytes(old_v as nat, (n - k + 1) as nat) =~= out@
                + spec_le_bytes(v as nat, (n - k) as nat));
        }
    }
    proof {
        assert(out@ + spec_le_bytes(v as nat, 0) =~= out@);
    }
    out
}

/// The value of the `n` little-endian bytes at `pos`.
pub(crate) fn read_le(bytes: &Vec<u8>, pos: usize, n: usize) -> (r: u64)
    requires
        pos + n <= bytes@.len(),
        n <= 8,
    ensures
        r as int == spec_le_val(bytes@.subrange(pos as int, pos as int + n)),
{
    let total: usize = bytes.len();
    let ghost s = bytes@.subrange(pos as int, pos as int + n);
    let mut acc: u64 = 0;
    let mut k: usize = n;
    proof {
        assert(s.skip(n as int) =~= Seq::<u8>::empty());
        lemma_le_pow_bound();
    }
    while k > 0
        invariant
            k <= n <= 8,
            pos + n <= total,
            total == bytes@.len(),
            s == bytes@.subrange(pos as int, pos as int + n),
            acc as int == spec_le_val(s.skip(k as int)),
            (acc as int) < pow(256, (n - k) as nat),
            pow(256, 8) == 0x1_0000_0000_0000_0000,
        decreases k,
    {
        proof {
            lemma_pow_increases(256, (n - k) as nat, 7);
            assert(pow(256, 7) * 256 == pow(
                256,
                8,
            )) by {
                lemma_pow_adds(256, 7, 1);
                lemma_pow1(256);
            }
            vstd::arithmetic::mul::lemma_mul_inequality(
                acc as int,
                pow(256, 7) - 1,
                256,
            );
        }
        k = k - 1;
        let b = bytes[pos + k];
        proof {
            let tail = s.skip(k as int + 1);
            assert(s.skip(k as int)[0] == s[k as int]);
            assert(s.skip(k as int).subrange(1, s.skip(k as int).len() as int) =~= tail);
            assert(s[k as int] == bytes@[pos + k]);
            assert(pow(256, (n - k) as nat) == 256
                * pow(256, (n - k - 1) as nat)) by {
                reveal(pow);
            }
        }
        acc = acc * 256 + (b as u64);
    }
    proof {
        assert(s.skip(0) =~= s);
    }
    acc
}

/// Powers of 256 up to eight bytes stay within a 64-bit word's range.
proof fn lemma_le_pow_bound()
    ensures
        pow(256, 8) == 0x1_0000_0000_0000_0000,
        pow(256, 0) == 1,
{
    assert(pow(256, 8) == 0x1_0000_0000_0000_0000
        && pow(256, 0) == 1) by {
        reveal_with_fuel(pow, 9);
    }
}

/// Every encoding starts with its tag byte and is nonempty.
proof fn lemma_encode_nonempty(m: PlistModel)
    ensures
        spec_plist_encode(m).len() >= 1,
{
    match m {
        PlistModel::Int(n) => {
            lemma_le_bytes_len(n as nat, 8);
        },
        PlistModel::Bytes(bs) => {
            lemma_le_bytes_len(bs.len(), 4);
        },
        PlistModel::Array(items) => {
            lemma_le_bytes_len(items.len(), 4);
        },
        PlistModel::Dict(entries) => {
            lemma_le_bytes_len(entries.len(), 4);
        },
        PlistModel::Bool(_) => {},
    }
}

/// Law: an encoded value decodes back to itself, whatever follows it in the
/// stream, and occupies exactly its own bytes.
pub proof fn lemma_plist_roundtrip(m: PlistModel, rest: Seq<u8>)
    requires
        spec_model_wf(m),
    ensures
        spec_plist_decode(spec_plist_encode(m) + rest) == Some(
            (m, spec_plist_encode(m).len() as int),
        ),
    decreases m, 0int,
{
    let enc = spec_plist_encode(m);
    let buf = enc + rest;
    match m {
        PlistModel::Bool(b) => {},
        PlistModel::Int(n) => {
            lemma_le_bytes_len(n as nat, 8);
            assert(buf.subrange(1, 9) =~= spec_le_bytes(n as nat, 8));
            lemma_le8_fits(n);
            lemma_le_bytes_val(n as nat, 8);
        },
        PlistModel::Bytes(bs) => {
            lemma_le_bytes_len(bs.len(), 4);
            assert(buf.subrange(1, 5) =~= spec_le_bytes(bs.len(), 4));
            lemma_le4_fits(bs.len());
            lemma_le_bytes_val(bs.len(), 4);
            assert(buf.subrange(5, 5 + bs.len() as int) =~= bs);
        },
        PlistModel::Array(items) => {
            lemma_le_bytes_len(items.len(), 4);
            assert(buf.subrange(1, 5) =~= spec_le_bytes(items.len(), 4));
            lemma_le4_fits(items.len());
            lemma_le_bytes_val(items.len(), 4);
            assert(buf.skip(5) =~= spec_plist_encode_items(items) + rest);
            lemma_plist_items_roundtrip(items, rest);
        },
        PlistModel::Dict(entries) => {
            lemma_le_bytes_len(entries.len(), 4);
            assert(buf.subrange(1, 5) =~= spec_le_bytes(entries.len(), 4));
            lemma_le4_fits(entries.len());
            lemma_le_bytes_val(entries.len(), 4);
            assert(buf.skip(5) =~= spec_plist_encode_entries(entries) + rest);
            lemma_plist_entries_roundtrip(entries, rest);
        },
    }
}

/// A sequence of encoded values decodes back to the values.
proof fn lemma_plist_items_roundtrip(items: Seq<PlistModel>, rest: Seq<u8>)
    requires
        spec_models_wf(items),
    ensures
        spec_plist_decode_items(spec_plist_encode_items(items) + rest, items.len()) == Some(
            (items, spec_plist_encode_items(items).len() as int),
        ),
    decreases items, 1int,
{
    if items.len() == 0 {
        assert(spec_plist_encode_items(items) + rest =~= rest);
    } else {
        let head = items[0];
        let head_enc = spec_plist_encode(head);
        let tail_enc = spec_plist_encode_items(items.drop_first());
        let buf = spec_plist_encode_items(items) + rest;
        assert(buf =~= head_enc + (tail_enc + rest));
        lemma_plist_roundtrip(head, tail_enc + rest);
        lemma_encode_nonempty(head);
        assert(buf.skip(head_enc.len() as int) =~= tail_enc + rest);
        lemma_plist_items_roundtrip(items.drop_first(), rest);
        assert(seq![head] + items.drop_first() =~= items);
    }
}

/// A sequence of encoded entries decodes back to the entries.
proof fn lemma_plist_entries_roundtrip(entries: Seq<(Seq<u8>, PlistModel)>, rest: Seq<u8>)
    requires
        spec_entry_models_wf(entries),
    ensures
        spec_plist_decode_entries(spec_plist_encode_entries(entries) + rest, entries.len())
            == Some((entries, spec_plist_encode_entries(entries).len() as int)),
    decreases entries, 1int,
{
    if entries.len() == 0 {
        assert(spec_plist_encode_entries(entries) + rest =~= rest);
    } else {
        let key = entries[0].0;
        let klen = key.len() as int;
        let value = entries[0].1;
        let value_enc = spec_plist_encode(value);
        let tail_enc = spec_plist_encode_entries(entries.drop_first());
        let buf = spec_plist_encode_entries(entries) + rest;
        lemma_le_bytes_len(key.len(), 4);
        assert(buf.subrange(0, 4) =~= spec_le_bytes(key.len(), 4));
        lemma_le4_fits(key.len());
        lemma_le_bytes_val(key.len(), 4);
        assert(buf.subrange(4, 4 + klen) =~= key);
        assert(buf.skip(4 + klen) =~= value_enc + (tail_enc + rest));
        lemma_plist_roundtrip(value, tail_enc + rest);
        lemma_encode_nonempty(value);
        assert(buf.skip(4 + klen + value_enc.len()) =~= tail_enc + rest);
        lemma_plist_entries_roundtrip(entries.drop_first(), rest);
        assert(seq![(key, value)] + entries.drop_first() =~= entries);
    }
}

/// A fresh copy of a byte vector.
fn copy_bytes(src: &Vec<u8>) -> (out: Vec<u8>)
    ensures
        out@ == src@,
{
    let mut out: Vec<u8> = Vec::new();
    let mut i: usize = 0;
    while i < src.len()
        invariant
            i <= src@.len(),
            out@ =~= src@.subrange(0, i as int),
        decreases src@.len() - i,
    {
        out.push(src[i]);
        i = i + 1;
        proof {
            assert(out@ =~= src@.subrange(0, i as int));
        }
    }
    proof {
        assert(out@ =~= src@);
    }
    out
}

/// Encodes one value.
pub fn plist_encode(v: &PlistValue) -> (out: Vec<u8>)
    requires
        spec_model_wf(v@),
    ensures
        out@ == spec_plist_encode(v@),
    decreases *v, 0int,
{
    match v {
        PlistValue::Bool(b) => {
            let mut out: Vec<u8> = Vec::new();
            out.push(1u8);
            out.push(if *b {
                1u8
            } else {
                0u8
            });
            proof {
                assert(out@ =~= spec_plist_encode(v@));
            }
            out
        },
        PlistValue::Int(n) => {
            let mut out: Vec<u8> = Vec::new();
            out.push(2u8);
            let mut body = write_le(*n, 8);
            out.append(&mut body);
            proof {
                assert(out@ =~= spec_plist_encode(v@));
            }
            out
        },
        PlistValue::Bytes(bs) => {
            let mut out: Vec<u8> = Vec::new();
            out.push(3u8);
            let mut len_bytes = write_le(bs.len() as u64, 4);
            out.append(&mut len_bytes);
            let mut body = copy_bytes(bs);
            out.append(&mut body);
            proof {
                assert(out@ =~= spec_plist_encode(v@));
            }
            out
        },
        PlistValue::Array(items) => {
            let mut out: Vec<u8> = Vec::new();
            out.push(4u8);
            let mut len_bytes = write_le(items.len() as u64, 4);
            out.append(&mut len_bytes);
            proof {
                lemma_items_model_len(items@);
                assert(spec_items_model(items@).skip(0) =~= spec_items_model(items@));
            }
            let mut body = plist_encode_items(items, 0);
            out.append(&mut body);
            proof {
                assert(spec_items_model(items@).skip(0) =~= spec_items_model(items@));
                assert(out@ =~= spec_plist_encode(v@));
            }
            out
        },
        PlistValue::Dict(entries) => {
            let mut out: Vec<u8> = Vec::new();
            out.push(5u8);
            let mut len_bytes = write_le(entries.len() as u64, 4);
            out.append(&mut len_bytes);
            proof {
                lemma_entries_model_len(entries@);
                assert(spec_entries_model(entries@).skip(0) =~= spec_entries_model(entries@));
            }
            let mut body = plist_encode_entries(entries, 0);
            out.append(&mut body);
            proof {
                assert(spec_entries_model(entries@).skip(0) =~= spec_entries_model(entries@));
                assert(out@ =~= spec_plist_encode(v@));
            }
            out
        },
    }
}

/// The length of an array's model list.
proof fn lemma_items_model_len(items: Seq<PlistValue>)
    ensures
        spec_items_model(items).len() == items.len(),
        forall|k: int|
            0 <= k < items.len() ==> #[trigger] spec_items_model(items)[k] == spec_value_model(
                items[k],
            ),
    decreases items,
{
    if items.len() > 0 {
        lemma_items_model_len(items.drop_first());
        assert forall|k: int| 0 <= k < items.len() implies #[trigger] spec_items_model(items)[k]
            == spec_value_model(items[k]) by {
            if k > 0 {
                assert(spec_items_model(items)[k] == spec_items_model(items.drop_first())[k - 1]);
                assert(items.drop_first()[k - 1] == items[k]);
            }
        }
    }
}

/// The length of a dictionary's model list.
proof fn lemma_entries_model_len(entries: Seq<PlistEntry>)
    ensures
        spec_entries_model(entries).len() == entries.len(),
        forall|k: int|
            0 <= k < entries.len() ==> #[trigger] spec_entries_model(entries)[k] == (
            entries[k].key@, spec_value_model(entries[k].value)),
    decreases entries,
{
    if entries.len() > 0 {
        lemma_entries_model_len(entries.drop_first());
        assert forall|k: int| 0 <= k < entries.len() implies #[trigger] spec_entries_model(
            entries,
        )[k] == (entries[k].key@, spec_value_model(entries[k].value)) by {
            if k > 0 {
                assert(spec_entries_model(entries)[k] == spec_entries_model(entries.drop_first())[k
                    - 1]);
                assert(entries.drop_first()[k - 1] == entries[k]);
            }
        }
    }
}

/// Encodes an array's elements from position `i` on.
fn plist_encode_items(items: &Vec<PlistValue>, i: usize) -> (out: Vec<u8>)
    requires
        i <= items@.len(),
        spec_models_wf(spec_items_model(items@).skip(i as int)),
    ensures
        out@ == spec_plist_encode_items(spec_items_model(items@).skip(i as int)),
    decreases *items, items@.len() - i,
{
    proof {
        lemma_items_model_len(items@);
    }
    if i == items.len() {
        let out: Vec<u8> = Vec::new();
        proof {
            assert(spec_items_model(items@).skip(i as int) =~= Seq::<PlistModel>::empty());
        }
        out
    } else {
        let ghost ms = spec_items_model(items@).skip(i as int);
        proof {
            assert(ms[0] == spec_value_model(items@[i as int]));
            assert(ms.drop_first() =~= spec_items_model(items@).skip(i as int + 1));
        }
        let mut out = plist_encode(&items[i]);
        let mut rest = plist_encode_items(items, i + 1);
        out.append(&mut rest);
        out
    }
}

/// Encodes a dictionary's entries from position `i` on.
fn plist_encode_entries(entries: &Vec<PlistEntry>, i: usize) -> (out: Vec<u8>)
    requires
        i <= entries@.len(),
        spec_entry_models_wf(spec_entries_model(entries@).skip(i as int)),
    ensures
        out@ == spec_plist_encode_entries(spec_entries_model(entries@).skip(i as int)),
    decreases *entries, entries@.len() - i,
{
    proof {
        lemma_entries_model_len(entries@);
    }
    if i == entries.len() {
        let out: Vec<u8> = Vec::new();
        proof {
            assert(spec_entries_model(entries@).skip(i as int) =~= Seq::<
                (Seq<u8>, PlistModel),
            >::empty());
        }
        out
    } else {
        let ghost ms = spec_entries_model(entries@).skip(i as int);
        proof {
            assert(ms[0] == (entries@[i as int].key@, spec_value_model(entries@[i as int].value)));
            assert(ms.drop_first() =~= spec_entries_model(entries@).skip(i as int + 1));
        }
        let entry = &entries[i];
        let mut out = write_le(entry.key.len() as u64, 4);
        let mut key = copy_bytes(&entry.key);
        out.append(&mut key);
        let mut value = plist_encode(&entry.value);
        out.append(&mut value);
        let mut rest = plist_encode_entries(entries, i + 1);
        out.append(&mut rest);
        proof {
            assert(out@ =~= spec_plist_encode_entries(ms));
        }
        out
    }
}

/// A copy of `len` bytes starting at `start`.
fn copy_range(bytes: &Vec<u8>, start: usize, len: usize) -> (out: Vec<u8>)
    requires
        start + len <= bytes@.len(),
    ensures
        out@ == bytes@.subrange(start as int, start as int + len),
{
    let total: usize = bytes.len();
    let mut out: Vec<u8> = Vec::new();
    let mut i: usize = 0;
    while i < len
        invariant
            i <= len,
            start + len <= total,
            total == bytes@.len(),
            out@ =~= bytes@.subrange(start as int, start as int + i),
        decreases len - i,
    {
        out.push(bytes[start + i]);
        i = i + 1;
        proof {
            assert(out@ =~= bytes@.subrange(start as int, start as int + i));
        }
    }
    proof {
        assert(out@ =~= bytes@.subrange(start as int, start as int + len));
    }
    out
}

/// Decodes the value starting at `pos`; the result carries the position just
/// past it.
fn plist_decode_at(bytes: &Vec<u8>, pos: usize) -> (r: Result<(PlistValue, usize), SessionError>)
    requires
        pos <= bytes@.len(),
    ensures
        match r {
            Ok(pair) => ({
                &&& spec_plist_decode(bytes@.skip(pos as int)) == Some(
                    (pair.0@, pair.1 - pos as int),
                )
                &&& pos < pair.1 <= bytes@.len()
            }),
            Err(e) => spec_plist_decode(bytes@.skip(pos as int)) is None && e
                == SessionError::ProtocolError,
        },
    decreases bytes@.len() - pos, 0int,
{
    let total: usize = bytes.len();
    let ghost tail = bytes@.skip(pos as int);
    if pos == total {
        return Err(SessionError::ProtocolError);
    }
    let tag = bytes[pos];
    proof {
        assert(tail[0] == bytes@[pos as int]);
    }
    if tag == 1 {
        if total - pos < 2 {
            return Err(SessionError::ProtocolError);
        }
        let b = bytes[pos + 1];
        proof {
            assert(tail[1] == bytes@[pos as int + 1]);
        }
        if b == 1 {
            Ok((PlistValue::Bool(true), pos + 2))
        } else if b == 0 {
            Ok((PlistValue::Bool(false), pos + 2))
        } else {
            Err(SessionError::ProtocolError)
        }
    } else if tag == 2 {
        if total - pos < 9 {
            return Err(SessionError::ProtocolError);
        }
        let n = read_le(bytes, pos + 1, 8);
        proof {
            assert(bytes@.subrange(pos as int + 1, pos as int + 9) =~= tail.subrange(1, 9));
        }
        Ok((PlistValue::Int(n), pos + 9))
    } else if tag == 3 {
        if total - pos < 5 {
            return Err(SessionError::ProtocolError);
        }
        let l64 = read_le(bytes, pos + 1, 4);
        proof {
            assert(bytes@.subrange(pos as int + 1, pos as int + 5) =~= tail.subrange(1, 5));
        }
        if ((total - pos - 5) as u64) < l64 {
            return Err(SessionError::ProtocolError);
        }
        let l = l64 as usize;
        let body = copy_range(bytes, pos + 5, l);
        proof {
            assert(body@ =~= tail.subrange(5, 5 + l as int));
        }
        Ok((PlistValue::Bytes(body), pos + 5 + l))
    } else if tag == 4 {
        if total - pos < 5 {
            return Err(SessionError::ProtocolError);
        }
        let count = read_le(bytes, pos + 1, 4);
        proof {
            assert(bytes@.subrange(pos as int + 1, pos as int + 5) =~= tail.subrange(1, 5));
            assert(bytes@.skip(pos as int + 5) =~= tail.skip(5));
        }
        match plist_decode_items_at(bytes, pos + 5, count) {
            Err(e) => Err(e),
            Ok((items, end)) => Ok((PlistValue::Array(items), end)),
        }
    } else if tag == 5 {
        if total - pos < 5 {
            return Err(SessionError::ProtocolError);
        }
        let count = read_le(bytes, pos + 1, 4);
        proof {
            assert(bytes@.subrange(pos as int + 1, pos as int + 5) =~= tail.subrange(1, 5));
            assert(bytes@.skip(pos as int + 5) =~= tail.skip(5));
        }
        match plist_decode_entries_at(bytes, pos + 5, count) {
            Err(e) => Err(e),
            Ok((entries, end)) => Ok((PlistValue::Dict(entries), end)),
        }
    } else {
        Err(SessionError::ProtocolError)
    }
}

/// Decodes `count` array elements starting at `pos`.
fn plist_decode_items_at(bytes: &Vec<u8>, pos: usize, count: u64) -> (r: Result<
    (Vec<PlistValue>, usize),
    SessionError,
>)
    requires
        pos <= bytes@.len(),
    ensures
        match r {
            Ok(pair) => ({
                &&& spec_plist_decode_items(bytes@.skip(pos as int), count as nat) == Some(
                    (spec_items_model(pair.0@), pair.1 - pos as int),
                )
                &&& pos <= pair.1 <= bytes@.len()
            }),
            Err(e) => spec_plist_decode_items(bytes@.skip(pos as int), count as nat) is None && e
                == SessionError::ProtocolError,
        },
    decreases bytes@.len() - pos, count + 1,
{
    if count == 0 {
        let empty: Vec<PlistValue> = Vec::new();
        return Ok((empty, pos));
    }
    match plist_decode_at(bytes, pos) {
        Err(e) => Err(e),
        Ok((head, mid)) => {
            proof {
                assert(bytes@.skip(pos as int).skip(mid - pos as int) =~= bytes@.skip(mid as int));
            }
            match plist_decode_items_at(bytes, mid, count - 1) {
                Err(e) => Err(e),
                Ok((rest, end)) => {
                    let ghost rest_view = rest@;
                    let mut out = rest;
                    out.insert(0, head);
                    proof {
                        lemma_items_model_len(out@);
                        lemma_items_model_len(rest_view);
                        assert(spec_items_model(out@) =~= seq![
                            spec_value_model(out@[0]),
                        ] + spec_items_model(rest_view));
                    }
                    Ok((out, end))
                },
            }
        },
    }
}

/// Decodes `count` dictionary entries starting at `pos`.
fn plist_decode_entries_at(bytes: &Vec<u8>, pos: usize, count: u64) -> (r: Result<
    (Vec<PlistEntry>, usize),
    SessionError,
>)
    requires
        pos <= bytes@.len(),
    ensures
        match r {
            Ok(pair) => ({
                &&& spec_plist_decode_entries(bytes@.skip(pos as int), count as nat) == Some(
                    (spec_entries_model(pair.0@), pair.1 - pos as int),
                )
                &&& pos <= pair.1 <= bytes@.len()
            }),
            Err(e) => spec_plist_decode_entries(bytes@.skip(pos as int), count as nat) is None && e
                == SessionError::ProtocolError,
        },
    decreases bytes@.len() - pos, count + 1,
{
    let total: usize = bytes.len();
    let ghost tail = bytes@.skip(pos as int);
    if count == 0 {
        let empty: Vec<PlistEntry> = Vec::new();
        return Ok((empty, pos));
    }
    if total - pos < 4 {
        return Err(SessionError::ProtocolError);
    }
    let klen64 = read_le(bytes, pos, 4);
    proof {
        assert(bytes@.subrange(pos as int, pos as int + 4) =~= tail.subrange(0, 4));
    }
    if ((total - pos - 4) as u64) < klen64 {
        return Err(SessionError::ProtocolError);
    }
    let klen = klen64 as usize;
    let key = copy_range(bytes, pos + 4, klen);
    proof {
        assert(key@ =~= tail.subrange(4, 4 + klen as int));
        assert(bytes@.skip(pos as int + 4 + klen as int) =~= tail.skip(4 + klen as int));
    }
    match plist_decode_at(bytes, pos + 4 + klen) {
        Err(e) => Err(e),
        Ok((value, mid)) => {
            proof {
                assert(tail.skip(4 + klen as int + (mid - (pos + 4 + klen))) =~= bytes@.skip(
                    mid as int,
                ));
            }
            match plist_decode_entries_at(bytes, mid, count - 1) {
                Err(e) => Err(e),
                Ok((rest, end)) => {
                    let ghost rest_view = rest@;
                    let mut out = rest;
                    out.insert(0, PlistEntry { key, value });
                    proof {
                        lemma_entries_model_len(out@);
                        lemma_entries_model_len(rest_view);
                        assert(spec_entries_model(out@) =~= seq![
                            (out@[0].key@, spec_value_model(out@[0].value)),
                        ] + spec_entries_model(rest_view));
                    }
                    Ok((out, end))
                },
            }
        },
    }
}

/// Decodes the value at the head of a byte stream. Succeeds exactly when the
/// stream carries a whole well-tagged value; the result is the value and the
/// number of bytes it occupied. Anything truncated or unknown is a malformed
/// body and fails with `ProtocolError`.
pub fn plist_decode(bytes: &Vec<u8>) -> (r: Result<(PlistValue, usize), SessionError>)
    ensures
        match r {
            Ok(pair) => spec_plist_decode(bytes@) == Some((pair.0@, pair.1 as int)) && pair.1
                <= bytes@.len(),
            Err(e) => spec_plist_decode(bytes@) is None && e == SessionError::ProtocolError,
        },
{
    proof {
        assert(bytes@.skip(0) =~= bytes@);
    }
    plist_decode_at(bytes, 0)
}

/// A four-byte field holds values below `256^4`.
proof fn lemma_le4_fits(n: nat)
    requires
        n <= 0xffff_ffff,
    ensures
        n < pow(256, 4),
{
    assert(pow(256, 4) == 0x1_0000_0000) by {
        reveal_with_fuel(pow, 5);
    }
}

/// An eight-byte field holds every 64-bit value.
proof fn lemma_le8_fits(n: u64)
    ensures
        (n as nat) < pow(256, 8),
{
    assert(pow(256, 8) == 0x1_0000_0000_0000_0000) by {
        reveal_with_fuel(pow, 9);
    }
}

} // verus!
