//! Rows as they are written: fields as text, and their decoding into [`Row`]s.

use crate::bignat::binary_text;
use crate::bignat::binary_value;
use crate::bignat::is_binary_digits;
use crate::bignat::is_binary_string;
use crate::bignat::lemma_binary_digits_accepts;
use crate::bignat::lemma_binary_round_trip;
use crate::bignat::BigNat;
use crate::hash::hex_decode;
use crate::hash::hex_text;
use crate::hash::is_hash_text;
use crate::hash::lemma_hex_decode_accepts;
use crate::hash::lemma_hex_round_trip;
use crate::hash::HexDecodeError;
use crate::hash_type::HashType;
use crate::row::trace_view;
use crate::row::Row;
use crate::row::RowView;
use vstd::prelude::*;
use vstd::utf8::encode_utf8;

verus! {

/// Why a written row cannot be decoded.
#[derive(Clone, Copy, Debug, PartialEq, Eq, Structural)]
pub enum RowDeError {
    /// A hash field is not the hexadecimal form of a hash.
    Hex(HexDecodeError),
    /// A number field is not a run of binary digits.
    BigInt,
}

impl From<HexDecodeError> for RowDeError {
    fn from(error: HexDecodeError) -> (wrapped: RowDeError) {
        RowDeError::Hex(error)
    }
}

impl vstd::std_specs::convert::FromSpecImpl<HexDecodeError> for RowDeError {
    open spec fn obeys_from_spec() -> bool {
        true
    }

    open spec fn from_spec(error: HexDecodeError) -> RowDeError {
        RowDeError::Hex(error)
    }
}

/// A row as it is written: hashes in hexadecimal, numbers in binary digits.
#[derive(Debug, Clone)]
pub struct RowDe {
    /// Whether this row opens a new operation.
    pub is_first: bool,
    /// The sibling hash, in hexadecimal.
    pub sib: String,
    /// The depth of the node within its operation's path.
    pub depth: usize,
    /// The path bit, in binary digits.
    pub path: String,
    /// The accumulated path, in binary digits.
    pub path_acc: String,
    /// The node's role before the update.
    pub old_hash_type: HashType,
    /// The node's hash before the update, in hexadecimal.
    pub old_hash: String,
    /// The hash the node committed to before the update, in hexadecimal.
    pub old_value: String,
    /// The node's role after the update.
    pub new_hash_type: HashType,
    /// The node's hash after the update, in hexadecimal.
    pub new_hash: String,
    /// The hash the node commits to after the update, in hexadecimal.
    pub new_value: String,
    /// The key of the operation, in hexadecimal.
    pub key: String,
    /// The root of the trie after the update, in hexadecimal.
    pub new_root: String,
}

/// What a [`RowDe`] holds, as plain mathematical values.
pub struct RowDeView {
    pub is_first: bool,
    pub sib: Seq<char>,
    pub depth: nat,
    pub path: Seq<char>,
    pub path_acc: Seq<char>,
    pub old_hash_type: HashType,
    pub old_hash: Seq<char>,
    pub old_value: Seq<char>,
    pub new_hash_type: HashType,
    pub new_hash: Seq<char>,
    pub new_value: Seq<char>,
    pub key: Seq<char>,
    pub new_root: Seq<char>,
}

impl View for RowDe {
    type V = RowDeView;

    open spec fn view(&self) -> RowDeView {
        RowDeView {
            is_first: self.is_first,
            sib: self.sib@,
            depth: self.depth as nat,
            path: self.path@,
            path_acc: self.path_acc@,
            old_hash_type: self.old_hash_type,
            old_hash: self.old_hash@,
            old_value: self.old_value@,
            new_hash_type: self.new_hash_type,
            new_hash: self.new_hash@,
            new_value: self.new_value@,
            key: self.key@,
            new_root: self.new_root@,
        }
    }
}

/// What decoding a hash field gives.
pub open spec fn decode_hash(text: Seq<char>) -> Result<Seq<u8>, RowDeError> {
    match hex_decode(encode_utf8(text)) {
        Ok(bytes) => Ok(bytes),
        Err(e) => Err(RowDeError::Hex(e)),
    }
}

/// What decoding a number field gives.
pub open spec fn decode_number(text: Seq<char>) -> Result<nat, RowDeError> {
    if is_binary_digits(encode_utf8(text)) {
        Ok(binary_value(encode_utf8(text)))
    } else {
        Err(RowDeError::BigInt)
    }
}

/// What decoding a written row gives: the row it states, or the error of the
/// first field, in the order of the fields, that cannot be decoded.
pub open spec fn decode_row(r: RowDeView) -> Result<RowView, RowDeError> {
    if decode_hash(r.sib) is Err {
        Err(decode_hash(r.sib)->Err_0)
    } else if decode_number(r.path) is Err {
        Err(decode_number(r.path)->Err_0)
    } else if decode_number(r.path_acc) is Err {
        Err(decode_number(r.path_acc)->Err_0)
    } else if decode_hash(r.old_hash) is Err {
        Err(decode_hash(r.old_hash)->Err_0)
    } else if decode_hash(r.old_value) is Err {
        Err(decode_hash(r.old_value)->Err_0)
    } else if decode_hash(r.new_hash) is Err {
        Err(decode_hash(r.new_hash)->Err_0)
    } else if decode_hash(r.new_value) is Err {
        Err(decode_hash(r.new_value)->Err_0)
    } else if decode_hash(r.key) is Err {
        Err(decode_hash(r.key)->Err_0)
    } else if decode_hash(r.new_root) is Err {
        Err(decode_hash(r.new_root)->Err_0)
    } else {
        Ok(
            RowView {
                is_first: r.is_first,
                sib: decode_hash(r.sib).unwrap(),
                depth: r.depth,
                path: decode_number(r.path).unwrap(),
                path_acc: decode_number(r.path_acc).unwrap(),
                old_hash_type: r.old_hash_type,
                old_hash: decode_hash(r.old_hash).unwrap(),
                old_value: decode_hash(r.old_value).unwrap(),
                new_hash_type: r.new_hash_type,
                new_hash: decode_hash(r.new_hash).unwrap(),
                new_value: decode_hash(r.new_value).unwrap(),
                key: decode_hash(r.key).unwrap(),
                new_root: decode_hash(r.new_root).unwrap(),
            },
        )
    }
}

/// The canonical written form of a row: hashes in lower-case hexadecimal,
/// numbers in binary digits with no leading zero.
pub open spec fn encode_row(row: RowView) -> RowDeView {
    RowDeView {
        is_first: row.is_first,
        sib: hex_text(row.sib),
        depth: row.depth,
        path: binary_text(row.path),
        path_acc: binary_text(row.path_acc),
        old_hash_type: row.old_hash_type,
        old_hash: hex_text(row.old_hash),
        old_value: hex_text(row.old_value),
        new_hash_type: row.new_hash_type,
        new_hash: hex_text(row.new_hash),
        new_value: hex_text(row.new_value),
        key: hex_text(row.key),
        new_root: hex_text(row.new_root),
    }
}

/// What a sequence of written rows holds, in order.
pub open spec fn records_view(records: Seq<RowDe>) -> Seq<RowDeView> {
    Seq::new(records.len(), |i: int| records[i]@)
}

/// What decoding a sequence of written rows gives: every row in order, or
/// the error of the first written row that cannot be decoded.
pub open spec fn decode_trace(records: Seq<RowDeView>) -> Result<Seq<RowView>, RowDeError>
    decreases records.len(),
{
    if records.len() == 0 {
        Ok(Seq::empty())
    } else {
        match decode_trace(records.drop_last()) {
            Err(e) => Err(e),
            Ok(rows) => match decode_row(records.last()) {
                Err(e) => Err(e),
                Ok(row) => Ok(rows.push(row)),
            },
        }
    }
}

/// Whether each of `records` decodes to the row at its place in `rows`.
pub open spec fn all_decoded(records: Seq<RowDeView>, rows: Seq<RowView>) -> bool {
    &&& rows.len() == records.len()
    &&& forall|i: int|
        0 <= i < records.len() ==> decode_row(#[trigger] records[i]) == Ok::<RowView, RowDeError>(
            rows[i],
        )
}

/// Whether the written row at `k` is the first that does not decode, and
/// fails with `error`.
pub open spec fn fails_first_at(records: Seq<RowDeView>, k: int, error: RowDeError) -> bool {
    &&& 0 <= k < records.len()
    &&& decode_row(records[k]) == Err::<RowView, RowDeError>(error)
    &&& forall|j: int| 0 <= j < k ==> decode_row(#[trigger] records[j]) is Ok
}

/// Whether `error` is the error of the first of `records` that does not decode.
pub open spec fn first_failure(records: Seq<RowDeView>, error: RowDeError) -> bool {
    exists|k: int| fails_first_at(records, k, error)
}

/// What a decoded trace states, or the error that came instead.
pub open spec fn decoded_trace(decoded: Result<Vec<Row>, RowDeError>) -> Result<
    Seq<RowView>,
    RowDeError,
> {
    match decoded {
        Ok(rows) => Ok(trace_view(rows@)),
        Err(e) => Err(e),
    }
}

/// The bytes of a decoded hash field, or the error that came instead.
pub open spec fn hash_field_view(decoded: Result<crate::hash::Hash, RowDeError>) -> Result<
    Seq<u8>,
    RowDeError,
> {
    match decoded {
        Ok(hash) => Ok(hash@),
        Err(e) => Err(e),
    }
}

/// The value of a decoded number field, or the error that came instead.
pub open spec fn number_field_view(decoded: Result<BigNat, RowDeError>) -> Result<nat, RowDeError> {
    match decoded {
        Ok(number) => Ok(number@),
        Err(e) => Err(e),
    }
}

/// What a decoded row states, or the error that came instead.
pub open spec fn decoded_view(decoded: Result<Row, RowDeError>) -> Result<RowView, RowDeError> {
    match decoded {
        Ok(row) => Ok(row@),
        Err(e) => Err(e),
    }
}

/// Decodes a hash field: exactly sixty-four hexadecimal digits.
pub fn decode_hash_field(text: &str) -> (decoded: Result<crate::hash::Hash, RowDeError>)
    ensures
        hash_field_view(decoded) == decode_hash(text@),
{
    match crate::hash::Hash::try_from(text) {
        Ok(hash) => Ok(hash),
        Err(e) => Err(RowDeError::from(e)),
    }
}

/// Decodes a number field: a non-empty run of binary digits.
pub fn decode_number_field(text: &str) -> (decoded: Result<BigNat, RowDeError>)
    ensures
        number_field_view(decoded) == decode_number(text@),
{
    match BigNat::parse_binary(text.as_bytes()) {
        Some(number) => Ok(number),
        None => Err(RowDeError::BigInt),
    }
}

impl RowDe {
    /// Writes a row in its canonical form.
    pub fn encode(row: &Row) -> (written: RowDe)
        ensures
            written@ == encode_row(row@),
    {
        RowDe {
            is_first: row.is_first,
            sib: row.sib.hex(),
            depth: row.depth,
            path: row.path.to_binary(),
            path_acc: row.path_acc.to_binary(),
            old_hash_type: row.old_hash_type,
            old_hash: row.old_hash.hex(),
            old_value: row.old_value.hex(),
            new_hash_type: row.new_hash_type,
            new_hash: row.new_hash.hex(),
            new_value: row.new_value.hex(),
            key: row.key.hex(),
            new_root: row.new_root.hex(),
        }
    }
}

impl Row {
    /// Decodes a written row, field by field in the order of the fields, and
    /// stops at the first field that cannot be decoded.
    pub fn try_from(r: &RowDe) -> (decoded: Result<Row, RowDeError>)
        ensures
            decoded_view(decoded) == decode_row(r@),
    {
        let sib = decode_hash_field(r.sib.as_str())?;
        let path = decode_number_field(r.path.as_str())?;
        let path_acc = decode_number_field(r.path_acc.as_str())?;
        let old_hash = decode_hash_field(r.old_hash.as_str())?;
        let old_value = decode_hash_field(r.old_value.as_str())?;
        let new_hash = decode_hash_field(r.new_hash.as_str())?;
        let new_value = decode_hash_field(r.new_value.as_str())?;
        let key = decode_hash_field(r.key.as_str())?;
        let new_root = decode_hash_field(r.new_root.as_str())?;
        Ok(
            Row {
                is_first: r.is_first,
                sib,
                depth: r.depth,
                path,
                path_acc,
                old_hash_type: r.old_hash_type,
                old_hash,
                old_value,
                new_hash_type: r.new_hash_type,
                new_hash,
                new_value,
                key,
                new_root,
            },
        )
    }
}

/// Decodes written rows in order and stops at the first that cannot be
/// decoded: no part of the trace is returned then.
pub fn decode_rows(records: &Vec<RowDe>) -> (decoded: Result<Vec<Row>, RowDeError>)
    ensures
        decoded_trace(decoded) == decode_trace(records_view(records@)),
{
    let ghost written = records_view(records@);
    let mut rows: Vec<Row> = Vec::new();
    let mut i: usize = 0;
    assert(written.take(0) =~= Seq::<RowDeView>::empty());
    assert(trace_view(rows@) =~= Seq::<RowView>::empty());
    while i < records.len()
        invariant
            i <= records.len(),
            written == records_view(records@),
            decode_trace(written.take(i as int)) == Ok::<Seq<RowView>, RowDeError>(trace_view(rows@)),
        decreases records.len() - i,
    {
        let ghost before = trace_view(rows@);
        proof {
            assert(written.take(i + 1).drop_last() =~= written.take(i as int));
            assert(written.take(i + 1).last() == records@[i as int]@);
        }
        match Row::try_from(&records[i]) {
            Ok(row) => {
                rows.push(row);
                assert(trace_view(rows@) =~= before.push(row@));
            },
            Err(e) => {
                proof {
                    lemma_decode_trace_stops(written, i + 1);
                }
                return Err(e);
            },
        }
        i += 1;
    }
    assert(written.take(i as int) =~= written);
    Ok(rows)
}

/// Once a part of a trace fails to decode, the whole trace fails with the same error.
pub proof fn lemma_decode_trace_stops(records: Seq<RowDeView>, n: int)
    requires
        0 <= n <= records.len(),
        decode_trace(records.take(n)) is Err,
    ensures
        decode_trace(records) == decode_trace(records.take(n)),
    decreases records.len() - n,
{
    if n < records.len() {
        assert(records.take(n + 1).drop_last() =~= records.take(n));
        lemma_decode_trace_stops(records, n + 1);
    } else {
        assert(records.take(n) =~= records);
    }
}

/// What decoding a trace gives, row by row: every written row decodes to the
/// row at its place, or the error is that of the first written row that does
/// not decode.
pub proof fn lemma_decode_trace(records: Seq<RowDeView>)
    ensures
        decode_trace(records) is Ok ==> all_decoded(records, decode_trace(records)->Ok_0),
        decode_trace(records) is Err ==> first_failure(records, decode_trace(records)->Err_0),
    decreases records.len(),
{
    if records.len() > 0 {
        let earlier = records.drop_last();
        lemma_decode_trace(earlier);
        match decode_trace(earlier) {
            Ok(rows) => {
                match decode_row(records.last()) {
                    Ok(row) => {
                        assert forall|i: int| 0 <= i < records.len() implies decode_row(
                            #[trigger] records[i],
                        ) == Ok::<RowView, RowDeError>(rows.push(row)[i]) by {
                            if i < earlier.len() {
                                assert(records[i] == earlier[i]);
                            }
                        }
                    },
                    Err(e) => {
                        let k = records.len() - 1;
                        assert(decode_row(records[k]) == Err::<RowView, RowDeError>(e));
                        assert forall|j: int| 0 <= j < k implies decode_row(
                            #[trigger] records[j],
                        ) is Ok by {
                            assert(records[j] == earlier[j]);
                        }
                        assert(fails_first_at(records, k, e));
                    },
                }
            },
            Err(e) => {
                let k = choose|k: int| fails_first_at(earlier, k, e);
                assert(records[k] == earlier[k]);
                assert forall|j: int| 0 <= j < k implies decode_row(#[trigger] records[j]) is Ok by {
                    assert(records[j] == earlier[j]);
                }
                assert(fails_first_at(records, k, e));
            },
        }
    }
}

/// A hash field is decoded exactly when it is sixty-four hexadecimal digits;
/// a text of any other length, or with any other character, is an error.
pub proof fn lemma_decode_hash_accepts(text: Seq<char>)
    ensures
        decode_hash(text) is Ok <==> is_hash_text(text),
        decode_hash(text) is Err ==> decode_hash(text)->Err_0 is Hex,
{
    lemma_hex_decode_accepts(text);
}

/// A number field is decoded exactly when it is a non-empty run of the
/// characters `0` and `1`; the empty text, or any other character, is an error.
pub proof fn lemma_decode_number_accepts(text: Seq<char>)
    ensures
        decode_number(text) is Ok <==> is_binary_string(text),
        decode_number(text) is Err ==> decode_number(text)->Err_0 == RowDeError::BigInt,
{
    lemma_binary_digits_accepts(text);
}

/// Decoding is a left inverse of the canonical encoding: a row written in
/// its canonical form is decoded as the same row.
pub proof fn lemma_decode_encode(row: RowView)
    requires
        row.well_formed(),
    ensures
        decode_row(encode_row(row)) == Ok::<RowView, RowDeError>(row),
{
    lemma_hex_round_trip(row.sib);
    lemma_hex_round_trip(row.old_hash);
    lemma_hex_round_trip(row.old_value);
    lemma_hex_round_trip(row.new_hash);
    lemma_hex_round_trip(row.new_value);
    lemma_hex_round_trip(row.key);
    lemma_hex_round_trip(row.new_root);
    lemma_binary_round_trip(row.path);
    lemma_binary_round_trip(row.path_acc);
}

} // verus!
