//! The binary format of transfers, state roots and refinement outputs.
//!
//! A list is its length as a variable-length natural number, then its items. Integers are
//! little-endian, byte arrays stand as they are, and an enum starts with its variant's index.

use crate::ledger::{all_sized, transfer_views, AccountId, OutputView, RefinementOutput,
    StateRoot, Transfer, TransferView};
use crate::octets::{append_bytes, copy_array};
use vstd::bytes::{lemma_auto_spec_u64_to_from_le_bytes, spec_u64_from_le_bytes,
    spec_u64_to_le_bytes};
use vstd::prelude::*;

verus! {

/// A transfer as a tuple of its fields, in the order in which they are written.
pub type TransferRow = (AccountId, AccountId, u64, u64, [u8; 64]);

/// What a row says.
pub open spec fn row_view(row: TransferRow) -> TransferView {
    TransferView {
        from: row.0@,
        to: row.1@,
        amount: row.2,
        nonce: row.3,
        signature: row.4@,
    }
}

/// The views of a list of rows.
pub open spec fn row_views(rows: Seq<TransferRow>) -> Seq<TransferView> {
    Seq::new(rows.len(), |i: int| row_view(rows[i]))
}

/// How many bytes one transfer takes.
pub open spec fn record_len() -> nat {
    144
}

/// The bytes of one transfer.
pub open spec fn record(t: TransferView) -> Seq<u8> {
    t.from + t.to + spec_u64_to_le_bytes(t.amount) + spec_u64_to_le_bytes(t.nonce) + t.signature
}

/// The transfer that the first bytes of `bytes` spell.
pub open spec fn parse_record(bytes: Seq<u8>) -> TransferView {
    TransferView {
        from: bytes.subrange(0, 32),
        to: bytes.subrange(32, 64),
        amount: spec_u64_from_le_bytes(bytes.subrange(64, 72)),
        nonce: spec_u64_from_le_bytes(bytes.subrange(72, 80)),
        signature: bytes.subrange(80, 144),
    }
}

/// The bytes of some transfers, one after the other.
pub open spec fn records(ts: Seq<TransferView>) -> Seq<u8>
    decreases ts.len(),
{
    if ts.len() == 0 {
        Seq::empty()
    } else {
        records(ts.drop_last()) + record(ts.last())
    }
}

/// The number that `bytes` spell, least significant byte first.
pub open spec fn little_endian(bytes: Seq<u8>) -> nat
    decreases bytes.len(),
{
    if bytes.len() == 0 {
        0
    } else {
        bytes[0] as nat + 256 * little_endian(bytes.drop_first())
    }
}

/// The `len` least significant bytes of `n`, the least significant one first.
pub open spec fn little_endian_bytes(n: nat, len: nat) -> Seq<u8>
    decreases len,
{
    if len == 0 {
        Seq::empty()
    } else {
        seq![(n % 256) as u8] + little_endian_bytes(n / 256, (len - 1) as nat)
    }
}

/// `256` to the power of `len`.
pub open spec fn place(len: nat) -> nat
    decreases len,
{
    if len == 0 {
        1
    } else {
        256 * place((len - 1) as nat)
    }
}

/// The first byte of a natural number that `len` more bytes follow starts with `len` one bits
/// and a zero bit: the smallest such byte.
pub open spec fn marker(len: nat) -> nat {
    if len == 0 {
        0
    } else if len == 1 {
        128
    } else if len == 2 {
        192
    } else if len == 3 {
        224
    } else if len == 4 {
        240
    } else if len == 5 {
        248
    } else if len == 6 {
        252
    } else if len == 7 {
        254
    } else {
        255
    }
}

/// How many one bits a byte starts with.
pub open spec fn leading_ones(byte: u8) -> nat {
    if byte < 128 {
        0
    } else if byte < 192 {
        1
    } else if byte < 224 {
        2
    } else if byte < 240 {
        3
    } else if byte < 248 {
        4
    } else if byte < 252 {
        5
    } else if byte < 254 {
        6
    } else if byte < 255 {
        7
    } else {
        8
    }
}

/// How many bytes follow the first one of the natural number `n`, for `n` below 2 to the 35.
pub open spec fn natural_tail_len(n: nat) -> nat {
    if n < 0x80 {
        0
    } else if n < 0x4000 {
        1
    } else if n < 0x20_0000 {
        2
    } else if n < 0x1000_0000 {
        3
    } else {
        4
    }
}

/// The bytes of a natural number below 2 to the 35: after the marker's bits the first byte holds
/// the number's most significant bits, and the others follow from the least significant byte on.
pub open spec fn natural(n: nat) -> Seq<u8> {
    let len = natural_tail_len(n);
    seq![(marker(len) + n / place(len)) as u8] + little_endian_bytes(n % place(len), len)
}

/// The natural number that `bytes` start with, and how many bytes it takes; nothing where bytes
/// are missing.
pub open spec fn parse_natural(bytes: Seq<u8>) -> Option<(nat, nat)> {
    if bytes.len() == 0 {
        None
    } else {
        let len = leading_ones(bytes[0]);
        if bytes.len() < 1 + len {
            None
        } else {
            let high = (bytes[0] as nat - marker(len)) as nat;
            Some((high * place(len) + little_endian(bytes.subrange(1, 1 + len as int)), 1 + len))
        }
    }
}

/// The bytes of a list of transfers.
pub open spec fn transfers_bytes(ts: Seq<TransferView>) -> Seq<u8> {
    natural(ts.len()) + records(ts)
}

/// The list of transfers that `bytes` start with; nothing where bytes are missing or the length
/// does not fit in 32 bits. What follows the list is ignored.
pub open spec fn parse_transfers(bytes: Seq<u8>) -> Option<Seq<TransferView>> {
    match parse_natural(bytes) {
        None => None,
        Some((count, used)) => if count > u32::MAX || bytes.len() < used + record_len() * count {
            None
        } else {
            Some(
                Seq::new(
                    count,
                    |i: int|
                        parse_record(
                            bytes.subrange(
                                used + record_len() * i,
                                used + record_len() * (i + 1),
                            ),
                        ),
                ),
            )
        },
    }
}

/// Calls `jam_codec::Encode::encode` on a slice of tuples of byte arrays and 64-bit numbers.
/// Claimed of it: the result is the slice's length as a natural number, then every tuple's fields
/// in turn, arrays as they are and numbers little-endian. It panics on more than `u32::MAX` items.
#[verifier::external_body]
fn encode_rows(rows: &[TransferRow]) -> (bytes: Vec<u8>)
    requires
        rows@.len() <= u32::MAX,
    ensures
        bytes@ == transfers_bytes(row_views(rows@)),
{
    jam_codec::Encode::encode(rows)
}

/// How `jam_codec` describes, for a developer, why `bytes` start with no list of transfers.
pub uninterp spec fn transfers_error_text(bytes: Seq<u8>) -> Seq<char>;

/// Calls `jam_codec::Decode::decode` for a vector of tuples of byte arrays and 64-bit numbers.
/// Claimed of it: it reads the length, a natural number that must fit in 32 bits, and that many
/// tuples; it fails where a byte is missing or the length is too large, and nowhere else; it does
/// not look at what follows. The error's `Debug` text is a function of the bytes.
#[verifier::external_body]
fn decode_rows(bytes: &[u8]) -> (rows: Result<Vec<TransferRow>, String>)
    ensures
        match parse_transfers(bytes@) {
            None => rows matches Err(message) && message@ == transfers_error_text(bytes@),
            Some(ts) => rows matches Ok(found) && row_views(found@) == ts,
        },
{
    match <Vec<TransferRow> as jam_codec::Decode>::decode(&mut &bytes[..]) {
        Ok(rows) => Ok(rows),
        Err(error) => Err(format!("{:?}", error)),
    }
}

/// Writes a list of transfers.
pub fn encode_transfers(transfers: &[Transfer]) -> (bytes: Vec<u8>)
    requires
        transfers@.len() <= u32::MAX,
    ensures
        bytes@ == transfers_bytes(transfer_views(transfers@)),
{
    let mut rows: Vec<TransferRow> = Vec::new();
    let mut i: usize = 0;
    while i < transfers.len()
        invariant
            i <= transfers@.len(),
            rows@.len() == i,
            forall|k: int| 0 <= k < i ==> row_view(#[trigger] rows@[k]) == transfers@[k]@,
        decreases transfers@.len() - i,
    {
        let t: &Transfer = &transfers[i];
        rows.push((t.from, t.to, t.amount, t.nonce, t.signature));
        i += 1;
    }
    assert(row_views(rows@) =~= transfer_views(transfers@));
    encode_rows(rows.as_slice())
}

/// Reads the list of transfers that `bytes` start with, or says why there is none.
pub fn decode_transfers(bytes: &[u8]) -> (transfers: Result<Vec<Transfer>, String>)
    ensures
        match parse_transfers(bytes@) {
            None => transfers matches Err(message) && message@ == transfers_error_text(bytes@),
            Some(ts) => transfers matches Ok(found) && transfer_views(found@) == ts
                && found@.len() <= u32::MAX,
        },
{
    match decode_rows(bytes) {
        Err(message) => Err(message),
        Ok(rows) => {
            let mut transfers: Vec<Transfer> = Vec::new();
            let mut i: usize = 0;
            while i < rows.len()
                invariant
                    i <= rows@.len(),
                    transfers@.len() == i,
                    forall|k: int|
                        0 <= k < i ==> (#[trigger] transfers@[k])@ == row_view(rows@[k]),
                decreases rows@.len() - i,
            {
                let row: TransferRow = rows[i];
                transfers.push(
                    Transfer {
                        from: row.0,
                        to: row.1,
                        amount: row.2,
                        nonce: row.3,
                        signature: row.4,
                    },
                );
                i += 1;
            }
            assert(transfer_views(transfers@) =~= row_views(rows@));
            Ok(transfers)
        },
    }
}

/// The state root that `bytes` start with; nothing where bytes are missing. What follows the root
/// is ignored.
pub open spec fn parse_root(bytes: Seq<u8>) -> Option<Seq<u8>> {
    if bytes.len() < 32 {
        None
    } else {
        Some(bytes.subrange(0, 32))
    }
}

/// Reads the state root that `bytes` start with.
pub fn decode_root(bytes: &[u8]) -> (root: Option<StateRoot>)
    ensures
        match parse_root(bytes@) {
            None => root is None,
            Some(r) => root matches Some(found) && found@ == r,
        },
{
    if bytes.len() < 32 {
        None
    } else {
        Some(copy_array::<32>(bytes, 0))
    }
}

/// Writes a state root.
pub fn encode_root(root: &StateRoot) -> (bytes: Vec<u8>)
    ensures
        bytes@ == root@,
{
    let mut bytes: Vec<u8> = Vec::new();
    append_bytes(&mut bytes, root.as_slice());
    assert(bytes@ =~= root@);
    bytes
}

/// The bytes of a refinement output.
pub open spec fn output_bytes(output: OutputView) -> Seq<u8> {
    match output {
        OutputView::TransferBatch { old_root, new_root } => seq![0u8] + old_root + new_root,
        OutputView::Reset { new_root } => seq![1u8] + new_root,
    }
}

/// The refinement output that `bytes` start with; nothing where the variant is unknown or bytes
/// are missing. What follows the output is ignored.
pub open spec fn parse_output(bytes: Seq<u8>) -> Option<OutputView> {
    if bytes.len() == 0 {
        None
    } else if bytes[0] == 0 && bytes.len() >= 65 {
        Some(
            OutputView::TransferBatch {
                old_root: bytes.subrange(1, 33),
                new_root: bytes.subrange(33, 65),
            },
        )
    } else if bytes[0] == 1 && bytes.len() >= 33 {
        Some(OutputView::Reset { new_root: bytes.subrange(1, 33) })
    } else {
        None
    }
}

/// Writes a refinement output.
pub fn encode_output(output: &RefinementOutput) -> (bytes: Vec<u8>)
    ensures
        bytes@ == output_bytes(output@),
{
    let mut bytes: Vec<u8> = Vec::new();
    match output {
        RefinementOutput::TransferBatch { old_root, new_root } => {
            bytes.push(0u8);
            append_bytes(&mut bytes, old_root.as_slice());
            append_bytes(&mut bytes, new_root.as_slice());
        },
        RefinementOutput::Reset { new_root } => {
            bytes.push(1u8);
            append_bytes(&mut bytes, new_root.as_slice());
        },
    }
    assert(bytes@ =~= output_bytes(output@));
    bytes
}

/// Reads the refinement output that `bytes` start with.
pub fn decode_output(bytes: &[u8]) -> (output: Option<RefinementOutput>)
    ensures
        match parse_output(bytes@) {
            None => output is None,
            Some(o) => output matches Some(found) && found@ == o,
        },
{
    if bytes.len() == 0 {
        None
    } else if bytes[0] == 0 && bytes.len() >= 65 {
        Some(
            RefinementOutput::TransferBatch {
                old_root: copy_array::<32>(bytes, 1),
                new_root: copy_array::<32>(bytes, 33),
            },
        )
    } else if bytes[0] == 1 && bytes.len() >= 33 {
        Some(RefinementOutput::Reset { new_root: copy_array::<32>(bytes, 1) })
    } else {
        None
    }
}

/// Reading the bytes of a number gives back its remainder, and they are as many as asked for.
proof fn lemma_little_endian_round_trip(n: nat, len: nat)
    ensures
        little_endian_bytes(n, len).len() == len,
        n < place(len) ==> little_endian(little_endian_bytes(n, len)) == n,
    decreases len,
{
    if len > 0 {
        let tail = little_endian_bytes(n / 256, (len - 1) as nat);
        lemma_little_endian_round_trip(n / 256, (len - 1) as nat);
        assert(little_endian_bytes(n, len).drop_first() =~= tail);
    }
}

/// Reading a natural number gives back what was written, whatever follows.
proof fn lemma_natural_round_trip(n: nat, rest: Seq<u8>)
    requires
        n <= u32::MAX,
    ensures
        parse_natural(natural(n) + rest) == Some((n, natural(n).len())),
{
    reveal_with_fuel(place, 6);
    let len = natural_tail_len(n);
    let first = marker(len) + n / place(len);
    let tail = little_endian_bytes(n % place(len), len);
    lemma_little_endian_round_trip(n % place(len), len);
    assert(place(0) == 1 && place(1) == 0x100 && place(2) == 0x1_0000);
    assert(place(3) == 0x100_0000 && place(4) == 0x1_0000_0000);
    assert(first < 256 && leading_ones(first as u8) == len) by {
        if len == 0 {
            assert(n / 1 == n);
        } else if len == 1 {
            assert(n / 0x100 < 0x40);
        } else if len == 2 {
            assert(n / 0x1_0000 < 0x20);
        } else if len == 3 {
            assert(n / 0x100_0000 < 0x10);
        } else {
            assert(n / 0x1_0000_0000 == 0);
        }
    }
    let bytes = natural(n) + rest;
    assert(bytes.subrange(1, 1 + len as int) =~= tail);
    assert(n == (n / place(len)) * place(len) + n % place(len)) by (nonlinear_arith)
        requires
            place(len) > 0,
    ;
}

/// Every transfer takes the same number of bytes.
proof fn lemma_records_len(ts: Seq<TransferView>)
    requires
        forall|i: int| 0 <= i < ts.len() ==> (#[trigger] ts[i]).sized(),
    ensures
        records(ts).len() == record_len() * ts.len(),
    decreases ts.len(),
{
    if ts.len() > 0 {
        lemma_auto_spec_u64_to_from_le_bytes();
        lemma_records_len(ts.drop_last());
        assert(ts.last().sized());
    }
}

/// The transfer at a position stands where the transfers before it end.
proof fn lemma_records_at(ts: Seq<TransferView>, i: int)
    requires
        forall|k: int| 0 <= k < ts.len() ==> (#[trigger] ts[k]).sized(),
        0 <= i < ts.len(),
    ensures
        records(ts).subrange(record_len() * i, record_len() * (i + 1)) == record(ts[i]),
    decreases ts.len(),
{
    lemma_auto_spec_u64_to_from_le_bytes();
    lemma_records_len(ts);
    lemma_records_len(ts.drop_last());
    let before = records(ts.drop_last());
    let here = records(ts).subrange(record_len() * i, record_len() * (i + 1));
    if i == ts.len() - 1 {
        assert(here =~= record(ts[i]));
    } else {
        lemma_records_at(ts.drop_last(), i);
        assert(record_len() * (i + 1) <= before.len());
        assert(here =~= before.subrange(record_len() * i, record_len() * (i + 1)));
    }
}

/// Reading one transfer gives back what was written.
proof fn lemma_record_round_trip(t: TransferView)
    requires
        t.sized(),
    ensures
        parse_record(record(t)) == t,
{
    lemma_auto_spec_u64_to_from_le_bytes();
    let bytes = record(t);
    assert(bytes.subrange(0, 32) =~= t.from);
    assert(bytes.subrange(32, 64) =~= t.to);
    assert(bytes.subrange(64, 72) =~= spec_u64_to_le_bytes(t.amount));
    assert(bytes.subrange(72, 80) =~= spec_u64_to_le_bytes(t.nonce));
    assert(bytes.subrange(80, 144) =~= t.signature);
}

/// Reading a list of transfers gives back what was written, whatever follows it.
pub proof fn transfers_round_trip(ts: Seq<TransferView>, rest: Seq<u8>)
    requires
        ts.len() <= u32::MAX,
        all_sized(ts),
    ensures
        parse_transfers(transfers_bytes(ts) + rest) == Some(ts),
{
    let head = natural(ts.len());
    let body = records(ts);
    let bytes = transfers_bytes(ts) + rest;
    lemma_natural_round_trip(ts.len(), body + rest);
    assert(bytes =~= head + (body + rest));
    lemma_records_len(ts);
    let found = parse_transfers(bytes)->0;
    assert forall|i: int| 0 <= i < ts.len() implies #[trigger] found[i] == ts[i] by {
        lemma_records_at(ts, i);
        lemma_record_round_trip(ts[i]);
        let at = head.len() + record_len() * i;
        assert(record_len() * (i + 1) <= body.len());
        assert(bytes.subrange(at as int, at + record_len()) =~= body.subrange(
            record_len() * i,
            record_len() * (i + 1),
        ));
    }
    assert(found =~= ts);
}

/// Whether a transfer's fields stand at a position among some bytes: the sender's key, the
/// recipient's, the amount, the nonce and the signature.
pub open spec fn transfer_stands_at(bytes: Seq<u8>, at: int, t: TransferView) -> bool {
    &&& 0 <= at
    &&& at + 144 <= bytes.len()
    &&& bytes.subrange(at, at + 32) == t.from
    &&& bytes.subrange(at + 32, at + 64) == t.to
    &&& spec_u64_from_le_bytes(bytes.subrange(at + 64, at + 72)) == t.amount
    &&& spec_u64_from_le_bytes(bytes.subrange(at + 72, at + 80)) == t.nonce
    &&& bytes.subrange(at + 80, at + 144) == t.signature
}

/// The bytes of a list of transfers are their number and then every transfer in turn, all of it,
/// 144 bytes each.
pub proof fn transfers_stand_in_turn(ts: Seq<TransferView>)
    requires
        ts.len() <= u32::MAX,
        all_sized(ts),
    ensures
        ({
            let bytes = transfers_bytes(ts);
            let head = bytes.len() - 144 * ts.len();
            &&& 1 <= head <= 5
            &&& parse_natural(bytes) == Some((ts.len(), head as nat))
            &&& forall|i: int|
                0 <= i < ts.len() ==> transfer_stands_at(bytes, head + 144 * i, #[trigger] ts[i])
        }),
{
    let bytes = transfers_bytes(ts);
    let head = natural(ts.len());
    let body = records(ts);
    lemma_records_len(ts);
    lemma_natural_round_trip(ts.len(), body);
    lemma_little_endian_round_trip(
        ts.len() % place(natural_tail_len(ts.len())),
        natural_tail_len(ts.len()),
    );
    assert forall|i: int| 0 <= i < ts.len() implies transfer_stands_at(
        bytes,
        head.len() + 144 * i,
        #[trigger] ts[i],
    ) by {
        let at = head.len() + 144 * i;
        let here = bytes.subrange(at as int, at + 144);
        lemma_records_at(ts, i);
        lemma_record_round_trip(ts[i]);
        lemma_auto_spec_u64_to_from_le_bytes();
        assert(144 * (i + 1) <= body.len());
        assert(here =~= body.subrange(144 * i, 144 * (i + 1)));
        assert(here == record(ts[i]));
        assert(bytes.subrange(at as int, at + 32) =~= here.subrange(0, 32));
        assert(bytes.subrange(at + 32, at + 64) =~= here.subrange(32, 64));
        assert(bytes.subrange(at + 64, at + 72) =~= here.subrange(64, 72));
        assert(bytes.subrange(at + 72, at + 80) =~= here.subrange(72, 80));
        assert(bytes.subrange(at + 80, at + 144) =~= here.subrange(80, 144));
    }
}

/// The list of transfers that some bytes start with is what stands there: as many transfers as the
/// number in front of them says, one after the other. There is none only where the number is cut
/// off or too large, or bytes are missing.
pub proof fn transfers_are_read_where_they_stand(bytes: Seq<u8>)
    ensures
        parse_transfers(bytes) matches Some(ts) ==> parse_natural(bytes) matches Some(
            (count, used),
        ) && {
            &&& ts.len() == count
            &&& count <= u32::MAX
            &&& all_sized(ts)
            &&& forall|i: int|
                0 <= i < ts.len() ==> transfer_stands_at(bytes, used + 144 * i, #[trigger] ts[i])
        },
        parse_transfers(bytes) is None <==> match parse_natural(bytes) {
            None => true,
            Some((count, used)) => count > u32::MAX || bytes.len() < used + 144 * count,
        },
{
    if let Some((count, used)) = parse_natural(bytes) {
        if let Some(ts) = parse_transfers(bytes) {
            assert forall|i: int| 0 <= i < ts.len() implies transfer_stands_at(
                bytes,
                used + 144 * i,
                #[trigger] ts[i],
            ) && ts[i].sized() by {
                let at = used + 144 * i;
                assert(144 * (i + 1) <= 144 * count);
                let here = bytes.subrange(at, used + 144 * (i + 1));
                assert(ts[i] == parse_record(here));
                assert(bytes.subrange(at, at + 32) =~= here.subrange(0, 32));
                assert(bytes.subrange(at + 32, at + 64) =~= here.subrange(32, 64));
                assert(bytes.subrange(at + 64, at + 72) =~= here.subrange(64, 72));
                assert(bytes.subrange(at + 72, at + 80) =~= here.subrange(72, 80));
                assert(bytes.subrange(at + 80, at + 144) =~= here.subrange(80, 144));
            }
        }
    }
}

/// A natural number below 2 to the 32 takes as many bytes as it needs: up to seven bits in one,
/// fourteen in two, and so on. The first byte says how many, and holds the most significant bits.
pub proof fn naturals_are_laid_out(n: nat)
    requires
        n <= u32::MAX,
    ensures
        n < 0x80 ==> natural(n) == seq![n as u8],
        0x80 <= n < 0x4000 ==> natural(n) == seq![(0x80 + n / 0x100) as u8, (n % 0x100) as u8],
        0x4000 <= n < 0x20_0000 ==> natural(n) == seq![
            (0xc0 + n / 0x1_0000) as u8,
            (n % 0x100) as u8,
            ((n / 0x100) % 0x100) as u8,
        ],
        0x20_0000 <= n < 0x1000_0000 ==> natural(n) == seq![
            (0xe0 + n / 0x100_0000) as u8,
            (n % 0x100) as u8,
            ((n / 0x100) % 0x100) as u8,
            ((n / 0x1_0000) % 0x100) as u8,
        ],
        0x1000_0000 <= n ==> natural(n) == seq![
            0xf0u8,
            (n % 0x100) as u8,
            ((n / 0x100) % 0x100) as u8,
            ((n / 0x1_0000) % 0x100) as u8,
            (n / 0x100_0000) as u8,
        ],
{
    lemma_places();
    let len = natural_tail_len(n);
    let m = n % place(len);
    lemma_four_bytes(m);
    if len == 0 {
        assert(n / 1 == n);
        assert(natural(n) =~= seq![n as u8]);
    } else if len == 1 {
        assert(m == n % 0x100);
        assert(natural(n) =~= seq![(0x80 + n / 0x100) as u8, (n % 0x100) as u8]);
    } else if len == 2 {
        let high = n / 0x1_0000;
        assert(m == n % 0x1_0000);
        assert(n == 0x1_0000 * high + m);
        assert(n / 256 == 0x100 * high + m / 256);
        assert(natural(n) =~= seq![
            (0xc0 + n / 0x1_0000) as u8,
            (n % 0x100) as u8,
            ((n / 0x100) % 0x100) as u8,
        ]);
    } else if len == 3 {
        let high = n / 0x100_0000;
        assert(m == n % 0x100_0000);
        assert(n == 0x100_0000 * high + m);
        assert(n / 256 == 0x1_0000 * high + m / 256);
        assert(n / 0x1_0000 == 0x100 * high + m / 0x1_0000);
        assert(natural(n) =~= seq![
            (0xe0 + n / 0x100_0000) as u8,
            (n % 0x100) as u8,
            ((n / 0x100) % 0x100) as u8,
            ((n / 0x1_0000) % 0x100) as u8,
        ]);
    } else {
        assert(len == 4 && m == n % 0x1_0000_0000);
        assert(n / 0x1_0000_0000 == 0 && m == n);
        assert((n / 0x100_0000) % 0x100 == n / 0x100_0000);
        assert(natural(n) =~= seq![
            0xf0u8,
            (n % 0x100) as u8,
            ((n / 0x100) % 0x100) as u8,
            ((n / 0x1_0000) % 0x100) as u8,
            (n / 0x100_0000) as u8,
        ]);
    }
}

/// The first places.
proof fn lemma_places()
    ensures
        place(0) == 1,
        place(1) == 0x100,
        place(2) == 0x1_0000,
        place(3) == 0x100_0000,
        place(4) == 0x1_0000_0000,
{
    reveal_with_fuel(place, 6);
}

/// The least significant bytes of a number, up to four of them.
proof fn lemma_four_bytes(m: nat)
    ensures
        little_endian_bytes(m, 0) == Seq::<u8>::empty(),
        little_endian_bytes(m, 1) == seq![(m % 0x100) as u8],
        little_endian_bytes(m, 2) == seq![(m % 0x100) as u8, ((m / 0x100) % 0x100) as u8],
        little_endian_bytes(m, 3) == seq![
            (m % 0x100) as u8,
            ((m / 0x100) % 0x100) as u8,
            ((m / 0x1_0000) % 0x100) as u8,
        ],
        little_endian_bytes(m, 4) == seq![
            (m % 0x100) as u8,
            ((m / 0x100) % 0x100) as u8,
            ((m / 0x1_0000) % 0x100) as u8,
            ((m / 0x100_0000) % 0x100) as u8,
        ],
{
    reveal_with_fuel(little_endian_bytes, 5);
    assert((m / 256) / 256 == m / 0x1_0000);
    assert(((m / 256) / 256) / 256 == m / 0x100_0000);
    assert(little_endian_bytes(m, 1) =~= seq![(m % 0x100) as u8]);
    assert(little_endian_bytes(m, 2) =~= seq![(m % 0x100) as u8, ((m / 0x100) % 0x100) as u8]);
    assert(little_endian_bytes(m, 3) =~= seq![
        (m % 0x100) as u8,
        ((m / 0x100) % 0x100) as u8,
        ((m / 0x1_0000) % 0x100) as u8,
    ]);
    assert(little_endian_bytes(m, 4) =~= seq![
        (m % 0x100) as u8,
        ((m / 0x100) % 0x100) as u8,
        ((m / 0x1_0000) % 0x100) as u8,
        ((m / 0x100_0000) % 0x100) as u8,
    ]);
}

/// A natural number is read back from its bytes, whatever follows them.
pub proof fn naturals_are_read_back(n: nat, rest: Seq<u8>)
    requires
        n <= u32::MAX,
    ensures
        parse_natural(natural(n) + rest) == Some((n, natural(n).len())),
{
    lemma_natural_round_trip(n, rest);
}

/// A refinement output is a byte that says what it is, and then its roots, 32 bytes each, the old
/// one first; it is read from no other bytes, and what follows it is ignored.
pub proof fn outputs_are_laid_out(bytes: Seq<u8>, old_root: Seq<u8>, new_root: Seq<u8>)
    requires
        old_root.len() == 32,
        new_root.len() == 32,
    ensures
        output_bytes(OutputView::TransferBatch { old_root, new_root }) == seq![0u8] + old_root
            + new_root,
        output_bytes(OutputView::Reset { new_root }) == seq![1u8] + new_root,
        parse_output(bytes) == Some(OutputView::TransferBatch { old_root, new_root }) <==> {
            &&& bytes.len() >= 65
            &&& bytes.take(65) == seq![0u8] + old_root + new_root
        },
        parse_output(bytes) == Some(OutputView::Reset { new_root }) <==> {
            &&& bytes.len() >= 33
            &&& bytes.take(33) == seq![1u8] + new_root
        },
        parse_output(bytes) is None <==> {
            ||| bytes.len() == 0
            ||| bytes[0] > 1
            ||| bytes[0] == 0 && bytes.len() < 65
            ||| bytes[0] == 1 && bytes.len() < 33
        },
{
    let batch = seq![0u8] + old_root + new_root;
    let reset = seq![1u8] + new_root;
    if bytes.len() >= 65 {
        if bytes.take(65) == batch {
            assert(bytes[0] == bytes.take(65)[0]);
            assert(bytes.subrange(1, 33) =~= bytes.take(65).subrange(1, 33));
            assert(batch.subrange(1, 33) =~= old_root);
            assert(bytes.subrange(33, 65) =~= bytes.take(65).subrange(33, 65));
            assert(batch.subrange(33, 65) =~= new_root);
        }
        if parse_output(bytes) == Some(OutputView::TransferBatch { old_root, new_root }) {
            assert(bytes.take(65) =~= seq![bytes[0]] + bytes.subrange(1, 33) + bytes.subrange(
                33,
                65,
            ));
        }
    }
    if bytes.len() >= 33 {
        if bytes.take(33) == reset {
            assert(bytes[0] == bytes.take(33)[0]);
            assert(bytes.subrange(1, 33) =~= bytes.take(33).subrange(1, 33));
            assert(reset.subrange(1, 33) =~= new_root);
        }
        if parse_output(bytes) == Some(OutputView::Reset { new_root }) {
            assert(bytes.take(33) =~= seq![bytes[0]] + bytes.subrange(1, 33));
        }
    }
}

/// Reading a refinement output gives back what was written, whatever follows it.
pub proof fn output_round_trip(output: RefinementOutput, rest: Seq<u8>)
    ensures
        parse_output(output_bytes(output@) + rest) == Some(output@),
{
    let bytes = output_bytes(output@) + rest;
    match output@ {
        OutputView::TransferBatch { old_root, new_root } => {
            assert(bytes.subrange(1, 33) =~= old_root);
            assert(bytes.subrange(33, 65) =~= new_root);
        },
        OutputView::Reset { new_root } => {
            assert(bytes.subrange(1, 33) =~= new_root);
        },
    }
}

} // verus!
